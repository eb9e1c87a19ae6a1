//! The time stamp that a new poll carries: the host's Unix time in decimal, or
//! a fixed text where the host has no clock to offer.

use solana_program::clock::Clock;
use solana_program::sysvar::Sysvar;
use vstd::prelude::*;
use vstd::string::StringExecFns;

verus! {

/// The character that stands for a value below ten.
pub open spec fn digit(value: nat) -> char {
    seq!['0', '1', '2', '3', '4', '5', '6', '7', '8', '9'][value as int]
}

/// The decimal digits of `n`, most significant first, with no leading zero.
pub open spec fn decimal_digits(n: nat) -> Seq<char>
    decreases n,
{
    if n < 10 {
        seq![digit(n)]
    } else {
        decimal_digits(n / 10).push(digit(n % 10))
    }
}

/// `n` in decimal, with a minus sign in front where it is negative.
pub open spec fn decimal(n: int) -> Seq<char> {
    if n < 0 {
        seq!['-'] + decimal_digits((-n) as nat)
    } else {
        decimal_digits(n as nat)
    }
}

/// The text that stands in for the time where the host has no clock.
pub open spec fn no_clock_stamp() -> Seq<char> {
    "0000000000"@
}

/// The stamp for a reading of the host clock.
pub open spec fn stamp(now: Option<i64>) -> Seq<char> {
    match now {
        Some(seconds) => decimal(seconds as int),
        None => no_clock_stamp(),
    }
}

/// Reads the host clock with `Clock::get` of `solana_program` and hands back
/// its Unix time, or `None` where the host reports no clock. Nothing is
/// claimed of the value: it differs from call to call.
#[verifier::external_body]
pub(crate) fn host_unix_timestamp() -> (now: Option<i64>) {
    match Clock::get() {
        Ok(clock) => Some(clock.unix_timestamp),
        Err(_) => None,
    }
}

fn digit_text(value: u64) -> (text: &'static str)
    requires
        value < 10,
    ensures
        text@ == seq![digit(value as nat)],
{
    proof {
        reveal_strlit("0");
        reveal_strlit("1");
        reveal_strlit("2");
        reveal_strlit("3");
        reveal_strlit("4");
        reveal_strlit("5");
        reveal_strlit("6");
        reveal_strlit("7");
        reveal_strlit("8");
        reveal_strlit("9");
    }
    let text = if value == 0 {
        "0"
    } else if value == 1 {
        "1"
    } else if value == 2 {
        "2"
    } else if value == 3 {
        "3"
    } else if value == 4 {
        "4"
    } else if value == 5 {
        "5"
    } else if value == 6 {
        "6"
    } else if value == 7 {
        "7"
    } else if value == 8 {
        "8"
    } else {
        "9"
    };
    assert(text@ =~= seq![digit(value as nat)]);
    text
}

fn append_digits(n: u64, out: &mut String)
    ensures
        final(out)@ == old(out)@ + decimal_digits(n as nat),
    decreases n,
{
    if n >= 10 {
        append_digits(n / 10, out);
    }
    out.append(digit_text(n % 10));
    assert(out@ =~= old(out)@ + decimal_digits(n as nat));
}

/// Writes `n` in decimal.
pub fn decimal_string(n: i64) -> (text: String)
    ensures
        text@ == decimal(n as int),
{
    let mut text = String::new();
    if n < 0 {
        proof {
            reveal_strlit("-");
        }
        text.append("-");
        let magnitude: u64 = (-(n + 1)) as u64 + 1;
        append_digits(magnitude, &mut text);
        assert(text@ =~= decimal(n as int));
    } else {
        append_digits(n as u64, &mut text);
        assert(text@ =~= decimal(n as int));
    }
    text
}

/// The stamp for a reading of the host clock, as a `String`.
pub fn stamp_string(now: Option<i64>) -> (text: String)
    ensures
        text@ == stamp(now),
{
    match now {
        Some(seconds) => decimal_string(seconds),
        None => String::from_str("0000000000"),
    }
}

} // verus!
