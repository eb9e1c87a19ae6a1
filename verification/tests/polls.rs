use poll_rust_program::clock::{decimal_string, stamp_string};
use poll_rust_program::{Poll, SolanaPollError};

fn texts(items: &[&str]) -> Vec<String> {
    items.iter().map(|item| item.to_string()).collect()
}

fn make(now: Option<i64>) -> Poll {
    Poll::create(
        "wallet".to_string(),
        "owner".to_string(),
        "7".to_string(),
        "Tea or coffee?".to_string(),
        texts(&["tea", "coffee", "tea"]),
        3,
        now,
    )
    .unwrap()
}

#[test]
fn decimal_string_of_small_and_large_numbers() {
    assert_eq!(decimal_string(0), "0");
    assert_eq!(decimal_string(7), "7");
    assert_eq!(decimal_string(10), "10");
    assert_eq!(decimal_string(1_700_000_000), "1700000000");
    assert_eq!(decimal_string(-1), "-1");
    assert_eq!(decimal_string(-120), "-120");
    assert_eq!(decimal_string(i64::MAX), "9223372036854775807");
    assert_eq!(decimal_string(i64::MIN), "-9223372036854775808");
}

#[test]
fn decimal_string_agrees_with_std() {
    let mut n: i64 = 1;
    for _ in 0..62 {
        assert_eq!(decimal_string(n), n.to_string());
        assert_eq!(decimal_string(-n), (-n).to_string());
        assert_eq!(decimal_string(n - 1), (n - 1).to_string());
        n *= 2;
    }
}

#[test]
fn stamp_without_a_clock_is_ten_zeros() {
    assert_eq!(stamp_string(None), "0000000000");
    assert_eq!(stamp_string(Some(0)), "0");
    assert_eq!(stamp_string(Some(1_650_000_000)), "1650000000");
}

#[test]
fn create_keeps_the_values_and_zeroes_the_votes() {
    let poll = make(Some(1_700_000_000));
    assert_eq!(
        poll,
        Poll {
            wallet_publickey: "wallet".to_string(),
            owner: "owner".to_string(),
            id: "7".to_string(),
            question: "Tea or coffee?".to_string(),
            options: texts(&["tea", "coffee", "tea"]),
            votes: vec![0, 0, 0],
            seed_bump: 3,
            timestamp: "1700000000".to_string(),
        }
    );
}

#[test]
fn create_without_a_clock_uses_the_fixed_stamp() {
    assert_eq!(make(None).timestamp, "0000000000");
}

#[test]
fn create_with_one_option() {
    let poll = Poll::create(
        "w".to_string(),
        "o".to_string(),
        "i".to_string(),
        "q".to_string(),
        texts(&[""]),
        0,
        Some(-5),
    )
    .unwrap();
    assert_eq!(poll.options, vec![String::new()]);
    assert_eq!(poll.votes, vec![0]);
    assert_eq!(poll.timestamp, "-5");
}

#[test]
fn create_reports_the_one_empty_value() {
    let full = ["w", "o", "i", "q"];
    let names = ["Wallet Public Key", "Owner", "Id", "Question"];
    for missing in 0..4 {
        let mut values = full.map(|value| value.to_string());
        values[missing] = String::new();
        let [wallet_publickey, owner, id, question] = values;
        let made = Poll::create(wallet_publickey, owner, id, question, texts(&["a"]), 1, None);
        assert_eq!(made, Err(SolanaPollError::PropertyNotFound(names[missing].to_string())));
    }
    let made = Poll::create(
        "w".to_string(),
        "o".to_string(),
        "i".to_string(),
        "q".to_string(),
        vec![],
        1,
        None,
    );
    assert_eq!(made, Err(SolanaPollError::NoOptionsProvided));
}

#[test]
fn create_reports_the_first_empty_value() {
    let made = Poll::create(
        "w".to_string(),
        String::new(),
        String::new(),
        "q".to_string(),
        vec![],
        1,
        None,
    );
    assert_eq!(made, Err(SolanaPollError::PropertyNotFound("Owner".to_string())));
    let made =
        Poll::create(String::new(), String::new(), String::new(), String::new(), vec![], 1, None);
    assert_eq!(made, Err(SolanaPollError::PropertyNotFound("Wallet Public Key".to_string())));
    let made = Poll::create(
        "w".to_string(),
        "o".to_string(),
        "i".to_string(),
        String::new(),
        vec![],
        1,
        None,
    );
    assert_eq!(made, Err(SolanaPollError::PropertyNotFound("Question".to_string())));
}

#[test]
fn new_stamps_with_the_host_clock_or_the_fixed_stamp() {
    let poll = Poll::new(
        "wallet".to_string(),
        "owner".to_string(),
        "7".to_string(),
        "Tea or coffee?".to_string(),
        texts(&["tea", "coffee"]),
        9,
    )
    .unwrap();
    assert_eq!(poll.votes, vec![0, 0]);
    assert_eq!(poll.seed_bump, 9);
    let stamp = poll.timestamp.as_str();
    let digits = stamp.strip_prefix('-').unwrap_or(stamp);
    assert!(!digits.is_empty());
    assert!(digits.chars().all(|c| c.is_ascii_digit()));
    assert!(stamp == "0000000000" || stamp.parse::<i64>().unwrap().to_string() == stamp);
}

#[test]
fn error_messages() {
    assert_eq!(
        SolanaPollError::PropertyNotFound("Owner".to_string()).to_string(),
        "Owner not found"
    );
    assert_eq!(SolanaPollError::PropertyNotFound(String::new()).to_string(), " not found");
    assert_eq!(SolanaPollError::NoOptionsProvided.to_string(), "No options provided");
    assert_eq!(SolanaPollError::InvalidInputOption.to_string(), "Invalid input option");
}

#[test]
fn position_finds_the_first_equal_option() {
    let poll = make(None);
    assert_eq!(poll.position(&"tea".to_string()), Some(0));
    assert_eq!(poll.position(&"coffee".to_string()), Some(1));
    assert_eq!(poll.position(&"Tea".to_string()), None);
    assert_eq!(poll.position(&"".to_string()), None);
}

#[test]
fn cast_vote_counts_for_the_first_equal_option_only() {
    let mut poll = make(Some(5));
    assert_eq!(poll.cast_vote(&"tea".to_string()), Ok(()));
    assert_eq!(poll.votes, vec![1, 0, 0]);
    assert_eq!(poll.cast_vote(&"coffee".to_string()), Ok(()));
    assert_eq!(poll.cast_vote(&"tea".to_string()), Ok(()));
    assert_eq!(poll.votes, vec![2, 1, 0]);
    let untouched = make(Some(5));
    assert_eq!(poll.wallet_publickey, untouched.wallet_publickey);
    assert_eq!(poll.owner, untouched.owner);
    assert_eq!(poll.id, untouched.id);
    assert_eq!(poll.question, untouched.question);
    assert_eq!(poll.options, untouched.options);
    assert_eq!(poll.seed_bump, untouched.seed_bump);
    assert_eq!(poll.timestamp, untouched.timestamp);
}

#[test]
fn cast_vote_for_an_absent_option_changes_nothing() {
    let mut poll = make(Some(5));
    poll.cast_vote(&"coffee".to_string()).unwrap();
    let before = poll.try_to_vec().unwrap();
    assert_eq!(poll.cast_vote(&"water".to_string()), Err(SolanaPollError::InvalidInputOption));
    assert_eq!(poll.cast_vote(&"te".to_string()), Err(SolanaPollError::InvalidInputOption));
    assert_eq!(poll.votes, vec![0, 1, 0]);
    assert_eq!(poll.try_to_vec().unwrap(), before);
}

#[test]
fn has_room_until_the_counter_is_full() {
    let mut poll = make(None);
    poll.votes[1] = u32::MAX - 1;
    assert!(poll.has_room(&"coffee".to_string()));
    assert_eq!(poll.cast_vote(&"coffee".to_string()), Ok(()));
    assert_eq!(poll.votes, vec![0, u32::MAX, 0]);
    assert!(!poll.has_room(&"coffee".to_string()));
    assert!(poll.has_room(&"tea".to_string()));
    assert!(poll.has_room(&"water".to_string()));
    poll.votes.truncate(1);
    assert!(poll.has_room(&"tea".to_string()));
    assert!(!poll.has_room(&"coffee".to_string()));
}
