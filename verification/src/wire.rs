//! The byte format of the values that records are made of.
//!
//! Every value is laid out the way Borsh lays it out: integers in little-endian
//! order at their fixed width, and byte strings, texts and lists behind a
//! 32-bit length. The format is given here twice, as the bytes of a value and
//! as the reading of a value off the front of a byte sequence, and the two are
//! proved to agree.

use vstd::prelude::*;
use vstd::utf8::*;

verus! {

/// The largest length that a length prefix can hold.
pub open spec fn max_len() -> nat {
    0xffff_ffff
}

/// The number of values that `width` bytes can tell apart.
pub open spec fn radix(width: nat) -> nat
    decreases width,
{
    if width == 0 {
        1
    } else {
        256 * radix((width - 1) as nat)
    }
}

/// The `width` low bytes of `value`, least significant first.
pub open spec fn le_bytes(value: nat, width: nat) -> Seq<u8>
    decreases width,
{
    if width == 0 {
        Seq::empty()
    } else {
        seq![(value % 256) as u8] + le_bytes(value / 256, (width - 1) as nat)
    }
}

/// The number that `bytes` spell, least significant byte first.
pub open spec fn le_value(bytes: Seq<u8>) -> nat
    decreases bytes.len(),
{
    if bytes.len() == 0 {
        0
    } else {
        bytes[0] as nat + 256 * le_value(bytes.skip(1))
    }
}

/// A byte is written as itself.
pub open spec fn u8_bytes(value: u8) -> Seq<u8> {
    seq![value]
}

/// A 32-bit number takes four bytes.
pub open spec fn u32_bytes(value: u32) -> Seq<u8> {
    le_bytes(value as nat, 4)
}

/// A 64-bit number takes eight bytes.
pub open spec fn u64_bytes(value: u64) -> Seq<u8> {
    le_bytes(value as nat, 8)
}

/// A byte string: its length, then the bytes themselves.
pub open spec fn blob_bytes(blob: Seq<u8>) -> Seq<u8> {
    le_bytes(blob.len(), 4) + blob
}

/// A text: its UTF-8 form as a byte string.
pub open spec fn text_bytes(text: Seq<char>) -> Seq<u8> {
    blob_bytes(encode_utf8(text))
}

/// The encodings of `items`, one after the other.
pub open spec fn items_bytes<T>(items: Seq<T>, item_bytes: spec_fn(T) -> Seq<u8>) -> Seq<u8>
    decreases items.len(),
{
    if items.len() == 0 {
        Seq::empty()
    } else {
        item_bytes(items[0]) + items_bytes(items.skip(1), item_bytes)
    }
}

/// A list of counters: how many there are, then each of them.
pub open spec fn counts_bytes(counts: Seq<u32>) -> Seq<u8> {
    le_bytes(counts.len(), 4) + items_bytes(counts, |count: u32| u32_bytes(count))
}

/// A list of texts: how many there are, then each of them.
pub open spec fn texts_bytes(texts: Seq<Seq<char>>) -> Seq<u8> {
    le_bytes(texts.len(), 4) + items_bytes(texts, |text: Seq<char>| text_bytes(text))
}

/// A byte string can be written when its length fits the prefix.
pub open spec fn blob_fits(blob: Seq<u8>) -> bool {
    blob.len() <= max_len()
}

/// A text can be written when its UTF-8 form can.
pub open spec fn text_fits(text: Seq<char>) -> bool {
    blob_fits(encode_utf8(text))
}

/// A list of counters can be written when its length fits the prefix.
pub open spec fn counts_fit(counts: Seq<u32>) -> bool {
    counts.len() <= max_len()
}

/// A list of texts can be written when its length and that of each text fit.
pub open spec fn texts_fit(texts: Seq<Seq<char>>) -> bool {
    &&& texts.len() <= max_len()
    &&& forall|i: int| 0 <= i < texts.len() ==> text_fits(#[trigger] texts[i])
}

/// What reading one value off the front of a byte sequence gives: the value
/// and the bytes behind it, or nothing where the front is no such value.
pub type Parsed<T> = Option<(T, Seq<u8>)>;

/// Reads the first byte.
pub open spec fn parse_u8(input: Seq<u8>) -> Parsed<u8> {
    if input.len() < 1 {
        None
    } else {
        Some((input[0], input.skip(1)))
    }
}

/// Reads the first four bytes as a number.
pub open spec fn parse_u32(input: Seq<u8>) -> Parsed<u32> {
    if input.len() < 4 {
        None
    } else {
        Some((le_value(input.take(4)) as u32, input.skip(4)))
    }
}

/// Reads the first eight bytes as a number.
pub open spec fn parse_u64(input: Seq<u8>) -> Parsed<u64> {
    if input.len() < 8 {
        None
    } else {
        Some((le_value(input.take(8)) as u64, input.skip(8)))
    }
}

/// Reads a length and then as many bytes as it says.
pub open spec fn parse_blob(input: Seq<u8>) -> Parsed<Seq<u8>> {
    match parse_u32(input) {
        None => None,
        Some((len, rest)) => if rest.len() < len {
            None
        } else {
            Some((rest.take(len as int), rest.skip(len as int)))
        },
    }
}

/// A text is a byte string that is valid UTF-8.
pub open spec fn parse_text(input: Seq<u8>) -> Parsed<Seq<char>> {
    match parse_blob(input) {
        None => None,
        Some((blob, rest)) => if valid_utf8(blob) {
            Some((decode_utf8(blob), rest))
        } else {
            None
        },
    }
}

/// Reads `count` values one after the other; nothing where any of them fails.
pub open spec fn parse_items<T>(
    input: Seq<u8>,
    count: nat,
    parse_item: spec_fn(Seq<u8>) -> Parsed<T>,
) -> Parsed<Seq<T>>
    decreases count,
{
    if count == 0 {
        Some((Seq::empty(), input))
    } else {
        match parse_item(input) {
            None => None,
            Some((first, rest)) => match parse_items(rest, (count - 1) as nat, parse_item) {
                None => None,
                Some((others, tail)) => Some((seq![first] + others, tail)),
            },
        }
    }
}

/// Reads a number and then as many counters as it says.
pub open spec fn parse_counts(input: Seq<u8>) -> Parsed<Seq<u32>> {
    match parse_u32(input) {
        None => None,
        Some((len, rest)) => parse_items(rest, len as nat, |bytes: Seq<u8>| parse_u32(bytes)),
    }
}

/// Reads a number and then as many texts as it says.
pub open spec fn parse_texts(input: Seq<u8>) -> Parsed<Seq<Seq<char>>> {
    match parse_u32(input) {
        None => None,
        Some((len, rest)) => parse_items(rest, len as nat, |bytes: Seq<u8>| parse_text(bytes)),
    }
}

/// `le_bytes` gives as many bytes as it is asked for.
pub proof fn lemma_le_bytes_len(value: nat, width: nat)
    ensures
        le_bytes(value, width).len() == width,
    decreases width,
{
    if width > 0 {
        lemma_le_bytes_len(value / 256, (width - 1) as nat);
    }
}

/// A number below `radix(width)` is read back from its `width` bytes.
pub proof fn lemma_le_value_of_bytes(value: nat, width: nat)
    requires
        value < radix(width),
    ensures
        le_value(le_bytes(value, width)) == value,
    decreases width,
{
    if width > 0 {
        let bytes = le_bytes(value, width);
        let high = le_bytes(value / 256, (width - 1) as nat);
        lemma_le_bytes_len(value / 256, (width - 1) as nat);
        assert(bytes.skip(1) =~= high);
        lemma_le_value_of_bytes(value / 256, (width - 1) as nat);
    }
}

/// What `bytes` spell lies below `radix` of their number.
pub proof fn lemma_le_value_bound(bytes: Seq<u8>)
    ensures
        le_value(bytes) < radix(bytes.len()),
    decreases bytes.len(),
{
    if bytes.len() > 0 {
        lemma_le_value_bound(bytes.skip(1));
    }
}

/// Four bytes tell 2^32 values apart, and eight bytes 2^64.
pub proof fn lemma_radix_values()
    ensures
        radix(4) == 0x1_0000_0000,
        radix(8) == 0x1_0000_0000_0000_0000,
{
    reveal_with_fuel(radix, 9);
}

/// Reading a byte back, whatever follows it.
pub proof fn lemma_parse_u8(value: u8, rest: Seq<u8>)
    ensures
        parse_u8(u8_bytes(value) + rest) == Some((value, rest)),
{
    assert((u8_bytes(value) + rest).skip(1) =~= rest);
}

/// Reading a 32-bit number back, whatever follows it.
pub proof fn lemma_parse_u32(value: u32, rest: Seq<u8>)
    ensures
        parse_u32(u32_bytes(value) + rest) == Some((value, rest)),
{
    let bytes = u32_bytes(value);
    lemma_radix_values();
    lemma_le_bytes_len(value as nat, 4);
    lemma_le_value_of_bytes(value as nat, 4);
    assert((bytes + rest).take(4) =~= bytes);
    assert((bytes + rest).skip(4) =~= rest);
}

/// Reading a 64-bit number back, whatever follows it.
pub proof fn lemma_parse_u64(value: u64, rest: Seq<u8>)
    ensures
        parse_u64(u64_bytes(value) + rest) == Some((value, rest)),
{
    let bytes = u64_bytes(value);
    lemma_radix_values();
    lemma_le_bytes_len(value as nat, 8);
    lemma_le_value_of_bytes(value as nat, 8);
    assert((bytes + rest).take(8) =~= bytes);
    assert((bytes + rest).skip(8) =~= rest);
}

/// Reading a byte string back, whatever follows it.
pub proof fn lemma_parse_blob(blob: Seq<u8>, rest: Seq<u8>)
    requires
        blob_fits(blob),
    ensures
        parse_blob(blob_bytes(blob) + rest) == Some((blob, rest)),
{
    let len = blob.len() as u32;
    assert(blob_bytes(blob) + rest =~= u32_bytes(len) + (blob + rest));
    lemma_parse_u32(len, blob + rest);
    assert((blob + rest).take(len as int) =~= blob);
    assert((blob + rest).skip(len as int) =~= rest);
}

/// Reading a text back, whatever follows it.
pub proof fn lemma_parse_text(text: Seq<char>, rest: Seq<u8>)
    requires
        text_fits(text),
    ensures
        parse_text(text_bytes(text) + rest) == Some((text, rest)),
{
    lemma_parse_blob(encode_utf8(text), rest);
    encode_utf8_valid_utf8(text);
    encode_utf8_decode_utf8(text);
}

/// Reading a run of values back, whatever follows it, where each single value
/// is read back.
pub proof fn lemma_parse_items<T>(
    items: Seq<T>,
    rest: Seq<u8>,
    item_bytes: spec_fn(T) -> Seq<u8>,
    parse_item: spec_fn(Seq<u8>) -> Parsed<T>,
)
    requires
        forall|i: int, tail: Seq<u8>|
            0 <= i < items.len() ==> #[trigger] parse_item(item_bytes(items[i]) + tail) == Some(
                (items[i], tail),
            ),
    ensures
        parse_items(items_bytes(items, item_bytes) + rest, items.len(), parse_item) == Some(
            (items, rest),
        ),
    decreases items.len(),
{
    if items.len() == 0 {
        assert(items_bytes(items, item_bytes) + rest =~= rest);
        assert(items =~= Seq::empty());
    } else {
        let others = items.skip(1);
        let tail = items_bytes(others, item_bytes) + rest;
        assert(items_bytes(items, item_bytes) + rest =~= item_bytes(items[0]) + tail);
        assert(parse_item(item_bytes(items[0]) + tail) == Some((items[0], tail)));
        assert forall|i: int, tail: Seq<u8>| 0 <= i < others.len() implies #[trigger] parse_item(
            item_bytes(others[i]) + tail,
        ) == Some((others[i], tail)) by {
            assert(others[i] == items[i + 1]);
        }
        lemma_parse_items(others, rest, item_bytes, parse_item);
        assert(seq![items[0]] + others =~= items);
    }
}

/// Reading a list of counters back, whatever follows it.
pub proof fn lemma_parse_counts(counts: Seq<u32>, rest: Seq<u8>)
    requires
        counts_fit(counts),
    ensures
        parse_counts(counts_bytes(counts) + rest) == Some((counts, rest)),
{
    let len = counts.len() as u32;
    let item_bytes = |count: u32| u32_bytes(count);
    let parse_item = |bytes: Seq<u8>| parse_u32(bytes);
    let body = items_bytes(counts, item_bytes) + rest;
    assert(counts_bytes(counts) + rest =~= u32_bytes(len) + body);
    lemma_parse_u32(len, body);
    assert forall|i: int, tail: Seq<u8>| 0 <= i < counts.len() implies #[trigger] parse_item(
        item_bytes(counts[i]) + tail,
    ) == Some((counts[i], tail)) by {
        lemma_parse_u32(counts[i], tail);
    }
    lemma_parse_items(counts, rest, item_bytes, parse_item);
}

/// Reading a list of texts back, whatever follows it.
pub proof fn lemma_parse_texts(texts: Seq<Seq<char>>, rest: Seq<u8>)
    requires
        texts_fit(texts),
    ensures
        parse_texts(texts_bytes(texts) + rest) == Some((texts, rest)),
{
    let len = texts.len() as u32;
    let item_bytes = |text: Seq<char>| text_bytes(text);
    let parse_item = |bytes: Seq<u8>| parse_text(bytes);
    let body = items_bytes(texts, item_bytes) + rest;
    assert(texts_bytes(texts) + rest =~= u32_bytes(len) + body);
    lemma_parse_u32(len, body);
    assert forall|i: int, tail: Seq<u8>| 0 <= i < texts.len() implies #[trigger] parse_item(
        item_bytes(texts[i]) + tail,
    ) == Some((texts[i], tail)) by {
        lemma_parse_text(texts[i], tail);
    }
    lemma_parse_items(texts, rest, item_bytes, parse_item);
}

/// The bytes that spell a number are the low bytes of that number.
pub proof fn lemma_le_bytes_of_value(bytes: Seq<u8>)
    ensures
        le_bytes(le_value(bytes), bytes.len()) == bytes,
    decreases bytes.len(),
{
    if bytes.len() > 0 {
        let high = bytes.skip(1);
        lemma_le_bytes_of_value(high);
        let value = le_value(bytes);
        assert(value % 256 == bytes[0] as nat && value / 256 == le_value(high)) by {
            assert(value == bytes[0] as nat + 256 * le_value(high));
        }
        assert(le_bytes(value, bytes.len()) =~= bytes);
    } else {
        assert(le_bytes(le_value(bytes), 0) =~= bytes);
    }
}

/// What was read as a byte stands at the front of the input.
pub proof fn lemma_parsed_u8(input: Seq<u8>)
    ensures
        match parse_u8(input) {
            Some((value, rest)) => input == u8_bytes(value) + rest,
            None => true,
        },
{
    if let Some((value, rest)) = parse_u8(input) {
        assert(input =~= u8_bytes(value) + rest);
    }
}

/// What was read as a 32-bit number stands at the front of the input.
pub proof fn lemma_parsed_u32(input: Seq<u8>)
    ensures
        match parse_u32(input) {
            Some((value, rest)) => input == u32_bytes(value) + rest,
            None => true,
        },
{
    if let Some((value, rest)) = parse_u32(input) {
        let front = input.take(4);
        lemma_radix_values();
        lemma_le_value_bound(front);
        lemma_le_bytes_of_value(front);
        assert(input =~= front + rest);
    }
}

/// What was read as a 64-bit number stands at the front of the input.
pub proof fn lemma_parsed_u64(input: Seq<u8>)
    ensures
        match parse_u64(input) {
            Some((value, rest)) => input == u64_bytes(value) + rest,
            None => true,
        },
{
    if let Some((value, rest)) = parse_u64(input) {
        let front = input.take(8);
        lemma_radix_values();
        lemma_le_value_bound(front);
        lemma_le_bytes_of_value(front);
        assert(input =~= front + rest);
    }
}

/// What was read as a byte string can be written, and its bytes stand at the
/// front of the input.
pub proof fn lemma_parsed_blob(input: Seq<u8>)
    ensures
        match parse_blob(input) {
            Some((blob, rest)) => blob_fits(blob) && input == blob_bytes(blob) + rest,
            None => true,
        },
{
    if let Some((blob, rest)) = parse_blob(input) {
        lemma_parsed_u32(input);
        let (len, body) = parse_u32(input).unwrap();
        assert(input =~= blob_bytes(blob) + rest);
    }
}

/// What was read as a text can be written, and its bytes stand at the front
/// of the input.
pub proof fn lemma_parsed_text(input: Seq<u8>)
    ensures
        match parse_text(input) {
            Some((text, rest)) => text_fits(text) && input == text_bytes(text) + rest,
            None => true,
        },
{
    if let Some((text, rest)) = parse_text(input) {
        lemma_parsed_blob(input);
        let (blob, _) = parse_blob(input).unwrap();
        decode_utf8_encode_utf8(blob);
    }
}

/// What was read as a run of values has as many values as were asked for, and
/// their bytes stand at the front of the input, where this holds of each
/// single value.
pub proof fn lemma_parsed_items<T>(
    input: Seq<u8>,
    count: nat,
    item_bytes: spec_fn(T) -> Seq<u8>,
    parse_item: spec_fn(Seq<u8>) -> Parsed<T>,
    item_fits: spec_fn(T) -> bool,
)
    requires
        forall|bytes: Seq<u8>|
            match #[trigger] parse_item(bytes) {
                Some((item, rest)) => item_fits(item) && bytes == item_bytes(item) + rest,
                None => true,
            },
    ensures
        match parse_items(input, count, parse_item) {
            Some((items, rest)) => {
                &&& items.len() == count
                &&& input == items_bytes(items, item_bytes) + rest
                &&& forall|i: int| 0 <= i < items.len() ==> item_fits(#[trigger] items[i])
            },
            None => true,
        },
    decreases count,
{
    if let Some((items, rest)) = parse_items(input, count, parse_item) {
        if count == 0 {
            assert(input =~= items_bytes(items, item_bytes) + rest);
        } else {
            let (first, after_first) = parse_item(input).unwrap();
            lemma_parsed_items(after_first, (count - 1) as nat, item_bytes, parse_item, item_fits);
            let (others, _) = parse_items(after_first, (count - 1) as nat, parse_item).unwrap();
            assert(items.skip(1) =~= others);
            assert(input =~= items_bytes(items, item_bytes) + rest);
        }
    }
}

/// What was read as a list of counters can be written, and its bytes stand
/// at the front of the input.
pub proof fn lemma_parsed_counts(input: Seq<u8>)
    ensures
        match parse_counts(input) {
            Some((counts, rest)) => counts_fit(counts) && input == counts_bytes(counts) + rest,
            None => true,
        },
{
    if let Some((counts, rest)) = parse_counts(input) {
        lemma_parsed_u32(input);
        let (len, body) = parse_u32(input).unwrap();
        let item_bytes = |count: u32| u32_bytes(count);
        let parse_item = |bytes: Seq<u8>| parse_u32(bytes);
        let item_fits = |count: u32| true;
        assert forall|bytes: Seq<u8>|
            match #[trigger] parse_item(bytes) {
                Some((item, rest)) => item_fits(item) && bytes == item_bytes(item) + rest,
                None => true,
            } by {
            lemma_parsed_u32(bytes);
        }
        lemma_parsed_items(body, len as nat, item_bytes, parse_item, item_fits);
        assert(input =~= counts_bytes(counts) + rest);
    }
}

/// What was read as a list of texts can be written, and its bytes stand at
/// the front of the input.
pub proof fn lemma_parsed_texts(input: Seq<u8>)
    ensures
        match parse_texts(input) {
            Some((texts, rest)) => texts_fit(texts) && input == texts_bytes(texts) + rest,
            None => true,
        },
{
    if let Some((texts, rest)) = parse_texts(input) {
        lemma_parsed_u32(input);
        let (len, body) = parse_u32(input).unwrap();
        let item_bytes = |text: Seq<char>| text_bytes(text);
        let parse_item = |bytes: Seq<u8>| parse_text(bytes);
        let item_fits = |text: Seq<char>| text_fits(text);
        assert forall|bytes: Seq<u8>|
            match #[trigger] parse_item(bytes) {
                Some((item, rest)) => item_fits(item) && bytes == item_bytes(item) + rest,
                None => true,
            } by {
            lemma_parsed_text(bytes);
        }
        lemma_parsed_items(body, len as nat, item_bytes, parse_item, item_fits);
        assert(input =~= texts_bytes(texts) + rest);
    }
}

/// A list of counters takes four bytes and four more for each counter.
pub proof fn lemma_counts_bytes_len(counts: Seq<u32>)
    ensures
        counts_bytes(counts).len() == 4 + 4 * counts.len(),
{
    lemma_le_bytes_len(counts.len(), 4);
    lemma_count_items_len(counts);
}

proof fn lemma_count_items_len(counts: Seq<u32>)
    ensures
        items_bytes(counts, |count: u32| u32_bytes(count)).len() == 4 * counts.len(),
    decreases counts.len(),
{
    if counts.len() > 0 {
        lemma_le_bytes_len(counts[0] as nat, 4);
        lemma_count_items_len(counts.skip(1));
    }
}

} // verus!
