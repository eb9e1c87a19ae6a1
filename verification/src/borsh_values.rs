//! The calls into the `borsh` crate, one per kind of value and direction.
//!
//! Nothing here is proved. Each function states of one `borsh` implementation
//! what the format in [`crate::wire`] says of that kind of value; the records
//! built from these values are put together, and proved, elsewhere.

use borsh::BorshDeserialize;
use borsh::BorshSerialize;
use vstd::prelude::*;
use crate::wire::{
    blob_bytes, blob_fits, counts_bytes, counts_fit, parse_blob, parse_counts, parse_text,
    parse_texts, parse_u64, parse_u8, text_bytes, text_fits, texts_bytes, texts_fit, u64_bytes,
    u8_bytes,
};

verus! {

/// `try_to_vec` of `borsh::BorshSerialize` for `u8`. Always succeeds; the
/// result is the byte alone.
#[verifier::external_body]
pub(crate) fn u8_to_vec(value: u8) -> (bytes: Option<Vec<u8>>)
    ensures
        bytes is Some,
        bytes->0@ == u8_bytes(value),
{
    match value.try_to_vec() {
        Ok(bytes) => Some(bytes),
        Err(_) => None,
    }
}

/// `try_to_vec` of `borsh::BorshSerialize` for `u64`. Always succeeds; the
/// result is the eight bytes of the number, least significant first.
#[verifier::external_body]
pub(crate) fn u64_to_vec(value: u64) -> (bytes: Option<Vec<u8>>)
    ensures
        bytes is Some,
        bytes->0@ == u64_bytes(value),
{
    match value.try_to_vec() {
        Ok(bytes) => Some(bytes),
        Err(_) => None,
    }
}

/// `try_to_vec` of `borsh::BorshSerialize` for `Vec<u8>`. Succeeds when the
/// length fits in 32 bits; the result is that length in four bytes, least
/// significant first, and then the bytes.
#[verifier::external_body]
pub(crate) fn blob_to_vec(value: &Vec<u8>) -> (bytes: Option<Vec<u8>>)
    ensures
        bytes is Some <==> blob_fits(value@),
        bytes is Some ==> bytes->0@ == blob_bytes(value@),
{
    match value.try_to_vec() {
        Ok(bytes) => Some(bytes),
        Err(_) => None,
    }
}

/// `try_to_vec` of `borsh::BorshSerialize` for `String`. Succeeds when the
/// length of the UTF-8 form fits in 32 bits; the result is that length in four
/// bytes, least significant first, and then the UTF-8 form.
#[verifier::external_body]
pub(crate) fn text_to_vec(value: &String) -> (bytes: Option<Vec<u8>>)
    ensures
        bytes is Some <==> text_fits(value@),
        bytes is Some ==> bytes->0@ == text_bytes(value@),
{
    match value.try_to_vec() {
        Ok(bytes) => Some(bytes),
        Err(_) => None,
    }
}

/// `try_to_vec` of `borsh::BorshSerialize` for `Vec<u32>`. Succeeds when the
/// number of items fits in 32 bits; the result is that number in four bytes
/// and then each item in four bytes, all least significant first.
#[verifier::external_body]
pub(crate) fn counts_to_vec(value: &Vec<u32>) -> (bytes: Option<Vec<u8>>)
    ensures
        bytes is Some <==> counts_fit(value@),
        bytes is Some ==> bytes->0@ == counts_bytes(value@),
{
    match value.try_to_vec() {
        Ok(bytes) => Some(bytes),
        Err(_) => None,
    }
}

/// `try_to_vec` of `borsh::BorshSerialize` for `Vec<String>`. Succeeds when the
/// number of items and the UTF-8 length of each fit in 32 bits; the result is
/// that number in four bytes and then each item as a `String` is written.
#[verifier::external_body]
pub(crate) fn texts_to_vec(value: &Vec<String>) -> (bytes: Option<Vec<u8>>)
    ensures
        bytes is Some <==> texts_fit(value.deep_view()),
        bytes is Some ==> bytes->0@ == texts_bytes(value.deep_view()),
{
    match value.try_to_vec() {
        Ok(bytes) => Some(bytes),
        Err(_) => None,
    }
}

/// `deserialize` of `borsh::BorshDeserialize` for `u8`. Takes the first byte
/// and leaves the others; fails on an empty input.
#[verifier::external_body]
pub(crate) fn take_u8<'a>(input: &'a [u8]) -> (taken: Option<(u8, &'a [u8])>)
    ensures
        match taken {
            Some((value, rest)) => parse_u8(input@) == Some((value, rest@)),
            None => parse_u8(input@) is None,
        },
{
    let mut rest = input;
    match u8::deserialize(&mut rest) {
        Ok(value) => Some((value, rest)),
        Err(_) => None,
    }
}

/// `deserialize` of `borsh::BorshDeserialize` for `u64`. Takes eight bytes as a
/// number, least significant first, and leaves the others; fails on fewer.
#[verifier::external_body]
pub(crate) fn take_u64<'a>(input: &'a [u8]) -> (taken: Option<(u64, &'a [u8])>)
    ensures
        match taken {
            Some((value, rest)) => parse_u64(input@) == Some((value, rest@)),
            None => parse_u64(input@) is None,
        },
{
    let mut rest = input;
    match u64::deserialize(&mut rest) {
        Ok(value) => Some((value, rest)),
        Err(_) => None,
    }
}

/// `deserialize` of `borsh::BorshDeserialize` for `Vec<u8>`. Takes a length of
/// four bytes and then that many bytes, and leaves the others; fails where the
/// input ends before that.
#[verifier::external_body]
pub(crate) fn take_blob<'a>(input: &'a [u8]) -> (taken: Option<(Vec<u8>, &'a [u8])>)
    ensures
        match taken {
            Some((value, rest)) => parse_blob(input@) == Some((value@, rest@)),
            None => parse_blob(input@) is None,
        },
{
    let mut rest = input;
    match Vec::<u8>::deserialize(&mut rest) {
        Ok(value) => Some((value, rest)),
        Err(_) => None,
    }
}

/// `deserialize` of `borsh::BorshDeserialize` for `String`. Takes a length of
/// four bytes and then that many bytes as UTF-8, and leaves the others; fails
/// where the input ends before that or the bytes are not valid UTF-8.
#[verifier::external_body]
pub(crate) fn take_text<'a>(input: &'a [u8]) -> (taken: Option<(String, &'a [u8])>)
    ensures
        match taken {
            Some((value, rest)) => parse_text(input@) == Some((value@, rest@)),
            None => parse_text(input@) is None,
        },
{
    let mut rest = input;
    match String::deserialize(&mut rest) {
        Ok(value) => Some((value, rest)),
        Err(_) => None,
    }
}

/// `deserialize` of `borsh::BorshDeserialize` for `Vec<u32>`. Takes a number of
/// four bytes and then that many items of four bytes, and leaves the others;
/// fails where the input ends before that.
#[verifier::external_body]
pub(crate) fn take_counts<'a>(input: &'a [u8]) -> (taken: Option<(Vec<u32>, &'a [u8])>)
    ensures
        match taken {
            Some((value, rest)) => parse_counts(input@) == Some((value@, rest@)),
            None => parse_counts(input@) is None,
        },
{
    let mut rest = input;
    match Vec::<u32>::deserialize(&mut rest) {
        Ok(value) => Some((value, rest)),
        Err(_) => None,
    }
}

/// `deserialize` of `borsh::BorshDeserialize` for `Vec<String>`. Takes a number
/// of four bytes and then that many items, each as a `String` is read, and
/// leaves the others; fails where any item does.
#[verifier::external_body]
pub(crate) fn take_texts<'a>(input: &'a [u8]) -> (taken: Option<(Vec<String>, &'a [u8])>)
    ensures
        match taken {
            Some((value, rest)) => parse_texts(input@) == Some((value.deep_view(), rest@)),
            None => parse_texts(input@) is None,
        },
{
    let mut rest = input;
    match Vec::<String>::deserialize(&mut rest) {
        Ok(value) => Some((value, rest)),
        Err(_) => None,
    }
}

} // verus!
