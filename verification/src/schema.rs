//! The three records and their bytes: the poll as it is stored, the vote as it
//! is sent, and the instruction that carries either.
//!
//! A record's bytes are those of its fields, in the order of declaration.
//! Writing goes through the `borsh` crate field by field; so does reading,
//! which takes the fields off the front of the input one after the other.

use vstd::prelude::*;
use crate::borsh_values::{
    blob_to_vec, counts_to_vec, take_blob, take_counts, take_text, take_texts, take_u64, take_u8,
    text_to_vec, texts_to_vec, u64_to_vec, u8_to_vec,
};
use crate::poll::{Poll, PollView};
use crate::wire::{
    blob_bytes, blob_fits, counts_bytes, counts_fit, lemma_counts_bytes_len, lemma_parse_blob,
    lemma_parse_counts, lemma_parse_text, lemma_parse_texts, lemma_parse_u64, lemma_parse_u8,
    lemma_parsed_blob, lemma_parsed_counts, lemma_parsed_text, lemma_parsed_texts,
    lemma_parsed_u64, lemma_parsed_u8, parse_blob,
    parse_counts, parse_text, parse_texts, parse_u64, parse_u8, text_bytes, text_fits,
    texts_bytes, texts_fit, u64_bytes, u8_bytes, Parsed,
};

verus! {

/// A vote as it is sent: the option voted for.
#[derive(Debug, PartialEq, Eq)]
pub struct CastVote {
    pub option: String,
}

/// A `CastVote` as a mathematical value.
pub struct CastVoteView {
    pub option: Seq<char>,
}

impl View for CastVote {
    type V = CastVoteView;

    open spec fn view(&self) -> CastVoteView {
        CastVoteView { option: self.option@ }
    }
}

/// What the program is asked to do: the operation, the record that goes with
/// it, and the size and funding of the storage to set up where one is needed.
#[derive(Debug, PartialEq, Eq)]
pub struct Instruction {
    /// 0 to create a poll, 1 to cast a vote.
    pub action: u8,
    /// The bytes of a `Poll` for action 0, of a `CastVote` for action 1.
    pub data: Vec<u8>,
    /// The size in bytes of the storage to set up.
    pub space: u64,
    /// The funds to put into the storage.
    pub lamports: u64,
}

/// An `Instruction` as a mathematical value.
pub struct InstructionView {
    pub action: u8,
    pub data: Seq<u8>,
    pub space: u64,
    pub lamports: u64,
}

impl View for Instruction {
    type V = InstructionView;

    open spec fn view(&self) -> InstructionView {
        InstructionView {
            action: self.action,
            data: self.data@,
            space: self.space,
            lamports: self.lamports,
        }
    }
}

/// Why bytes were not read as a record.
#[derive(Debug, Clone, Copy, PartialEq, Eq)]
pub enum DecodeError {
    /// The bytes do not start with a record: they end too early, or a text
    /// among them is not valid UTF-8.
    Malformed,
    /// A record was read and bytes were left over.
    TrailingBytes,
}

/// Why a record was not written.
#[derive(Debug, Clone, Copy, PartialEq, Eq)]
pub enum EncodeError {
    /// A text or a list of the record is longer than a length prefix can say.
    TooLong,
    /// The storage is shorter than the record's bytes.
    OutOfSpace,
}

/// The bytes of a poll.
pub open spec fn poll_bytes(poll: PollView) -> Seq<u8> {
    text_bytes(poll.wallet_publickey) + text_bytes(poll.owner) + text_bytes(poll.id) + text_bytes(
        poll.question,
    ) + texts_bytes(poll.options) + counts_bytes(poll.votes) + u8_bytes(poll.seed_bump)
        + text_bytes(poll.timestamp)
}

/// A poll can be written when each of its texts and lists can.
pub open spec fn poll_fits(poll: PollView) -> bool {
    &&& text_fits(poll.wallet_publickey)
    &&& text_fits(poll.owner)
    &&& text_fits(poll.id)
    &&& text_fits(poll.question)
    &&& texts_fit(poll.options)
    &&& counts_fit(poll.votes)
    &&& text_fits(poll.timestamp)
}

/// Reads a poll off the front of `input`.
pub open spec fn parse_poll(input: Seq<u8>) -> Parsed<PollView> {
    match parse_text(input) {
        None => None,
        Some((wallet_publickey, rest)) => match parse_text(rest) {
            None => None,
            Some((owner, rest)) => match parse_text(rest) {
                None => None,
                Some((id, rest)) => match parse_text(rest) {
                    None => None,
                    Some((question, rest)) => match parse_texts(rest) {
                        None => None,
                        Some((options, rest)) => match parse_counts(rest) {
                            None => None,
                            Some((votes, rest)) => match parse_u8(rest) {
                                None => None,
                                Some((seed_bump, rest)) => match parse_text(rest) {
                                    None => None,
                                    Some((timestamp, rest)) => Some(
                                        (
                                            PollView {
                                                wallet_publickey,
                                                owner,
                                                id,
                                                question,
                                                options,
                                                votes,
                                                seed_bump,
                                                timestamp,
                                            },
                                            rest,
                                        ),
                                    ),
                                },
                            },
                        },
                    },
                },
            },
        },
    }
}

/// The bytes of a vote.
pub open spec fn cast_vote_bytes(vote: CastVoteView) -> Seq<u8> {
    text_bytes(vote.option)
}

/// A vote can be written when its option can.
pub open spec fn cast_vote_fits(vote: CastVoteView) -> bool {
    text_fits(vote.option)
}

/// Reads a vote off the front of `input`.
pub open spec fn parse_cast_vote(input: Seq<u8>) -> Parsed<CastVoteView> {
    match parse_text(input) {
        None => None,
        Some((option, rest)) => Some((CastVoteView { option }, rest)),
    }
}

/// The bytes of an instruction.
pub open spec fn instruction_bytes(instruction: InstructionView) -> Seq<u8> {
    u8_bytes(instruction.action) + blob_bytes(instruction.data) + u64_bytes(instruction.space)
        + u64_bytes(instruction.lamports)
}

/// An instruction can be written when the record it carries can.
pub open spec fn instruction_fits(instruction: InstructionView) -> bool {
    blob_fits(instruction.data)
}

/// Reads an instruction off the front of `input`.
pub open spec fn parse_instruction(input: Seq<u8>) -> Parsed<InstructionView> {
    match parse_u8(input) {
        None => None,
        Some((action, rest)) => match parse_blob(rest) {
            None => None,
            Some((data, rest)) => match parse_u64(rest) {
                None => None,
                Some((space, rest)) => match parse_u64(rest) {
                    None => None,
                    Some((lamports, rest)) => Some(
                        (InstructionView { action, data, space, lamports }, rest),
                    ),
                },
            },
        },
    }
}

/// The value that a reading gave, where it used up the whole input.
pub open spec fn whole<T>(parsed: Parsed<T>) -> Option<T> {
    match parsed {
        Some((value, rest)) => if rest.len() == 0 {
            Some(value)
        } else {
            None
        },
        None => None,
    }
}

/// The poll that `input` is, from its first byte to its last.
pub open spec fn decode_poll(input: Seq<u8>) -> Option<PollView> {
    whole(parse_poll(input))
}

/// The vote that `input` is, from its first byte to its last.
pub open spec fn decode_cast_vote(input: Seq<u8>) -> Option<CastVoteView> {
    whole(parse_cast_vote(input))
}

/// The instruction that `input` is, from its first byte to its last.
pub open spec fn decode_instruction(input: Seq<u8>) -> Option<InstructionView> {
    whole(parse_instruction(input))
}

/// The error that reading a whole record from `input` ends in, where
/// `parsed` is what reading one off its front gave.
pub open spec fn decode_error<T>(parsed: Parsed<T>) -> Option<DecodeError> {
    match parsed {
        Some((_, rest)) => if rest.len() == 0 {
            None
        } else {
            Some(DecodeError::TrailingBytes)
        },
        None => Some(DecodeError::Malformed),
    }
}

/// `storage` with `bytes` written over its front.
pub open spec fn overwritten(storage: Seq<u8>, bytes: Seq<u8>) -> Seq<u8> {
    bytes + storage.skip(bytes.len() as int)
}

/// Writing over the front of storage keeps its length and what lies behind
/// the written bytes.
pub proof fn lemma_overwritten(storage: Seq<u8>, bytes: Seq<u8>)
    requires
        bytes.len() <= storage.len(),
    ensures
        overwritten(storage, bytes).len() == storage.len(),
        overwritten(storage, bytes).take(bytes.len() as int) == bytes,
        overwritten(storage, bytes).skip(bytes.len() as int) == storage.skip(bytes.len() as int),
{
    assert(overwritten(storage, bytes).take(bytes.len() as int) =~= bytes);
    assert(overwritten(storage, bytes).skip(bytes.len() as int) =~= storage.skip(
        bytes.len() as int,
    ));
}

/// A poll is read back from its bytes, whatever follows them.
pub proof fn lemma_parse_poll(poll: PollView, rest: Seq<u8>)
    requires
        poll_fits(poll),
    ensures
        parse_poll(poll_bytes(poll) + rest) == Some((poll, rest)),
{
    let after_timestamp = rest;
    let after_seed_bump = text_bytes(poll.timestamp) + after_timestamp;
    let after_votes = u8_bytes(poll.seed_bump) + after_seed_bump;
    let after_options = counts_bytes(poll.votes) + after_votes;
    let after_question = texts_bytes(poll.options) + after_options;
    let after_id = text_bytes(poll.question) + after_question;
    let after_owner = text_bytes(poll.id) + after_id;
    let after_wallet = text_bytes(poll.owner) + after_owner;
    lemma_fields_in_a_row(
        text_bytes(poll.wallet_publickey),
        text_bytes(poll.owner),
        text_bytes(poll.id),
        text_bytes(poll.question),
        texts_bytes(poll.options),
        counts_bytes(poll.votes),
        u8_bytes(poll.seed_bump),
        text_bytes(poll.timestamp),
        rest,
    );
    lemma_parse_text(poll.wallet_publickey, after_wallet);
    lemma_parse_text(poll.owner, after_owner);
    lemma_parse_text(poll.id, after_id);
    lemma_parse_text(poll.question, after_question);
    lemma_parse_texts(poll.options, after_options);
    lemma_parse_counts(poll.votes, after_votes);
    lemma_parse_u8(poll.seed_bump, after_seed_bump);
    lemma_parse_text(poll.timestamp, after_timestamp);
}

/// What was read as a poll can be written, and its bytes stand at the front of
/// the input: no two byte sequences are the same poll.
pub proof fn lemma_parsed_poll(input: Seq<u8>)
    ensures
        match parse_poll(input) {
            Some((poll, rest)) => poll_fits(poll) && input == poll_bytes(poll) + rest,
            None => true,
        },
{
    if let Some((poll, rest)) = parse_poll(input) {
        let (wallet_publickey, after_wallet) = parse_text(input).unwrap();
        let (owner, after_owner) = parse_text(after_wallet).unwrap();
        let (id, after_id) = parse_text(after_owner).unwrap();
        let (question, after_question) = parse_text(after_id).unwrap();
        let (options, after_options) = parse_texts(after_question).unwrap();
        let (votes, after_votes) = parse_counts(after_options).unwrap();
        let (seed_bump, after_seed_bump) = parse_u8(after_votes).unwrap();
        let (timestamp, after_timestamp) = parse_text(after_seed_bump).unwrap();
        lemma_parsed_text(input);
        lemma_parsed_text(after_wallet);
        lemma_parsed_text(after_owner);
        lemma_parsed_text(after_id);
        lemma_parsed_texts(after_question);
        lemma_parsed_counts(after_options);
        lemma_parsed_u8(after_votes);
        lemma_parsed_text(after_seed_bump);
        lemma_fields_in_a_row(
            text_bytes(wallet_publickey),
            text_bytes(owner),
            text_bytes(id),
            text_bytes(question),
            texts_bytes(options),
            counts_bytes(votes),
            u8_bytes(seed_bump),
            text_bytes(timestamp),
            rest,
        );
    }
}

/// Eight fields and what follows them, put together from the back, are the
/// same bytes as put together from the front.
proof fn lemma_fields_in_a_row(
    a: Seq<u8>,
    b: Seq<u8>,
    c: Seq<u8>,
    d: Seq<u8>,
    e: Seq<u8>,
    f: Seq<u8>,
    g: Seq<u8>,
    h: Seq<u8>,
    rest: Seq<u8>,
)
    ensures
        a + (b + (c + (d + (e + (f + (g + (h + rest))))))) == a + b + c + d + e + f + g + h + rest,
{
    assert(a + (b + (c + (d + (e + (f + (g + (h + rest))))))) =~= a + b + c + d + e + f + g + h
        + rest);
}

/// What was read as a vote can be written, and its bytes stand at the front of
/// the input.
pub proof fn lemma_parsed_cast_vote(input: Seq<u8>)
    ensures
        match parse_cast_vote(input) {
            Some((vote, rest)) => cast_vote_fits(vote) && input == cast_vote_bytes(vote) + rest,
            None => true,
        },
{
    lemma_parsed_text(input);
}

/// What was read as an instruction can be written, and its bytes stand at the
/// front of the input.
pub proof fn lemma_parsed_instruction(input: Seq<u8>)
    ensures
        match parse_instruction(input) {
            Some((instruction, rest)) => {
                &&& instruction_fits(instruction)
                &&& input == instruction_bytes(instruction) + rest
            },
            None => true,
        },
{
    if let Some((instruction, rest)) = parse_instruction(input) {
        let (action, after_action) = parse_u8(input).unwrap();
        let (data, after_data) = parse_blob(after_action).unwrap();
        let (space, after_space) = parse_u64(after_data).unwrap();
        lemma_parsed_u8(input);
        lemma_parsed_blob(after_action);
        lemma_parsed_u64(after_data);
        lemma_parsed_u64(after_space);
        assert(input =~= instruction_bytes(instruction) + rest);
    }
}

/// A stored poll fills its storage: the bytes that were read as a whole poll
/// are the poll's bytes.
pub proof fn lemma_decoded_poll(input: Seq<u8>)
    ensures
        match decode_poll(input) {
            Some(poll) => poll_fits(poll) && input == poll_bytes(poll),
            None => true,
        },
{
    if let Some(poll) = decode_poll(input) {
        lemma_parsed_poll(input);
        let (_, rest) = parse_poll(input).unwrap();
        assert(poll_bytes(poll) + rest =~= poll_bytes(poll));
    }
}

/// Counting a vote changes neither whether a poll can be written nor how
/// many bytes it takes.
pub proof fn lemma_vote_keeps_size(poll: PollView, index: int)
    requires
        0 <= index < poll.votes.len(),
    ensures
        poll_fits(poll.with_vote_at(index)) == poll_fits(poll),
        poll_bytes(poll.with_vote_at(index)).len() == poll_bytes(poll).len(),
{
    lemma_counts_bytes_len(poll.votes);
    lemma_counts_bytes_len(poll.with_vote_at(index).votes);
}

/// A vote is read back from its bytes, whatever follows them.
pub proof fn lemma_parse_cast_vote(vote: CastVoteView, rest: Seq<u8>)
    requires
        cast_vote_fits(vote),
    ensures
        parse_cast_vote(cast_vote_bytes(vote) + rest) == Some((vote, rest)),
{
    lemma_parse_text(vote.option, rest);
}

/// An instruction is read back from its bytes, whatever follows them.
pub proof fn lemma_parse_instruction(instruction: InstructionView, rest: Seq<u8>)
    requires
        instruction_fits(instruction),
    ensures
        parse_instruction(instruction_bytes(instruction) + rest) == Some((instruction, rest)),
{
    let after_lamports = rest;
    let after_space = u64_bytes(instruction.lamports) + after_lamports;
    let after_data = u64_bytes(instruction.space) + after_space;
    let after_action = blob_bytes(instruction.data) + after_data;
    assert(instruction_bytes(instruction) + rest =~= u8_bytes(instruction.action) + after_action);
    lemma_parse_u8(instruction.action, after_action);
    lemma_parse_blob(instruction.data, after_data);
    lemma_parse_u64(instruction.space, after_space);
    lemma_parse_u64(instruction.lamports, after_lamports);
}

/// Writing a poll and reading the bytes gives the poll again.
pub proof fn lemma_poll_round_trip(poll: PollView)
    requires
        poll_fits(poll),
    ensures
        decode_poll(poll_bytes(poll)) == Some(poll),
{
    lemma_parse_poll(poll, Seq::empty());
    assert(poll_bytes(poll) + Seq::empty() =~= poll_bytes(poll));
}

/// Writing a vote and reading the bytes gives the vote again.
pub proof fn lemma_cast_vote_round_trip(vote: CastVoteView)
    requires
        cast_vote_fits(vote),
    ensures
        decode_cast_vote(cast_vote_bytes(vote)) == Some(vote),
{
    lemma_parse_cast_vote(vote, Seq::empty());
    assert(cast_vote_bytes(vote) + Seq::empty() =~= cast_vote_bytes(vote));
}

/// Writing an instruction and reading the bytes gives the instruction again.
pub proof fn lemma_instruction_round_trip(instruction: InstructionView)
    requires
        instruction_fits(instruction),
    ensures
        decode_instruction(instruction_bytes(instruction)) == Some(instruction),
{
    lemma_parse_instruction(instruction, Seq::empty());
    assert(instruction_bytes(instruction) + Seq::empty() =~= instruction_bytes(instruction));
}

impl Poll {
    /// The poll's bytes, or `TooLong` where a text or a list of it is longer
    /// than its length prefix can say.
    pub fn try_to_vec(&self) -> (written: Result<Vec<u8>, EncodeError>)
        ensures
            match written {
                Ok(bytes) => poll_fits(self@) && bytes@ == poll_bytes(self@),
                Err(error) => !poll_fits(self@) && error == EncodeError::TooLong,
            },
    {
        let Some(mut bytes) = text_to_vec(&self.wallet_publickey) else {
            return Err(EncodeError::TooLong);
        };
        let Some(mut owner) = text_to_vec(&self.owner) else {
            return Err(EncodeError::TooLong);
        };
        let Some(mut id) = text_to_vec(&self.id) else {
            return Err(EncodeError::TooLong);
        };
        let Some(mut question) = text_to_vec(&self.question) else {
            return Err(EncodeError::TooLong);
        };
        let Some(mut options) = texts_to_vec(&self.options) else {
            return Err(EncodeError::TooLong);
        };
        let Some(mut votes) = counts_to_vec(&self.votes) else {
            return Err(EncodeError::TooLong);
        };
        let Some(mut seed_bump) = u8_to_vec(self.seed_bump) else {
            return Err(EncodeError::TooLong);
        };
        let Some(mut timestamp) = text_to_vec(&self.timestamp) else {
            return Err(EncodeError::TooLong);
        };
        bytes.append(&mut owner);
        bytes.append(&mut id);
        bytes.append(&mut question);
        bytes.append(&mut options);
        bytes.append(&mut votes);
        bytes.append(&mut seed_bump);
        bytes.append(&mut timestamp);
        Ok(bytes)
    }

    /// Reads a poll off the front of `input` and hands back the bytes behind
    /// it, or fails where `input` does not start with a poll.
    pub fn deserialize<'a>(input: &'a [u8]) -> (read: Option<(Poll, &'a [u8])>)
        ensures
            match read {
                Some((poll, rest)) => parse_poll(input@) == Some((poll@, rest@)),
                None => parse_poll(input@) is None,
            },
    {
        let Some((wallet_publickey, rest)) = take_text(input) else {
            return None;
        };
        let Some((owner, rest)) = take_text(rest) else {
            return None;
        };
        let Some((id, rest)) = take_text(rest) else {
            return None;
        };
        let Some((question, rest)) = take_text(rest) else {
            return None;
        };
        let Some((options, rest)) = take_texts(rest) else {
            return None;
        };
        let Some((votes, rest)) = take_counts(rest) else {
            return None;
        };
        let Some((seed_bump, rest)) = take_u8(rest) else {
            return None;
        };
        let Some((timestamp, rest)) = take_text(rest) else {
            return None;
        };
        Some(
            (Poll { wallet_publickey, owner, id, question, options, votes, seed_bump, timestamp }, rest),
        )
    }

    /// Reads `bytes` as a poll, from the first byte to the last.
    pub fn try_from_slice(bytes: &[u8]) -> (read: Result<Poll, DecodeError>)
        ensures
            match read {
                Ok(poll) => decode_poll(bytes@) == Some(poll@),
                Err(error) => decode_error(parse_poll(bytes@)) == Some(error),
            },
    {
        match Poll::deserialize(bytes) {
            Some((poll, rest)) => if rest.len() == 0 {
                Ok(poll)
            } else {
                Err(DecodeError::TrailingBytes)
            },
            None => Err(DecodeError::Malformed),
        }
    }

    /// Writes the poll's bytes over the front of `storage`, whose length
    /// stays. Where the poll cannot be written, or `storage` is shorter than
    /// its bytes, `storage` is left as it was.
    pub fn serialize(&self, storage: &mut Vec<u8>) -> (written: Result<(), EncodeError>)
        ensures
            match written {
                Ok(()) => {
                    &&& poll_fits(self@)
                    &&& poll_bytes(self@).len() <= old(storage)@.len()
                    &&& final(storage)@ == overwritten(old(storage)@, poll_bytes(self@))
                },
                Err(error) => {
                    &&& final(storage)@ == old(storage)@
                    &&& error == if poll_fits(self@) {
                        EncodeError::OutOfSpace
                    } else {
                        EncodeError::TooLong
                    }
                    &&& poll_fits(self@) ==> poll_bytes(self@).len() > old(storage)@.len()
                },
            },
    {
        let bytes = match self.try_to_vec() {
            Ok(bytes) => bytes,
            Err(error) => {
                return Err(error);
            },
        };
        if bytes.len() > storage.len() {
            return Err(EncodeError::OutOfSpace);
        }
        let mut at: usize = 0;
        while at < bytes.len()
            invariant
                at <= bytes.len() <= storage.len(),
                storage@.len() == old(storage)@.len(),
                storage@ == bytes@.take(at as int) + old(storage)@.skip(at as int),
            decreases bytes.len() - at,
        {
            storage.set(at, bytes[at]);
            at += 1;
            assert(storage@ =~= bytes@.take(at as int) + old(storage)@.skip(at as int));
        }
        assert(bytes@.take(at as int) =~= bytes@);
        Ok(())
    }
}

impl CastVote {
    /// The vote's bytes, or `TooLong` where the option is longer than its
    /// length prefix can say.
    pub fn try_to_vec(&self) -> (written: Result<Vec<u8>, EncodeError>)
        ensures
            match written {
                Ok(bytes) => cast_vote_fits(self@) && bytes@ == cast_vote_bytes(self@),
                Err(error) => !cast_vote_fits(self@) && error == EncodeError::TooLong,
            },
    {
        match text_to_vec(&self.option) {
            Some(bytes) => Ok(bytes),
            None => Err(EncodeError::TooLong),
        }
    }

    /// Reads `bytes` as a vote, from the first byte to the last.
    pub fn try_from_slice(bytes: &[u8]) -> (read: Result<CastVote, DecodeError>)
        ensures
            match read {
                Ok(vote) => decode_cast_vote(bytes@) == Some(vote@),
                Err(error) => decode_error(parse_cast_vote(bytes@)) == Some(error),
            },
    {
        match take_text(bytes) {
            Some((option, rest)) => if rest.len() == 0 {
                Ok(CastVote { option })
            } else {
                Err(DecodeError::TrailingBytes)
            },
            None => Err(DecodeError::Malformed),
        }
    }
}

impl Instruction {
    /// The instruction's bytes, or `TooLong` where its record is longer than
    /// a length prefix can say.
    pub fn try_to_vec(&self) -> (written: Result<Vec<u8>, EncodeError>)
        ensures
            match written {
                Ok(bytes) => instruction_fits(self@) && bytes@ == instruction_bytes(self@),
                Err(error) => !instruction_fits(self@) && error == EncodeError::TooLong,
            },
    {
        let Some(mut bytes) = u8_to_vec(self.action) else {
            return Err(EncodeError::TooLong);
        };
        let Some(mut data) = blob_to_vec(&self.data) else {
            return Err(EncodeError::TooLong);
        };
        let Some(mut space) = u64_to_vec(self.space) else {
            return Err(EncodeError::TooLong);
        };
        let Some(mut lamports) = u64_to_vec(self.lamports) else {
            return Err(EncodeError::TooLong);
        };
        bytes.append(&mut data);
        bytes.append(&mut space);
        bytes.append(&mut lamports);
        Ok(bytes)
    }

    /// Reads `bytes` as an instruction, from the first byte to the last.
    pub fn try_from_slice(bytes: &[u8]) -> (read: Result<Instruction, DecodeError>)
        ensures
            match read {
                Ok(instruction) => decode_instruction(bytes@) == Some(instruction@),
                Err(error) => decode_error(parse_instruction(bytes@)) == Some(error),
            },
    {
        let Some((action, rest)) = take_u8(bytes) else {
            return Err(DecodeError::Malformed);
        };
        let Some((data, rest)) = take_blob(rest) else {
            return Err(DecodeError::Malformed);
        };
        let Some((space, rest)) = take_u64(rest) else {
            return Err(DecodeError::Malformed);
        };
        let Some((lamports, rest)) = take_u64(rest) else {
            return Err(DecodeError::Malformed);
        };
        if rest.len() == 0 {
            Ok(Instruction { action, data, space, lamports })
        } else {
            Err(DecodeError::TrailingBytes)
        }
    }
}

} // verus!
