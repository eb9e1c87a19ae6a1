//! A poll program for a ledger host: the records it keeps, their byte format,
//! and the dispatch of the two instructions that create a poll and cast a vote.

mod borsh_values;
pub mod clock;
pub mod poll;
pub mod processor;
pub mod schema;
pub mod wire;

pub use poll::{Poll, SolanaPollError};
pub use processor::{
    complete_create, complete_create_at, process_instruction, Account, Address, ProgramError,
    Provision, Step,
};
pub use schema::{CastVote, DecodeError, EncodeError, Instruction};
