//! The dispatch of an instruction: what the program does with the bytes it is
//! called with and the accounts that come with them.
//!
//! A vote is dealt with in one step. Creating a poll takes two, because the
//! host has to set up the storage in between: [`process_instruction`] says
//! what to set up, and [`complete_create`] takes the host's answer and fills
//! the storage.

use vstd::prelude::*;
use vstd::string::StringExecFns;
use vstd::utf8::encode_utf8;
use crate::clock::host_unix_timestamp;
use crate::poll::{creation_fault, position, Poll, PollView};
use crate::schema::{
    decode_cast_vote, decode_instruction, decode_poll, lemma_decoded_poll, lemma_poll_round_trip,
    lemma_vote_keeps_size, overwritten, poll_bytes, poll_fits, CastVote, Instruction,
};

verus! {

/// The address of an account or a program: 32 bytes.
#[derive(Debug, Clone, Copy, PartialEq, Eq)]
pub struct Address {
    pub bytes: [u8; 32],
}

impl View for Address {
    type V = Seq<u8>;

    open spec fn view(&self) -> Seq<u8> {
        self.bytes@
    }
}

impl Address {
    /// Whether two addresses are the same 32 bytes.
    pub fn same_as(&self, other: &Address) -> (same: bool)
        ensures
            same == (self@ == other@),
    {
        let mut at: usize = 0;
        while at < 32
            invariant
                at <= 32,
                forall|i: int| 0 <= i < at ==> self.bytes[i] == other.bytes[i],
            decreases 32 - at,
        {
            if self.bytes[at] != other.bytes[at] {
                return false;
            }
            at += 1;
        }
        assert(self@ =~= other@);
        true
    }
}

/// An account as the program sees it: where it is, which program owns it,
/// and the bytes it stores.
#[derive(Debug, PartialEq, Eq)]
pub struct Account {
    pub key: Address,
    pub owner: Address,
    pub data: Vec<u8>,
}

/// An `Account` as a mathematical value.
pub struct AccountView {
    pub key: Seq<u8>,
    pub owner: Seq<u8>,
    pub data: Seq<u8>,
}

impl View for Account {
    type V = AccountView;

    open spec fn view(&self) -> AccountView {
        AccountView { key: self.key@, owner: self.owner@, data: self.data@ }
    }
}

impl DeepView for Account {
    type V = AccountView;

    open spec fn deep_view(&self) -> AccountView {
        self@
    }
}

/// The codes in which the program reports failure to the host.
#[derive(Debug, Clone, Copy, PartialEq, Eq)]
pub enum ProgramError {
    /// The instruction's bytes are no instruction, name no known operation,
    /// or carry a record that cannot be read.
    InvalidInstructionData,
    /// The poll account's bytes are no poll, the vote or the new poll is
    /// refused, or the poll does not fit its storage.
    InvalidAccountData,
    /// The poll account belongs to another program.
    IncorrectProgramId,
    /// Fewer accounts came with the instruction than it needs.
    NotEnoughAccountKeys,
    /// The host did not set up the storage for a new poll.
    AccountCreationFailed,
}

impl ProgramError {
    /// The sentence that tells a person of the failure.
    pub open spec fn message(self) -> Seq<char> {
        match self {
            ProgramError::InvalidInstructionData => "An instruction's data contents was invalid"@,
            ProgramError::InvalidAccountData => "An account's data contents was invalid"@,
            ProgramError::IncorrectProgramId => "The account did not have the expected program id"@,
            ProgramError::NotEnoughAccountKeys => "The instruction expected additional account keys"@,
            ProgramError::AccountCreationFailed => "The storage for the poll could not be set up"@,
        }
    }

    /// The sentence that tells a person of the failure.
    pub fn to_string(&self) -> (text: String)
        ensures
            text@ == self.message(),
    {
        match self {
            ProgramError::InvalidInstructionData => String::from_str(
                "An instruction's data contents was invalid",
            ),
            ProgramError::InvalidAccountData => String::from_str(
                "An account's data contents was invalid",
            ),
            ProgramError::IncorrectProgramId => String::from_str(
                "The account did not have the expected program id",
            ),
            ProgramError::NotEnoughAccountKeys => String::from_str(
                "The instruction expected additional account keys",
            ),
            ProgramError::AccountCreationFailed => String::from_str(
                "The storage for the poll could not be set up",
            ),
        }
    }
}

/// What the host is asked to set up before a poll is stored: an account at
/// `account`, of `space` bytes, funded with `lamports` by `payer`, and signed
/// for with the draft's identifier and nonce as seeds.
///
/// Whether `account` is the address that derives from these seeds is for the
/// host to say, which signs for no other.
#[derive(Debug, PartialEq, Eq)]
pub struct Provision {
    pub payer: Address,
    pub account: Address,
    pub space: u64,
    pub lamports: u64,
    /// The poll as the instruction carried it.
    pub draft: Poll,
}

/// A `Provision` as a mathematical value.
pub struct ProvisionView {
    pub payer: Seq<u8>,
    pub account: Seq<u8>,
    pub space: u64,
    pub lamports: u64,
    pub draft: PollView,
}

impl View for Provision {
    type V = ProvisionView;

    open spec fn view(&self) -> ProvisionView {
        ProvisionView {
            payer: self.payer@,
            account: self.account@,
            space: self.space,
            lamports: self.lamports,
            draft: self.draft@,
        }
    }
}

impl ProvisionView {
    /// The poll that is stored once the host has done its part, at the clock
    /// reading `now`.
    pub open spec fn poll(self, now: Option<i64>) -> PollView {
        PollView::fresh(
            self.draft.wallet_publickey,
            self.draft.owner,
            self.draft.id,
            self.draft.question,
            self.draft.options,
            self.draft.seed_bump,
            now,
        )
    }
}

impl Provision {
    /// The first seed to sign with: the draft's identifier in UTF-8.
    pub fn seed(&self) -> (seed: &[u8])
        ensures
            seed@ == encode_utf8(self@.draft.id),
    {
        self.draft.id.as_str().as_bytes()
    }

    /// The second seed to sign with: the draft's nonce.
    pub fn bump_seed(&self) -> (bump: u8)
        ensures
            bump == self@.draft.seed_bump,
    {
        self.draft.seed_bump
    }
}

/// How far an instruction has got.
#[derive(Debug, PartialEq, Eq)]
pub enum Step {
    /// All is done; the poll account holds the result.
    Done,
    /// The host is to set up the storage and `complete_create` is to be
    /// called with its answer.
    Provision(Provision),
}

/// What an instruction comes to, as a mathematical value.
pub enum Plan {
    /// The poll account is to hold these bytes.
    Store(Seq<u8>),
    /// The host is to set up storage.
    Provision(ProvisionView),
}

/// The first two accounts are the payer and the poll account.
pub open spec fn enough_accounts(accounts: Seq<AccountView>) -> bool {
    accounts.len() >= 2
}

/// What creating a poll asks of the host.
pub open spec fn create_plan(
    accounts: Seq<AccountView>,
    payload: Seq<u8>,
    space: u64,
    lamports: u64,
) -> Result<Plan, ProgramError> {
    if !enough_accounts(accounts) {
        Err(ProgramError::NotEnoughAccountKeys)
    } else {
        match decode_poll(payload) {
            None => Err(ProgramError::InvalidInstructionData),
            Some(draft) => Ok(
                Plan::Provision(
                    ProvisionView {
                        payer: accounts[0].key,
                        account: accounts[1].key,
                        space,
                        lamports,
                        draft,
                    },
                ),
            ),
        }
    }
}

/// The stored poll after a vote for `option`, or nothing where the poll has
/// no such option or the option's counter is missing or at its limit.
pub open spec fn after_vote(poll: PollView, option: Seq<char>) -> Option<PollView> {
    match position(poll.options, option) {
        Some(index) => if index < poll.votes.len() && poll.votes[index] < u32::MAX {
            Some(poll.with_vote_at(index))
        } else {
            None
        },
        None => None,
    }
}

/// What a vote comes to.
pub open spec fn vote_plan(
    program_id: Seq<u8>,
    accounts: Seq<AccountView>,
    payload: Seq<u8>,
) -> Result<Plan, ProgramError> {
    if !enough_accounts(accounts) {
        Err(ProgramError::NotEnoughAccountKeys)
    } else if accounts[1].owner != program_id {
        Err(ProgramError::IncorrectProgramId)
    } else {
        match decode_cast_vote(payload) {
            None => Err(ProgramError::InvalidInstructionData),
            Some(vote) => match decode_poll(accounts[1].data) {
                None => Err(ProgramError::InvalidAccountData),
                Some(poll) => match after_vote(poll, vote.option) {
                    None => Err(ProgramError::InvalidAccountData),
                    Some(voted) => Ok(Plan::Store(poll_bytes(voted))),
                },
            },
        }
    }
}

/// What an instruction comes to: operation 0 creates a poll, operation 1
/// casts a vote, and there is no other.
pub open spec fn plan(program_id: Seq<u8>, accounts: Seq<AccountView>, input: Seq<u8>) -> Result<
    Plan,
    ProgramError,
> {
    match decode_instruction(input) {
        None => Err(ProgramError::InvalidInstructionData),
        Some(instruction) => if instruction.action == 0 {
            create_plan(accounts, instruction.data, instruction.space, instruction.lamports)
        } else if instruction.action == 1 {
            vote_plan(program_id, accounts, instruction.data)
        } else {
            Err(ProgramError::InvalidInstructionData)
        },
    }
}

/// `accounts` with the bytes of the poll account replaced.
pub open spec fn with_poll_data(accounts: Seq<AccountView>, data: Seq<u8>) -> Seq<AccountView> {
    accounts.update(1, AccountView { data, ..accounts[1] })
}

/// What the storage of a new poll holds in the end, given the host's answer
/// and the clock reading `now`.
pub open spec fn creation(
    request: ProvisionView,
    provisioned: bool,
    now: Option<i64>,
    storage: Seq<u8>,
) -> Result<Seq<u8>, ProgramError> {
    let draft = request.draft;
    let poll = request.poll(now);
    if !provisioned {
        Err(ProgramError::AccountCreationFailed)
    } else if creation_fault(
        draft.wallet_publickey,
        draft.owner,
        draft.id,
        draft.question,
        draft.options,
    ) is Some {
        Err(ProgramError::InvalidAccountData)
    } else if !poll_fits(poll) || poll_bytes(poll).len() > storage.len() {
        Err(ProgramError::InvalidAccountData)
    } else {
        Ok(overwritten(storage, poll_bytes(poll)))
    }
}

/// `storage` went from `before` to `after`, and the creation ended in `done`,
/// as `creation` says for the clock reading `now`.
pub open spec fn completed(
    request: ProvisionView,
    provisioned: bool,
    now: Option<i64>,
    before: Seq<u8>,
    after: Seq<u8>,
    done: Result<(), ProgramError>,
) -> bool {
    match creation(request, provisioned, now, before) {
        Ok(data) => done is Ok && after == data,
        Err(error) => done == Err::<(), ProgramError>(error) && after == before,
    }
}

/// An instruction that names neither operation is refused, whatever it
/// carries and whatever the accounts are.
pub proof fn lemma_unknown_operation_refused(
    program_id: Seq<u8>,
    accounts: Seq<AccountView>,
    input: Seq<u8>,
)
    requires
        decode_instruction(input) is Some,
        decode_instruction(input)->0.action > 1,
    ensures
        plan(program_id, accounts, input) == Err::<Plan, ProgramError>(
            ProgramError::InvalidInstructionData,
        ),
{
}

/// A vote on a poll account that another program owns is refused as such,
/// whatever the vote says and whatever the account stores.
pub proof fn lemma_foreign_poll_account_refused(
    program_id: Seq<u8>,
    accounts: Seq<AccountView>,
    input: Seq<u8>,
)
    requires
        decode_instruction(input) is Some,
        decode_instruction(input)->0.action == 1,
        enough_accounts(accounts),
        accounts[1].owner != program_id,
    ensures
        plan(program_id, accounts, input) == Err::<Plan, ProgramError>(
            ProgramError::IncorrectProgramId,
        ),
{
}

/// A vote that is counted leaves the poll account at its size, and what the
/// account then stores is the poll it stored before with that one vote more.
pub proof fn lemma_vote_stores_voted_poll(
    program_id: Seq<u8>,
    accounts: Seq<AccountView>,
    payload: Seq<u8>,
)
    requires
        vote_plan(program_id, accounts, payload) is Ok,
    ensures
        vote_plan(program_id, accounts, payload) matches Ok(Plan::Store(data)) && {
            let poll = decode_poll(accounts[1].data)->0;
            let option = decode_cast_vote(payload)->0.option;
            &&& data.len() == accounts[1].data.len()
            &&& after_vote(poll, option) is Some
            &&& decode_poll(data) == after_vote(poll, option)
        },
{
    let poll = decode_poll(accounts[1].data)->0;
    let option = decode_cast_vote(payload)->0.option;
    let index = position(poll.options, option)->0;
    lemma_decoded_poll(accounts[1].data);
    lemma_vote_keeps_size(poll, index);
    lemma_poll_round_trip(poll.with_vote_at(index));
}

/// A poll that was created in storage of just its size is what a vote finds
/// there: it reads back, and it is well formed.
pub proof fn lemma_created_poll_reads_back(
    request: ProvisionView,
    now: Option<i64>,
    storage: Seq<u8>,
)
    requires
        creation(request, true, now, storage) is Ok,
        storage.len() == poll_bytes(request.poll(now)).len(),
    ensures
        decode_poll(creation(request, true, now, storage)->Ok_0) == Some(request.poll(now)),
        request.poll(now).well_formed(),
{
    let poll = request.poll(now);
    lemma_poll_round_trip(poll);
    assert(overwritten(storage, poll_bytes(poll)) =~= poll_bytes(poll));
}

/// Carries out an instruction as far as the program can on its own.
///
/// A vote is counted in the poll account, which is the second of `accounts`.
/// For a new poll nothing is stored yet: the result says what the host is
/// to set up. On any failure the accounts are left as they were.
pub fn process_instruction(
    program_id: &Address,
    accounts: &mut Vec<Account>,
    instruction_data: &[u8],
) -> (step: Result<Step, ProgramError>)
    ensures
        match plan(program_id@, old(accounts).deep_view(), instruction_data@) {
            Ok(Plan::Store(data)) => {
                &&& step == Ok::<Step, ProgramError>(Step::Done)
                &&& final(accounts).deep_view() == with_poll_data(old(accounts).deep_view(), data)
            },
            Ok(Plan::Provision(request)) => {
                &&& step matches Ok(Step::Provision(asked))
                &&& asked@ == request
                &&& *final(accounts) == *old(accounts)
            },
            Err(error) => {
                &&& step == Err::<Step, ProgramError>(error)
                &&& *final(accounts) == *old(accounts)
            },
        },
{
    let instruction = match Instruction::try_from_slice(instruction_data) {
        Ok(instruction) => instruction,
        Err(_) => {
            return Err(ProgramError::InvalidInstructionData);
        },
    };
    if instruction.action == 0 {
        if accounts.len() < 2 {
            return Err(ProgramError::NotEnoughAccountKeys);
        }
        let draft = match Poll::try_from_slice(instruction.data.as_slice()) {
            Ok(draft) => draft,
            Err(_) => {
                return Err(ProgramError::InvalidInstructionData);
            },
        };
        Ok(
            Step::Provision(
                Provision {
                    payer: accounts[0].key,
                    account: accounts[1].key,
                    space: instruction.space,
                    lamports: instruction.lamports,
                    draft,
                },
            ),
        )
    } else if instruction.action == 1 {
        if accounts.len() < 2 {
            return Err(ProgramError::NotEnoughAccountKeys);
        }
        if !accounts[1].owner.same_as(program_id) {
            return Err(ProgramError::IncorrectProgramId);
        }
        let vote = match CastVote::try_from_slice(instruction.data.as_slice()) {
            Ok(vote) => vote,
            Err(_) => {
                return Err(ProgramError::InvalidInstructionData);
            },
        };
        let mut poll = match Poll::try_from_slice(accounts[1].data.as_slice()) {
            Ok(poll) => poll,
            Err(_) => {
                return Err(ProgramError::InvalidAccountData);
            },
        };
        if !poll.has_room(&vote.option) {
            return Err(ProgramError::InvalidAccountData);
        }
        let ghost stored = poll@;
        if poll.cast_vote(&vote.option).is_err() {
            return Err(ProgramError::InvalidAccountData);
        }
        proof {
            lemma_decoded_poll(accounts[1].data@);
            lemma_vote_keeps_size(stored, position(stored.options, vote.option@).unwrap());
        }
        match poll.serialize(&mut accounts[1].data) {
            Ok(()) => {
                assert(accounts.deep_view() =~= with_poll_data(
                    old(accounts).deep_view(),
                    poll_bytes(poll@),
                ));
                Ok(Step::Done)
            },
            Err(_) => Err(ProgramError::InvalidAccountData),
        }
    } else {
        Err(ProgramError::InvalidInstructionData)
    }
}

/// Finishes the creation of a poll at the clock reading `now`.
///
/// `provisioned` says whether the host has set up the storage that `request`
/// asked for, and `storage` is that storage. The new poll is made of the
/// draft's values and written over the front of `storage`. On any failure
/// `storage` is left as it was.
pub fn complete_create_at(
    request: Provision,
    provisioned: bool,
    now: Option<i64>,
    storage: &mut Vec<u8>,
) -> (done: Result<(), ProgramError>)
    ensures
        completed(request@, provisioned, now, old(storage)@, final(storage)@, done),
{
    if !provisioned {
        return Err(ProgramError::AccountCreationFailed);
    }
    let draft = request.draft;
    let poll = match Poll::create(
        draft.wallet_publickey,
        draft.owner,
        draft.id,
        draft.question,
        draft.options,
        draft.seed_bump,
        now,
    ) {
        Ok(poll) => poll,
        Err(_) => {
            return Err(ProgramError::InvalidAccountData);
        },
    };
    match poll.serialize(storage) {
        Ok(()) => Ok(()),
        Err(_) => Err(ProgramError::InvalidAccountData),
    }
}

/// Finishes the creation of a poll, stamped with the host's clock.
///
/// All is as in [`complete_create_at`], at whatever the clock reads.
pub fn complete_create(request: Provision, provisioned: bool, storage: &mut Vec<u8>) -> (done:
    Result<(), ProgramError>)
    ensures
        exists|now: Option<i64>|
            completed(request@, provisioned, now, old(storage)@, final(storage)@, done),
{
    let now = host_unix_timestamp();
    complete_create_at(request, provisioned, now, storage)
}

} // verus!
