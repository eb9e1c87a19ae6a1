//! The poll record: how one is made, and how a vote is counted.

use vstd::prelude::*;
use vstd::string::StringExecFns;
use crate::clock::{host_unix_timestamp, stamp, stamp_string};

verus! {

/// Why a poll was not made, or a vote not counted.
#[derive(Debug, PartialEq, Eq)]
pub enum SolanaPollError {
    /// A required text was empty; the field's name is inside.
    PropertyNotFound(String),
    /// The list of options was empty.
    NoOptionsProvided,
    /// The vote names no option of the poll.
    InvalidInputOption,
}

/// A `SolanaPollError` as a mathematical value.
pub enum PollFault {
    PropertyNotFound(Seq<char>),
    NoOptionsProvided,
    InvalidInputOption,
}

impl View for SolanaPollError {
    type V = PollFault;

    open spec fn view(&self) -> PollFault {
        match self {
            SolanaPollError::PropertyNotFound(name) => PollFault::PropertyNotFound(name@),
            SolanaPollError::NoOptionsProvided => PollFault::NoOptionsProvided,
            SolanaPollError::InvalidInputOption => PollFault::InvalidInputOption,
        }
    }
}

impl PollFault {
    /// The sentence that tells a person of the fault.
    pub open spec fn message(self) -> Seq<char> {
        match self {
            PollFault::PropertyNotFound(name) => name + " not found"@,
            PollFault::NoOptionsProvided => "No options provided"@,
            PollFault::InvalidInputOption => "Invalid input option"@,
        }
    }
}

impl SolanaPollError {
    /// The sentence that tells a person of the fault.
    pub fn to_string(&self) -> (text: String)
        ensures
            text@ == self@.message(),
    {
        match self {
            SolanaPollError::PropertyNotFound(name) => {
                let mut text = String::from_str(name.as_str());
                text.append(" not found");
                text
            },
            SolanaPollError::NoOptionsProvided => String::from_str("No options provided"),
            SolanaPollError::InvalidInputOption => String::from_str("Invalid input option"),
        }
    }
}

/// A poll: a question, the options to answer it with, and how many votes each
/// option has so far.
#[derive(Debug, PartialEq, Eq)]
pub struct Poll {
    /// The wallet that pays for the poll's storage.
    pub wallet_publickey: String,
    /// Who put the question.
    pub owner: String,
    /// The poll's identifier, from which the address of its storage derives.
    pub id: String,
    pub question: String,
    /// The answers to choose from, in the order given at creation.
    pub options: Vec<String>,
    /// The votes counted for each option, in the order of `options`.
    pub votes: Vec<u32>,
    /// The nonce that goes with `id` into the derivation of the address.
    pub seed_bump: u8,
    /// When the poll was made: Unix time in decimal.
    pub timestamp: String,
}

/// A `Poll` as a mathematical value.
pub struct PollView {
    pub wallet_publickey: Seq<char>,
    pub owner: Seq<char>,
    pub id: Seq<char>,
    pub question: Seq<char>,
    pub options: Seq<Seq<char>>,
    pub votes: Seq<u32>,
    pub seed_bump: u8,
    pub timestamp: Seq<char>,
}

impl View for Poll {
    type V = PollView;

    open spec fn view(&self) -> PollView {
        PollView {
            wallet_publickey: self.wallet_publickey@,
            owner: self.owner@,
            id: self.id@,
            question: self.question@,
            options: self.options.deep_view(),
            votes: self.votes@,
            seed_bump: self.seed_bump,
            timestamp: self.timestamp@,
        }
    }
}

/// `index` is where `option` stands first among `options`.
pub open spec fn is_first_match(options: Seq<Seq<char>>, option: Seq<char>, index: int) -> bool {
    &&& 0 <= index < options.len()
    &&& options[index] == option
    &&& forall|earlier: int| 0 <= earlier < index ==> options[earlier] != option
}

/// Where `option` stands first among `options`, if it stands there at all.
pub open spec fn position(options: Seq<Seq<char>>, option: Seq<char>) -> Option<int> {
    if exists|index: int| is_first_match(options, option, index) {
        Some(choose|index: int| is_first_match(options, option, index))
    } else {
        None
    }
}

/// `position` finds the first match where there is one, and there is one
/// exactly where the option occurs.
pub proof fn lemma_position(options: Seq<Seq<char>>, option: Seq<char>)
    ensures
        match position(options, option) {
            Some(index) => is_first_match(options, option, index),
            None => !options.contains(option),
        },
        forall|index: int|
            is_first_match(options, option, index) ==> position(options, option) == Some(index),
{
    if !exists|index: int| is_first_match(options, option, index) {
        if options.contains(option) {
            let found = choose|i: int| 0 <= i < options.len() && options[i] == option;
            lemma_first_match_before(options, option, found);
        }
    }
    assert forall|index: int| is_first_match(options, option, index) implies position(
        options,
        option,
    ) == Some(index) by {
        let chosen = choose|i: int| is_first_match(options, option, i);
        assert(is_first_match(options, option, chosen));
        if chosen < index {
            assert(options[chosen] != option);
        } else if index < chosen {
            assert(options[index] != option);
        }
    }
}

proof fn lemma_first_match_before(options: Seq<Seq<char>>, option: Seq<char>, found: int)
    requires
        0 <= found < options.len(),
        options[found] == option,
    ensures
        exists|index: int| is_first_match(options, option, index),
    decreases found,
{
    if forall|earlier: int| 0 <= earlier < found ==> options[earlier] != option {
        assert(is_first_match(options, option, found));
    } else {
        let earlier = choose|earlier: int| 0 <= earlier < found && options[earlier] == option;
        lemma_first_match_before(options, option, earlier);
    }
}

/// Why no poll is made of these values, if there is a reason: the first empty
/// one among wallet, owner, identifier, question and options, in that order.
pub open spec fn creation_fault(
    wallet_publickey: Seq<char>,
    owner: Seq<char>,
    id: Seq<char>,
    question: Seq<char>,
    options: Seq<Seq<char>>,
) -> Option<PollFault> {
    if wallet_publickey.len() == 0 {
        Some(PollFault::PropertyNotFound("Wallet Public Key"@))
    } else if owner.len() == 0 {
        Some(PollFault::PropertyNotFound("Owner"@))
    } else if id.len() == 0 {
        Some(PollFault::PropertyNotFound("Id"@))
    } else if question.len() == 0 {
        Some(PollFault::PropertyNotFound("Question"@))
    } else if options.len() == 0 {
        Some(PollFault::NoOptionsProvided)
    } else {
        None
    }
}

/// Where one value alone is empty, it is that value which is reported: the
/// wallet, the owner, the identifier and the question by name, the options as
/// missing options.
pub proof fn lemma_single_empty_value(
    wallet_publickey: Seq<char>,
    owner: Seq<char>,
    id: Seq<char>,
    question: Seq<char>,
    options: Seq<Seq<char>>,
)
    ensures
        ({
            let fault = creation_fault(wallet_publickey, owner, id, question, options);
            let wallet_there = wallet_publickey.len() > 0;
            let owner_there = owner.len() > 0;
            let id_there = id.len() > 0;
            let question_there = question.len() > 0;
            let options_there = options.len() > 0;
            &&& !wallet_there && owner_there && id_there && question_there && options_there
                ==> fault == Some(PollFault::PropertyNotFound("Wallet Public Key"@))
            &&& wallet_there && !owner_there && id_there && question_there && options_there
                ==> fault == Some(PollFault::PropertyNotFound("Owner"@))
            &&& wallet_there && owner_there && !id_there && question_there && options_there
                ==> fault == Some(PollFault::PropertyNotFound("Id"@))
            &&& wallet_there && owner_there && id_there && !question_there && options_there
                ==> fault == Some(PollFault::PropertyNotFound("Question"@))
            &&& wallet_there && owner_there && id_there && question_there && !options_there
                ==> fault == Some(PollFault::NoOptionsProvided)
            &&& wallet_there && owner_there && id_there && question_there && options_there
                <==> fault is None
        }),
{
}

/// A counted vote takes no vote away: the counter of the option voted for is
/// one more than it was, and every other counter is what it was.
pub proof fn lemma_vote_only_adds(poll: PollView, option: Seq<char>)
    requires
        poll.has_room(option),
        position(poll.options, option) is Some,
    ensures
        ({
            let index = position(poll.options, option)->0;
            let voted = poll.with_vote_at(index);
            &&& voted.votes.len() == poll.votes.len()
            &&& voted.votes[index] == poll.votes[index] + 1
            &&& forall|other: int|
                0 <= other < poll.votes.len() && other != index ==> voted.votes[other]
                    == poll.votes[other]
            &&& forall|any: int| 0 <= any < poll.votes.len() ==> voted.votes[any] >= poll.votes[any]
        }),
{
    lemma_position(poll.options, option);
}

/// `len` counters, none of which has counted anything.
pub open spec fn no_votes(len: nat) -> Seq<u32> {
    Seq::new(len, |i: int| 0u32)
}

impl PollView {
    /// What holds of every poll that was made here and voted on since: no
    /// required text is empty, there is an option, and each option has its
    /// counter.
    pub open spec fn well_formed(self) -> bool {
        &&& self.wallet_publickey.len() > 0
        &&& self.owner.len() > 0
        &&& self.id.len() > 0
        &&& self.question.len() > 0
        &&& self.options.len() > 0
        &&& self.votes.len() == self.options.len()
    }

    /// The poll as it is made from these values at the clock reading `now`.
    pub open spec fn fresh(
        wallet_publickey: Seq<char>,
        owner: Seq<char>,
        id: Seq<char>,
        question: Seq<char>,
        options: Seq<Seq<char>>,
        seed_bump: u8,
        now: Option<i64>,
    ) -> PollView {
        PollView {
            wallet_publickey,
            owner,
            id,
            question,
            options,
            votes: no_votes(options.len()),
            seed_bump,
            timestamp: stamp(now),
        }
    }

    /// A vote for `option` can be counted: the option's counter exists and
    /// is not at its limit. Nothing is asked where the poll has no such option.
    pub open spec fn has_room(self, option: Seq<char>) -> bool {
        match position(self.options, option) {
            Some(index) => index < self.votes.len() && self.votes[index] < u32::MAX,
            None => true,
        }
    }

    /// The poll with one vote more for the option at `index`.
    pub open spec fn with_vote_at(self, index: int) -> PollView {
        PollView { votes: self.votes.update(index, (self.votes[index] + 1) as u32), ..self }
    }
}

impl Poll {
    /// Makes a poll at the clock reading `now`, or says which value is missing.
    ///
    /// The values are looked at in the order wallet, owner, identifier,
    /// question, options, and the first empty one is reported. The new poll
    /// has a counter at zero for each option.
    pub fn create(
        wallet_publickey: String,
        owner: String,
        id: String,
        question: String,
        options: Vec<String>,
        seed_bump: u8,
        now: Option<i64>,
    ) -> (made: Result<Poll, SolanaPollError>)
        ensures
            match made {
                Ok(poll) => {
                    &&& creation_fault(
                        wallet_publickey@,
                        owner@,
                        id@,
                        question@,
                        options.deep_view(),
                    ) is None
                    &&& poll@ == PollView::fresh(
                        wallet_publickey@,
                        owner@,
                        id@,
                        question@,
                        options.deep_view(),
                        seed_bump,
                        now,
                    )
                    &&& poll@.well_formed()
                },
                Err(fault) => creation_fault(
                    wallet_publickey@,
                    owner@,
                    id@,
                    question@,
                    options.deep_view(),
                ) == Some(fault@),
            },
    {
        if wallet_publickey.as_str().is_empty() {
            return Err(SolanaPollError::PropertyNotFound(String::from_str("Wallet Public Key")));
        }
        if owner.as_str().is_empty() {
            return Err(SolanaPollError::PropertyNotFound(String::from_str("Owner")));
        }
        if id.as_str().is_empty() {
            return Err(SolanaPollError::PropertyNotFound(String::from_str("Id")));
        }
        if question.as_str().is_empty() {
            return Err(SolanaPollError::PropertyNotFound(String::from_str("Question")));
        }
        if options.len() == 0 {
            return Err(SolanaPollError::NoOptionsProvided);
        }
        let votes = zeroed(options.len());
        let timestamp = stamp_string(now);
        Ok(Poll { wallet_publickey, owner, id, question, options, votes, seed_bump, timestamp })
    }

    /// Makes a poll stamped with the host's clock, or says which value is
    /// missing.
    ///
    /// All is as in [`Poll::create`], at whatever the clock reads.
    pub fn new(
        wallet_publickey: String,
        owner: String,
        id: String,
        question: String,
        options: Vec<String>,
        seed_bump: u8,
    ) -> (made: Result<Poll, SolanaPollError>)
        ensures
            match made {
                Ok(poll) => {
                    &&& creation_fault(
                        wallet_publickey@,
                        owner@,
                        id@,
                        question@,
                        options.deep_view(),
                    ) is None
                    &&& exists|now: Option<i64>|
                        poll@ == PollView::fresh(
                            wallet_publickey@,
                            owner@,
                            id@,
                            question@,
                            options.deep_view(),
                            seed_bump,
                            now,
                        )
                    &&& poll@.well_formed()
                },
                Err(fault) => creation_fault(
                    wallet_publickey@,
                    owner@,
                    id@,
                    question@,
                    options.deep_view(),
                ) == Some(fault@),
            },
    {
        let now = host_unix_timestamp();
        Poll::create(wallet_publickey, owner, id, question, options, seed_bump, now)
    }

    /// Where `option` stands first among the poll's options.
    pub fn position(&self, option: &String) -> (found: Option<usize>)
        ensures
            match found {
                Some(index) => position(self@.options, option@) == Some(index as int),
                None => position(self@.options, option@) is None,
            },
    {
        let mut index: usize = 0;
        while index < self.options.len()
            invariant
                index <= self.options.len(),
                forall|earlier: int|
                    0 <= earlier < index ==> (#[trigger] self@.options[earlier]) != option@,
            decreases self.options.len() - index,
        {
            if self.options[index] == *option {
                proof {
                    assert(is_first_match(self@.options, option@, index as int));
                    lemma_position(self@.options, option@);
                }
                return Some(index);
            }
            index += 1;
        }
        proof {
            lemma_position(self@.options, option@);
            if let Some(at) = position(self@.options, option@) {
                assert(self@.options[at] == option@);
            }
        }
        None
    }

    /// Whether a vote for `option` can be counted: true unless the option's
    /// counter is missing or at its limit.
    pub fn has_room(&self, option: &String) -> (room: bool)
        ensures
            room == self@.has_room(option@),
    {
        match self.position(option) {
            Some(index) => index < self.votes.len() && self.votes[index] < u32::MAX,
            None => true,
        }
    }

    /// Counts one vote for `option`.
    ///
    /// The counter of the first option equal to `option` goes up by one and
    /// nothing else changes. Where the poll has no such option, the vote is
    /// refused and the poll is left as it was.
    pub fn cast_vote(&mut self, option: &String) -> (counted: Result<(), SolanaPollError>)
        requires
            old(self)@.has_room(option@),
        ensures
            match position(old(self)@.options, option@) {
                Some(index) => counted is Ok && final(self)@ == old(self)@.with_vote_at(index),
                None => {
                    &&& counted is Err
                    &&& counted->Err_0@ == PollFault::InvalidInputOption
                    &&& *final(self) == *old(self)
                },
            },
            old(self)@.well_formed() ==> final(self)@.well_formed(),
    {
        match self.position(option) {
            Some(index) => {
                let count: u32 = self.votes[index];
                self.votes.set(index, count + 1);
                Ok(())
            },
            None => Err(SolanaPollError::InvalidInputOption),
        }
    }
}

/// A vector of `len` zeros.
fn zeroed(len: usize) -> (counts: Vec<u32>)
    ensures
        counts@ == no_votes(len as nat),
{
    let mut counts: Vec<u32> = Vec::new();
    while counts.len() < len
        invariant
            counts.len() <= len,
            counts@ == no_votes(counts.len() as nat),
        decreases len - counts.len(),
    {
        counts.push(0);
        assert(counts@ =~= no_votes(counts.len() as nat));
    }
    counts
}

} // verus!
