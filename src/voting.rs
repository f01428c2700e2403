//! Vote options, their numeric codes, and the messages exchanged with the
//! voting contract.

use vstd::prelude::*;

verus! {

/// A vote choice on a governance proposal.
#[derive(Clone, Copy, Debug, PartialEq, Eq, Structural)]
pub enum VoteOption {
    Yes,
    No,
    Abstain,
    NoWithVeto,
}

/// A numeric vote code outside `0..=3`.
#[derive(Clone, Copy, Debug, PartialEq, Eq, Structural)]
pub struct InvalidVoteCode {
    pub code: u32,
}

/// The fixed code of each vote option.
pub open spec fn vote_code(option: VoteOption) -> u32 {
    match option {
        VoteOption::Abstain => 0,
        VoteOption::NoWithVeto => 1,
        VoteOption::No => 2,
        VoteOption::Yes => 3,
    }
}

/// The option a code stands for, if any.
pub open spec fn vote_of_code(code: u32) -> Option<VoteOption> {
    if code == 0 {
        Some(VoteOption::Abstain)
    } else if code == 1 {
        Some(VoteOption::NoWithVeto)
    } else if code == 2 {
        Some(VoteOption::No)
    } else if code == 3 {
        Some(VoteOption::Yes)
    } else {
        None
    }
}

/// Decodes a vote code; codes above 3 are rejected.
pub fn u32_to_vote_option(num: u32) -> (r: Result<VoteOption, InvalidVoteCode>)
    ensures
        match vote_of_code(num) {
            Some(option) => r == Ok::<VoteOption, InvalidVoteCode>(option),
            None => r == Err::<VoteOption, InvalidVoteCode>(InvalidVoteCode { code: num }),
        },
{
    match num {
        0 => Ok(VoteOption::Abstain),
        1 => Ok(VoteOption::NoWithVeto),
        2 => Ok(VoteOption::No),
        3 => Ok(VoteOption::Yes),
        _ => Err(InvalidVoteCode { code: num }),
    }
}

/// Encodes a vote option as its code.
pub fn vote_option_to_u32(option: VoteOption) -> (r: u32)
    ensures
        r == vote_code(option),
        r <= 3,
{
    match option {
        VoteOption::Abstain => 0,
        VoteOption::NoWithVeto => 1,
        VoteOption::No => 2,
        VoteOption::Yes => 3,
    }
}

/// Decoding the code of an option gives the option back, and encoding the
/// option that a code in `0..=3` decodes to gives the code back: the codes
/// `0..=3` and the four options are in one-to-one correspondence.
pub proof fn vote_code_round_trip(option: VoteOption, code: u32)
    ensures
        vote_of_code(vote_code(option)) == Some(option),
        code <= 3 ==> vote_of_code(code) is Some && vote_code(vote_of_code(code)->Some_0) == code,
        code > 3 ==> vote_of_code(code) is None,
{
}


/// A vote cast through the token contract, with its raw code.
#[derive(Clone, Debug)]
pub struct SingleVote {
    pub address: String,
    pub vote: u32,
    pub voting_power: u64,
}

/// A change of an account's voting power.
#[derive(Debug)]
pub struct VoteChange {
    pub voting_power: u64,
    pub address: String,
}

/// Messages handled by the voting contract.
#[derive(Debug)]
pub enum VotingMessages {
    /// The token contract asks the voting contract to vote.
    Vote { proposal: u64, vote: SingleVote },
    /// The voting contract votes on chain, with an already decoded option.
    VoteOnChain { proposal: u64, vote: VoteOption },
    NotifyBalanceChange { changes: Vec<VoteChange> },
    QueryVote { address: String, proposal: u64, password: String },
    SetPassword { password: String },
}

/// Answers of the voting contract.
#[derive(Debug)]
pub enum VoteResponse {
    QueryVote { address: String, proposal: u64, vote: Option<VoteOption>, voting_power: u128 },
}

} // verus!
