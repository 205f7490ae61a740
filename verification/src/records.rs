use vstd::prelude::*;

verus! {

/// Upper bound, in bytes, on a poll's description.
pub const MAX_DESCRIPTION_BYTES: usize = 200;

/// Upper bound, in bytes, on a candidate's name.
pub const MAX_NAME_BYTES: usize = 32;

/// One voting contest.
///
/// `poll_id` is caller-supplied and immutable after creation;
/// `candidate_amount` counts the successful candidate registrations under
/// this poll and is never decremented.
#[derive(Debug, PartialEq, Eq)]
pub struct Poll {
    pub poll_id: u64,
    pub description: Vec<u8>,
    pub poll_start: u64,
    pub poll_end: u64,
    pub candidate_amount: u64,
}

/// The mathematical value of a [`Poll`].
pub struct PollView {
    pub poll_id: u64,
    pub description: Seq<u8>,
    pub poll_start: u64,
    pub poll_end: u64,
    pub candidate_amount: u64,
}

impl View for Poll {
    type V = PollView;

    open spec fn view(&self) -> PollView {
        PollView {
            poll_id: self.poll_id,
            description: self.description@,
            poll_start: self.poll_start,
            poll_end: self.poll_end,
            candidate_amount: self.candidate_amount,
        }
    }
}

impl PollView {
    /// The description stays within its bound.
    pub open spec fn valid(self) -> bool {
        self.description.len() <= MAX_DESCRIPTION_BYTES
    }
}

/// One candidate within a poll.
///
/// `poll_id` links back to the poll as a plain value copy; together with
/// `candidate_name` it forms the record's unique key. `candidate_votes`
/// starts at 0 and grows by exactly 1 per successful vote.
#[derive(Debug, PartialEq, Eq)]
pub struct Candidate {
    pub poll_id: u64,
    pub candidate_votes: u64,
    pub candidate_name: Vec<u8>,
}

/// The mathematical value of a [`Candidate`].
pub struct CandidateView {
    pub poll_id: u64,
    pub candidate_votes: u64,
    pub candidate_name: Seq<u8>,
}

impl View for Candidate {
    type V = CandidateView;

    open spec fn view(&self) -> CandidateView {
        CandidateView {
            poll_id: self.poll_id,
            candidate_votes: self.candidate_votes,
            candidate_name: self.candidate_name@,
        }
    }
}

impl CandidateView {
    /// The name stays within its bound.
    pub open spec fn valid(self) -> bool {
        self.candidate_name.len() <= MAX_NAME_BYTES
    }
}

} // verus!
