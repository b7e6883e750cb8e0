use vstd::prelude::*;

verus! {

/// Identifier of the cluster member that receives client payloads.
pub type LeaderId = u32;

/// A leadership term issued by the consensus engine.
///
/// Ballots are ordered by `num` first and by `proposer_id` second; a higher
/// ballot supersedes every lower one.
#[derive(Clone, Copy, Debug, PartialEq, Eq, Structural, Hash)]
pub struct Ballot {
    pub num: u64,
    pub proposer_id: LeaderId,
}

impl Ballot {
    /// The order on ballots: lexicographic on `(num, proposer_id)`.
    pub open spec fn spec_le(self, other: Ballot) -> bool {
        self.num < other.num || (self.num == other.num && self.proposer_id <= other.proposer_id)
    }

    pub fn new(num: u64, proposer_id: LeaderId) -> (r: Ballot)
        ensures
            r.num == num,
            r.proposer_id == proposer_id,
    {
        Ballot { num, proposer_id }
    }

    /// Whether `self` is at most `other` in the ballot order.
    pub fn le(&self, other: &Ballot) -> (r: bool)
        ensures
            r == self.spec_le(*other),
    {
        self.num < other.num || (self.num == other.num && self.proposer_id <= other.proposer_id)
    }
}

/// The larger of two ballots.
pub open spec fn ballot_max(a: Ballot, b: Ballot) -> Ballot {
    if a.spec_le(b) {
        b
    } else {
        a
    }
}

/// The ballot order is a total order.
pub proof fn lemma_ballot_order(a: Ballot, b: Ballot, c: Ballot)
    ensures
        a.spec_le(a),
        a.spec_le(b) || b.spec_le(a),
        a.spec_le(b) && b.spec_le(a) ==> a == b,
        a.spec_le(b) && b.spec_le(c) ==> a.spec_le(c),
{
}

/// A consensus backend, as far as its clients see it: it names the member
/// that should receive client payloads under a given ballot.
pub trait PaxosLike {
    /// The member that leads under `ballot`.
    spec fn spec_recipient(ballot: Ballot) -> LeaderId;

    /// The member that should receive client payloads while `ballot` is the
    /// highest ballot known.
    fn get_recipient_from_ballot(ballot: &Ballot) -> (r: LeaderId)
        ensures
            r == Self::spec_recipient(*ballot),
    ;
}

/// Classic Paxos: the proposer that issued a ballot leads under it and
/// receives the client payloads.
pub struct CorePaxos;

impl PaxosLike for CorePaxos {
    open spec fn spec_recipient(ballot: Ballot) -> LeaderId {
        ballot.proposer_id
    }

    fn get_recipient_from_ballot(ballot: &Ballot) -> (r: LeaderId) {
        ballot.proposer_id
    }
}

} // verus!
