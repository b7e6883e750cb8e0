use vstd::prelude::*;
use crate::ballot::{Ballot, LeaderId, PaxosLike};
use crate::buffer::{RequestBuffer, dispatch_round};
use crate::tracker::{LeaderTracker, leader_for, observe_all};

verus! {

/// The client side of request dispatch: the highest ballot the client has
/// been told of, and the payloads it could not forward yet.
pub struct PaxosClient<P> {
    tracker: LeaderTracker,
    buffer: RequestBuffer<P>,
}

/// What a client holds between rounds: the highest known ballot and the
/// payloads waiting for a leader, oldest first.
pub struct ClientView<P> {
    pub latest: Option<Ballot>,
    pub pending: Seq<P>,
}

impl<P> View for PaxosClient<P> {
    type V = ClientView<P>;

    closed spec fn view(&self) -> ClientView<P> {
        ClientView { latest: self.tracker@, pending: self.buffer@ }
    }
}

impl<P> PaxosClient<P> {
    /// A client that knows no leader and holds no payload.
    pub fn new() -> (r: PaxosClient<P>)
        ensures
            r@.latest == None::<Ballot>,
            r@.pending == Seq::<P>::empty(),
    {
        PaxosClient { tracker: LeaderTracker::new(), buffer: RequestBuffer::new() }
    }

    /// The highest ballot the client has been told of.
    pub fn latest_ballot(&self) -> (r: Option<Ballot>)
        ensures
            r == self@.latest,
    {
        self.tracker.latest_ballot()
    }

    /// The leader the client currently believes in under backend `L`.
    pub fn current_leader<L: PaxosLike>(&self) -> (r: Option<LeaderId>)
        ensures
            r == leader_for::<L>(self@.latest),
    {
        self.tracker.current_leader::<L>()
    }

    /// The number of payloads waiting for a leader.
    pub fn pending_len(&self) -> (r: usize)
        ensures
            r == self@.pending.len(),
    {
        self.buffer.len()
    }

    /// The payloads waiting for a leader, oldest first.
    pub fn pending(&self) -> (r: &Vec<P>)
        ensures
            r@ == self@.pending,
    {
        self.buffer.pending()
    }

    /// Runs one round. The ballots announced since the last round are taken
    /// in first; the leader that backend `L` names for the highest known
    /// ballot is then read once for the whole round. With a leader, every
    /// buffered payload and then every payload of `payloads` is returned
    /// addressed to it, and the buffer empties; without one, nothing is
    /// returned and they all stay buffered for the next round.
    ///
    /// The leader may be stale, since a later election may not have been
    /// announced yet; payloads sent to a stale leader are not retried here.
    pub fn tick<L: PaxosLike>(&mut self, ballots: &Vec<Ballot>, payloads: Vec<P>) -> (out: Vec<
        (LeaderId, P),
    >)
        ensures
            final(self)@.latest == observe_all(old(self)@.latest, ballots@),
            (final(self)@.pending, out@) == dispatch_round(
                old(self)@.pending,
                payloads@,
                leader_for::<L>(final(self)@.latest),
            ),
    {
        self.tracker.observe(ballots);
        let leader = self.tracker.current_leader::<L>();
        self.buffer.dispatch(payloads, leader)
    }
}

} // verus!
