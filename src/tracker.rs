use vstd::prelude::*;
use crate::ballot::{Ballot, LeaderId, PaxosLike, ballot_max, lemma_ballot_order};

verus! {

/// The highest ballot known after `latest` has been followed by `ballots`.
pub open spec fn observe_all(latest: Option<Ballot>, ballots: Seq<Ballot>) -> Option<Ballot>
    decreases ballots.len(),
{
    if ballots.len() == 0 {
        latest
    } else {
        match observe_all(latest, ballots.drop_last()) {
            None => Some(ballots.last()),
            Some(b) => Some(ballot_max(b, ballots.last())),
        }
    }
}

/// The highest ballot known after each batch of `rounds` has been observed
/// in turn, starting from `start`.
pub open spec fn tracker_after(start: Option<Ballot>, rounds: Seq<Seq<Ballot>>) -> Option<Ballot>
    decreases rounds.len(),
{
    if rounds.len() == 0 {
        start
    } else {
        observe_all(tracker_after(start, rounds.drop_last()), rounds.last())
    }
}

/// The leader that backend `L` names for the highest known ballot, if any.
pub open spec fn leader_for<L: PaxosLike>(latest: Option<Ballot>) -> Option<LeaderId> {
    match latest {
        None => None,
        Some(b) => Some(L::spec_recipient(b)),
    }
}

/// `observe_all` is the maximum of the ballot known before and the new
/// ballots, and is absent only when there is no ballot at all.
pub proof fn lemma_observe_all_is_max(latest: Option<Ballot>, ballots: Seq<Ballot>)
    ensures
        observe_all(latest, ballots) is None <==> (latest is None && ballots.len() == 0),
        observe_all(latest, ballots) matches Some(m) ==> {
            &&& (latest matches Some(b) ==> b.spec_le(m))
            &&& forall|i: int| 0 <= i < ballots.len() ==> (#[trigger] ballots[i]).spec_le(m)
            &&& latest == Some(m) || exists|i: int| 0 <= i < ballots.len() && ballots[i] == m
        },
    decreases ballots.len(),
{
    if ballots.len() > 0 {
        let prefix = ballots.drop_last();
        let x = ballots.last();
        lemma_observe_all_is_max(latest, prefix);
        let m = observe_all(latest, ballots)->Some_0;
        assert(x.spec_le(m)) by {
            lemma_ballot_order(x, m, x);
            if let Some(b) = observe_all(latest, prefix) {
                lemma_ballot_order(b, x, x);
            }
        }
        if let Some(pm) = observe_all(latest, prefix) {
            lemma_ballot_order(pm, x, m);
            assert(pm.spec_le(m));
            assert forall|i: int| 0 <= i < ballots.len() implies (#[trigger] ballots[i]).spec_le(
                m,
            ) by {
                if i < prefix.len() {
                    assert(ballots[i] == prefix[i]);
                    lemma_ballot_order(prefix[i], pm, m);
                }
            }
            if let Some(b) = latest {
                lemma_ballot_order(b, pm, m);
            }
            if m == pm && latest != Some(m) {
                let k = choose|k: int| 0 <= k < prefix.len() && prefix[k] == pm;
                assert(ballots[k] == m);
            }
            assert(m == pm || ballots[ballots.len() - 1] == m);
        } else {
            assert forall|i: int| 0 <= i < ballots.len() implies (#[trigger] ballots[i]).spec_le(
                m,
            ) by {
                lemma_ballot_order(x, x, x);
            }
            assert(ballots[ballots.len() - 1] == m);
        }
    }
}

/// Observing more ballots never lowers the highest known ballot.
pub proof fn lemma_observe_all_grows(latest: Option<Ballot>, ballots: Seq<Ballot>)
    ensures
        latest matches Some(b) ==> (observe_all(latest, ballots) matches Some(m) && b.spec_le(m)),
{
    lemma_observe_all_is_max(latest, ballots);
}

/// The ballot behind the leader a client reports never regresses: for
/// rounds `i <= j`, once a ballot is known after round `i`, one is known
/// after round `j`, and it is at least as high.
pub proof fn lemma_leader_freshness_monotonic(
    start: Option<Ballot>,
    rounds: Seq<Seq<Ballot>>,
    i: int,
    j: int,
)
    requires
        0 <= i <= j <= rounds.len(),
    ensures
        tracker_after(start, rounds.take(i)) matches Some(bi) ==> (tracker_after(
            start,
            rounds.take(j),
        ) matches Some(bj) && bi.spec_le(bj)),
    decreases j - i,
{
    if let Some(bi) = tracker_after(start, rounds.take(i)) {
        if j == i {
            lemma_ballot_order(bi, bi, bi);
        } else {
            lemma_leader_freshness_monotonic(start, rounds, i, j - 1);
            let bp = tracker_after(start, rounds.take(j - 1))->Some_0;
            assert(rounds.take(j).drop_last() =~= rounds.take(j - 1));
            lemma_observe_all_grows(Some(bp), rounds.take(j).last());
            let bj = tracker_after(start, rounds.take(j))->Some_0;
            lemma_ballot_order(bi, bp, bj);
        }
    }
}

/// Keeps the highest ballot a client has been told of.
pub struct LeaderTracker {
    latest: Option<Ballot>,
}

impl View for LeaderTracker {
    type V = Option<Ballot>;

    closed spec fn view(&self) -> Option<Ballot> {
        self.latest
    }
}

impl LeaderTracker {
    /// A tracker that knows no ballot.
    pub fn new() -> (r: LeaderTracker)
        ensures
            r@ == None::<Ballot>,
    {
        LeaderTracker { latest: None }
    }

    /// The highest ballot known so far.
    pub fn latest_ballot(&self) -> (r: Option<Ballot>)
        ensures
            r == self@,
    {
        self.latest
    }

    /// Takes in the ballots announced since the last call; the highest
    /// known ballot becomes the maximum of itself and them.
    pub fn observe(&mut self, ballots: &Vec<Ballot>)
        ensures
            final(self)@ == observe_all(old(self)@, ballots@),
    {
        let ghost start = self.latest;
        let mut i: usize = 0;
        while i < ballots.len()
            invariant
                i <= ballots@.len(),
                self.latest == observe_all(start, ballots@.take(i as int)),
            decreases ballots@.len() - i,
        {
            let b = ballots[i];
            assert(ballots@.take(i + 1).drop_last() =~= ballots@.take(i as int));
            let next = match self.latest {
                None => b,
                Some(cur) => if cur.le(&b) {
                    b
                } else {
                    cur
                },
            };
            self.latest = Some(next);
            i = i + 1;
        }
        assert(ballots@.take(i as int) =~= ballots@);
    }

    /// The leader that backend `L` names for the highest known ballot, or
    /// `None` while no ballot is known. It may be stale: a later election
    /// may not have been announced yet.
    pub fn current_leader<L: PaxosLike>(&self) -> (r: Option<LeaderId>)
        ensures
            r == leader_for::<L>(self@),
    {
        match &self.latest {
            None => None,
            Some(b) => Some(L::get_recipient_from_ballot(b)),
        }
    }
}

} // verus!
