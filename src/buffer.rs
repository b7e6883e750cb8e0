use vstd::prelude::*;
use crate::ballot::LeaderId;

verus! {

/// Every payload of `ps`, in order, addressed to `leader`.
pub open spec fn tag_all<P>(leader: LeaderId, ps: Seq<P>) -> Seq<(LeaderId, P)> {
    ps.map_values(|p: P| (leader, p))
}

/// One round of the dispatcher, from the payloads retained by the previous
/// round, the payloads submitted in this round and the leader known in this
/// round, to the payloads retained for the next round and the messages sent.
///
/// Without a leader every candidate is kept; with one, every candidate is
/// sent to it and nothing is kept.
pub open spec fn dispatch_round<P>(pending: Seq<P>, incoming: Seq<P>, leader: Option<LeaderId>) -> (
    Seq<P>,
    Seq<(LeaderId, P)>,
) {
    match leader {
        None => (pending + incoming, Seq::empty()),
        Some(l) => (Seq::empty(), tag_all(l, pending + incoming)),
    }
}

/// The payloads of a sequence of messages, without their addresses.
pub open spec fn payloads_of<P>(msgs: Seq<(LeaderId, P)>) -> Seq<P> {
    msgs.map_values(|m: (LeaderId, P)| m.1)
}

/// Everything submitted over `rounds`, where each round is the payloads
/// submitted in it and the leader known in it, in order.
pub open spec fn all_submitted<P>(rounds: Seq<(Seq<P>, Option<LeaderId>)>) -> Seq<P>
    decreases rounds.len(),
{
    if rounds.len() == 0 {
        Seq::empty()
    } else {
        all_submitted(rounds.drop_last()) + rounds.last().0
    }
}

/// The buffer after `rounds`, starting from `pending`.
pub open spec fn buffer_after<P>(pending: Seq<P>, rounds: Seq<(Seq<P>, Option<LeaderId>)>) -> Seq<P>
    decreases rounds.len(),
{
    if rounds.len() == 0 {
        pending
    } else {
        dispatch_round(buffer_after(pending, rounds.drop_last()), rounds.last().0, rounds.last().1).0
    }
}

/// Every message sent over `rounds`, starting from `pending`, in order.
pub open spec fn sent_over<P>(pending: Seq<P>, rounds: Seq<(Seq<P>, Option<LeaderId>)>) -> Seq<
    (LeaderId, P),
>
    decreases rounds.len(),
{
    if rounds.len() == 0 {
        Seq::empty()
    } else {
        sent_over(pending, rounds.drop_last()) + dispatch_round(
            buffer_after(pending, rounds.drop_last()),
            rounds.last().0,
            rounds.last().1,
        ).1
    }
}

proof fn lemma_payloads_of_tag_all<P>(l: LeaderId, ps: Seq<P>)
    ensures
        payloads_of(tag_all(l, ps)) == ps,
{
    assert(payloads_of(tag_all(l, ps)) =~= ps);
}

proof fn lemma_payloads_of_concat<P>(a: Seq<(LeaderId, P)>, b: Seq<(LeaderId, P)>)
    ensures
        payloads_of(a + b) == payloads_of(a) + payloads_of(b),
{
    assert(payloads_of(a + b) =~= payloads_of(a) + payloads_of(b));
}

/// No payload is lost or sent twice: over any run, the payloads sent,
/// followed by those still buffered, are exactly the payloads buffered at
/// the start followed by everything submitted, each occurrence once and in
/// order.
pub proof fn lemma_payloads_conserved<P>(pending: Seq<P>, rounds: Seq<(Seq<P>, Option<LeaderId>)>)
    ensures
        payloads_of(sent_over(pending, rounds)) + buffer_after(pending, rounds) == pending
            + all_submitted(rounds),
    decreases rounds.len(),
{
    if rounds.len() == 0 {
        assert(payloads_of(Seq::<(LeaderId, P)>::empty()) =~= Seq::<P>::empty());
        assert(pending + Seq::<P>::empty() =~= pending);
        assert(Seq::<P>::empty() + pending =~= pending);
    } else {
        let prev = rounds.drop_last();
        let (incoming, leader) = rounds.last();
        let before = buffer_after(pending, prev);
        let sent_before = sent_over(pending, prev);
        lemma_payloads_conserved(pending, prev);
        let step = dispatch_round(before, incoming, leader);
        lemma_payloads_of_concat(sent_before, step.1);
        match leader {
            None => {
                assert(payloads_of(Seq::<(LeaderId, P)>::empty()) =~= Seq::<P>::empty());
            },
            Some(l) => {
                lemma_payloads_of_tag_all(l, before + incoming);
            },
        }
        assert(payloads_of(sent_before) + payloads_of(step.1) + step.0 =~= pending + all_submitted(
            prev,
        ) + incoming);
    }
}

/// While no leader is known, nothing is sent and the buffer holds, in
/// order, every payload submitted so far; its length is the number of
/// payloads submitted.
pub proof fn lemma_buffer_grows_without_leader<P>(rounds: Seq<(Seq<P>, Option<LeaderId>)>)
    requires
        forall|i: int| 0 <= i < rounds.len() ==> (#[trigger] rounds[i]).1 is None,
    ensures
        buffer_after(Seq::empty(), rounds) == all_submitted(rounds),
        buffer_after(Seq::empty(), rounds).len() == all_submitted(rounds).len(),
        sent_over(Seq::empty(), rounds) == Seq::<(LeaderId, P)>::empty(),
    decreases rounds.len(),
{
    if rounds.len() > 0 {
        let prev = rounds.drop_last();
        assert forall|i: int| 0 <= i < prev.len() implies (#[trigger] prev[i]).1 is None by {
            assert(prev[i] == rounds[i]);
        }
        lemma_buffer_grows_without_leader(prev);
        assert(rounds.last() == rounds[rounds.len() - 1]);
        assert(sent_over(Seq::<P>::empty(), rounds) =~= Seq::<(LeaderId, P)>::empty());
    }
}

/// Nothing submitted while no leader is known is lost: in the first round
/// in which a leader `l` is known, every payload submitted before, then
/// every payload submitted in that round, is sent to `l`, in order.
pub proof fn lemma_no_loss_while_waiting<P>(
    rounds: Seq<(Seq<P>, Option<LeaderId>)>,
    incoming: Seq<P>,
    l: LeaderId,
)
    requires
        forall|i: int| 0 <= i < rounds.len() ==> (#[trigger] rounds[i]).1 is None,
    ensures
        dispatch_round(buffer_after(Seq::empty(), rounds), incoming, Some(l)).1 == tag_all(
            l,
            all_submitted(rounds) + incoming,
        ),
        sent_over(Seq::empty(), rounds.push((incoming, Some(l)))) == tag_all(
            l,
            all_submitted(rounds) + incoming,
        ),
{
    lemma_buffer_grows_without_leader(rounds);
    let all = rounds.push((incoming, Some(l)));
    assert(all.drop_last() =~= rounds);
    assert(Seq::<(LeaderId, P)>::empty() + tag_all(l, all_submitted(rounds) + incoming) =~= tag_all(
        l,
        all_submitted(rounds) + incoming,
    ));
}

/// A flush carries nothing over: after a round in which a leader is known,
/// the buffer is empty, so the candidates of the next round are only the
/// payloads submitted in it.
pub proof fn lemma_empty_after_flush<P>(
    pending: Seq<P>,
    rounds: Seq<(Seq<P>, Option<LeaderId>)>,
    i: int,
)
    requires
        0 <= i < rounds.len(),
        rounds[i].1 is Some,
    ensures
        buffer_after(pending, rounds.take(i + 1)) == Seq::<P>::empty(),
        i + 1 < rounds.len() ==> buffer_after(pending, rounds.take(i + 1)) + rounds[i + 1].0
            == rounds[i + 1].0,
{
    assert(rounds.take(i + 1).drop_last() =~= rounds.take(i));
    assert(rounds.take(i + 1).last() == rounds[i]);
    if i + 1 < rounds.len() {
        assert(Seq::<P>::empty() + rounds[i + 1].0 =~= rounds[i + 1].0);
    }
}

/// A buffer of payloads that have not been forwarded yet, kept from one
/// round to the next.
pub struct RequestBuffer<P> {
    pending: Vec<P>,
}

impl<P> View for RequestBuffer<P> {
    type V = Seq<P>;

    closed spec fn view(&self) -> Seq<P> {
        self.pending@
    }
}

impl<P> RequestBuffer<P> {
    /// An empty buffer.
    pub fn new() -> (r: RequestBuffer<P>)
        ensures
            r@ == Seq::<P>::empty(),
    {
        RequestBuffer { pending: Vec::new() }
    }

    /// The number of payloads waiting for a leader.
    pub fn len(&self) -> (r: usize)
        ensures
            r == self@.len(),
    {
        self.pending.len()
    }

    /// The payloads waiting for a leader, oldest first.
    pub fn pending(&self) -> (r: &Vec<P>)
        ensures
            r@ == self@,
    {
        &self.pending
    }

    /// Runs one round: the retained payloads followed by `incoming` are the
    /// candidates. With a leader, each candidate is returned addressed to it,
    /// in order, and the buffer empties; without one, nothing is returned and
    /// the buffer holds all the candidates.
    pub fn dispatch(&mut self, incoming: Vec<P>, leader: Option<LeaderId>) -> (out: Vec<
        (LeaderId, P),
    >)
        ensures
            (final(self)@, out@) == dispatch_round(old(self)@, incoming@, leader),
    {
        let mut incoming = incoming;
        self.pending.append(&mut incoming);
        match leader {
            None => Vec::new(),
            Some(l) => {
                let mut candidates: Vec<P> = Vec::new();
                std::mem::swap(&mut candidates, &mut self.pending);
                let ghost all = candidates@;
                // Pop everything off the back, then pop again, so that the
                // payloads come out in their original order.
                let mut reversed: Vec<P> = Vec::new();
                while candidates.len() > 0
                    invariant
                        candidates@ + reversed@.reverse() == all,
                    decreases candidates.len(),
                {
                    let p = candidates.pop().unwrap();
                    proof {
                        assert(reversed@.push(p).reverse() =~= seq![p] + reversed@.reverse());
                    }
                    reversed.push(p);
                    proof {
                        assert(candidates@ + reversed@.reverse() =~= all);
                    }
                }
                assert(reversed@.reverse() =~= all);
                let mut out: Vec<(LeaderId, P)> = Vec::new();
                while reversed.len() > 0
                    invariant
                        out@ + tag_all(l, reversed@.reverse()) == tag_all(l, all),
                    decreases reversed.len(),
                {
                    let p = reversed.pop().unwrap();
                    out.push((l, p));
                    proof {
                        assert(out@ + tag_all(l, reversed@.reverse()) =~= tag_all(l, all));
                    }
                }
                proof {
                    assert(out@ =~= tag_all(l, all));
                    assert(self.pending@ =~= Seq::<P>::empty());
                }
                out
            },
        }
    }
}

} // verus!
