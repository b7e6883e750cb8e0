use paxos_client::ballot::{Ballot, CorePaxos, LeaderId, PaxosLike};
use paxos_client::buffer::RequestBuffer;
use paxos_client::client::PaxosClient;
use paxos_client::tracker::LeaderTracker;

fn no_ballots() -> Vec<Ballot> {
    Vec::new()
}

#[test]
fn ballots_order_by_number_then_proposer() {
    let a = Ballot::new(1, 9);
    let b = Ballot::new(2, 0);
    let c = Ballot::new(2, 3);
    assert!(a.le(&b));
    assert!(!b.le(&a));
    assert!(b.le(&c));
    assert!(!c.le(&b));
    assert!(c.le(&c));
}

#[test]
fn core_paxos_sends_to_the_ballot_proposer() {
    assert_eq!(CorePaxos::get_recipient_from_ballot(&Ballot::new(5, 3)), 3);
    assert_eq!(CorePaxos::get_recipient_from_ballot(&Ballot::new(0, 0)), 0);
}

#[test]
fn tracker_keeps_the_highest_ballot() {
    let mut t = LeaderTracker::new();
    assert_eq!(t.latest_ballot(), None);
    assert_eq!(t.current_leader::<CorePaxos>(), None);
    t.observe(&vec![Ballot::new(2, 1), Ballot::new(4, 2), Ballot::new(3, 5)]);
    assert_eq!(t.latest_ballot(), Some(Ballot::new(4, 2)));
    assert_eq!(t.current_leader::<CorePaxos>(), Some(2));
    t.observe(&no_ballots());
    assert_eq!(t.latest_ballot(), Some(Ballot::new(4, 2)));
    t.observe(&vec![Ballot::new(4, 1)]);
    assert_eq!(t.latest_ballot(), Some(Ballot::new(4, 2)));
    t.observe(&vec![Ballot::new(4, 6)]);
    assert_eq!(t.current_leader::<CorePaxos>(), Some(6));
}

#[test]
fn leader_freshness_never_regresses() {
    let mut c: PaxosClient<u32> = PaxosClient::new();
    let rounds = vec![
        vec![Ballot::new(3, 1)],
        vec![Ballot::new(1, 2)],
        vec![],
        vec![Ballot::new(3, 0), Ballot::new(5, 4)],
        vec![Ballot::new(2, 7)],
    ];
    let mut seen: Vec<Ballot> = Vec::new();
    for bs in rounds {
        c.tick::<CorePaxos>(&bs, vec![1]);
        seen.push(c.latest_ballot().unwrap());
    }
    for w in seen.windows(2) {
        assert!(w[0].le(&w[1]));
    }
    assert_eq!(seen[1], Ballot::new(3, 1));
    assert_eq!(seen[4], Ballot::new(5, 4));
    assert_eq!(c.current_leader::<CorePaxos>(), Some(4));
}

#[test]
fn buffer_keeps_everything_without_leader() {
    let mut b: RequestBuffer<&str> = RequestBuffer::new();
    assert_eq!(b.len(), 0);
    let out = b.dispatch(vec!["a", "b"], None);
    assert!(out.is_empty());
    let out = b.dispatch(vec!["c"], None);
    assert!(out.is_empty());
    assert_eq!(b.pending(), &vec!["a", "b", "c"]);
}

#[test]
fn buffer_flushes_pending_before_incoming() {
    let mut b: RequestBuffer<&str> = RequestBuffer::new();
    b.dispatch(vec!["a"], None);
    let out = b.dispatch(vec!["b", "c"], Some(4));
    assert_eq!(out, vec![(4, "a"), (4, "b"), (4, "c")]);
    assert_eq!(b.len(), 0);
}

#[test]
fn buffer_with_leader_and_nothing_to_send() {
    let mut b: RequestBuffer<u8> = RequestBuffer::new();
    let out = b.dispatch(Vec::new(), Some(1));
    assert!(out.is_empty());
    assert_eq!(b.len(), 0);
}

#[test]
fn buffer_keeps_equal_payloads_apart() {
    let mut b: RequestBuffer<u8> = RequestBuffer::new();
    b.dispatch(vec![7, 7], None);
    let out = b.dispatch(vec![7], Some(LeaderId::MAX));
    assert_eq!(out, vec![(LeaderId::MAX, 7), (LeaderId::MAX, 7), (LeaderId::MAX, 7)]);
}

#[test]
fn buffers_then_flushes_once_leader_known() {
    let mut c: PaxosClient<&str> = PaxosClient::new();
    let out = c.tick::<CorePaxos>(&no_ballots(), vec!["A", "B"]);
    assert!(out.is_empty());
    assert_eq!(c.pending(), &vec!["A", "B"]);
    let out = c.tick::<CorePaxos>(&vec![Ballot::new(1, 8)], Vec::new());
    assert_eq!(out, vec![(8, "A"), (8, "B")]);
    assert_eq!(c.pending_len(), 0);
}

#[test]
fn flushed_payload_is_not_resent_after_leader_change() {
    let mut c: PaxosClient<&str> = PaxosClient::new();
    let out = c.tick::<CorePaxos>(&vec![Ballot::new(1, 1)], vec!["A"]);
    assert_eq!(out, vec![(1, "A")]);
    assert_eq!(c.pending_len(), 0);
    let out = c.tick::<CorePaxos>(&vec![Ballot::new(2, 2)], vec!["B"]);
    assert_eq!(out, vec![(2, "B")]);
    assert_eq!(c.pending_len(), 0);
}

#[test]
fn no_leader_over_many_rounds_sends_nothing() {
    let mut c: PaxosClient<u32> = PaxosClient::new();
    let mut submitted: Vec<u32> = Vec::new();
    for round in 0..10u32 {
        let batch: Vec<u32> = (0..round % 3 + 1).map(|k| round * 10 + k).collect();
        submitted.extend(batch.iter().copied());
        let out = c.tick::<CorePaxos>(&no_ballots(), batch);
        assert!(out.is_empty());
    }
    assert_eq!(c.pending_len(), submitted.len());
    assert_eq!(c.pending(), &submitted);
    assert_eq!(c.current_leader::<CorePaxos>(), None);
}

#[test]
fn everything_submitted_while_waiting_reaches_first_leader() {
    let mut c: PaxosClient<u32> = PaxosClient::new();
    c.tick::<CorePaxos>(&no_ballots(), vec![1, 2]);
    c.tick::<CorePaxos>(&no_ballots(), Vec::new());
    c.tick::<CorePaxos>(&no_ballots(), vec![3]);
    let out = c.tick::<CorePaxos>(&vec![Ballot::new(0, 5)], vec![4]);
    assert_eq!(out, vec![(5, 1), (5, 2), (5, 3), (5, 4)]);
}

#[test]
fn each_payload_is_sent_exactly_once() {
    let mut c: PaxosClient<u32> = PaxosClient::new();
    let plan: Vec<(Vec<Ballot>, Vec<u32>)> = vec![
        (vec![], vec![1, 2]),
        (vec![Ballot::new(1, 1)], vec![3]),
        (vec![], vec![4, 5]),
        (vec![Ballot::new(2, 2)], vec![]),
        (vec![], vec![6]),
    ];
    let mut sent: Vec<u32> = Vec::new();
    for (bs, ps) in plan {
        for (_, p) in c.tick::<CorePaxos>(&bs, ps) {
            sent.push(p);
        }
    }
    sent.extend(c.pending().iter().copied());
    assert_eq!(sent, vec![1, 2, 3, 4, 5, 6]);
}

#[test]
fn buffer_is_empty_after_a_flush() {
    let mut c: PaxosClient<u32> = PaxosClient::new();
    c.tick::<CorePaxos>(&no_ballots(), vec![1, 2, 3]);
    let out = c.tick::<CorePaxos>(&vec![Ballot::new(1, 0)], vec![4]);
    assert_eq!(out.len(), 4);
    assert_eq!(c.pending_len(), 0);
    let out = c.tick::<CorePaxos>(&no_ballots(), vec![9]);
    assert_eq!(out, vec![(0, 9)]);
}

#[test]
fn stale_leader_is_used_until_a_higher_ballot_arrives() {
    let mut c: PaxosClient<u32> = PaxosClient::new();
    c.tick::<CorePaxos>(&vec![Ballot::new(4, 2)], Vec::new());
    let out = c.tick::<CorePaxos>(&vec![Ballot::new(3, 9)], vec![1]);
    assert_eq!(out, vec![(2, 1)]);
}
