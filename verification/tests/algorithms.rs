use simple_network::algorithms::crdt::OrSet;
use simple_network::algorithms::dht::{Dht, DhtNode};
use simple_network::algorithms::gossip::{GossipFact, GossipProtocol};
use simple_network::algorithms::raft::{RaftLogEntry, RaftNode, RaftState};
use simple_network::algorithms::swim::{NodeStatus, SwimProtocol};
use simple_network::algorithms::twopc::{
    TransactionState, TwoPcError, TwoPhaseCommitCoordinator, TwoPhaseCommitParticipant,
};
use simple_network::algorithms::vector_clock::VectorClock;

fn s(x: &str) -> String {
    x.to_string()
}

#[test]
fn or_set_add_remove_contains() {
    let mut set: OrSet<String> = OrSet::new();
    assert!(!set.contains(&s("a")));
    set.add(s("a"), s("t1"));
    assert!(set.contains(&s("a")));
    set.remove(&s("a"));
    assert!(!set.contains(&s("a")));
    // a fresh tag re-adds the element
    set.add(s("a"), s("t2"));
    assert!(set.contains(&s("a")));
    // re-adding under a tombstoned tag does not
    let mut other: OrSet<String> = OrSet::new();
    other.add(s("b"), s("t3"));
    other.remove(&s("b"));
    other.add(s("b"), s("t3"));
    assert!(!other.contains(&s("b")));
}

#[test]
fn or_set_merge_add_wins_and_converges() {
    let mut a: OrSet<u64> = OrSet::new();
    let mut b: OrSet<u64> = OrSet::new();
    a.add(1, s("a1"));
    b.merge(&a);
    assert!(b.contains(&1));
    // concurrent: a removes 1, b re-adds 1 with a new tag
    a.remove(&1);
    b.add(1, s("b1"));
    b.add(2, s("b2"));
    let mut a2: OrSet<u64> = OrSet::new();
    a2.merge(&a);
    a2.merge(&b);
    let mut b2: OrSet<u64> = OrSet::new();
    b2.merge(&b);
    b2.merge(&a);
    for e in [1u64, 2, 3] {
        assert_eq!(a2.contains(&e), b2.contains(&e));
    }
    assert!(a2.contains(&1));
    assert!(a2.contains(&2));
    let mut els = a2.elements();
    els.sort();
    assert_eq!(els, vec![1, 2]);
    // merging twice changes nothing
    a2.merge(&b);
    let mut els2 = a2.elements();
    els2.sort();
    assert_eq!(els2, vec![1, 2]);
}

#[test]
fn or_set_default_is_empty() {
    let set: OrSet<String> = OrSet::default();
    assert!(set.elements().is_empty());
}

fn node(id: u64, addr: &str) -> DhtNode {
    DhtNode { node_id: id, address: s(addr) }
}

#[test]
fn dht_bucket_index_is_highest_differing_bit() {
    assert_eq!(Dht::xor_distance(0b1010, 0b0110), 0b1100);
    assert_eq!(Dht::bucket_index(5, 5), 0);
    assert_eq!(Dht::bucket_index(0, 1), 0);
    assert_eq!(Dht::bucket_index(0, 2), 1);
    assert_eq!(Dht::bucket_index(0, 3), 1);
    assert_eq!(Dht::bucket_index(0, 0x8000_0000_0000_0000), 63);
    assert_eq!(Dht::bucket_index(u64::MAX, 0), 63);
}

#[test]
fn dht_add_node_replaces_and_evicts_oldest() {
    let mut d = Dht::new(0, 2);
    assert_eq!(d.buckets.len(), 64);
    d.add_node(node(0, "self"));
    assert!(d.buckets.iter().all(|b| b.is_empty()));
    d.add_node(node(4, "a"));
    d.add_node(node(5, "b"));
    d.add_node(node(4, "a2"));
    assert_eq!(d.buckets[2], vec![node(5, "b"), node(4, "a2")]);
    d.add_node(node(6, "c"));
    assert_eq!(d.buckets[2], vec![node(4, "a2"), node(6, "c")]);
}

#[test]
fn dht_find_closest_orders_by_xor_distance() {
    let mut d = Dht::new(0, 20);
    d.add_node(node(8, "n8"));
    d.add_node(node(1, "n1"));
    d.add_node(node(3, "n3"));
    d.add_node(node(12, "n12"));
    let closest = d.find_closest_nodes(2, 3);
    let ids: Vec<u64> = closest.iter().map(|n| n.node_id).collect();
    assert_eq!(ids, vec![3, 1, 8]);
    assert_eq!(d.find_closest_nodes(2, 10).len(), 4);
    assert!(d.find_closest_nodes(2, 0).is_empty());
}

#[test]
fn gossip_versions_and_merge() {
    let mut g = GossipProtocol::new(s("n1"));
    g.add_peer(s("n2"));
    g.add_peer(s("n2"));
    assert_eq!(g.peers.len(), 1);
    g.update_fact(s("k"), s("v1"));
    g.update_fact(s("k"), s("v2"));
    let facts = g.get_facts_for_sync();
    assert_eq!(facts, vec![GossipFact { key: s("k"), value: s("v2"), version: 2 }]);
    g.merge_facts(vec![
        GossipFact { key: s("k"), value: s("old"), version: 2 },
        GossipFact { key: s("j"), value: s("x"), version: 7 },
        GossipFact { key: s("k"), value: s("new"), version: 3 },
    ]);
    let facts = g.get_facts_for_sync();
    assert_eq!(facts.len(), 2);
    assert!(facts.contains(&GossipFact { key: s("k"), value: s("new"), version: 3 }));
    assert!(facts.contains(&GossipFact { key: s("j"), value: s("x"), version: 7 }));
    // syncing with our own facts is a no-op
    let own = g.get_facts_for_sync();
    g.merge_facts(own.clone());
    assert_eq!(g.get_facts_for_sync(), own);
}

fn entry(term: u64) -> RaftLogEntry {
    RaftLogEntry { term, command: vec![1, 2] }
}

#[test]
fn raft_append_entries() {
    let mut n = RaftNode::new();
    assert_eq!(n.state, RaftState::Follower);
    n.state = RaftState::Candidate;
    assert!(n.handle_append_entries(2, 0, 0, vec![entry(2), entry(2)], 5));
    assert_eq!(n.current_term, 2);
    assert_eq!(n.state, RaftState::Follower);
    assert_eq!(n.log.len(), 2);
    assert_eq!(n.commit_index, 2);
    assert!(!n.handle_append_entries(1, 0, 0, vec![entry(1)], 9));
    assert_eq!(n.log.len(), 2);
    assert_eq!(n.current_term, 2);
    assert!(n.handle_append_entries(2, 0, 0, vec![], 1));
    assert_eq!(n.commit_index, 2);
}

#[test]
fn raft_one_vote_per_term() {
    let mut n = RaftNode::default();
    assert!(n.handle_request_vote(1, s("a"), 0, 0));
    assert!(n.handle_request_vote(1, s("a"), 0, 0));
    assert!(!n.handle_request_vote(1, s("b"), 0, 0));
    assert_eq!(n.voted_for, Some(s("a")));
    assert!(n.handle_request_vote(2, s("b"), 0, 0));
    assert_eq!(n.current_term, 2);
    assert!(!n.handle_request_vote(1, s("c"), 0, 0));
    assert_eq!(n.voted_for, Some(s("b")));
}

#[test]
fn swim_membership_updates() {
    let mut w = SwimProtocol::new(s("me"));
    w.update_member(s("me"), NodeStatus::Alive, 1);
    assert!(w.get_alive_members().is_empty());
    w.update_member(s("a"), NodeStatus::Alive, 1);
    w.update_member(s("b"), NodeStatus::Suspect, 1);
    assert_eq!(w.get_alive_members(), vec![s("a")]);
    // same incarnation, not a death report: ignored
    w.update_member(s("b"), NodeStatus::Alive, 1);
    assert_eq!(w.get_alive_members(), vec![s("a")]);
    // same incarnation death report: taken
    w.update_member(s("a"), NodeStatus::Dead, 1);
    assert!(w.get_alive_members().is_empty());
    // dead stays dead within the incarnation
    w.update_member(s("a"), NodeStatus::Alive, 1);
    assert!(w.get_alive_members().is_empty());
    // a newer incarnation revives
    w.update_member(s("a"), NodeStatus::Alive, 2);
    assert_eq!(w.get_alive_members(), vec![s("a")]);
    // a fresh suspect is not expired yet
    w.check_timeouts();
    let b = w.members.get(&s("b")).unwrap();
    assert_eq!(b.status, NodeStatus::Suspect);
}

#[test]
fn swim_expire_if_overdue() {
    let mut w = SwimProtocol::new(s("me"));
    w.update_member(s("b"), NodeStatus::Suspect, 3);
    let mut r = w.members.get(&s("b")).unwrap().clone();
    r.expire_if_overdue(10, 20, 777);
    assert_eq!(r.status, NodeStatus::Suspect);
    r.expire_if_overdue(21, 20, 777);
    assert_eq!(r.status, NodeStatus::Dead);
    assert_eq!(r.incarnation, 3);
    assert_eq!(r.last_update, 777);
}

#[test]
fn swim_suspect_times_out() {
    let mut w = SwimProtocol::new(s("me"));
    assert_eq!(w.suspect_timeout, 5_000_000_000);
    w.update_member(s("a"), NodeStatus::Alive, 1);
    w.update_member(s("b"), NodeStatus::Suspect, 1);
    let b_update = w.members.get(&s("b")).unwrap().last_update;
    // with the default timeout a fresh suspect survives the pass
    w.check_timeouts();
    assert_eq!(w.members.get(&s("b")).unwrap().status, NodeStatus::Suspect);
    let start = std::time::Instant::now();
    while start.elapsed().as_nanos() < 5_000_000 {}
    w.suspect_timeout = 1_000_000;
    w.check_timeouts();
    let b = w.members.get(&s("b")).unwrap();
    assert_eq!(b.status, NodeStatus::Dead);
    assert!(b.last_update > b_update);
    assert_eq!(b.incarnation, 1);
    assert_eq!(w.members.get(&s("a")).unwrap().status, NodeStatus::Alive);
    assert_eq!(w.get_alive_members(), vec![s("a")]);
}

#[test]
fn two_phase_commit_coordinator() {
    let mut c = TwoPhaseCommitCoordinator::new(s("tx"), vec![s("p1"), s("p2")]);
    assert_eq!(c.commit(), Err(TwoPcError::NotPrepared));
    assert_eq!(c.receive_vote(s("p1"), true), Ok(()));
    assert_eq!(c.state, TransactionState::Init);
    assert_eq!(c.receive_vote(s("p2"), true), Ok(()));
    assert_eq!(c.state, TransactionState::Prepared);
    assert_eq!(c.receive_vote(s("p2"), false), Err(TwoPcError::NotInInit));
    assert_eq!(c.commit(), Ok(()));
    assert_eq!(c.state, TransactionState::Committed);
    assert_eq!(TwoPcError::NotPrepared.to_string(), "Cannot commit, not prepared");
    assert_eq!(TwoPcError::NotInInit.to_string(), "Transaction not in Init state");

    let mut c = TwoPhaseCommitCoordinator::new(s("tx"), vec![s("p1"), s("p2")]);
    assert_eq!(c.receive_vote(s("p1"), false), Ok(()));
    assert_eq!(c.state, TransactionState::Aborted);
    assert_eq!(c.commit(), Err(TwoPcError::NotPrepared));
    c.abort();
    assert_eq!(c.state, TransactionState::Aborted);
}

#[test]
fn two_phase_commit_needs_every_listed_participant() {
    let mut c = TwoPhaseCommitCoordinator::new(s("tx"), vec![s("p1"), s("p2")]);
    assert_eq!(c.receive_vote(s("x"), true), Ok(()));
    assert_eq!(c.receive_vote(s("p1"), true), Ok(()));
    assert_eq!(c.state, TransactionState::Init);
    assert_eq!(c.commit(), Err(TwoPcError::NotPrepared));
    assert_eq!(c.receive_vote(s("p2"), true), Ok(()));
    assert_eq!(c.state, TransactionState::Prepared);
    let mut d = TwoPhaseCommitCoordinator::new(s("tx"), vec![s("p1")]);
    assert_eq!(d.receive_vote(s("x"), false), Ok(()));
    assert_eq!(d.state, TransactionState::Aborted);
}

#[test]
fn two_phase_commit_participant() {
    let mut p = TwoPhaseCommitParticipant::new(s("tx"));
    assert_eq!(p.commit(), Err(TwoPcError::NotPrepared));
    assert!(p.prepare(true));
    assert_eq!(p.state, TransactionState::Prepared);
    assert_eq!(p.commit(), Ok(()));
    assert_eq!(p.state, TransactionState::Committed);
    let mut q = TwoPhaseCommitParticipant::new(s("tx"));
    assert!(!q.prepare(false));
    assert_eq!(q.state, TransactionState::Aborted);
    q.abort();
    assert_eq!(q.state, TransactionState::Aborted);
}

#[test]
fn vector_clock_causality() {
    let mut a = VectorClock::new(s("a"));
    let b = VectorClock::new(s("b"));
    assert!(!a.precedes(&a));
    let before = a.clone();
    a.increment();
    assert!(before.precedes(&a));
    assert!(!a.precedes(&before));
    let mut m = b.clone();
    m.merge(&a);
    assert_eq!(*m.clocks.get(&s("a")).unwrap(), 1);
    assert_eq!(*m.clocks.get(&s("b")).unwrap(), 0);
    // equal counters (an extra zero counter changes nothing): neither precedes
    assert!(!a.precedes(&m));
    assert!(!m.precedes(&a));
    assert!(b.precedes(&m));
    // fresh clocks of different nodes are concurrent: neither precedes
    let x = VectorClock::new(s("x"));
    let y = VectorClock::new(s("y"));
    assert!(!x.precedes(&y) && !y.precedes(&x));
    // a node the other clock lacks counts only with a nonzero counter
    let mut y1 = y.clone();
    y1.increment();
    assert!(x.precedes(&y1));
    assert!(!y1.precedes(&x));
}

#[test]
fn vector_clock_merge_commutes_and_is_idempotent() {
    let mut a = VectorClock::new(s("a"));
    a.increment();
    a.increment();
    let mut b = VectorClock::new(s("b"));
    b.increment();
    let mut ab = a.clone();
    ab.merge(&b);
    let mut ba = b.clone();
    ba.merge(&a);
    for k in ["a", "b"] {
        assert_eq!(ab.clocks.get(&s(k)), ba.clocks.get(&s(k)));
    }
    assert_eq!(ab.clocks.len(), 2);
    assert_eq!(ba.clocks.len(), 2);
    assert_eq!(*ab.clocks.get(&s("a")).unwrap(), 2);
    assert_eq!(*ab.clocks.get(&s("b")).unwrap(), 1);
    let mut aa = ab.clone();
    aa.merge(&ab);
    assert_eq!(aa.clocks.len(), 2);
    assert_eq!(*aa.clocks.get(&s("a")).unwrap(), 2);
    assert_eq!(*aa.clocks.get(&s("b")).unwrap(), 1);
}

#[test]
fn vector_clock_precedes_is_transitive() {
    let a = VectorClock::new(s("a"));
    let mut b = a.clone();
    b.increment();
    let mut z = VectorClock::new(s("z"));
    z.increment();
    let mut c = b.clone();
    c.merge(&z);
    assert!(a.precedes(&b));
    assert!(b.precedes(&c));
    assert!(a.precedes(&c));
    assert!(!c.precedes(&a));
    let p = VectorClock::new(s("p"));
    assert!(!p.precedes(&p));
}

#[test]
fn dht_table_keeps_its_rules() {
    let mut d = Dht::new(0, 0);
    d.add_node(node(4, "a"));
    assert!(d.buckets.iter().all(|b| b.is_empty()));
    let mut d = Dht::new(7, 3);
    for id in [1u64, 2, 3, 4, 5, 6, 7, 8, 9, 10, 11, 12, 13, 14, 15, 4, 5, 6] {
        d.add_node(node(id, "x"));
    }
    for (j, b) in d.buckets.iter().enumerate() {
        assert!(b.len() <= 3);
        for (x, n) in b.iter().enumerate() {
            assert_ne!(n.node_id, 7);
            assert_eq!(Dht::bucket_index(7, n.node_id), j);
            for m in b.iter().skip(x + 1) {
                assert_ne!(n.node_id, m.node_id);
            }
        }
    }
    let ids: Vec<u64> = d.buckets[3].iter().map(|n| n.node_id).collect();
    assert_eq!(ids, vec![13, 14, 15]);
    let ids: Vec<u64> = d.buckets[1].iter().map(|n| n.node_id).collect();
    assert_eq!(ids, vec![4, 5]);
}

#[test]
fn gossip_sync_round_trip() {
    let mut g = GossipProtocol::new(s("g"));
    g.update_fact(s("k1"), s("v1"));
    g.update_fact(s("k2"), s("v2"));
    g.update_fact(s("k1"), s("v1b"));
    let mut h = GossipProtocol::new(s("h"));
    h.merge_facts(g.get_facts_for_sync());
    assert_eq!(h.facts.len(), g.facts.len());
    for k in ["k1", "k2"] {
        assert_eq!(h.facts.get(&s(k)), g.facts.get(&s(k)));
    }
    assert_eq!(h.facts.get(&s("k1")).unwrap().version, 2);
}

#[test]
fn or_set_clone_with_str_elements() {
    let mut a: OrSet<&str> = OrSet::new();
    a.add("x", s("t1"));
    a.add("y", s("t2"));
    a.remove(&"y");
    let b = a.clone();
    assert!(b.contains(&"x"));
    assert!(!b.contains(&"y"));
    a.add("z", s("t3"));
    assert!(a.contains(&"z"));
    assert!(!b.contains(&"z"));
    assert_eq!(b.elements(), vec!["x"]);
}
