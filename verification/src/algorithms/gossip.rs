//! Anti-entropy gossip of versioned facts: each key keeps the fact with the
//! highest version seen.
use vstd::prelude::*;
use crate::collections::{
    StrMap, entries_map, keys_distinct, lemma_entries_map_push, lemma_entry_in_map,
    lemma_keys_distinct_take,
};

verus! {

#[derive(Debug, PartialEq, Eq)]
pub struct GossipFact {
    pub key: String,
    pub value: String,
    pub version: u64,
}

impl Clone for GossipFact {
    fn clone(&self) -> (r: GossipFact)
        ensures
            r == *self,
    {
        GossipFact { key: self.key.clone(), value: self.value.clone(), version: self.version }
    }
}

pub struct GossipProtocol {
    pub node_id: String,
    /// Facts by key.
    pub facts: StrMap<GossipFact>,
    /// Known peers (the keys of this map).
    pub peers: StrMap<()>,
}

/// Every fact is stored under its own key.
pub open spec fn facts_keyed(m: Map<Seq<char>, GossipFact>) -> bool {
    forall|k: Seq<char>| #[trigger] m.contains_key(k) ==> m[k].key@ == k
}

/// The facts after one incoming fact: it is taken when its key is new or its
/// version is higher than the stored one.
pub open spec fn merge_one(m: Map<Seq<char>, GossipFact>, f: GossipFact) -> Map<Seq<char>, GossipFact> {
    if !m.contains_key(f.key@) || f.version > m[f.key@].version {
        m.insert(f.key@, f)
    } else {
        m
    }
}

/// The facts after a batch of incoming facts, taken in order.
pub open spec fn merge_all(m: Map<Seq<char>, GossipFact>, s: Seq<GossipFact>) -> Map<Seq<char>, GossipFact>
    decreases s.len(),
{
    if s.len() == 0 {
        m
    } else {
        merge_one(merge_all(m, s.drop_last()), s.last())
    }
}

/// The facts stored, in table order.
pub open spec fn fact_list(entries: Seq<(String, GossipFact)>) -> Seq<GossipFact> {
    entries.map_values(|e: (String, GossipFact)| e.1)
}

impl GossipProtocol {
    pub open spec fn wf(&self) -> bool {
        &&& self.facts.wf()
        &&& self.peers.wf()
        &&& facts_keyed(self.facts@)
    }

    /// A node with no facts and no peers.
    pub fn new(node_id: String) -> (g: Self)
        ensures
            g.wf(),
            g.node_id == node_id,
            g.facts@ == Map::<Seq<char>, GossipFact>::empty(),
            g.peers@ == Map::<Seq<char>, ()>::empty(),
    {
        GossipProtocol { node_id, facts: StrMap::new(), peers: StrMap::new() }
    }

    /// Records a peer.
    pub fn add_peer(&mut self, peer_id: String)
        requires
            old(self).wf(),
        ensures
            final(self).wf(),
            final(self).node_id == old(self).node_id,
            final(self).facts == old(self).facts,
            final(self).peers@ == old(self).peers@.insert(peer_id@, ()),
    {
        self.peers.insert(peer_id, ());
    }

    /// Sets `key` to `value` with the next version: one more than the stored
    /// version, or 1 for a new key.
    pub fn update_fact(&mut self, key: String, value: String)
        requires
            old(self).wf(),
            old(self).facts@.contains_key(key@) ==> old(self).facts@[key@].version < u64::MAX,
        ensures
            final(self).wf(),
            final(self).node_id == old(self).node_id,
            final(self).peers == old(self).peers,
            final(self).facts@ == old(self).facts@.insert(
                key@,
                GossipFact {
                    key,
                    value,
                    version: if old(self).facts@.contains_key(key@) {
                        (old(self).facts@[key@].version + 1) as u64
                    } else {
                        1
                    },
                },
            ),
    {
        let version = match self.facts.get(&key) {
            Some(f) => f.version + 1,
            None => 1,
        };
        let k2 = key.clone();
        let fact = GossipFact { key, value, version };
        self.facts.insert(k2, fact);
    }

    /// Every stored fact, for sending to a peer.
    pub fn get_facts_for_sync(&self) -> (r: Vec<GossipFact>)
        requires
            self.wf(),
        ensures
            r@ == fact_list(self.facts.entries@),
            r@.len() == self.facts@.dom().len(),
            forall|i: int|
                0 <= i < r@.len() ==> self.facts@.contains_key(#[trigger] r@[i].key@)
                    && self.facts@[r@[i].key@] == r@[i],
    {
        let mut r: Vec<GossipFact> = Vec::new();
        let mut i: usize = 0;
        while i < self.facts.entries.len()
            invariant
                i <= self.facts.entries@.len(),
                r@ == fact_list(self.facts.entries@).take(i as int),
            decreases self.facts.entries@.len() - i,
        {
            r.push(self.facts.entries[i].1.clone());
            proof {
                assert(fact_list(self.facts.entries@).take(i + 1) =~= fact_list(
                    self.facts.entries@,
                ).take(i as int).push(self.facts.entries@[i as int].1));
            }
            i = i + 1;
        }
        proof {
            let s = self.facts.entries@;
            assert(fact_list(s).take(s.len() as int) =~= fact_list(s));
            self.facts.lemma_len();
            assert forall|i: int| 0 <= i < r@.len() implies self.facts@.contains_key(
                #[trigger] r@[i].key@,
            ) && self.facts@[r@[i].key@] == r@[i] by {
                lemma_entry_in_map(s, i);
            }
        }
        r
    }

    /// Takes each incoming fact whose key is new or whose version is higher
    /// than the stored one; the rest are ignored.
    pub fn merge_facts(&mut self, incoming_facts: Vec<GossipFact>)
        requires
            old(self).wf(),
        ensures
            final(self).wf(),
            final(self).node_id == old(self).node_id,
            final(self).peers == old(self).peers,
            final(self).facts@ == merge_all(old(self).facts@, incoming_facts@),
    {
        let mut i: usize = 0;
        while i < incoming_facts.len()
            invariant
                i <= incoming_facts@.len(),
                self.wf(),
                self.node_id == old(self).node_id,
                self.peers == old(self).peers,
                self.facts@ == merge_all(old(self).facts@, incoming_facts@.take(i as int)),
            decreases incoming_facts@.len() - i,
        {
            let incoming = incoming_facts[i].clone();
            let take = match self.facts.get(&incoming.key) {
                None => true,
                Some(current) => incoming.version > current.version,
            };
            proof {
                let s = incoming_facts@.take(i + 1);
                assert(s.drop_last() =~= incoming_facts@.take(i as int));
                assert(s.last() == incoming);
            }
            if take {
                let k = incoming.key.clone();
                self.facts.insert(k, incoming);
            }
            i = i + 1;
        }
        proof {
            assert(incoming_facts@.take(incoming_facts@.len() as int) =~= incoming_facts@);
        }
    }
}

/// Merging facts that are nowhere newer than what is stored changes nothing.
pub proof fn lemma_merge_stale_is_noop(m: Map<Seq<char>, GossipFact>, s: Seq<GossipFact>)
    requires
        forall|i: int|
            0 <= i < s.len() ==> m.contains_key(#[trigger] s[i].key@) && s[i].version <= m[s[i].key@].version,
    ensures
        merge_all(m, s) == m,
    decreases s.len(),
{
    if s.len() > 0 {
        lemma_merge_stale_is_noop(m, s.drop_last());
        assert(s.last() == s[s.len() - 1]);
    }
}

/// Gossip law: syncing a node with its own facts leaves them unchanged.
pub proof fn law_merge_own_facts_is_identity(g: GossipProtocol)
    requires
        g.wf(),
    ensures
        merge_all(g.facts@, fact_list(g.facts.entries@)) == g.facts@,
{
    let s = fact_list(g.facts.entries@);
    assert forall|i: int| 0 <= i < s.len() implies g.facts@.contains_key(#[trigger] s[i].key@)
        && s[i].version <= g.facts@[s[i].key@].version by {
        lemma_entry_in_map(g.facts.entries@, i);
    }
    lemma_merge_stale_is_noop(g.facts@, s);
}

/// Gossip law: merging never loses a key and never lowers a version, and
/// afterwards every key holds at least the highest incoming version.
pub proof fn law_merge_keeps_highest_version(m: Map<Seq<char>, GossipFact>, s: Seq<GossipFact>)
    ensures
        forall|k: Seq<char>| #[trigger] m.contains_key(k) ==> merge_all(m, s).contains_key(k)
            && merge_all(m, s)[k].version >= m[k].version,
        forall|i: int| 0 <= i < s.len() ==> merge_all(m, s).contains_key(#[trigger] s[i].key@)
            && merge_all(m, s)[s[i].key@].version >= s[i].version,
    decreases s.len(),
{
    if s.len() > 0 {
        let p = s.drop_last();
        law_merge_keeps_highest_version(m, p);
        assert forall|i: int| 0 <= i < s.len() implies merge_all(m, s).contains_key(
            #[trigger] s[i].key@,
        ) && merge_all(m, s)[s[i].key@].version >= s[i].version by {
            if i < s.len() - 1 {
                assert(s[i] == p[i]);
            }
        }
    }
}

/// Gossip law: merging stores only facts that were stored or incoming.
pub proof fn law_merge_only_known_facts(m: Map<Seq<char>, GossipFact>, s: Seq<GossipFact>)
    ensures
        forall|k: Seq<char>| #[trigger] merge_all(m, s).contains_key(k) ==> (m.contains_key(k)
            && merge_all(m, s)[k] == m[k]) || exists|i: int|
            0 <= i < s.len() && #[trigger] s[i] == merge_all(m, s)[k],
    decreases s.len(),
{
    if s.len() > 0 {
        let p = s.drop_last();
        law_merge_only_known_facts(m, p);
        assert forall|k: Seq<char>| #[trigger] merge_all(m, s).contains_key(k) implies (
        m.contains_key(k) && merge_all(m, s)[k] == m[k]) || exists|i: int|
            0 <= i < s.len() && #[trigger] s[i] == merge_all(m, s)[k] by {
            let r = merge_all(m, s);
            if r[k] == s.last() {
                assert(s[s.len() - 1] == r[k]);
            } else {
                let q = merge_all(m, p);
                assert(q.contains_key(k) && r[k] == q[k]);
                if !(m.contains_key(k) && q[k] == m[k]) {
                    let i = choose|i: int| 0 <= i < p.len() && #[trigger] p[i] == q[k];
                    assert(s[i] == r[k]);
                }
            }
        }
    }
}

/// Merging a table's facts, in table order, into no facts rebuilds the table.
proof fn lemma_merge_entries_into_empty(e: Seq<(String, GossipFact)>)
    requires
        keys_distinct(e),
        forall|i: int| 0 <= i < e.len() ==> (#[trigger] e[i]).1.key@ == e[i].0@,
    ensures
        merge_all(Map::empty(), fact_list(e)) == entries_map(e),
    decreases e.len(),
{
    if e.len() == 0 {
        assert(entries_map(e) =~= Map::<Seq<char>, GossipFact>::empty());
    } else {
        let n = e.len() - 1;
        let d = e.take(n);
        lemma_keys_distinct_take(e, n);
        assert forall|i: int| 0 <= i < d.len() implies (#[trigger] d[i]).1.key@ == d[i].0@ by {
            assert(d[i] == e[i]);
        }
        lemma_merge_entries_into_empty(d);
        assert(fact_list(e).drop_last() =~= fact_list(d));
        assert(fact_list(e).last() == e[n].1);
        lemma_entries_map_push(d, e[n]);
        assert(e =~= d.push(e[n]));
    }
}

/// Gossip law: a fresh node that merges the facts another node hands out for
/// sync ends with exactly that node's facts.
pub proof fn law_sync_round_trip(g: GossipProtocol)
    requires
        g.wf(),
    ensures
        merge_all(Map::empty(), fact_list(g.facts.entries@)) == g.facts@,
{
    let e = g.facts.entries@;
    assert forall|i: int| 0 <= i < e.len() implies (#[trigger] e[i]).1.key@ == e[i].0@ by {
        lemma_entry_in_map(e, i);
    }
    lemma_merge_entries_into_empty(e);
}

} // verus!
