//! Vector clocks: one counter per node; a node missing from a clock counts as 0.
use vstd::prelude::*;
use crate::collections::{
    StrMap, entries_map, key_index, lemma_entries_map_push, lemma_entry_in_map,
    lemma_keys_distinct_take,
};

verus! {

pub struct VectorClock {
    pub node_id: String,
    /// Counters by node.
    pub clocks: StrMap<u64>,
}

/// The counter of node `k`; 0 for a node the clock does not list.
pub open spec fn clock_at(m: Map<Seq<char>, u64>, k: Seq<char>) -> nat {
    if m.contains_key(k) {
        m[k] as nat
    } else {
        0
    }
}

/// The pointwise maximum of two clocks, over the nodes either lists.
pub open spec fn merge_clocks(a: Map<Seq<char>, u64>, b: Map<Seq<char>, u64>) -> Map<Seq<char>, u64> {
    Map::new(
        |k: Seq<char>| a.contains_key(k) || b.contains_key(k),
        |k: Seq<char>|
            if clock_at(a, k) >= clock_at(b, k) {
                clock_at(a, k) as u64
            } else {
                clock_at(b, k) as u64
            },
    )
}

/// `a` happened before `b`: no node's counter in `a` exceeds its counter in
/// `b`, and some node's counter is smaller (a node a clock does not list counts 0).
pub open spec fn precedes_spec(a: Map<Seq<char>, u64>, b: Map<Seq<char>, u64>) -> bool {
    &&& forall|k: Seq<char>|
        #![trigger clock_at(a, k)]
        #![trigger clock_at(b, k)]
        clock_at(a, k) <= clock_at(b, k)
    &&& exists|k: Seq<char>| #[trigger] clock_at(a, k) < clock_at(b, k)
}

impl Clone for VectorClock {
    fn clone(&self) -> (r: Self)
        ensures
            r.node_id == self.node_id,
            r.clocks.entries@ == self.clocks.entries@,
            r.clocks@ == self.clocks@,
    {
        let mut entries: Vec<(String, u64)> = Vec::new();
        let mut i: usize = 0;
        while i < self.clocks.entries.len()
            invariant
                i <= self.clocks.entries@.len(),
                entries@ == self.clocks.entries@.take(i as int),
            decreases self.clocks.entries@.len() - i,
        {
            entries.push((self.clocks.entries[i].0.clone(), self.clocks.entries[i].1));
            proof {
                assert(self.clocks.entries@.take(i + 1) =~= self.clocks.entries@.take(
                    i as int,
                ).push(self.clocks.entries@[i as int]));
            }
            i = i + 1;
        }
        proof {
            assert(self.clocks.entries@.take(self.clocks.entries@.len() as int)
                =~= self.clocks.entries@);
        }
        VectorClock { node_id: self.node_id.clone(), clocks: StrMap { entries } }
    }
}

impl VectorClock {
    pub open spec fn wf(&self) -> bool {
        self.clocks.wf()
    }

    /// A clock for `node_id` whose own counter is 0.
    pub fn new(node_id: String) -> (c: Self)
        ensures
            c.wf(),
            c.node_id == node_id,
            c.clocks@ == Map::<Seq<char>, u64>::empty().insert(node_id@, 0),
    {
        let mut clocks: StrMap<u64> = StrMap::new();
        clocks.insert(node_id.clone(), 0);
        VectorClock { node_id, clocks }
    }

    /// Advances this node's own counter by one.
    pub fn increment(&mut self)
        requires
            old(self).wf(),
            clock_at(old(self).clocks@, old(self).node_id@) < u64::MAX,
        ensures
            final(self).wf(),
            final(self).node_id == old(self).node_id,
            final(self).clocks@ == old(self).clocks@.insert(
                old(self).node_id@,
                (clock_at(old(self).clocks@, old(self).node_id@) + 1) as u64,
            ),
    {
        let count = match self.clocks.get(&self.node_id) {
            Some(c) => *c,
            None => 0,
        };
        let id = self.node_id.clone();
        self.clocks.insert(id, count + 1);
    }

    /// Takes the pointwise maximum with `other`.
    pub fn merge(&mut self, other: &VectorClock)
        requires
            old(self).wf(),
            other.wf(),
        ensures
            final(self).wf(),
            final(self).node_id == old(self).node_id,
            final(self).clocks@ == merge_clocks(old(self).clocks@, other.clocks@),
    {
        let ghost a = self.clocks@;
        let ghost os = other.clocks.entries@;
        let mut i: usize = 0;
        proof {
            assert(entries_map(os.take(0)) =~= Map::<Seq<char>, u64>::empty());
            assert(self.clocks@ =~= merge_clocks(a, entries_map(os.take(0))));
        }
        while i < other.clocks.entries.len()
            invariant
                i <= os.len(),
                os == other.clocks.entries@,
                crate::collections::keys_distinct(os),
                self.wf(),
                self.node_id == old(self).node_id,
                self.clocks@ == merge_clocks(a, entries_map(os.take(i as int))),
            decreases os.len() - i,
        {
            let node = &other.clocks.entries[i].0;
            let clock = other.clocks.entries[i].1;
            let mine = match self.clocks.get(node) {
                Some(c) => *c,
                None => 0,
            };
            let m = if mine >= clock {
                mine
            } else {
                clock
            };
            let ghost before = self.clocks@;
            self.clocks.insert(node.clone(), m);
            proof {
                lemma_keys_distinct_take(os, i as int);
                lemma_entries_map_push(os.take(i as int), os[i as int]);
                let prev = entries_map(os.take(i as int));
                let next = entries_map(os.take(i + 1));
                assert(!prev.contains_key(os[i as int].0@));
                assert(self.clocks@ =~= merge_clocks(a, next));
            }
            i = i + 1;
        }
        proof {
            assert(os.take(os.len() as int) =~= os);
        }
    }

    /// Whether this clock happened before `other`.
    pub fn precedes(&self, other: &VectorClock) -> (r: bool)
        requires
            self.wf(),
            other.wf(),
        ensures
            r == precedes_spec(self.clocks@, other.clocks@),
    {
        let ghost a = self.clocks@;
        let ghost b = other.clocks@;
        let ghost s = self.clocks.entries@;
        let mut strictly_smaller = false;
        let mut i: usize = 0;
        while i < self.clocks.entries.len()
            invariant
                i <= s.len(),
                s == self.clocks.entries@,
                a == self.clocks@,
                b == other.clocks@,
                self.wf(),
                other.wf(),
                forall|j: int| 0 <= j < i ==> (#[trigger] s[j]).1 <= clock_at(b, s[j].0@),
                strictly_smaller == exists|j: int|
                    0 <= j < i && (#[trigger] s[j]).1 < clock_at(b, s[j].0@),
            decreases s.len() - i,
        {
            let my_clock = self.clocks.entries[i].1;
            let other_clock = match other.clocks.get(&self.clocks.entries[i].0) {
                Some(c) => *c,
                None => 0,
            };
            if my_clock > other_clock {
                proof {
                    lemma_entry_in_map(s, i as int);
                    assert(clock_at(a, s[i as int].0@) > clock_at(b, s[i as int].0@));
                }
                return false;
            }
            if my_clock < other_clock {
                strictly_smaller = true;
            }
            i = i + 1;
        }
        proof {
            assert forall|k: Seq<char>| a.contains_key(k) implies #[trigger] clock_at(a, k)
                <= clock_at(b, k) by {
                let j = key_index(s, k);
                lemma_entry_in_map(s, j);
            }
            if strictly_smaller {
                let j = choose|j: int| 0 <= j < s.len() && (#[trigger] s[j]).1 < clock_at(b, s[j].0@);
                lemma_entry_in_map(s, j);
                assert(clock_at(a, s[j].0@) < clock_at(b, s[j].0@));
            } else {
                assert forall|k: Seq<char>| a.contains_key(k) implies !(#[trigger] clock_at(a, k)
                    < clock_at(b, k)) by {
                    let j = key_index(s, k);
                    lemma_entry_in_map(s, j);
                }
            }
        }
        let ghost t = other.clocks.entries@;
        let mut gained = false;
        let mut j: usize = 0;
        while j < other.clocks.entries.len()
            invariant
                j <= t.len(),
                t == other.clocks.entries@,
                a == self.clocks@,
                self.wf(),
                gained == exists|x: int|
                    0 <= x < j && !a.contains_key((#[trigger] t[x]).0@) && t[x].1 > 0,
            decreases t.len() - j,
        {
            if other.clocks.entries[j].1 > 0 && !self.clocks.contains_key(&other.clocks.entries[j].0) {
                gained = true;
            }
            j = j + 1;
        }
        proof {
            if gained {
                let x = choose|x: int|
                    0 <= x < t.len() && !a.contains_key((#[trigger] t[x]).0@) && t[x].1 > 0;
                lemma_entry_in_map(t, x);
                assert(clock_at(a, t[x].0@) < clock_at(b, t[x].0@));
            } else if !strictly_smaller {
                assert forall|k: Seq<char>| !(#[trigger] clock_at(a, k) < clock_at(b, k)) by {
                    if !a.contains_key(k) && b.contains_key(k) {
                        let x = key_index(t, k);
                        lemma_entry_in_map(t, x);
                        assert(!(!a.contains_key(t[x].0@) && t[x].1 > 0));
                    }
                }
            }
            assert forall|k: Seq<char>| #[trigger] clock_at(a, k) <= clock_at(b, k) by {
                if a.contains_key(k) {
                    assert(clock_at(a, k) <= clock_at(b, k));
                }
            }
        }
        strictly_smaller || gained
    }
}

/// Vector clock law: merging is commutative.
pub proof fn law_merge_commutative(a: Map<Seq<char>, u64>, b: Map<Seq<char>, u64>)
    ensures
        merge_clocks(a, b) == merge_clocks(b, a),
{
    assert(merge_clocks(a, b) =~= merge_clocks(b, a));
}

/// Vector clock law: merging is associative.
pub proof fn law_merge_associative(
    a: Map<Seq<char>, u64>,
    b: Map<Seq<char>, u64>,
    c: Map<Seq<char>, u64>,
)
    ensures
        merge_clocks(merge_clocks(a, b), c) == merge_clocks(a, merge_clocks(b, c)),
{
    assert(merge_clocks(merge_clocks(a, b), c) =~= merge_clocks(a, merge_clocks(b, c)));
}

/// Vector clock law: merging a clock with itself changes nothing.
pub proof fn law_merge_idempotent(a: Map<Seq<char>, u64>)
    ensures
        merge_clocks(a, a) == a,
{
    assert(merge_clocks(a, a) =~= a);
}

/// Vector clock law: the merge dominates both clocks, counter by counter.
pub proof fn law_merge_dominates(a: Map<Seq<char>, u64>, b: Map<Seq<char>, u64>, k: Seq<char>)
    ensures
        clock_at(a, k) <= clock_at(merge_clocks(a, b), k),
        clock_at(b, k) <= clock_at(merge_clocks(a, b), k),
{
}

/// Vector clock law: no clock happened before itself.
pub proof fn law_precedes_irreflexive(a: Map<Seq<char>, u64>)
    ensures
        !precedes_spec(a, a),
{
}

/// Vector clock law: a clock happened before its own increment.
pub proof fn law_increment_follows(a: Map<Seq<char>, u64>, node: Seq<char>)
    requires
        clock_at(a, node) < u64::MAX,
    ensures
        precedes_spec(a, a.insert(node, (clock_at(a, node) + 1) as u64)),
{
    let b = a.insert(node, (clock_at(a, node) + 1) as u64);
    assert forall|k: Seq<char>| #[trigger] clock_at(a, k) <= clock_at(b, k) by {
        if k != node {
            assert(clock_at(a, k) == clock_at(b, k));
        }
    }
    assert(clock_at(a, node) < clock_at(b, node));
}

/// Vector clock law: two clocks never each happen before the other.
pub proof fn law_precedes_antisymmetric(a: Map<Seq<char>, u64>, b: Map<Seq<char>, u64>)
    ensures
        !(precedes_spec(a, b) && precedes_spec(b, a)),
{
    if precedes_spec(a, b) && precedes_spec(b, a) {
        let k = choose|k: Seq<char>| #[trigger] clock_at(a, k) < clock_at(b, k);
        assert(clock_at(b, k) <= clock_at(a, k));
    }
}

/// Vector clock law: happened-before is transitive.
pub proof fn law_precedes_transitive(
    a: Map<Seq<char>, u64>,
    b: Map<Seq<char>, u64>,
    c: Map<Seq<char>, u64>,
)
    requires
        precedes_spec(a, b),
        precedes_spec(b, c),
    ensures
        precedes_spec(a, c),
{
    assert forall|k: Seq<char>| #[trigger] clock_at(a, k) <= clock_at(c, k) by {
        assert(clock_at(a, k) <= clock_at(b, k));
        assert(clock_at(b, k) <= clock_at(c, k));
    }
    let k = choose|k: Seq<char>| #[trigger] clock_at(a, k) < clock_at(b, k);
    assert(clock_at(b, k) <= clock_at(c, k));
    assert(clock_at(a, k) < clock_at(c, k));
}

} // verus!
