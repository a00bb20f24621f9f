//! Observed-remove set (OR-Set), a conflict-free replicated set.
//!
//! Every addition carries a unique tag; a removal tombstones the tags observed
//! for the element; an element is present while one of its tags is not
//! tombstoned. Replicas converge by merging, which takes unions.
use vstd::prelude::*;
use crate::collections::{
    KeyMap, MapKey, StrMap, entries_map, key_index, lemma_entries_map_push, lemma_entry_in_map,
    lemma_keys_distinct_take, lemma_same_keys,
};

verus! {

/// An OR-Set: tags by element, and the tombstoned tags.
pub struct OrSet<T: MapKey> {
    added: KeyMap<T, StrMap<()>>,
    removed: StrMap<()>,
}

/// The abstract value of an OR-Set: the tags added for each element, and the
/// tombstoned tags.
pub type OrSetView<V> = (Map<V, Set<Seq<char>>>, Set<Seq<char>>);

/// The tags added for `e`; none when `e` was never added.
pub open spec fn tags_of<V>(m: Map<V, Set<Seq<char>>>, e: V) -> Set<Seq<char>> {
    if m.contains_key(e) {
        m[e]
    } else {
        Set::empty()
    }
}

/// `e` is present: some tag added for it is not tombstoned.
pub open spec fn or_contains<V>(s: OrSetView<V>, e: V) -> bool {
    s.0.contains_key(e) && exists|t: Seq<char>| #[trigger] s.0[e].contains(t) && !s.1.contains(t)
}

/// The set after adding `e` with `tag`.
pub open spec fn or_add<V>(s: OrSetView<V>, e: V, tag: Seq<char>) -> OrSetView<V> {
    (s.0.insert(e, tags_of(s.0, e).insert(tag)), s.1)
}

/// The set after removing `e`: its observed tags are tombstoned.
pub open spec fn or_remove<V>(s: OrSetView<V>, e: V) -> OrSetView<V> {
    if s.0.contains_key(e) {
        (s.0, s.1.union(s.0[e]))
    } else {
        s
    }
}

/// Tags by element after merging two replicas: the union for each element.
pub open spec fn merge_tags<V>(a: Map<V, Set<Seq<char>>>, b: Map<V, Set<Seq<char>>>) -> Map<V, Set<Seq<char>>> {
    Map::new(
        |e: V| a.contains_key(e) || b.contains_key(e),
        |e: V| tags_of(a, e).union(tags_of(b, e)),
    )
}

/// The set after merging replica `b` into `a`.
pub open spec fn or_merge<V>(a: OrSetView<V>, b: OrSetView<V>) -> OrSetView<V> {
    (merge_tags(a.0, b.0), a.1.union(b.1))
}

/// The tag sets of a map of tag maps.
pub open spec fn tag_sets<V>(m: Map<V, StrMap<()>>) -> Map<V, Set<Seq<char>>> {
    Map::new(|e: V| m.contains_key(e), |e: V| m[e]@.dom())
}

/// Adds every tag of `src` to `dst`.
fn union_into(dst: &mut StrMap<()>, src: &StrMap<()>)
    requires
        old(dst).wf(),
        src.wf(),
    ensures
        final(dst).wf(),
        final(dst)@.dom() == old(dst)@.dom().union(src@.dom()),
{
    let ghost s = src.entries@;
    let mut i: usize = 0;
    while i < src.entries.len()
        invariant
            i <= s.len(),
            s == src.entries@,
            src.wf(),
            dst.wf(),
            dst@.dom() == old(dst)@.dom().union(entries_map(s.take(i as int)).dom()),
        decreases s.len() - i,
    {
        dst.insert(src.entries[i].0.clone(), ());
        proof {
            lemma_keys_distinct_take(s, i as int);
            lemma_entries_map_push(s.take(i as int), s[i as int]);
            assert(dst@.dom() =~= old(dst)@.dom().union(entries_map(s.take(i + 1)).dom()));
        }
        i = i + 1;
    }
    proof {
        assert(s.take(s.len() as int) =~= s);
    }
}

/// Whether some tag of `tags` is not tombstoned in `removed`.
fn has_live_tag(tags: &StrMap<()>, removed: &StrMap<()>) -> (r: bool)
    requires
        tags.wf(),
        removed.wf(),
    ensures
        r == exists|t: Seq<char>| #[trigger] tags@.dom().contains(t) && !removed@.dom().contains(t),
{
    let ghost s = tags.entries@;
    let mut i: usize = 0;
    while i < tags.entries.len()
        invariant
            i <= s.len(),
            s == tags.entries@,
            tags.wf(),
            removed.wf(),
            forall|j: int| 0 <= j < i ==> removed@.dom().contains((#[trigger] s[j]).0@),
        decreases s.len() - i,
    {
        if !removed.contains_key(&tags.entries[i].0) {
            proof {
                lemma_entry_in_map(s, i as int);
                assert(tags@.dom().contains(s[i as int].0@));
            }
            return true;
        }
        i = i + 1;
    }
    proof {
        assert forall|t: Seq<char>| #[trigger] tags@.dom().contains(t) implies removed@.dom().contains(
            t,
        ) by {
            let j = key_index(s, t);
            assert(s[j].0@ == t);
        }
    }
    false
}

/// Inserting a tag map inserts its tag set.
proof fn lemma_tag_sets_insert<V>(m: Map<V, StrMap<()>>, k: V, t: StrMap<()>)
    ensures
        tag_sets(m.insert(k, t)) =~~= tag_sets(m).insert(k, t@.dom()),
{
    assert(tag_sets(m.insert(k, t)).dom() =~= tag_sets(m).insert(k, t@.dom()).dom());
}

/// Merging in the tags of one more element.
proof fn lemma_merge_tags_insert<V>(a: Map<V, Set<Seq<char>>>, b: Map<V, Set<Seq<char>>>, k: V, t: Set<Seq<char>>)
    requires
        !b.contains_key(k),
    ensures
        merge_tags(a, b.insert(k, t)) =~~= merge_tags(a, b).insert(k, tags_of(merge_tags(a, b), k).union(t)),
{
    let l = merge_tags(a, b.insert(k, t));
    let r = merge_tags(a, b).insert(k, tags_of(merge_tags(a, b), k).union(t));
    assert(l.dom() =~= r.dom());
    assert forall|e: V| #[trigger] l.contains_key(e) implies l[e] =~= r[e] by {
        if e == k {
            assert(tags_of(b, k) =~= Set::<Seq<char>>::empty());
        }
    }
}

impl<T: MapKey> View for OrSet<T> {
    type V = OrSetView<T::V>;

    closed spec fn view(&self) -> OrSetView<T::V> {
        (tag_sets(self.added@), self.removed@.dom())
    }
}

impl<T: MapKey> OrSet<T> {
    #[verifier::type_invariant]
    spec fn inv(&self) -> bool {
        &&& self.added.wf()
        &&& self.removed.wf()
        &&& forall|i: int|
            0 <= i < self.added.entries@.len() ==> (#[trigger] self.added.entries@[i]).1.wf()
    }

    /// The tag maps of the entries kept in the set are well formed.
    proof fn lemma_tag_maps_wf(&self, e: T::V)
        requires
            self.inv(),
            self.added@.contains_key(e),
        ensures
            self.added@[e].wf(),
    {
        let j = key_index(self.added.entries@, e);
        lemma_entry_in_map(self.added.entries@, j);
    }

    /// An empty set.
    pub fn new() -> (s: Self)
        ensures
            s@.0 == Map::<T::V, Set<Seq<char>>>::empty(),
            s@.1 == Set::<Seq<char>>::empty(),
    {
        let s = OrSet { added: KeyMap::new(), removed: StrMap::new() };
        assert(s@.0 =~= Map::<T::V, Set<Seq<char>>>::empty());
        assert(s@.1 =~= Set::<Seq<char>>::empty());
        s
    }

    /// Adds `element` under the unique `tag`.
    pub fn add(&mut self, element: T, tag: String)
        ensures
            final(self)@ == or_add(old(self)@, element@, tag@),
    {
        proof {
            use_type_invariant(&*self);
        }
        let ghost pre = self@;
        let mut added = KeyMap::new();
        std::mem::swap(&mut added, &mut self.added);
        match added.find(&element) {
            Some(i) => {
                proof {
                    lemma_entry_in_map(added.entries@, i as int);
                }
                let mut tags = added.replace_at(i, StrMap::new());
                tags.insert(tag, ());
                added.replace_at(i, tags);
                proof {
                    assert(tag_sets(added@) =~= pre.0.insert(
                        element@,
                        tags_of(pre.0, element@).insert(tag@),
                    ));
                }
            },
            None => {
                let mut tags: StrMap<()> = StrMap::new();
                tags.insert(tag, ());
                added.insert(element, tags);
                proof {
                    assert(tags_of(pre.0, element@) =~= Set::<Seq<char>>::empty());
                    assert(tag_sets(added@) =~= pre.0.insert(
                        element@,
                        tags_of(pre.0, element@).insert(tag@),
                    ));
                }
            },
        }
        proof {
            let s = added.entries@;
            assert forall|j: int| 0 <= j < s.len() implies (#[trigger] s[j]).1.wf() by {
                lemma_entry_in_map(s, j);
            }
        }
        self.added = added;
    }

    /// Removes `element`: tombstones every tag observed for it.
    pub fn remove(&mut self, element: &T)
        ensures
            final(self)@ == or_remove(old(self)@, element@),
    {
        proof {
            use_type_invariant(&*self);
        }
        let ghost pre = self@;
        match self.added.get(element) {
            Some(tags) => {
                proof {
                    self.lemma_tag_maps_wf(element@);
                }
                let mut removed = StrMap::new();
                std::mem::swap(&mut removed, &mut self.removed);
                union_into(&mut removed, tags);
                proof {
                    assert(removed@.dom() =~= pre.1.union(pre.0[element@]));
                }
                self.removed = removed;
            },
            None => {},
        }
    }

    /// Whether `element` is present.
    pub fn contains(&self, element: &T) -> (r: bool)
        ensures
            r == or_contains(self@, element@),
    {
        proof {
            use_type_invariant(self);
        }
        match self.added.get(element) {
            Some(tags) => {
                proof {
                    self.lemma_tag_maps_wf(element@);
                }
                let r = has_live_tag(tags, &self.removed);
                proof {
                    assert(self@.0[element@] == tags@.dom());
                    if r {
                        let t = choose|t: Seq<char>|
                            #[trigger] tags@.dom().contains(t) && !self.removed@.dom().contains(t);
                        assert(self@.0[element@].contains(t));
                    }
                }
                r
            },
            None => false,
        }
    }

    /// Merges replica `other` into this one.
    pub fn merge(&mut self, other: &OrSet<T>)
        ensures
            final(self)@ == or_merge(old(self)@, other@),
    {
        proof {
            use_type_invariant(&*self);
            use_type_invariant(other);
        }
        let ghost pre = self@;
        let ghost os = other.added.entries@;
        let mut added = KeyMap::new();
        std::mem::swap(&mut added, &mut self.added);
        let mut removed = StrMap::new();
        std::mem::swap(&mut removed, &mut self.removed);
        let mut i: usize = 0;
        proof {
            assert(entries_map(os.take(0)) =~= Map::<T::V, StrMap<()>>::empty());
            assert forall|e: T::V| #[trigger] merge_tags(pre.0, tag_sets(entries_map(os.take(0)))).contains_key(e) implies merge_tags(pre.0, tag_sets(entries_map(os.take(0))))[e] =~= pre.0[e] by {
            }
            assert(merge_tags(pre.0, tag_sets(entries_map(os.take(0)))) =~~= pre.0);
        }
        while i < other.added.entries.len()
            invariant
                i <= os.len(),
                os == other.added.entries@,
                other.added.wf(),
                forall|j: int| 0 <= j < os.len() ==> (#[trigger] os[j]).1.wf(),
                added.wf(),
                forall|j: int|
                    0 <= j < added.entries@.len() ==> (#[trigger] added.entries@[j]).1.wf(),
                tag_sets(added@) == merge_tags(pre.0, tag_sets(entries_map(os.take(i as int)))),
            decreases os.len() - i,
        {
            let element = &other.added.entries[i].0;
            let src = &other.added.entries[i].1;
            let ghost before = added@;
            let ghost k = element@;
            proof {
                lemma_keys_distinct_take(os, i as int);
                lemma_entries_map_push(os.take(i as int), os[i as int]);
            }
            let ghost newtags: StrMap<()>;
            match added.find(element) {
                Some(j) => {
                    proof {
                        lemma_entry_in_map(added.entries@, j as int);
                    }
                    let mut tags = added.replace_at(j, StrMap::new());
                    union_into(&mut tags, src);
                    proof {
                        newtags = tags;
                    }
                    added.replace_at(j, tags);
                    proof {
                        assert(added@ =~= before.insert(k, newtags));
                        assert(newtags@.dom() =~= tags_of(tag_sets(before), k).union(src@.dom()));
                    }
                },
                None => {
                    let mut tags: StrMap<()> = StrMap::new();
                    union_into(&mut tags, src);
                    proof {
                        newtags = tags;
                    }
                    added.insert(element.key_clone(), tags);
                    proof {
                        assert(newtags@.dom() =~= tags_of(tag_sets(before), k).union(src@.dom()));
                    }
                },
            }
            proof {
                let s = added.entries@;
                assert forall|j: int| 0 <= j < s.len() implies (#[trigger] s[j]).1.wf() by {
                    lemma_entry_in_map(s, j);
                }
                let prev = entries_map(os.take(i as int));
                lemma_tag_sets_insert(before, k, newtags);
                lemma_tag_sets_insert(prev, k, os[i as int].1);
                lemma_merge_tags_insert(pre.0, tag_sets(prev), k, src@.dom());
                assert(tag_sets(added@) =~~= merge_tags(pre.0, tag_sets(entries_map(os.take(i + 1)))));
            }
            i = i + 1;
        }
        proof {
            assert(os.take(os.len() as int) =~= os);
            assert(tag_sets(entries_map(os)) == other@.0);
        }
        union_into(&mut removed, &other.removed);
        proof {
            assert(removed@.dom() =~= pre.1.union(other@.1));
        }
        self.added = added;
        self.removed = removed;
    }

    /// The elements present, each once.
    pub fn elements(&self) -> (r: Vec<T>)
        ensures
            forall|i: int, j: int|
                0 <= i < r@.len() && 0 <= j < r@.len() && i != j ==> (#[trigger] r@[i])@
                    != (#[trigger] r@[j])@,
            forall|e: T::V| or_contains(self@, e) <==> exists|i: int| 0 <= i < r@.len() && (#[trigger] r@[i])@ == e,
    {
        proof {
            use_type_invariant(self);
        }
        let ghost s = self.added.entries@;
        let mut r: Vec<T> = Vec::new();
        let mut i: usize = 0;
        while i < self.added.entries.len()
            invariant
                i <= s.len(),
                s == self.added.entries@,
                self.added.wf(),
                self.removed.wf(),
                forall|j: int| 0 <= j < s.len() ==> (#[trigger] s[j]).1.wf(),
                forall|a: int, b: int|
                    0 <= a < r@.len() && 0 <= b < r@.len() && a != b ==> (#[trigger] r@[a])@
                        != (#[trigger] r@[b])@,
                forall|a: int|
                    0 <= a < r@.len() ==> exists|j: int| 0 <= j < i && (#[trigger] r@[a])@ == s[j].0@,
                forall|j: int|
                    0 <= j < i ==> (or_contains(self@, #[trigger] s[j].0@) <==> exists|a: int|
                        0 <= a < r@.len() && r@[a]@ == s[j].0@),
            decreases s.len() - i,
        {
            proof {
                lemma_entry_in_map(s, i as int);
            }
            let live = has_live_tag(&self.added.entries[i].1, &self.removed);
            proof {
                let e = s[i as int].0@;
                assert(self@.0.contains_key(e));
                assert(self@.0[e] == s[i as int].1@.dom());
                if live {
                    let t = choose|t: Seq<char>|
                        #[trigger] s[i as int].1@.dom().contains(t) && !self.removed@.dom().contains(t);
                    assert(self@.0[e].contains(t));
                }
                assert(live == or_contains(self@, e));
            }
            let ghost before = r@;
            if live {
                r.push(self.added.entries[i].0.key_clone());
            }
            proof {
                assert forall|a: int, b: int|
                    0 <= a < r@.len() && 0 <= b < r@.len() && a != b implies (#[trigger] r@[a])@
                    != (#[trigger] r@[b])@ by {
                    if live && (a == before.len() || b == before.len()) {
                        let o = if a == before.len() {
                            b
                        } else {
                            a
                        };
                        let jj = choose|jj: int| 0 <= jj < i && (#[trigger] before[o])@ == s[jj].0@;
                        assert(s[jj].0@ != s[i as int].0@);
                    } else {
                        assert(r@[a] == before[a]);
                        assert(r@[b] == before[b]);
                    }
                }
                assert forall|a: int| 0 <= a < r@.len() implies exists|j: int|
                    0 <= j < i + 1 && (#[trigger] r@[a])@ == s[j].0@ by {
                    if live && a == before.len() {
                        assert(r@[a]@ == s[i as int].0@);
                    } else {
                        assert(r@[a] == before[a]);
                        let jj = choose|jj: int| 0 <= jj < i && (#[trigger] before[a])@ == s[jj].0@;
                    }
                }
                assert forall|j: int| 0 <= j < i + 1 implies (or_contains(
                    self@,
                    #[trigger] s[j].0@,
                ) <==> exists|a: int| 0 <= a < r@.len() && r@[a]@ == s[j].0@) by {
                    lemma_entry_in_map(s, j);
                    if j < i {
                        if exists|a: int| 0 <= a < before.len() && before[a]@ == s[j].0@ {
                            let a = choose|a: int| 0 <= a < before.len() && before[a]@ == s[j].0@;
                            assert(r@[a] == before[a]);
                        }
                        if exists|a: int| 0 <= a < r@.len() && r@[a]@ == s[j].0@ {
                            let a = choose|a: int| 0 <= a < r@.len() && r@[a]@ == s[j].0@;
                            if live && a == before.len() {
                                assert(s[j].0@ == s[i as int].0@);
                            } else {
                                assert(r@[a] == before[a]);
                            }
                        }
                    } else {
                        if live {
                            assert(r@[before.len() as int]@ == s[j].0@);
                        } else {
                            if exists|a: int| 0 <= a < r@.len() && r@[a]@ == s[j].0@ {
                                let a = choose|a: int| 0 <= a < r@.len() && r@[a]@ == s[j].0@;
                                assert(r@[a] == before[a]);
                                let jj = choose|jj: int| 0 <= jj < i && (#[trigger] before[a])@ == s[jj].0@;
                                assert(s[jj].0@ != s[j].0@);
                            }
                        }
                    }
                }
            }
            i = i + 1;
        }
        proof {
            assert forall|e: T::V| or_contains(self@, e) <==> exists|a: int|
                0 <= a < r@.len() && (#[trigger] r@[a])@ == e by {
                if or_contains(self@, e) {
                    let j = key_index(s, e);
                    assert(or_contains(self@, s[j].0@));
                }
                if exists|a: int| 0 <= a < r@.len() && (#[trigger] r@[a])@ == e {
                    let a = choose|a: int| 0 <= a < r@.len() && (#[trigger] r@[a])@ == e;
                    let j = choose|j: int| 0 <= j < s.len() && (#[trigger] r@[a])@ == s[j].0@;
                    assert(or_contains(self@, s[j].0@));
                }
            }
        }
        r
    }
}

/// A copy of a tag set.
fn clone_tags(m: &StrMap<()>) -> (r: StrMap<()>)
    requires
        m.wf(),
    ensures
        r.wf(),
        r@.dom() == m@.dom(),
{
    let ghost s = m.entries@;
    let mut entries: Vec<(String, ())> = Vec::new();
    let mut i: usize = 0;
    while i < m.entries.len()
        invariant
            i <= s.len(),
            s == m.entries@,
            entries@.len() == i,
            forall|j: int| 0 <= j < i ==> (#[trigger] entries@[j]).0@ == s[j].0@,
        decreases s.len() - i,
    {
        entries.push((m.entries[i].0.clone(), ()));
        i = i + 1;
    }
    proof {
        lemma_same_keys(s, entries@);
    }
    KeyMap { entries }
}

impl<T: MapKey> Clone for OrSet<T> {
    /// A replica holding the same tags and tombstones.
    fn clone(&self) -> (r: Self)
        ensures
            r@ == self@,
    {
        proof {
            use_type_invariant(self);
        }
        let ghost s = self.added.entries@;
        let mut entries: Vec<(T, StrMap<()>)> = Vec::new();
        let mut i: usize = 0;
        while i < self.added.entries.len()
            invariant
                i <= s.len(),
                s == self.added.entries@,
                forall|j: int| 0 <= j < s.len() ==> (#[trigger] s[j]).1.wf(),
                entries@.len() == i,
                forall|j: int|
                    0 <= j < i ==> (#[trigger] entries@[j]).0@ == s[j].0@ && entries@[j].1.wf()
                        && entries@[j].1@.dom() == s[j].1@.dom(),
            decreases s.len() - i,
        {
            let tags = clone_tags(&self.added.entries[i].1);
            entries.push((self.added.entries[i].0.key_clone(), tags));
            i = i + 1;
        }
        let removed = clone_tags(&self.removed);
        let added = KeyMap { entries };
        proof {
            let e = added.entries@;
            lemma_same_keys(s, e);
            assert forall|e2: T::V| #[trigger] tag_sets(added@).contains_key(e2) implies tag_sets(
                added@,
            )[e2] == tag_sets(self.added@)[e2] by {
                let j = key_index(s, e2);
                lemma_entry_in_map(s, j);
                lemma_entry_in_map(e, j);
            }
            assert(tag_sets(added@) =~= tag_sets(self.added@));
            assert forall|j: int| 0 <= j < e.len() implies (#[trigger] e[j]).1.wf() by {}
        }
        OrSet { added, removed }
    }
}

impl<T: MapKey> Default for OrSet<T> {
    fn default() -> (s: Self)
        ensures
            s@.0 == Map::<T::V, Set<Seq<char>>>::empty(),
            s@.1 == Set::<Seq<char>>::empty(),
    {
        Self::new()
    }
}

/// OR-Set law: merging replicas is commutative.
pub proof fn law_merge_commutative<V>(a: OrSetView<V>, b: OrSetView<V>)
    ensures
        or_merge(a, b) == or_merge(b, a),
{
    assert(merge_tags(a.0, b.0) =~~= merge_tags(b.0, a.0));
    assert(a.1.union(b.1) =~= b.1.union(a.1));
}

/// OR-Set law: merging replicas is associative.
pub proof fn law_merge_associative<V>(a: OrSetView<V>, b: OrSetView<V>, c: OrSetView<V>)
    ensures
        or_merge(or_merge(a, b), c) == or_merge(a, or_merge(b, c)),
{
    assert forall|e: V| #[trigger] merge_tags(merge_tags(a.0, b.0), c.0).contains_key(e) implies merge_tags(merge_tags(a.0, b.0), c.0)[e] =~= merge_tags(a.0, merge_tags(b.0, c.0))[e] by {
    }
    assert(merge_tags(merge_tags(a.0, b.0), c.0) =~~= merge_tags(a.0, merge_tags(b.0, c.0)));
    assert(a.1.union(b.1).union(c.1) =~= a.1.union(b.1.union(c.1)));
}

/// OR-Set law: merging a replica with itself changes nothing.
pub proof fn law_merge_idempotent<V>(a: OrSetView<V>)
    ensures
        or_merge(a, a) == a,
{
    assert forall|e: V| #[trigger] merge_tags(a.0, a.0).contains_key(e) implies merge_tags(a.0, a.0)[e] =~= a.0[e] by {
    }
    assert(merge_tags(a.0, a.0) =~~= a.0);
    assert(a.1.union(a.1) =~= a.1);
}

/// OR-Set law: an element added under a tag that is not tombstoned is present.
pub proof fn law_add_then_contains<V>(a: OrSetView<V>, e: V, tag: Seq<char>)
    requires
        !a.1.contains(tag),
    ensures
        or_contains(or_add(a, e, tag), e),
{
    let b = or_add(a, e, tag);
    assert(b.0[e].contains(tag));
}

/// OR-Set law: a removed element is absent.
pub proof fn law_remove_then_absent<V>(a: OrSetView<V>, e: V)
    ensures
        !or_contains(or_remove(a, e), e),
{
}

/// OR-Set law: a concurrent add wins over a remove: after merging, an element
/// is present when either replica holds for it a tag that neither tombstoned.
pub proof fn law_add_wins_on_merge<V>(a: OrSetView<V>, b: OrSetView<V>, e: V, tag: Seq<char>)
    requires
        b.0.contains_key(e),
        b.0[e].contains(tag),
        !a.1.contains(tag),
        !b.1.contains(tag),
    ensures
        or_contains(or_merge(a, b), e),
{
    let m = or_merge(a, b);
    assert(m.0[e].contains(tag));
}

/// OR-Set law: merging keeps every tag and every tombstone of both replicas
/// and adds none: an element is known after the merge exactly when either
/// replica knows it, with exactly the tags either gave it, and a tag is
/// tombstoned exactly when either replica tombstoned it.
pub proof fn law_merge_keeps_everything<V>(a: OrSetView<V>, b: OrSetView<V>, e: V, t: Seq<char>)
    ensures
        or_merge(a, b).1.contains(t) <==> (a.1.contains(t) || b.1.contains(t)),
        or_merge(a, b).0.contains_key(e) <==> (a.0.contains_key(e) || b.0.contains_key(e)),
        or_merge(a, b).0.contains_key(e) ==> (or_merge(a, b).0[e].contains(t) <==> ((
        a.0.contains_key(e) && a.0[e].contains(t)) || (b.0.contains_key(e) && b.0[e].contains(t)))),
{
}

/// OR-Set law: merging a replica into an empty one gives that replica.
pub proof fn law_merge_into_empty<V>(b: OrSetView<V>)
    ensures
        or_merge((Map::<V, Set<Seq<char>>>::empty(), Set::<Seq<char>>::empty()), b) == b,
{
    let m = or_merge((Map::<V, Set<Seq<char>>>::empty(), Set::<Seq<char>>::empty()), b);
    assert forall|e: V| #[trigger] m.0.contains_key(e) implies m.0[e] =~= b.0[e] by {}
    assert(m.0 =~~= b.0);
    assert(m.1 =~= b.1);
}

/// OR-Set law: a removal survives merging. An element whose every tag one
/// replica tombstoned stays absent after merging into a replica that never
/// added it.
pub proof fn law_remove_survives_merge<V>(a: OrSetView<V>, b: OrSetView<V>, e: V)
    requires
        !a.0.contains_key(e),
        b.0.contains_key(e) ==> forall|t: Seq<char>| #[trigger] b.0[e].contains(t) ==> b.1.contains(t),
    ensures
        !or_contains(or_merge(a, b), e),
{
    let m = or_merge(a, b);
    if or_contains(m, e) {
        let t = choose|t: Seq<char>| #[trigger] m.0[e].contains(t) && !m.1.contains(t);
        assert(b.0[e].contains(t));
    }
}

} // verus!
