//! Maps kept as association lists, keyed by values compared through their view.
//!
//! Node identifiers, fact keys and protocol keys throughout the library are
//! strings. A map keeps each key at most once; its abstract value is a
//! `Map<K::V, V>` from the key's view (for a string, its characters) to the value.
use vstd::prelude::*;
use vstd::string::*;

verus! {

/// Keys that can be compared and copied with a known meaning.
pub trait MapKey: View + Sized {
    /// Whether the two keys have the same view.
    fn key_eq(&self, other: &Self) -> (r: bool)
        ensures
            r == (self@ == other@),
    ;

    /// A key with the same view.
    fn key_clone(&self) -> (r: Self)
        ensures
            r@ == self@,
    ;
}

impl MapKey for String {
    fn key_eq(&self, other: &Self) -> (r: bool) {
        *self == *other
    }

    fn key_clone(&self) -> (r: Self) {
        self.clone()
    }
}

impl<'a> MapKey for &'a str {
    fn key_eq(&self, other: &Self) -> (r: bool) {
        let a: &str = *self;
        let b: &str = *other;
        let n = a.unicode_len();
        if n != b.unicode_len() {
            proof {
                assert(self@ == a@ && other@ == b@);
            }
            return false;
        }
        let mut i: usize = 0;
        while i < n
            invariant
                self@ == a@,
                other@ == b@,
                n == a@.len(),
                n == b@.len(),
                i <= n,
                forall|j: int| 0 <= j < i ==> a@[j] == b@[j],
            decreases n - i,
        {
            if a.get_char(i) != b.get_char(i) {
                proof {
                    assert(a@[i as int] != b@[i as int]);
                    assert(a@ != b@);
                    assert(self@ == a@ && other@ == b@);
                }
                return false;
            }
            i = i + 1;
        }
        proof {
            assert(a@ =~= b@);
        }
        true
    }

    fn key_clone(&self) -> (r: Self) {
        *self
    }
}

impl MapKey for u64 {
    fn key_eq(&self, other: &Self) -> (r: bool) {
        *self == *other
    }

    fn key_clone(&self) -> (r: Self) {
        *self
    }
}

impl MapKey for u32 {
    fn key_eq(&self, other: &Self) -> (r: bool) {
        *self == *other
    }

    fn key_clone(&self) -> (r: Self) {
        *self
    }
}

impl MapKey for i64 {
    fn key_eq(&self, other: &Self) -> (r: bool) {
        *self == *other
    }

    fn key_clone(&self) -> (r: Self) {
        *self
    }
}

impl MapKey for usize {
    fn key_eq(&self, other: &Self) -> (r: bool) {
        *self == *other
    }

    fn key_clone(&self) -> (r: Self) {
        *self
    }
}

/// Association list from keys to values; no two keys have the same view.
#[derive(Debug)]
pub struct KeyMap<K, V> {
    pub entries: Vec<(K, V)>,
}

/// A map keyed by strings.
pub type StrMap<V> = KeyMap<String, V>;

/// The characters of each string.
pub open spec fn string_views(v: Seq<String>) -> Seq<Seq<char>> {
    v.map_values(|t: String| t@)
}

/// The characters of every key, in entry order.
pub open spec fn key_seq<K: View, V>(entries: Seq<(K, V)>) -> Seq<K::V> {
    entries.map_values(|e: (K, V)| e.0@)
}

/// No key occurs twice.
pub open spec fn keys_distinct<K: View, V>(entries: Seq<(K, V)>) -> bool {
    forall|i: int, j: int|
        0 <= i < entries.len() && 0 <= j < entries.len() && i != j ==> #[trigger] entries[i].0@
            != #[trigger] entries[j].0@
}

/// Some entry carries the key `k`.
pub open spec fn has_key<K: View, V>(entries: Seq<(K, V)>, k: K::V) -> bool {
    exists|i: int| 0 <= i < entries.len() && #[trigger] entries[i].0@ == k
}

/// The position of the entry with key `k` (meaningful when `has_key`).
pub open spec fn key_index<K: View, V>(entries: Seq<(K, V)>, k: K::V) -> int {
    choose|i: int| 0 <= i < entries.len() && #[trigger] entries[i].0@ == k
}

/// The map that an association list denotes.
pub open spec fn entries_map<K: View, V>(entries: Seq<(K, V)>) -> Map<K::V, V> {
    Map::new(|k: K::V| has_key(entries, k), |k: K::V| entries[key_index(entries, k)].1)
}

/// With distinct keys, the entry at position `i` is the one that the map reads for its key.
pub proof fn lemma_entry_in_map<K: View, V>(entries: Seq<(K, V)>, i: int)
    requires
        keys_distinct(entries),
        0 <= i < entries.len(),
    ensures
        entries_map(entries).contains_key(entries[i].0@),
        entries_map(entries)[entries[i].0@] == entries[i].1,
        key_index(entries, entries[i].0@) == i,
{
    let k = entries[i].0@;
    assert(has_key(entries, k));
    let j = key_index(entries, k);
    assert(entries[j].0@ == k);
}

/// Appending an entry with a new key adds that key to the map.
pub proof fn lemma_entries_map_push<K: View, V>(entries: Seq<(K, V)>, e: (K, V))
    requires
        keys_distinct(entries),
        !has_key(entries, e.0@),
    ensures
        keys_distinct(entries.push(e)),
        entries_map(entries.push(e)) == entries_map(entries).insert(e.0@, e.1),
{
    let s = entries.push(e);
    assert forall|a: int, b: int|
        0 <= a < s.len() && 0 <= b < s.len() && a != b implies #[trigger] s[a].0@
        != #[trigger] s[b].0@ by {
        if a < entries.len() && b < entries.len() {
            assert(entries[a].0@ != entries[b].0@);
        } else if a < entries.len() {
            assert(s[a].0@ == entries[a].0@);
        } else {
            assert(s[b].0@ == entries[b].0@);
        }
    }
    let m = entries_map(s);
    let n = entries_map(entries).insert(e.0@, e.1);
    assert forall|k: K::V| #[trigger] m.contains_key(k) <==> n.contains_key(k) by {
        if has_key(entries, k) {
            let j = key_index(entries, k);
            assert(s[j].0@ == k);
        }
        if has_key(s, k) {
            let j = key_index(s, k);
            if j < entries.len() {
                assert(entries[j].0@ == k);
            }
        }
        if k == e.0@ {
            assert(s[entries.len() as int].0@ == k);
        }
    }
    assert forall|k: K::V| #[trigger] m.contains_key(k) implies m[k] == n[k] by {
        let j = key_index(s, k);
        lemma_entry_in_map(s, j);
        if j < entries.len() {
            assert(s[j] == entries[j]);
            lemma_entry_in_map(entries, j);
        }
    }
    assert(m =~= n);
}

/// Two lists whose keys agree position by position: the second has distinct
/// keys when the first does, both denote maps with the same keys, and each
/// key sits at the same position in both.
pub proof fn lemma_same_keys<K: View, V, W>(a: Seq<(K, V)>, b: Seq<(K, W)>)
    requires
        keys_distinct(a),
        a.len() == b.len(),
        forall|i: int| 0 <= i < a.len() ==> (#[trigger] b[i]).0@ == a[i].0@,
    ensures
        keys_distinct(b),
        entries_map(b).dom() == entries_map(a).dom(),
        forall|i: int|
            0 <= i < a.len() ==> key_index(b, (#[trigger] a[i]).0@) == i && key_index(a, a[i].0@)
                == i,
{
    assert forall|x: int, y: int|
        0 <= x < b.len() && 0 <= y < b.len() && x != y implies #[trigger] b[x].0@
        != #[trigger] b[y].0@ by {
        assert(a[x].0@ != a[y].0@);
    }
    assert forall|k: K::V| #[trigger] entries_map(b).dom().contains(k) <==> entries_map(a).dom().contains(k) by {
        if has_key(a, k) {
            let j = key_index(a, k);
            assert(b[j].0@ == k);
        }
        if has_key(b, k) {
            let j = key_index(b, k);
            assert(a[j].0@ == k);
        }
    }
    assert(entries_map(b).dom() =~= entries_map(a).dom());
    assert forall|i: int| 0 <= i < a.len() implies key_index(b, (#[trigger] a[i]).0@) == i
        && key_index(a, a[i].0@) == i by {
        lemma_entry_in_map(a, i);
        assert(b[i].0@ == a[i].0@);
        lemma_entry_in_map(b, i);
    }
}

/// A list with distinct keys has distinct keys in every prefix.
pub proof fn lemma_keys_distinct_take<K: View, V>(entries: Seq<(K, V)>, i: int)
    requires
        keys_distinct(entries),
        0 <= i <= entries.len(),
    ensures
        keys_distinct(entries.take(i)),
        i < entries.len() ==> !has_key(entries.take(i), entries[i].0@),
        i < entries.len() ==> entries.take(i + 1) == entries.take(i).push(entries[i]),
{
    let t = entries.take(i);
    assert forall|a: int, b: int|
        0 <= a < t.len() && 0 <= b < t.len() && a != b implies #[trigger] t[a].0@
        != #[trigger] t[b].0@ by {
        assert(t[a] == entries[a]);
        assert(t[b] == entries[b]);
    }
    if i < entries.len() {
        if has_key(t, entries[i].0@) {
            let j = key_index(t, entries[i].0@);
            assert(t[j] == entries[j]);
        }
        assert(entries.take(i + 1) =~= t.push(entries[i]));
    }
}

impl<K: MapKey, V> KeyMap<K, V> {
    pub open spec fn wf(&self) -> bool {
        keys_distinct(self.entries@)
    }

    pub open spec fn view(&self) -> Map<K::V, V> {
        entries_map(self.entries@)
    }

    /// The empty map.
    pub fn new() -> (m: Self)
        ensures
            m.wf(),
            m.entries@.len() == 0,
            m@ == Map::<K::V, V>::empty(),
    {
        let m = KeyMap { entries: Vec::new() };
        assert(m@ =~= Map::<K::V, V>::empty());
        m
    }

    /// The number of keys.
    pub fn len(&self) -> (n: usize)
        requires
            self.wf(),
        ensures
            n == self.entries@.len(),
            n == self@.dom().len(),
    {
        proof {
            self.lemma_len();
        }
        self.entries.len()
    }

    /// The domain is finite and has as many keys as there are entries.
    pub proof fn lemma_len(&self)
        requires
            self.wf(),
        ensures
            self@.dom().finite(),
            self@.dom().len() == self.entries@.len(),
        decreases self.entries@.len(),
    {
        let s = self.entries@;
        let ks = key_seq(s);
        assert forall|k: K::V| self@.dom().contains(k) <==> ks.contains(k) by {
            if self@.dom().contains(k) {
                let i = key_index(s, k);
                assert(ks[i] == k);
            }
            if ks.contains(k) {
                let i = choose|i: int| 0 <= i < ks.len() && ks[i] == k;
                assert(s[i].0@ == k);
            }
        }
        assert(self@.dom() =~= ks.to_set());
        assert(ks.no_duplicates()) by {
            assert forall|i: int, j: int|
                0 <= i < ks.len() && 0 <= j < ks.len() && i != j implies ks[i] != ks[j] by {
                assert(s[i].0@ != s[j].0@);
            }
        }
        ks.unique_seq_to_set();
    }

    /// Position of `key`, if present.
    pub fn find(&self, key: &K) -> (r: Option<usize>)
        requires
            self.wf(),
        ensures
            match r {
                Some(i) => i < self.entries@.len() && self.entries@[i as int].0@ == key@,
                None => !self@.dom().contains(key@),
            },
            r is Some <==> self@.dom().contains(key@),
    {
        let mut i: usize = 0;
        while i < self.entries.len()
            invariant
                i <= self.entries@.len(),
                forall|j: int| 0 <= j < i ==> self.entries@[j].0@ != key@,
            decreases self.entries@.len() - i,
        {
            if self.entries[i].0.key_eq(key) {
                proof {
                    assert(has_key(self.entries@, key@));
                }
                return Some(i);
            }
            i = i + 1;
        }
        None
    }

    /// The value stored under `key`.
    pub fn get(&self, key: &K) -> (r: Option<&V>)
        requires
            self.wf(),
        ensures
            match r {
                Some(v) => self@.dom().contains(key@) && *v == self@[key@],
                None => !self@.dom().contains(key@),
            },
    {
        match self.find(key) {
            Some(i) => {
                proof {
                    lemma_entry_in_map(self.entries@, i as int);
                }
                Some(&self.entries[i].1)
            },
            None => None,
        }
    }

    /// Whether `key` is present.
    pub fn contains_key(&self, key: &K) -> (r: bool)
        requires
            self.wf(),
        ensures
            r == self@.dom().contains(key@),
    {
        self.find(key).is_some()
    }

    /// Binds `key` to `value`; an existing binding is replaced in place, a new key is appended.
    pub fn insert(&mut self, key: K, value: V)
        requires
            old(self).wf(),
        ensures
            final(self).wf(),
            final(self)@ == old(self)@.insert(key@, value),
            old(self)@.dom().contains(key@) ==> final(self).entries@.len() == old(self).entries@.len(),
            !old(self)@.dom().contains(key@) ==> final(self).entries@ == old(self).entries@.push(
                (key, value),
            ),
    {
        let ghost k = key@;
        let ghost v = value;
        match self.find(&key) {
            Some(i) => {
                let ghost old_entries = self.entries@;
                self.entries.set(i, (key, value));
                proof {
                    let s = self.entries@;
                    assert forall|a: int, b: int|
                        0 <= a < s.len() && 0 <= b < s.len() && a != b implies #[trigger] s[a].0@
                        != #[trigger] s[b].0@ by {
                        assert(old_entries[a].0@ != old_entries[b].0@);
                    }
                    assert forall|kk: K::V|
                        #[trigger] self@.dom().contains(kk) <==> old(self)@.insert(
                            k,
                            v,
                        ).dom().contains(kk) by {
                        if has_key(old_entries, kk) {
                            let j = key_index(old_entries, kk);
                            assert(s[j].0@ == kk);
                        }
                        if has_key(s, kk) {
                            let j = key_index(s, kk);
                            if j != i {
                                assert(old_entries[j].0@ == kk);
                            }
                        }
                    }
                    assert forall|kk: K::V| #[trigger]
                        self@.dom().contains(kk) implies self@[kk] == old(self)@.insert(
                        k,
                        v,
                    )[kk] by {
                        let j = key_index(s, kk);
                        lemma_entry_in_map(s, j);
                        if j != i {
                            lemma_entry_in_map(old_entries, j);
                        }
                    }
                    assert(self@ =~= old(self)@.insert(k, v));
                }
            },
            None => {
                let ghost old_entries = self.entries@;
                self.entries.push((key, value));
                proof {
                    let s = self.entries@;
                    assert forall|a: int, b: int|
                        0 <= a < s.len() && 0 <= b < s.len() && a != b implies #[trigger] s[a].0@
                        != #[trigger] s[b].0@ by {
                        if a < old_entries.len() && b < old_entries.len() {
                            assert(old_entries[a].0@ != old_entries[b].0@);
                        } else if a < old_entries.len() {
                            assert(s[a].0@ == old_entries[a].0@);
                            assert(!has_key(old_entries, k));
                        } else {
                            assert(s[b].0@ == old_entries[b].0@);
                            assert(!has_key(old_entries, k));
                        }
                    }
                    assert forall|kk: K::V|
                        #[trigger] self@.dom().contains(kk) <==> old(self)@.insert(
                            k,
                            v,
                        ).dom().contains(kk) by {
                        if has_key(old_entries, kk) {
                            let j = key_index(old_entries, kk);
                            assert(s[j].0@ == kk);
                        }
                        if has_key(s, kk) {
                            let j = key_index(s, kk);
                            if j != old_entries.len() {
                                assert(old_entries[j].0@ == kk);
                            }
                        }
                        if kk == k {
                            assert(s[old_entries.len() as int].0@ == kk);
                        }
                    }
                    assert forall|kk: K::V| #[trigger]
                        self@.dom().contains(kk) implies self@[kk] == old(self)@.insert(
                        k,
                        v,
                    )[kk] by {
                        let j = key_index(s, kk);
                        lemma_entry_in_map(s, j);
                        if j != old_entries.len() {
                            lemma_entry_in_map(old_entries, j);
                        }
                    }
                    assert(self@ =~= old(self)@.insert(k, v));
                }
            },
        }
    }

    /// Replaces the value of the entry at position `i`, answering the value it held.
    pub fn replace_at(&mut self, i: usize, v: V) -> (prev: V)
        requires
            old(self).wf(),
            i < old(self).entries@.len(),
        ensures
            final(self).wf(),
            prev == old(self).entries@[i as int].1,
            final(self).entries@.len() == old(self).entries@.len(),
            final(self).entries@[i as int].0 == old(self).entries@[i as int].0,
            final(self).entries@[i as int].1 == v,
            forall|j: int|
                0 <= j < old(self).entries@.len() && j != i ==> #[trigger] final(self).entries@[j]
                    == old(self).entries@[j],
            final(self)@ == old(self)@.insert(old(self).entries@[i as int].0@, v),
    {
        let ghost old_entries = self.entries@;
        let (k, prev) = self.entries.remove(i);
        self.entries.insert(i, (k, v));
        proof {
            let s = self.entries@;
            assert(s =~= old_entries.update(i as int, (old_entries[i as int].0, v)));
            assert forall|a: int, b: int|
                0 <= a < s.len() && 0 <= b < s.len() && a != b implies #[trigger] s[a].0@
                != #[trigger] s[b].0@ by {
                assert(s[a].0 == old_entries[a].0);
                assert(s[b].0 == old_entries[b].0);
            }
            let kk = old_entries[i as int].0@;
            let m = self@;
            let n = old(self)@.insert(kk, v);
            assert forall|k: K::V| #[trigger] m.contains_key(k) <==> n.contains_key(k) by {
                if has_key(old_entries, k) {
                    let j = key_index(old_entries, k);
                    assert(s[j].0 == old_entries[j].0);
                }
                if has_key(s, k) {
                    let j = key_index(s, k);
                    assert(s[j].0 == old_entries[j].0);
                }
                if k == kk {
                    assert(s[i as int].0@ == k);
                }
            }
            assert forall|k: K::V| #[trigger] m.contains_key(k) implies m[k] == n[k] by {
                let j = key_index(s, k);
                lemma_entry_in_map(s, j);
                if j != i {
                    lemma_entry_in_map(old_entries, j);
                } else {
                    lemma_entry_in_map(old_entries, i as int);
                }
            }
            assert(m =~= n);
        }
        prev
    }
}

} // verus!
