//! Kademlia-style routing table: nodes are placed in buckets by the highest
//! differing bit of their XOR distance to the local node.
use vstd::prelude::*;

verus! {

/// Number of buckets: one per bit of a node identifier.
pub const BUCKET_COUNT: usize = 64;

#[derive(Debug, PartialEq, Eq)]
pub struct DhtNode {
    pub node_id: u64,
    pub address: String,
}

impl Clone for DhtNode {
    fn clone(&self) -> (r: DhtNode)
        ensures
            r == *self,
    {
        DhtNode { node_id: self.node_id, address: self.address.clone() }
    }
}

pub struct Dht {
    pub local_id: u64,
    pub buckets: Vec<Vec<DhtNode>>,
    pub k: usize,
}

/// The highest set bit of a nonzero distance is its bucket; distance zero goes to bucket 0.
pub open spec fn is_bucket_of(distance: u64, index: int) -> bool {
    &&& 0 <= index < 64
    &&& distance == 0 ==> index == 0
    &&& distance != 0 ==> (distance >> (index as u64)) == 1u64
}

/// The bucket after `node` is added: any entry with the same identifier is
/// dropped, the node goes to the back, and the oldest entry is evicted when
/// the bucket then holds more than `k` nodes.
pub open spec fn bucket_after_add(b: Seq<DhtNode>, node: DhtNode, k: int) -> Seq<DhtNode> {
    let kept = b.filter(id_differs(node.node_id)).push(node);
    if kept.len() > k {
        kept.drop_first()
    } else {
        kept
    }
}

/// Holds of the nodes whose identifier is not `id`.
pub open spec fn id_differs(id: u64) -> spec_fn(DhtNode) -> bool {
    |n: DhtNode| n.node_id != id
}

/// The contents of each bucket.
pub open spec fn bucket_views(buckets: Seq<Vec<DhtNode>>) -> Seq<Seq<DhtNode>> {
    buckets.map_values(|b: Vec<DhtNode>| b@)
}

/// Every node of the table, bucket by bucket, each bucket in its own order.
pub open spec fn all_nodes(buckets: Seq<Vec<DhtNode>>) -> Seq<DhtNode> {
    bucket_views(buckets).flatten()
}

/// Strict order on positions: by key, ties broken by position.
pub open spec fn key_before(keys: Seq<u64>, a: int, b: int) -> bool {
    keys[a] < keys[b] || (keys[a] == keys[b] && a < b)
}

/// `p` is a permutation of the positions `0..n`.
pub open spec fn is_position_perm(p: Seq<usize>, n: int) -> bool {
    &&& p.len() == n
    &&& forall|i: int| 0 <= i < n ==> #[trigger] p[i] < n
    &&& forall|i: int, j: int| 0 <= i < n && 0 <= j < n && i != j ==> #[trigger] p[i] != #[trigger] p[j]
}

/// The positions listed in `p[lo..hi]` come in strictly increasing `key_before` order.
pub open spec fn positions_sorted(p: Seq<usize>, keys: Seq<u64>, lo: int, hi: int) -> bool {
    forall|x: int, y: int|
        lo <= x < y < hi ==> key_before(keys, #[trigger] p[x] as int, #[trigger] p[y] as int)
}

/// The XOR distance of each node to `target`.
pub open spec fn distances(s: Seq<DhtNode>, target: u64) -> Seq<u64> {
    s.map_values(|n: DhtNode| n.node_id ^ target)
}

/// `r` lists `s` reordered by `p`: by distance to `target`, nodes at equal
/// distance keeping their order in `s`.
pub open spec fn ordered_by(s: Seq<DhtNode>, r: Seq<DhtNode>, p: Seq<usize>, target: u64) -> bool {
    &&& is_position_perm(p, s.len() as int)
    &&& r.len() == s.len()
    &&& forall|i: int| 0 <= i < r.len() ==> #[trigger] r[i] == s[p[i] as int]
    &&& positions_sorted(p, distances(s, target), 0, s.len() as int)
}

/// `r` is `s` stably sorted by XOR distance to `target`.
pub open spec fn stably_sorted_by_distance(s: Seq<DhtNode>, r: Seq<DhtNode>, target: u64) -> bool {
    exists|p: Seq<usize>| ordered_by(s, r, p, target)
}

/// Sorts the positions `0..keys.len()` by key; equal keys keep their order.
fn sort_positions_by_key(keys: &Vec<u64>) -> (p: Vec<usize>)
    ensures
        is_position_perm(p@, keys@.len() as int),
        positions_sorted(p@, keys@, 0, keys@.len() as int),
{
    let n = keys.len();
    let mut p: Vec<usize> = Vec::new();
    let mut i: usize = 0;
    while i < n
        invariant
            i <= n,
            n == keys@.len(),
            p@.len() == i,
            forall|j: int| 0 <= j < i ==> #[trigger] p@[j] == j,
        decreases n - i,
    {
        p.push(i);
        i = i + 1;
    }
    let mut i: usize = 1;
    while i < n
        invariant
            1 <= i || n == 0,
            i <= n || n == 0,
            n == keys@.len(),
            is_position_perm(p@, n as int),
            positions_sorted(p@, keys@, 0, i as int),
        decreases n - i,
    {
        let mut j: usize = i;
        while j > 0 && (keys[p[j]] < keys[p[j - 1]] || (keys[p[j]] == keys[p[j - 1]] && p[j]
            < p[j - 1]))
            invariant
                0 <= j <= i < n,
                n == keys@.len(),
                is_position_perm(p@, n as int),
                positions_sorted(p@, keys@, 0, j as int),
                positions_sorted(p@, keys@, j as int, i + 1),
                forall|a: int, b: int|
                    0 <= a < j < b <= i ==> key_before(
                        keys@,
                        #[trigger] p@[a] as int,
                        #[trigger] p@[b] as int,
                    ),
            decreases j,
        {
            let a = p[j - 1];
            let b = p[j];
            let ghost old_p = p@;
            p.set(j - 1, b);
            p.set(j, a);
            proof {
                let q = p@;
                assert forall|x: int, y: int|
                    0 <= x < n && 0 <= y < n && x != y implies #[trigger] q[x] != #[trigger] q[y] by {
                    let ox = if x == j - 1 {
                        j as int
                    } else if x == j {
                        j - 1
                    } else {
                        x
                    };
                    let oy = if y == j - 1 {
                        j as int
                    } else if y == j {
                        j - 1
                    } else {
                        y
                    };
                    assert(q[x] == old_p[ox]);
                    assert(q[y] == old_p[oy]);
                }
                assert forall|x: int| 0 <= x < n implies #[trigger] q[x] < n by {
                    if x == j - 1 {
                        assert(q[x] == old_p[j as int]);
                    } else if x == j {
                        assert(q[x] == old_p[j - 1]);
                    } else {
                        assert(q[x] == old_p[x]);
                    }
                }
                assert forall|x: int, y: int| 0 <= x < y < j - 1 implies key_before(
                    keys@,
                    #[trigger] q[x] as int,
                    #[trigger] q[y] as int,
                ) by {
                    assert(q[x] == old_p[x]);
                    assert(q[y] == old_p[y]);
                }
                assert forall|x: int, y: int| j - 1 <= x < y < i + 1 implies key_before(
                    keys@,
                    #[trigger] q[x] as int,
                    #[trigger] q[y] as int,
                ) by {
                    if x == j - 1 {
                        if y == j {
                        } else {
                            assert(q[y] == old_p[y]);
                            assert(key_before(keys@, old_p[j - 1] as int, old_p[y] as int));
                        }
                    } else {
                        assert(x >= j);
                        if x == j {
                            assert(q[y] == old_p[y]);
                            assert(key_before(keys@, old_p[j - 1] as int, old_p[y] as int));
                        } else {
                            assert(q[x] == old_p[x]);
                            assert(q[y] == old_p[y]);
                        }
                    }
                }
                assert forall|x: int, y: int| 0 <= x < j - 1 < y <= i implies key_before(
                    keys@,
                    #[trigger] q[x] as int,
                    #[trigger] q[y] as int,
                ) by {
                    assert(q[x] == old_p[x]);
                    if y == j {
                        assert(q[y] == old_p[j - 1]);
                        assert(key_before(keys@, old_p[x] as int, old_p[j - 1] as int));
                    } else {
                        assert(q[y] == old_p[y]);
                    }
                }
            }
            j = j - 1;
        }
        proof {
            let q = p@;
            if j > 0 {
                assert(q[j as int] != q[j - 1]);
                assert(key_before(keys@, q[j - 1] as int, q[j as int] as int));
                assert forall|x: int, y: int| 0 <= x < y < i + 1 implies key_before(
                    keys@,
                    #[trigger] q[x] as int,
                    #[trigger] q[y] as int,
                ) by {
                    if x < j && y > j {
                    } else if x < j && y == j {
                        if x < j - 1 {
                            assert(key_before(keys@, q[x] as int, q[j - 1] as int));
                        }
                    }
                }
            }
        }
        i = i + 1;
    }
    p
}

/// A bucket that keeps the table's rules for index `j`: at most `k` nodes, no
/// identifier twice, and only nodes whose distance from `local_id` selects
/// bucket `j` (so never the local node itself).
pub open spec fn bucket_ok(local_id: u64, k: int, j: int, b: Seq<DhtNode>) -> bool {
    &&& b.len() <= k
    &&& forall|x: int, y: int|
        0 <= x < b.len() && 0 <= y < b.len() && x != y ==> #[trigger] b[x].node_id
            != #[trigger] b[y].node_id
    &&& forall|x: int|
        0 <= x < b.len() ==> (#[trigger] b[x]).node_id != local_id && is_bucket_of(
            local_id ^ b[x].node_id,
            j,
        )
}

/// Dropping the nodes with identifier `id` keeps only nodes of `b`, none with
/// that identifier, and keeps identifiers distinct when they were.
proof fn lemma_filter_ids(b: Seq<DhtNode>, id: u64)
    ensures
        forall|i: int|
            0 <= i < b.filter(id_differs(id)).len() ==> (#[trigger] b.filter(id_differs(id))[i]).node_id
                != id && exists|j: int| 0 <= j < b.len() && b[j] == b.filter(id_differs(id))[i],
        (forall|x: int, y: int|
            0 <= x < b.len() && 0 <= y < b.len() && x != y ==> #[trigger] b[x].node_id
                != #[trigger] b[y].node_id) ==> (forall|x: int, y: int|
            0 <= x < b.filter(id_differs(id)).len() && 0 <= y < b.filter(id_differs(id)).len() && x
                != y ==> #[trigger] b.filter(id_differs(id))[x].node_id != #[trigger] b.filter(
                id_differs(id),
            )[y].node_id),
    decreases b.len(),
{
    reveal_with_fuel(Seq::<_>::filter, 1);
    let f = id_differs(id);
    if b.len() > 0 {
        let d = b.drop_last();
        lemma_filter_ids(d, id);
        let fd = d.filter(f);
        let fb = b.filter(f);
        assert(fb == (if f(b.last()) {
            fd.push(b.last())
        } else {
            fd
        }));
        assert forall|i: int| 0 <= i < fb.len() implies (#[trigger] fb[i]).node_id != id && exists|
            j: int,
        | 0 <= j < b.len() && b[j] == fb[i] by {
            if i < fd.len() {
                assert(fb[i] == fd[i]);
                let j = choose|j: int| 0 <= j < d.len() && d[j] == fd[i];
                assert(b[j] == d[j]);
            } else {
                assert(fb[i] == b.last());
                assert(b[b.len() - 1] == fb[i]);
            }
        }
        if forall|x: int, y: int|
            0 <= x < b.len() && 0 <= y < b.len() && x != y ==> #[trigger] b[x].node_id
                != #[trigger] b[y].node_id {
            assert forall|x: int, y: int|
                0 <= x < d.len() && 0 <= y < d.len() && x != y implies #[trigger] d[x].node_id
                != #[trigger] d[y].node_id by {
                assert(d[x] == b[x] && d[y] == b[y]);
            }
            assert forall|x: int, y: int|
                0 <= x < fb.len() && 0 <= y < fb.len() && x != y implies #[trigger] fb[x].node_id
                != #[trigger] fb[y].node_id by {
                if x < fd.len() && y < fd.len() {
                    assert(fb[x] == fd[x] && fb[y] == fd[y]);
                } else {
                    let o = if x < fd.len() {
                        x
                    } else {
                        y
                    };
                    assert(fb[o] == fd[o]);
                    let j = choose|j: int| 0 <= j < d.len() && d[j] == fd[o];
                    assert(b[j] == d[j]);
                    assert(b[b.len() - 1] == b.last());
                    assert(b[j].node_id != b[b.len() - 1].node_id);
                }
            }
        }
    }
}

/// Adding a node that belongs in bucket `j` keeps the bucket's rules.
proof fn lemma_bucket_after_add_ok(local_id: u64, k: int, j: int, b: Seq<DhtNode>, node: DhtNode)
    requires
        bucket_ok(local_id, k, j, b),
        node.node_id != local_id,
        is_bucket_of(local_id ^ node.node_id, j),
    ensures
        bucket_ok(local_id, k, j, bucket_after_add(b, node, k)),
{
    let f = id_differs(node.node_id);
    let fb = b.filter(f);
    lemma_filter_ids(b, node.node_id);
    b.lemma_filter_len(f);
    let kept = fb.push(node);
    assert forall|x: int, y: int|
        0 <= x < kept.len() && 0 <= y < kept.len() && x != y implies #[trigger] kept[x].node_id
        != #[trigger] kept[y].node_id by {
        if x < fb.len() && y < fb.len() {
            assert(kept[x] == fb[x] && kept[y] == fb[y]);
        } else if x < fb.len() {
            assert(kept[x] == fb[x]);
        } else {
            assert(kept[y] == fb[y]);
        }
    }
    assert forall|x: int| 0 <= x < kept.len() implies (#[trigger] kept[x]).node_id != local_id
        && is_bucket_of(local_id ^ kept[x].node_id, j) by {
        if x < fb.len() {
            assert(kept[x] == fb[x]);
            let i = choose|i: int| 0 <= i < b.len() && b[i] == fb[x];
            assert(b[i].node_id != local_id);
        }
    }
    if kept.len() > k {
        let r = kept.drop_first();
        assert forall|x: int, y: int|
            0 <= x < r.len() && 0 <= y < r.len() && x != y implies #[trigger] r[x].node_id
            != #[trigger] r[y].node_id by {
            assert(r[x] == kept[x + 1] && r[y] == kept[y + 1]);
        }
        assert forall|x: int| 0 <= x < r.len() implies (#[trigger] r[x]).node_id != local_id
            && is_bucket_of(local_id ^ r[x].node_id, j) by {
            assert(r[x] == kept[x + 1]);
        }
    }
}

impl Dht {
    /// The routing-table invariant: every bucket keeps the rules of its index.
    pub open spec fn table_inv(&self) -> bool {
        &&& self.wf()
        &&& forall|j: int|
            0 <= j < BUCKET_COUNT ==> bucket_ok(self.local_id, self.k as int, j, #[trigger] self.buckets@[j]@)
    }

    pub open spec fn wf(&self) -> bool {
        self.buckets@.len() == BUCKET_COUNT
    }

    /// An empty table for `local_id`, holding at most `k` nodes per bucket.
    pub fn new(local_id: u64, k: usize) -> (d: Self)
        ensures
            d.wf(),
            d.table_inv(),
            d.local_id == local_id,
            d.k == k,
            forall|i: int| 0 <= i < BUCKET_COUNT ==> (#[trigger] d.buckets@[i])@.len() == 0,
    {
        let mut buckets: Vec<Vec<DhtNode>> = Vec::with_capacity(BUCKET_COUNT);
        let mut i: usize = 0;
        while i < BUCKET_COUNT
            invariant
                i <= BUCKET_COUNT,
                buckets@.len() == i,
                forall|j: int| 0 <= j < i ==> (#[trigger] buckets@[j])@.len() == 0,
            decreases BUCKET_COUNT - i,
        {
            buckets.push(Vec::new());
            i = i + 1;
        }
        Dht { local_id, buckets, k }
    }

    /// XOR metric between two node identifiers.
    pub fn xor_distance(id1: u64, id2: u64) -> (d: u64)
        ensures
            d == id1 ^ id2,
    {
        id1 ^ id2
    }

    /// The bucket of `target_id`: the index of the highest bit in which it
    /// differs from `local_id` (0 when the two are equal).
    pub fn bucket_index(local_id: u64, target_id: u64) -> (index: usize)
        ensures
            is_bucket_of(local_id ^ target_id, index as int),
    {
        let distance = Self::xor_distance(local_id, target_id);
        if distance == 0 {
            return 0;
        }
        let mut r: u64 = 63;
        assert(distance >> 63u64 <= 1u64) by (bit_vector);
        while (distance >> r) == 0
            invariant
                r <= 63,
                distance != 0,
                r == 63 || (distance >> ((r + 1) as u64)) == 0u64,
            decreases r,
        {
            assert(r != 0) by {
                assert(distance >> 0u64 == distance) by (bit_vector);
            }
            r = r - 1;
        }
        if r < 63 {
            let r1: u64 = r + 1;
            assert(r1 == r + 1 && r < 63 && (distance >> r1) == 0 && (distance >> r) != 0 ==> (
            distance >> r) == 1u64) by (bit_vector);
        } else {
            assert(r == 63 && (distance >> r) != 0 ==> (distance >> r) == 1u64) by (bit_vector);
        }
        r as usize
    }

    /// Records `node` in its bucket. The local node itself is never recorded.
    pub fn add_node(&mut self, node: DhtNode)
        requires
            old(self).wf(),
        ensures
            final(self).wf(),
            final(self).local_id == old(self).local_id,
            final(self).k == old(self).k,
            old(self).table_inv() ==> final(self).table_inv(),
            node.node_id == old(self).local_id ==> final(self).buckets@ == old(self).buckets@,
            node.node_id != old(self).local_id ==> exists|index: int|
                {
                    &&& #[trigger] is_bucket_of(old(self).local_id ^ node.node_id, index)
                    &&& final(self).buckets@[index]@ == bucket_after_add(
                        old(self).buckets@[index]@,
                        node,
                        old(self).k as int,
                    )
                    &&& forall|j: int|
                        0 <= j < BUCKET_COUNT && j != index ==> #[trigger] final(self).buckets@[j]
                            == old(self).buckets@[j]
                },
    {
        if node.node_id == self.local_id {
            return ;
        }
        let index = Self::bucket_index(self.local_id, node.node_id);
        let ghost old_bucket = self.buckets@[index as int]@;
        let ghost id = node.node_id;
        let mut kept: Vec<DhtNode> = Vec::new();
        let mut i: usize = 0;
        while i < self.buckets[index].len()
            invariant
                index < BUCKET_COUNT,
                self.wf(),
                old_bucket == self.buckets@[index as int]@,
                id == node.node_id,
                i <= old_bucket.len(),
                kept@ == old_bucket.take(i as int).filter(id_differs(id)),
            decreases old_bucket.len() - i,
        {
            let ghost before = kept@;
            let cur = self.buckets[index][i].clone();
            if cur.node_id != node.node_id {
                kept.push(cur);
            }
            proof {
                let t = old_bucket.take(i + 1);
                let f = id_differs(id);
                assert(t.drop_last() =~= old_bucket.take(i as int));
                assert(t.last() == old_bucket[i as int]);
                reveal_with_fuel(Seq::<_>::filter, 1);
                assert(t.filter(f) == (if f(t.last()) {
                    t.drop_last().filter(f).push(t.last())
                } else {
                    t.drop_last().filter(f)
                }));
            }
            i = i + 1;
        }
        proof {
            assert(old_bucket.take(old_bucket.len() as int) =~= old_bucket);
        }
        kept.push(node);
        if kept.len() > self.k {
            kept.remove(0);
        }
        proof {
            assert(kept@ =~= bucket_after_add(old_bucket, node, self.k as int));
        }
        let ghost pre_buckets = self.buckets@;
        self.buckets.set(index, kept);
        proof {
            assert(is_bucket_of(self.local_id ^ node.node_id, index as int));
            if old(self).table_inv() {
                lemma_bucket_after_add_ok(
                    self.local_id,
                    self.k as int,
                    index as int,
                    old_bucket,
                    node,
                );
                assert forall|j: int| 0 <= j < BUCKET_COUNT implies bucket_ok(
                    self.local_id,
                    self.k as int,
                    j,
                    #[trigger] self.buckets@[j]@,
                ) by {
                    if j != index {
                        assert(self.buckets@[j] == pre_buckets[j]);
                    }
                }
            }
        }
    }

    /// Up to `count` known nodes closest to `target_id` by XOR distance,
    /// nearest first; nodes at equal distance come in table order.
    pub fn find_closest_nodes(&self, target_id: u64, count: usize) -> (r: Vec<DhtNode>)
        ensures
            exists|sorted: Seq<DhtNode>|
                {
                    &&& #[trigger] stably_sorted_by_distance(
                        all_nodes(self.buckets@),
                        sorted,
                        target_id,
                    )
                    &&& r@ == sorted.take(
                        if count < sorted.len() {
                            count as int
                        } else {
                            sorted.len() as int
                        },
                    )
                },
    {
        let mut all: Vec<DhtNode> = Vec::new();
        let mut b: usize = 0;
        proof {
            assert(bucket_views(self.buckets@).take(0) =~= Seq::<Seq<DhtNode>>::empty());
        }
        while b < self.buckets.len()
            invariant
                b <= self.buckets@.len(),
                all@ == bucket_views(self.buckets@).take(b as int).flatten(),
            decreases self.buckets@.len() - b,
        {
            let ghost before = all@;
            let mut i: usize = 0;
            while i < self.buckets[b].len()
                invariant
                    b < self.buckets@.len(),
                    i <= self.buckets@[b as int]@.len(),
                    all@ == before + self.buckets@[b as int]@.take(i as int),
                decreases self.buckets@[b as int]@.len() - i,
            {
                all.push(self.buckets[b][i].clone());
                proof {
                    assert(self.buckets@[b as int]@.take(i + 1) =~= self.buckets@[b as int]@.take(
                        i as int,
                    ).push(self.buckets@[b as int]@[i as int]));
                }
                i = i + 1;
            }
            proof {
                let vs = bucket_views(self.buckets@);
                assert(self.buckets@[b as int]@.take(self.buckets@[b as int]@.len() as int)
                    =~= self.buckets@[b as int]@);
                assert(vs.take(b + 1) =~= vs.take(b as int).push(vs[b as int]));
                vs.take(b as int).lemma_flatten_push(vs[b as int]);
            }
            b = b + 1;
        }
        proof {
            let vs = bucket_views(self.buckets@);
            assert(vs.take(self.buckets@.len() as int) =~= vs);
        }
        let mut keys: Vec<u64> = Vec::new();
        let mut i: usize = 0;
        while i < all.len()
            invariant
                i <= all@.len(),
                keys@ == distances(all@, target_id).take(i as int),
            decreases all@.len() - i,
        {
            keys.push(Self::xor_distance(all[i].node_id, target_id));
            proof {
                assert(distances(all@, target_id).take(i + 1) =~= distances(all@, target_id).take(
                    i as int,
                ).push(all@[i as int].node_id ^ target_id));
            }
            i = i + 1;
        }
        proof {
            assert(keys@ =~= distances(all@, target_id));
        }
        let order = sort_positions_by_key(&keys);
        let ghost sorted = Seq::new(all@.len(), |i: int| all@[order@[i] as int]);
        proof {
            assert(ordered_by(all@, sorted, order@, target_id));
        }
        let m = if count < all.len() {
            count
        } else {
            all.len()
        };
        let mut r: Vec<DhtNode> = Vec::new();
        let mut j: usize = 0;
        while j < m
            invariant
                j <= m <= all@.len(),
                order@.len() == all@.len(),
                is_position_perm(order@, all@.len() as int),
                sorted == Seq::new(all@.len(), |i: int| all@[order@[i] as int]),
                r@ == sorted.take(j as int),
            decreases m - j,
        {
            r.push(all[order[j]].clone());
            proof {
                assert(sorted.take(j + 1) =~= sorted.take(j as int).push(sorted[j as int]));
            }
            j = j + 1;
        }
        proof {
            assert(stably_sorted_by_distance(all@, sorted, target_id));
            assert(all@ == all_nodes(self.buckets@));
        }
        r
    }
}

/// Dropping an identifier that no node of `b` carries keeps `b` as it is.
proof fn lemma_filter_absent(b: Seq<DhtNode>, id: u64)
    requires
        forall|x: int| 0 <= x < b.len() ==> (#[trigger] b[x]).node_id != id,
    ensures
        b.filter(id_differs(id)) == b,
    decreases b.len(),
{
    reveal_with_fuel(Seq::<_>::filter, 1);
    if b.len() > 0 {
        let d = b.drop_last();
        assert forall|x: int| 0 <= x < d.len() implies (#[trigger] d[x]).node_id != id by {
            assert(d[x] == b[x]);
        }
        lemma_filter_absent(d, id);
        assert(b.last() == b[b.len() - 1]);
        assert(d.push(b.last()) =~= b);
    }
}

/// Dropping the identifier of the node at position `i`, in a bucket with
/// distinct identifiers, removes exactly that node.
proof fn lemma_filter_one(b: Seq<DhtNode>, id: u64, i: int)
    requires
        0 <= i < b.len(),
        b[i].node_id == id,
        forall|x: int, y: int|
            0 <= x < b.len() && 0 <= y < b.len() && x != y ==> #[trigger] b[x].node_id
                != #[trigger] b[y].node_id,
    ensures
        b.filter(id_differs(id)) == b.remove(i),
    decreases b.len(),
{
    reveal_with_fuel(Seq::<_>::filter, 1);
    let d = b.drop_last();
    let n = b.len() - 1;
    assert(b.last() == b[n]);
    if i == n {
        assert forall|x: int| 0 <= x < d.len() implies (#[trigger] d[x]).node_id != id by {
            assert(d[x] == b[x]);
        }
        lemma_filter_absent(d, id);
        assert(b.remove(i) =~= d);
    } else {
        assert forall|x: int, y: int|
            0 <= x < d.len() && 0 <= y < d.len() && x != y implies #[trigger] d[x].node_id
            != #[trigger] d[y].node_id by {
            assert(d[x] == b[x] && d[y] == b[y]);
        }
        assert(d[i] == b[i]);
        lemma_filter_one(d, id, i);
        assert(b[n].node_id != id);
        assert(d.remove(i).push(b[n]) =~= b.remove(i));
    }
}

/// DHT law: refreshing a known node moves it to the back of its bucket and
/// evicts nothing. In a bucket within capacity and without repeated
/// identifiers, adding a node whose identifier sits at position `i` gives the
/// bucket without that entry, the node appended, every other node kept in order.
pub proof fn law_refresh_moves_to_back(b: Seq<DhtNode>, node: DhtNode, k: int, i: int)
    requires
        b.len() <= k,
        forall|x: int, y: int|
            0 <= x < b.len() && 0 <= y < b.len() && x != y ==> #[trigger] b[x].node_id
                != #[trigger] b[y].node_id,
        0 <= i < b.len(),
        b[i].node_id == node.node_id,
    ensures
        bucket_after_add(b, node, k) == b.remove(i).push(node),
        bucket_after_add(b, node, k).len() == b.len(),
{
    lemma_filter_one(b, node.node_id, i);
}

/// DHT law: a new node is appended to its bucket, and the oldest node is
/// evicted only when the bucket was already full.
pub proof fn law_new_node_evicts_only_when_full(b: Seq<DhtNode>, node: DhtNode, k: int)
    requires
        b.len() <= k,
        forall|x: int| 0 <= x < b.len() ==> (#[trigger] b[x]).node_id != node.node_id,
    ensures
        b.len() < k ==> bucket_after_add(b, node, k) == b.push(node),
        b.len() == k ==> bucket_after_add(b, node, k) == b.push(node).drop_first(),
        bucket_after_add(b, node, k).len() <= k,
{
    lemma_filter_absent(b, node.node_id);
}

} // verus!
