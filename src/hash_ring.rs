//! Consistent-hash ring with virtual nodes.

use vstd::prelude::*;
use crate::hashing::{fnv1a64, fnv_hash, join_key, bytes_of, utf8, joined_key};

verus! {

/// Number of virtual nodes per physical node unless chosen otherwise.
pub const DEFAULT_VIRTUAL_NODES: usize = 150;

/// Bytes hashed for a string key: its UTF-8 bytes and a 0xff terminator,
/// as `str` hashing feeds them. The extra round spreads keys that differ
/// only in their last bytes (`node:0`, `node:1`, ...) over the ring; without
/// it, one of three nodes with 150 virtual nodes each gets 500 of 1000 shard
/// keys, outside the ±50% balance the ring is to keep.
pub open spec fn hashed_bytes(b: Seq<u8>) -> Seq<u8> {
    b.push(255u8)
}

/// Ring position of virtual node `i` of `node`.
pub open spec fn vnode_hash(node: Seq<char>, i: nat) -> u64 {
    fnv1a64(hashed_bytes(joined_key(utf8(node), i)))
}

/// Ring position of a lookup key.
pub open spec fn key_hash(key: Seq<char>) -> u64 {
    fnv1a64(hashed_bytes(utf8(key)))
}

/// Whether `h` is the position of one of the `v` virtual nodes of `node`.
pub open spec fn is_vnode_of(h: u64, node: Seq<char>, v: nat) -> bool {
    exists|i: nat| i < v && h == vnode_hash(node, i)
}

/// Positions strictly ascend along the ring.
pub open spec fn strictly_ascending(e: Seq<(u64, Seq<char>)>) -> bool {
    forall|a: int, b: int| 0 <= a < b < e.len() ==> e[a].0 < e[b].0
}

/// Index of the first entry at or after position `h`, scanning from `j`;
/// 0 (wrap-around) if there is none.
pub open spec fn successor_from(ring: Seq<(u64, Seq<char>)>, h: u64, j: int) -> int
    decreases ring.len() - j,
{
    if j < 0 || j >= ring.len() {
        0
    } else if ring[j].0 >= h {
        j
    } else {
        successor_from(ring, h, j + 1)
    }
}

/// The node that owns position `h`: the first entry clockwise from `h`.
pub open spec fn ring_owner(ring: Seq<(u64, Seq<char>)>, h: u64) -> Option<Seq<char>> {
    if ring.len() == 0 {
        None
    } else {
        Some(ring[successor_from(ring, h, 0)].1)
    }
}

/// Owner of shard `k` of a dataset: the key is `dataset || ":" || k`.
pub open spec fn shard_owner(ring: Seq<(u64, Seq<char>)>, dataset: Seq<char>, k: nat) -> Option<
    Seq<char>,
> {
    ring_owner(ring, fnv1a64(hashed_bytes(joined_key(utf8(dataset), k))))
}

/// Shards among the first `n` whose owner is `node`, ascending.
pub open spec fn shards_owned(
    ring: Seq<(u64, Seq<char>)>,
    node: Seq<char>,
    dataset: Seq<char>,
    n: nat,
) -> Seq<u64>
    decreases n,
{
    if n == 0 {
        Seq::empty()
    } else {
        let prev = shards_owned(ring, node, dataset, (n - 1) as nat);
        if shard_owner(ring, dataset, (n - 1) as nat) == Some(node) {
            prev.push((n - 1) as u64)
        } else {
            prev
        }
    }
}

/// Consistent hash ring mapping keys to nodes.
#[derive(Debug)]
pub struct ConsistentHash {
    /// Virtual-node positions, strictly ascending, each with its node.
    ring: Vec<(u64, String)>,
    /// Virtual nodes per physical node.
    virtual_nodes: usize,
    /// Physical nodes in order of addition.
    nodes: Vec<String>,
}

impl ConsistentHash {
    pub closed spec fn entries(&self) -> Seq<(u64, Seq<char>)> {
        self.ring@.map_values(|e: (u64, String)| (e.0, e.1@))
    }

    pub closed spec fn node_ids(&self) -> Seq<Seq<char>> {
        string_views(self.nodes@)
    }

    pub closed spec fn vnodes(&self) -> nat {
        self.virtual_nodes as nat
    }

    /// Positions are strictly ascending; nodes are distinct; every entry is a
    /// virtual node of a present node.
    pub open spec fn wf(&self) -> bool {
        let e = self.entries();
        let n = self.node_ids();
        &&& strictly_ascending(e)
        &&& forall|a: int, b: int| 0 <= a < b < n.len() ==> n[a] != n[b]
        &&& forall|a: int|
            0 <= a < e.len() ==> n.contains(#[trigger] e[a].1) && is_vnode_of(
                e[a].0,
                e[a].1,
                self.vnodes(),
            )
    }

    /// Creates an empty ring with the default number of virtual nodes.
    pub fn new() -> (r: Self)
        ensures
            r.wf(),
            r.entries().len() == 0,
            r.node_ids().len() == 0,
            r.vnodes() == DEFAULT_VIRTUAL_NODES,
    {
        Self::with_virtual_nodes(DEFAULT_VIRTUAL_NODES)
    }

    /// Creates an empty ring with `virtual_nodes` positions per node.
    pub fn with_virtual_nodes(virtual_nodes: usize) -> (r: Self)
        ensures
            r.wf(),
            r.entries().len() == 0,
            r.node_ids().len() == 0,
            r.vnodes() == virtual_nodes,
    {
        let r = ConsistentHash { ring: Vec::new(), virtual_nodes, nodes: Vec::new() };
        assert(r.entries() =~= Seq::empty());
        assert(r.node_ids() =~= Seq::empty());
        r
    }

    /// Index of the first entry at or after `h`, or the length if none is.
    fn lower_bound(&self, h: u64) -> (j: usize)
        requires
            strictly_ascending(self.entries()),
        ensures
            j <= self.entries().len(),
            forall|a: int| 0 <= a < j ==> self.entries()[a].0 < h,
            j < self.entries().len() ==> self.entries()[j as int].0 >= h,
            successor_from(self.entries(), h, 0) == if j < self.entries().len() {
                j as int
            } else {
                0
            },
    {
        let mut j: usize = 0;
        while j < self.ring.len() && self.ring[j].0 < h
            invariant
                j <= self.ring@.len(),
                successor_from(self.entries(), h, 0) == successor_from(self.entries(), h, j as int),
                forall|a: int| 0 <= a < j ==> self.entries()[a].0 < h,
            decreases self.ring@.len() - j,
        {
            j = j + 1;
        }
        j
    }

    /// Inserts `(h, node)`, replacing an entry at the same position.
    fn insert_entry(&mut self, h: u64, node: &str)
        requires
            strictly_ascending(old(self).entries()),
        ensures
            final(self).nodes == old(self).nodes,
            final(self).virtual_nodes == old(self).virtual_nodes,
            strictly_ascending(final(self).entries()),
            final(self).entries().contains((h, node@)),
            forall|e: (u64, Seq<char>)|
                #[trigger] final(self).entries().contains(e) ==> e == (h, node@) || (
                old(self).entries().contains(e) && e.0 != h),
            forall|e: (u64, Seq<char>)|
                #[trigger] old(self).entries().contains(e) && e.0 != h ==> final(self).entries().contains(e),
    {
        let ghost pre = self.entries();
        let j = self.lower_bound(h);
        let name = node.to_owned();
        if j < self.ring.len() && self.ring[j].0 == h {
            self.ring.set(j, (h, name));
            assert(self.entries() =~= pre.update(j as int, (h, node@)));
            assert(self.entries()[j as int] == (h, node@));
            assert forall|e: (u64, Seq<char>)| #[trigger] pre.contains(e) && e.0 != h implies self.entries().contains(e) by {
                let a = choose|a: int| 0 <= a < pre.len() && pre[a] == e;
                assert(self.entries()[a] == e);
            }
            assert forall|e: (u64, Seq<char>)| #[trigger] self.entries().contains(e) implies e == (h, node@) || (pre.contains(e) && e.0 != h) by {
                let a = choose|a: int| 0 <= a < self.entries().len() && self.entries()[a] == e;
                if a != j {
                    assert(pre[a] == e);
                    assert(strictly_ascending(pre));
                    if a < j {
                        assert(pre[a].0 < pre[j as int].0);
                    } else {
                        assert(pre[j as int].0 < pre[a].0);
                    }
                }
            }
        } else {
            assert(j < pre.len() ==> pre[j as int].0 > h);
            self.ring.insert(j, (h, name));
            assert(self.entries() =~= pre.insert(j as int, (h, node@)));
            assert(self.entries()[j as int] == (h, node@));
            assert forall|e: (u64, Seq<char>)| #[trigger] pre.contains(e) && e.0 != h implies self.entries().contains(e) by {
                let a = choose|a: int| 0 <= a < pre.len() && pre[a] == e;
                if a < j {
                    assert(self.entries()[a] == e);
                } else {
                    assert(self.entries()[a + 1] == e);
                }
            }
            assert forall|e: (u64, Seq<char>)| #[trigger] self.entries().contains(e) implies e == (h, node@) || (pre.contains(e) && e.0 != h) by {
                let a = choose|a: int| 0 <= a < self.entries().len() && self.entries()[a] == e;
                if a < j {
                    assert(pre[a] == e);
                } else if a > j {
                    assert(pre[a - 1] == e);
                    assert(pre[a - 1].0 >= pre[j as int].0);
                }
            }
        }
    }

    /// Whether `node` is a member of the ring.
    pub fn contains_node(&self, node: &str) -> (r: bool)
        ensures
            r == self.node_ids().contains(node@),
    {
        let name = node.to_owned();
        let mut i: usize = 0;
        while i < self.nodes.len()
            invariant
                name@ == node@,
                i <= self.nodes@.len(),
                forall|a: int| 0 <= a < i ==> self.node_ids()[a] != node@,
            decreases self.nodes@.len() - i,
        {
            if self.nodes[i] == name {
                assert(self.node_ids()[i as int] == node@);
                return true;
            }
            i = i + 1;
        }
        false
    }

    /// Removes the entry at position `h`, if any.
    fn remove_entry(&mut self, h: u64)
        requires
            strictly_ascending(old(self).entries()),
        ensures
            final(self).nodes == old(self).nodes,
            final(self).virtual_nodes == old(self).virtual_nodes,
            strictly_ascending(final(self).entries()),
            forall|e: (u64, Seq<char>)|
                #[trigger] final(self).entries().contains(e) <==> (old(self).entries().contains(e)
                    && e.0 != h),
    {
        let ghost pre = self.entries();
        let j = self.lower_bound(h);
        proof {
            assert(strictly_ascending(pre));
        }
        if j < self.ring.len() && self.ring[j].0 == h {
            self.ring.remove(j);
            assert(self.entries() =~= pre.remove(j as int));
            assert forall|e: (u64, Seq<char>)| #[trigger] self.entries().contains(e) <==> (pre.contains(e) && e.0 != h) by {
                if self.entries().contains(e) {
                    let a = choose|a: int| 0 <= a < self.entries().len() && self.entries()[a] == e;
                    if a < j {
                        assert(pre[a] == e);
                        assert(pre[a].0 < pre[j as int].0);
                    } else {
                        assert(pre[a + 1] == e);
                        assert(pre[j as int].0 < pre[a + 1].0);
                    }
                }
                if pre.contains(e) && e.0 != h {
                    let a = choose|a: int| 0 <= a < pre.len() && pre[a] == e;
                    if a < j {
                        assert(self.entries()[a] == e);
                    } else {
                        assert(a != j);
                        assert(self.entries()[a - 1] == e);
                    }
                }
            }
        } else {
            assert forall|e: (u64, Seq<char>)| #[trigger] pre.contains(e) implies e.0 != h by {
                let a = choose|a: int| 0 <= a < pre.len() && pre[a] == e;
                if a > j {
                    assert(pre[j as int].0 < pre[a].0);
                }
            }
        }
    }

    /// Adds a node with its virtual nodes; adding a present node changes nothing.
    pub fn add_node(&mut self, node: &str)
        requires
            old(self).wf(),
        ensures
            final(self).wf(),
            final(self).vnodes() == old(self).vnodes(),
            old(self).node_ids().contains(node@) ==> *final(self) == *old(self),
            !old(self).node_ids().contains(node@) ==> {
                &&& final(self).node_ids() == old(self).node_ids().push(node@)
                &&& forall|i: nat| i < old(self).vnodes() ==> final(self).entries().contains(
                    (#[trigger] vnode_hash(node@, i), node@),
                )
                &&& forall|e: (u64, Seq<char>)| #[trigger]
                    final(self).entries().contains(e) ==> (e.1 == node@ && is_vnode_of(
                        e.0,
                        node@,
                        old(self).vnodes(),
                    )) || (old(self).entries().contains(e) && !is_vnode_of(
                        e.0,
                        node@,
                        old(self).vnodes(),
                    ))
                &&& forall|e: (u64, Seq<char>)| #[trigger]
                    old(self).entries().contains(e) && !is_vnode_of(e.0, node@, old(self).vnodes())
                        ==> final(self).entries().contains(e)
            },
    {
        if self.contains_node(node) {
            return;
        }
        let ghost pre = self.entries();
        let ghost pre_nodes = self.node_ids();
        let v = self.virtual_nodes;
        self.nodes.push(node.to_owned());
        assert(self.node_ids() =~= pre_nodes.push(node@));
        let mut i: usize = 0;
        while i < v
            invariant
                v == self.virtual_nodes,
                i <= v,
                self.node_ids() == pre_nodes.push(node@),
                strictly_ascending(self.entries()),
                forall|a: int| 0 <= a < pre.len() ==> pre_nodes.contains(#[trigger] pre[a].1) && is_vnode_of(pre[a].0, pre[a].1, v as nat),
                forall|k: nat| k < i ==> self.entries().contains((#[trigger] vnode_hash(node@, k), node@)),
                forall|e: (u64, Seq<char>)| #[trigger] self.entries().contains(e) ==> (e.1 == node@ && is_vnode_of(e.0, node@, i as nat)) || (pre.contains(e) && !is_vnode_of(e.0, node@, i as nat)),
                forall|e: (u64, Seq<char>)| #[trigger] pre.contains(e) && !is_vnode_of(e.0, node@, i as nat) ==> self.entries().contains(e),
            decreases v - i,
        {
            let mut key = join_key(node, i as u64);
            key.push(255u8);
            let h = fnv_hash(key.as_slice());
            let ghost mid = self.entries();
            self.insert_entry(h, node);
            proof {
                assert(h == vnode_hash(node@, i as nat));
                assert forall|k: nat| k < i + 1 implies self.entries().contains((#[trigger] vnode_hash(node@, k), node@)) by {
                    if k < i {
                        let hk = vnode_hash(node@, k);
                        assert(mid.contains((hk, node@)));
                        if hk == h {
                        } else {
                            assert(self.entries().contains((hk, node@)));
                        }
                    }
                }
                assert forall|e: (u64, Seq<char>)| #[trigger] self.entries().contains(e) implies (e.1 == node@ && is_vnode_of(e.0, node@, (i + 1) as nat)) || (pre.contains(e) && !is_vnode_of(e.0, node@, (i + 1) as nat)) by {
                    if e == (h, node@) {
                        assert(is_vnode_of(e.0, node@, (i + 1) as nat));
                    } else {
                        assert(mid.contains(e) && e.0 != h);
                        if e.1 == node@ && is_vnode_of(e.0, node@, i as nat) {
                            let w = choose|w: nat| w < i && e.0 == vnode_hash(node@, w);
                            assert(is_vnode_of(e.0, node@, (i + 1) as nat));
                        } else {
                            assert(pre.contains(e) && !is_vnode_of(e.0, node@, i as nat));
                            if is_vnode_of(e.0, node@, (i + 1) as nat) {
                                let w = choose|w: nat| w < i + 1 && e.0 == vnode_hash(node@, w);
                                if w < i {
                                    assert(is_vnode_of(e.0, node@, i as nat));
                                }
                            }
                        }
                    }
                }
                assert forall|e: (u64, Seq<char>)| #[trigger] pre.contains(e) && !is_vnode_of(e.0, node@, (i + 1) as nat) implies self.entries().contains(e) by {
                    if is_vnode_of(e.0, node@, i as nat) {
                        let w = choose|w: nat| w < i && e.0 == vnode_hash(node@, w);
                        assert(is_vnode_of(e.0, node@, (i + 1) as nat));
                    }
                    assert(mid.contains(e));
                    assert(e.0 != h);
                }
            }
            i = i + 1;
        }
        proof {
            let e = self.entries();
            let n = self.node_ids();
            assert forall|a: int| 0 <= a < e.len() implies n.contains(#[trigger] e[a].1) && is_vnode_of(e[a].0, e[a].1, self.vnodes()) by {
                assert(e.contains(e[a]));
                if e[a].1 == node@ && is_vnode_of(e[a].0, node@, v as nat) {
                    assert(n[n.len() - 1] == node@);
                } else {
                    let b = choose|b: int| 0 <= b < pre.len() && pre[b] == e[a];
                    let c = choose|c: int| 0 <= c < pre_nodes.len() && pre_nodes[c] == pre[b].1;
                    assert(n[c] == pre_nodes[c]);
                }
            }
            assert forall|a: int, b: int| 0 <= a < b < n.len() implies n[a] != n[b] by {
                if b == n.len() - 1 {
                    assert(pre_nodes[a] == n[a]);
                }
            }
        }
    }

    /// Removes a node: all its virtual positions leave the ring.
    pub fn remove_node(&mut self, node: &str)
        requires
            old(self).wf(),
        ensures
            final(self).wf(),
            final(self).vnodes() == old(self).vnodes(),
            forall|e: (u64, Seq<char>)| #[trigger]
                final(self).entries().contains(e) <==> (old(self).entries().contains(e)
                    && !is_vnode_of(e.0, node@, old(self).vnodes())),
            forall|n: Seq<char>| #[trigger]
                final(self).node_ids().contains(n) <==> (old(self).node_ids().contains(n) && n
                    != node@),
    {
        let ghost pre = self.entries();
        let ghost pre_nodes = self.node_ids();
        let v = self.virtual_nodes;
        let mut i: usize = 0;
        while i < v
            invariant
                v == self.virtual_nodes,
                i <= v,
                self.nodes == old(self).nodes,
                strictly_ascending(self.entries()),
                forall|e: (u64, Seq<char>)| #[trigger] self.entries().contains(e) <==> (pre.contains(e) && !is_vnode_of(e.0, node@, i as nat)),
            decreases v - i,
        {
            let mut key = join_key(node, i as u64);
            key.push(255u8);
            let h = fnv_hash(key.as_slice());
            let ghost mid = self.entries();
            self.remove_entry(h);
            proof {
                assert(h == vnode_hash(node@, i as nat));
                assert forall|e: (u64, Seq<char>)| #[trigger] self.entries().contains(e) <==> (pre.contains(e) && !is_vnode_of(e.0, node@, (i + 1) as nat)) by {
                    if is_vnode_of(e.0, node@, (i + 1) as nat) && e.0 != h {
                        let w = choose|w: nat| w < i + 1 && e.0 == vnode_hash(node@, w);
                        assert(is_vnode_of(e.0, node@, i as nat));
                    }
                    if is_vnode_of(e.0, node@, i as nat) {
                        let w = choose|w: nat| w < i && e.0 == vnode_hash(node@, w);
                        assert(is_vnode_of(e.0, node@, (i + 1) as nat));
                    }
                }
            }
            i = i + 1;
        }
        let name = node.to_owned();
        let mut kept: Vec<String> = Vec::new();
        let mut k: usize = 0;
        while k < self.nodes.len()
            invariant
                name@ == node@,
                k <= self.nodes@.len(),
                self.node_ids() == pre_nodes,
                forall|a: int, b: int| 0 <= a < b < pre_nodes.len() ==> pre_nodes[a] != pre_nodes[b],
                forall|n: Seq<char>| #[trigger] string_views(kept@).contains(n) <==> (pre_nodes.subrange(0, k as int).contains(n) && n != node@),
                forall|a: int, b: int| 0 <= a < b < kept@.len() ==> kept@[a]@ != kept@[b]@,
                forall|a: int| 0 <= a < kept@.len() ==> pre_nodes.subrange(0, k as int).contains(#[trigger] kept@[a]@),
            decreases self.nodes@.len() - k,
        {
            let ghost before = string_views(kept@);
            let ghost sub = pre_nodes.subrange(0, k as int);
            let ghost sub1 = pre_nodes.subrange(0, k + 1);
            assert(sub1 =~= sub.push(pre_nodes[k as int]));
            if self.nodes[k] != name {
                let c = self.nodes[k].clone();
                kept.push(c);
                proof {
                    assert(string_views(kept@) =~= before.push(pre_nodes[k as int]));
                }
            } else {
                proof {
                    assert(string_views(kept@) == before);
                }
            }
            proof {
                let now = string_views(kept@);
                assert forall|n: Seq<char>| #[trigger] now.contains(n) <==> (sub1.contains(n) && n != node@) by {
                    if now.contains(n) {
                        let a = choose|a: int| 0 <= a < now.len() && now[a] == n;
                        if a < before.len() {
                            assert(before[a] == n);
                            assert(before.contains(n));
                            let b = choose|b: int| 0 <= b < sub.len() && sub[b] == n;
                            assert(sub1[b] == n);
                        } else {
                            assert(sub1[k as int] == n);
                        }
                    }
                    if sub1.contains(n) && n != node@ {
                        let b = choose|b: int| 0 <= b < sub1.len() && sub1[b] == n;
                        if b < k {
                            assert(sub[b] == n);
                            assert(before.contains(n));
                            let a = choose|a: int| 0 <= a < before.len() && before[a] == n;
                            assert(now[a] == n);
                        } else {
                            assert(now[now.len() - 1] == n);
                        }
                    }
                }
                assert forall|a: int| 0 <= a < kept@.len() implies sub1.contains(#[trigger] kept@[a]@) by {
                    assert(now[a] == kept@[a]@);
                    assert(now.contains(kept@[a]@));
                }
                assert forall|a: int, b: int| 0 <= a < b < kept@.len() implies kept@[a]@ != kept@[b]@ by {
                    if b >= before.len() {
                        assert(before[a] == kept@[a]@);
                        assert(sub.contains(kept@[a]@));
                        let c2 = choose|c2: int| 0 <= c2 < sub.len() && sub[c2] == kept@[a]@;
                        assert(pre_nodes[c2] == kept@[a]@);
                        assert(kept@[b]@ == pre_nodes[k as int]);
                    }
                }
            }
            k = k + 1;
        }
        self.nodes = kept;
        proof {
            assert(pre_nodes.subrange(0, pre_nodes.len() as int) =~= pre_nodes);
            let e = self.entries();
            let n = self.node_ids();
            assert forall|a: int| 0 <= a < e.len() implies n.contains(#[trigger] e[a].1) && is_vnode_of(e[a].0, e[a].1, self.vnodes()) by {
                assert(e.contains(e[a]));
                let b = choose|b: int| 0 <= b < pre.len() && pre[b] == e[a];
                assert(pre_nodes.contains(pre[b].1));
                if e[a].1 == node@ {
                    assert(is_vnode_of(e[a].0, node@, v as nat));
                }
            }
        }
    }

    /// The owner of ring position `h`: the node of the first entry at or
    /// after `h`, wrapping to the lowest; `None` on an empty ring.
    pub fn owner_of(&self, h: u64) -> (r: Option<String>)
        requires
            self.wf(),
        ensures
            opt_view(r) == ring_owner(self.entries(), h),
            r is Some ==> self.node_ids().contains(r->Some_0@),
    {
        if self.ring.len() == 0 {
            return None;
        }
        let j = self.lower_bound(h);
        let idx = if j < self.ring.len() {
            j
        } else {
            0
        };
        proof {
            let e = self.entries();
            assert(e[idx as int] == (self.ring@[idx as int].0, self.ring@[idx as int].1@));
            assert(self.node_ids().contains(e[idx as int].1));
        }
        Some(self.ring[idx].1.clone())
    }

    /// The node responsible for `key`, or `None` on an empty ring.
    pub fn get_node(&self, key: &str) -> (r: Option<String>)
        requires
            self.wf(),
        ensures
            opt_view(r) == ring_owner(self.entries(), key_hash(key@)),
            r is Some ==> self.node_ids().contains(r->Some_0@),
            r is None <==> self.entries().len() == 0,
    {
        let mut bytes = bytes_of(key);
        bytes.push(255u8);
        let h = fnv_hash(bytes.as_slice());
        self.owner_of(h)
    }

    /// The node responsible for shard `shard_id` of `dataset_id`.
    pub fn get_node_for_shard(&self, dataset_id: &str, shard_id: u64) -> (r: Option<String>)
        requires
            self.wf(),
        ensures
            opt_view(r) == shard_owner(self.entries(), dataset_id@, shard_id as nat),
    {
        let mut key = join_key(dataset_id, shard_id);
        key.push(255u8);
        let h = fnv_hash(key.as_slice());
        self.owner_of(h)
    }

    /// Shards in `[0, total_shards)` owned by `node_id`, ascending.
    pub fn get_shards_for_node(&self, node_id: &str, dataset_id: &str, total_shards: u64) -> (r:
        Vec<u64>)
        requires
            self.wf(),
        ensures
            r@ == shards_owned(self.entries(), node_id@, dataset_id@, total_shards as nat),
            forall|i: int| 0 <= i < r@.len() ==> #[trigger] r@[i] < total_shards,
    {
        let name = node_id.to_owned();
        let mut r: Vec<u64> = Vec::new();
        let mut k: u64 = 0;
        while k < total_shards
            invariant
                self.wf(),
                name@ == node_id@,
                k <= total_shards,
                r@ == shards_owned(self.entries(), node_id@, dataset_id@, k as nat),
                forall|i: int| 0 <= i < r@.len() ==> #[trigger] r@[i] < k,
            decreases total_shards - k,
        {
            let owner = self.get_node_for_shard(dataset_id, k);
            match owner {
                Some(o) => {
                    if o == name {
                        r.push(k);
                    }
                },
                None => {},
            }
            k = k + 1;
        }
        r
    }

    /// Number of physical nodes.
    pub fn node_count(&self) -> (r: usize)
        ensures
            r == self.node_ids().len(),
    {
        self.nodes.len()
    }

    /// The physical nodes, in order of addition.
    pub fn nodes(&self) -> (r: Vec<String>)
        ensures
            string_views(r@) == self.node_ids(),
    {
        let mut r: Vec<String> = Vec::new();
        let mut i: usize = 0;
        while i < self.nodes.len()
            invariant
                i <= self.nodes@.len(),
                string_views(r@) == string_views(self.nodes@).subrange(0, i as int),
            decreases self.nodes@.len() - i,
        {
            let c = self.nodes[i].clone();
            let ghost prev = r@;
            r.push(c);
            proof {
                assert(r@ == prev.push(c));
                assert(string_views(r@) =~= string_views(prev).push(c@));
                assert(c@ == string_views(self.nodes@)[i as int]);
            }
            i = i + 1;
            assert(string_views(r@) =~= string_views(self.nodes@).subrange(0, i as int));
        }
        assert(self.node_ids().subrange(0, i as int) =~= self.node_ids());
        r
    }

    /// Removes every node.
    pub fn clear(&mut self)
        ensures
            final(self).wf(),
            final(self).entries().len() == 0,
            final(self).node_ids().len() == 0,
            final(self).vnodes() == old(self).vnodes(),
    {
        self.ring.clear();
        self.nodes.clear();
        assert(self.entries() =~= Seq::empty());
        assert(self.node_ids() =~= Seq::empty());
    }
}

/// Snapshot of a ring: its nodes in order of addition and the virtual-node count.
#[derive(Debug, Clone)]
pub struct ConsistentHashState {
    pub nodes: Vec<String>,
    pub virtual_nodes: usize,
}

impl ConsistentHash {
    /// The snapshot of this ring.
    pub fn state(&self) -> (r: ConsistentHashState)
        ensures
            string_views(r.nodes@) == self.node_ids(),
            r.virtual_nodes == self.vnodes(),
    {
        ConsistentHashState { nodes: self.nodes(), virtual_nodes: self.virtual_nodes }
    }

    /// Rebuilds a ring from a snapshot by adding its nodes in order.
    pub fn from_state(state: &ConsistentHashState) -> (r: Self)
        ensures
            r.wf(),
            r.vnodes() == state.virtual_nodes,
            forall|n: Seq<char>| #[trigger] r.node_ids().contains(n) <==> string_views(state.nodes@).contains(n),
    {
        let mut r = ConsistentHash::with_virtual_nodes(state.virtual_nodes);
        let mut i: usize = 0;
        while i < state.nodes.len()
            invariant
                r.wf(),
                r.vnodes() == state.virtual_nodes,
                i <= state.nodes@.len(),
                forall|n: Seq<char>| #[trigger] r.node_ids().contains(n) <==> string_views(state.nodes@).subrange(0, i as int).contains(n),
            decreases state.nodes@.len() - i,
        {
            let ghost before = r.node_ids();
            r.add_node(state.nodes[i].as_str());
            proof {
                let sv = string_views(state.nodes@);
                let s0 = sv.subrange(0, i as int);
                let s1 = sv.subrange(0, i + 1);
                assert(s1 =~= s0.push(state.nodes@[i as int]@));
                assert forall|n: Seq<char>| #[trigger] r.node_ids().contains(n) <==> s1.contains(n) by {
                    if before.contains(state.nodes@[i as int]@) {
                    } else {
                        assert(r.node_ids() == before.push(state.nodes@[i as int]@));
                        if r.node_ids().contains(n) && n != state.nodes@[i as int]@ {
                            let q = choose|q: int| 0 <= q < r.node_ids().len() && r.node_ids()[q] == n;
                            assert(before[q] == n);
                        }
                        if n == state.nodes@[i as int]@ {
                            assert(r.node_ids()[before.len() as int] == n);
                        }
                        if before.contains(n) {
                            let q = choose|q: int| 0 <= q < before.len() && before[q] == n;
                            assert(r.node_ids()[q] == n);
                        }
                    }
                    if s1.contains(n) && n != state.nodes@[i as int]@ {
                        let q = choose|q: int| 0 <= q < s1.len() && s1[q] == n;
                        assert(s0[q] == n);
                    }
                    if s0.contains(n) {
                        let q = choose|q: int| 0 <= q < s0.len() && s0[q] == n;
                        assert(s1[q] == n);
                    }
                    if n == state.nodes@[i as int]@ {
                        assert(s1[i as int] == n);
                    }
                }
            }
            i = i + 1;
        }
        assert(string_views(state.nodes@).subrange(0, i as int) =~= string_views(state.nodes@));
        r
    }
}

/// Views of a sequence of strings.
pub open spec fn string_views(v: Seq<String>) -> Seq<Seq<char>> {
    v.map_values(|x: String| x@)
}

/// View of an optional string.
pub open spec fn opt_view(r: Option<String>) -> Option<Seq<char>> {
    match r {
        Some(s) => Some(s@),
        None => None,
    }
}

} // verus!
