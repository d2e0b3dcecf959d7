//! Per-epoch deterministic shuffling of shard ids and the round-robin cut.

use vstd::prelude::*;
use crate::hashing::{fnv1a64, fnv_hash, le_bytes, push_le, utf8, bytes_of};

verus! {

/// What ChaCha8 seeded with `seed` (via `seed_from_u64`) and rand's
/// slice shuffle make of `items`.
pub uninterp spec fn chacha8_shuffle(items: Seq<u64>, seed: u64) -> Seq<u64>;

/// `p` is a bijection from `[0, n)` onto itself.
pub open spec fn is_index_bijection(p: Seq<int>, n: nat) -> bool {
    &&& p.len() == n
    &&& forall|i: int| 0 <= i < n ==> 0 <= #[trigger] p[i] < n
    &&& forall|i: int, j: int| 0 <= i < j < n ==> p[i] != p[j]
    &&& forall|k: int| 0 <= k < n ==> #[trigger] hits(p, k)
}

/// Some place of `p` holds `k`.
pub open spec fn hits(p: Seq<int>, k: int) -> bool {
    exists|i: int| 0 <= i < p.len() && #[trigger] p[i] == k
}

/// `b` holds the items of `a`, moved to other places.
pub open spec fn is_rearrangement(a: Seq<u64>, b: Seq<u64>) -> bool {
    exists|p: Seq<int>|
        is_index_bijection(p, a.len()) && b.len() == a.len() && forall|i: int|
            0 <= i < b.len() ==> #[trigger] b[i] == a[p[i]]
}

/// Relies on rand_chacha::ChaCha8Rng::seed_from_u64 and rand's
/// SliceRandom::shuffle: a generator seeded the same way swaps the same
/// places, so the result depends on the items and the seed alone, and
/// swapping only moves items.
#[verifier::external_body]
fn shuffle_seeded(items: &mut Vec<u64>, seed: u64)
    ensures
        final(items)@ == chacha8_shuffle(old(items)@, seed),
        is_rearrangement(old(items)@, final(items)@),
{
    let mut rng = <rand_chacha::ChaCha8Rng as rand::SeedableRng>::seed_from_u64(seed);
    rand::seq::SliceRandom::shuffle(items.as_mut_slice(), &mut rng);
}

/// Relies on rand::random: a fresh seed; nothing is known of its value.
#[verifier::external_body]
fn random_seed() -> (r: u64) {
    rand::random::<u64>()
}

/// `0, 1, ..., n - 1`.
pub open spec fn ids_upto(n: nat) -> Seq<u64> {
    Seq::new(n, |i: int| i as u64)
}

/// `s` lists every id of `[0, n)` exactly once.
pub open spec fn is_range_permutation(s: Seq<u64>, n: nat) -> bool {
    &&& s.len() == n
    &&& forall|i: int| 0 <= i < n ==> #[trigger] s[i] < n
    &&& forall|i: int, j: int| 0 <= i < j < n ==> s[i] != s[j]
    &&& forall|k: u64| k < n ==> #[trigger] s.contains(k)
}

/// Seed of one (dataset, epoch): the hash of the base seed, the dataset id
/// and the epoch.
pub open spec fn epoch_seed(base_seed: u64, dataset: Seq<char>, epoch: u64) -> u64 {
    fnv1a64(le_bytes(base_seed as nat, 8) + utf8(dataset) + le_bytes(epoch as nat, 8))
}

/// The shuffled order of the shard ids of one dataset in one epoch.
pub open spec fn shuffled_order(base_seed: u64, dataset: Seq<char>, epoch: u64, n: nat) -> Seq<
    u64,
> {
    chacha8_shuffle(ids_upto(n), epoch_seed(base_seed, dataset, epoch))
}

/// The items of `order` among its first `n` whose index is `rank` modulo `world`.
pub open spec fn round_robin(order: Seq<u64>, rank: nat, world: nat, n: nat) -> Seq<u64>
    decreases n,
{
    if n == 0 || world == 0 {
        Seq::empty()
    } else {
        let prev = round_robin(order, rank, world, (n - 1) as nat);
        if (n - 1) % (world as int) == rank {
            prev.push(order[n - 1])
        } else {
            prev
        }
    }
}

/// The shards of worker `rank` of `world`: a round-robin cut of `order`.
pub open spec fn worker_cut(order: Seq<u64>, rank: nat, world: nat) -> Seq<u64> {
    round_robin(order, rank, world, order.len())
}

/// What a rearrangement of `[0, n)` lists is a permutation of that range.
proof fn lemma_rearranged_range(n: nat, b: Seq<u64>)
    requires
        is_rearrangement(ids_upto(n), b),
        n <= u64::MAX,
    ensures
        is_range_permutation(b, n),
{
    let a = ids_upto(n);
    let p = choose|p: Seq<int>|
        is_index_bijection(p, a.len()) && b.len() == a.len() && forall|i: int|
            0 <= i < b.len() ==> #[trigger] b[i] == a[p[i]];
    assert forall|i: int| 0 <= i < n implies #[trigger] b[i] < n by {
        assert(b[i] == a[p[i]]);
    }
    assert forall|i: int, j: int| 0 <= i < j < n implies b[i] != b[j] by {
        assert(b[i] == a[p[i]]);
        assert(b[j] == a[p[j]]);
        assert(0 <= p[i] < n && 0 <= p[j] < n);
        assert(a[p[i]] == p[i] as u64);
        assert(a[p[j]] == p[j] as u64);
    }
    assert forall|k: u64| k < n implies #[trigger] b.contains(k) by {
        assert(hits(p, k as int));
        let i = choose|i: int| 0 <= i < p.len() && #[trigger] p[i] == k as int;
        assert(b[i] == a[p[i]]);
    }
}

/// Membership in a round-robin cut.
proof fn lemma_round_robin_contains(order: Seq<u64>, rank: nat, world: nat, n: nat, x: u64)
    requires
        world > 0,
        n <= order.len(),
    ensures
        round_robin(order, rank, world, n).contains(x) <==> exists|i: int|
            0 <= i < n && i % (world as int) == rank && #[trigger] order[i] == x,
    decreases n,
{
    if n > 0 {
        let prev = round_robin(order, rank, world, (n - 1) as nat);
        lemma_round_robin_contains(order, rank, world, (n - 1) as nat, x);
        let cur = round_robin(order, rank, world, n);
        if (n - 1) % (world as int) == rank {
            assert(cur == prev.push(order[n - 1]));
            if cur.contains(x) {
                let j = choose|j: int| 0 <= j < cur.len() && cur[j] == x;
                if j < prev.len() {
                    assert(prev[j] == x);
                    assert(prev.contains(x));
                }
            }
            if exists|i: int| 0 <= i < n && i % (world as int) == rank && #[trigger] order[i] == x {
                let i = choose|i: int| 0 <= i < n && i % (world as int) == rank && #[trigger] order[i] == x;
                if i < n - 1 {
                    let j = choose|j: int| 0 <= j < prev.len() && prev[j] == x;
                    assert(cur[j] == x);
                } else {
                    assert(cur[cur.len() - 1] == x);
                }
            }
        } else {
            if exists|i: int| 0 <= i < n && i % (world as int) == rank && #[trigger] order[i] == x {
                let i = choose|i: int| 0 <= i < n && i % (world as int) == rank && #[trigger] order[i] == x;
                assert(i < n - 1);
            }
        }
    }
}

/// The cuts of all ranks partition the shards: when `order` lists each id of
/// `[0, n)` once, every id lies in the cut of exactly one rank below `world`,
/// and each cut holds ids of `[0, n)` only.
pub proof fn lemma_worker_cuts_partition(order: Seq<u64>, n: nat, world: nat)
    requires
        is_range_permutation(order, n),
        world > 0,
    ensures
        forall|k: u64| k < n ==> #[trigger] worker_cut(order, (k_index(order, k) % (world as int)) as nat, world).contains(k),
        forall|r1: nat, r2: nat, k: u64|
            r1 < world && r2 < world && #[trigger] worker_cut(order, r1, world).contains(k)
                && #[trigger] worker_cut(order, r2, world).contains(k) ==> r1 == r2,
        forall|r: nat, k: u64| #[trigger] worker_cut(order, r, world).contains(k) ==> k < n,
{
    assert forall|k: u64| k < n implies #[trigger] worker_cut(order, (k_index(order, k) % (world as int)) as nat, world).contains(k) by {
        assert(order.contains(k));
        let i = k_index(order, k);
        lemma_round_robin_contains(order, (i % (world as int)) as nat, world, n, k);
        assert(order[i] == k);
    }
    assert forall|r1: nat, r2: nat, k: u64|
        r1 < world && r2 < world && #[trigger] worker_cut(order, r1, world).contains(k)
            && #[trigger] worker_cut(order, r2, world).contains(k) implies r1 == r2 by {
        lemma_round_robin_contains(order, r1, world, n, k);
        lemma_round_robin_contains(order, r2, world, n, k);
        let i1 = choose|i: int| 0 <= i < n && i % (world as int) == r1 && #[trigger] order[i] == k;
        let i2 = choose|i: int| 0 <= i < n && i % (world as int) == r2 && #[trigger] order[i] == k;
        if i1 < i2 {
            assert(order[i1] != order[i2]);
        } else if i2 < i1 {
            assert(order[i2] != order[i1]);
        }
    }
    assert forall|r: nat, k: u64| #[trigger] worker_cut(order, r, world).contains(k) implies k < n by {
        lemma_round_robin_contains(order, r, world, n, k);
        let i = choose|i: int| 0 <= i < n && i % (world as int) == r && #[trigger] order[i] == k;
        assert(order[i] < n);
    }
}

/// With fewer shards than workers, a rank at or above the shard count gets
/// an empty cut (while the cuts still partition the shards).
pub proof fn lemma_high_ranks_get_nothing(order: Seq<u64>, n: nat, world: nat, rank: nat)
    requires
        is_range_permutation(order, n),
        n < world,
        n <= rank < world,
    ensures
        worker_cut(order, rank, world).len() == 0,
{
    let cut = worker_cut(order, rank, world);
    if cut.len() > 0 {
        let x = cut[0];
        assert(cut.contains(x));
        lemma_round_robin_contains(order, rank, world, n, x);
        let i = choose|i: int| 0 <= i < n && i % (world as int) == rank && #[trigger] order[i] == x;
        assert(i % (world as int) == i) by {
            vstd::arithmetic::div_mod::lemma_small_mod(i as nat, world);
        }
    }
}

/// The place of `k` in `order`.
pub open spec fn k_index(order: Seq<u64>, k: u64) -> int {
    choose|i: int| 0 <= i < order.len() && order[i] == k
}

} // verus!

verus! {

/// One memoized order.
#[derive(Debug)]
struct CachedOrder {
    seed: u64,
    dataset: String,
    epoch: u64,
    order: Vec<u64>,
}

/// Tracks the epoch of each dataset and produces the per-epoch shuffles.
#[derive(Debug)]
pub struct EpochCoordinator {
    /// Current epoch per dataset; dataset ids are distinct.
    epochs: Vec<(String, u64)>,
    /// Base seed of every shuffle.
    base_seed: u64,
    /// Memoized orders by (dataset, epoch, shard count).
    shuffle_cache: Vec<CachedOrder>,
}

/// Views of (dataset, epoch) pairs.
pub open spec fn epoch_views(s: Seq<(String, u64)>) -> Seq<(Seq<char>, u64)> {
    s.map_values(|e: (String, u64)| (e.0@, e.1))
}

/// The epoch recorded for `dataset` in `e`, 0 if none is.
pub open spec fn epoch_in(e: Seq<(Seq<char>, u64)>, dataset: Seq<char>) -> u64 {
    if exists|i: int| 0 <= i < e.len() && e[i].0 == dataset {
        e[choose|i: int| 0 <= i < e.len() && e[i].0 == dataset].1
    } else {
        0
    }
}

impl EpochCoordinator {
    pub closed spec fn epoch_entries(&self) -> Seq<(Seq<char>, u64)> {
        epoch_views(self.epochs@)
    }

    pub closed spec fn seed(&self) -> u64 {
        self.base_seed
    }

    /// The epoch of a dataset: the recorded one, or 0.
    pub open spec fn epoch_of(&self, dataset: Seq<char>) -> u64 {
        epoch_in(self.epoch_entries(), dataset)
    }

    /// Whether an order for (dataset, epoch) is memoized.
    pub closed spec fn cached(&self, dataset: Seq<char>, epoch: u64) -> bool {
        exists|i: int|
            0 <= i < self.shuffle_cache@.len() && self.shuffle_cache@[i].dataset@ == dataset
                && self.shuffle_cache@[i].epoch == epoch
    }

    /// Dataset ids are distinct; every memoized order is the shuffle of its key.
    pub closed spec fn wf(&self) -> bool {
        &&& forall|a: int, b: int|
            0 <= a < b < self.epochs@.len() ==> self.epochs@[a].0@ != self.epochs@[b].0@
        &&& forall|i: int|
            0 <= i < self.shuffle_cache@.len() ==> {
                let c = #[trigger] self.shuffle_cache@[i];
                &&& c.order@ == shuffled_order(
                    c.seed,
                    c.dataset@,
                    c.epoch,
                    c.order@.len(),
                )
                &&& is_range_permutation(c.order@, c.order@.len())
            }
    }

    /// A coordinator with a random base seed.
    pub fn new() -> (r: Self)
        ensures
            r.wf(),
            r.epoch_entries().len() == 0,
    {
        Self::with_seed(random_seed())
    }

    /// A coordinator with a given base seed, for reproducible shuffles.
    pub fn with_seed(seed: u64) -> (r: Self)
        ensures
            r.wf(),
            r.seed() == seed,
            r.epoch_entries().len() == 0,
            forall|d: Seq<char>, e: u64| !#[trigger] r.cached(d, e),
    {
        let r = EpochCoordinator { epochs: Vec::new(), base_seed: seed, shuffle_cache: Vec::new() };
        assert(r.epoch_entries() =~= Seq::empty());
        r
    }

    /// Index of the entry of `dataset`, if any.
    fn find_epoch(&self, dataset: &str) -> (r: Option<usize>)
        requires
            self.wf(),
        ensures
            match r {
                Some(i) => i < self.epochs@.len() && self.epoch_entries()[i as int].0 == dataset@
                    && self.epoch_of(dataset@) == self.epoch_entries()[i as int].1,
                None => forall|i: int|
                    0 <= i < self.epochs@.len() ==> self.epoch_entries()[i].0 != dataset@,
            },
            r is None ==> self.epoch_of(dataset@) == 0,
    {
        let name = dataset.to_owned();
        let mut i: usize = 0;
        while i < self.epochs.len()
            invariant
                self.wf(),
                name@ == dataset@,
                i <= self.epochs@.len(),
                forall|a: int| 0 <= a < i ==> self.epoch_entries()[a].0 != dataset@,
            decreases self.epochs@.len() - i,
        {
            if self.epochs[i].0 == name {
                proof {
                    let e = self.epoch_entries();
                    assert(e[i as int].0 == dataset@);
                    let c = choose|c: int| 0 <= c < e.len() && e[c].0 == dataset@;
                    if c != i {
                        if c < i {
                            assert(self.epochs@[c].0@ != self.epochs@[i as int].0@);
                        } else {
                            assert(self.epochs@[i as int].0@ != self.epochs@[c].0@);
                        }
                    }
                }
                return Some(i);
            }
            i = i + 1;
        }
        None
    }

    /// The current epoch of a dataset (0 if it has none yet).
    pub fn current_epoch(&self, dataset_id: &str) -> (r: u64)
        requires
            self.wf(),
        ensures
            r == self.epoch_of(dataset_id@),
    {
        match self.find_epoch(dataset_id) {
            Some(i) => self.epochs[i].1,
            None => 0,
        }
    }

    /// Sets the epoch of a dataset.
    pub fn init_epoch(&mut self, dataset_id: &str, epoch: u64)
        requires
            old(self).wf(),
        ensures
            final(self).wf(),
            final(self).seed() == old(self).seed(),
            final(self).epoch_of(dataset_id@) == epoch,
            forall|d: Seq<char>| d != dataset_id@ ==> #[trigger] final(self).epoch_of(d) == old(self).epoch_of(d),
            forall|d: Seq<char>, e: u64| #[trigger] final(self).cached(d, e) == old(self).cached(d, e),
    {
        self.set_epoch(dataset_id, epoch);
    }

    fn set_epoch(&mut self, dataset_id: &str, epoch: u64)
        requires
            old(self).wf(),
        ensures
            final(self).wf(),
            final(self).seed() == old(self).seed(),
            final(self).shuffle_cache == old(self).shuffle_cache,
            final(self).epoch_of(dataset_id@) == epoch,
            forall|d: Seq<char>| d != dataset_id@ ==> #[trigger] final(self).epoch_of(d) == old(self).epoch_of(d),
            forall|d: Seq<char>, e: u64| #[trigger] final(self).cached(d, e) == old(self).cached(d, e),
    {
        let ghost pre = self.epoch_entries();
        let ghost pre_cache = self.shuffle_cache@;
        match self.find_epoch(dataset_id) {
            Some(i) => {
                let name = self.epochs[i].0.clone();
                self.epochs.set(i, (name, epoch));
                proof {
                    let e = self.epoch_entries();
                    assert(e =~= pre.update(i as int, (dataset_id@, epoch)));
                    assert(e[i as int].0 == dataset_id@);
                    assert forall|d: Seq<char>| d != dataset_id@ implies #[trigger] epoch_in(e, d) == epoch_in(pre, d) by {
                        if exists|j: int| 0 <= j < e.len() && e[j].0 == d {
                            let j = choose|j: int| 0 <= j < e.len() && e[j].0 == d;
                            assert(pre[j].0 == d);
                        }
                        if exists|j: int| 0 <= j < pre.len() && pre[j].0 == d {
                            let j = choose|j: int| 0 <= j < pre.len() && pre[j].0 == d;
                            assert(e[j].0 == d);
                        }
                    }
                    let c = choose|c: int| 0 <= c < e.len() && e[c].0 == dataset_id@;
                    if c != i {
                        assert(pre[c].0 == dataset_id@);
                        if c < i {
                            assert(self.epochs@[c].0@ != self.epochs@[i as int].0@);
                        } else {
                            assert(self.epochs@[i as int].0@ != self.epochs@[c].0@);
                        }
                    }
                }
            },
            None => {
                self.epochs.push((dataset_id.to_owned(), epoch));
                proof {
                    let e = self.epoch_entries();
                    assert(e =~= pre.push((dataset_id@, epoch)));
                    let n = pre.len() as int;
                    assert(e[n].0 == dataset_id@);
                    assert forall|d: Seq<char>| d != dataset_id@ implies #[trigger] epoch_in(e, d) == epoch_in(pre, d) by {
                        if exists|j: int| 0 <= j < e.len() && e[j].0 == d {
                            let j = choose|j: int| 0 <= j < e.len() && e[j].0 == d;
                            assert(pre[j].0 == d);
                        }
                        if exists|j: int| 0 <= j < pre.len() && pre[j].0 == d {
                            let j = choose|j: int| 0 <= j < pre.len() && pre[j].0 == d;
                            assert(e[j].0 == d);
                        }
                    }
                    let c = choose|c: int| 0 <= c < e.len() && e[c].0 == dataset_id@;
                    if c != n {
                        assert(pre[c].0 == dataset_id@);
                    }
                    assert forall|a: int, b: int| 0 <= a < b < self.epochs@.len() implies self.epochs@[a].0@ != self.epochs@[b].0@ by {
                        if b == n {
                            assert(pre[a].0 == self.epochs@[a].0@);
                        }
                    }
                }
            },
        }
        assert(self.shuffle_cache@ == pre_cache);
        assert forall|d: Seq<char>, e: u64| #[trigger] self.cached(d, e) == old(self).cached(d, e) by {
        }
    }

    /// Moves a dataset to its next epoch (1 if it had none) and returns it.
    pub fn advance_epoch(&mut self, dataset_id: &str) -> (r: u64)
        requires
            old(self).wf(),
            old(self).epoch_of(dataset_id@) < u64::MAX,
        ensures
            final(self).wf(),
            final(self).seed() == old(self).seed(),
            r == old(self).epoch_of(dataset_id@) + 1,
            final(self).epoch_of(dataset_id@) == r,
            forall|d: Seq<char>| d != dataset_id@ ==> #[trigger] final(self).epoch_of(d) == old(self).epoch_of(d),
    {
        let cur = self.current_epoch(dataset_id);
        self.set_epoch(dataset_id, cur + 1);
        cur + 1
    }

    /// The base seed.
    pub fn base_seed(&self) -> (r: u64)
        ensures
            r == self.seed(),
    {
        self.base_seed
    }

    /// Every dataset with its epoch.
    pub fn all_epochs(&self) -> (r: Vec<(String, u64)>)
        ensures
            epoch_views(r@) == self.epoch_entries(),
    {
        let mut r: Vec<(String, u64)> = Vec::new();
        let mut i: usize = 0;
        while i < self.epochs.len()
            invariant
                i <= self.epochs@.len(),
                epoch_views(r@) == self.epoch_entries().subrange(0, i as int),
            decreases self.epochs@.len() - i,
        {
            let c = self.epochs[i].0.clone();
            let ghost prev = r@;
            r.push((c, self.epochs[i].1));
            proof {
                assert(r@ == prev.push((c, self.epochs@[i as int].1)));
                assert(epoch_views(r@) =~= epoch_views(prev).push((c@, self.epochs@[i as int].1)));
            }
            i = i + 1;
            assert(epoch_views(r@) =~= self.epoch_entries().subrange(0, i as int));
        }
        assert(self.epoch_entries().subrange(0, i as int) =~= self.epoch_entries());
        r
    }

    /// Index of the memoized order of (dataset, epoch, n), if any.
    fn find_cached(&self, seed: u64, dataset: &str, epoch: u64, n: u64) -> (r: Option<usize>)
        ensures
            match r {
                Some(i) => i < self.shuffle_cache@.len() && self.shuffle_cache@[i as int].dataset@ == dataset@
                    && self.shuffle_cache@[i as int].seed == seed
                    && self.shuffle_cache@[i as int].epoch == epoch
                    && self.shuffle_cache@[i as int].order@.len() == n,
                None => true,
            },
    {
        let name = dataset.to_owned();
        let mut i: usize = 0;
        while i < self.shuffle_cache.len()
            invariant
                name@ == dataset@,
                i <= self.shuffle_cache@.len(),
            decreases self.shuffle_cache@.len() - i,
        {
            let c = &self.shuffle_cache[i];
            if c.seed == seed && c.epoch == epoch && c.order.len() as u64 == n && c.dataset == name {
                return Some(i);
            }
            i = i + 1;
        }
        None
    }

    /// The shuffled shard order of a dataset in an epoch with the base seed.
    pub fn get_shuffled_shards(&mut self, dataset_id: &str, epoch: u64, total_shards: u64) -> (r:
        Vec<u64>)
        requires
            old(self).wf(),
            total_shards <= usize::MAX,
        ensures
            final(self).wf(),
            final(self).seed() == old(self).seed(),
            final(self).epoch_entries() == old(self).epoch_entries(),
            r@ == shuffled_order(old(self).seed(), dataset_id@, epoch, total_shards as nat),
            is_range_permutation(r@, total_shards as nat),
            final(self).cached(dataset_id@, epoch),
            forall|d: Seq<char>, e: u64| old(self).cached(d, e) ==> #[trigger] final(self).cached(d, e),
    {
        let seed = self.base_seed;
        self.get_shuffled_shards_with(seed, dataset_id, epoch, total_shards)
    }

    /// The shuffled shard order of a dataset in an epoch from base seed
    /// `seed`: a permutation of `[0, total_shards)` that depends on the seed,
    /// the dataset id and the epoch alone. The order is memoized.
    pub fn get_shuffled_shards_with(&mut self, seed: u64, dataset_id: &str, epoch: u64, total_shards: u64) -> (r:
        Vec<u64>)
        requires
            old(self).wf(),
            total_shards <= usize::MAX,
        ensures
            final(self).wf(),
            final(self).seed() == old(self).seed(),
            final(self).epoch_entries() == old(self).epoch_entries(),
            r@ == shuffled_order(seed, dataset_id@, epoch, total_shards as nat),
            is_range_permutation(r@, total_shards as nat),
            final(self).cached(dataset_id@, epoch),
            forall|d: Seq<char>, e: u64| old(self).cached(d, e) ==> #[trigger] final(self).cached(d, e),
    {
        match self.find_cached(seed, dataset_id, epoch, total_shards) {
            Some(i) => {
                let r = copy_ids(&self.shuffle_cache[i].order);
                proof {
                    let c = self.shuffle_cache@[i as int];
                    assert(c.order@ == shuffled_order(c.seed, c.dataset@, c.epoch, c.order@.len()));
                }
                return r;
            },
            None => {},
        }
        let mut order: Vec<u64> = Vec::new();
        let mut k: u64 = 0;
        while k < total_shards
            invariant
                k <= total_shards,
                order@ == ids_upto(k as nat),
            decreases total_shards - k,
        {
            order.push(k);
            k = k + 1;
            assert(order@ =~= ids_upto(k as nat));
        }
        let mut seed_bytes: Vec<u8> = Vec::new();
        push_le(&mut seed_bytes, seed, 8);
        let name_bytes = bytes_of(dataset_id);
        let mut j: usize = 0;
        let ghost head = seed_bytes@;
        while j < name_bytes.len()
            invariant
                j <= name_bytes@.len(),
                seed_bytes@ == head + name_bytes@.subrange(0, j as int),
            decreases name_bytes@.len() - j,
        {
            seed_bytes.push(name_bytes[j]);
            j = j + 1;
            assert(seed_bytes@ =~= head + name_bytes@.subrange(0, j as int));
        }
        assert(name_bytes@.subrange(0, j as int) =~= name_bytes@);
        push_le(&mut seed_bytes, epoch, 8);
        let mixed = fnv_hash(seed_bytes.as_slice());
        assert(mixed == epoch_seed(seed, dataset_id@, epoch));
        shuffle_seeded(&mut order, mixed);
        proof {
            lemma_rearranged_range(total_shards as nat, order@);
        }
        let kept = copy_ids(&order);
        let ghost pre_cache = self.shuffle_cache@;
        self.shuffle_cache.push(CachedOrder { seed, dataset: dataset_id.to_owned(), epoch, order: kept });
        proof {
            let n = pre_cache.len() as int;
            assert(self.shuffle_cache@[n].dataset@ == dataset_id@);
            assert forall|d: Seq<char>, e: u64| old(self).cached(d, e) implies #[trigger] self.cached(d, e) by {
                let w = choose|w: int| 0 <= w < pre_cache.len() && pre_cache[w].dataset@ == d && pre_cache[w].epoch == e;
                assert(self.shuffle_cache@[w] == pre_cache[w]);
            }
            assert forall|i: int| 0 <= i < self.shuffle_cache@.len() implies {
                let c = #[trigger] self.shuffle_cache@[i];
                &&& c.order@ == shuffled_order(c.seed, c.dataset@, c.epoch, c.order@.len())
                &&& is_range_permutation(c.order@, c.order@.len())
            } by {
                if i < n {
                    assert(self.shuffle_cache@[i] == pre_cache[i]);
                }
            }
        }
        order
    }

    /// The shards of worker `worker_rank` among `total_workers` in an epoch,
    /// with the base seed.
    pub fn get_worker_shards(
        &mut self,
        dataset_id: &str,
        epoch: u64,
        total_shards: u64,
        worker_rank: u32,
        total_workers: u32,
    ) -> (r: Vec<u64>)
        requires
            old(self).wf(),
            total_shards <= usize::MAX,
        ensures
            final(self).wf(),
            final(self).seed() == old(self).seed(),
            final(self).epoch_entries() == old(self).epoch_entries(),
            total_workers == 0 ==> r@.len() == 0,
            total_workers > 0 ==> r@ == worker_cut(
                shuffled_order(old(self).seed(), dataset_id@, epoch, total_shards as nat),
                worker_rank as nat,
                total_workers as nat,
            ),
            total_workers > 0 ==> is_range_permutation(shuffled_order(old(self).seed(), dataset_id@, epoch, total_shards as nat), total_shards as nat),
            forall|i: int| 0 <= i < r@.len() ==> #[trigger] r@[i] < total_shards,
    {
        let seed = self.base_seed;
        self.get_worker_shards_with(seed, dataset_id, epoch, total_shards, worker_rank, total_workers)
    }

    /// The shards of worker `worker_rank` among `total_workers` in an epoch,
    /// from base seed `seed`: the entries of the shuffled order whose index
    /// is `worker_rank` modulo `total_workers`; none when there are no
    /// workers.
    pub fn get_worker_shards_with(
        &mut self,
        seed: u64,
        dataset_id: &str,
        epoch: u64,
        total_shards: u64,
        worker_rank: u32,
        total_workers: u32,
    ) -> (r: Vec<u64>)
        requires
            old(self).wf(),
            total_shards <= usize::MAX,
        ensures
            final(self).wf(),
            final(self).seed() == old(self).seed(),
            final(self).epoch_entries() == old(self).epoch_entries(),
            total_workers == 0 ==> r@.len() == 0,
            total_workers > 0 ==> r@ == worker_cut(
                shuffled_order(seed, dataset_id@, epoch, total_shards as nat),
                worker_rank as nat,
                total_workers as nat,
            ),
            total_workers > 0 ==> is_range_permutation(shuffled_order(seed, dataset_id@, epoch, total_shards as nat), total_shards as nat),
            forall|i: int| 0 <= i < r@.len() ==> #[trigger] r@[i] < total_shards,
    {
        if total_workers == 0 {
            return Vec::new();
        }
        let order = self.get_shuffled_shards_with(seed, dataset_id, epoch, total_shards);
        let r = round_robin_cut(&order, worker_rank, total_workers);
        proof {
            assert forall|i: int| 0 <= i < r@.len() implies #[trigger] r@[i] < total_shards by {
                assert(worker_cut(order@, worker_rank as nat, total_workers as nat).contains(r@[i]));
                lemma_round_robin_contains(order@, worker_rank as nat, total_workers as nat, order@.len(), r@[i]);
                let j = choose|j: int| 0 <= j < order@.len() && j % (total_workers as int) == worker_rank as int && #[trigger] order@[j] == r@[i];
            }
        }
        r
    }

    /// Forgets the memoized orders of one dataset.
    pub fn clear_cache(&mut self, dataset_id: &str)
        requires
            old(self).wf(),
        ensures
            final(self).wf(),
            final(self).seed() == old(self).seed(),
            final(self).epoch_entries() == old(self).epoch_entries(),
            forall|e: u64| !#[trigger] final(self).cached(dataset_id@, e),
            forall|d: Seq<char>, e: u64| d != dataset_id@ ==> #[trigger] final(self).cached(d, e) == old(self).cached(d, e),
    {
        let name = dataset_id.to_owned();
        let ghost pre = self.shuffle_cache@;
        let mut kept: Vec<CachedOrder> = Vec::new();
        let mut old_cache: Vec<CachedOrder> = Vec::new();
        std::mem::swap(&mut old_cache, &mut self.shuffle_cache);
        let ghost mut i: int = 0;
        while old_cache.len() > 0
            invariant
                name@ == dataset_id@,
                0 <= i <= pre.len(),
                old_cache@ == pre.subrange(i, pre.len() as int),
                self.base_seed == old(self).base_seed,
                self.epochs == old(self).epochs,
                forall|a: int| 0 <= a < kept@.len() ==> among(pre, i as int, #[trigger] kept@[a]),
                forall|a: int| 0 <= a < kept@.len() ==> (#[trigger] kept@[a]).dataset@ != dataset_id@,
                forall|b: int| 0 <= b < i && (#[trigger] pre[b]).dataset@ != dataset_id@ ==> among(kept@, kept@.len() as int, pre[b]),
            decreases old_cache@.len(),
        {
            let c = old_cache.remove(0);
            assert(c == pre[i]);
            assert(old_cache@ =~= pre.subrange(i + 1, pre.len() as int));
            if c.dataset != name {
                let ghost prev = kept@;
                kept.push(c);
                proof {
                    assert(kept@[prev.len() as int] == pre[i as int]);
                    assert forall|a: int| 0 <= a < kept@.len() implies among(pre, i + 1, #[trigger] kept@[a]) by {
                        if a < prev.len() {
                            assert(kept@[a] == prev[a]);
                            assert(among(pre, i as int, prev[a]));
                            let b = choose|b: int| 0 <= b < i && pre[b] == prev[a];
                            assert(pre[b] == kept@[a]);
                        } else {
                            assert(pre[i as int] == kept@[a]);
                        }
                    }
                    assert forall|b: int| 0 <= b < i + 1 && (#[trigger] pre[b]).dataset@ != dataset_id@ implies among(kept@, kept@.len() as int, pre[b]) by {
                        if b < i {
                            assert(among(prev, prev.len() as int, pre[b]));
                            let a = choose|a: int| 0 <= a < prev.len() && prev[a] == pre[b];
                            assert(kept@[a] == prev[a]);
                        } else {
                            assert(kept@[prev.len() as int] == pre[b]);
                        }
                    }
                }
            } else {
                proof {
                    assert forall|a: int| 0 <= a < kept@.len() implies among(pre, i + 1, #[trigger] kept@[a]) by {
                        assert(among(pre, i as int, kept@[a]));
                        let b = choose|b: int| 0 <= b < i && pre[b] == kept@[a];
                        assert(pre[b] == kept@[a]);
                    }
                }
            }
            proof { i = i + 1; }
        }
        self.shuffle_cache = kept;
        proof {
            assert forall|d: Seq<char>, e: u64| d != dataset_id@ implies #[trigger] self.cached(d, e) == old(self).cached(d, e) by {
                if self.cached(d, e) {
                    let a = choose|a: int| 0 <= a < self.shuffle_cache@.len() && self.shuffle_cache@[a].dataset@ == d && self.shuffle_cache@[a].epoch == e;
                    assert(among(pre, i as int, self.shuffle_cache@[a]));
                    let b = choose|b: int| 0 <= b < i && pre[b] == self.shuffle_cache@[a];
                    assert(old(self).shuffle_cache@[b] == pre[b]);
                }
                if old(self).cached(d, e) {
                    let b = choose|b: int| 0 <= b < pre.len() && pre[b].dataset@ == d && pre[b].epoch == e;
                    assert(among(self.shuffle_cache@, self.shuffle_cache@.len() as int, pre[b]));
                    let a = choose|a: int| 0 <= a < self.shuffle_cache@.len() && self.shuffle_cache@[a] == pre[b];
                    assert(self.shuffle_cache@[a].dataset@ == d);
                }
            }
            assert forall|i2: int| 0 <= i2 < self.shuffle_cache@.len() implies {
                let c = #[trigger] self.shuffle_cache@[i2];
                &&& c.order@ == shuffled_order(c.seed, c.dataset@, c.epoch, c.order@.len())
                &&& is_range_permutation(c.order@, c.order@.len())
            } by {
                assert(among(pre, i as int, self.shuffle_cache@[i2]));
                let b = choose|b: int| 0 <= b < i && pre[b] == self.shuffle_cache@[i2];
                assert(old(self).shuffle_cache@[b] == pre[b]);
            }
        }
    }

    /// Forgets every memoized order.
    pub fn clear_all_caches(&mut self)
        requires
            old(self).wf(),
        ensures
            final(self).wf(),
            final(self).seed() == old(self).seed(),
            final(self).epoch_entries() == old(self).epoch_entries(),
            forall|d: Seq<char>, e: u64| !#[trigger] final(self).cached(d, e),
    {
        self.shuffle_cache.clear();
    }

    /// Whether an order of (dataset, epoch) is memoized.
    pub fn is_cached(&self, dataset_id: &str, epoch: u64) -> (r: bool)
        ensures
            r == self.cached(dataset_id@, epoch),
    {
        let name = dataset_id.to_owned();
        let mut i: usize = 0;
        while i < self.shuffle_cache.len()
            invariant
                name@ == dataset_id@,
                i <= self.shuffle_cache@.len(),
                forall|a: int| 0 <= a < i ==> !(self.shuffle_cache@[a].dataset@ == dataset_id@ && self.shuffle_cache@[a].epoch == epoch),
            decreases self.shuffle_cache@.len() - i,
        {
            if self.shuffle_cache[i].epoch == epoch && self.shuffle_cache[i].dataset == name {
                return true;
            }
            i = i + 1;
        }
        false
    }
}

/// `x` is among the first `n` entries of `s`.
spec fn among(s: Seq<CachedOrder>, n: int, x: CachedOrder) -> bool {
    exists|b: int| 0 <= b < n && b < s.len() && s[b] == x
}

/// Snapshot of a coordinator: per-dataset epochs and the base seed.
#[derive(Debug, Clone)]
pub struct EpochCoordinatorState {
    pub epochs: Vec<(String, u64)>,
    pub base_seed: u64,
}

impl EpochCoordinator {
    /// The snapshot of this coordinator.
    pub fn state(&self) -> (r: EpochCoordinatorState)
        ensures
            epoch_views(r.epochs@) == self.epoch_entries(),
            r.base_seed == self.seed(),
    {
        EpochCoordinatorState { epochs: self.all_epochs(), base_seed: self.base_seed }
    }

    /// Rebuilds a coordinator from a snapshot (with nothing memoized).
    pub fn from_state(state: &EpochCoordinatorState) -> (r: Self)
        ensures
            r.wf(),
            r.seed() == state.base_seed,
            forall|i: int| 0 <= i < state.epochs@.len()
                && (forall|j: int| i < j < state.epochs@.len() ==> state.epochs@[j].0@ != state.epochs@[i].0@)
                ==> #[trigger] r.epoch_of(state.epochs@[i].0@) == state.epochs@[i].1,
    {
        let mut r = EpochCoordinator::with_seed(state.base_seed);
        let mut i: usize = 0;
        while i < state.epochs.len()
            invariant
                r.wf(),
                r.seed() == state.base_seed,
                i <= state.epochs@.len(),
                forall|a: int| 0 <= a < i && (forall|j: int| a < j < i ==> state.epochs@[j].0@ != state.epochs@[a].0@)
                    ==> #[trigger] r.epoch_of(state.epochs@[a].0@) == state.epochs@[a].1,
            decreases state.epochs@.len() - i,
        {
            let ghost pre = r;
            r.init_epoch(state.epochs[i].0.as_str(), state.epochs[i].1);
            proof {
                assert forall|a: int| 0 <= a < i + 1 && (forall|j: int| a < j < i + 1 ==> state.epochs@[j].0@ != state.epochs@[a].0@)
                    implies #[trigger] r.epoch_of(state.epochs@[a].0@) == state.epochs@[a].1 by {
                    if a < i {
                        assert(state.epochs@[i as int].0@ != state.epochs@[a].0@);
                        assert(pre.epoch_of(state.epochs@[a].0@) == state.epochs@[a].1);
                    }
                }
            }
            i = i + 1;
        }
        r
    }
}

/// The entries of `order` whose index is `rank` modulo `world`, in order;
/// none when `world` is 0.
pub fn round_robin_cut(order: &Vec<u64>, rank: u32, world: u32) -> (r: Vec<u64>)
    ensures
        world == 0 ==> r@.len() == 0,
        world > 0 ==> r@ == worker_cut(order@, rank as nat, world as nat),
{
    let mut r: Vec<u64> = Vec::new();
    if world == 0 {
        return r;
    }
    let mut idx: usize = 0;
    while idx < order.len()
        invariant
            world > 0,
            idx <= order@.len(),
            r@ == round_robin(order@, rank as nat, world as nat, idx as nat),
        decreases order@.len() - idx,
    {
        if (idx as u64) % (world as u64) == rank as u64 {
            r.push(order[idx]);
        }
        idx = idx + 1;
    }
    r
}

/// Copies a list of ids.
pub fn copy_ids(v: &Vec<u64>) -> (r: Vec<u64>)
    ensures
        r@ == v@,
{
    let mut r: Vec<u64> = Vec::new();
    let mut i: usize = 0;
    while i < v.len()
        invariant
            i <= v@.len(),
            r@ == v@.subrange(0, i as int),
        decreases v@.len() - i,
    {
        r.push(v[i]);
        i = i + 1;
        assert(r@ =~= v@.subrange(0, i as int));
    }
    assert(v@.subrange(0, i as int) =~= v@);
    r
}

} // verus!
