//! Dataset registry and shard assignment over the hash ring and the shuffler.

use vstd::prelude::*;
use crate::epoch::{EpochCoordinator, shuffled_order, worker_cut, is_range_permutation};
use crate::hash_ring::{ConsistentHash, shards_owned, string_views};
use crate::hashing::{lex_less, utf8, str_less, lemma_lex_total, lemma_utf8_injective};
use vstd::string::StringExecFns;
use crate::types::{DatasetMetadata, ShardAssignment, compute_shard_count, make_assignment};

verus! {

/// Membership record of one worker.
#[derive(Debug, Clone)]
pub struct WorkerState {
    /// Worker identifier.
    pub worker_id: String,
    /// Whether the worker is considered healthy.
    pub healthy: bool,
    /// Last heartbeat, seconds since the Unix epoch.
    pub last_heartbeat: u64,
}

/// Views of the ids of a list of workers.
pub open spec fn ids_of(w: Seq<WorkerState>) -> Seq<Seq<char>> {
    w.map_values(|x: WorkerState| x.worker_id@)
}

/// Ids are pairwise distinct.
pub open spec fn distinct_ids(ids: Seq<Seq<char>>) -> bool {
    forall|a: int, b: int| 0 <= a < b < ids.len() ==> ids[a] != ids[b]
}

/// Each id is below the next one in byte order.
pub open spec fn ascending_ids(ids: Seq<Seq<char>>) -> bool {
    forall|a: int| 0 <= a < ids.len() - 1 ==> lex_less(utf8(#[trigger] ids[a]), utf8(ids[a + 1]))
}

/// `post` is `pre` after a heartbeat of `id` at `now`: that member is
/// healthy with heartbeat `now`; the others are unchanged.
pub open spec fn heartbeat_recorded(pre: Seq<WorkerState>, post: Seq<WorkerState>, id: Seq<char>, now: u64) -> bool {
    &&& post.len() == pre.len()
    &&& forall|i: int| 0 <= i < post.len() ==> {
        let w = #[trigger] post[i];
        if w.worker_id@ == id {
            w.healthy && w.last_heartbeat == now && w.worker_id == pre[i].worker_id
        } else {
            w == pre[i]
        }
    }
}

/// `post` is `pre` after a health check at `now`: a member whose last
/// heartbeat is more than `timeout` seconds old becomes unhealthy.
pub open spec fn health_checked(pre: Seq<WorkerState>, post: Seq<WorkerState>, timeout: u64, now: u64) -> bool {
    &&& post.len() == pre.len()
    &&& forall|i: int| 0 <= i < post.len() ==> {
        let w = pre[i];
        let stale = w.last_heartbeat <= now && now - w.last_heartbeat > timeout;
        &&& (#[trigger] post[i]).worker_id == w.worker_id
        &&& post[i].last_heartbeat == w.last_heartbeat
        &&& post[i].healthy == (w.healthy && !stale)
    }
}

/// Orders workers by id, keeping each one.
fn sort_by_id(v: Vec<WorkerState>) -> (out: Vec<WorkerState>)
    requires
        distinct_ids(ids_of(v@)),
    ensures
        out@.len() == v@.len(),
        forall|w: WorkerState| out@.contains(w) <==> v@.contains(w),
        distinct_ids(ids_of(out@)),
        ascending_ids(ids_of(out@)),
{
    let ghost orig = v@;
    let mut rest = v;
    let mut out: Vec<WorkerState> = Vec::new();
    let ghost mut taken: int = 0;
    while rest.len() > 0
        invariant
            0 <= taken <= orig.len(),
            rest@ == orig.subrange(taken, orig.len() as int),
            out@.len() == taken,
            forall|w: WorkerState| out@.contains(w) <==> orig.subrange(0, taken).contains(w),
            distinct_ids(ids_of(orig)),
            distinct_ids(ids_of(out@)),
            ascending_ids(ids_of(out@)),
        decreases rest@.len(),
    {
        let x = rest.remove(0);
        assert(x == orig[taken]);
        assert(rest@ =~= orig.subrange(taken + 1, orig.len() as int));
        let mut p: usize = 0;
        while p < out.len() && !str_less(x.worker_id.as_str(), out[p].worker_id.as_str())
            invariant
                p <= out@.len(),
                forall|q: int| 0 <= q < p ==> !lex_less(utf8(x.worker_id@), utf8(#[trigger] out@[q].worker_id@)),
            decreases out@.len() - p,
        {
            p = p + 1;
        }
        let ghost prev = out@;
        proof {
            assert forall|q: int| 0 <= q < prev.len() implies (#[trigger] prev[q]).worker_id@ != x.worker_id@ by {
                assert(prev.contains(prev[q]));
                assert(orig.subrange(0, taken).contains(prev[q]));
                let s0 = orig.subrange(0, taken);
                let j = choose|j: int| 0 <= j < s0.len() && s0[j] == prev[q];
                assert(ids_of(orig)[j] != ids_of(orig)[taken]);
            }
        }
        out.insert(p, x);
        proof {
            let ids = ids_of(out@);
            assert(out@ == prev.insert(p as int, x));
            assert forall|a: int, b: int| 0 <= a < b < ids.len() implies ids[a] != ids[b] by {
                if a < p && b < p {
                    assert(ids_of(prev)[a] != ids_of(prev)[b]);
                } else if a < p && b == p {
                    assert(prev[a].worker_id@ != x.worker_id@);
                } else if a < p {
                    assert(ids_of(prev)[a] != ids_of(prev)[b - 1]);
                } else if a == p {
                    assert(prev[b - 1].worker_id@ != x.worker_id@);
                } else {
                    assert(ids_of(prev)[a - 1] != ids_of(prev)[b - 1]);
                }
            }
            assert forall|a: int| 0 <= a < ids.len() - 1 implies lex_less(utf8(#[trigger] ids[a]), utf8(ids[a + 1])) by {
                if a + 1 < p {
                    assert(ids_of(prev)[a] == ids[a]);
                    assert(ids_of(prev)[a + 1] == ids[a + 1]);
                } else if a + 1 == p {
                    assert(prev[a].worker_id@ != x.worker_id@);
                    lemma_utf8_injective(prev[a].worker_id@, x.worker_id@);
                    lemma_lex_total(utf8(prev[a].worker_id@), utf8(x.worker_id@));
                } else if a == p {
                } else {
                    assert(ids_of(prev)[a - 1] == ids[a]);
                    assert(ids_of(prev)[a] == ids[a + 1]);
                }
            }
            let s1 = orig.subrange(0, taken + 1);
            let s0 = orig.subrange(0, taken);
            assert(s1 =~= s0.push(x));
            assert forall|w: WorkerState| out@.contains(w) <==> s1.contains(w) by {
                if out@.contains(w) {
                    let j = choose|j: int| 0 <= j < out@.len() && out@[j] == w;
                    if j < p {
                        assert(prev[j] == w);
                        assert(prev.contains(w));
                    } else if j > p {
                        assert(prev[j - 1] == w);
                        assert(prev.contains(w));
                    }
                    if w != x {
                        let k = choose|k: int| 0 <= k < s0.len() && s0[k] == w;
                        assert(s1[k] == w);
                    } else {
                        assert(s1[taken] == w);
                    }
                }
                if s1.contains(w) {
                    let k = choose|k: int| 0 <= k < s1.len() && s1[k] == w;
                    if k < taken {
                        assert(s0[k] == w);
                        assert(prev.contains(w));
                        let j = choose|j: int| 0 <= j < prev.len() && prev[j] == w;
                        if j < p {
                            assert(out@[j] == w);
                        } else {
                            assert(out@[j + 1] == w);
                        }
                    } else {
                        assert(out@[p as int] == w);
                    }
                }
            }
            taken = taken + 1;
        }
    }
    assert(orig.subrange(0, taken) =~= orig);
    out
}

} // verus!

verus! {

/// Shard manager: datasets, members with dense ranks, hash ring, shuffler.
#[derive(Debug)]
pub struct ShardManager {
    /// Registered datasets; ids are distinct.
    datasets: Vec<DatasetMetadata>,
    /// Ring over the member ids.
    hash_ring: ConsistentHash,
    /// Per-dataset epochs and shuffles.
    epoch_coordinator: EpochCoordinator,
    /// Members in rank order: the rank of a member is its index.
    workers: Vec<WorkerState>,
}

/// Views of the ids of a list of datasets.
pub open spec fn dataset_ids(d: Seq<DatasetMetadata>) -> Seq<Seq<char>> {
    d.map_values(|x: DatasetMetadata| x.id@)
}

impl ShardManager {
    pub closed spec fn members(&self) -> Seq<WorkerState> {
        self.workers@
    }

    pub closed spec fn dataset_list(&self) -> Seq<DatasetMetadata> {
        self.datasets@
    }

    pub closed spec fn ring(&self) -> ConsistentHash {
        self.hash_ring
    }

    pub closed spec fn epochs(&self) -> EpochCoordinator {
        self.epoch_coordinator
    }

    /// Ids of the members, in rank order.
    pub open spec fn member_ids(&self) -> Seq<Seq<char>> {
        ids_of(self.members())
    }

    /// Rank of a member: its place in rank order.
    pub open spec fn rank_of(&self, worker: Seq<char>) -> int {
        choose|i: int| 0 <= i < self.member_ids().len() && self.member_ids()[i] == worker
    }

    /// Index of a dataset in the registry.
    pub open spec fn dataset_index(&self, dataset: Seq<char>) -> int {
        choose|i: int| 0 <= i < self.dataset_list().len() && self.dataset_list()[i].id@ == dataset
    }

    /// Whether a dataset is registered.
    pub open spec fn has_dataset(&self, dataset: Seq<char>) -> bool {
        dataset_ids(self.dataset_list()).contains(dataset)
    }

    /// The metadata of a registered dataset.
    pub open spec fn dataset_of(&self, dataset: Seq<char>) -> DatasetMetadata {
        self.dataset_list()[self.dataset_index(dataset)]
    }

    /// Shard ids of `worker` for `dataset` in `epoch`: when the dataset
    /// shuffles, the round-robin cut at the worker's rank of the order
    /// shuffled from the dataset's own seed; else the shards the ring gives
    /// the worker.
    pub open spec fn assigned_ids(&self, dataset: Seq<char>, worker: Seq<char>, epoch: u64) -> Seq<
        u64,
    > {
        let d = self.dataset_of(dataset);
        if d.shuffle {
            worker_cut(
                shuffled_order(d.seed, dataset, epoch, d.total_shards as nat),
                self.rank_of(worker) as nat,
                self.member_ids().len(),
            )
        } else {
            shards_owned(self.ring().entries(), worker, dataset, d.total_shards as nat)
        }
    }

    /// Member ids are distinct and are exactly the ring's nodes; dataset ids
    /// are distinct and each dataset is well formed.
    pub open spec fn wf(&self) -> bool {
        &&& distinct_ids(self.member_ids())
        &&& self.member_ids().len() < u32::MAX
        &&& self.ring().wf()
        &&& forall|n: Seq<char>| #[trigger] self.ring().node_ids().contains(n) <==> self.member_ids().contains(n)
        &&& self.epochs().wf()
        &&& distinct_ids(dataset_ids(self.dataset_list()))
        &&& forall|i: int| 0 <= i < self.dataset_list().len() ==> (#[trigger] self.dataset_list()[i]).wf()
        &&& forall|i: int| 0 <= i < self.dataset_list().len() ==> (#[trigger] self.dataset_list()[i]).total_shards <= usize::MAX
    }

    /// A manager with a default ring and a randomly seeded shuffler.
    pub fn new() -> (r: Self)
        ensures
            r.wf(),
            r.member_ids().len() == 0,
            r.dataset_list().len() == 0,
    {
        Self::with_components(ConsistentHash::new(), EpochCoordinator::new())
    }

    /// A manager over a given (empty) ring and shuffler.
    pub fn with_components(hash_ring: ConsistentHash, epoch_coordinator: EpochCoordinator) -> (r:
        Self)
        requires
            hash_ring.wf(),
            hash_ring.node_ids().len() == 0,
            epoch_coordinator.wf(),
        ensures
            r.wf(),
            r.member_ids().len() == 0,
            r.dataset_list().len() == 0,
            r.ring() == hash_ring,
            r.epochs() == epoch_coordinator,
    {
        let r = ShardManager { datasets: Vec::new(), hash_ring, epoch_coordinator, workers: Vec::new() };
        assert(r.member_ids() =~= Seq::empty());
        assert(dataset_ids(r.dataset_list()) =~= Seq::empty());
        r
    }

    /// Index of a member, if present.
    fn find_worker(&self, worker_id: &str) -> (r: Option<usize>)
        requires
            self.wf(),
        ensures
            match r {
                Some(i) => i < self.member_ids().len() && self.member_ids()[i as int] == worker_id@
                    && self.rank_of(worker_id@) == i,
                None => !self.member_ids().contains(worker_id@),
            },
    {
        let name = worker_id.to_owned();
        let mut i: usize = 0;
        while i < self.workers.len()
            invariant
                self.wf(),
                name@ == worker_id@,
                i <= self.workers@.len(),
                forall|a: int| 0 <= a < i ==> self.member_ids()[a] != worker_id@,
            decreases self.workers@.len() - i,
        {
            if self.workers[i].worker_id == name {
                proof {
                    let ids = self.member_ids();
                    assert(ids[i as int] == worker_id@);
                    let c = self.rank_of(worker_id@);
                    if c != i {
                        if c < i {
                            assert(ids[c] != ids[i as int]);
                        } else {
                            assert(ids[i as int] != ids[c]);
                        }
                    }
                }
                return Some(i);
            }
            i = i + 1;
        }
        None
    }

    /// Index of a dataset, if registered.
    fn find_dataset(&self, dataset_id: &str) -> (r: Option<usize>)
        requires
            self.wf(),
        ensures
            match r {
                Some(i) => i < self.dataset_list().len() && self.dataset_list()[i as int].id@ == dataset_id@
                    && self.dataset_index(dataset_id@) == i && self.has_dataset(dataset_id@),
                None => !self.has_dataset(dataset_id@),
            },
    {
        let name = dataset_id.to_owned();
        let mut i: usize = 0;
        while i < self.datasets.len()
            invariant
                self.wf(),
                name@ == dataset_id@,
                i <= self.datasets@.len(),
                forall|a: int| 0 <= a < i ==> dataset_ids(self.dataset_list())[a] != dataset_id@,
            decreases self.datasets@.len() - i,
        {
            if self.datasets[i].id == name {
                proof {
                    let ids = dataset_ids(self.dataset_list());
                    assert(ids[i as int] == dataset_id@);
                    let c = self.dataset_index(dataset_id@);
                    if c != i {
                        if c < i {
                            assert(ids[c] != ids[i as int]);
                        } else {
                            assert(ids[i as int] != ids[c]);
                        }
                    }
                }
                return Some(i);
            }
            i = i + 1;
        }
        None
    }

    /// Registers a dataset, replacing one with the same id, and sets its
    /// epoch to 0.
    pub fn register_dataset(&mut self, metadata: DatasetMetadata)
        requires
            old(self).wf(),
            metadata.wf(),
            metadata.total_shards <= usize::MAX,
        ensures
            final(self).wf(),
            final(self).has_dataset(metadata.id@),
            final(self).dataset_of(metadata.id@) == metadata,
            final(self).epochs().epoch_of(metadata.id@) == 0,
            final(self).members() == old(self).members(),
            final(self).ring() == old(self).ring(),
            final(self).epochs().seed() == old(self).epochs().seed(),
            forall|d: Seq<char>| d != metadata.id@ ==> #[trigger] final(self).has_dataset(d) == old(self).has_dataset(d),
            forall|d: Seq<char>| d != metadata.id@ && old(self).has_dataset(d) ==> #[trigger] final(self).dataset_of(d) == old(self).dataset_of(d),
    {
        self.epoch_coordinator.init_epoch(metadata.id.as_str(), 0);
        let ghost pre = self.datasets@;
        let ghost id = metadata.id@;
        match self.find_dataset(metadata.id.as_str()) {
            Some(i) => {
                self.datasets.set(i, metadata);
                proof {
                    let ids = dataset_ids(self.datasets@);
                    assert(self.datasets@ == pre.update(i as int, metadata));
                    assert(ids =~= dataset_ids(pre));
                    assert(ids.contains(id)) by { assert(ids[i as int] == id); }
                    let c = self.dataset_index(id);
                    if c != i {
                        if c < i { assert(ids[c] != ids[i as int]); } else { assert(ids[i as int] != ids[c]); }
                    }
                    assert forall|d: Seq<char>| d != id implies (self.has_dataset(d) == old(self).has_dataset(d)
                        && (old(self).has_dataset(d) ==> self.dataset_of(d) == old(self).dataset_of(d))) by {
                        if self.has_dataset(d) {
                            let j = choose|j: int| 0 <= j < ids.len() && ids[j] == d;
                            assert(dataset_ids(pre)[j] == d);
                        }
                        if old(self).has_dataset(d) {
                            let j = choose|j: int| 0 <= j < dataset_ids(pre).len() && dataset_ids(pre)[j] == d;
                            assert(ids[j] == d);
                            let a = self.dataset_index(d);
                            let b = old(self).dataset_index(d);
                            assert(ids[a] == d);
                            assert(dataset_ids(pre)[b] == d);
                            if a != b {
                                if a < b { assert(ids[a] != ids[b]); } else { assert(ids[b] != ids[a]); }
                            }
                            assert(self.datasets@[a] == pre[a]);
                            assert(self.dataset_list()[a] == old(self).dataset_list()[b]);
                            assert(self.dataset_of(d) == old(self).dataset_of(d));
                        }
                    }
                }
            },
            None => {
                self.datasets.push(metadata);
                proof {
                    let ids = dataset_ids(self.datasets@);
                    let n = pre.len() as int;
                    assert(ids =~= dataset_ids(pre).push(id));
                    assert forall|a: int, b: int| 0 <= a < b < ids.len() implies ids[a] != ids[b] by {
                        if b == n {
                            assert(dataset_ids(pre).contains(ids[a]));
                        }
                    }
                    assert(ids.contains(id)) by { assert(ids[n] == id); }
                    let c = self.dataset_index(id);
                    if c != n {
                        assert(dataset_ids(pre)[c] == id);
                        assert(dataset_ids(pre).contains(id));
                    }
                    assert forall|d: Seq<char>| d != id implies (self.has_dataset(d) == old(self).has_dataset(d)
                        && (old(self).has_dataset(d) ==> self.dataset_of(d) == old(self).dataset_of(d))) by {
                        if self.has_dataset(d) {
                            let j = choose|j: int| 0 <= j < ids.len() && ids[j] == d;
                            assert(dataset_ids(pre)[j] == d);
                        }
                        if old(self).has_dataset(d) {
                            let j = choose|j: int| 0 <= j < dataset_ids(pre).len() && dataset_ids(pre)[j] == d;
                            assert(ids[j] == d);
                            let a = self.dataset_index(d);
                            let b = old(self).dataset_index(d);
                            assert(ids[a] == d);
                            assert(dataset_ids(pre)[b] == d);
                            if a != b {
                                if a < b { assert(ids[a] != ids[b]); } else { assert(ids[b] != ids[a]); }
                            }
                            assert(self.datasets@[a] == pre[a]);
                            assert(self.dataset_list()[a] == old(self).dataset_list()[b]);
                            assert(self.dataset_of(d) == old(self).dataset_of(d));
                        }
                    }
                }
            },
        }
    }

    /// Registers a dataset from its parameters: the shard count is the
    /// ceiling of samples over shard size; path empty, format "unknown".
    pub fn register_dataset_params(
        &mut self,
        dataset_id: &str,
        total_samples: u64,
        shard_size: u64,
        shuffle: bool,
        seed: u64,
    )
        requires
            old(self).wf(),
            shard_size > 0,
            total_samples <= usize::MAX,
        ensures
            final(self).wf(),
            final(self).has_dataset(dataset_id@),
            final(self).dataset_of(dataset_id@).total_samples == total_samples,
            final(self).dataset_of(dataset_id@).shard_size == shard_size,
            final(self).dataset_of(dataset_id@).total_shards == crate::types::shard_count(total_samples as nat, shard_size as nat),
            final(self).dataset_of(dataset_id@).shuffle == shuffle,
            final(self).dataset_of(dataset_id@).seed == seed,
            final(self).epochs().epoch_of(dataset_id@) == 0,
            final(self).members() == old(self).members(),
            final(self).ring() == old(self).ring(),
            final(self).epochs().seed() == old(self).epochs().seed(),
            forall|d: Seq<char>| d != dataset_id@ ==> #[trigger] final(self).has_dataset(d) == old(self).has_dataset(d),
            forall|d: Seq<char>| d != dataset_id@ && old(self).has_dataset(d) ==> #[trigger] final(self).dataset_of(d) == old(self).dataset_of(d),
    {
        let total_shards = compute_shard_count(total_samples, shard_size);
        let metadata = DatasetMetadata {
            id: dataset_id.to_owned(),
            path: String::new(),
            format: String::from_str("unknown"),
            total_samples,
            total_shards,
            shard_size,
            shuffle,
            seed,
            metadata: Vec::new(),
        };
        self.register_dataset(metadata);
    }

    /// Adds a member with the next dense rank at time `now`; a present member
    /// is left as it is.
    pub fn register_worker_at(&mut self, worker_id: &str, now: u64)
        requires
            old(self).wf(),
            old(self).member_ids().len() + 1 < u32::MAX,
        ensures
            final(self).wf(),
            old(self).member_ids().contains(worker_id@) ==> *final(self) == *old(self),
            !old(self).member_ids().contains(worker_id@) ==> {
                &&& final(self).members() == old(self).members().push(
                    WorkerState { worker_id: final(self).members().last().worker_id, healthy: true, last_heartbeat: now },
                )
                &&& final(self).members().last().worker_id@ == worker_id@
                &&& final(self).rank_of(worker_id@) == old(self).member_ids().len()
            },
            final(self).dataset_list() == old(self).dataset_list(),
            final(self).epochs() == old(self).epochs(),
            final(self).member_ids().contains(worker_id@),
    {
        match self.find_worker(worker_id) {
            Some(_) => {
                return;
            },
            None => {},
        }
        let ghost pre = self.workers@;
        self.workers.push(WorkerState { worker_id: worker_id.to_owned(), healthy: true, last_heartbeat: now });
        self.hash_ring.add_node(worker_id);
        proof {
            let ids = self.member_ids();
            let n = pre.len() as int;
            assert(ids =~= ids_of(pre).push(worker_id@));
            assert(ids[n] == worker_id@);
            assert(ids.contains(worker_id@));
            assert forall|a: int, b: int| 0 <= a < b < ids.len() implies ids[a] != ids[b] by {
                if b == n {
                    assert(ids_of(pre)[a] == ids[a]);
                    assert(ids_of(pre).contains(ids[a]));
                }
            }
            assert forall|m: Seq<char>| #[trigger] self.ring().node_ids().contains(m) <==> self.member_ids().contains(m) by {
                assert(self.ring().node_ids() == old(self).ring().node_ids().push(worker_id@));
                if ids.contains(m) && m != worker_id@ {
                    let j = choose|j: int| 0 <= j < ids.len() && ids[j] == m;
                    assert(ids_of(pre)[j] == m);
                    assert(old(self).ring().node_ids().contains(m));
                    let k = choose|k: int| 0 <= k < old(self).ring().node_ids().len() && old(self).ring().node_ids()[k] == m;
                    assert(self.ring().node_ids()[k] == m);
                }
                if self.ring().node_ids().contains(m) && m != worker_id@ {
                    let k = choose|k: int| 0 <= k < self.ring().node_ids().len() && self.ring().node_ids()[k] == m;
                    assert(old(self).ring().node_ids()[k] == m);
                    assert(old(self).ring().node_ids().contains(m));
                    assert(old(self).member_ids().contains(m));
                    let j = choose|j: int| 0 <= j < ids_of(pre).len() && ids_of(pre)[j] == m;
                    assert(ids[j] == m);
                }
                if m == worker_id@ {
                    assert(self.ring().node_ids()[self.ring().node_ids().len() - 1] == m);
                }
            }
            let c = self.rank_of(worker_id@);
            if c != n {
                assert(ids_of(pre)[c] == worker_id@);
                assert(ids_of(pre).contains(worker_id@));
            }
        }
    }

    /// Adds a member with the next dense rank, stamped with the clock.
    pub fn register_worker(&mut self, worker_id: &str)
        requires
            old(self).wf(),
            old(self).member_ids().len() + 1 < u32::MAX,
        ensures
            final(self).wf(),
            old(self).member_ids().contains(worker_id@) ==> *final(self) == *old(self),
            !old(self).member_ids().contains(worker_id@) ==> {
                &&& final(self).member_ids() == old(self).member_ids().push(worker_id@)
                &&& final(self).rank_of(worker_id@) == old(self).member_ids().len()
            },
            final(self).dataset_list() == old(self).dataset_list(),
            final(self).epochs() == old(self).epochs(),
            final(self).member_ids().contains(worker_id@),
    {
        let now = crate::clock::unix_seconds();
        self.register_worker_at(worker_id, now);
        proof {
            if !old(self).member_ids().contains(worker_id@) {
                assert(self.member_ids() =~= old(self).member_ids().push(worker_id@));
            }
        }
    }

    /// Removes a member; the remaining members are renumbered densely in
    /// byte order of their ids.
    pub fn remove_worker(&mut self, worker_id: &str)
        requires
            old(self).wf(),
        ensures
            final(self).wf(),
            !old(self).member_ids().contains(worker_id@) ==> *final(self) == *old(self),
            old(self).member_ids().contains(worker_id@) ==> {
                &&& final(self).member_ids().len() == old(self).member_ids().len() - 1
                &&& ascending_ids(final(self).member_ids())
            },
            forall|w: WorkerState| #[trigger] final(self).members().contains(w) <==> (old(self).members().contains(w) && w.worker_id@ != worker_id@),
            forall|m: Seq<char>| #[trigger] final(self).member_ids().contains(m) <==> (old(self).member_ids().contains(m) && m != worker_id@),
            final(self).dataset_list() == old(self).dataset_list(),
            final(self).epochs() == old(self).epochs(),
    {
        let i = match self.find_worker(worker_id) {
            Some(i) => i,
            None => {
                proof {
                    assert forall|w: WorkerState| #[trigger] self.members().contains(w) implies w.worker_id@ != worker_id@ by {
                        let j = choose|j: int| 0 <= j < self.members().len() && self.members()[j] == w;
                        assert(self.member_ids()[j] == w.worker_id@);
                    }
                }
                return;
            },
        };
        let ghost pre = self.workers@;
        let mut rest: Vec<WorkerState> = Vec::new();
        std::mem::swap(&mut rest, &mut self.workers);
        let gone = rest.remove(i);
        proof {
            assert(gone.worker_id@ == worker_id@);
            assert(ids_of(rest@) =~= ids_of(pre).remove(i as int));
            assert forall|a: int, b: int| 0 <= a < b < ids_of(rest@).len() implies ids_of(rest@)[a] != ids_of(rest@)[b] by {
                if a < i && b < i {
                } else if a < i {
                    assert(ids_of(pre)[a] != ids_of(pre)[b + 1]);
                } else {
                    assert(ids_of(pre)[a + 1] != ids_of(pre)[b + 1]);
                }
            }
        }
        let sorted = sort_by_id(rest);
        self.workers = sorted;
        self.hash_ring.remove_node(worker_id);
        proof {
            assert forall|w: WorkerState| #[trigger] self.members().contains(w) <==> (pre.contains(w) && w.worker_id@ != worker_id@) by {
                if rest@.contains(w) {
                    let j = choose|j: int| 0 <= j < rest@.len() && rest@[j] == w;
                    if j < i {
                        assert(pre[j] == w);
                        assert(ids_of(pre)[j] != ids_of(pre)[i as int]);
                    } else {
                        assert(pre[j + 1] == w);
                        assert(ids_of(pre)[i as int] != ids_of(pre)[j + 1]);
                    }
                }
                if pre.contains(w) && w.worker_id@ != worker_id@ {
                    let j = choose|j: int| 0 <= j < pre.len() && pre[j] == w;
                    if j < i {
                        assert(rest@[j] == w);
                    } else if j > i {
                        assert(rest@[j - 1] == w);
                    }
                }
            }
            assert forall|m: Seq<char>| #[trigger] self.member_ids().contains(m) <==> (old(self).member_ids().contains(m) && m != worker_id@) by {
                if self.member_ids().contains(m) {
                    let j = choose|j: int| 0 <= j < self.member_ids().len() && self.member_ids()[j] == m;
                    assert(self.members().contains(self.members()[j]));
                    let k = choose|k: int| 0 <= k < pre.len() && pre[k] == self.members()[j];
                    assert(ids_of(pre)[k] == m);
                }
                if old(self).member_ids().contains(m) && m != worker_id@ {
                    let k = choose|k: int| 0 <= k < pre.len() && ids_of(pre)[k] == m;
                    assert(pre.contains(pre[k]));
                    assert(self.members().contains(pre[k]));
                    let j = choose|j: int| 0 <= j < self.members().len() && self.members()[j] == pre[k];
                    assert(self.member_ids()[j] == m);
                }
            }
            assert forall|m: Seq<char>| #[trigger] self.ring().node_ids().contains(m) <==> self.member_ids().contains(m) by {
            }
        }
    }

    /// Records a heartbeat of a member at time `now` and marks it healthy.
    pub fn heartbeat_at(&mut self, worker_id: &str, now: u64)
        requires
            old(self).wf(),
        ensures
            final(self).wf(),
            final(self).member_ids() == old(self).member_ids(),
            final(self).dataset_list() == old(self).dataset_list(),
            final(self).ring() == old(self).ring(),
            final(self).epochs() == old(self).epochs(),
            heartbeat_recorded(old(self).members(), final(self).members(), worker_id@, now),
    {
        match self.find_worker(worker_id) {
            Some(i) => {
                let ghost pre = self.workers@;
                let id = self.workers[i].worker_id.clone();
                self.workers.set(i, WorkerState { worker_id: id, healthy: true, last_heartbeat: now });
                proof {
                    assert(ids_of(self.workers@) =~= ids_of(pre));
                    assert forall|j: int| 0 <= j < self.members().len() implies {
                        let w = #[trigger] self.members()[j];
                        if w.worker_id@ == worker_id@ { w.healthy && w.last_heartbeat == now } else { w == old(self).members()[j] }
                    } by {
                        if j != i {
                            assert(ids_of(pre)[j] != ids_of(pre)[i as int] || j == i);
                            if j < i { assert(ids_of(pre)[j] != ids_of(pre)[i as int]); } else { assert(ids_of(pre)[i as int] != ids_of(pre)[j]); }
                        }
                    }
                }
            },
            None => {
                proof {
                    assert forall|j: int| 0 <= j < self.members().len() implies (#[trigger] self.members()[j]).worker_id@ != worker_id@ by {
                        assert(self.member_ids()[j] == self.members()[j].worker_id@);
                    }
                }
            },
        }
    }

    /// Records a heartbeat of a member with the clock and marks it healthy.
    pub fn heartbeat(&mut self, worker_id: &str)
        requires
            old(self).wf(),
        ensures
            final(self).wf(),
            exists|now: u64| #[trigger] heartbeat_recorded(old(self).members(), final(self).members(), worker_id@, now),
            final(self).member_ids() == old(self).member_ids(),
            final(self).dataset_list() == old(self).dataset_list(),
            final(self).ring() == old(self).ring(),
            final(self).epochs() == old(self).epochs(),
    {
        let now = crate::clock::unix_seconds();
        self.heartbeat_at(worker_id, now);
    }

    /// Shard ids of member `wi` for dataset `di` in `epoch`.
    fn shard_ids(&mut self, di: usize, wi: usize, epoch: u64) -> (r: Vec<u64>)
        requires
            old(self).wf(),
            di < old(self).dataset_list().len(),
            wi < old(self).member_ids().len(),
        ensures
            final(self).wf(),
            final(self).members() == old(self).members(),
            final(self).dataset_list() == old(self).dataset_list(),
            final(self).ring() == old(self).ring(),
            final(self).epochs().seed() == old(self).epochs().seed(),
            final(self).epochs().epoch_entries() == old(self).epochs().epoch_entries(),
            r@ == old(self).assigned_ids(old(self).dataset_list()[di as int].id@, old(self).member_ids()[wi as int], epoch),
            forall|i: int| 0 <= i < r@.len() ==> #[trigger] r@[i] < old(self).dataset_list()[di as int].total_shards,
            ({
                let d = old(self).dataset_list()[di as int];
                d.shuffle ==> is_range_permutation(shuffled_order(d.seed, d.id@, epoch, d.total_shards as nat), d.total_shards as nat)
            }),
    {
        let ghost ds = self.dataset_list()[di as int].id@;
        let ghost w = self.member_ids()[wi as int];
        proof {
            assert(dataset_ids(self.dataset_list())[di as int] == ds);
            assert(self.has_dataset(ds));
            let c = self.dataset_index(ds);
            if c != di {
                if c < di { assert(dataset_ids(self.dataset_list())[c] != dataset_ids(self.dataset_list())[di as int]); }
                else { assert(dataset_ids(self.dataset_list())[di as int] != dataset_ids(self.dataset_list())[c]); }
            }
            assert(self.member_ids().contains(w));
            lemma_ranks_dense(*self);
            assert(self.rank_of(self.member_ids()[wi as int]) == wi);
        }
        let total = self.datasets[di].total_shards;
        if self.datasets[di].shuffle {
            let world = self.workers.len() as u32;
            let ds_id = self.datasets[di].id.clone();
            let seed = self.datasets[di].seed;
            self.epoch_coordinator.get_worker_shards_with(seed, ds_id.as_str(), epoch, total, wi as u32, world)
        } else {
            let ds_id = self.datasets[di].id.clone();
            let w_id = self.workers[wi].worker_id.clone();
            self.hash_ring.get_shards_for_node(w_id.as_str(), ds_id.as_str(), total)
        }
    }

    /// The shard assignments of a member for a dataset in an epoch; `None`
    /// when the dataset is not registered or the worker is not a member.
    pub fn get_shard_for_worker(&mut self, dataset_id: &str, worker_id: &str, epoch: u64) -> (r:
        Option<Vec<ShardAssignment>>)
        requires
            old(self).wf(),
        ensures
            final(self).wf(),
            final(self).members() == old(self).members(),
            final(self).dataset_list() == old(self).dataset_list(),
            final(self).ring() == old(self).ring(),
            final(self).epochs().seed() == old(self).epochs().seed(),
            final(self).epochs().epoch_entries() == old(self).epochs().epoch_entries(),
            r is None <==> !old(self).has_dataset(dataset_id@) || !old(self).member_ids().contains(worker_id@),
            r is Some ==> {
                let ids = old(self).assigned_ids(dataset_id@, worker_id@, epoch);
                let d = old(self).dataset_of(dataset_id@);
                let v = r->Some_0@;
                &&& forall|i: int| 0 <= i < ids.len() ==> #[trigger] ids[i] < d.total_shards
                &&& (d.shuffle ==> is_range_permutation(shuffled_order(d.seed, dataset_id@, epoch, d.total_shards as nat), d.total_shards as nat))
                &&& v.len() == ids.len()
                &&& forall|i: int| 0 <= i < v.len() ==> #[trigger] v[i].describes(old(self).dataset_of(dataset_id@), ids[i], epoch)
            },
    {
        let di = match self.find_dataset(dataset_id) {
            Some(i) => i,
            None => { return None; },
        };
        let wi = match self.find_worker(worker_id) {
            Some(i) => i,
            None => { return None; },
        };
        let ids = self.shard_ids(di, wi, epoch);
        let mut out: Vec<ShardAssignment> = Vec::new();
        let mut j: usize = 0;
        while j < ids.len()
            invariant
                self.wf(),
                di < self.dataset_list().len(),
                self.dataset_list() == old(self).dataset_list(),
                j <= ids@.len(),
                out@.len() == j,
                forall|i: int| 0 <= i < ids@.len() ==> #[trigger] ids@[i] < self.dataset_list()[di as int].total_shards,
                forall|i: int| 0 <= i < j ==> #[trigger] out@[i].describes(self.dataset_list()[di as int], ids@[i], epoch),
            decreases ids@.len() - j,
        {
            let a = make_assignment(&self.datasets[di], ids[j], epoch);
            out.push(a);
            j = j + 1;
        }
        Some(out)
    }

    /// Fresh shard ids of every member for every dataset at the dataset's
    /// current epoch (nothing when no dataset is registered).
    pub fn rebalance_shards(&mut self) -> (r: Vec<(String, Vec<(String, Vec<u64>)>)>)
        requires
            old(self).wf(),
        ensures
            final(self).wf(),
            final(self).members() == old(self).members(),
            final(self).dataset_list() == old(self).dataset_list(),
            final(self).ring() == old(self).ring(),
            final(self).epochs().seed() == old(self).epochs().seed(),
            final(self).epochs().epoch_entries() == old(self).epochs().epoch_entries(),
            old(self).dataset_list().len() == 0 ==> r@.len() == 0,
            old(self).dataset_list().len() > 0 ==> r@.len() == old(self).member_ids().len(),
            forall|i: int| 0 <= i < r@.len() ==> {
                let row = #[trigger] r@[i];
                &&& row.0@ == old(self).member_ids()[i]
                &&& row.1@.len() == old(self).dataset_list().len()
                &&& forall|j: int| 0 <= j < row.1@.len() ==> {
                    let d = old(self).dataset_list()[j].id@;
                    &&& (#[trigger] row.1@[j]).0@ == d
                    &&& row.1@[j].1@ == old(self).assigned_ids(d, old(self).member_ids()[i], old(self).epochs().epoch_of(d))
                }
            },
    {
        let mut r: Vec<(String, Vec<(String, Vec<u64>)>)> = Vec::new();
        if self.datasets.len() == 0 {
            return r;
        }
        let mut wi: usize = 0;
        while wi < self.workers.len()
            invariant
                self.wf(),
                self.members() == old(self).members(),
                self.dataset_list() == old(self).dataset_list(),
                self.ring() == old(self).ring(),
                self.epochs().seed() == old(self).epochs().seed(),
                self.epochs().epoch_entries() == old(self).epochs().epoch_entries(),
                self.dataset_list().len() > 0,
                wi <= self.members().len(),
                r@.len() == wi,
                forall|i: int| 0 <= i < r@.len() ==> {
                    let row = #[trigger] r@[i];
                    &&& row.0@ == old(self).member_ids()[i]
                    &&& row.1@.len() == old(self).dataset_list().len()
                    &&& forall|j: int| 0 <= j < row.1@.len() ==> {
                        let d = old(self).dataset_list()[j].id@;
                        &&& (#[trigger] row.1@[j]).0@ == d
                        &&& row.1@[j].1@ == old(self).assigned_ids(d, old(self).member_ids()[i], old(self).epochs().epoch_of(d))
                    }
                },
            decreases self.members().len() - wi,
        {
            let mut row: Vec<(String, Vec<u64>)> = Vec::new();
            let mut di: usize = 0;
            while di < self.datasets.len()
                invariant
                    self.wf(),
                    self.members() == old(self).members(),
                    self.dataset_list() == old(self).dataset_list(),
                    self.ring() == old(self).ring(),
                    self.epochs().seed() == old(self).epochs().seed(),
                    self.epochs().epoch_entries() == old(self).epochs().epoch_entries(),
                    wi < self.members().len(),
                    di <= self.dataset_list().len(),
                    row@.len() == di,
                    forall|j: int| 0 <= j < row@.len() ==> {
                        let d = old(self).dataset_list()[j].id@;
                        &&& (#[trigger] row@[j]).0@ == d
                        &&& row@[j].1@ == old(self).assigned_ids(d, old(self).member_ids()[wi as int], old(self).epochs().epoch_of(d))
                    },
                decreases self.dataset_list().len() - di,
            {
                let ds_id = self.datasets[di].id.clone();
                let epoch = self.epoch_coordinator.current_epoch(ds_id.as_str());
                let ids = self.shard_ids(di, wi, epoch);
                proof {
                    assert(self.epochs().epoch_of(ds_id@) == old(self).epochs().epoch_of(ds_id@));
                }
                row.push((ds_id, ids));
                di = di + 1;
            }
            let w_id = self.workers[wi].worker_id.clone();
            r.push((w_id, row));
            wi = wi + 1;
        }
        r
    }

    /// The metadata of a registered dataset.
    pub fn get_dataset(&self, dataset_id: &str) -> (r: Option<DatasetMetadata>)
        requires
            self.wf(),
        ensures
            r is None <==> !self.has_dataset(dataset_id@),
            r is Some ==> r->Some_0.same_as(self.dataset_of(dataset_id@)),
    {
        match self.find_dataset(dataset_id) {
            Some(i) => Some(self.datasets[i].copy()),
            None => None,
        }
    }

    /// Number of members.
    pub fn active_worker_count(&self) -> (r: usize)
        ensures
            r == self.member_ids().len(),
    {
        self.workers.len()
    }

    /// Member ids in rank order.
    pub fn active_workers(&self) -> (r: Vec<String>)
        ensures
            string_views(r@) == self.member_ids(),
    {
        let mut r: Vec<String> = Vec::new();
        let mut i: usize = 0;
        while i < self.workers.len()
            invariant
                i <= self.workers@.len(),
                string_views(r@) == self.member_ids().subrange(0, i as int),
            decreases self.workers@.len() - i,
        {
            let c = self.workers[i].worker_id.clone();
            let ghost prev = r@;
            r.push(c);
            proof {
                assert(string_views(r@) =~= string_views(prev).push(c@));
            }
            i = i + 1;
            assert(string_views(r@) =~= self.member_ids().subrange(0, i as int));
        }
        assert(self.member_ids().subrange(0, i as int) =~= self.member_ids());
        r
    }

    /// Number of registered datasets.
    pub fn dataset_count(&self) -> (r: usize)
        ensures
            r == self.dataset_list().len(),
    {
        self.datasets.len()
    }

    /// Registered dataset ids.
    pub fn datasets(&self) -> (r: Vec<String>)
        ensures
            string_views(r@) == dataset_ids(self.dataset_list()),
    {
        let mut r: Vec<String> = Vec::new();
        let mut i: usize = 0;
        while i < self.datasets.len()
            invariant
                i <= self.datasets@.len(),
                string_views(r@) == dataset_ids(self.dataset_list()).subrange(0, i as int),
            decreases self.datasets@.len() - i,
        {
            let c = self.datasets[i].id.clone();
            let ghost prev = r@;
            r.push(c);
            proof {
                assert(string_views(r@) =~= string_views(prev).push(c@));
            }
            i = i + 1;
            assert(string_views(r@) =~= dataset_ids(self.dataset_list()).subrange(0, i as int));
        }
        assert(dataset_ids(self.dataset_list()).subrange(0, i as int) =~= dataset_ids(self.dataset_list()));
        r
    }

    /// Moves a registered dataset to its next epoch; `None` if not registered.
    pub fn advance_epoch(&mut self, dataset_id: &str) -> (r: Option<u64>)
        requires
            old(self).wf(),
            old(self).epochs().epoch_of(dataset_id@) < u64::MAX,
        ensures
            final(self).wf(),
            final(self).members() == old(self).members(),
            final(self).dataset_list() == old(self).dataset_list(),
            final(self).ring() == old(self).ring(),
            final(self).epochs().seed() == old(self).epochs().seed(),
            r is None <==> !old(self).has_dataset(dataset_id@),
            r is None ==> final(self).epochs() == old(self).epochs(),
            r is Some ==> r->Some_0 == old(self).epochs().epoch_of(dataset_id@) + 1
                && final(self).epochs().epoch_of(dataset_id@) == r->Some_0,
            forall|d: Seq<char>| d != dataset_id@ ==> #[trigger] final(self).epochs().epoch_of(d) == old(self).epochs().epoch_of(d),
    {
        match self.find_dataset(dataset_id) {
            Some(_) => Some(self.epoch_coordinator.advance_epoch(dataset_id)),
            None => None,
        }
    }

    /// The current epoch of a dataset.
    pub fn current_epoch(&self, dataset_id: &str) -> (r: u64)
        requires
            self.wf(),
        ensures
            r == self.epochs().epoch_of(dataset_id@),
    {
        self.epoch_coordinator.current_epoch(dataset_id)
    }

    /// The hash ring.
    pub fn hash_ring(&self) -> (r: &ConsistentHash)
        ensures
            *r == self.ring(),
    {
        &self.hash_ring
    }

    /// The epoch coordinator.
    pub fn epoch_coordinator(&self) -> (r: &EpochCoordinator)
        ensures
            *r == self.epochs(),
    {
        &self.epoch_coordinator
    }

    /// Marks unhealthy every member whose last heartbeat is more than
    /// `timeout_seconds` before `now`.
    pub fn check_worker_health_at(&mut self, timeout_seconds: u64, now: u64)
        requires
            old(self).wf(),
        ensures
            final(self).wf(),
            final(self).member_ids() == old(self).member_ids(),
            final(self).dataset_list() == old(self).dataset_list(),
            final(self).ring() == old(self).ring(),
            final(self).epochs() == old(self).epochs(),
            health_checked(old(self).members(), final(self).members(), timeout_seconds, now),
    {
        let mut i: usize = 0;
        while i < self.workers.len()
            invariant
                self.datasets == old(self).datasets,
                self.hash_ring == old(self).hash_ring,
                self.epoch_coordinator == old(self).epoch_coordinator,
                self.workers@.len() == old(self).workers@.len(),
                i <= self.workers@.len(),
                forall|j: int| i <= j < self.workers@.len() ==> #[trigger] self.workers@[j] == old(self).workers@[j],
                forall|j: int| 0 <= j < i ==> {
                    let w = old(self).workers@[j];
                    let stale = w.last_heartbeat <= now && now - w.last_heartbeat > timeout_seconds;
                    &&& (#[trigger] self.workers@[j]).worker_id == w.worker_id
                    &&& self.workers@[j].last_heartbeat == w.last_heartbeat
                    &&& self.workers@[j].healthy == (w.healthy && !stale)
                },
            decreases self.workers@.len() - i,
        {
            let last = self.workers[i].last_heartbeat;
            if last <= now && now - last > timeout_seconds {
                let id = self.workers[i].worker_id.clone();
                self.workers.set(i, WorkerState { worker_id: id, healthy: false, last_heartbeat: last });
            }
            i = i + 1;
        }
        proof {
            assert(ids_of(self.workers@) =~= ids_of(old(self).workers@));
        }
    }

    /// Marks stale members unhealthy, using the clock.
    pub fn check_worker_health(&mut self, timeout_seconds: u64)
        requires
            old(self).wf(),
        ensures
            final(self).wf(),
            final(self).ring() == old(self).ring(),
            final(self).epochs() == old(self).epochs(),
            exists|now: u64| #[trigger] health_checked(old(self).members(), final(self).members(), timeout_seconds, now),
            final(self).member_ids() == old(self).member_ids(),
            final(self).dataset_list() == old(self).dataset_list(),
    {
        let now = crate::clock::unix_seconds();
        self.check_worker_health_at(timeout_seconds, now);
    }

    /// Removes every unhealthy member and returns their ids in rank order.
    pub fn remove_unhealthy_workers(&mut self) -> (r: Vec<String>)
        requires
            old(self).wf(),
        ensures
            final(self).wf(),
            final(self).dataset_list() == old(self).dataset_list(),
            forall|m: Seq<char>| #[trigger] string_views(r@).contains(m) <==> exists|i: int|
                0 <= i < old(self).members().len() && old(self).members()[i].worker_id@ == m
                    && !old(self).members()[i].healthy,
            forall|m: Seq<char>| #[trigger] final(self).member_ids().contains(m) <==> (old(self).member_ids().contains(m)
                && !string_views(r@).contains(m)),
    {
        let mut gone: Vec<String> = Vec::new();
        let mut i: usize = 0;
        while i < self.workers.len()
            invariant
                i <= self.workers@.len(),
                forall|m: Seq<char>| #[trigger] string_views(gone@).contains(m) <==> exists|j: int|
                    0 <= j < i && self.members()[j].worker_id@ == m && !self.members()[j].healthy,
            decreases self.workers@.len() - i,
        {
            if !self.workers[i].healthy {
                let c = self.workers[i].worker_id.clone();
                let ghost prev = gone@;
                gone.push(c);
                proof {
                    assert(string_views(gone@) =~= string_views(prev).push(c@));
                    assert forall|m: Seq<char>| #[trigger] string_views(gone@).contains(m) <==> exists|j: int|
                        0 <= j < i + 1 && self.members()[j].worker_id@ == m && !self.members()[j].healthy by {
                        if string_views(gone@).contains(m) && m != c@ {
                            let k = choose|k: int| 0 <= k < string_views(gone@).len() && string_views(gone@)[k] == m;
                            assert(string_views(prev)[k] == m);
                            assert(string_views(prev).contains(m));
                        }
                        if m == c@ {
                            assert(string_views(gone@)[string_views(gone@).len() - 1] == m);
                            assert(self.members()[i as int].worker_id@ == m && !self.members()[i as int].healthy);
                        }
                        if exists|j: int| 0 <= j < i + 1 && self.members()[j].worker_id@ == m && !self.members()[j].healthy {
                            if m != c@ {
                                let j = choose|j: int| 0 <= j < i + 1 && self.members()[j].worker_id@ == m && !self.members()[j].healthy;
                                assert(j < i);
                                assert(string_views(prev).contains(m));
                                let k = choose|k: int| 0 <= k < string_views(prev).len() && string_views(prev)[k] == m;
                                assert(string_views(gone@)[k] == m);
                            }
                        }
                    }
                }
            } else {
                proof {
                    assert forall|m: Seq<char>| #[trigger] string_views(gone@).contains(m) <==> exists|j: int|
                        0 <= j < i + 1 && self.members()[j].worker_id@ == m && !self.members()[j].healthy by {
                        if exists|j: int| 0 <= j < i + 1 && self.members()[j].worker_id@ == m && !self.members()[j].healthy {
                            let j = choose|j: int| 0 <= j < i + 1 && self.members()[j].worker_id@ == m && !self.members()[j].healthy;
                            assert(j < i);
                        }
                    }
                }
            }
            i = i + 1;
        }
        let mut k: usize = 0;
        while k < gone.len()
            invariant
                self.wf(),
                self.dataset_list() == old(self).dataset_list(),
                k <= gone@.len(),
                forall|m: Seq<char>| #[trigger] self.member_ids().contains(m) <==> (old(self).member_ids().contains(m)
                    && !string_views(gone@).subrange(0, k as int).contains(m)),
            decreases gone@.len() - k,
        {
            let ghost before = self.member_ids();
            self.remove_worker(gone[k].as_str());
            proof {
                let g = string_views(gone@);
                let g1 = g.subrange(0, k + 1);
                let g0 = g.subrange(0, k as int);
                assert(g1 =~= g0.push(gone@[k as int]@));
                assert forall|m: Seq<char>| #[trigger] self.member_ids().contains(m) <==> (old(self).member_ids().contains(m)
                    && !g1.contains(m)) by {
                    if g1.contains(m) && m != gone@[k as int]@ {
                        let q = choose|q: int| 0 <= q < g1.len() && g1[q] == m;
                        assert(g0[q] == m);
                    }
                    if g0.contains(m) {
                        let q = choose|q: int| 0 <= q < g0.len() && g0[q] == m;
                        assert(g1[q] == m);
                    }
                    if m == gone@[k as int]@ {
                        assert(g1[k as int] == m);
                    }
                }
            }
            k = k + 1;
        }
        assert(string_views(gone@).subrange(0, k as int) =~= string_views(gone@));
        gone
    }
}

/// Ranks are dense: with `n` members, every rank in `[0, n)` belongs to
/// exactly one member (the member at that place), and every member has one.
pub proof fn lemma_ranks_dense(m: ShardManager)
    requires
        m.wf(),
    ensures
        forall|k: int| 0 <= k < m.member_ids().len() ==> m.rank_of(#[trigger] m.member_ids()[k]) == k,
        forall|w: Seq<char>| #[trigger] m.member_ids().contains(w) ==> 0 <= m.rank_of(w) < m.member_ids().len()
            && m.member_ids()[m.rank_of(w)] == w,
{
    let ids = m.member_ids();
    assert forall|k: int| 0 <= k < ids.len() implies m.rank_of(#[trigger] ids[k]) == k by {
        assert(ids.contains(ids[k]));
        let c = m.rank_of(ids[k]);
        if c != k {
            if c < k { assert(ids[c] != ids[k]); } else { assert(ids[k] != ids[c]); }
        }
    }
}

} // verus!