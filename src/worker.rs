//! Worker records, their life-cycle states, and the registry with liveness.

use vstd::prelude::*;
use vstd::string::StringExecFns;
use crate::error::Error;
use crate::types::{copy_pairs, pair_views};

verus! {

/// Life-cycle state of a worker.
#[derive(Debug, Clone, Copy, PartialEq, Eq, Structural)]
pub enum WorkerState {
    Initializing,
    Idle,
    LoadingData,
    Training,
    Checkpointing,
    Recovering,
    Error,
    Disconnecting,
    Dead,
}

/// States counted as active: Idle, LoadingData, Training, Checkpointing, Recovering.
pub open spec fn active_state(s: WorkerState) -> bool {
    ||| s == WorkerState::Idle
    ||| s == WorkerState::LoadingData
    ||| s == WorkerState::Training
    ||| s == WorkerState::Checkpointing
    ||| s == WorkerState::Recovering
}

/// The allowed moves of the life cycle: the forward edges, and from any
/// state to Error, Dead or Recovering.
pub open spec fn transition_allowed(from: WorkerState, to: WorkerState) -> bool {
    ||| to == WorkerState::Error
    ||| to == WorkerState::Dead
    ||| to == WorkerState::Recovering
    ||| (from == WorkerState::Initializing && to == WorkerState::Idle)
    ||| (from == WorkerState::Idle && (to == WorkerState::LoadingData || to == WorkerState::Training
        || to == WorkerState::Checkpointing || to == WorkerState::Disconnecting))
    ||| (from == WorkerState::LoadingData && to == WorkerState::Training)
    ||| (from == WorkerState::Training && (to == WorkerState::LoadingData || to == WorkerState::Checkpointing
        || to == WorkerState::Disconnecting))
    ||| (from == WorkerState::Checkpointing && to == WorkerState::Training)
}

impl WorkerState {
    /// Whether the state is an active one.
    pub fn is_active(&self) -> (r: bool)
        ensures
            r == active_state(*self),
    {
        match self {
            WorkerState::Idle => true,
            WorkerState::LoadingData => true,
            WorkerState::Training => true,
            WorkerState::Checkpointing => true,
            WorkerState::Recovering => true,
            _ => false,
        }
    }

    /// Whether the worker can take new work: only when idle.
    pub fn can_accept_work(&self) -> (r: bool)
        ensures
            r == (*self == WorkerState::Idle),
    {
        match self {
            WorkerState::Idle => true,
            _ => false,
        }
    }

    /// Whether the life cycle allows moving to `next`.
    pub fn can_transition_to(&self, next: WorkerState) -> (r: bool)
        ensures
            r == transition_allowed(*self, next),
    {
        match next {
            WorkerState::Error | WorkerState::Dead | WorkerState::Recovering => true,
            _ => match self {
                WorkerState::Initializing => next == WorkerState::Idle,
                WorkerState::Idle => next == WorkerState::LoadingData || next == WorkerState::Training
                    || next == WorkerState::Checkpointing || next == WorkerState::Disconnecting,
                WorkerState::LoadingData => next == WorkerState::Training,
                WorkerState::Training => next == WorkerState::LoadingData || next == WorkerState::Checkpointing
                    || next == WorkerState::Disconnecting,
                WorkerState::Checkpointing => next == WorkerState::Training,
                _ => false,
            },
        }
    }
}

/// Metrics of one GPU. Percentages and temperatures are in thousandths.
#[derive(Debug, Clone, Copy, Default, PartialEq, Eq, Structural)]
pub struct GpuMetrics {
    pub gpu_id: u32,
    pub utilization_milli_percent: u64,
    pub memory_used_bytes: u64,
    pub memory_total_bytes: u64,
    pub temperature_milli_celsius: i64,
}

/// Resource usage of a worker. The CPU share is in thousandths of a percent.
#[derive(Debug, Clone)]
pub struct ResourceMetrics {
    pub cpu_milli_percent: u64,
    pub memory_used_bytes: u64,
    pub gpu_metrics: Vec<GpuMetrics>,
    pub disk_read_bytes: u64,
    pub disk_write_bytes: u64,
    pub network_rx_bytes: u64,
    pub network_tx_bytes: u64,
}

/// What a resource report holds, as plain values.
pub struct ResourceView {
    pub cpu: u64,
    pub memory: u64,
    pub gpus: Seq<GpuMetrics>,
    pub disk_read: u64,
    pub disk_write: u64,
    pub net_rx: u64,
    pub net_tx: u64,
}

impl View for ResourceMetrics {
    type V = ResourceView;

    open spec fn view(&self) -> ResourceView {
        ResourceView {
            cpu: self.cpu_milli_percent,
            memory: self.memory_used_bytes,
            gpus: self.gpu_metrics@,
            disk_read: self.disk_read_bytes,
            disk_write: self.disk_write_bytes,
            net_rx: self.network_rx_bytes,
            net_tx: self.network_tx_bytes,
        }
    }
}

/// Copies GPU metrics.
fn copy_gpus(v: &Vec<GpuMetrics>) -> (r: Vec<GpuMetrics>)
    ensures
        r@ == v@,
{
    let mut r: Vec<GpuMetrics> = Vec::new();
    let mut i: usize = 0;
    while i < v.len()
        invariant
            i <= v@.len(),
            r@ == v@.subrange(0, i as int),
        decreases v@.len() - i,
    {
        r.push(v[i]);
        i = i + 1;
        assert(r@ =~= v@.subrange(0, i as int));
    }
    assert(v@.subrange(0, i as int) =~= v@);
    r
}

impl ResourceMetrics {
    /// No usage at all.
    pub fn zero() -> (r: Self)
        ensures
            r@ == (ResourceView { cpu: 0, memory: 0, gpus: Seq::empty(), disk_read: 0, disk_write: 0, net_rx: 0, net_tx: 0 }),
    {
        let r = ResourceMetrics {
            cpu_milli_percent: 0,
            memory_used_bytes: 0,
            gpu_metrics: Vec::new(),
            disk_read_bytes: 0,
            disk_write_bytes: 0,
            network_rx_bytes: 0,
            network_tx_bytes: 0,
        };
        assert(r@.gpus =~= Seq::<GpuMetrics>::empty());
        r
    }

    /// A copy holding the same values.
    pub fn copy(&self) -> (r: Self)
        ensures
            r@ == self@,
    {
        ResourceMetrics {
            cpu_milli_percent: self.cpu_milli_percent,
            memory_used_bytes: self.memory_used_bytes,
            gpu_metrics: copy_gpus(&self.gpu_metrics),
            disk_read_bytes: self.disk_read_bytes,
            disk_write_bytes: self.disk_write_bytes,
            network_rx_bytes: self.network_rx_bytes,
            network_tx_bytes: self.network_tx_bytes,
        }
    }
}

/// Sum that stops at the largest value.
pub open spec fn sat_add(a: u64, b: u64) -> u64 {
    if a as int + b as int > u64::MAX { u64::MAX } else { (a + b) as u64 }
}

/// The sum of resource reports, counters saturating, GPU lists concatenated.
pub open spec fn sum_resources(s: Seq<ResourceView>) -> ResourceView
    decreases s.len(),
{
    if s.len() == 0 {
        ResourceView { cpu: 0, memory: 0, gpus: Seq::empty(), disk_read: 0, disk_write: 0, net_rx: 0, net_tx: 0 }
    } else {
        let a = sum_resources(s.drop_last());
        let b = s.last();
        ResourceView {
            cpu: sat_add(a.cpu, b.cpu),
            memory: sat_add(a.memory, b.memory),
            gpus: a.gpus + b.gpus,
            disk_read: sat_add(a.disk_read, b.disk_read),
            disk_write: sat_add(a.disk_write, b.disk_write),
            net_rx: sat_add(a.net_rx, b.net_rx),
            net_tx: sat_add(a.net_tx, b.net_tx),
        }
    }
}

/// A worker's record.
#[derive(Debug, Clone)]
pub struct WorkerInfo {
    pub id: String,
    pub hostname: String,
    pub port: u16,
    pub rank: u32,
    pub world_size: u32,
    pub gpu_count: u32,
    pub memory_bytes: u64,
    pub state: WorkerState,
    /// Last heartbeat, milliseconds since the Unix epoch.
    pub last_heartbeat_ms: i64,
    /// Registration time, milliseconds since the Unix epoch.
    pub registered_at_ms: i64,
    pub current_step: u64,
    pub current_epoch: u64,
    pub current_task: String,
    pub resources: ResourceMetrics,
    pub metadata: Vec<(String, String)>,
}

impl WorkerInfo {
    /// A fresh record in state Initializing, stamped `now_ms`.
    pub fn new(id: String, hostname: String, port: u16, rank: u32, world_size: u32, now_ms: i64) -> (r: Self)
        ensures
            r.id == id,
            r.hostname == hostname,
            r.port == port,
            r.rank == rank,
            r.world_size == world_size,
            r.gpu_count == 0,
            r.memory_bytes == 0,
            r.state == WorkerState::Initializing,
            r.last_heartbeat_ms == now_ms,
            r.registered_at_ms == now_ms,
            r.current_step == 0,
            r.current_epoch == 0,
            r.current_task@.len() == 0,
            r.metadata@.len() == 0,
    {
        WorkerInfo {
            id,
            hostname,
            port,
            rank,
            world_size,
            gpu_count: 0,
            memory_bytes: 0,
            state: WorkerState::Initializing,
            last_heartbeat_ms: now_ms,
            registered_at_ms: now_ms,
            current_step: 0,
            current_epoch: 0,
            current_task: String::new(),
            resources: ResourceMetrics::zero(),
            metadata: Vec::new(),
        }
    }

    /// Same values, field by field.
    pub open spec fn same_as(&self, o: WorkerInfo) -> bool {
        &&& self.id@ == o.id@
        &&& self.hostname@ == o.hostname@
        &&& self.port == o.port
        &&& self.rank == o.rank
        &&& self.world_size == o.world_size
        &&& self.gpu_count == o.gpu_count
        &&& self.memory_bytes == o.memory_bytes
        &&& self.state == o.state
        &&& self.last_heartbeat_ms == o.last_heartbeat_ms
        &&& self.registered_at_ms == o.registered_at_ms
        &&& self.current_step == o.current_step
        &&& self.current_epoch == o.current_epoch
        &&& self.current_task@ == o.current_task@
        &&& self.resources@ == o.resources@
        &&& pair_views(self.metadata@) == pair_views(o.metadata@)
    }

    /// A copy holding the same values.
    pub fn copy(&self) -> (r: Self)
        ensures
            r.same_as(*self),
    {
        WorkerInfo {
            id: self.id.clone(),
            hostname: self.hostname.clone(),
            port: self.port,
            rank: self.rank,
            world_size: self.world_size,
            gpu_count: self.gpu_count,
            memory_bytes: self.memory_bytes,
            state: self.state,
            last_heartbeat_ms: self.last_heartbeat_ms,
            registered_at_ms: self.registered_at_ms,
            current_step: self.current_step,
            current_epoch: self.current_epoch,
            current_task: self.current_task.clone(),
            resources: self.resources.copy(),
            metadata: copy_pairs(&self.metadata),
        }
    }

    /// More than `timeout_ms` passed between the last heartbeat and `now`.
    pub open spec fn dead_at(&self, timeout_ms: u64, now: i64) -> bool {
        now as int - self.last_heartbeat_ms as int > timeout_ms as int
    }

    /// Milliseconds from the last heartbeat to `now` (0 if `now` is earlier).
    pub open spec fn silence_at(&self, now: i64) -> u64 {
        if now >= self.last_heartbeat_ms { (now - self.last_heartbeat_ms) as u64 } else { 0 }
    }

    /// Records a heartbeat at `now_ms` with fresh resources.
    pub fn heartbeat_at(&mut self, resources: ResourceMetrics, now_ms: i64)
        ensures
            final(self).last_heartbeat_ms == now_ms,
            final(self).resources == resources,
            final(self).id == old(self).id,
            final(self).state == old(self).state,
            final(self).rank == old(self).rank,
    {
        self.last_heartbeat_ms = now_ms;
        self.resources = resources;
    }

    /// Records a heartbeat with fresh resources, stamped with the clock.
    pub fn heartbeat(&mut self, resources: ResourceMetrics)
        ensures
            final(self).resources == resources,
            final(self).id == old(self).id,
            final(self).state == old(self).state,
    {
        let now = crate::clock::unix_millis();
        self.heartbeat_at(resources, now);
    }

    /// Whether more than `timeout_ms` passed since the last heartbeat, by the clock.
    pub fn is_dead(&self, timeout_ms: u64) -> (r: bool)
        ensures
            exists|now: i64| r == #[trigger] self.dead_at(timeout_ms, now),
    {
        let now = crate::clock::unix_millis();
        self.is_dead_at(timeout_ms, now)
    }

    /// Milliseconds since the last heartbeat, by the clock.
    pub fn time_since_heartbeat(&self) -> (r: u64)
        ensures
            exists|now: i64| r == #[trigger] self.silence_at(now),
    {
        let now = crate::clock::unix_millis();
        self.time_since_heartbeat_at(now)
    }

    /// Whether more than `timeout_ms` passed between the last heartbeat and `now_ms`.
    pub fn is_dead_at(&self, timeout_ms: u64, now_ms: i64) -> (r: bool)
        ensures
            r == self.dead_at(timeout_ms, now_ms),
    {
        let elapsed = now_ms as i128 - self.last_heartbeat_ms as i128;
        elapsed > timeout_ms as i128
    }

    /// Milliseconds since the last heartbeat (0 if the clock is behind it).
    pub fn time_since_heartbeat_at(&self, now_ms: i64) -> (r: u64)
        ensures
            r == self.silence_at(now_ms),
    {
        if now_ms >= self.last_heartbeat_ms {
            (now_ms as i128 - self.last_heartbeat_ms as i128) as u64
        } else {
            0
        }
    }
}

/// Views of worker ids.
pub open spec fn worker_ids(s: Seq<WorkerInfo>) -> Seq<Seq<char>> {
    s.map_values(|w: WorkerInfo| w.id@)
}

/// Registry of workers keyed by id.
pub struct WorkerRegistry {
    /// Records; ids are distinct.
    workers: Vec<WorkerInfo>,
    /// Capacity.
    max_workers: usize,
    /// Silence after which a worker is dead, in milliseconds.
    heartbeat_timeout_ms: u64,
}

impl WorkerRegistry {
    pub closed spec fn records(&self) -> Seq<WorkerInfo> {
        self.workers@
    }

    /// The rank the next registration gets: the world size.
    pub open spec fn next_rank(&self) -> u64 {
        self.records().len() as u64
    }

    pub closed spec fn capacity(&self) -> nat {
        self.max_workers as nat
    }

    pub closed spec fn timeout_ms(&self) -> u64 {
        self.heartbeat_timeout_ms
    }

    /// Whether a worker is registered.
    pub open spec fn has(&self, id: Seq<char>) -> bool {
        worker_ids(self.records()).contains(id)
    }

    /// Ids are distinct and ranks are dense: each record's rank is its place.
    pub open spec fn wf(&self) -> bool {
        &&& forall|a: int, b: int| 0 <= a < b < self.records().len() ==> self.records()[a].id@ != self.records()[b].id@
        &&& forall|i: int| 0 <= i < self.records().len() ==> (#[trigger] self.records()[i]).rank == i as u32
    }

    /// An empty registry.
    pub fn new(max_workers: usize, heartbeat_timeout_ms: u64) -> (r: Self)
        ensures
            r.wf(),
            r.records().len() == 0,
            r.next_rank() == 0,
            r.capacity() == max_workers,
            r.timeout_ms() == heartbeat_timeout_ms,
    {
        WorkerRegistry { workers: Vec::new(), max_workers, heartbeat_timeout_ms }
    }

    fn find(&self, id: &str) -> (r: Option<usize>)
        requires
            self.wf(),
        ensures
            match r {
                Some(i) => i < self.records().len() && self.records()[i as int].id@ == id@ && self.has(id@)
                    && forall|a: int| 0 <= a < self.records().len() && a != i ==> self.records()[a].id@ != id@,
                None => !self.has(id@),
            },
    {
        let name = id.to_owned();
        let mut i: usize = 0;
        while i < self.workers.len()
            invariant
                self.wf(),
                name@ == id@,
                i <= self.workers@.len(),
                forall|a: int| 0 <= a < i ==> self.records()[a].id@ != id@,
            decreases self.workers@.len() - i,
        {
            if self.workers[i].id == name {
                proof {
                    assert(worker_ids(self.records())[i as int] == id@);
                    assert forall|a: int| 0 <= a < self.records().len() && a != i implies self.records()[a].id@ != id@ by {
                        if a < i {} else { assert(self.records()[i as int].id@ != self.records()[a].id@); }
                    }
                }
                return Some(i);
            }
            i = i + 1;
        }
        proof {
            if self.has(id@) {
                let j = choose|j: int| 0 <= j < worker_ids(self.records()).len() && worker_ids(self.records())[j] == id@;
                assert(self.records()[j].id@ == id@);
            }
        }
        None
    }

    /// Registers a worker at time `now_ms`: fails when the registry is full
    /// or the id is taken; else the worker gets the next rank, state Idle and
    /// the registration time, and the stored record is returned.
    pub fn register_at(&mut self, worker: WorkerInfo, now_ms: i64) -> (r: Result<WorkerInfo, Error>)
        requires
            old(self).wf(),
        ensures
            final(self).wf(),
            final(self).capacity() == old(self).capacity(),
            final(self).timeout_ms() == old(self).timeout_ms(),
            registration(*old(self), *final(self), worker, now_ms, r),
    {
        if self.workers.len() >= self.max_workers {
            return Err(Error::InvalidConfig { message: String::from_str("Maximum workers reached") });
        }
        match self.find(worker.id.as_str()) {
            Some(_) => {
                return Err(Error::WorkerAlreadyRegistered { worker_id: worker.id.clone() });
            },
            None => {},
        }
        let rank = self.workers.len() as u32;
        let mut w = worker;
        w.rank = rank;
        w.state = WorkerState::Idle;
        w.registered_at_ms = now_ms;
        w.last_heartbeat_ms = now_ms;
        let result = w.copy();
        let ghost pre = self.workers@;
        self.workers.push(w);
        proof {
            assert forall|a: int, b: int| 0 <= a < b < self.records().len() implies self.records()[a].id@ != self.records()[b].id@ by {
                if b == pre.len() {
                    if pre[a].id@ == worker.id@ {
                        assert(worker_ids(pre)[a] == worker.id@);
                        assert(worker_ids(pre).contains(worker.id@));
                    }
                }
            }
        }
        Ok(result)
    }

    /// Registers a worker, stamped with the clock.
    pub fn register(&mut self, worker: WorkerInfo) -> (r: Result<WorkerInfo, Error>)
        requires
            old(self).wf(),
        ensures
            final(self).wf(),
            final(self).capacity() == old(self).capacity(),
            final(self).timeout_ms() == old(self).timeout_ms(),
            exists|now: i64| #[trigger] registration(*old(self), *final(self), worker, now, r),
    {
        let now = crate::clock::unix_millis();
        self.register_at(worker, now)
    }

    /// Gives every record from `from` on its place as rank.
    fn renumber(&mut self, from: usize)
        requires
            from <= old(self).records().len(),
            forall|a: int, b: int| 0 <= a < b < old(self).records().len() ==> old(self).records()[a].id@ != old(self).records()[b].id@,
            forall|i: int| 0 <= i < from ==> (#[trigger] old(self).records()[i]).rank == i as u32,
        ensures
            final(self).wf(),
            final(self).capacity() == old(self).capacity(),
            final(self).timeout_ms() == old(self).timeout_ms(),
            final(self).records().len() == old(self).records().len(),
            forall|i: int| 0 <= i < final(self).records().len() ==> #[trigger] final(self).records()[i] == (WorkerInfo { rank: i as u32, ..old(self).records()[i] }),
            worker_ids(final(self).records()) == worker_ids(old(self).records()),
    {
        let mut j: usize = from;
        while j < self.workers.len()
            invariant
                from <= j <= self.workers@.len(),
                self.workers@.len() == old(self).workers@.len(),
                self.max_workers == old(self).max_workers,
                self.heartbeat_timeout_ms == old(self).heartbeat_timeout_ms,
                forall|i: int| 0 <= i < from ==> #[trigger] self.workers@[i] == old(self).workers@[i],
                forall|i: int| from <= i < j ==> #[trigger] self.workers@[i] == (WorkerInfo { rank: i as u32, ..old(self).workers@[i] }),
                forall|i: int| j <= i < self.workers@.len() ==> #[trigger] self.workers@[i] == old(self).workers@[i],
            decreases self.workers@.len() - j,
        {
            let mut w = self.workers.remove(j);
            w.rank = j as u32;
            self.workers.insert(j, w);
            j = j + 1;
        }
        proof {
            assert forall|i: int| 0 <= i < self.records().len() implies #[trigger] self.records()[i] == (WorkerInfo { rank: i as u32, ..old(self).records()[i] }) by {
                if i < from {
                    assert(old(self).records()[i].rank == i as u32);
                }
            }
            assert(worker_ids(self.records()) =~= worker_ids(old(self).records()));
            assert forall|a: int, b: int| 0 <= a < b < self.records().len() implies self.records()[a].id@ != self.records()[b].id@ by {
                assert(self.records()[a].id == old(self).records()[a].id);
                assert(self.records()[b].id == old(self).records()[b].id);
            }
        }
    }

    /// Removes a worker and returns its record; the later workers move up one
    /// rank.
    pub fn deregister(&mut self, worker_id: &str) -> (r: Result<WorkerInfo, Error>)
        requires
            old(self).wf(),
        ensures
            final(self).wf(),
            final(self).capacity() == old(self).capacity(),
            final(self).timeout_ms() == old(self).timeout_ms(),
            r is Ok <==> old(self).has(worker_id@),
            r is Err ==> r->Err_0 is WorkerNotFound && final(self).records() == old(self).records(),
            r is Ok ==> r->Ok_0.id@ == worker_id@ && !final(self).has(worker_id@)
                && final(self).records().len() == old(self).records().len() - 1,
            forall|m: Seq<char>| m != worker_id@ ==> (#[trigger] final(self).has(m) == old(self).has(m)),
    {
        match self.find(worker_id) {
            Some(i) => {
                let ghost pre = self.workers@;
                let w = self.workers.remove(i);
                let ghost mid = self.workers@;
                proof {
                    assert(mid =~= pre.remove(i as int));
                    assert forall|j: int| 0 <= j < i implies (#[trigger] mid[j]).rank == j as u32 by {
                        assert(mid[j] == pre[j]);
                    }
                    assert forall|a: int, b: int| 0 <= a < b < mid.len() implies mid[a].id@ != mid[b].id@ by {
                        let aa = if a < i { a } else { a + 1 };
                        let bb = if b < i { b } else { b + 1 };
                        assert(pre[aa].id@ != pre[bb].id@);
                    }
                }
                self.renumber(i);
                proof {
                    assert(worker_ids(self.records()) == worker_ids(mid));
                    assert(self.records().len() == mid.len());
                    assert(worker_ids(mid) =~= worker_ids(pre).remove(i as int));
                    assert forall|m: Seq<char>| m != worker_id@ implies (#[trigger] self.has(m) == old(self).has(m)) by {
                        if self.has(m) {
                            let j = choose|j: int| 0 <= j < worker_ids(self.records()).len() && worker_ids(self.records())[j] == m;
                            let jj = if j < i { j } else { j + 1 };
                            assert(worker_ids(pre)[jj] == m);
                        }
                        if old(self).has(m) {
                            let j = choose|j: int| 0 <= j < worker_ids(pre).len() && worker_ids(pre)[j] == m;
                            assert(j != i);
                            let jj = if j < i { j } else { j - 1 };
                            assert(worker_ids(self.records())[jj] == m);
                        }
                    }
                    if self.has(worker_id@) {
                        let j = choose|j: int| 0 <= j < worker_ids(self.records()).len() && worker_ids(self.records())[j] == worker_id@;
                        let jj = if j < i { j } else { j + 1 };
                        assert(pre[jj].id@ == worker_id@);
                    }
                }
                Ok(w)
            },
            None => Err(Error::WorkerNotFound { worker_id: worker_id.to_owned() }),
        }
    }

    /// A copy of a worker's record.
    pub fn get(&self, worker_id: &str) -> (r: Option<WorkerInfo>)
        requires
            self.wf(),
        ensures
            r is None <==> !self.has(worker_id@),
            r is Some ==> exists|i: int| 0 <= i < self.records().len() && r->Some_0.same_as(#[trigger] self.records()[i])
                && self.records()[i].id@ == worker_id@,
    {
        match self.find(worker_id) {
            Some(i) => {
                let c = self.workers[i].copy();
                assert(c.same_as(self.records()[i as int]));
                Some(c)
            },
            None => None,
        }
    }

    /// Records a heartbeat at `now_ms` with the reported state and resources.
    pub fn heartbeat_at(&mut self, worker_id: &str, state: WorkerState, resources: ResourceMetrics, now_ms: i64) -> (r: Result<(), Error>)
        requires
            old(self).wf(),
        ensures
            final(self).wf(),
            final(self).capacity() == old(self).capacity(),
            final(self).timeout_ms() == old(self).timeout_ms(),
            final(self).records().len() == old(self).records().len(),
            heartbeat_applied(*old(self), *final(self), worker_id@, state, resources, now_ms, r),
    {
        match self.find(worker_id) {
            Some(i) => {
                let ghost pre = self.workers@;
                let mut w = self.workers.remove(i);
                w.last_heartbeat_ms = now_ms;
                w.resources = resources;
                w.state = state;
                self.workers.insert(i, w);
                proof {
                    assert forall|a: int, b: int| 0 <= a < b < self.records().len() implies self.records()[a].id@ != self.records()[b].id@ by {
                        assert(self.records()[a].id@ == pre[a].id@);
                        assert(self.records()[b].id@ == pre[b].id@);
                    }
                }
                Ok(())
            },
            None => {
                proof {
                    assert forall|i: int| 0 <= i < self.records().len() implies self.records()[i].id@ != worker_id@ by {
                        assert(worker_ids(self.records())[i] == self.records()[i].id@);
                    }
                }
                Err(Error::WorkerNotFound { worker_id: worker_id.to_owned() })
            },
        }
    }

    /// Records a heartbeat, stamped with the clock.
    pub fn heartbeat(&mut self, worker_id: &str, state: WorkerState, resources: ResourceMetrics) -> (r: Result<(), Error>)
        requires
            old(self).wf(),
        ensures
            final(self).wf(),
            final(self).capacity() == old(self).capacity(),
            final(self).timeout_ms() == old(self).timeout_ms(),
            exists|now: i64| #[trigger] heartbeat_applied(*old(self), *final(self), worker_id@, state, resources, now, r),
    {
        let now = crate::clock::unix_millis();
        self.heartbeat_at(worker_id, state, resources, now)
    }

    /// Records training progress; the task label changes only when given.
    pub fn update_progress(&mut self, worker_id: &str, step: u64, epoch: u64, task: Option<String>) -> (r: Result<(), Error>)
        requires
            old(self).wf(),
        ensures
            final(self).wf(),
            final(self).capacity() == old(self).capacity(),
            final(self).timeout_ms() == old(self).timeout_ms(),
            final(self).records().len() == old(self).records().len(),
            r is Ok <==> old(self).has(worker_id@),
            r is Err ==> r->Err_0 is WorkerNotFound && final(self).records() == old(self).records(),
            forall|i: int| 0 <= i < final(self).records().len() ==> {
                let w = #[trigger] final(self).records()[i];
                let o = old(self).records()[i];
                if o.id@ == worker_id@ {
                    &&& w.id == o.id
                    &&& w.current_step == step
                    &&& w.current_epoch == epoch
                    &&& w.current_task@ == match task { Some(t) => t@, None => o.current_task@ }
                    &&& w.state == o.state
                    &&& w.last_heartbeat_ms == o.last_heartbeat_ms
                } else {
                    w == o
                }
            },
    {
        match self.find(worker_id) {
            Some(i) => {
                let ghost pre = self.workers@;
                let mut w = self.workers.remove(i);
                w.current_step = step;
                w.current_epoch = epoch;
                match task {
                    Some(t) => { w.current_task = t; },
                    None => {},
                }
                self.workers.insert(i, w);
                proof {
                    assert forall|a: int, b: int| 0 <= a < b < self.records().len() implies self.records()[a].id@ != self.records()[b].id@ by {
                        assert(self.records()[a].id@ == pre[a].id@);
                        assert(self.records()[b].id@ == pre[b].id@);
                    }
                }
                Ok(())
            },
            None => {
                proof {
                    assert forall|i: int| 0 <= i < self.records().len() implies self.records()[i].id@ != worker_id@ by {
                        assert(worker_ids(self.records())[i] == self.records()[i].id@);
                    }
                }
                Err(Error::WorkerNotFound { worker_id: worker_id.to_owned() })
            },
        }
    }

    /// Number of registered workers.
    pub fn world_size(&self) -> (r: usize)
        ensures
            r == self.records().len(),
    {
        self.workers.len()
    }

    /// Copies of the records in an active state, in registry order.
    pub fn active_workers(&self) -> (r: Vec<WorkerInfo>)
        ensures
            r@.len() == active_records(self.records()).len(),
            forall|i: int| 0 <= i < r@.len() ==> (#[trigger] r@[i]).same_as(active_records(self.records())[i]),
    {
        let mut r: Vec<WorkerInfo> = Vec::new();
        let mut k: usize = 0;
        while k < self.workers.len()
            invariant
                k <= self.workers@.len(),
                r@.len() == active_records(self.records().subrange(0, k as int)).len(),
                forall|i: int| 0 <= i < r@.len() ==> (#[trigger] r@[i]).same_as(active_records(self.records().subrange(0, k as int))[i]),
            decreases self.workers@.len() - k,
        {
            let ghost sub = self.records().subrange(0, k as int);
            let ghost sub1 = self.records().subrange(0, k + 1);
            assert(sub1.drop_last() =~= sub);
            if self.workers[k].state.is_active() {
                let c = self.workers[k].copy();
                let ghost prev = r@;
                r.push(c);
                proof {
                    assert(active_records(sub1) == active_records(sub).push(self.records()[k as int]));
                    assert forall|i: int| 0 <= i < r@.len() implies (#[trigger] r@[i]).same_as(active_records(sub1)[i]) by {
                        if i < prev.len() {
                            assert(r@[i] == prev[i]);
                        }
                    }
                }
            } else {
                assert(active_records(sub1) == active_records(sub));
            }
            k = k + 1;
        }
        assert(self.records().subrange(0, k as int) =~= self.records());
        r
    }

    /// Copies of every record, in registry order.
    pub fn all_workers(&self) -> (r: Vec<WorkerInfo>)
        ensures
            r@.len() == self.records().len(),
            forall|i: int| 0 <= i < r@.len() ==> (#[trigger] r@[i]).same_as(self.records()[i]),
    {
        let mut r: Vec<WorkerInfo> = Vec::new();
        let mut k: usize = 0;
        while k < self.workers.len()
            invariant
                k <= self.workers@.len(),
                r@.len() == k,
                forall|i: int| 0 <= i < r@.len() ==> (#[trigger] r@[i]).same_as(self.records()[i]),
            decreases self.workers@.len() - k,
        {
            let c = self.workers[k].copy();
            r.push(c);
            k = k + 1;
        }
        r
    }

    /// Marks Dead, at time `now_ms`, every worker silent for longer than the
    /// timeout that is not Dead yet; returns their ids in registry order.
    pub fn check_dead_workers_at(&mut self, now_ms: i64) -> (r: Vec<String>)
        requires
            old(self).wf(),
        ensures
            final(self).wf(),
            final(self).capacity() == old(self).capacity(),
            final(self).timeout_ms() == old(self).timeout_ms(),
            final(self).records().len() == old(self).records().len(),
            swept(*old(self), *final(self), now_ms, crate::hash_ring::string_views(r@)),
    {
        let ghost pre = self.workers@;
        let mut dead: Vec<String> = Vec::new();
        let mut k: usize = 0;
        while k < self.workers.len()
            invariant
                self.max_workers == old(self).max_workers,
                self.heartbeat_timeout_ms == old(self).heartbeat_timeout_ms,
                self.workers@.len() == pre.len(),
                pre == old(self).workers@,
                k <= pre.len(),
                forall|i: int| k <= i < pre.len() ==> #[trigger] self.workers@[i] == pre[i],
                forall|i: int| 0 <= i < k ==> {
                    let o = pre[i];
                    let dies = o.state != WorkerState::Dead && now_ms as int - o.last_heartbeat_ms as int > self.heartbeat_timeout_ms as int;
                    #[trigger] self.workers@[i] == if dies { WorkerInfo { state: WorkerState::Dead, ..o } } else { o }
                },
                forall|a: int| 0 <= a < dead@.len() ==> exists|j: int| 0 <= j < k && pre[j].id@ == (#[trigger] dead@[a])@,
                forall|a: int, b: int| 0 <= a < b < pre.len() ==> pre[a].id@ != pre[b].id@,
                crate::shard_manager::distinct_ids(crate::hash_ring::string_views(dead@)),
                forall|m: Seq<char>| #[trigger] crate::hash_ring::string_views(dead@).contains(m) <==> exists|i: int| 0 <= i < k
                    && pre[i].id@ == m && pre[i].state != WorkerState::Dead
                    && now_ms as int - pre[i].last_heartbeat_ms as int > self.heartbeat_timeout_ms as int,
            decreases pre.len() - k,
        {
            let dies = self.workers[k].state != WorkerState::Dead && self.workers[k].is_dead_at(self.heartbeat_timeout_ms, now_ms);
            let ghost before = crate::hash_ring::string_views(dead@);
            if dies {
                let mut w = self.workers.remove(k);
                w.state = WorkerState::Dead;
                let id = w.id.clone();
                self.workers.insert(k, w);
                dead.push(id);
                proof {
                    let now_v = crate::hash_ring::string_views(dead@);
                    assert(now_v =~= before.push(pre[k as int].id@));
                    assert forall|m: Seq<char>| #[trigger] now_v.contains(m) <==> exists|i: int| 0 <= i < k + 1
                        && pre[i].id@ == m && pre[i].state != WorkerState::Dead
                        && now_ms as int - pre[i].last_heartbeat_ms as int > self.heartbeat_timeout_ms as int by {
                        if now_v.contains(m) && m != pre[k as int].id@ {
                            let q = choose|q: int| 0 <= q < now_v.len() && now_v[q] == m;
                            assert(before[q] == m);
                            assert(before.contains(m));
                        }
                        if m == pre[k as int].id@ {
                            assert(now_v[now_v.len() - 1] == m);
                        }
                        if exists|i: int| 0 <= i < k + 1 && pre[i].id@ == m && pre[i].state != WorkerState::Dead
                            && now_ms as int - pre[i].last_heartbeat_ms as int > self.heartbeat_timeout_ms as int {
                            if m != pre[k as int].id@ {
                                let i = choose|i: int| 0 <= i < k + 1 && pre[i].id@ == m && pre[i].state != WorkerState::Dead
                                    && now_ms as int - pre[i].last_heartbeat_ms as int > self.heartbeat_timeout_ms as int;
                                assert(i < k);
                                assert(before.contains(m));
                                let q = choose|q: int| 0 <= q < before.len() && before[q] == m;
                                assert(now_v[q] == m);
                            }
                        }
                    }
                }
            } else {
                proof {
                    assert forall|m: Seq<char>| #[trigger] before.contains(m) <==> exists|i: int| 0 <= i < k + 1
                        && pre[i].id@ == m && pre[i].state != WorkerState::Dead
                        && now_ms as int - pre[i].last_heartbeat_ms as int > self.heartbeat_timeout_ms as int by {
                        if exists|i: int| 0 <= i < k + 1 && pre[i].id@ == m && pre[i].state != WorkerState::Dead
                            && now_ms as int - pre[i].last_heartbeat_ms as int > self.heartbeat_timeout_ms as int {
                            let i = choose|i: int| 0 <= i < k + 1 && pre[i].id@ == m && pre[i].state != WorkerState::Dead
                                && now_ms as int - pre[i].last_heartbeat_ms as int > self.heartbeat_timeout_ms as int;
                            assert(i < k);
                        }
                    }
                }
            }
            k = k + 1;
        }
        proof {
            assert forall|a: int, b: int| 0 <= a < b < self.records().len() implies self.records()[a].id@ != self.records()[b].id@ by {
                assert(pre[a].id@ != pre[b].id@);
            }
        }
        dead
    }

    /// Marks silent workers Dead, using the clock.
    pub fn check_dead_workers(&mut self) -> (r: Vec<String>)
        requires
            old(self).wf(),
        ensures
            final(self).wf(),
            final(self).capacity() == old(self).capacity(),
            final(self).timeout_ms() == old(self).timeout_ms(),
            exists|now: i64| #[trigger] swept(*old(self), *final(self), now, crate::hash_ring::string_views(r@)),
    {
        let now = crate::clock::unix_millis();
        self.check_dead_workers_at(now)
    }

    /// Removes every Dead worker and returns their records, in registry order.
    pub fn remove_dead_workers(&mut self) -> (r: Vec<WorkerInfo>)
        requires
            old(self).wf(),
        ensures
            final(self).wf(),
            final(self).capacity() == old(self).capacity(),
            final(self).timeout_ms() == old(self).timeout_ms(),
            forall|i: int| 0 <= i < final(self).records().len() ==> (#[trigger] final(self).records()[i]).state != WorkerState::Dead,
            forall|m: Seq<char>| #[trigger] final(self).has(m) <==> exists|i: int| 0 <= i < old(self).records().len()
                && old(self).records()[i].id@ == m && old(self).records()[i].state != WorkerState::Dead,
            forall|w: WorkerInfo| #[trigger] r@.contains(w) <==> (old(self).records().contains(w) && w.state == WorkerState::Dead),
    {
        let ghost pre = self.workers@;
        let mut rest: Vec<WorkerInfo> = Vec::new();
        std::mem::swap(&mut rest, &mut self.workers);
        let mut kept: Vec<WorkerInfo> = Vec::new();
        let mut gone: Vec<WorkerInfo> = Vec::new();
        let ghost mut k: int = 0;
        while rest.len() > 0
            invariant
                0 <= k <= pre.len(),
                rest@ == pre.subrange(k, pre.len() as int),
                self.max_workers == old(self).max_workers,
                self.heartbeat_timeout_ms == old(self).heartbeat_timeout_ms,
                forall|a: int, b: int| 0 <= a < b < pre.len() ==> pre[a].id@ != pre[b].id@,
                forall|i: int| 0 <= i < kept@.len() ==> (#[trigger] kept@[i]).state != WorkerState::Dead,
                forall|a: int| 0 <= a < kept@.len() ==> exists|b: int| 0 <= b < k && pre[b].id@ == (#[trigger] kept@[a]).id@,
                forall|w: WorkerInfo| #[trigger] kept@.contains(w) <==> (pre.subrange(0, k).contains(w) && w.state != WorkerState::Dead),
                forall|w: WorkerInfo| #[trigger] gone@.contains(w) <==> (pre.subrange(0, k).contains(w) && w.state == WorkerState::Dead),
                forall|a: int, b: int| 0 <= a < b < kept@.len() ==> kept@[a].id@ != kept@[b].id@,
            decreases rest@.len(),
        {
            let w = rest.remove(0);
            let ghost s0 = pre.subrange(0, k);
            let ghost s1 = pre.subrange(0, k + 1);
            proof {
                assert(w == pre[k]);
                assert(rest@ =~= pre.subrange(k + 1, pre.len() as int));
                assert(s1 =~= s0.push(w));
            }
            let ghost kprev = kept@;
            let ghost gprev = gone@;
            if w.state == WorkerState::Dead {
                gone.push(w);
                proof {
                    assert forall|x: WorkerInfo| #[trigger] gone@.contains(x) <==> (s1.contains(x) && x.state == WorkerState::Dead) by {
                        if gone@.contains(x) && x != pre[k] {
                            let q = choose|q: int| 0 <= q < gone@.len() && gone@[q] == x;
                            assert(gprev[q] == x);
                            assert(gprev.contains(x));
                            let q2 = choose|q2: int| 0 <= q2 < s0.len() && s0[q2] == x;
                            assert(s1[q2] == x);
                        }
                        if x == pre[k] { assert(gone@[gone@.len() - 1] == x); assert(s1[k] == x); }
                        if s1.contains(x) && x.state == WorkerState::Dead && x != pre[k] {
                            let q = choose|q: int| 0 <= q < s1.len() && s1[q] == x;
                            assert(s0[q] == x);
                            assert(gprev.contains(x));
                            let q2 = choose|q2: int| 0 <= q2 < gprev.len() && gprev[q2] == x;
                            assert(gone@[q2] == x);
                        }
                    }
                    assert forall|x: WorkerInfo| #[trigger] kept@.contains(x) <==> (s1.contains(x) && x.state != WorkerState::Dead) by {
                        if s1.contains(x) && x.state != WorkerState::Dead {
                            let q = choose|q: int| 0 <= q < s1.len() && s1[q] == x;
                            if q < k { assert(s0[q] == x); }
                        }
                        if kept@.contains(x) {
                            assert(s0.contains(x));
                            let q2 = choose|q2: int| 0 <= q2 < s0.len() && s0[q2] == x;
                            assert(s1[q2] == x);
                        }
                    }
                }
            } else {
                kept.push(w);
                proof {
                    assert forall|x: WorkerInfo| #[trigger] kept@.contains(x) <==> (s1.contains(x) && x.state != WorkerState::Dead) by {
                        if kept@.contains(x) && x != pre[k] {
                            let q = choose|q: int| 0 <= q < kept@.len() && kept@[q] == x;
                            assert(kprev[q] == x);
                            assert(kprev.contains(x));
                            let q2 = choose|q2: int| 0 <= q2 < s0.len() && s0[q2] == x;
                            assert(s1[q2] == x);
                        }
                        if x == pre[k] { assert(kept@[kept@.len() - 1] == x); assert(s1[k] == x); }
                        if s1.contains(x) && x.state != WorkerState::Dead && x != pre[k] {
                            let q = choose|q: int| 0 <= q < s1.len() && s1[q] == x;
                            assert(s0[q] == x);
                            assert(kprev.contains(x));
                            let q2 = choose|q2: int| 0 <= q2 < kprev.len() && kprev[q2] == x;
                            assert(kept@[q2] == x);
                        }
                    }
                    assert forall|x: WorkerInfo| #[trigger] gone@.contains(x) <==> (s1.contains(x) && x.state == WorkerState::Dead) by {
                        if s1.contains(x) && x.state == WorkerState::Dead {
                            let q = choose|q: int| 0 <= q < s1.len() && s1[q] == x;
                            if q < k { assert(s0[q] == x); }
                        }
                        if gone@.contains(x) {
                            assert(s0.contains(x));
                            let q2 = choose|q2: int| 0 <= q2 < s0.len() && s0[q2] == x;
                            assert(s1[q2] == x);
                        }
                    }
                    assert forall|a: int| 0 <= a < kept@.len() implies exists|b: int| 0 <= b < k + 1 && pre[b].id@ == (#[trigger] kept@[a]).id@ by {
                        if a < kprev.len() {
                            assert(kept@[a] == kprev[a]);
                            let b = choose|b: int| 0 <= b < k && pre[b].id@ == kprev[a].id@;
                        } else {
                            assert(pre[k].id@ == kept@[a].id@);
                        }
                    }
                    assert forall|a: int, b: int| 0 <= a < b < kept@.len() implies kept@[a].id@ != kept@[b].id@ by {
                        if b == kprev.len() {
                            assert(kept@[a] == kprev[a]);
                            let q = choose|q: int| 0 <= q < k && pre[q].id@ == kprev[a].id@;
                            assert(pre[q].id@ != pre[k].id@);
                        } else {
                            assert(kept@[a] == kprev[a]);
                            assert(kept@[b] == kprev[b]);
                        }
                    }
                }
            }
            proof { k = k + 1; }
        }
        proof {
            assert(pre.subrange(0, k) =~= pre);
        }
        let ghost kv = kept@;
        self.workers = kept;
        self.renumber(0);
        proof {
            assert forall|m: Seq<char>| #[trigger] self.has(m) <==> exists|i: int| 0 <= i < pre.len()
                && pre[i].id@ == m && pre[i].state != WorkerState::Dead by {
                if self.has(m) {
                    let j = choose|j: int| 0 <= j < worker_ids(self.records()).len() && worker_ids(self.records())[j] == m;
                    assert(worker_ids(kv)[j] == m);
                    assert(kv.contains(kv[j]));
                    let q = choose|q: int| 0 <= q < pre.len() && pre[q] == kv[j];
                    assert(pre[q].id@ == m);
                }
                if exists|i: int| 0 <= i < pre.len() && pre[i].id@ == m && pre[i].state != WorkerState::Dead {
                    let i = choose|i: int| 0 <= i < pre.len() && pre[i].id@ == m && pre[i].state != WorkerState::Dead;
                    assert(pre.contains(pre[i]));
                    assert(kv.contains(pre[i]));
                    let j = choose|j: int| 0 <= j < kv.len() && kv[j] == pre[i];
                    assert(worker_ids(kv)[j] == m);
                    assert(worker_ids(self.records())[j] == m);
                }
            }
        }
        gone
    }

    /// Sum of the resources of the workers in an active state, counters
    /// saturating, GPU lists concatenated in registry order.
    pub fn aggregate_resources(&self) -> (r: ResourceMetrics)
        ensures
            r@ == sum_resources(active_resources(self.records())),
    {
        let mut acc = ResourceMetrics::zero();
        let mut k: usize = 0;
        while k < self.workers.len()
            invariant
                k <= self.workers@.len(),
                acc@ == sum_resources(active_resources(self.records().subrange(0, k as int))),
            decreases self.workers@.len() - k,
        {
            let ghost sub = self.records().subrange(0, k as int);
            let ghost sub1 = self.records().subrange(0, k + 1);
            assert(sub1.drop_last() =~= sub);
            if self.workers[k].state.is_active() {
                let ghost acc0 = acc@;
                let res = &self.workers[k].resources;
                acc.cpu_milli_percent = acc.cpu_milli_percent.saturating_add(res.cpu_milli_percent);
                acc.memory_used_bytes = acc.memory_used_bytes.saturating_add(res.memory_used_bytes);
                acc.disk_read_bytes = acc.disk_read_bytes.saturating_add(res.disk_read_bytes);
                acc.disk_write_bytes = acc.disk_write_bytes.saturating_add(res.disk_write_bytes);
                acc.network_rx_bytes = acc.network_rx_bytes.saturating_add(res.network_rx_bytes);
                acc.network_tx_bytes = acc.network_tx_bytes.saturating_add(res.network_tx_bytes);
                let ghost g0 = acc.gpu_metrics@;
                let ghost mid = acc@;
                let mut j: usize = 0;
                while j < res.gpu_metrics.len()
                    invariant
                        j <= res.gpu_metrics@.len(),
                        acc@.cpu == mid.cpu && acc@.memory == mid.memory && acc@.disk_read == mid.disk_read,
                        acc@.disk_write == mid.disk_write && acc@.net_rx == mid.net_rx && acc@.net_tx == mid.net_tx,
                        acc.gpu_metrics@ == g0 + res.gpu_metrics@.subrange(0, j as int),
                    decreases res.gpu_metrics@.len() - j,
                {
                    acc.gpu_metrics.push(res.gpu_metrics[j]);
                    j = j + 1;
                    assert(acc.gpu_metrics@ =~= g0 + res.gpu_metrics@.subrange(0, j as int));
                }
                assert(res.gpu_metrics@.subrange(0, j as int) =~= res.gpu_metrics@);
                proof {
                    let b = self.records()[k as int].resources@;
                    let xs = active_resources(sub);
                    assert(active_resources(sub1) == xs.push(b));
                    assert(xs.push(b).drop_last() =~= xs);
                    assert(xs.push(b).last() == b);
                    let a = sum_resources(xs);
                    assert(sum_resources(xs.push(b)) == ResourceView {
                        cpu: sat_add(a.cpu, b.cpu),
                        memory: sat_add(a.memory, b.memory),
                        gpus: a.gpus + b.gpus,
                        disk_read: sat_add(a.disk_read, b.disk_read),
                        disk_write: sat_add(a.disk_write, b.disk_write),
                        net_rx: sat_add(a.net_rx, b.net_rx),
                        net_tx: sat_add(a.net_tx, b.net_tx),
                    });
                    assert(acc@ == sum_resources(xs.push(b)));
                }
            } else {
                assert(active_resources(sub1) == active_resources(sub));
            }
            k = k + 1;
        }
        assert(self.records().subrange(0, k as int) =~= self.records());
        acc
    }
}

/// `post` is `pre` after registering `worker` at `now`, with outcome `r`:
/// a full registry fails with InvalidConfig, a taken id with
/// WorkerAlreadyRegistered, leaving the records as they were; else the
/// worker is appended with the next rank (the world size), state Idle and
/// both timestamps `now`, and the stored record is returned.
pub open spec fn registration(pre: WorkerRegistry, post: WorkerRegistry, worker: WorkerInfo, now: i64, r: Result<WorkerInfo, Error>) -> bool {
    &&& pre.records().len() >= pre.capacity() ==> r is Err && r->Err_0 is InvalidConfig
    &&& pre.records().len() < pre.capacity() && pre.has(worker.id@) ==> r is Err && r->Err_0 is WorkerAlreadyRegistered
    &&& r is Err ==> post.records() == pre.records()
    &&& r is Ok <==> pre.records().len() < pre.capacity() && !pre.has(worker.id@)
    &&& r is Ok ==> {
        let w = r->Ok_0;
        &&& w.id@ == worker.id@
        &&& w.rank == pre.records().len() as u32
        &&& w.state == WorkerState::Idle
        &&& w.registered_at_ms == now
        &&& w.last_heartbeat_ms == now
        &&& w.hostname@ == worker.hostname@
        &&& w.port == worker.port
        &&& w.gpu_count == worker.gpu_count
        &&& w.memory_bytes == worker.memory_bytes
        &&& post.records().len() == pre.records().len() + 1
        &&& post.records().last().same_as(w)
        &&& forall|i: int| 0 <= i < pre.records().len() ==> #[trigger] post.records()[i] == pre.records()[i]
    }
}

/// `post` is `pre` after a heartbeat of `id` at `now` with outcome `r`:
/// an unknown worker fails with WorkerNotFound and nothing changes; else
/// its record takes the reported state, the resources and the time, and no
/// other record changes.
pub open spec fn heartbeat_applied(
    pre: WorkerRegistry,
    post: WorkerRegistry,
    id: Seq<char>,
    state: WorkerState,
    resources: ResourceMetrics,
    now: i64,
    r: Result<(), Error>,
) -> bool {
    &&& post.records().len() == pre.records().len()
    &&& r is Ok <==> pre.has(id)
    &&& r is Err ==> r->Err_0 is WorkerNotFound && post.records() == pre.records()
    &&& forall|i: int| 0 <= i < post.records().len() ==> {
        let o = pre.records()[i];
        #[trigger] post.records()[i] == if o.id@ == id {
            WorkerInfo { state: state, last_heartbeat_ms: now, resources: resources, ..o }
        } else {
            o
        }
    }
}

/// `post` is `pre` after a liveness sweep at `now` that reported `dead`:
/// exactly the records not Dead and silent for longer than the timeout turn
/// Dead, nothing else changes, and `dead` lists their ids once each.
pub open spec fn swept(pre: WorkerRegistry, post: WorkerRegistry, now: i64, dead: Seq<Seq<char>>) -> bool {
    &&& post.records().len() == pre.records().len()
    &&& forall|i: int| 0 <= i < post.records().len() ==> {
        let o = pre.records()[i];
        let dies = o.state != WorkerState::Dead && now as int - o.last_heartbeat_ms as int > pre.timeout_ms() as int;
        #[trigger] post.records()[i] == if dies { WorkerInfo { state: WorkerState::Dead, ..o } } else { o }
    }
    &&& forall|m: Seq<char>| #[trigger] dead.contains(m) <==> exists|i: int| 0 <= i < pre.records().len()
        && pre.records()[i].id@ == m && pre.records()[i].state != WorkerState::Dead
        && now as int - pre.records()[i].last_heartbeat_ms as int > pre.timeout_ms() as int
    &&& crate::shard_manager::distinct_ids(dead)
}

/// The records in an active state, in order.
pub open spec fn active_records(s: Seq<WorkerInfo>) -> Seq<WorkerInfo>
    decreases s.len(),
{
    if s.len() == 0 {
        Seq::empty()
    } else if active_state(s.last().state) {
        active_records(s.drop_last()).push(s.last())
    } else {
        active_records(s.drop_last())
    }
}

/// The resource reports of the workers in an active state, in order.
pub open spec fn active_resources(s: Seq<WorkerInfo>) -> Seq<ResourceView>
    decreases s.len(),
{
    if s.len() == 0 {
        Seq::empty()
    } else if active_state(s.last().state) {
        active_resources(s.drop_last()).push(s.last().resources@)
    } else {
        active_resources(s.drop_last())
    }
}

impl Default for WorkerRegistry {
    fn default() -> (r: Self)
        ensures
            r.wf(),
            r.records().len() == 0,
            r.capacity() == 10000,
            r.timeout_ms() == 30000,
    {
        Self::new(10000, 30000)
    }
}

} // verus!
