//! The coordinator: the RPC operations over the registries.
//!
//! Each operation is a function from the request (and, where time matters,
//! the current time) to the response. Waiting at barriers, writing and
//! deleting files, and the transport are done by the caller.

use vstd::prelude::*;
use vstd::string::StringExecFns;
use crate::barrier::{BarrierArrival, BarrierRegistry, barrier_step};
use crate::checkpoint::{CheckpointManager, CheckpointManagerConfig, insert_at_step, keep_newest, external_record};
use crate::hashing::{append_decimal, utf8};
use crate::middleware::{InputValidator, Status, StatusCode, status, regex_matches, id_pattern};
use crate::rpc;
use crate::shard_manager::ShardManager;
use crate::types::{compute_shard_count, copy_pairs, pair_views, shard_count};
use crate::worker::{GpuMetrics, ResourceMetrics, WorkerInfo, WorkerRegistry, WorkerState};

verus! {

/// The life-cycle state of a wire state code (unknown codes read as Initializing).
pub open spec fn state_of_code(code: i32) -> WorkerState {
    if code == 2 { WorkerState::Idle }
    else if code == 3 { WorkerState::LoadingData }
    else if code == 4 { WorkerState::Training }
    else if code == 5 { WorkerState::Checkpointing }
    else if code == 6 { WorkerState::Recovering }
    else if code == 7 { WorkerState::Error }
    else { WorkerState::Initializing }
}

/// Converts a wire state code.
pub fn proto_to_core_state(code: i32) -> (r: WorkerState)
    ensures
        r == state_of_code(code),
{
    if code == 2 { WorkerState::Idle }
    else if code == 3 { WorkerState::LoadingData }
    else if code == 4 { WorkerState::Training }
    else if code == 5 { WorkerState::Checkpointing }
    else if code == 6 { WorkerState::Recovering }
    else if code == 7 { WorkerState::Error }
    else { WorkerState::Initializing }
}

/// A wire count as an unsigned one (negative counts read as 0).
pub open spec fn count_of(v: i64) -> u64 {
    if v < 0 { 0 } else { v as u64 }
}

fn to_count(v: i64) -> (r: u64)
    ensures
        r == count_of(v),
{
    if v < 0 { 0 } else { v as u64 }
}

/// Converts reported usage; none reads as no usage.
pub fn proto_to_core_resources(resources: Option<rpc::ResourceUsage>) -> (r: ResourceMetrics)
    ensures
        resources is None ==> r@.cpu == 0 && r@.memory == 0 && r@.gpus.len() == 0,
        resources is Some ==> ({
            let u = resources->Some_0;
            &&& r@.cpu == count_of(u.cpu_milli_percent)
            &&& r@.memory == count_of(u.memory_used_bytes)
            &&& r@.disk_read == count_of(u.disk_read_bytes)
            &&& r@.disk_write == count_of(u.disk_write_bytes)
            &&& r@.net_rx == count_of(u.network_rx_bytes)
            &&& r@.net_tx == count_of(u.network_tx_bytes)
            &&& r@.gpus.len() == u.gpu_usage@.len()
        }),
{
    match resources {
        None => ResourceMetrics::zero(),
        Some(u) => {
            let mut gpus: Vec<GpuMetrics> = Vec::new();
            let mut i: usize = 0;
            while i < u.gpu_usage.len()
                invariant
                    i <= u.gpu_usage@.len(),
                    gpus@.len() == i,
                decreases u.gpu_usage@.len() - i,
            {
                let g = u.gpu_usage[i];
                gpus.push(GpuMetrics {
                    gpu_id: if g.gpu_id < 0 { 0 } else { g.gpu_id as u32 },
                    utilization_milli_percent: to_count(g.utilization_milli_percent),
                    memory_used_bytes: to_count(g.memory_used_bytes),
                    memory_total_bytes: to_count(g.memory_total_bytes),
                    temperature_milli_celsius: g.temperature_milli_celsius,
                });
                i = i + 1;
            }
            ResourceMetrics {
                cpu_milli_percent: to_count(u.cpu_milli_percent),
                memory_used_bytes: to_count(u.memory_used_bytes),
                gpu_metrics: gpus,
                disk_read_bytes: to_count(u.disk_read_bytes),
                disk_write_bytes: to_count(u.disk_write_bytes),
                network_rx_bytes: to_count(u.network_rx_bytes),
                network_tx_bytes: to_count(u.network_tx_bytes),
            }
        },
    }
}

/// Views of dataset registrations' ids.
pub open spec fn info_ids(s: Seq<rpc::DatasetInfo>) -> Seq<Seq<char>> {
    s.map_values(|d: rpc::DatasetInfo| d.dataset_id@)
}

/// Pairs of dataset id and shard id on the wire.
pub open spec fn wire_pairs(s: Seq<rpc::ShardAssignment>) -> Seq<(Seq<char>, i64)> {
    s.map_values(|a: rpc::ShardAssignment| (a.dataset_id@, a.shard_id))
}

/// The (dataset, shard) pairs a worker resumes with: for each registered
/// dataset in order that the shard manager knows, the worker's shard ids at
/// `epoch` (nothing when the worker is not a member).
pub open spec fn recovery_pairs(
    sm: ShardManager,
    infos: Seq<rpc::DatasetInfo>,
    worker: Seq<char>,
    epoch: u64,
) -> Seq<(Seq<char>, i64)>
    decreases infos.len(),
{
    if infos.len() == 0 {
        Seq::empty()
    } else {
        let prev = recovery_pairs(sm, infos.drop_last(), worker, epoch);
        let d = infos.last().dataset_id@;
        if sm.has_dataset(d) && sm.member_ids().contains(worker) {
            prev + sm.assigned_ids(d, worker, epoch).map_values(|k: u64| (d, k as i64))
        } else {
            prev
        }
    }
}

/// `post` is `pre` after registering the worker `info` with outcome `r`:
/// a malformed id or port fails with InvalidArgument, a full registry with
/// ResourceExhausted, a taken id with AlreadyExists, leaving the workers as
/// they were; else the worker gets the next dense rank (the world size) and
/// joins the shard manager. Checkpoints and datasets are untouched.
pub open spec fn worker_registered(pre: CoordinatorService, post: CoordinatorService, info: rpc::WorkerInfo, r: Result<rpc::WorkerConfig, Status>) -> bool {
    let valid = info.worker_id@.len() > 0 && utf8(info.worker_id@).len() <= pre.limits().max_worker_id_len
        && regex_matches(id_pattern(), info.worker_id@) && 1 <= info.port <= 65535;
    let room = pre.registry().records().len() < pre.registry().capacity()
        && pre.shards().member_ids().len() + 2 < u32::MAX;
    let fresh = !pre.registry().has(info.worker_id@);
    &&& (r is Ok <==> valid && room && fresh)
    &&& (!valid ==> r is Err && r->Err_0.code == StatusCode::InvalidArgument)
    &&& (valid && !room ==> r is Err && r->Err_0.code == StatusCode::ResourceExhausted)
    &&& (valid && room && !fresh ==> r is Err && r->Err_0.code == StatusCode::AlreadyExists)
    &&& (r is Err ==> post.registry().records() == pre.registry().records() && post.shards().member_ids() == pre.shards().member_ids())
    &&& post.checkpoints() == pre.checkpoints()
    &&& post.dataset_infos() == pre.dataset_infos()
    &&& post.shards().dataset_list() == pre.shards().dataset_list()
    &&& post.interval_ms() == pre.interval_ms()
    &&& post.limits() == pre.limits()
    &&& (r is Ok ==> {
        let c = r->Ok_0;
        &&& c.assigned_id@ == info.worker_id@
        &&& c.rank == pre.registry().records().len() as u32 as i32
        &&& c.world_size == (pre.registry().records().len() + 1) as i32
        &&& c.heartbeat_interval_ms == pre.interval_ms() as i64
        &&& post.registry().records().len() == pre.registry().records().len() + 1
        &&& post.registry().has(info.worker_id@)
        &&& post.shards().member_ids().contains(info.worker_id@)
    })
}

/// Every registered dataset is known to the shard manager with the same
/// sample count and a positive shard size.
pub open spec fn infos_registered(infos: Seq<rpc::DatasetInfo>, sm: ShardManager) -> bool {
    forall|i: int| 0 <= i < infos.len() ==> info_registered(#[trigger] infos[i], sm)
}

/// The shard manager knows the dataset of `info` with its sample count and
/// its positive shard size.
pub open spec fn info_registered(info: rpc::DatasetInfo, sm: ShardManager) -> bool {
    &&& sm.has_dataset(info.dataset_id@)
    &&& info.shard_size > 0
    &&& info.total_samples >= 0
    &&& sm.dataset_of(info.dataset_id@).total_samples == info.total_samples
    &&& sm.dataset_of(info.dataset_id@).shard_size == info.shard_size
}

/// The coordinator service.
pub struct CoordinatorService {
    workers: WorkerRegistry,
    checkpoint_manager: CheckpointManager,
    shard_manager: ShardManager,
    barriers: BarrierRegistry,
    /// Registered datasets as received; ids are distinct.
    datasets: Vec<rpc::DatasetInfo>,
    heartbeat_interval_ms: u64,
    request_count: u64,
    validator: InputValidator,
}

impl CoordinatorService {
    pub closed spec fn registry(&self) -> WorkerRegistry {
        self.workers
    }

    pub closed spec fn checkpoints(&self) -> CheckpointManager {
        self.checkpoint_manager
    }

    pub closed spec fn shards(&self) -> ShardManager {
        self.shard_manager
    }

    pub closed spec fn barrier_registry(&self) -> BarrierRegistry {
        self.barriers
    }

    pub closed spec fn dataset_infos(&self) -> Seq<rpc::DatasetInfo> {
        self.datasets@
    }

    pub closed spec fn interval_ms(&self) -> u64 {
        self.heartbeat_interval_ms
    }

    pub closed spec fn limits(&self) -> InputValidator {
        self.validator
    }

    /// Every part is well formed; registered dataset ids are distinct.
    pub open spec fn wf(&self) -> bool {
        &&& self.registry().wf()
        &&& self.checkpoints().wf()
        &&& self.shards().wf()
        &&& self.barrier_registry().wf()
        &&& crate::shard_manager::distinct_ids(info_ids(self.dataset_infos()))
        &&& infos_registered(self.dataset_infos(), self.shards())
    }

    /// A coordinator with the given checkpoint settings, worker capacity and
    /// heartbeat timeout; heartbeats are asked for every 5 s.
    pub fn with_config(checkpoint_config: CheckpointManagerConfig, max_workers: usize, heartbeat_timeout_ms: u64) -> (r: Self)
        ensures
            r.wf(),
            r.registry().records().len() == 0,
            r.registry().capacity() == max_workers,
            r.checkpoints().index().len() == 0,
            r.checkpoints().keep() == checkpoint_config.keep_count,
            r.shards().member_ids().len() == 0,
            r.dataset_infos().len() == 0,
            r.interval_ms() == 5000,
            r.limits().max_worker_id_len == 128,
    {
        let r = CoordinatorService {
            workers: WorkerRegistry::new(max_workers, heartbeat_timeout_ms),
            checkpoint_manager: CheckpointManager::new(checkpoint_config),
            shard_manager: ShardManager::new(),
            barriers: BarrierRegistry::new(),
            datasets: Vec::new(),
            heartbeat_interval_ms: 5000,
            request_count: 0,
            validator: InputValidator::new(),
        };
        r
    }

    /// A coordinator with default settings: 10000 workers, 30 s timeout.
    pub fn new() -> (r: Self)
        ensures
            r.wf(),
            r.registry().records().len() == 0,
    {
        Self::with_config(CheckpointManagerConfig::default(), 10000, 30000)
    }

    /// Number of registered workers.
    pub fn world_size(&self) -> (r: usize)
        ensures
            r == self.registry().records().len(),
    {
        self.workers.world_size()
    }

    /// Counts a request.
    pub fn increment_request_count(&mut self)
        ensures
            final(self).registry() == old(self).registry(),
            final(self).checkpoints() == old(self).checkpoints(),
            final(self).shards() == old(self).shards(),
            final(self).barrier_registry() == old(self).barrier_registry(),
            final(self).dataset_infos() == old(self).dataset_infos(),
    {
        if self.request_count < u64::MAX {
            self.request_count = self.request_count + 1;
        }
    }

    /// Registers a worker at time `now_ms`. Fails with InvalidArgument on a
    /// malformed id or port, ResourceExhausted when full, AlreadyExists for a
    /// taken id; else the worker gets the next rank and joins the shard
    /// manager, and the answer carries its rank and the new world size.
    pub fn register_worker_at(&mut self, info: rpc::WorkerInfo, now_ms: i64) -> (r: Result<rpc::WorkerConfig, Status>)
        requires
            old(self).wf(),
        ensures
            final(self).wf(),
            worker_registered(*old(self), *final(self), info, r),
    {
        match self.validator.validate_worker_id(info.worker_id.as_str()) {
            Ok(()) => {},
            Err(e) => { return Err(e); },
        }
        match self.validator.validate_port(info.port) {
            Ok(()) => {},
            Err(e) => { return Err(e); },
        }
        if self.shard_manager.active_worker_count() >= 0xffff_fffd {
            return Err(status(StatusCode::ResourceExhausted, "Worker registration failed: shard manager full"));
        }
        let mut core = WorkerInfo::new(info.worker_id.clone(), info.hostname.clone(), info.port as u16, 0, 0, now_ms);
        core.gpu_count = if info.gpu_count < 0 { 0 } else { info.gpu_count as u32 };
        core.memory_bytes = to_count(info.memory_bytes);
        let registered = match self.workers.register_at(core, now_ms) {
            Ok(w) => w,
            Err(e) => {
                let code = match e {
                    crate::error::Error::WorkerAlreadyRegistered { .. } => StatusCode::AlreadyExists,
                    _ => StatusCode::ResourceExhausted,
                };
                return Err(status(code, "Worker registration failed"));
            },
        };
        self.shard_manager.register_worker_at(info.worker_id.as_str(), if now_ms < 0 { 0 } else { (now_ms / 1000) as u64 });
        let world = self.workers.world_size();
        proof {
            let recs = self.workers.records();
            assert(recs.last().same_as(registered));
            assert(crate::worker::worker_ids(recs)[recs.len() - 1] == info.worker_id@);
            assert(self.workers.has(info.worker_id@));
        }
        Ok(rpc::WorkerConfig {
            assigned_id: registered.id,
            rank: registered.rank as i32,
            world_size: world as i32,
            heartbeat_interval_ms: self.heartbeat_interval_ms as i64,
            config: info.metadata,
        })
    }

    /// Registers a worker, stamped with the clock.
    pub fn register_worker(&mut self, info: rpc::WorkerInfo) -> (r: Result<rpc::WorkerConfig, Status>)
        requires
            old(self).wf(),
        ensures
            final(self).wf(),
            worker_registered(*old(self), *final(self), info, r),
    {
        let now = crate::clock::unix_millis();
        self.register_worker_at(info, now)
    }

    /// Processes a heartbeat at `now_ms`: the worker's state (Idle when not
    /// reported), resources and time are updated, and its progress when a
    /// status is reported. Fails with NotFound for an unknown worker.
    pub fn heartbeat_at(&mut self, hb: rpc::HeartbeatRequest, now_ms: i64) -> (r: Result<rpc::HeartbeatResponse, Status>)
        requires
            old(self).wf(),
        ensures
            final(self).wf(),
            r is Ok <==> old(self).registry().has(hb.worker_id@),
            final(self).checkpoints() == old(self).checkpoints(),
            final(self).shards() == old(self).shards(),
            final(self).dataset_infos() == old(self).dataset_infos(),
            r is Err ==> r->Err_0.code == StatusCode::NotFound && final(self).registry().records() == old(self).registry().records(),
            r is Ok ==> r->Ok_0.acknowledged && r->Ok_0.server_timestamp_ms == now_ms && r->Ok_0.pending_commands@.len() == 0,
            r is Ok ==> forall|i: int| 0 <= i < final(self).registry().records().len()
                && old(self).registry().records()[i].id@ == hb.worker_id@ ==> {
                let w = #[trigger] final(self).registry().records()[i];
                &&& w.last_heartbeat_ms == now_ms
                &&& w.state == match hb.status { Some(s) => state_of_code(s.state), None => WorkerState::Idle }
            },
    {
        let state = match &hb.status {
            Some(s) => proto_to_core_state(s.state),
            None => WorkerState::Idle,
        };
        let resources = proto_to_core_resources(hb.resources);
        match self.workers.heartbeat_at(hb.worker_id.as_str(), state, resources, now_ms) {
            Ok(()) => {},
            Err(_) => {
                return Err(status(StatusCode::NotFound, "Worker not found"));
            },
        }
        let ghost mid = self.workers.records();
        match hb.status {
            Some(s) => {
                let _ = self.workers.update_progress(hb.worker_id.as_str(), to_count(s.current_step), to_count(s.current_epoch), Some(s.current_task));
            },
            None => {},
        }
        proof {
            assert forall|i: int| 0 <= i < self.workers.records().len() && old(self).registry().records()[i].id@ == hb.worker_id@ implies {
                let w = #[trigger] self.workers.records()[i];
                &&& w.last_heartbeat_ms == now_ms
                &&& w.state == match hb.status { Some(s) => state_of_code(s.state), None => WorkerState::Idle }
            } by {
                assert(mid[i].id@ == hb.worker_id@);
            }
        }
        Ok(rpc::HeartbeatResponse { acknowledged: true, server_timestamp_ms: now_ms, pending_commands: Vec::new() })
    }

    /// Removes a worker from the registry and the shard manager (ranks are
    /// renumbered). Fails with NotFound for an unknown worker.
    pub fn deregister_worker(&mut self, info: rpc::WorkerInfo) -> (r: Result<rpc::WorkerConfig, Status>)
        requires
            old(self).wf(),
        ensures
            final(self).wf(),
            r is Ok <==> old(self).registry().has(info.worker_id@),
            r is Err ==> r->Err_0.code == StatusCode::NotFound,
            final(self).checkpoints() == old(self).checkpoints(),
            final(self).dataset_infos() == old(self).dataset_infos(),
            final(self).shards().dataset_list() == old(self).shards().dataset_list(),
            r is Ok ==> ({
                let c = r->Ok_0;
                &&& c.assigned_id@ == info.worker_id@
                &&& c.world_size == (old(self).registry().records().len() - 1) as i32
                &&& !final(self).registry().has(info.worker_id@)
                &&& !final(self).shards().member_ids().contains(info.worker_id@)
            }),
    {
        let removed = match self.workers.deregister(info.worker_id.as_str()) {
            Ok(w) => w,
            Err(_) => {
                return Err(status(StatusCode::NotFound, "Worker not found"));
            },
        };
        self.shard_manager.remove_worker(info.worker_id.as_str());
        let _ = self.shard_manager.rebalance_shards();
        let world = self.workers.world_size();
        Ok(rpc::WorkerConfig {
            assigned_id: removed.id,
            rank: removed.rank as i32,
            world_size: world as i32,
            heartbeat_interval_ms: self.heartbeat_interval_ms as i64,
            config: Vec::new(),
        })
    }

    /// Registers a dataset. Fails with InvalidArgument when the shard size
    /// is not positive or the sample count is negative; else the answer
    /// carries the shard count, the ceiling of samples over shard size.
    pub fn register_dataset(&mut self, info: rpc::DatasetInfo) -> (r: Result<rpc::DatasetAck, Status>)
        requires
            old(self).wf(),
        ensures
            final(self).wf(),
            r is Ok <==> info.shard_size > 0 && info.total_samples >= 0 && info.total_samples <= usize::MAX,
            r is Err ==> r->Err_0.code == StatusCode::InvalidArgument,
            final(self).registry() == old(self).registry(),
            final(self).checkpoints() == old(self).checkpoints(),
            final(self).shards().member_ids() == old(self).shards().member_ids(),
            forall|d: Seq<char>| d != info.dataset_id@ ==> #[trigger] final(self).shards().has_dataset(d) == old(self).shards().has_dataset(d),
            forall|d: Seq<char>| d != info.dataset_id@ && old(self).shards().has_dataset(d) ==> #[trigger] final(self).shards().dataset_of(d) == old(self).shards().dataset_of(d),
            r is Ok ==> ({
                let a = r->Ok_0;
                &&& a.success
                &&& a.dataset_id@ == info.dataset_id@
                &&& a.total_shards == shard_count(info.total_samples as nat, info.shard_size as nat)
                &&& final(self).shards().has_dataset(info.dataset_id@)
                &&& final(self).shards().dataset_of(info.dataset_id@).total_samples == info.total_samples
                &&& final(self).shards().dataset_of(info.dataset_id@).shard_size == info.shard_size
                &&& final(self).shards().dataset_of(info.dataset_id@).shuffle == info.shuffle
                &&& final(self).shards().epochs().epoch_of(info.dataset_id@) == 0
            }),
    {
        if info.shard_size <= 0 || info.total_samples < 0 {
            return Err(status(StatusCode::InvalidArgument, "shard_size must be positive and total_samples non-negative"));
        }
        if info.total_samples as u64 > usize::MAX as u64 {
            return Err(status(StatusCode::InvalidArgument, "total_samples too large"));
        }
        let total = info.total_samples as u64;
        let size = info.shard_size as u64;
        let shards = compute_shard_count(total, size);
        self.shard_manager.register_dataset_params(info.dataset_id.as_str(), total, size, info.shuffle, info.seed as u64);
        proof {
            reveal_strlit("Dataset registered with ");
            reveal_strlit(" shards");
        }
        let mut message = String::from_str("Dataset registered with ");
        append_decimal(&mut message, shards);
        message.append(" shards");
        let id = info.dataset_id.clone();
        proof {
            let sm0 = old(self).shards();
            let sm1 = self.shards();
            assert forall|i: int| 0 <= i < self.dataset_infos().len() && (#[trigger] self.dataset_infos()[i]).dataset_id@ != info.dataset_id@
                implies info_registered(self.dataset_infos()[i], sm1) by {
                let d = self.dataset_infos()[i];
                assert(info_registered(d, sm0));
                assert(sm1.has_dataset(d.dataset_id@));
                assert(sm1.dataset_of(d.dataset_id@) == sm0.dataset_of(d.dataset_id@));
            }
        }
        self.put_dataset(info);
        Ok(rpc::DatasetAck { success: true, dataset_id: id, total_shards: shards as i64, message })
    }

    /// Stores a dataset registration, replacing one with the same id.
    fn put_dataset(&mut self, info: rpc::DatasetInfo)
        requires
            old(self).registry().wf(),
            old(self).checkpoints().wf(),
            old(self).shards().wf(),
            old(self).barrier_registry().wf(),
            crate::shard_manager::distinct_ids(info_ids(old(self).dataset_infos())),
            info_registered(info, old(self).shards()),
            forall|i: int| 0 <= i < old(self).dataset_infos().len() && (#[trigger] old(self).dataset_infos()[i]).dataset_id@ != info.dataset_id@
                ==> info_registered(old(self).dataset_infos()[i], old(self).shards()),
        ensures
            final(self).wf(),
            final(self).registry() == old(self).registry(),
            final(self).checkpoints() == old(self).checkpoints(),
            final(self).shards() == old(self).shards(),
            final(self).barrier_registry() == old(self).barrier_registry(),
            info_ids(final(self).dataset_infos()).contains(info.dataset_id@),
    {
        let name = info.dataset_id.clone();
        let ghost pre = self.datasets@;
        let mut i: usize = 0;
        while i < self.datasets.len()
            invariant
                name@ == info.dataset_id@,
                self.datasets@ == pre,
                self.workers == old(self).workers,
                self.checkpoint_manager == old(self).checkpoint_manager,
                self.shard_manager == old(self).shard_manager,
                self.barriers == old(self).barriers,
                self.validator == old(self).validator,
                old(self).registry().wf(),
                old(self).checkpoints().wf(),
                old(self).shards().wf(),
                old(self).barrier_registry().wf(),
                info_registered(info, old(self).shards()),
                forall|j: int| 0 <= j < pre.len() && (#[trigger] pre[j]).dataset_id@ != info.dataset_id@
                    ==> info_registered(pre[j], old(self).shards()),
                crate::shard_manager::distinct_ids(info_ids(pre)),
                i <= pre.len(),
                forall|a: int| 0 <= a < i ==> info_ids(pre)[a] != info.dataset_id@,
            decreases pre.len() - i,
        {
            if self.datasets[i].dataset_id == name {
                self.datasets.set(i, info);
                assert(info_ids(self.datasets@) =~= info_ids(pre));
                assert forall|j: int| 0 <= j < self.datasets@.len() implies info_registered(#[trigger] self.datasets@[j], self.shards()) by {
                    if j != i {
                        assert(self.datasets@[j] == pre[j]);
                        assert(info_ids(pre)[j] != info_ids(pre)[i as int] || j == i);
                        if j < i { assert(info_ids(pre)[j] != info_ids(pre)[i as int]); } else { assert(info_ids(pre)[i as int] != info_ids(pre)[j]); }
                    }
                }
                assert(self.wf());
                proof {
                    assert(info_ids(self.datasets@) =~= info_ids(pre));
                    assert(info_ids(self.datasets@)[i as int] == name@);
                }
                return;
            }
            i = i + 1;
        }
        self.datasets.push(info);
        proof {
            let n = pre.len() as int;
            assert(info_ids(self.datasets@) =~= info_ids(pre).push(name@));
            assert(info_ids(self.datasets@)[n] == name@);
            assert forall|j: int| 0 <= j < self.datasets@.len() implies info_registered(#[trigger] self.datasets@[j], self.shards()) by {
                if j < n {
                    assert(self.datasets@[j] == pre[j]);
                    assert(info_ids(pre)[j] != info.dataset_id@);
                }
            }
            assert forall|a: int, b: int| 0 <= a < b < info_ids(self.datasets@).len() implies info_ids(self.datasets@)[a] != info_ids(self.datasets@)[b] by {
                if b == n {
                    assert(info_ids(pre)[a] != name@);
                }
            }
        }
    }

    /// Index of a dataset registration.
    fn find_dataset_info(&self, dataset_id: &str) -> (r: Option<usize>)
        ensures
            match r {
                Some(i) => i < self.dataset_infos().len() && self.dataset_infos()[i as int].dataset_id@ == dataset_id@,
                None => !info_ids(self.dataset_infos()).contains(dataset_id@),
            },
    {
        let name = dataset_id.to_owned();
        let mut i: usize = 0;
        while i < self.datasets.len()
            invariant
                name@ == dataset_id@,
                i <= self.datasets@.len(),
                forall|a: int| 0 <= a < i ==> info_ids(self.datasets@)[a] != dataset_id@,
            decreases self.datasets@.len() - i,
        {
            if self.datasets[i].dataset_id == name {
                return Some(i);
            }
            i = i + 1;
        }
        None
    }

    /// The primary shard of a worker for a dataset in an epoch: the first of
    /// its assignments. Fails with InvalidArgument for a negative epoch, with
    /// NotFound for an unknown dataset or worker (so always with no
    /// workers) or when the worker gets no shard.
    pub fn get_data_shard(&mut self, req: rpc::ShardRequest) -> (r: Result<rpc::ShardAssignment, Status>)
        requires
            old(self).wf(),
        ensures
            final(self).wf(),
            final(self).registry() == old(self).registry(),
            final(self).checkpoints() == old(self).checkpoints(),
            final(self).shards().member_ids() == old(self).shards().member_ids(),
            req.epoch < 0 ==> r is Err && r->Err_0.code == StatusCode::InvalidArgument,
            req.epoch >= 0 && (!info_ids(old(self).dataset_infos()).contains(req.dataset_id@)
                || !old(self).shards().has_dataset(req.dataset_id@)
                || !old(self).shards().member_ids().contains(req.worker_id@)) ==> r is Err && r->Err_0.code == StatusCode::NotFound,
            r is Ok ==> ({
                let ids = old(self).shards().assigned_ids(req.dataset_id@, req.worker_id@, req.epoch as u64);
                let d = old(self).shards().dataset_of(req.dataset_id@);
                let a = r->Ok_0;
                &&& ids.len() > 0
                &&& ids[0] < d.total_shards
                &&& a.dataset_id@ == req.dataset_id@
                &&& a.shard_id == ids[0] as i64
                &&& a.total_shards == d.total_shards as i64
                &&& a.start_index == (ids[0] * d.shard_size) as i64
                &&& a.end_index == crate::types::shard_end(ids[0] as nat, d.shard_size as nat, d.total_samples as nat) as i64
                &&& a.epoch == req.epoch
            }),
            r is Err && req.epoch >= 0 && info_ids(old(self).dataset_infos()).contains(req.dataset_id@)
                && old(self).shards().has_dataset(req.dataset_id@) && old(self).shards().member_ids().contains(req.worker_id@)
                ==> old(self).shards().assigned_ids(req.dataset_id@, req.worker_id@, req.epoch as u64).len() == 0
                    && r->Err_0.code == StatusCode::NotFound,
    {
        if req.epoch < 0 {
            return Err(status(StatusCode::InvalidArgument, "epoch must be non-negative"));
        }
        let di = match self.find_dataset_info(req.dataset_id.as_str()) {
            Some(i) => i,
            None => { return Err(status(StatusCode::NotFound, "Dataset not found")); },
        };
        assert(info_ids(self.dataset_infos())[di as int] == req.dataset_id@);
        let shards = match self.shard_manager.get_shard_for_worker(req.dataset_id.as_str(), req.worker_id.as_str(), req.epoch as u64) {
            Some(s) => s,
            None => { return Err(status(StatusCode::NotFound, "Worker or dataset not found")); },
        };
        if shards.len() == 0 {
            return Err(status(StatusCode::NotFound, "No shards available for this worker"));
        }
        proof {
            assert(shards@[0].describes(old(self).shards().dataset_of(req.dataset_id@), old(self).shards().assigned_ids(req.dataset_id@, req.worker_id@, req.epoch as u64)[0], req.epoch as u64));
        }
        let info = &self.datasets[di];
        proof {
            assert(info_registered(self.datasets@[di as int], self.shards()));
            assert(self.shards().dataset_of(req.dataset_id@).wf());
        }
        let total_shards = compute_shard_count(info.total_samples as u64, if info.shard_size <= 0 { 1 } else { info.shard_size as u64 });
        let first = &shards[0];
        let mut paths: Vec<String> = Vec::new();
        paths.push(info.path.clone());
        Ok(rpc::ShardAssignment {
            dataset_id: req.dataset_id,
            shard_id: first.shard_id as i64,
            total_shards: total_shards as i64,
            start_index: first.start_index as i64,
            end_index: first.end_index as i64,
            file_paths: paths,
            epoch: req.epoch,
        })
    }

    /// Registers a checkpoint a worker wrote at time `now_ms`, with the
    /// worker's id added to its metadata. Fails with InvalidArgument on an
    /// empty checkpoint or worker id or a negative step, epoch or size.
    /// Returns the acknowledgement and the paths that retention dropped.
    pub fn notify_checkpoint_at(&mut self, info: rpc::CheckpointInfo, now_ms: i64) -> (r: Result<(rpc::CheckpointAck, Vec<String>), Status>)
        requires
            old(self).wf(),
        ensures
            final(self).wf(),
            r is Ok <==> (info.checkpoint_id@.len() > 0 && info.worker_id@.len() > 0 && info.step >= 0
                && info.epoch >= 0 && info.size_bytes >= 0),
            r is Err ==> r->Err_0.code == StatusCode::InvalidArgument && final(self).checkpoints() == old(self).checkpoints(),
            final(self).registry() == old(self).registry(),
            final(self).shards() == old(self).shards(),
            final(self).dataset_infos() == old(self).dataset_infos(),
            r is Ok ==> ({
                let rec = external_record(
                    info.checkpoint_id@,
                    info.step as u64,
                    info.epoch as u64,
                    info.storage_path@,
                    info.size_bytes as u64,
                    now_ms,
                    pair_views(info.metadata@).push(("worker_id"@, info.worker_id@)),
                );
                &&& final(self).checkpoints().index() == keep_newest(insert_at_step(old(self).checkpoints().index(), rec), old(self).checkpoints().keep())
                &&& r->Ok_0.0.success
                &&& r->Ok_0.0.checkpoint_id@ == info.checkpoint_id@
                &&& r->Ok_0.0.global_step == info.step
            }),
    {
        if info.checkpoint_id.as_str().is_empty() {
            return Err(status(StatusCode::InvalidArgument, "checkpoint_id cannot be empty"));
        }
        if info.worker_id.as_str().is_empty() {
            return Err(status(StatusCode::InvalidArgument, "worker_id cannot be empty"));
        }
        if info.step < 0 || info.epoch < 0 {
            return Err(status(StatusCode::InvalidArgument, "step and epoch must be non-negative"));
        }
        if info.size_bytes < 0 {
            return Err(status(StatusCode::InvalidArgument, "size_bytes must be non-negative"));
        }
        proof {
            reveal_strlit("worker_id");
        }
        let mut metadata = copy_pairs(&info.metadata);
        let ghost before = pair_views(metadata@);
        metadata.push((String::from_str("worker_id"), info.worker_id.clone()));
        assert(pair_views(metadata@) =~= before.push(("worker_id"@, info.worker_id@)));
        let evicted = self.checkpoint_manager.register_external_checkpoint_at(
            info.checkpoint_id.as_str(),
            info.step as u64,
            info.epoch as u64,
            info.storage_path.as_str(),
            info.size_bytes as u64,
            metadata,
            now_ms,
        );
        let ack = rpc::CheckpointAck {
            success: true,
            checkpoint_id: info.checkpoint_id,
            message: String::from_str("Checkpoint acknowledged"),
            global_step: info.step,
        };
        Ok((ack, evicted))
    }

    /// The state a worker resumes from: the latest checkpoint, with the
    /// worker's shard assignments for every registered dataset at the
    /// checkpoint's epoch; nothing when there is no checkpoint.
    pub fn get_latest_checkpoint(&mut self, req: rpc::RecoveryRequest) -> (r: rpc::RecoveryResponse)
        requires
            old(self).wf(),
        ensures
            final(self).wf(),
            final(self).registry() == old(self).registry(),
            final(self).checkpoints() == old(self).checkpoints(),
            final(self).shards().member_ids() == old(self).shards().member_ids(),
            r.has_checkpoint <==> old(self).checkpoints().index().len() > 0,
            !r.has_checkpoint ==> r.latest_checkpoint is None && r.resume_step == 0 && r.resume_epoch == 0
                && r.shard_assignments@.len() == 0,
            r.has_checkpoint ==> ({
                let last = old(self).checkpoints().index().last();
                &&& r.latest_checkpoint is Some
                &&& r.latest_checkpoint->Some_0.checkpoint_id@ == last.id
                &&& r.latest_checkpoint->Some_0.storage_path@ == last.path
                &&& r.latest_checkpoint->Some_0.step == last.step as i64
                &&& r.latest_checkpoint->Some_0.epoch == last.epoch as i64
                &&& r.latest_checkpoint->Some_0.size_bytes == last.size_bytes as i64
                &&& r.latest_checkpoint->Some_0.timestamp_ms == last.created_at_ms
                &&& r.resume_step == last.step as i64
                &&& r.resume_epoch == last.epoch as i64
                &&& forall|i: int| 0 <= i < r.shard_assignments@.len() ==> (#[trigger] r.shard_assignments@[i]).epoch == last.epoch as i64
                &&& wire_pairs(r.shard_assignments@) == recovery_pairs(old(self).shards(), old(self).dataset_infos(), req.worker_id@, last.epoch)
            }),
    {
        let latest = self.checkpoint_manager.find_recovery_checkpoint();
        let ckpt = match latest {
            Some(c) => c,
            None => {
                return rpc::RecoveryResponse {
                    has_checkpoint: false,
                    latest_checkpoint: None,
                    resume_step: 0,
                    resume_epoch: 0,
                    shard_assignments: Vec::new(),
                };
            },
        };
        let mut out: Vec<rpc::ShardAssignment> = Vec::new();
        let mut d: usize = 0;
        while d < self.datasets.len()
            invariant
                self.wf(),
                self.workers == old(self).workers,
                self.checkpoint_manager == old(self).checkpoint_manager,
                self.datasets == old(self).datasets,
                self.shards().member_ids() == old(self).shards().member_ids(),
                d <= self.datasets@.len(),
                forall|i: int| 0 <= i < out@.len() ==> (#[trigger] out@[i]).epoch == ckpt.epoch as i64,
                self.shards().dataset_list() == old(self).shards().dataset_list(),
                self.shards().ring() == old(self).shards().ring(),
                self.shards().epochs().seed() == old(self).shards().epochs().seed(),
                wire_pairs(out@) == recovery_pairs(old(self).shards(), old(self).dataset_infos().subrange(0, d as int), req.worker_id@, ckpt.epoch),
            decreases self.datasets@.len() - d,
        {
            let ghost infos = old(self).dataset_infos();
            let ghost before = wire_pairs(out@);
            proof {
                assert(infos.subrange(0, d + 1).drop_last() =~= infos.subrange(0, d as int));
            }
            let ds_id = self.datasets[d].dataset_id.clone();
            let path = self.datasets[d].path.clone();
            let total = self.datasets[d].total_samples;
            let size = self.datasets[d].shard_size;
            let ghost sm0 = self.shard_manager;
            proof {
                assert(sm0.assigned_ids(ds_id@, req.worker_id@, ckpt.epoch) == old(self).shards().assigned_ids(ds_id@, req.worker_id@, ckpt.epoch));
                assert(sm0.has_dataset(ds_id@) == old(self).shards().has_dataset(ds_id@));
                assert(infos.subrange(0, d + 1).last().dataset_id@ == ds_id@);
            }
            match self.shard_manager.get_shard_for_worker(ds_id.as_str(), req.worker_id.as_str(), ckpt.epoch) {
                Some(shards) => {
                    let ghost ids = old(self).shards().assigned_ids(ds_id@, req.worker_id@, ckpt.epoch);
                    let ghost add = ids.map_values(|x: u64| (ds_id@, x as i64));
                    proof {
                        assert forall|i: int| 0 <= i < shards@.len() implies (#[trigger] shards@[i]).shard_id == ids[i] by {
                            assert(shards@[i].describes(sm0.dataset_of(ds_id@), sm0.assigned_ids(ds_id@, req.worker_id@, ckpt.epoch)[i], ckpt.epoch));
                        }
                    }
                    let total_shards = compute_shard_count(if total < 0 { 0 } else { total as u64 }, if size <= 0 { 1 } else { size as u64 });
                    let mut k: usize = 0;
                    while k < shards.len()
                        invariant
                            k <= shards@.len(),
                            shards@.len() == ids.len(),
                            forall|i: int| 0 <= i < shards@.len() ==> (#[trigger] shards@[i]).shard_id == ids[i],
                            forall|i: int| 0 <= i < out@.len() ==> (#[trigger] out@[i]).epoch == ckpt.epoch as i64,
                            wire_pairs(out@) == before + add.subrange(0, k as int),
                            add.len() == ids.len(),
                            forall|i: int| 0 <= i < add.len() ==> #[trigger] add[i] == (ds_id@, ids[i] as i64),
                        decreases shards@.len() - k,
                    {
                        let ghost prev = out@;
                        let s = &shards[k];
                        let mut paths: Vec<String> = Vec::new();
                        paths.push(path.clone());
                        out.push(rpc::ShardAssignment {
                            dataset_id: ds_id.clone(),
                            shard_id: s.shard_id as i64,
                            total_shards: total_shards as i64,
                            start_index: s.start_index as i64,
                            end_index: s.end_index as i64,
                            file_paths: paths,
                            epoch: ckpt.epoch as i64,
                        });
                        proof {
                            assert(wire_pairs(out@) =~= wire_pairs(prev).push((ds_id@, shards@[k as int].shard_id as i64)));
                            assert(add.subrange(0, k + 1) =~= add.subrange(0, k as int).push(add[k as int]));
                        }
                        k = k + 1;
                    }
                    proof {
                        assert(add.subrange(0, k as int) =~= add);
                    }
                },
                None => {
                    assert(wire_pairs(out@) == recovery_pairs(old(self).shards(), infos.subrange(0, d + 1), req.worker_id@, ckpt.epoch));
                },
            }
            d = d + 1;
        }
        assert(old(self).dataset_infos().subrange(0, d as int) =~= old(self).dataset_infos());
        let info = rpc::CheckpointInfo {
            worker_id: String::new(),
            checkpoint_id: ckpt.id,
            step: ckpt.step as i64,
            epoch: ckpt.epoch as i64,
            storage_path: ckpt.path,
            size_bytes: ckpt.size_bytes as i64,
            timestamp_ms: ckpt.created_at_ms,
            checkpoint_type: 0,
            metadata: ckpt.metadata,
        };
        rpc::RecoveryResponse {
            has_checkpoint: true,
            latest_checkpoint: Some(info),
            resume_step: ckpt.step as i64,
            resume_epoch: ckpt.epoch as i64,
            shard_assignments: out,
        }
    }

    /// An arrival at a barrier; a new barrier expects the current world
    /// size. A `Waiting` caller is to wait for the release signal.
    pub fn wait_barrier(&mut self, req: &rpc::BarrierRequest) -> (r: BarrierArrival)
        requires
            old(self).wf(),
        ensures
            final(self).wf(),
            final(self).registry() == old(self).registry(),
            (final(self).barrier_registry().entry(req.barrier_id@), r) == barrier_step(
                old(self).barrier_registry().entry(req.barrier_id@),
                old(self).registry().records().len() as u64,
            ),
            r is Waiting ==> final(self).barrier_registry().arrivals(req.barrier_id@)
                == old(self).barrier_registry().arrivals(req.barrier_id@).push(req.worker_id@),
    {
        let world = self.workers.world_size() as u64;
        self.barriers.arrive(req.barrier_id.as_str(), req.worker_id.as_str(), world)
    }
}

impl CoordinatorService {
    /// Marks Dead, at time `now_ms`, the workers silent for longer than the
    /// heartbeat timeout; returns their ids.
    pub fn sweep_dead_workers_at(&mut self, now_ms: i64) -> (r: Vec<String>)
        requires
            old(self).wf(),
        ensures
            final(self).wf(),
            final(self).registry().records().len() == old(self).registry().records().len(),
            forall|m: Seq<char>| #[trigger] crate::hash_ring::string_views(r@).contains(m) <==> exists|i: int|
                0 <= i < old(self).registry().records().len() && old(self).registry().records()[i].id@ == m
                && old(self).registry().records()[i].state != WorkerState::Dead
                && now_ms as int - old(self).registry().records()[i].last_heartbeat_ms as int > old(self).registry().timeout_ms() as int,
    {
        self.workers.check_dead_workers_at(now_ms)
    }

    /// Applies a checkpoint writer outcome at time `now_ms`; returns the
    /// paths that retention dropped.
    pub fn handle_writer_event(&mut self, event: crate::checkpoint::WriterEvent, now_ms: i64) -> (r: Vec<String>)
        requires
            old(self).wf(),
        ensures
            final(self).wf(),
            final(self).registry() == old(self).registry(),
            final(self).shards() == old(self).shards(),
            match event {
                crate::checkpoint::WriterEvent::Completed { checkpoint_id, size_bytes } =>
                    crate::checkpoint::completion(old(self).checkpoints(), final(self).checkpoints(), checkpoint_id@, size_bytes, now_ms, crate::checkpoint::text_views(r@)),
                crate::checkpoint::WriterEvent::Failed { checkpoint_id, error } =>
                    crate::checkpoint::failure(old(self).checkpoints(), final(self).checkpoints(), checkpoint_id@, error@) && r@.len() == 0,
            },
    {
        self.checkpoint_manager.handle_event_at(event, now_ms)
    }

    /// Where the pending checkpoint writes stand: `None` while one is pending
    /// or in progress; else `Ok`, or the error naming every failed write.
    pub fn pending_status(&self) -> (r: Option<Result<(), crate::error::Error>>)
        ensures
            r is None <==> exists|i: int| 0 <= i < self.checkpoints().pending_list().len()
                && (self.checkpoints().pending_list()[i].status == crate::checkpoint::WriteStatus::Pending
                || self.checkpoints().pending_list()[i].status == crate::checkpoint::WriteStatus::InProgress),
            r is Some ==> (r->Some_0 is Ok <==> forall|i: int| 0 <= i < self.checkpoints().pending_list().len()
                ==> self.checkpoints().pending_list()[i].status != crate::checkpoint::WriteStatus::Failed),
            match r {
                Some(Err(crate::error::Error::CheckpointWriteFailed { message })) =>
                    message@ == crate::checkpoint::failure_report(self.checkpoints().pending_list()),
                Some(Err(_)) => false,
                _ => true,
            },
    {
        self.checkpoint_manager.wait_pending_status()
    }

    /// Queues a local checkpoint: returns the request for the writer.
    pub fn save_checkpoint(
        &mut self,
        data: Vec<u8>,
        step: u64,
        epoch: u64,
        checkpoint_type: crate::types::CheckpointType,
        metadata: Vec<(String, String)>,
    ) -> (r: crate::checkpoint_format::WriteRequest)
        requires
            old(self).wf(),
        ensures
            final(self).wf(),
            final(self).registry() == old(self).registry(),
            final(self).shards() == old(self).shards(),
            exists|uuid: Seq<char>| #[trigger] crate::checkpoint::save_queued(old(self).checkpoints(), final(self).checkpoints(), uuid, data@, step, epoch, checkpoint_type, pair_views(metadata@), r),
    {
        let ghost d = data@;
        let ghost m = pair_views(metadata@);
        let ghost pre = self.checkpoint_manager;
        let r = self.checkpoint_manager.save_async(data, step, epoch, checkpoint_type, metadata);
        proof {
            let u = choose|u: Seq<char>| #[trigger] crate::checkpoint::save_queued(pre, self.checkpoint_manager, u, d, step, epoch, checkpoint_type, m, r);
            assert(crate::checkpoint::save_queued(old(self).checkpoints(), self.checkpoints(), u, d, step, epoch, checkpoint_type, m, r));
        }
        r
    }

    /// Evicts the Dead workers from the registry and the shard manager
    /// (ranks are renumbered); returns their ids.
    pub fn remove_dead_workers(&mut self) -> (r: Vec<String>)
        requires
            old(self).wf(),
        ensures
            final(self).wf(),
            forall|i: int| 0 <= i < final(self).registry().records().len() ==> (#[trigger] final(self).registry().records()[i]).state != WorkerState::Dead,
            forall|m: Seq<char>| #[trigger] final(self).registry().has(m) <==> exists|i: int| 0 <= i < old(self).registry().records().len()
                && old(self).registry().records()[i].id@ == m && old(self).registry().records()[i].state != WorkerState::Dead,
            forall|m: Seq<char>| #[trigger] crate::hash_ring::string_views(r@).contains(m) <==> exists|i: int| 0 <= i < old(self).registry().records().len()
                && old(self).registry().records()[i].id@ == m && old(self).registry().records()[i].state == WorkerState::Dead,
            forall|m: Seq<char>| #[trigger] final(self).shards().member_ids().contains(m) <==> (old(self).shards().member_ids().contains(m)
                && !crate::hash_ring::string_views(r@).contains(m)),
            final(self).checkpoints() == old(self).checkpoints(),
            final(self).dataset_infos() == old(self).dataset_infos(),
    {
        let ghost recs = self.workers.records();
        let removed = self.workers.remove_dead_workers();
        let mut ids: Vec<String> = Vec::new();
        let mut i: usize = 0;
        while i < removed.len()
            invariant
                self.wf(),
                forall|j: int| 0 <= j < self.registry().records().len() ==> (#[trigger] self.registry().records()[j]).state != WorkerState::Dead,
                forall|m: Seq<char>| #[trigger] self.registry().has(m) <==> exists|j: int| 0 <= j < recs.len()
                    && recs[j].id@ == m && recs[j].state != WorkerState::Dead,
                self.checkpoint_manager == old(self).checkpoint_manager,
                self.datasets == old(self).datasets,
                i <= removed@.len(),
                crate::hash_ring::string_views(ids@) == removed@.subrange(0, i as int).map_values(|w: WorkerInfo| w.id@),
                forall|m: Seq<char>| #[trigger] self.shards().member_ids().contains(m) <==> (old(self).shards().member_ids().contains(m)
                    && !crate::hash_ring::string_views(ids@).contains(m)),
            decreases removed@.len() - i,
        {
            let ghost before = crate::hash_ring::string_views(ids@);
            self.shard_manager.remove_worker(removed[i].id.as_str());
            ids.push(removed[i].id.clone());
            proof {
                let now = crate::hash_ring::string_views(ids@);
                assert(now =~= before.push(removed@[i as int].id@));
                assert(removed@.subrange(0, i + 1).map_values(|w: WorkerInfo| w.id@) =~= removed@.subrange(0, i as int).map_values(|w: WorkerInfo| w.id@).push(removed@[i as int].id@));
                assert forall|m: Seq<char>| #[trigger] self.shards().member_ids().contains(m) <==> (old(self).shards().member_ids().contains(m)
                    && !now.contains(m)) by {
                    if now.contains(m) && m != removed@[i as int].id@ {
                        let q = choose|q: int| 0 <= q < now.len() && now[q] == m;
                        assert(before[q] == m);
                    }
                    if before.contains(m) {
                        let q = choose|q: int| 0 <= q < before.len() && before[q] == m;
                        assert(now[q] == m);
                    }
                    if m == removed@[i as int].id@ {
                        assert(now[now.len() - 1] == m);
                    }
                }
            }
            i = i + 1;
        }
        proof {
            let sv = crate::hash_ring::string_views(ids@);
            assert(removed@.subrange(0, i as int) =~= removed@);
            assert forall|m: Seq<char>| #[trigger] sv.contains(m) <==> exists|j: int| 0 <= j < recs.len()
                && recs[j].id@ == m && recs[j].state == WorkerState::Dead by {
                if sv.contains(m) {
                    let q = choose|q: int| 0 <= q < sv.len() && sv[q] == m;
                    assert(removed@.contains(removed@[q]));
                    let j = choose|j: int| 0 <= j < recs.len() && recs[j] == removed@[q];
                }
                if exists|j: int| 0 <= j < recs.len() && recs[j].id@ == m && recs[j].state == WorkerState::Dead {
                    let j = choose|j: int| 0 <= j < recs.len() && recs[j].id@ == m && recs[j].state == WorkerState::Dead;
                    assert(recs.contains(recs[j]));
                    assert(removed@.contains(recs[j]));
                    let q = choose|q: int| 0 <= q < removed@.len() && removed@[q] == recs[j];
                    assert(sv[q] == m);
                }
            }
        }
        ids
    }
}

/// The answer to a released barrier arrival.
pub fn barrier_response(barrier_id: String, participants: u64, arrival_order: u64) -> (r: rpc::BarrierResponse)
    ensures
        r.released,
        r.barrier_id == barrier_id,
        r.participants == participants as i64,
        r.arrival_order == arrival_order as i64,
{
    rpc::BarrierResponse { released: true, barrier_id, participants: participants as i64, arrival_order: arrival_order as i64 }
}

} // verus!
