//! Messages of the coordinator's RPC surface.

use vstd::prelude::*;

verus! {

/// A worker announcing itself.
#[derive(Debug, Clone)]
pub struct WorkerInfo {
    pub worker_id: String,
    pub hostname: String,
    pub port: i32,
    pub gpu_count: i32,
    pub memory_bytes: i64,
    pub metadata: Vec<(String, String)>,
}

/// What a worker is told on (de)registration.
#[derive(Debug, Clone)]
pub struct WorkerConfig {
    pub assigned_id: String,
    pub rank: i32,
    pub world_size: i32,
    pub heartbeat_interval_ms: i64,
    pub config: Vec<(String, String)>,
}

/// Reported status of a worker. `state` uses the wire codes: 0 unknown,
/// 1 initializing, 2 idle, 3 loading data, 4 training, 5 checkpointing,
/// 6 recovering, 7 error.
#[derive(Debug, Clone)]
pub struct WorkerStatus {
    pub state: i32,
    pub current_step: i64,
    pub current_epoch: i64,
    pub current_task: String,
}

/// Reported usage of one GPU; shares and temperatures in thousandths.
#[derive(Debug, Clone, Copy)]
pub struct GpuUsage {
    pub gpu_id: i32,
    pub utilization_milli_percent: i64,
    pub memory_used_bytes: i64,
    pub memory_total_bytes: i64,
    pub temperature_milli_celsius: i64,
}

/// Reported resource usage; the CPU share in thousandths of a percent.
#[derive(Debug, Clone)]
pub struct ResourceUsage {
    pub cpu_milli_percent: i64,
    pub memory_used_bytes: i64,
    pub gpu_usage: Vec<GpuUsage>,
    pub disk_read_bytes: i64,
    pub disk_write_bytes: i64,
    pub network_rx_bytes: i64,
    pub network_tx_bytes: i64,
}

/// A heartbeat.
#[derive(Debug, Clone)]
pub struct HeartbeatRequest {
    pub worker_id: String,
    pub status: Option<WorkerStatus>,
    pub resources: Option<ResourceUsage>,
}

/// The answer to a heartbeat.
#[derive(Debug, Clone)]
pub struct HeartbeatResponse {
    pub acknowledged: bool,
    pub server_timestamp_ms: i64,
    pub pending_commands: Vec<String>,
}

/// A dataset to register.
#[derive(Debug, Clone)]
pub struct DatasetInfo {
    pub dataset_id: String,
    pub path: String,
    pub format: String,
    pub total_samples: i64,
    pub shard_size: i64,
    pub shuffle: bool,
    pub seed: i64,
    pub metadata: Vec<(String, String)>,
}

/// The answer to a dataset registration.
#[derive(Debug, Clone)]
pub struct DatasetAck {
    pub success: bool,
    pub dataset_id: String,
    pub total_shards: i64,
    pub message: String,
}

/// A request for a worker's shard of a dataset in an epoch.
#[derive(Debug, Clone)]
pub struct ShardRequest {
    pub worker_id: String,
    pub dataset_id: String,
    pub epoch: i64,
}

/// One shard on the wire.
#[derive(Debug, Clone)]
pub struct ShardAssignment {
    pub dataset_id: String,
    pub shard_id: i64,
    pub total_shards: i64,
    pub start_index: i64,
    pub end_index: i64,
    pub file_paths: Vec<String>,
    pub epoch: i64,
}

/// A checkpoint a worker wrote; `checkpoint_type` uses the type codes
/// 0 full, 1 incremental, 2 optimizer only, 3 model only.
#[derive(Debug, Clone)]
pub struct CheckpointInfo {
    pub worker_id: String,
    pub checkpoint_id: String,
    pub step: i64,
    pub epoch: i64,
    pub storage_path: String,
    pub size_bytes: i64,
    pub timestamp_ms: i64,
    pub checkpoint_type: i32,
    pub metadata: Vec<(String, String)>,
}

/// The answer to a checkpoint notification.
#[derive(Debug, Clone)]
pub struct CheckpointAck {
    pub success: bool,
    pub checkpoint_id: String,
    pub message: String,
    pub global_step: i64,
}

/// A request for the state to resume from.
#[derive(Debug, Clone)]
pub struct RecoveryRequest {
    pub worker_id: String,
    pub job_id: String,
}

/// The state to resume from.
#[derive(Debug, Clone)]
pub struct RecoveryResponse {
    pub has_checkpoint: bool,
    pub latest_checkpoint: Option<CheckpointInfo>,
    pub resume_step: i64,
    pub resume_epoch: i64,
    pub shard_assignments: Vec<ShardAssignment>,
}

/// An arrival at a barrier.
#[derive(Debug, Clone)]
pub struct BarrierRequest {
    pub worker_id: String,
    pub barrier_id: String,
    pub step: i64,
}

/// The answer to a barrier arrival.
#[derive(Debug, Clone)]
pub struct BarrierResponse {
    pub released: bool,
    pub barrier_id: String,
    pub participants: i64,
    pub arrival_order: i64,
}

} // verus!
