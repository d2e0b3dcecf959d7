//! Settings of the coordinator and its workers. Durations are in milliseconds.

use vstd::prelude::*;
use vstd::string::StringExecFns;

verus! {

/// Coordinator settings.
#[derive(Debug, Clone)]
pub struct CoordinatorConfig {
    pub bind_address: String,
    pub port: u16,
    pub max_workers: usize,
    pub heartbeat_timeout_ms: u64,
    pub dead_worker_check_interval_ms: u64,
}

impl Default for CoordinatorConfig {
    fn default() -> (r: Self)
        ensures
            r.bind_address@ == "0.0.0.0"@,
            r.port == 50051,
            r.max_workers == 10000,
            r.heartbeat_timeout_ms == 30_000,
            r.dead_worker_check_interval_ms == 5_000,
    {
        CoordinatorConfig {
            bind_address: String::from_str("0.0.0.0"),
            port: 50051,
            max_workers: 10000,
            heartbeat_timeout_ms: 30_000,
            dead_worker_check_interval_ms: 5_000,
        }
    }
}

/// Worker-side settings.
#[derive(Debug, Clone)]
pub struct WorkerConfig {
    pub coordinator_address: String,
    pub worker_id: Option<String>,
    pub heartbeat_interval_ms: u64,
    pub io_threads: usize,
    pub prefetch_buffer_size: usize,
}

impl Default for WorkerConfig {
    fn default() -> (r: Self)
        ensures
            r.coordinator_address@ == "localhost:50051"@,
            r.worker_id is None,
            r.heartbeat_interval_ms == 5_000,
            r.io_threads == 4,
            r.prefetch_buffer_size == 16,
    {
        WorkerConfig {
            coordinator_address: String::from_str("localhost:50051"),
            worker_id: None,
            heartbeat_interval_ms: 5_000,
            io_threads: 4,
            prefetch_buffer_size: 16,
        }
    }
}

/// When checkpoints are taken. The adaptive loss threshold is in thousandths.
#[derive(Debug, Clone)]
pub enum CheckpointStrategy {
    Steps { interval: u64 },
    Time { interval_ms: u64 },
    Adaptive { min_steps: u64, max_steps: u64, loss_threshold_milli: u64 },
    Manual,
}

impl Default for CheckpointStrategy {
    fn default() -> (r: Self)
        ensures
            r == (CheckpointStrategy::Steps { interval: 1000 }),
    {
        CheckpointStrategy::Steps { interval: 1000 }
    }
}

/// Checkpoint settings.
#[derive(Debug, Clone)]
pub struct CheckpointConfig {
    pub strategy: CheckpointStrategy,
    pub keep_count: usize,
    pub write_buffer_size: usize,
    pub compression: bool,
    pub compression_level: u32,
    pub write_timeout_ms: u64,
}

impl Default for CheckpointConfig {
    fn default() -> (r: Self)
        ensures
            r.strategy == (CheckpointStrategy::Steps { interval: 1000 }),
            r.keep_count == 5,
            r.write_buffer_size == 64 * 1024 * 1024,
            r.compression,
            r.compression_level == 3,
            r.write_timeout_ms == 300_000,
    {
        CheckpointConfig {
            strategy: CheckpointStrategy::default(),
            keep_count: 5,
            write_buffer_size: 64 * 1024 * 1024,
            compression: true,
            compression_level: 3,
            write_timeout_ms: 300_000,
        }
    }
}

/// Network settings.
#[derive(Debug, Clone)]
pub struct NetworkConfig {
    pub connect_timeout_ms: u64,
    pub request_timeout_ms: u64,
    pub keepalive_interval_ms: u64,
    pub max_message_size: usize,
    pub tls_enabled: bool,
}

impl Default for NetworkConfig {
    fn default() -> (r: Self)
        ensures
            r.connect_timeout_ms == 10_000,
            r.request_timeout_ms == 30_000,
            r.keepalive_interval_ms == 10_000,
            r.max_message_size == 256 * 1024 * 1024,
            !r.tls_enabled,
    {
        NetworkConfig {
            connect_timeout_ms: 10_000,
            request_timeout_ms: 30_000,
            keepalive_interval_ms: 10_000,
            max_message_size: 256 * 1024 * 1024,
            tls_enabled: false,
        }
    }
}

/// Server settings.
#[derive(Debug, Clone)]
pub struct ServerConfig {
    pub addr: String,
    pub tcp_keepalive_ms: Option<u64>,
    pub request_timeout_ms: Option<u64>,
    pub enable_reflection: bool,
}

impl Default for ServerConfig {
    fn default() -> (r: Self)
        ensures
            r.addr@ == "0.0.0.0:50051"@,
            r.tcp_keepalive_ms == Some(60_000u64),
            r.request_timeout_ms == Some(300_000u64),
            r.enable_reflection,
    {
        ServerConfig {
            addr: String::from_str("0.0.0.0:50051"),
            tcp_keepalive_ms: Some(60_000),
            request_timeout_ms: Some(300_000),
            enable_reflection: true,
        }
    }
}

/// All settings of a node.
#[derive(Debug, Clone)]
pub struct RuntimeConfig {
    pub coordinator: CoordinatorConfig,
    pub worker: WorkerConfig,
    pub checkpoint: CheckpointConfig,
    pub network: NetworkConfig,
}

impl Default for RuntimeConfig {
    fn default() -> (r: Self)
        ensures
            r.coordinator.port == 50051,
            r.checkpoint.keep_count == 5,
            r.network.max_message_size == 256 * 1024 * 1024,
    {
        RuntimeConfig {
            coordinator: CoordinatorConfig::default(),
            worker: WorkerConfig::default(),
            checkpoint: CheckpointConfig::default(),
            network: NetworkConfig::default(),
        }
    }
}

} // verus!
