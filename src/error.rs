//! Error kinds shared by every part of the coordinator.

use vstd::prelude::*;

verus! {

/// Core error type of the coordinator.
#[derive(Debug, Clone)]
pub enum Error {
    WorkerNotFound { worker_id: String },
    WorkerAlreadyRegistered { worker_id: String },
    WorkerHeartbeatTimeout { worker_id: String, last_seen_ms: u64 },
    InvalidWorkerState { expected: Vec<String>, actual: String },
    CheckpointNotFound { checkpoint_id: String },
    CheckpointWriteFailed { message: String },
    CheckpointCorrupted { checkpoint_id: String, reason: String },
    NoCheckpointForRecovery,
    DatasetNotFound { dataset_id: String },
    ShardNotFound { dataset_id: String, shard_id: u64 },
    InvalidShardConfig { message: String },
    Storage { message: String },
    StorageUnavailable { backend: String },
    StoragePathNotFound { path: String },
    BarrierTimeout { barrier_id: String, timeout_ms: u64 },
    BarrierExists { barrier_id: String },
    CoordinatorUnavailable { address: String },
    InvalidConfig { message: String },
    /// An operating-system I/O failure, carried as its message.
    Io { message: String },
    Serialization(String),
    Grpc(String),
    Internal { message: String },
    Timeout { operation: String, timeout_ms: u64 },
    ChannelClosed { channel: String },
}

impl Error {
    /// Transient failures: a later attempt may succeed.
    pub open spec fn spec_is_retryable(&self) -> bool {
        ||| self is WorkerHeartbeatTimeout
        ||| self is Storage
        ||| self is StorageUnavailable
        ||| self is CoordinatorUnavailable
        ||| self is BarrierTimeout
        ||| self is Timeout
        ||| self is Grpc
    }

    /// Conditions that no retry can repair.
    pub open spec fn spec_is_fatal(&self) -> bool {
        ||| self is CheckpointCorrupted
        ||| self is InvalidConfig
        ||| self is Internal
    }

    /// Suggested wait before retrying, in milliseconds.
    pub open spec fn spec_retry_delay_hint_ms(&self) -> Option<u64> {
        match self {
            Error::WorkerHeartbeatTimeout { .. } => Some(1000),
            Error::Storage { .. } => Some(100),
            Error::StorageUnavailable { .. } => Some(5000),
            Error::CoordinatorUnavailable { .. } => Some(2000),
            Error::BarrierTimeout { .. } => Some(500),
            Error::Timeout { .. } => Some(1000),
            Error::Grpc(_) => Some(100),
            _ => None,
        }
    }

    /// Returns true if this error is retryable.
    pub fn is_retryable(&self) -> (r: bool)
        ensures
            r == self.spec_is_retryable(),
    {
        match self {
            Error::WorkerHeartbeatTimeout { .. } => true,
            Error::Storage { .. } => true,
            Error::StorageUnavailable { .. } => true,
            Error::CoordinatorUnavailable { .. } => true,
            Error::BarrierTimeout { .. } => true,
            Error::Timeout { .. } => true,
            Error::Grpc(_) => true,
            _ => false,
        }
    }

    /// Returns true if this error indicates a fatal condition.
    pub fn is_fatal(&self) -> (r: bool)
        ensures
            r == self.spec_is_fatal(),
    {
        match self {
            Error::CheckpointCorrupted { .. } => true,
            Error::InvalidConfig { .. } => true,
            Error::Internal { .. } => true,
            _ => false,
        }
    }

    /// Returns a retry delay hint in milliseconds, if the error is retryable.
    pub fn retry_delay_hint_ms(&self) -> (r: Option<u64>)
        ensures
            r == self.spec_retry_delay_hint_ms(),
            r is Some <==> self.spec_is_retryable(),
    {
        match self {
            Error::WorkerHeartbeatTimeout { .. } => Some(1000),
            Error::Storage { .. } => Some(100),
            Error::StorageUnavailable { .. } => Some(5000),
            Error::CoordinatorUnavailable { .. } => Some(2000),
            Error::BarrierTimeout { .. } => Some(500),
            Error::Timeout { .. } => Some(1000),
            Error::Grpc(_) => Some(100),
            _ => None,
        }
    }
}

} // verus!
