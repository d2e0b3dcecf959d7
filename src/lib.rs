//! Core of a coordinator for distributed training jobs: worker membership,
//! shard assignment, barriers and the checkpoint index.

pub mod clock;
pub mod config;
pub mod error;
pub mod hashing;
pub mod hash_ring;
pub mod epoch;
pub mod types;
pub mod shard_manager;
pub mod checkpoint_format;
pub mod checkpoint;
pub mod barrier;
pub mod worker;
pub mod middleware;
pub mod rpc;
pub mod service;
pub mod storage;
