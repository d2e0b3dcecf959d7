use train_coord::barrier::BarrierArrival;
use train_coord::checkpoint::CheckpointManagerConfig;
use train_coord::middleware::StatusCode;
use train_coord::rpc::{BarrierRequest, CheckpointInfo, DatasetInfo, RecoveryRequest, ShardRequest, WorkerInfo, HeartbeatRequest, WorkerStatus};
use train_coord::service::CoordinatorService;

fn service() -> CoordinatorService {
    CoordinatorService::with_config(CheckpointManagerConfig::default(), 100, 30_000)
}

fn worker(id: &str) -> WorkerInfo {
    WorkerInfo {
        worker_id: id.to_string(),
        hostname: "localhost".to_string(),
        port: 50052,
        gpu_count: 2,
        memory_bytes: 16 * 1024 * 1024 * 1024,
        metadata: vec![],
    }
}

fn dataset(id: &str, total: i64, size: i64, shuffle: bool) -> DatasetInfo {
    DatasetInfo {
        dataset_id: id.to_string(),
        path: format!("/data/{}", id),
        format: "tfrecord".to_string(),
        total_samples: total,
        shard_size: size,
        shuffle,
        seed: 42,
        metadata: vec![],
    }
}

fn checkpoint(worker: &str, step: i64, path: &str) -> CheckpointInfo {
    CheckpointInfo {
        worker_id: worker.to_string(),
        checkpoint_id: format!("ckpt-{}", step),
        step,
        epoch: 0,
        storage_path: path.to_string(),
        size_bytes: 1024,
        timestamp_ms: 0,
        checkpoint_type: 0,
        metadata: vec![],
    }
}

#[test]
fn test_service_creation() {
    let s = service();
    assert!(s.world_size() == 0);
}

#[test]
fn service_test_worker_registration() {
    let mut s = service();
    let config = s.register_worker(worker("worker-1")).unwrap();
    assert_eq!(config.assigned_id, "worker-1");
    assert_eq!(config.rank, 0);
    assert_eq!(config.world_size, 1);
}

#[test]
fn test_dataset_registration() {
    let mut s = service();
    s.register_worker(worker("worker-1")).unwrap();
    let ack = s.register_dataset(dataset("imagenet", 1_281_167, 10_000, true)).unwrap();
    assert!(ack.success);
    assert_eq!(ack.dataset_id, "imagenet");
    assert!(ack.total_shards > 0);
}

#[test]
fn four_workers_then_imagenet_shard() {
    let mut s = service();
    for i in 0..4 {
        let c = s.register_worker_at(worker(&format!("W{}", i)), 0).unwrap();
        assert_eq!(c.rank, i);
    }
    assert_eq!(s.world_size(), 4);
    let ack = s.register_dataset(dataset("imagenet", 1_281_167, 10_000, true)).unwrap();
    assert_eq!(ack.total_shards, 129);
    assert_eq!(ack.message, "Dataset registered with 129 shards");
    let shard = s.get_data_shard(ShardRequest { worker_id: "W0".to_string(), dataset_id: "imagenet".to_string(), epoch: 0 }).unwrap();
    let k = shard.shard_id;
    assert!((0..129).contains(&k));
    assert_eq!(shard.start_index, k * 10_000);
    assert_eq!(shard.end_index, std::cmp::min(1_281_167, (k + 1) * 10_000));
    assert_eq!(shard.file_paths, vec!["/data/imagenet".to_string()]);
    assert_eq!(shard.total_shards, 129);
    assert_eq!(shard.epoch, 0);
}

#[test]
fn registration_failures() {
    let mut s = CoordinatorService::with_config(CheckpointManagerConfig::default(), 1, 30_000);
    assert_eq!(s.register_worker_at(worker("bad/id"), 0).unwrap_err().code, StatusCode::InvalidArgument);
    let mut w = worker("a");
    w.port = 0;
    assert_eq!(s.register_worker_at(w, 0).unwrap_err().code, StatusCode::InvalidArgument);
    s.register_worker_at(worker("a"), 0).unwrap();
    assert_eq!(s.register_worker_at(worker("b"), 0).unwrap_err().code, StatusCode::ResourceExhausted);
    let mut t = service();
    t.register_worker_at(worker("a"), 0).unwrap();
    assert_eq!(t.register_worker_at(worker("a"), 0).unwrap_err().code, StatusCode::AlreadyExists);
}

#[test]
fn no_workers_means_no_shard() {
    let mut s = service();
    s.register_dataset(dataset("d", 100, 10, true)).unwrap();
    let e = s.get_data_shard(ShardRequest { worker_id: "W0".to_string(), dataset_id: "d".to_string(), epoch: 0 }).unwrap_err();
    assert_eq!(e.code, StatusCode::NotFound);
    let e = s.get_data_shard(ShardRequest { worker_id: "W0".to_string(), dataset_id: "none".to_string(), epoch: 0 }).unwrap_err();
    assert_eq!(e.code, StatusCode::NotFound);
    assert_eq!(s.register_dataset(dataset("z", 100, 0, true)).unwrap_err().code, StatusCode::InvalidArgument);
}

#[test]
fn notify_then_recover() {
    let mut s = service();
    s.register_worker_at(worker("W0"), 0).unwrap();
    s.register_dataset(dataset("d", 100, 10, false)).unwrap();
    let (ack, gone) = s.notify_checkpoint_at(checkpoint("W0", 100, "/ckpt/100"), 0).unwrap();
    assert!(ack.success);
    assert_eq!(ack.global_step, 100);
    assert!(gone.is_empty());
    let r = s.get_latest_checkpoint(RecoveryRequest { worker_id: "W0".to_string(), job_id: "j".to_string() });
    assert!(r.has_checkpoint);
    assert_eq!(r.resume_step, 100);
    let c = r.latest_checkpoint.unwrap();
    assert_eq!(c.storage_path, "/ckpt/100");
    assert_eq!(c.metadata, vec![("worker_id".to_string(), "W0".to_string())]);
    assert_eq!(r.shard_assignments.len(), 10);
    assert!(r.shard_assignments.iter().all(|a| a.epoch == 0));
    let mut bad = checkpoint("W0", -1, "/x");
    assert_eq!(s.notify_checkpoint_at(bad.clone(), 0).unwrap_err().code, StatusCode::InvalidArgument);
    bad.step = 1;
    bad.checkpoint_id = String::new();
    assert_eq!(s.notify_checkpoint_at(bad, 0).unwrap_err().code, StatusCode::InvalidArgument);
}

#[test]
fn recovery_after_membership_change() {
    let mut s = service();
    for w in ["W0", "W1", "W2"] {
        s.register_worker_at(worker(w), 0).unwrap();
    }
    s.register_dataset(dataset("d", 1000, 100, true)).unwrap();
    s.notify_checkpoint_at(checkpoint("W0", 100, "/ckpt/100"), 0).unwrap();
    s.deregister_worker(worker("W0")).unwrap();
    let c = s.register_worker_at(worker("Wnew"), 0).unwrap();
    assert_eq!(c.world_size, 3);
    assert_eq!(c.rank, 2);
    let r = s.get_latest_checkpoint(RecoveryRequest { worker_id: "Wnew".to_string(), job_id: "j".to_string() });
    assert_eq!(r.resume_step, 100);
    let mut mine: Vec<i64> = r.shard_assignments.iter().map(|a| a.shard_id).collect();
    let mut others = vec![];
    for w in ["W1", "W2"] {
        let r = s.get_latest_checkpoint(RecoveryRequest { worker_id: w.to_string(), job_id: "j".to_string() });
        others.extend(r.shard_assignments.iter().map(|a| a.shard_id));
    }
    mine.extend(others);
    mine.sort();
    assert_eq!(mine, (0..10).collect::<Vec<i64>>());
    assert!(s.deregister_worker(worker("W0")).is_err());
}

#[test]
fn no_checkpoint_means_fresh_start() {
    let mut s = service();
    let r = s.get_latest_checkpoint(RecoveryRequest { worker_id: "x".to_string(), job_id: "j".to_string() });
    assert!(!r.has_checkpoint);
    assert!(r.latest_checkpoint.is_none());
    assert_eq!(r.resume_step, 0);
}

#[test]
fn heartbeats_update_state() {
    let mut s = service();
    s.register_worker_at(worker("W0"), 0).unwrap();
    let hb = HeartbeatRequest {
        worker_id: "W0".to_string(),
        status: Some(WorkerStatus { state: 4, current_step: 5, current_epoch: 1, current_task: "t".to_string() }),
        resources: None,
    };
    let resp = s.heartbeat_at(hb, 77).unwrap();
    assert!(resp.acknowledged);
    assert_eq!(resp.server_timestamp_ms, 77);
    let unknown = HeartbeatRequest { worker_id: "nope".to_string(), status: None, resources: None };
    assert_eq!(s.heartbeat_at(unknown, 1).unwrap_err().code, StatusCode::NotFound);
}

#[test]
fn eight_workers_sync_at_a_barrier() {
    let mut s = service();
    for i in 0..8 {
        s.register_worker_at(worker(&format!("barrier-worker-{}", i)), 0).unwrap();
    }
    let mut orders = vec![];
    let mut releases = 0;
    for i in 0..8 {
        let req = BarrierRequest { worker_id: format!("barrier-worker-{}", i), barrier_id: "epoch-sync".to_string(), step: 0 };
        match s.wait_barrier(&req) {
            BarrierArrival::Waiting { arrival_order } => orders.push(arrival_order),
            BarrierArrival::Released { participants, arrival_order } => {
                assert_eq!(participants, 8);
                releases += 1;
                orders.push(arrival_order);
                let resp = train_coord::service::barrier_response(req.barrier_id.clone(), participants, arrival_order);
                assert!(resp.released);
                assert_eq!(resp.participants, 8);
            }
        }
    }
    assert_eq!(releases, 1);
    orders.sort();
    assert_eq!(orders, (1..=8).collect::<Vec<u64>>());
}
