use train_coord::worker::{GpuMetrics, ResourceMetrics, WorkerInfo, WorkerRegistry, WorkerState};
use train_coord::error::Error;

fn worker(id: &str) -> WorkerInfo {
    WorkerInfo::new(id.to_string(), "host1".to_string(), 50052, 0, 1, 0)
}

#[test]
fn worker_test_worker_registration() {
    let mut registry = WorkerRegistry::new(10, 30_000);

    let w = WorkerInfo::new("worker-1".to_string(), "host1".to_string(), 50052, 0, 1, 0);

    let registered = registry.register(w).unwrap();
    assert_eq!(registered.rank, 0);
    assert_eq!(registry.world_size(), 1);
}

#[test]
fn test_worker_heartbeat() {
    let mut registry = WorkerRegistry::new(10, 30_000);

    let w = WorkerInfo::new("worker-1".to_string(), "host1".to_string(), 50052, 0, 1, 0);
    registry.register(w).unwrap();

    registry
        .heartbeat("worker-1", WorkerState::Training, ResourceMetrics::zero())
        .unwrap();

    let updated = registry.get("worker-1").unwrap();
    assert_eq!(updated.state, WorkerState::Training);
}

#[test]
fn test_duplicate_registration() {
    let mut registry = WorkerRegistry::new(10, 30_000);

    let w = WorkerInfo::new("worker-1".to_string(), "host1".to_string(), 50052, 0, 1, 0);

    registry.register(w.clone()).unwrap();
    let result = registry.register(w);
    assert!(matches!(result, Err(Error::WorkerAlreadyRegistered { .. })));
}

#[test]
fn registry_capacity_and_ranks() {
    let mut r = WorkerRegistry::new(2, 1000);
    assert_eq!(r.register_at(worker("a"), 5).unwrap().rank, 0);
    let b = r.register_at(worker("b"), 6).unwrap();
    assert_eq!(b.rank, 1);
    assert_eq!(b.state, WorkerState::Idle);
    assert_eq!(b.registered_at_ms, 6);
    assert!(matches!(r.register_at(worker("c"), 7), Err(Error::InvalidConfig { .. })));
    assert_eq!(r.deregister("a").unwrap().id, "a");
    assert!(matches!(r.deregister("a"), Err(Error::WorkerNotFound { .. })));
    assert_eq!(r.register_at(worker("c"), 8).unwrap().rank, 1);
    assert_eq!(r.get("b").unwrap().rank, 0);
}

#[test]
fn dead_workers_are_marked_then_removed() {
    let mut r = WorkerRegistry::new(10, 1000);
    r.register_at(worker("a"), 0).unwrap();
    r.register_at(worker("b"), 0).unwrap();
    r.heartbeat_at("b", WorkerState::Training, ResourceMetrics::zero(), 1500).unwrap();
    assert_eq!(r.check_dead_workers_at(2000), vec!["a".to_string()]);
    assert_eq!(r.check_dead_workers_at(2000), Vec::<String>::new());
    let removed = r.remove_dead_workers();
    assert_eq!(removed.len(), 1);
    assert_eq!(removed[0].id, "a");
    assert_eq!(r.world_size(), 1);
    assert!(r.heartbeat_at("a", WorkerState::Idle, ResourceMetrics::zero(), 1).is_err());
}

#[test]
fn progress_updates_keep_task_unless_given() {
    let mut r = WorkerRegistry::new(10, 1000);
    r.register_at(worker("a"), 0).unwrap();
    r.update_progress("a", 10, 1, Some("train".to_string())).unwrap();
    r.update_progress("a", 11, 1, None).unwrap();
    let w = r.get("a").unwrap();
    assert_eq!(w.current_step, 11);
    assert_eq!(w.current_task, "train");
    assert!(matches!(r.update_progress("zz", 1, 1, None), Err(Error::WorkerNotFound { .. })));
}

#[test]
fn aggregate_sums_active_workers_only() {
    let mut r = WorkerRegistry::new(10, 1000);
    r.register_at(worker("a"), 0).unwrap();
    r.register_at(worker("b"), 0).unwrap();
    r.register_at(worker("c"), 0).unwrap();
    let res = |cpu: u64, gpus: u32| ResourceMetrics {
        cpu_milli_percent: cpu,
        memory_used_bytes: 10,
        gpu_metrics: (0..gpus).map(|g| GpuMetrics { gpu_id: g, ..Default::default() }).collect(),
        disk_read_bytes: 1,
        disk_write_bytes: 2,
        network_rx_bytes: 3,
        network_tx_bytes: u64::MAX,
    };
    r.heartbeat_at("a", WorkerState::Training, res(500, 2), 1).unwrap();
    r.heartbeat_at("b", WorkerState::Idle, res(250, 1), 1).unwrap();
    r.heartbeat_at("c", WorkerState::Error, res(999, 4), 1).unwrap();
    let agg = r.aggregate_resources();
    assert_eq!(agg.cpu_milli_percent, 750);
    assert_eq!(agg.memory_used_bytes, 20);
    assert_eq!(agg.gpu_metrics.len(), 3);
    assert_eq!(agg.network_tx_bytes, u64::MAX);
    assert_eq!(r.active_workers().len(), 2);
    assert_eq!(r.all_workers().len(), 3);
}

#[test]
fn state_machine_edges() {
    assert!(WorkerState::Initializing.can_transition_to(WorkerState::Idle));
    assert!(WorkerState::Idle.can_transition_to(WorkerState::Training));
    assert!(WorkerState::Training.can_transition_to(WorkerState::Checkpointing));
    assert!(WorkerState::Checkpointing.can_transition_to(WorkerState::Training));
    assert!(WorkerState::Dead.can_transition_to(WorkerState::Recovering));
    assert!(WorkerState::Disconnecting.can_transition_to(WorkerState::Error));
    assert!(!WorkerState::Training.can_transition_to(WorkerState::Idle));
    assert!(!WorkerState::LoadingData.can_transition_to(WorkerState::Checkpointing));
    assert!(!WorkerState::Disconnecting.can_transition_to(WorkerState::Idle));
    assert!(WorkerState::Recovering.is_active());
    assert!(!WorkerState::Dead.is_active());
    assert!(WorkerState::Idle.can_accept_work());
    assert!(!WorkerState::Training.can_accept_work());
}

#[test]
fn liveness_of_a_record() {
    let w = WorkerInfo::new("a".to_string(), "h".to_string(), 1, 0, 1, 1000);
    assert!(!w.is_dead_at(500, 1500));
    assert!(w.is_dead_at(500, 1501));
    assert_eq!(w.time_since_heartbeat_at(1200), 200);
    assert_eq!(w.time_since_heartbeat_at(900), 0);
}

#[test]
fn record_heartbeat_stamps_time() {
    let mut w = WorkerInfo::new("a".to_string(), "h".to_string(), 1, 0, 1, 0);
    w.heartbeat_at(ResourceMetrics::zero(), 42);
    assert_eq!(w.last_heartbeat_ms, 42);
    w.heartbeat(ResourceMetrics::zero());
    assert!(!w.is_dead(u64::MAX));
}

#[test]
fn registry_ranks_stay_dense() {
    let mut r = WorkerRegistry::new(10, 1000);
    for id in ["a", "b", "c", "d"] {
        r.register_at(worker(id), 0).unwrap();
    }
    r.deregister("b").unwrap();
    let ranks: Vec<(String, u32)> = r.all_workers().iter().map(|w| (w.id.clone(), w.rank)).collect();
    assert_eq!(ranks, vec![("a".to_string(), 0), ("c".to_string(), 1), ("d".to_string(), 2)]);
    r.heartbeat_at("a", WorkerState::Training, ResourceMetrics::zero(), 0).unwrap();
    r.check_dead_workers_at(5000);
    r.remove_dead_workers();
    assert_eq!(r.world_size(), 0);
    assert_eq!(r.register_at(worker("e"), 0).unwrap().rank, 0);
}
