use train_coord::epoch::EpochCoordinator;
use train_coord::hash_ring::ConsistentHash;
use train_coord::shard_manager::ShardManager;
use train_coord::types::DatasetMetadata;

fn create_test_dataset(id: &str, total_samples: u64, shard_size: u64) -> DatasetMetadata {
    DatasetMetadata {
        id: id.to_string(),
        path: "/data/test".to_string(),
        format: "parquet".to_string(),
        total_samples,
        total_shards: total_samples.div_ceil(shard_size),
        shard_size,
        shuffle: true,
        seed: 42,
        metadata: Default::default(),
    }
}

#[test]
fn test_register_dataset() {
    let mut manager = ShardManager::new();
    let dataset = create_test_dataset("dataset-1", 1000, 100);

    manager.register_dataset(dataset.clone());

    assert_eq!(manager.dataset_count(), 1);
    let retrieved = manager.get_dataset("dataset-1").unwrap();
    assert_eq!(retrieved.id, "dataset-1");
    assert_eq!(retrieved.total_samples, 1000);
}

#[test]
fn test_register_worker() {
    let mut manager = ShardManager::new();

    manager.register_worker("worker-1");
    manager.register_worker("worker-2");

    assert_eq!(manager.active_worker_count(), 2);
    assert!(manager.active_workers().contains(&"worker-1".to_string()));
}

#[test]
fn test_get_shard_for_worker() {
    let mut manager = ShardManager::new();
    let dataset = create_test_dataset("dataset-1", 1000, 100);

    manager.register_dataset(dataset);
    manager.register_worker("worker-1");
    manager.register_worker("worker-2");

    let shards_w1 = manager.get_shard_for_worker("dataset-1", "worker-1", 0).unwrap();
    let shards_w2 = manager.get_shard_for_worker("dataset-1", "worker-2", 0).unwrap();

    assert_eq!(shards_w1.len() + shards_w2.len(), 10);

    let w1_ids: Vec<_> = shards_w1.iter().map(|s| s.shard_id).collect();
    let w2_ids: Vec<_> = shards_w2.iter().map(|s| s.shard_id).collect();

    for id in &w1_ids {
        assert!(!w2_ids.contains(id));
    }
}

#[test]
fn test_advance_epoch() {
    let mut manager = ShardManager::new();
    let dataset = create_test_dataset("dataset-1", 1000, 100);

    manager.register_dataset(dataset);

    assert_eq!(manager.current_epoch("dataset-1"), 0);

    assert_eq!(manager.advance_epoch("dataset-1"), Some(1));
    assert_eq!(manager.current_epoch("dataset-1"), 1);
}

#[test]
fn test_different_shards_per_epoch() {
    let mut manager = ShardManager::new();
    let dataset = create_test_dataset("dataset-1", 1000, 100);

    manager.register_dataset(dataset);
    manager.register_worker("worker-1");

    let epoch0_shards = manager.get_shard_for_worker("dataset-1", "worker-1", 0).unwrap();
    let epoch1_shards = manager.get_shard_for_worker("dataset-1", "worker-1", 1).unwrap();

    let epoch0_ids: Vec<_> = epoch0_shards.iter().map(|s| s.shard_id).collect();
    let epoch1_ids: Vec<_> = epoch1_shards.iter().map(|s| s.shard_id).collect();

    assert_eq!(epoch0_ids.len(), epoch1_ids.len());
}

#[test]
fn test_worker_removal_and_rebalance() {
    let mut manager = ShardManager::new();
    let dataset = create_test_dataset("dataset-1", 1000, 100);

    manager.register_dataset(dataset);
    manager.register_worker("worker-1");
    manager.register_worker("worker-2");
    manager.register_worker("worker-3");

    let initial = manager.rebalance_shards();
    assert_eq!(initial.len(), 3);

    manager.remove_worker("worker-2");

    let after_removal = manager.rebalance_shards();
    assert_eq!(after_removal.len(), 2);

    let mut all_shards = vec![];
    for (_worker, per_dataset) in after_removal.iter() {
        for (d, shards) in per_dataset {
            if d == "dataset-1" {
                all_shards.extend(shards.clone());
            }
        }
    }
    all_shards.sort();
    all_shards.dedup();
    assert_eq!(all_shards.len(), 10);
}

#[test]
fn test_heartbeat_and_health() {
    let mut manager = ShardManager::new();
    manager.register_worker("worker-1");

    manager.check_worker_health(0);
}

#[test]
fn test_shard_assignment_calculation() {
    let mut manager = ShardManager::new();
    let dataset = create_test_dataset("dataset-1", 1050, 100);

    manager.register_dataset(dataset);
    manager.register_worker("worker-1");

    let shards = manager.get_shard_for_worker("dataset-1", "worker-1", 0).unwrap();

    for shard in &shards {
        assert!(shard.end_index <= 1050);
        assert!(shard.start_index < shard.end_index);
    }
}

#[test]
fn test_full_workflow() {
    let mut manager = ShardManager::new();

    manager.register_worker("worker-0");
    manager.register_worker("worker-1");
    manager.register_worker("worker-2");
    manager.register_worker("worker-3");

    manager.register_dataset_params("cifar10", 60_000, 1_000, true, 42);

    let mut total_samples_assigned = 0;
    for i in 0..4 {
        let worker_id = format!("worker-{}", i);
        let assignments = manager.get_shard_for_worker("cifar10", &worker_id, 0).unwrap();

        assert!(assignments.len() >= 14 && assignments.len() <= 16);

        for assignment in &assignments {
            total_samples_assigned += assignment.end_index - assignment.start_index;
        }
    }

    assert_eq!(total_samples_assigned, 60_000);

    manager.advance_epoch("cifar10");
    let epoch0_shards: Vec<_> = manager
        .get_shard_for_worker("cifar10", "worker-0", 0)
        .unwrap()
        .iter()
        .map(|s| s.shard_id)
        .collect();
    let epoch1_shards: Vec<_> = manager
        .get_shard_for_worker("cifar10", "worker-0", 1)
        .unwrap()
        .iter()
        .map(|s| s.shard_id)
        .collect();

    assert_eq!(epoch0_shards.len(), epoch1_shards.len());
}

#[test]
fn lib_test_worker_failure_recovery() {
    let mut manager = ShardManager::new();

    manager.register_worker("worker-0");
    manager.register_worker("worker-1");
    manager.register_worker("worker-2");

    manager.register_dataset_params("dataset", 30_000, 1_000, false, 0);

    let initial_0 = manager.get_shard_for_worker("dataset", "worker-0", 0).unwrap();
    let initial_shards: Vec<_> = initial_0.iter().map(|s| s.shard_id).collect();

    manager.remove_worker("worker-1");

    let final_assignments = manager.rebalance_shards();

    let mut all_shards = vec![];
    for (_worker, per_dataset) in final_assignments.iter() {
        let m: std::collections::HashMap<String, Vec<u64>> = per_dataset.iter().cloned().collect();
        if let Some(shards) = m.get("dataset") {
            all_shards.extend(shards.clone());
        }
    }
    all_shards.sort();
    all_shards.dedup();
    assert_eq!(all_shards.len(), 30);

    let final_0 = manager.get_shard_for_worker("dataset", "worker-0", 0).unwrap();
    let final_shards: Vec<_> = final_0.iter().map(|s| s.shard_id).collect();

    let retained = initial_shards.iter().filter(|s| final_shards.contains(s)).count();
    let retention_rate = retained as f64 / initial_shards.len() as f64;
    assert!(
        retention_rate >= 0.8,
        "Should retain >= 80% of shards, got {}%",
        retention_rate * 100.0
    );
}

#[test]
fn test_deterministic_with_seed() {
    let seed = 12345u64;

    let mut manager1 = ShardManager::with_components(ConsistentHash::new(), EpochCoordinator::with_seed(seed));
    let mut manager2 = ShardManager::with_components(ConsistentHash::new(), EpochCoordinator::with_seed(seed));

    for m in [&mut manager1, &mut manager2] {
        m.register_worker("worker-0");
        m.register_worker("worker-1");
        m.register_dataset_params("data", 10_000, 100, true, 0);
    }

    let shards1: Vec<_> = manager1
        .get_shard_for_worker("data", "worker-0", 0)
        .unwrap()
        .iter()
        .map(|s| s.shard_id)
        .collect();

    let shards2: Vec<_> = manager2
        .get_shard_for_worker("data", "worker-0", 0)
        .unwrap()
        .iter()
        .map(|s| s.shard_id)
        .collect();

    assert_eq!(shards1, shards2);
}

#[test]
fn ranks_stay_dense_after_churn() {
    let mut m = ShardManager::new();
    for w in ["w3", "w1", "w4", "w0", "w2"] {
        m.register_worker(w);
    }
    assert_eq!(m.active_workers(), vec!["w3", "w1", "w4", "w0", "w2"]);
    m.remove_worker("w4");
    assert_eq!(m.active_workers(), vec!["w0", "w1", "w2", "w3"]);
    m.register_worker("a");
    assert_eq!(m.active_workers(), vec!["w0", "w1", "w2", "w3", "a"]);
    m.remove_worker("missing");
    assert_eq!(m.active_worker_count(), 5);
}

#[test]
fn adding_a_worker_twice_keeps_its_rank() {
    let mut m = ShardManager::new();
    m.register_worker("n");
    m.register_worker("m");
    let before = m.active_workers();
    m.register_worker("n");
    assert_eq!(m.active_workers(), before);
    assert_eq!(m.active_worker_count(), 2);
}

#[test]
fn eight_workers_cover_all_hundred_shards() {
    let build = || {
        let mut m = ShardManager::with_components(ConsistentHash::new(), EpochCoordinator::with_seed(42));
        for i in 0..8 {
            m.register_worker(&format!("worker-{}", i));
        }
        m.register_dataset_params("test-dataset", 100_000, 1_000, true, 42);
        let mut per = vec![];
        for i in 0..8 {
            let a = m.get_shard_for_worker("test-dataset", &format!("worker-{}", i), 0).unwrap();
            per.push(a.iter().map(|s| s.shard_id).collect::<Vec<u64>>());
        }
        per
    };
    let first = build();
    let second = build();
    assert_eq!(first, second);
    let mut all: Vec<u64> = first.iter().flatten().copied().collect();
    for p in &first {
        assert!(!p.is_empty(), "Worker should have at least 1 shard");
    }
    all.sort();
    assert_eq!(all, (0..100).collect::<Vec<u64>>());
}

#[test]
fn unknown_dataset_or_worker_gives_none() {
    let mut m = ShardManager::new();
    m.register_dataset_params("d", 10, 5, true, 0);
    assert!(m.get_shard_for_worker("d", "nobody", 0).is_none());
    m.register_worker("w");
    assert!(m.get_shard_for_worker("other", "w", 0).is_none());
    assert_eq!(m.advance_epoch("other"), None);
}

#[test]
fn unhealthy_workers_are_removed() {
    let mut m = ShardManager::new();
    m.register_worker_at("a", 100);
    m.register_worker_at("b", 1000);
    m.check_worker_health_at(50, 1010);
    let gone = m.remove_unhealthy_workers();
    assert_eq!(gone, vec!["a".to_string()]);
    assert_eq!(m.active_workers(), vec!["b".to_string()]);
}

#[test]
fn imagenet_shard_ranges_match_formula() {
    let mut m = ShardManager::new();
    for i in 0..4 {
        m.register_worker(&format!("W{}", i));
    }
    m.register_dataset_params("imagenet", 1_281_167, 10_000, false, 0);
    assert_eq!(m.get_dataset("imagenet").unwrap().total_shards, 129);
    let shards = m.get_shard_for_worker("imagenet", "W0", 0).unwrap();
    for s in &shards {
        assert!(s.shard_id < 129);
        assert_eq!(s.start_index, s.shard_id * 10_000);
        assert_eq!(s.end_index, std::cmp::min(1_281_167, (s.shard_id + 1) * 10_000));
    }
}

#[test]
fn assignments_follow_the_dataset_seed() {
    let build = |base: u64, seed: u64| {
        let mut m = ShardManager::with_components(ConsistentHash::new(), EpochCoordinator::with_seed(base));
        m.register_worker("a");
        m.register_worker("b");
        m.register_dataset_params("d", 1000, 10, true, seed);
        m.get_shard_for_worker("d", "a", 3).unwrap().iter().map(|s| s.shard_id).collect::<Vec<u64>>()
    };
    assert_eq!(build(1, 42), build(2, 42));
    assert_ne!(build(1, 42), build(1, 43));
}
