use train_coord::epoch::{round_robin_cut, EpochCoordinator};

#[test]
fn test_epoch_progression() {
    let mut coord = EpochCoordinator::new();

    assert_eq!(coord.current_epoch("dataset-1"), 0);

    coord.init_epoch("dataset-1", 0);
    assert_eq!(coord.current_epoch("dataset-1"), 0);

    assert_eq!(coord.advance_epoch("dataset-1"), 1);
    assert_eq!(coord.current_epoch("dataset-1"), 1);

    assert_eq!(coord.advance_epoch("dataset-1"), 2);
    assert_eq!(coord.current_epoch("dataset-1"), 2);
}

#[test]
fn test_deterministic_shuffling() {
    let seed = 42;
    let mut coord1 = EpochCoordinator::with_seed(seed);
    let mut coord2 = EpochCoordinator::with_seed(seed);

    let shards1 = coord1.get_shuffled_shards("dataset-1", 0, 100);
    let shards2 = coord2.get_shuffled_shards("dataset-1", 0, 100);

    assert_eq!(shards1, shards2);
}

#[test]
fn test_different_epochs_different_shuffle() {
    let mut coord = EpochCoordinator::with_seed(42);

    let epoch0 = coord.get_shuffled_shards("dataset-1", 0, 100);
    let epoch1 = coord.get_shuffled_shards("dataset-1", 1, 100);

    assert_ne!(epoch0, epoch1);
}

#[test]
fn test_different_datasets_different_shuffle() {
    let mut coord = EpochCoordinator::with_seed(42);

    let ds1 = coord.get_shuffled_shards("dataset-1", 0, 100);
    let ds2 = coord.get_shuffled_shards("dataset-2", 0, 100);

    assert_ne!(ds1, ds2);
}

#[test]
fn test_worker_shard_distribution() {
    let mut coord = EpochCoordinator::with_seed(42);

    let w0_shards = coord.get_worker_shards("dataset-1", 0, 100, 0, 4);
    let w1_shards = coord.get_worker_shards("dataset-1", 0, 100, 1, 4);
    let w2_shards = coord.get_worker_shards("dataset-1", 0, 100, 2, 4);
    let w3_shards = coord.get_worker_shards("dataset-1", 0, 100, 3, 4);

    assert_eq!(w0_shards.len(), 25);
    assert_eq!(w1_shards.len(), 25);
    assert_eq!(w2_shards.len(), 25);
    assert_eq!(w3_shards.len(), 25);

    let mut all_shards: Vec<u64> = vec![];
    all_shards.extend(w0_shards.iter().copied());
    all_shards.extend(&w1_shards);
    all_shards.extend(&w2_shards);
    all_shards.extend(&w3_shards);

    all_shards.sort();
    all_shards.dedup();
    assert_eq!(all_shards.len(), 100);
}

#[test]
fn test_shuffle_cache() {
    let mut coord = EpochCoordinator::with_seed(42);

    let first = coord.get_shuffled_shards("dataset-1", 0, 100);
    assert!(coord.is_cached("dataset-1", 0));
    let second = coord.get_shuffled_shards("dataset-1", 0, 100);

    assert_eq!(first, second);
}

#[test]
fn test_clear_cache() {
    let mut coord = EpochCoordinator::with_seed(42);

    coord.get_shuffled_shards("dataset-1", 0, 100);
    coord.get_shuffled_shards("dataset-1", 1, 100);
    coord.get_shuffled_shards("dataset-2", 0, 100);

    coord.clear_cache("dataset-1");

    assert!(coord.is_cached("dataset-2", 0));
    assert!(!coord.is_cached("dataset-1", 0));
    assert!(!coord.is_cached("dataset-1", 1));
}

#[test]
fn shuffled_order_is_a_permutation() {
    let mut coord = EpochCoordinator::with_seed(7);
    for c in [0u64, 1, 2, 17, 100] {
        let mut order = coord.get_shuffled_shards("d", 3, c);
        order.sort();
        assert_eq!(order, (0..c).collect::<Vec<u64>>());
    }
}

#[test]
fn shuffles_match_across_coordinators_and_clearing() {
    let mut a = EpochCoordinator::with_seed(99);
    let first = a.get_shuffled_shards("imagenet", 5, 129);
    a.clear_all_caches();
    let again = a.get_shuffled_shards("imagenet", 5, 129);
    let mut b = EpochCoordinator::with_seed(99);
    assert_eq!(first, again);
    assert_eq!(first, b.get_shuffled_shards("imagenet", 5, 129));
}

#[test]
fn fewer_shards_than_workers_leaves_some_empty() {
    let mut coord = EpochCoordinator::with_seed(1);
    let mut all = vec![];
    let mut empty = 0;
    for r in 0..5u32 {
        let s = coord.get_worker_shards("d", 0, 3, r, 5);
        if s.is_empty() {
            empty += 1;
        }
        all.extend(s);
    }
    all.sort();
    assert_eq!(all, vec![0, 1, 2]);
    assert_eq!(empty, 2);
    assert!(coord.get_worker_shards("d", 0, 3, 0, 0).is_empty());
}

#[test]
fn round_robin_cut_follows_shuffled_order() {
    let mut coord = EpochCoordinator::with_seed(42);
    let order = coord.get_shuffled_shards("x", 2, 10);
    let cut = coord.get_worker_shards("x", 2, 10, 1, 3);
    assert_eq!(cut, vec![order[1], order[4], order[7]]);
}

#[test]
fn epochs_and_seed_are_reported() {
    let mut coord = EpochCoordinator::with_seed(42);
    coord.init_epoch("dataset-1", 5);
    coord.init_epoch("dataset-2", 10);
    assert_eq!(coord.base_seed(), 42);
    let mut all = coord.all_epochs();
    all.sort();
    assert_eq!(all, vec![("dataset-1".to_string(), 5), ("dataset-2".to_string(), 10)]);
}

#[test]
fn epoch_test_state_serialization() {
    let mut coord = EpochCoordinator::with_seed(42);
    coord.init_epoch("dataset-1", 5);
    coord.init_epoch("dataset-2", 10);
    let state = coord.state();
    let mut restored = EpochCoordinator::from_state(&state);
    assert_eq!(restored.base_seed(), 42);
    assert_eq!(restored.current_epoch("dataset-1"), 5);
    assert_eq!(restored.current_epoch("dataset-2"), 10);
    assert_eq!(restored.get_shuffled_shards("dataset-1", 5, 20), coord.get_shuffled_shards("dataset-1", 5, 20));
}

#[test]
fn round_robin_cut_of_a_given_order() {

    let order = vec![9, 8, 7, 6, 5];
    assert_eq!(round_robin_cut(&order, 0, 2), vec![9, 7, 5]);
    assert_eq!(round_robin_cut(&order, 1, 2), vec![8, 6]);
    assert_eq!(round_robin_cut(&order, 0, 0), Vec::<u64>::new());
    assert_eq!(round_robin_cut(&order, 6, 7), Vec::<u64>::new());
}
