use train_coord::hash_ring::ConsistentHash;

#[test]
fn test_add_and_get_node() {
    let mut ring = ConsistentHash::new();
    ring.add_node("worker-1");
    ring.add_node("worker-2");
    ring.add_node("worker-3");

    assert_eq!(ring.node_count(), 3);

    let node = ring.get_node("some-key").unwrap();
    assert!(["worker-1", "worker-2", "worker-3"].contains(&node.as_str()));
}

#[test]
fn test_consistent_mapping() {
    let mut ring = ConsistentHash::new();
    ring.add_node("worker-1");
    ring.add_node("worker-2");

    let key = "dataset-1:shard-42";
    let node1 = ring.get_node(key).unwrap();
    let node2 = ring.get_node(key).unwrap();
    assert_eq!(node1, node2);
}

#[test]
fn test_remove_node_minimal_movement() {
    let mut ring = ConsistentHash::new();
    ring.add_node("worker-1");
    ring.add_node("worker-2");
    ring.add_node("worker-3");

    let assignments_before: Vec<_> = (0..100)
        .map(|i| ring.get_node(&format!("key-{}", i)).unwrap())
        .collect();

    ring.remove_node("worker-2");
    assert_eq!(ring.node_count(), 2);

    let assignments_after: Vec<_> = (0..100)
        .map(|i| ring.get_node(&format!("key-{}", i)).unwrap())
        .collect();

    let unchanged = assignments_before
        .iter()
        .zip(assignments_after.iter())
        .filter(|(before, after)| *before != "worker-2" && before == after)
        .count();

    let originally_on_others = assignments_before
        .iter()
        .filter(|n| *n != "worker-2")
        .count();

    let retention_rate = unchanged as f64 / originally_on_others as f64;
    assert!(
        retention_rate > 0.8,
        "Retention rate should be > 80%, got {}%",
        retention_rate * 100.0
    );
}

#[test]
fn test_distribution_evenness() {
    let mut ring = ConsistentHash::new();
    ring.add_node("worker-1");
    ring.add_node("worker-2");
    ring.add_node("worker-3");

    let mut counts = std::collections::HashMap::new();
    let num_shards = 1000;

    for i in 0..num_shards {
        let node = ring.get_node_for_shard("dataset-1", i).unwrap();
        *counts.entry(node).or_insert(0) += 1;
    }

    let expected = num_shards / 3;
    let tolerance = expected / 2;

    for (node, count) in counts {
        assert!(
            (count as i64 - expected as i64).unsigned_abs() < tolerance as u64,
            "Node {} got {} shards, expected ~{} (±{})",
            node,
            count,
            expected,
            tolerance
        );
    }
}

#[test]
fn test_get_shards_for_node() {
    let mut ring = ConsistentHash::new();
    ring.add_node("worker-1");
    ring.add_node("worker-2");

    let total_shards = 100;
    let shards_for_w1 = ring.get_shards_for_node("worker-1", "dataset-1", total_shards);
    let shards_for_w2 = ring.get_shards_for_node("worker-2", "dataset-1", total_shards);

    assert_eq!(
        shards_for_w1.len() + shards_for_w2.len(),
        total_shards as usize
    );

    for shard in &shards_for_w1 {
        assert!(!shards_for_w2.contains(shard));
    }
}

#[test]
fn test_empty_ring() {
    let ring = ConsistentHash::new();
    assert_eq!(ring.get_node("any-key"), None);
    assert_eq!(ring.node_count(), 0);
}

#[test]
fn test_duplicate_node_add() {
    let mut ring = ConsistentHash::new();
    ring.add_node("worker-1");
    ring.add_node("worker-1");

    assert_eq!(ring.node_count(), 1);
}

#[test]
fn removing_a_node_removes_it_from_lookups() {
    let mut ring = ConsistentHash::with_virtual_nodes(10);
    ring.add_node("a");
    ring.add_node("b");
    ring.remove_node("a");
    assert_eq!(ring.nodes(), vec!["b".to_string()]);
    assert!(!ring.contains_node("a"));
    for i in 0..50 {
        assert_eq!(ring.get_node(&format!("k{}", i)).unwrap(), "b");
    }
    ring.clear();
    assert_eq!(ring.get_node("k"), None);
}

#[test]
fn single_node_owns_every_shard() {
    let mut ring = ConsistentHash::new();
    ring.add_node("only");
    assert_eq!(ring.get_shards_for_node("only", "d", 7), vec![0, 1, 2, 3, 4, 5, 6]);
    assert_eq!(ring.get_shards_for_node("other", "d", 7), Vec::<u64>::new());
}

#[test]
fn lookup_matches_fnv_ring_positions() {
    let mut ring = ConsistentHash::with_virtual_nodes(1);
    ring.add_node("n1");
    ring.add_node("n2");
    let h = |s: &str| {
        let mut x: u64 = 0xcbf29ce484222325;
        for b in s.bytes().chain(std::iter::once(0xffu8)) {
            x ^= b as u64;
            x = x.wrapping_mul(0x100000001b3);
        }
        x
    };
    let p1 = h("n1:0");
    let p2 = h("n2:0");
    let key = "some-key";
    let k = h(key);
    let (lo, lo_node, hi, hi_node) = if p1 < p2 { (p1, "n1", p2, "n2") } else { (p2, "n2", p1, "n1") };
    let expected = if k <= lo { lo_node } else if k <= hi { hi_node } else { lo_node };
    let _ = (lo, hi);
    assert_eq!(ring.get_node(key).unwrap(), expected);
}

#[test]
fn consistent_hash_test_state_serialization() {
    let mut ring = ConsistentHash::new();
    ring.add_node("worker-1");
    ring.add_node("worker-2");
    let state = ring.state();
    assert_eq!(state.nodes, vec!["worker-1".to_string(), "worker-2".to_string()]);
    assert_eq!(state.virtual_nodes, 150);
    let restored = ConsistentHash::from_state(&state);
    assert_eq!(ring.node_count(), restored.node_count());
    let key = "dataset-1:shard-42";
    assert_eq!(ring.get_node(key), restored.get_node(key));
}

#[test]
fn owner_of_positions_wraps_around() {
    let mut ring = ConsistentHash::with_virtual_nodes(1);
    assert_eq!(ring.owner_of(5), None);
    ring.add_node("only");
    assert_eq!(ring.owner_of(0), Some("only".to_string()));
    assert_eq!(ring.owner_of(u64::MAX), Some("only".to_string()));
}
