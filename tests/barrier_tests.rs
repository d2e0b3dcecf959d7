use train_coord::barrier::{BarrierArrival, BarrierRegistry, BarrierState};

#[test]
fn test_barrier_state() {
    let mut barrier = BarrierState::new("barrier-1".to_string(), 100, 3, 0);

    assert!(!barrier.arrive("worker-1".to_string(), 1));
    assert!(!barrier.arrive("worker-2".to_string(), 2));
    assert!(barrier.arrive("worker-3".to_string(), 3));
    assert!(barrier.released);
    assert_eq!(barrier.arrival_order("worker-1"), Some(1));
    assert_eq!(barrier.arrival_order("worker-2"), Some(2));
    assert_eq!(barrier.arrival_order("worker-3"), Some(3));
}

#[test]
fn repeated_arrival_counts_once() {
    let mut b = BarrierState::new("b".to_string(), 1, 2, 0);
    assert!(!b.arrive("w".to_string(), 1));
    assert!(!b.arrive("w".to_string(), 2));
    assert_eq!(b.arrived_workers.len(), 1);
    assert!(b.arrive("v".to_string(), 3));
    assert_eq!(b.released_at_ms, Some(3));
    assert!(!b.arrive("x".to_string(), 4));
    assert_eq!(b.arrival_order("nobody"), None);
}

#[test]
fn eight_arrivals_release_once_with_all_orders() {
    let mut reg = BarrierRegistry::new();
    let mut orders = vec![];
    let mut released = 0;
    for _ in 0..8 {
        match reg.arrive("epoch-sync", &format!("w{}", orders.len()), 8) {
            BarrierArrival::Waiting { arrival_order } => orders.push(arrival_order),
            BarrierArrival::Released { participants, arrival_order } => {
                assert_eq!(participants, 8);
                released += 1;
                orders.push(arrival_order);
            }
        }
    }
    assert_eq!(released, 1);
    assert_eq!(orders, (1..=8).collect::<Vec<u64>>());
    assert_eq!(reg.live_count(), 0);
}

#[test]
fn single_participant_releases_immediately() {
    let mut reg = BarrierRegistry::new();
    assert_eq!(reg.arrive("b", "w", 1), BarrierArrival::Released { participants: 1, arrival_order: 1 });
    assert_eq!(reg.arrive("b", "w", 0), BarrierArrival::Released { participants: 1, arrival_order: 1 });
}

#[test]
fn expected_count_is_fixed_at_first_arrival() {
    let mut reg = BarrierRegistry::new();
    assert_eq!(reg.arrive("b", "w", 3), BarrierArrival::Waiting { arrival_order: 1 });
    assert_eq!(reg.arrive("b", "w", 10), BarrierArrival::Waiting { arrival_order: 2 });
    assert_eq!(reg.arrive("c", "w", 2), BarrierArrival::Waiting { arrival_order: 1 });
    assert_eq!(reg.arrive("b", "w", 10), BarrierArrival::Released { participants: 3, arrival_order: 3 });
    assert_eq!(reg.live_count(), 1);
}

#[test]
fn registry_keeps_the_arrival_list() {
    let mut reg = BarrierRegistry::new();
    reg.arrive("b", "w1", 3);
    reg.arrive("b", "w2", 3);
    assert_eq!(reg.arrived_workers("b"), vec!["w1".to_string(), "w2".to_string()]);
    reg.arrive("b", "w3", 3);
    assert!(reg.arrived_workers("b").is_empty());
}
