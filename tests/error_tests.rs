use train_coord::error::Error;

#[test]
fn test_error_retryable() {
    let err = Error::CoordinatorUnavailable {
        address: "localhost:50051".to_string(),
    };
    assert!(err.is_retryable());

    let err = Error::CheckpointCorrupted {
        checkpoint_id: "ckpt-1".to_string(),
        reason: "checksum mismatch".to_string(),
    };
    assert!(!err.is_retryable());
}

#[test]
fn test_error_fatal() {
    let err = Error::InvalidConfig {
        message: "missing required field".to_string(),
    };
    assert!(err.is_fatal());

    let err = Error::Timeout {
        operation: "write".to_string(),
        timeout_ms: 5000,
    };
    assert!(!err.is_fatal());
}

#[test]
fn retry_hints_follow_error_kind() {
    assert_eq!(Error::Storage { message: "x".to_string() }.retry_delay_hint_ms(), Some(100));
    assert_eq!(Error::StorageUnavailable { backend: "s3".to_string() }.retry_delay_hint_ms(), Some(5000));
    assert_eq!(Error::CoordinatorUnavailable { address: "a".to_string() }.retry_delay_hint_ms(), Some(2000));
    assert_eq!(Error::BarrierTimeout { barrier_id: "b".to_string(), timeout_ms: 1 }.retry_delay_hint_ms(), Some(500));
    assert_eq!(Error::Grpc("g".to_string()).retry_delay_hint_ms(), Some(100));
    assert_eq!(Error::NoCheckpointForRecovery.retry_delay_hint_ms(), None);
    assert_eq!(Error::WorkerNotFound { worker_id: "w".to_string() }.retry_delay_hint_ms(), None);
}
