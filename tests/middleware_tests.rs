use train_coord::middleware::{InputValidator, RateLimiter, RequestMetrics};

#[test]
fn test_rate_limiter_allows_burst() {
    let mut limiter = RateLimiter::new_at(10, 5, 0);

    for _ in 0..5 {
        assert!(limiter.check_at("client-1", 0).is_ok());
    }

    assert!(limiter.check_at("client-1", 0).is_err());
}

#[test]
fn test_rate_limiter_different_clients() {
    let mut limiter = RateLimiter::new_at(10, 2, 0);

    assert!(limiter.check_at("client-1", 0).is_ok());
    assert!(limiter.check_at("client-1", 0).is_ok());
    assert!(limiter.check_at("client-1", 0).is_err());

    assert!(limiter.check_at("client-2", 0).is_ok());
}

#[test]
fn rate_limiter_refills_with_time() {
    let mut limiter = RateLimiter::new_at(10, 2, 0);
    assert!(limiter.check_at("c", 0).is_ok());
    assert!(limiter.check_at("c", 0).is_ok());
    assert_eq!(limiter.check_at("c", 50), Err(100));
    assert!(limiter.check_at("c", 100).is_ok());
    assert!(limiter.check_at("c", 100).is_err());
    assert!(limiter.check_at("c", 10_000).is_ok());
    assert!(limiter.check_at("c", 10_000).is_ok());
    assert!(limiter.check_at("c", 10_000).is_err());
}

#[test]
fn idle_buckets_are_swept() {
    let mut limiter = RateLimiter::new_at(0, 1, 0);
    assert!(limiter.check_at("c", 0).is_ok());
    assert_eq!(limiter.check_at("c", 1), Err(u64::MAX));
    assert!(limiter.check_at("c", 400_000).is_ok());
}

#[test]
fn rate_limiter_with_clock() {
    let mut limiter = RateLimiter::new(10, 1);
    assert!(limiter.check("x").is_ok());
}

#[test]
fn test_input_validator_worker_id() {
    let validator = InputValidator::new();

    assert!(validator.validate_worker_id("worker-1").is_ok());
    assert!(validator.validate_worker_id("gpu_node_0").is_ok());
    assert!(validator.validate_worker_id("node.cluster.local").is_ok());

    assert!(validator.validate_worker_id("").is_err());
    assert!(validator.validate_worker_id("worker/1").is_err());
    assert!(validator.validate_worker_id("worker<script>").is_err());
}

#[test]
fn test_input_validator_path() {
    let validator = InputValidator::new();

    assert!(validator.validate_path("/data/training").is_ok());
    assert!(validator.validate_path("s3://bucket/key").is_ok());

    assert!(validator.validate_path("/data/../etc/passwd").is_err());
    assert!(validator.validate_path("/data/file\0.txt").is_err());
}

#[test]
fn validator_limits() {
    let v = InputValidator::default();
    assert!(v.validate_worker_id(&"a".repeat(128)).is_ok());
    assert!(v.validate_worker_id(&"a".repeat(129)).is_err());
    assert!(v.validate_dataset_id(&"a".repeat(256)).is_ok());
    assert!(v.validate_dataset_id(&"a".repeat(257)).is_err());
    assert!(v.validate_path(&"a".repeat(4097)).is_err());
    assert!(v.validate_port(0).is_err());
    assert!(v.validate_port(1).is_ok());
    assert!(v.validate_port(65535).is_ok());
    assert!(v.validate_port(65536).is_err());
    assert!(v.validate_positive(-1, "step").is_err());
    assert_eq!(v.validate_positive(-1, "step").unwrap_err().message, "step must be non-negative");
    assert!(v.validate_positive(0, "step").is_ok());
    let meta: Vec<(String, String)> = (0..64).map(|i| (format!("k{}", i), "v".to_string())).collect();
    assert!(v.validate_metadata(&meta).is_ok());
    let mut more = meta.clone();
    more.push(("x".to_string(), "y".to_string()));
    assert!(v.validate_metadata(&more).is_err());
    assert!(v.validate_metadata(&vec![("k".repeat(129), "v".to_string())]).is_err());
    assert!(v.validate_metadata(&vec![("k".to_string(), "v".repeat(1025))]).is_err());
    assert!(v.check_id("abc", 10, false).is_err());
    assert!(v.check_id("abc", 10, true).is_ok());
}

#[test]
fn test_request_metrics() {
    let mut metrics = RequestMetrics::new();

    metrics.record_request("register_worker");
    metrics.record_request("register_worker");
    metrics.record_error("register_worker");
    metrics.record_latency("register_worker", 1000);
    metrics.record_latency("register_worker", 2000);

    assert_eq!(metrics.get_request_count("register_worker"), 2);
    assert_eq!(metrics.get_error_count("register_worker"), 1);
    assert!(metrics.get_p99_latency("register_worker").is_some());
}

#[test]
fn p99_picks_the_ninety_ninth_percentile() {
    let mut m = RequestMetrics::default();
    assert_eq!(m.get_p99_latency("x"), None);
    for v in (1..=200u64).rev() {
        m.record_latency("x", v);
    }
    assert_eq!(m.get_p99_latency("x"), Some(199));
    m.record_latency("y", 5);
    assert_eq!(m.get_p99_latency("y"), Some(5));
    for v in 0..1500u64 {
        m.record_latency("z", v);
    }
    assert_eq!(m.get_p99_latency("z"), Some(1490));
    m.record_request("a");
    m.record_request("b");
    m.record_error("b");
    let s = m.summary();
    assert_eq!(s, vec![("a".to_string(), 1, 0, None), ("b".to_string(), 1, 1, None)]);
    assert_eq!(m.get_request_count("none"), 0);
}
