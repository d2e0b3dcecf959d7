use train_coord::config::{CoordinatorConfig, NetworkConfig, RuntimeConfig, ServerConfig};

#[test]
fn config_test_default_config() {
    let config = RuntimeConfig::default();
    assert_eq!(config.coordinator.port, 50051);
    assert_eq!(config.checkpoint.keep_count, 5);
}

#[test]
fn server_test_default_config() {
    let config = ServerConfig::default();
    assert_eq!(config.addr, "0.0.0.0:50051");
    assert!(config.tcp_keepalive_ms.is_some());
    assert!(config.enable_reflection);
}

#[test]
fn coordinator_and_network_defaults() {
    let c = CoordinatorConfig::default();
    assert_eq!(c.max_workers, 10000);
    assert_eq!(c.heartbeat_timeout_ms, 30_000);
    assert_eq!(c.dead_worker_check_interval_ms, 5_000);
    let n = NetworkConfig::default();
    assert_eq!(n.max_message_size, 256 * 1024 * 1024);
    assert!(!n.tls_enabled);
}
