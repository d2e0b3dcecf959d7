use train_coord::storage::{retry_step, s3_key, LocalStorage, RetryStep, S3Config, S3Storage};

fn make_s3_key(prefix: &str, path: &str) -> String {
    s3_key(prefix, path)
}

#[test]
fn test_s3_key_with_prefix() {
    let prefix = "training/";
    assert_eq!(make_s3_key(prefix, "model.bin"), "training/model.bin");
    assert_eq!(
        make_s3_key(prefix, "checkpoints/epoch-1.bin"),
        "training/checkpoints/epoch-1.bin"
    );
}

#[test]
fn test_s3_key_without_prefix() {
    let prefix = "";
    assert_eq!(make_s3_key(prefix, "model.bin"), "model.bin");
}

#[test]
fn test_s3_key_trailing_slash_normalization() {
    let prefix = "data/";
    assert_eq!(make_s3_key(prefix, "file.bin"), "data/file.bin");

    let prefix_no_slash = "data";
    assert_eq!(make_s3_key(prefix_no_slash, "file.bin"), "data/file.bin");
}

#[test]
fn s3_key_drops_every_trailing_slash() {
    assert_eq!(make_s3_key("data///", "f"), "data/f");
}

#[test]
fn test_s3_config_default() {
    let config = S3Config::default();
    assert!(config.bucket.is_empty());
    assert!(config.prefix.is_none());
    assert!(config.endpoint_url.is_none());
    assert_eq!(config.region, Some("us-east-1".to_string()));
    assert!(!config.force_path_style);
}

#[test]
fn test_s3_config_builder() {
    let config = S3Config {
        bucket: "my-bucket".to_string(),
        prefix: Some("checkpoints/".to_string()),
        endpoint_url: Some("http://localhost:9000".to_string()),
        region: Some("us-west-2".to_string()),
        force_path_style: true,
    };

    assert_eq!(config.bucket, "my-bucket");
    assert_eq!(config.prefix, Some("checkpoints/".to_string()));
    assert_eq!(config.endpoint_url, Some("http://localhost:9000".to_string()));
    assert_eq!(config.region, Some("us-west-2".to_string()));
    assert!(config.force_path_style);
}

#[test]
fn s3_storage_keys_use_config_prefix() {
    let config = S3Config {
        bucket: "b".to_string(),
        prefix: Some("checkpoints/".to_string()),
        ..S3Config::default()
    };
    let s = S3Storage::from_config(&config);
    assert_eq!(s.bucket(), "b");
    assert_eq!(s.key_for("epoch-1.bin"), "checkpoints/epoch-1.bin");
}

#[test]
fn local_storage_resolves_relative_paths() {
    let s = LocalStorage::new("/data/store");
    assert_eq!(s.base_path(), "/data/store");
    assert_eq!(s.resolve_path("a/b.txt"), "/data/store/a/b.txt");
    assert_eq!(s.resolve_path("/abs/x"), "/abs/x");
    let t = LocalStorage::new("/data/");
    assert_eq!(t.resolve_path("x"), "/data/x");
}

#[test]
fn retry_backoff_doubles_then_stops() {
    assert_eq!(retry_step(0, true), RetryStep::Wait { delay_ms: 100, next_attempt: 1 });
    assert_eq!(retry_step(1, true), RetryStep::Wait { delay_ms: 200, next_attempt: 2 });
    assert_eq!(retry_step(2, true), RetryStep::Stop);
    assert_eq!(retry_step(0, false), RetryStep::Stop);
}

#[test]
fn minio_config_uses_path_style() {
    let c = S3Config::minio("http://localhost:9000", "bkt");
    assert_eq!(c.bucket, "bkt");
    assert_eq!(c.endpoint_url.as_deref(), Some("http://localhost:9000"));
    assert!(c.force_path_style);
}
