use train_coord::checkpoint::{CheckpointManager, CheckpointManagerConfig, WriteStatus, WriterEvent, write_queue_capacity};
use train_coord::checkpoint_format::{create_header, encode_checkpoint, read_checkpoint_data, CheckpointHeader, WriteRequest, CHECKPOINT_MAGIC};
use train_coord::error::Error;
use train_coord::types::CheckpointType;

fn request(data: Vec<u8>, step: u64) -> WriteRequest {
    WriteRequest {
        checkpoint_id: "test-1".to_string(),
        data,
        path: "test.ckpt".to_string(),
        step,
        epoch: 1,
        checkpoint_type: CheckpointType::Full,
        metadata: vec![],
    }
}

fn manager(keep: usize) -> CheckpointManager {
    CheckpointManager::new(CheckpointManagerConfig {
        base_path: "/ckpt".to_string(),
        keep_count: keep,
        ..CheckpointManagerConfig::default()
    })
}

#[test]
fn test_write_checkpoint() {
    let req = request(vec![1u8; 1000], 100);
    let bytes = encode_checkpoint(&req, false).unwrap();
    assert!(bytes.len() > 1000);
    assert_eq!(&bytes[0..4], b"CKPT");
}

#[test]
fn header_layout_is_bit_exact() {
    let mut req = request(vec![9u8; 3], 0x0102030405060708);
    req.epoch = 7;
    req.checkpoint_type = CheckpointType::OptimizerOnly;
    req.metadata = vec![("b".to_string(), "2".to_string()), ("a".to_string(), "1".to_string())];
    let h = create_header(&req, true).unwrap();
    let json = br#"{"a":"1","b":"2"}"#;
    let mut expected = b"CKPT".to_vec();
    expected.extend_from_slice(&1u32.to_le_bytes());
    expected.extend_from_slice(&0x0102030405060708u64.to_le_bytes());
    expected.extend_from_slice(&7u64.to_le_bytes());
    expected.push(2);
    expected.push(1);
    expected.extend_from_slice(&3u64.to_le_bytes());
    expected.extend_from_slice(&(json.len() as u32).to_le_bytes());
    expected.extend_from_slice(json);
    assert_eq!(h, expected);
    assert_eq!(CHECKPOINT_MAGIC, *b"CKPT");
}

#[test]
fn write_then_read_recovers_payload() {
    let payload: Vec<u8> = (0..=255u8).cycle().take(5000).collect();
    let mut req = request(payload.clone(), 42);
    req.metadata = vec![("k".to_string(), "v".to_string())];
    let file = encode_checkpoint(&req, false).unwrap();
    assert_eq!(read_checkpoint_data(&file).unwrap(), payload);
    let empty = encode_checkpoint(&request(vec![], 1), false).unwrap();
    assert_eq!(read_checkpoint_data(&empty).unwrap(), Vec::<u8>::new());
}

#[test]
fn reading_rejects_bad_magic_and_truncation() {
    let file = encode_checkpoint(&request(vec![5u8; 10], 1), false).unwrap();
    let mut bad = file.clone();
    bad[0] = b'X';
    assert!(matches!(read_checkpoint_data(&bad), Err(Error::Storage { .. })));
    assert!(matches!(read_checkpoint_data(&file[..file.len() - 1]), Err(Error::Io { .. })));
    assert!(matches!(read_checkpoint_data(&file[..2]), Err(Error::Io { .. })));
    assert!(matches!(read_checkpoint_data(&file[..20]), Err(Error::Io { .. })));
}

#[test]
fn header_struct_serializes_in_order() {
    let h = CheckpointHeader {
        magic: *b"CKPT",
        version: 1,
        step: 1,
        epoch: 2,
        checkpoint_type: 0,
        compressed: false,
        data_size: 4,
        metadata_json: "{}".to_string(),
    };
    let b = h.to_bytes().unwrap();
    assert_eq!(b.len(), 38 + 2);
    assert_eq!(&b[34..38], &2u32.to_le_bytes());
    assert_eq!(&b[38..], b"{}");
}

#[test]
fn test_checkpoint_manager_creation() {
    let m = CheckpointManager::new(CheckpointManagerConfig::default());
    assert!(m.latest().is_none());
}

#[test]
fn retention_keeps_five_newest() {
    let mut m = manager(5);
    let mut deleted = vec![];
    for step in 1..=7u64 {
        let path = format!("/ckpt/{}", step);
        deleted.extend(m.register_external_checkpoint_at(&format!("c{}", step), step, 0, &path, 10, vec![], 0));
    }
    let all = m.all_checkpoints();
    assert_eq!(all.iter().map(|c| c.step).collect::<Vec<_>>(), vec![3, 4, 5, 6, 7]);
    assert_eq!(deleted, vec!["/ckpt/1".to_string(), "/ckpt/2".to_string()]);
}

#[test]
fn register_external_then_latest_is_it() {
    let mut m = manager(5);
    m.register_external_checkpoint_at("ckpt-100", 100, 0, "/ckpt/100", 1024, vec![], 0);
    let latest = m.latest().unwrap();
    assert_eq!(latest.id, "ckpt-100");
    assert_eq!(latest.path, "/ckpt/100");
    assert_eq!(m.find_recovery_checkpoint().unwrap().step, 100);
    m.register_external_checkpoint_at("again", 100, 1, "/ckpt/x", 1, vec![], 0);
    assert_eq!(m.all_checkpoints().len(), 1);
    assert_eq!(m.get_by_step(100).unwrap().id, "again");
    assert!(m.get_by_step(5).is_none());
}

#[test]
fn local_saves_complete_through_events() {
    let mut m = manager(5);
    let req = m.save_async_with("u-1", vec![1, 2, 3], 10, 2, CheckpointType::Full, vec![]);
    assert_eq!(req.checkpoint_id, "ckpt-10-u-1");
    assert_eq!(req.path, "/ckpt/ckpt-10-u-1.ckpt");
    assert_eq!(m.wait_pending_status().map(|r| r.is_ok()), None);
    let gone = m.handle_event_at(WriterEvent::Completed { checkpoint_id: req.checkpoint_id.clone(), size_bytes: 41 }, 5);
    assert!(gone.is_empty());
    let latest = m.latest().unwrap();
    assert_eq!(latest.step, 10);
    assert_eq!(latest.epoch, 2);
    assert_eq!(latest.size_bytes, 41);
    assert_eq!(m.pending_writes()[0].status, WriteStatus::Completed);
    assert!(matches!(m.wait_pending_status(), Some(Ok(()))));
    assert_eq!(m.load_path("ckpt-10-u-1").unwrap(), "/ckpt/ckpt-10-u-1.ckpt");
    assert!(matches!(m.load_path("nope"), Err(Error::CheckpointNotFound { .. })));
}

#[test]
fn failed_writes_are_reported() {
    let mut m = manager(5);
    let a = m.save_async_with("a", vec![], 1, 0, CheckpointType::Full, vec![]);
    let b = m.save_async_with("b", vec![], 2, 0, CheckpointType::Full, vec![]);
    m.handle_event_at(WriterEvent::Failed { checkpoint_id: a.checkpoint_id.clone(), error: "disk full".to_string() }, 1);
    assert!(m.wait_pending_status().is_none());
    m.mark_failed(&b.checkpoint_id, "io".to_string());
    match m.wait_pending_status() {
        Some(Err(Error::CheckpointWriteFailed { message })) => {
            assert_eq!(message, "ckpt-1-a: disk full, ckpt-2-b: io");
        }
        _ => panic!("expected a failure"),
    }
    assert!(m.latest().is_none());
}

#[test]
fn random_ids_have_the_step_prefix() {
    let mut m = manager(5);
    let r = m.save_async(vec![1], 77, 0, CheckpointType::ModelOnly, vec![]);
    assert!(r.checkpoint_id.starts_with("ckpt-77-"));
    assert_eq!(r.checkpoint_id.len(), "ckpt-77-".len() + 36);
}

#[test]
fn queue_capacity_is_at_least_sixteen() {
    assert_eq!(write_queue_capacity(64 * 1024 * 1024), 64);
    assert_eq!(write_queue_capacity(1024), 16);
}
