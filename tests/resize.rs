use rkv::resize::{grown_map_size, RedoLog, Step, WriteOp, WriteOutcome};
use rkv::{StoreError, WriteFlags};

fn put(db: u32, key: &[u8]) -> WriteOp {
    WriteOp::Put { db, key: key.to_vec(), value: vec![1, 2], flags: WriteFlags::empty() }
}

fn describe(op: &WriteOp) -> (u32, Vec<u8>) {
    match op {
        WriteOp::Put { db, key, .. } => (*db, key.clone()),
        WriteOp::Delete { db, key, .. } => (*db, key.clone()),
        WriteOp::Clear { db } => (*db, Vec::new()),
    }
}

#[test]
fn map_size_growth() {
    assert_eq!(grown_map_size(1024), Ok(2048));
    assert_eq!(grown_map_size(1 << 30), Ok(1 << 31));
    assert_eq!(grown_map_size((1 << 30) + 1), Ok((1 << 31) + 1));
    assert_eq!(grown_map_size(usize::MAX), Err(StoreError::ResizeError));
}

#[test]
fn full_map_redoes_writes_in_order() {
    let mut log = RedoLog::new();
    assert!(matches!(log.after_write(put(1, b"a"), WriteOutcome::Stored, 1024), Step::Continue));
    assert!(matches!(log.after_write(WriteOp::Clear { db: 2 }, WriteOutcome::Stored, 1024), Step::Continue));
    let delete = WriteOp::Delete { db: 1, key: b"a".to_vec(), value: None };
    assert!(matches!(log.after_write(delete, WriteOutcome::Stored, 1024), Step::Continue));
    match log.after_write(put(1, b"b"), WriteOutcome::MapFull, 1024) {
        Step::Resize { map_size, redo } => {
            assert_eq!(map_size, 2048);
            let seen: Vec<(u32, Vec<u8>)> = redo.iter().map(describe).collect();
            assert_eq!(seen, vec![(1, b"a".to_vec()), (2, Vec::new()), (1, b"a".to_vec()), (1, b"b".to_vec())]);
            assert!(matches!(redo[2], WriteOp::Delete { value: None, .. }));
        },
        _ => panic!("expected a resize"),
    }
    assert_eq!(log.replay_plan().len(), 4);
}

#[test]
fn failures_stop_the_writer() {
    let mut log = RedoLog::new();
    match log.after_write(put(1, b"a"), WriteOutcome::MapFull, usize::MAX) {
        Step::Stop(e) => assert_eq!(e, StoreError::ResizeError),
        _ => panic!("expected a resize error"),
    }
    match log.after_write(put(1, b"a"), WriteOutcome::Failed(StoreError::DbsFull), 1024) {
        Step::Stop(e) => assert_eq!(e, StoreError::DbsFull),
        _ => panic!("expected the error"),
    }
    assert!(log.replay_plan().is_empty());
}
