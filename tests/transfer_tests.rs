use std::io::Write;

use pkg_engine::error::EngineError;
use pkg_engine::transfer::{TransferAction, TransferEvent, TransferPhase, TransferSession};

fn session() -> TransferSession {
    TransferSession::new("tamods-stdlib".to_string(), "abc".to_string())
}

fn is_cancel_abort(a: &TransferAction) -> bool {
    matches!(a, TransferAction::Abort(EngineError::Cancelled))
}

#[test]
fn cancel_before_any_chunk() {
    let mut s = session();
    let a = s.step(TransferEvent::CancelRequested);
    assert!(is_cancel_abort(&a));
    assert!(s.phase == TransferPhase::Cancelled);
    assert!(s.is_finished());
    assert_eq!(s.transferred, 0);
}

#[test]
fn cancel_after_some_chunks() {
    let mut s = session();
    let mut actions = Vec::new();
    for len in [10u64, 20, 30] {
        actions.push(s.step(TransferEvent::ChunkReceived(len)));
    }
    actions.push(s.step(TransferEvent::CancelRequested));
    assert!(s.phase == TransferPhase::Cancelled);
    assert!(is_cancel_abort(actions.last().unwrap()));
    assert!(!actions.iter().any(|a| matches!(a, TransferAction::Extract | TransferAction::Complete { .. })));
    // Nothing the stream sends afterwards is acted on.
    assert!(matches!(s.step(TransferEvent::StreamEnded), TransferAction::Ignore));
    assert!(matches!(s.step(TransferEvent::Flushed), TransferAction::Ignore));
    assert!(s.phase == TransferPhase::Cancelled);
}

#[test]
fn progress_reports_cumulative_bytes() {
    let mut s = session();
    let mut seen = Vec::new();
    for len in [5u64, 0, 7] {
        match s.step(TransferEvent::ChunkReceived(len)) {
            TransferAction::AppendAndReport { package_id, transferred } => {
                assert_eq!(package_id, "tamods-stdlib");
                seen.push(transferred);
            }
            _ => panic!("expected an append"),
        }
    }
    assert_eq!(seen, vec![5, 5, 12]);
    assert_eq!(s.transferred, 12);
}

#[test]
fn full_transfer_completes_with_hash() {
    let mut s = session();
    s.step(TransferEvent::ChunkReceived(3));
    assert!(matches!(s.step(TransferEvent::StreamEnded), TransferAction::Flush));
    assert!(s.phase == TransferPhase::Flushing);
    assert!(matches!(s.step(TransferEvent::CancelRequested), TransferAction::Ignore));
    assert!(matches!(s.step(TransferEvent::Flushed), TransferAction::Extract));
    assert!(s.phase == TransferPhase::Extracting);
    match s.step(TransferEvent::ExtractionFinished) {
        TransferAction::Complete { package_id, hash } => {
            assert_eq!(package_id, "tamods-stdlib");
            assert_eq!(hash, "abc");
        }
        _ => panic!("expected completion"),
    }
    assert!(s.phase == TransferPhase::Completed);
}

#[test]
fn failures_map_to_error_kinds() {
    let mut s = session();
    match s.step(TransferEvent::ChunkFailed("reset".to_string())) {
        TransferAction::Abort(EngineError::Transport(m)) => assert_eq!(m, "reset"),
        _ => panic!("expected a transport abort"),
    }
    assert!(s.phase == TransferPhase::Failed);

    let mut s = session();
    assert!(matches!(s.step(TransferEvent::WriteFailed("disk".to_string())), TransferAction::Abort(EngineError::Filesystem(_))));

    let mut s = session();
    s.step(TransferEvent::StreamEnded);
    s.step(TransferEvent::Flushed);
    match s.step(TransferEvent::ExtractionFailed("bad zip".to_string())) {
        TransferAction::Abort(EngineError::Filesystem(m)) => assert_eq!(m, "bad zip"),
        _ => panic!("expected a filesystem abort"),
    }
    assert!(s.phase == TransferPhase::Failed);
}

#[test]
fn archive_file_name_appends_zip() {
    assert_eq!(session().archive_file_name(), "tamods-stdlib.zip");
}

#[test]
fn cancel_leaves_no_temp_file() {
    let temp = tempfile::TempDir::new().unwrap();
    let mut s = session();
    let (mut file, path) = tempfile::Builder::new()
        .suffix(".zip")
        .tempfile_in(temp.path())
        .unwrap()
        .keep()
        .unwrap();
    for chunk in [&b"PK\x03\x04"[..], &b"more"[..]] {
        match s.step(TransferEvent::ChunkReceived(chunk.len() as u64)) {
            TransferAction::AppendAndReport { .. } => file.write_all(chunk).unwrap(),
            _ => panic!("expected an append"),
        }
    }
    let dir = temp.path().to_path_buf();
    match s.step(TransferEvent::CancelRequested) {
        TransferAction::Abort(EngineError::Cancelled) => drop(temp),
        _ => panic!("expected a cancellation"),
    }
    assert!(!path.exists());
    assert!(!dir.exists());
}
