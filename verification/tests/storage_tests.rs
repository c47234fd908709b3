use dragonfly_client::digest::digest_of;
use dragonfly_client::error::{Error, ErrorKind};
use dragonfly_client::storage::metadata::{PieceState, TaskState, TrafficType};
use dragonfly_client::storage::{
    Config, Storage, WaitStep, DEFAULT_WAIT_FOR_PIECE_FINISHED_INTERVAL,
};

fn storage() -> Storage {
    Storage::new(Config { piece_timeout: 1200 }).unwrap()
}

fn message(e: &Error) -> String {
    match e {
        Error::TaskNotFound(t)
        | Error::PieceNotFound(t)
        | Error::WaitForPieceFinishedTimeout(t)
        | Error::InvariantViolation(t)
        | Error::Unknown(t) => t.clone(),
        _ => String::new(),
    }
}

/// A task of 10 bytes in pieces of 4, with every piece committed from the origin.
fn seeded() -> Storage {
    let mut s = storage();
    s.download_task_started("t1", 4).unwrap();
    s.set_task_content_length("t1", 10).unwrap();
    for (n, data) in [(0u32, &b"AAAA"[..]), (1, &b"BBBB"[..]), (2, &b"CC"[..])] {
        s.download_piece_started("t1", n).unwrap();
        s.download_piece_from_source_finished("t1", n, n as u64 * 4, data.len() as u64, data)
            .unwrap();
    }
    s
}

#[test]
fn new_storage_is_empty() {
    let s = storage();
    assert!(s.get_tasks().unwrap().is_empty());
    assert_eq!(s.time(), 0);
    assert_eq!(s.piece_timeout(), 1200);
    assert_eq!(DEFAULT_WAIT_FOR_PIECE_FINISHED_INTERVAL, 500);
}

#[test]
fn records_carry_the_time_on_the_clock() {
    let mut s = storage();
    s.set_time(77);
    s.download_task_started("t1", 4).unwrap();
    s.set_time(80);
    s.download_piece_started("t1", 0).unwrap();
    s.set_time(95);
    s.download_piece_from_source_finished("t1", 0, 0, 4, b"AAAA").unwrap();
    let t = s.get_task("t1").unwrap().unwrap();
    assert_eq!((t.created_at, t.updated_at), (77, 77));
    let p = s.get_piece("t1", 0).unwrap().unwrap();
    assert_eq!((p.created_at, p.updated_at, p.finished_at), (80, 95, Some(95)));
    assert_eq!(p.cost(), 15);
}

#[test]
fn task_operations_go_to_the_records() {
    let mut s = seeded();
    assert_eq!(s.get_task("t1").unwrap().unwrap().state, TaskState::InProgress);
    s.upload_task_finished("t1").unwrap();
    s.download_task_failed("t1").unwrap();
    assert_eq!(s.get_task("t1").unwrap().unwrap().state, TaskState::Failed);
    s.download_task_finished("t1").unwrap();
    assert_eq!(s.get_task("t1").unwrap().unwrap().state, TaskState::Finished);
    assert_eq!(s.get_tasks().unwrap().len(), 1);
    assert_eq!(s.get_pieces("t1").unwrap().len(), 3);
    assert_eq!(s.piece_id("t1", 2), "t1-2");
    assert_eq!(
        s.download_task_started("t1", 5).unwrap_err().kind(),
        ErrorKind::InvariantViolation
    );
    assert_eq!(
        s.set_task_content_length("t1", 11).unwrap_err().kind(),
        ErrorKind::InvariantViolation
    );
    assert_eq!(s.download_task_finished("zz").unwrap_err().kind(), ErrorKind::TaskNotFound);
    assert_eq!(s.download_task_failed("zz").unwrap_err().kind(), ErrorKind::TaskNotFound);
    assert_eq!(s.upload_task_finished("zz").unwrap_err().kind(), ErrorKind::TaskNotFound);
}

#[test]
fn a_committed_piece_hashes_to_its_digest() {
    let mut s = seeded();
    for p in s.get_pieces("t1").unwrap() {
        let bytes = s.upload_piece("t1", p.number).unwrap();
        assert_eq!(bytes.len() as u64, p.length);
        assert_eq!(digest_of(&bytes), p.digest);
    }
    assert_eq!(
        s.get_piece("t1", 0).unwrap().unwrap().digest,
        "sha256:63c1dd951ffedf6f7fd968ad4efa39b8ed584f162f46e715114ee184f8de9201"
    );
}

#[test]
fn source_piece_is_committed_without_parent() {
    let s = seeded();
    let p = s.get_piece("t1", 2).unwrap().unwrap();
    assert_eq!((p.offset, p.length), (8, 2));
    assert_eq!(p.parent_id, None);
    assert_eq!(p.state, PieceState::Finished);
    assert_eq!(p.traffic_type(), TrafficType::BackToSource);
    assert_eq!(
        p.digest,
        "sha256:a56362a10c816abf206d72cb914e2d5ca454eb9c7e744f88b1a1422c379e9942"
    );
}

#[test]
fn source_finished_returns_the_length() {
    let mut s = storage();
    s.download_task_started("t1", 4).unwrap();
    s.download_piece_started("t1", 0).unwrap();
    assert_eq!(
        s.download_piece_from_source_finished("t1", 0, 0, 4, b"AAAA").unwrap(),
        4
    );
}

#[test]
fn source_finished_refuses_bytes_of_another_length() {
    let mut s = storage();
    s.download_task_started("t1", 4).unwrap();
    s.download_piece_started("t1", 0).unwrap();
    assert_eq!(
        s.download_piece_from_source_finished("t1", 0, 0, 4, b"AAA")
            .unwrap_err()
            .kind(),
        ErrorKind::InvalidParameter
    );
    assert_eq!(s.get_piece("t1", 0).unwrap().unwrap().state, PieceState::Pending);
    assert_eq!(s.upload_piece("t1", 0).unwrap_err().kind(), ErrorKind::PieceNotFound);
}

#[test]
fn source_finished_needs_task_reservation_and_fit() {
    let mut s = storage();
    let e = s.download_piece_from_source_finished("t1", 0, 0, 4, b"AAAA").unwrap_err();
    assert_eq!(e.kind(), ErrorKind::TaskNotFound);
    assert_eq!(message(&e), "t1");
    s.download_task_started("t1", 4).unwrap();
    let e = s.download_piece_from_source_finished("t1", 0, 0, 4, b"AAAA").unwrap_err();
    assert_eq!(e.kind(), ErrorKind::PieceNotFound);
    assert_eq!(message(&e), "t1-0");
    s.download_piece_started("t1", 1).unwrap();
    let e = s.download_piece_from_source_finished("t1", 1, 3, 4, b"AAAA").unwrap_err();
    assert_eq!(e.kind(), ErrorKind::InvalidParameter);
}

#[test]
fn a_committed_piece_is_not_written_over() {
    let mut s = seeded();
    // the same bytes again: accepted
    assert_eq!(
        s.download_piece_from_source_finished("t1", 1, 4, 4, b"BBBB").unwrap(),
        4
    );
    // other bytes: refused, and the store keeps the committed ones
    let e = s.download_piece_from_source_finished("t1", 1, 4, 4, b"XXXX").unwrap_err();
    assert_eq!(e.kind(), ErrorKind::InvariantViolation);
    assert_eq!(message(&e), "t1-1");
    let e = s
        .download_piece_from_remote_peer_finished("t1", 1, 4, &digest_of(b"XXXX"), "p", b"XXXX")
        .unwrap_err();
    assert_eq!(e.kind(), ErrorKind::InvariantViolation);
    assert_eq!(s.upload_piece("t1", 1).unwrap(), b"BBBB".to_vec());
}

#[test]
fn remote_piece_is_committed_with_its_parent() {
    let mut s = storage();
    s.download_task_started("t1", 4).unwrap();
    s.download_piece_started("t1", 1).unwrap();
    let n = s
        .download_piece_from_remote_peer_finished("t1", 1, 4, &digest_of(b"BBBB"), "peer-1", b"BBBB")
        .unwrap();
    assert_eq!(n, 4);
    let p = s.get_piece("t1", 1).unwrap().unwrap();
    assert_eq!((p.offset, p.length), (4, 4));
    assert_eq!(p.parent_id, Some("peer-1".to_string()));
    assert_eq!(p.digest, digest_of(b"BBBB"));
    assert_eq!(p.traffic_type(), TrafficType::RemotePeer);
    assert_eq!(s.upload_piece("t1", 1).unwrap(), b"BBBB".to_vec());
}

#[test]
fn a_digest_mismatch_commits_nothing() {
    let mut s = storage();
    s.download_task_started("t1", 4).unwrap();
    s.download_piece_started("t1", 1).unwrap();
    let e = s
        .download_piece_from_remote_peer_finished("t1", 1, 4, &digest_of(b"BBBB"), "peer-1", b"BxBB")
        .unwrap_err();
    assert_eq!(e.kind(), ErrorKind::PieceDigestMismatch);
    // bytes were written, and none are committed
    let p = s.get_piece("t1", 1).unwrap().unwrap();
    assert_eq!(p.state, PieceState::InProgress);
    assert_eq!((p.offset, p.length, p.digest.as_str()), (0, 0, ""));
    assert_eq!(s.upload_piece("t1", 1).unwrap_err().kind(), ErrorKind::PieceNotFound);
    // a later success at the same offset writes over the bytes that were left
    s.download_piece_from_remote_peer_finished("t1", 1, 4, &digest_of(b"BBBB"), "peer-2", b"BBBB")
        .unwrap();
    assert_eq!(s.upload_piece("t1", 1).unwrap(), b"BBBB".to_vec());
    assert_eq!(
        s.get_piece("t1", 1).unwrap().unwrap().parent_id,
        Some("peer-2".to_string())
    );
}

#[test]
fn remote_finished_needs_task_reservation_and_fit() {
    let mut s = storage();
    let d = digest_of(b"BBBB");
    assert_eq!(
        s.download_piece_from_remote_peer_finished("t1", 1, 4, &d, "p", b"BBBB")
            .unwrap_err()
            .kind(),
        ErrorKind::TaskNotFound
    );
    s.download_task_started("t1", 4).unwrap();
    assert_eq!(
        s.download_piece_from_remote_peer_finished("t1", 1, 4, &d, "p", b"BBBB")
            .unwrap_err()
            .kind(),
        ErrorKind::PieceNotFound
    );
    s.download_piece_started("t1", 1).unwrap();
    assert_eq!(
        s.download_piece_from_remote_peer_finished("t1", 1, 5, &d, "p", b"BBBB")
            .unwrap_err()
            .kind(),
        ErrorKind::InvalidParameter
    );
    assert_eq!(
        s.download_piece_from_remote_peer_finished("t1", 1, 4, &digest_of(b""), "p", b"")
            .unwrap_err()
            .kind(),
        ErrorKind::InvalidParameter
    );
}

#[test]
fn upload_piece_reads_a_committed_piece_and_touches_the_records() {
    let mut s = seeded();
    s.set_time(500);
    assert_eq!(s.upload_piece("t1", 0).unwrap(), b"AAAA".to_vec());
    assert_eq!(s.get_task("t1").unwrap().unwrap().updated_at, 500);
    let p = s.get_piece("t1", 0).unwrap().unwrap();
    assert_eq!(p.updated_at, 500);
    assert_eq!(p.finished_at, Some(0));
    assert_eq!(s.get_piece("t1", 1).unwrap().unwrap().updated_at, 0);
}

#[test]
fn upload_piece_fails_for_what_is_not_committed() {
    let mut s = seeded();
    let e = s.upload_piece("t2", 0).unwrap_err();
    assert_eq!(e.kind(), ErrorKind::TaskNotFound);
    assert_eq!(message(&e), "t2");
    let e = s.upload_piece("t1", 7).unwrap_err();
    assert_eq!(e.kind(), ErrorKind::PieceNotFound);
    assert_eq!(message(&e), "t1-7");
    s.download_task_started("t3", 4).unwrap();
    s.download_piece_started("t3", 0).unwrap();
    let e = s.upload_piece("t3", 0).unwrap_err();
    assert_eq!(e.kind(), ErrorKind::PieceNotFound);
    assert_eq!(message(&e), "t3-0");
}

#[test]
fn download_piece_started_leaves_a_committed_piece_alone() {
    let mut s = seeded();
    s.set_time(9);
    s.download_piece_started("t1", 0).unwrap();
    let p = s.get_piece("t1", 0).unwrap().unwrap();
    assert_eq!(p.state, PieceState::Finished);
    assert_eq!(p.updated_at, 0);
    assert_eq!(
        s.download_piece_started("nope", 0).unwrap_err().kind(),
        ErrorKind::TaskNotFound
    );
}

#[test]
fn download_piece_failed_goes_to_the_records() {
    let mut s = storage();
    s.download_task_started("t1", 4).unwrap();
    s.download_piece_started("t1", 0).unwrap();
    s.download_piece_failed("t1", 0).unwrap();
    assert_eq!(s.get_piece("t1", 0).unwrap().unwrap().state, PieceState::Failed);
    assert_eq!(
        s.download_piece_failed("t1", 1).unwrap_err().kind(),
        ErrorKind::PieceNotFound
    );
}

#[test]
fn delete_task_removes_records_and_bytes() {
    let mut s = seeded();
    s.download_task_finished("t1").unwrap();
    s.delete_task("t1").unwrap();
    assert!(s.get_task("t1").unwrap().is_none());
    assert!(s.get_pieces("t1").unwrap().is_empty());
    assert_eq!(s.upload_piece("t1", 0).unwrap_err().kind(), ErrorKind::TaskNotFound);
    s.delete_task("t1").unwrap();
    // the task can be downloaded anew
    s.download_task_started("t1", 2).unwrap();
    s.download_piece_started("t1", 0).unwrap();
    s.download_piece_from_source_finished("t1", 0, 0, 2, b"zz").unwrap();
    assert_eq!(s.upload_piece("t1", 0).unwrap(), b"zz".to_vec());
}

#[test]
fn concurrent_duplicate_piece_request() {
    let mut s = storage();
    s.download_task_started("t", 4).unwrap();
    // nobody has asked for the piece yet
    assert_eq!(s.wait_for_piece_finished("t", 5, 0), WaitStep::NotFound);
    // the first caller reserves the piece
    s.download_piece_started("t", 5).unwrap();
    assert_eq!(s.get_piece("t", 5).unwrap().unwrap().state, PieceState::Pending);
    // the second caller waits, poll after poll
    assert_eq!(s.wait_for_piece_finished("t", 5, 0), WaitStep::Again(500));
    assert_eq!(s.wait_for_piece_finished("t", 5, 500), WaitStep::Again(500));
    assert_eq!(s.wait_for_piece_finished("t", 5, 1000), WaitStep::Again(200));
    assert!(WaitStep::Again(200).result(s.piece_id("t", 5)).is_none());
    // the first caller commits: the second sees the record at its next poll
    s.download_piece_from_source_finished("t", 5, 20, 4, b"DATA").unwrap();
    let step = s.wait_for_piece_finished("t", 5, 1000);
    assert_eq!(step, WaitStep::Finished);
    assert!(matches!(step.result(s.piece_id("t", 5)), Some(Ok(()))));
    // and its own request returns at once, with the piece as committed
    s.download_piece_started("t", 5).unwrap();
    assert_eq!(s.get_piece("t", 5).unwrap().unwrap().state, PieceState::Finished);
}

#[test]
fn a_wait_for_a_piece_times_out() {
    let mut s = storage();
    s.download_task_started("t", 4).unwrap();
    s.download_piece_started("t", 5).unwrap();
    assert_eq!(s.wait_for_piece_finished("t", 5, 1199), WaitStep::Again(1));
    let step = s.wait_for_piece_finished("t", 5, 1200);
    assert_eq!(step, WaitStep::TimedOut);
    match step.result(s.piece_id("t", 5)) {
        Some(Err(e)) => {
            assert_eq!(e.kind(), ErrorKind::WaitForPieceFinishedTimeout);
            assert_eq!(message(&e), "t-5");
        }
        _ => panic!("the wait has not timed out"),
    }
    match WaitStep::NotFound.result(s.piece_id("t", 6)) {
        Some(Err(e)) => {
            assert_eq!(e.kind(), ErrorKind::PieceNotFound);
            assert_eq!(message(&e), "t-6");
        }
        _ => panic!("the wait has not failed"),
    }
    // after the timeout the second caller reserves the piece for itself
    s.set_time(1200);
    s.download_piece_started("t", 5).unwrap();
    let p = s.get_piece("t", 5).unwrap().unwrap();
    assert_eq!(p.state, PieceState::Pending);
    assert_eq!(p.updated_at, 1200);
}
