use dragonfly_client::backend::GetResponse;
use dragonfly_client::digest::digest_of;
use dragonfly_client::error::{Error, ErrorKind, HttpError};
use dragonfly_client::storage::metadata::{Metadata, PieceState};
use dragonfly_client::storage::{Config, Storage};
use dragonfly_client::task::piece::{
    CandidateParent, FileWrite, InterestedPiece, Piece, Range, RemotePiece,
};

fn piece(number: u32, offset: u64, length: u64) -> InterestedPiece {
    InterestedPiece { number, offset, length }
}

fn parent(id: &str) -> CandidateParent {
    CandidateParent { id: id.to_string(), ip: "127.0.0.1".to_string(), port: 4000 }
}

fn storage() -> Storage {
    let mut s = Storage::new(Config { piece_timeout: 3000 }).unwrap();
    s.download_task_started("t1", 4).unwrap();
    s.set_task_content_length("t1", 10).unwrap();
    s
}

fn answer(status: u16, body: &[u8]) -> GetResponse {
    GetResponse {
        success: (200..300).contains(&status),
        http_header: Some(vec![("server".to_string(), "origin".to_string())]),
        http_status_code: Some(status),
        body: body.to_vec(),
        error_message: None,
    }
}

#[test]
fn calculate_interested_covers_the_content() {
    let m = Piece::new();
    assert_eq!(
        m.calculate_interested(4, Some(10), None).unwrap(),
        vec![piece(0, 0, 4), piece(1, 4, 4), piece(2, 8, 2)]
    );
    assert_eq!(
        m.calculate_interested(4, Some(8), None).unwrap(),
        vec![piece(0, 0, 4), piece(1, 4, 4)]
    );
    assert_eq!(m.calculate_interested(4, Some(3), None).unwrap(), vec![piece(0, 0, 3)]);
    assert_eq!(m.calculate_interested(1, Some(2), None).unwrap(), vec![piece(0, 0, 1), piece(1, 1, 1)]);
    assert_eq!(m.calculate_interested(4, Some(0), None).unwrap(), vec![]);
}

#[test]
fn calculate_interested_yields_ceil_pieces_whose_lengths_sum_to_the_content_length() {
    let m = Piece::new();
    for (pl, cl) in [(4u64, 10u64), (4, 8), (3, 100), (7, 1), (1, 17), (4096, 1 << 20), (5, 0)] {
        let pieces = m.calculate_interested(pl, Some(cl), None).unwrap();
        assert_eq!(pieces.len() as u64, (cl + pl - 1) / pl);
        assert_eq!(pieces.iter().map(|p| p.length).sum::<u64>(), cl);
        for (i, p) in pieces.iter().enumerate() {
            assert_eq!(p.number as usize, i);
            assert_eq!(p.offset, i as u64 * pl);
        }
    }
}

#[test]
fn calculate_interested_with_a_range_yields_whole_pieces_that_intersect_it() {
    let m = Piece::new();
    // bytes 5..7 lie in piece 1
    assert_eq!(
        m.calculate_interested(4, Some(10), Some(Range { start: 5, length: 2 })).unwrap(),
        vec![piece(1, 4, 4)]
    );
    // bytes 3..9 touch all three pieces
    assert_eq!(
        m.calculate_interested(4, Some(10), Some(Range { start: 3, length: 6 })).unwrap(),
        vec![piece(0, 0, 4), piece(1, 4, 4), piece(2, 8, 2)]
    );
    // the range ends where piece 1 starts: piece 1 is not touched
    assert_eq!(
        m.calculate_interested(4, Some(10), Some(Range { start: 0, length: 4 })).unwrap(),
        vec![piece(0, 0, 4)]
    );
    // a range behind the content touches nothing
    assert_eq!(
        m.calculate_interested(4, Some(10), Some(Range { start: 10, length: 5 })).unwrap(),
        vec![]
    );
    // a range that runs over the end is cut by the content
    assert_eq!(
        m.calculate_interested(4, Some(10), Some(Range { start: 9, length: 100 })).unwrap(),
        vec![piece(2, 8, 2)]
    );
}

#[test]
fn calculate_interested_refuses_bad_parameters() {
    let m = Piece::new();
    let bad = [
        m.calculate_interested(0, Some(10), None),
        m.calculate_interested(4, None, None),
        m.calculate_interested(4, Some(10), Some(Range { start: 0, length: 0 })),
        m.calculate_interested(4, Some(10), Some(Range { start: u64::MAX, length: 1 })),
        m.calculate_interested(1, Some((1u64 << 32) + 1), None),
    ];
    for r in bad {
        assert_eq!(r.unwrap_err().kind(), ErrorKind::InvalidParameter);
    }
}

fn records(numbers: &[u32]) -> Vec<dragonfly_client::storage::metadata::Piece> {
    let mut m = Metadata::new();
    m.download_task_started("t", 4, 0).unwrap();
    for n in numbers {
        m.download_piece_started("t", *n, 0).unwrap();
    }
    m.get_pieces("t").unwrap()
}

#[test]
fn remove_finished_from_interested_is_a_difference_by_number() {
    let m = Piece::new();
    let interested = vec![piece(0, 0, 4), piece(1, 4, 4), piece(2, 8, 4), piece(3, 12, 1)];
    assert_eq!(
        m.remove_finished_from_interested(&records(&[2, 0]), interested.clone()),
        vec![piece(1, 4, 4), piece(3, 12, 1)]
    );
    assert_eq!(m.remove_finished_from_interested(&records(&[]), interested.clone()), interested);
    assert_eq!(m.remove_finished_from_interested(&records(&[7, 9]), interested.clone()), interested);
    assert_eq!(
        m.remove_finished_from_interested(&records(&[3, 2, 1, 0]), interested),
        vec![]
    );
    assert_eq!(m.remove_finished_from_interested(&records(&[1]), vec![]), vec![]);
}

#[test]
fn remove_finished_from_interested_is_idempotent() {
    let m = Piece::new();
    let finished = records(&[1, 3]);
    let interested = vec![piece(3, 12, 4), piece(0, 0, 4), piece(1, 4, 4), piece(2, 8, 4)];
    let once = m.remove_finished_from_interested(&finished, interested);
    let twice = m.remove_finished_from_interested(&finished, once.clone());
    assert_eq!(once, vec![piece(0, 0, 4), piece(2, 8, 4)]);
    assert_eq!(twice, once);
}

#[test]
fn collect_assigns_pieces_to_parents_in_turn() {
    let m = Piece::new();
    let s = storage();
    let interested = vec![piece(0, 0, 4), piece(1, 4, 4), piece(2, 8, 2)];
    let got = m.collect_interested_from_remote_peer(&s, "t1", &interested, &vec![parent("P1"), parent("P2")]);
    let pairs: Vec<(u32, &str)> = got.iter().map(|c| (c.number, c.parent.id.as_str())).collect();
    assert_eq!(pairs, vec![(0, "P1"), (1, "P2"), (2, "P1")]);
    let got = m.collect_interested_from_remote_peer(&s, "t1", &interested, &vec![parent("only")]);
    let pairs: Vec<(u32, &str)> = got.iter().map(|c| (c.number, c.parent.id.as_str())).collect();
    assert_eq!(pairs, vec![(0, "only"), (1, "only"), (2, "only")]);
}

#[test]
fn collect_without_parents_assigns_nothing() {
    let m = Piece::new();
    let s = storage();
    let interested = vec![piece(0, 0, 4), piece(1, 4, 4)];
    assert!(m.collect_interested_from_remote_peer(&s, "t1", &interested, &vec![]).is_empty());
    assert!(m
        .collect_interested_from_remote_peer(&s, "t1", &vec![], &vec![parent("P1")])
        .is_empty());
}

#[test]
fn collect_skips_the_pieces_that_are_committed() {
    let m = Piece::new();
    let mut s = storage();
    s.download_piece_started("t1", 1).unwrap();
    s.download_piece_from_source_finished("t1", 1, 4, 4, b"BBBB").unwrap();
    s.download_piece_started("t1", 2).unwrap();
    let interested = vec![piece(0, 0, 4), piece(1, 4, 4), piece(2, 8, 2)];
    let got = m.collect_interested_from_remote_peer(&s, "t1", &interested, &vec![parent("P1"), parent("P2")]);
    let pairs: Vec<(u32, &str)> = got.iter().map(|c| (c.number, c.parent.id.as_str())).collect();
    // piece 1 is committed; piece 2 is only reserved and is still asked for
    assert_eq!(pairs, vec![(0, "P1"), (2, "P2")]);
}

#[test]
fn get_reads_the_record_of_a_piece() {
    let m = Piece::new();
    let mut s = storage();
    assert!(m.get(&s, "t1", 0).unwrap().is_none());
    s.download_piece_started("t1", 0).unwrap();
    assert_eq!(m.get(&s, "t1", 0).unwrap().unwrap().state, PieceState::Pending);
}

#[test]
fn download_from_local_peer_reads_what_is_committed() {
    let m = Piece::new();
    let mut s = storage();
    assert_eq!(
        m.download_from_local_peer(&mut s, "t1", 0).unwrap_err().kind(),
        ErrorKind::PieceNotFound
    );
    s.download_piece_started("t1", 0).unwrap();
    assert_eq!(
        m.download_from_local_peer(&mut s, "t1", 0).unwrap_err().kind(),
        ErrorKind::PieceNotFound
    );
    s.download_piece_from_source_finished("t1", 0, 0, 4, b"AAAA").unwrap();
    assert_eq!(m.download_from_local_peer(&mut s, "t1", 0).unwrap(), b"AAAA".to_vec());
    assert_eq!(
        m.download_from_local_peer(&mut s, "zz", 0).unwrap_err().kind(),
        ErrorKind::TaskNotFound
    );
}

#[test]
fn download_from_remote_peer_stores_and_commits() {
    let m = Piece::new();
    let mut s = storage();
    let sent = RemotePiece { offset: 4, digest: digest_of(b"BBBB"), content: b"BBBB".to_vec() };
    let bytes = m.download_from_remote_peer(&mut s, "t1", 1, &parent("P1"), Ok(sent)).unwrap();
    assert_eq!(bytes, b"BBBB".to_vec());
    let p = s.get_piece("t1", 1).unwrap().unwrap();
    assert_eq!(p.state, PieceState::Finished);
    assert_eq!(p.parent_id, Some("P1".to_string()));
    assert_eq!((p.offset, p.length), (4, 4));
}

#[test]
fn download_from_remote_peer_marks_a_corrupted_piece_as_failed() {
    let m = Piece::new();
    let mut s = storage();
    let sent = RemotePiece { offset: 4, digest: digest_of(b"BBBB"), content: b"BBxB".to_vec() };
    let e = m.download_from_remote_peer(&mut s, "t1", 1, &parent("P1"), Ok(sent)).unwrap_err();
    assert_eq!(e.kind(), ErrorKind::PieceDigestMismatch);
    assert_eq!(s.get_piece("t1", 1).unwrap().unwrap().state, PieceState::Failed);
}

#[test]
fn download_from_remote_peer_hands_a_transport_error_back() {
    let m = Piece::new();
    let mut s = storage();
    let e = m
        .download_from_remote_peer(&mut s, "t1", 1, &parent("P1"), Err(Error::Unknown("refused".to_string())))
        .unwrap_err();
    match e {
        Error::Unknown(text) => assert_eq!(text, "refused"),
        _ => panic!("another error"),
    }
    assert!(s.get_piece("t1", 1).unwrap().is_none());
    let sent = RemotePiece { offset: 4, digest: digest_of(b"BBBB"), content: b"BBBB".to_vec() };
    assert_eq!(
        m.download_from_remote_peer(&mut s, "zz", 1, &parent("P1"), Ok(sent)).unwrap_err().kind(),
        ErrorKind::TaskNotFound
    );
}

#[test]
fn source_request_asks_for_the_range_of_the_piece() {
    let m = Piece::new();
    let s = storage();
    let header = vec![
        ("accept".to_string(), "*/*".to_string()),
        ("Range".to_string(), "bytes=0-1".to_string()),
        ("x-token".to_string(), "abc".to_string()),
    ];
    let r = m.source_request(&s, "t1", 1, "http://origin/file", 4, 4, &header, None).unwrap();
    assert_eq!(r.task_id, "t1");
    assert_eq!(r.piece_id, "t1-1");
    assert_eq!(r.url, "http://origin/file");
    assert_eq!(
        r.http_header,
        Some(vec![
            ("accept".to_string(), "*/*".to_string()),
            ("x-token".to_string(), "abc".to_string()),
            ("range".to_string(), "bytes=4-7".to_string()),
        ])
    );
    assert_eq!(r.timeout, 3000);
    assert!(r.client_certs.is_none());
    let r = m.source_request(&s, "t1", 0, "u", 0, 4, &vec![], Some(250)).unwrap();
    assert_eq!(r.http_header, Some(vec![("range".to_string(), "bytes=0-3".to_string())]));
    assert_eq!(r.timeout, 250);
    let r = m.source_request(&s, "t1", 2, "u", 4, 3, &vec![], None).unwrap();
    assert_eq!(r.http_header, Some(vec![("range".to_string(), "bytes=4-6".to_string())]));
    let r = m.source_request(&s, "t1", 2, "u", u64::MAX, 1, &vec![], None).unwrap();
    assert_eq!(
        r.http_header,
        Some(vec![("range".to_string(), "bytes=18446744073709551615-18446744073709551615".to_string())])
    );
}

#[test]
fn source_request_refuses_a_piece_without_bytes_or_beyond_64_bits() {
    let m = Piece::new();
    let s = storage();
    assert_eq!(
        m.source_request(&s, "t1", 0, "u", 0, 0, &vec![], None).unwrap_err().kind(),
        ErrorKind::InvalidParameter
    );
    assert_eq!(
        m.source_request(&s, "t1", 0, "u", u64::MAX, 2, &vec![], None).unwrap_err().kind(),
        ErrorKind::InvalidParameter
    );
}

#[test]
fn download_from_source_stores_and_commits() {
    let m = Piece::new();
    let mut s = storage();
    let bytes = m.download_from_source(&mut s, "t1", 2, 8, 2, Ok(answer(206, b"CC"))).unwrap();
    assert_eq!(bytes, b"CC".to_vec());
    let p = s.get_piece("t1", 2).unwrap().unwrap();
    assert_eq!(p.state, PieceState::Finished);
    assert_eq!(p.parent_id, None);
    assert_eq!(p.digest, digest_of(b"CC"));
}

#[test]
fn download_from_source_does_not_commit_on_an_http_error() {
    let m = Piece::new();
    let mut s = storage();
    let e = m.download_from_source(&mut s, "t1", 0, 0, 4, Ok(answer(503, b"busy"))).unwrap_err();
    match e {
        Error::HTTP(failure) => {
            assert_eq!(failure.status_code, 503);
            assert_eq!(failure.header, vec![("server".to_string(), "origin".to_string())]);
        }
        _ => panic!("another error"),
    }
    assert_eq!(s.get_piece("t1", 0).unwrap().unwrap().state, PieceState::Failed);
    assert_eq!(s.upload_piece("t1", 0).unwrap_err().kind(), ErrorKind::PieceNotFound);
}

#[test]
fn download_from_source_fails_on_a_body_of_another_length() {
    let m = Piece::new();
    let mut s = storage();
    let e = m.download_from_source(&mut s, "t1", 0, 0, 4, Ok(answer(200, b"AAA"))).unwrap_err();
    assert_eq!(e.kind(), ErrorKind::InvalidParameter);
    assert_eq!(s.get_piece("t1", 0).unwrap().unwrap().state, PieceState::Failed);
}

#[test]
fn download_from_source_hands_a_transport_error_back() {
    let m = Piece::new();
    let mut s = storage();
    let cause = Error::HTTP(HttpError { status_code: 502, header: vec![] });
    let e = m.download_from_source(&mut s, "t1", 0, 0, 4, Err(cause)).unwrap_err();
    match e {
        Error::HTTP(failure) => assert_eq!(failure.status_code, 502),
        _ => panic!("another error"),
    }
    assert_eq!(s.get_piece("t1", 0).unwrap().unwrap().state, PieceState::Failed);
    assert_eq!(
        m.download_from_source(&mut s, "zz", 0, 0, 4, Ok(answer(200, b"AAAA"))).unwrap_err().kind(),
        ErrorKind::TaskNotFound
    );
}

#[test]
fn write_into_file_and_verify_hands_the_bytes_over_and_checks_them() {
    let m = Piece::new();
    let mut file: Vec<FileWrite> = Vec::new();
    m.write_into_file_and_verify(b"AAAA".to_vec(), &mut file, 0, &digest_of(b"AAAA")).unwrap();
    let e = m
        .write_into_file_and_verify(b"BBxB".to_vec(), &mut file, 4, &digest_of(b"BBBB"))
        .unwrap_err();
    assert_eq!(e.kind(), ErrorKind::PieceDigestMismatch);
    assert_eq!(file.len(), 2);
    assert_eq!((file[0].offset, file[0].data.as_slice()), (0, &b"AAAA"[..]));
    assert_eq!((file[1].offset, file[1].data.as_slice()), (4, &b"BBxB"[..]));
}
