use dragonfly_client::backend::http::HTTP;
use dragonfly_client::backend::{GetResponse, HeadResponse};
use dragonfly_client::digest::digest_of;
use dragonfly_client::error::{Error, ErrorKind, HttpError};
use dragonfly_client::scheduler::{
    AnnouncePeerResponse, Code, Download, PieceMessage, Request, Status, Timeout,
};
use dragonfly_client::storage::metadata::{PieceState, TaskState, TrafficType};
use dragonfly_client::storage::{Config, Storage};
use dragonfly_client::task::piece::{CandidateParent, InterestedPiece, Range, RemotePiece};
use dragonfly_client::task::{read_content_length, Action, Phase, Session, Task};

/// What a run has done so far.
struct Run {
    file: Vec<u8>,
    progress: Vec<(u64, PieceMessage)>,
    sent: Vec<(String, String, String, Request)>,
    failed: Vec<Status>,
    closed: usize,
}

impl Run {
    fn new() -> Run {
        Run { file: Vec::new(), progress: Vec::new(), sent: Vec::new(), failed: Vec::new(), closed: 0 }
    }

    /// Performs the actions of a step and returns the fetch that it asks for, if any.
    fn perform(&mut self, actions: Vec<Action>) -> Option<Action> {
        let mut fetch = None;
        for action in actions {
            assert!(fetch.is_none(), "a fetch is the last action of a step");
            match action {
                Action::Write(w) => {
                    let end = w.offset as usize + w.data.len();
                    if self.file.len() < end {
                        self.file.resize(end, 0);
                    }
                    self.file[w.offset as usize..end].copy_from_slice(&w.data);
                }
                Action::Progress(p) => self.progress.push((p.content_length, p.piece.unwrap())),
                Action::Send(r) => self.sent.push((r.host_id, r.task_id, r.peer_id, r.request)),
                Action::Fail(s) => self.failed.push(s),
                Action::CloseScheduler => self.closed += 1,
                other => fetch = Some(other),
            }
        }
        fetch
    }

    fn progress_numbers(&self) -> Vec<u32> {
        self.progress.iter().map(|(_, p)| p.number).collect()
    }

    fn finished_numbers_sent(&self) -> Vec<u32> {
        self.sent
            .iter()
            .filter_map(|(_, _, _, r)| match r {
                Request::DownloadPieceFinishedRequest(p) => Some(p.number),
                _ => None,
            })
            .collect()
    }
}

fn download(piece_length: u64, range: Option<Range>) -> Download {
    Download {
        url: "http://origin/file".to_string(),
        range,
        header: vec![("x-token".to_string(), "abc".to_string())],
        output_path: "/tmp/out".to_string(),
        piece_length,
        timeout: Timeout::Unset,
    }
}

fn parent(id: &str) -> CandidateParent {
    CandidateParent { id: id.to_string(), ip: "10.0.0.1".to_string(), port: 65001 }
}

/// A task manager whose store knows the task `t1`, with pieces of 4 bytes.
fn task_with(content_length: Option<u64>) -> Task {
    let mut storage = Storage::new(Config { piece_timeout: 3000 }).unwrap();
    storage.download_task_started("t1", 4).unwrap();
    if let Some(n) = content_length {
        storage.set_task_content_length("t1", n).unwrap();
    }
    Task::new(storage, HTTP::new("http"))
}

fn origin_answer(status: u16, body: &[u8]) -> GetResponse {
    GetResponse {
        success: (200..300).contains(&status),
        http_header: Some(vec![("server".to_string(), "origin".to_string())]),
        http_status_code: Some(status),
        body: body.to_vec(),
        error_message: None,
    }
}

fn remote(content: &[u8], offset: u64) -> RemotePiece {
    RemotePiece { offset, digest: digest_of(content), content: content.to_vec() }
}

fn start(task: &mut Task, run: &mut Run, content_length: u64, d: Download) -> Session {
    let (mut session, actions) = task.download_into_file("t1", "host-1", "peer-1", content_length, d, true);
    assert!(run.perform(actions).is_none());
    let actions = task.download_partial_with_scheduler_into_file(&mut session);
    assert!(run.perform(actions).is_none());
    session
}

#[test]
fn cache_hit_path() {
    let mut storage = Storage::new(Config { piece_timeout: 3000 }).unwrap();
    storage.download_task_started("t1", 4).unwrap();
    storage.set_task_content_length("t1", 10).unwrap();
    for (n, data) in [(0u32, &b"AAAA"[..]), (1, &b"BBBB"[..]), (2, &b"CC"[..])] {
        storage.download_piece_started("t1", n).unwrap();
        storage
            .download_piece_from_source_finished("t1", n, n as u64 * 4, data.len() as u64, data)
            .unwrap();
    }
    storage.download_task_finished("t1").unwrap();
    let mut task = Task::new(storage, HTTP::new("http"));
    assert!(task.get("t1").unwrap().unwrap().is_finished());

    let mut run = Run::new();
    let (mut session, actions) =
        task.download_into_file("t1", "host-1", "peer-1", 10, download(4, None), true);
    assert_eq!(session.phase(), Phase::Local);
    assert_eq!(actions.len(), 6);
    assert!(run.perform(actions).is_none());
    let actions = task.download_partial_with_scheduler_into_file(&mut session);
    assert!(actions.is_empty());
    assert_eq!(session.phase(), Phase::Done);

    assert_eq!(run.progress_numbers(), vec![0, 1, 2]);
    for (content_length, p) in &run.progress {
        assert_eq!(*content_length, 10);
        assert_eq!(p.traffic_type, TrafficType::LocalPeer);
        assert_eq!(p.parent_id, None);
    }
    assert_eq!(run.progress[2].1.offset, 8);
    assert_eq!(run.progress[2].1.length, 2);
    assert_eq!(run.progress[2].1.digest, digest_of(b"CC"));
    assert_eq!(run.file, b"AAAABBBBCC".to_vec());
    assert!(run.sent.is_empty());
    assert!(run.failed.is_empty());
    assert_eq!(run.closed, 0);
}

#[test]
fn full_remote_fetch() {
    let origin = b"0123456789abcdef";
    let mut task = task_with(Some(16));
    let mut run = Run::new();
    let mut session = start(&mut task, &mut run, 16, download(4, None));
    assert_eq!(session.phase(), Phase::Scheduler);
    // the peer registers and announces that it starts
    assert_eq!(run.sent.len(), 2);
    assert!(matches!(run.sent[0].3, Request::RegisterPeerRequest(_)));
    assert!(matches!(run.sent[1].3, Request::DownloadPeerStartedRequest));
    assert!(run.progress.is_empty());

    let mut asked: Vec<(u32, String)> = Vec::new();
    let mut next = run.perform(task.scheduler_answered(
        &mut session,
        AnnouncePeerResponse::NormalTaskResponse(vec![parent("P1"), parent("P2")]),
    ));
    while let Some(Action::FetchFromRemotePeer(c)) = next {
        asked.push((c.number, c.parent.id.clone()));
        let at = c.number as usize * 4;
        let actions = task.remote_piece_fetched(&mut session, Ok(remote(&origin[at..at + 4], at as u64)));
        next = run.perform(actions);
    }
    assert!(next.is_none());
    assert_eq!(
        asked,
        vec![
            (0, "P1".to_string()),
            (1, "P2".to_string()),
            (2, "P1".to_string()),
            (3, "P2".to_string())
        ]
    );
    assert_eq!(session.phase(), Phase::Done);
    assert_eq!(run.closed, 1);
    assert_eq!(run.finished_numbers_sent(), vec![0, 1, 2, 3]);
    assert_eq!(run.progress_numbers(), vec![0, 1, 2, 3]);
    for (i, (_, p)) in run.progress.iter().enumerate() {
        assert_eq!(p.traffic_type, TrafficType::RemotePeer);
        assert_eq!(p.parent_id, Some(if i % 2 == 0 { "P1" } else { "P2" }.to_string()));
    }
    for (host, task_id, peer, _) in &run.sent {
        assert_eq!((host.as_str(), task_id.as_str(), peer.as_str()), ("host-1", "t1", "peer-1"));
    }
    assert_eq!(run.file, origin.to_vec());
    assert_eq!(digest_of(&run.file), digest_of(origin));
    assert!(run.failed.is_empty());
    // every piece is committed now: the task can be marked as finished
    task.download_task_finished("t1").unwrap();
    assert_eq!(task.get("t1").unwrap().unwrap().state, TaskState::Finished);
}

#[test]
fn digest_mismatch_recovery() {
    let mut task = task_with(Some(8));
    let mut run = Run::new();
    let mut session = start(&mut task, &mut run, 8, download(4, None));
    let next = run.perform(task.scheduler_answered(
        &mut session,
        AnnouncePeerResponse::NormalTaskResponse(vec![parent("P1"), parent("P2")]),
    ));
    assert!(matches!(next, Some(Action::FetchFromRemotePeer(ref c)) if c.number == 0 && c.parent.id == "P1"));
    let next = run.perform(task.remote_piece_fetched(&mut session, Ok(remote(b"AAAA", 0))));
    assert!(matches!(next, Some(Action::FetchFromRemotePeer(ref c)) if c.number == 1 && c.parent.id == "P2"));
    // the parent sends corrupted bytes under the digest of the right ones
    let corrupted = RemotePiece { offset: 4, digest: digest_of(b"BBBB"), content: b"BxBB".to_vec() };
    let before = run.sent.len();
    let next = run.perform(task.remote_piece_fetched(&mut session, Ok(corrupted)));
    assert!(next.is_none());
    assert_eq!(run.sent.len(), before + 1);
    match &run.sent[before].3 {
        Request::DownloadPieceFailedRequest { piece_number, parent_id, temporary } => {
            assert_eq!(*piece_number, 1);
            assert_eq!(parent_id, "P2");
            assert!(*temporary);
        }
        _ => panic!("another announcement"),
    }
    assert_eq!(session.phase(), Phase::Scheduler);
    assert_eq!(run.progress_numbers(), vec![0]);
    assert_eq!(task.storage().get_piece("t1", 1).unwrap().unwrap().state, PieceState::Failed);
    // the scheduler offers the piece again, from another parent
    let next = run.perform(task.scheduler_answered(
        &mut session,
        AnnouncePeerResponse::NormalTaskResponse(vec![parent("P3")]),
    ));
    assert!(matches!(next, Some(Action::FetchFromRemotePeer(ref c)) if c.number == 1 && c.parent.id == "P3"));
    let next = run.perform(task.remote_piece_fetched(&mut session, Ok(remote(b"BBBB", 4))));
    assert!(next.is_none());
    assert_eq!(session.phase(), Phase::Done);
    assert_eq!(run.progress_numbers(), vec![0, 1]);
    assert_eq!(run.finished_numbers_sent(), vec![0, 1]);
    assert_eq!(run.progress[1].1.parent_id, Some("P3".to_string()));
    assert_eq!(run.file, b"AAAABBBB".to_vec());
    assert_eq!(run.closed, 1);
}

fn body_for(range: &str) -> &'static [u8] {
    match range {
        "bytes=0-3" => b"WXYZ",
        "bytes=4-6" => b"123",
        _ => panic!("unexpected range"),
    }
}

#[test]
fn back_to_source_fallback() {
    let mut task = task_with(None);
    // the content length is not known yet: the origin is asked
    assert_eq!(task.cached_content_length("t1").unwrap(), None);
    let d = download(4, None);
    let head = task.head_request("t1", &d.url, &d.header, None);
    assert_eq!(head.url, "http://origin/file");
    assert_eq!(head.timeout, 3000);
    let answer = HTTP::new("http").head_response(
        200,
        vec![("Content-Length".to_string(), "7".to_string())],
        None,
    );
    assert_eq!(task.get_content_length("t1", &answer).unwrap(), 7);
    assert_eq!(task.cached_content_length("t1").unwrap(), Some(7));

    let mut run = Run::new();
    let mut session = start(&mut task, &mut run, 7, d);
    let mut ranges: Vec<String> = Vec::new();
    let mut next =
        run.perform(task.scheduler_answered(&mut session, AnnouncePeerResponse::NeedBackToSourceResponse));
    while let Some(Action::FetchFromSource { piece, timeout }) = next {
        assert_eq!(timeout, None);
        let request = task
            .piece
            .source_request(
                task.storage(),
                session.task_id(),
                piece.number,
                &session.download().url,
                piece.offset,
                piece.length,
                &session.download().header,
                timeout,
            )
            .unwrap();
        let header = request.http_header.unwrap();
        let range = header.iter().find(|(name, _)| name == "range").unwrap().1.clone();
        assert!(header.contains(&("x-token".to_string(), "abc".to_string())));
        let body = body_for(&range);
        ranges.push(range);
        next = run.perform(task.source_piece_fetched(&mut session, Ok(origin_answer(206, body))));
    }
    assert!(next.is_none());
    assert_eq!(ranges, vec!["bytes=0-3".to_string(), "bytes=4-6".to_string()]);
    assert_eq!(session.phase(), Phase::Done);
    assert_eq!(run.progress_numbers(), vec![0, 1]);
    for (content_length, p) in &run.progress {
        assert_eq!(*content_length, 7);
        assert_eq!(p.traffic_type, TrafficType::BackToSource);
        assert_eq!(p.parent_id, None);
    }
    assert_eq!(run.file, b"WXYZ123".to_vec());
    assert_eq!(run.finished_numbers_sent(), vec![0, 1]);
    assert_eq!(run.closed, 1);
    assert!(run.failed.is_empty());
}

#[test]
fn back_to_source_http_error() {
    let mut task = task_with(Some(7));
    let mut run = Run::new();
    let mut session = start(&mut task, &mut run, 7, download(4, None));
    let next =
        run.perform(task.scheduler_answered(&mut session, AnnouncePeerResponse::NeedBackToSourceResponse));
    assert!(matches!(next, Some(Action::FetchFromSource { piece, .. }) if piece.number == 0));
    let before = run.sent.len();
    // the origin answers 503 to the first ranged get
    let next = run.perform(task.source_piece_fetched(&mut session, Ok(origin_answer(503, b""))));
    assert_eq!(run.sent.len(), before + 1);
    match &run.sent[before].3 {
        Request::DownloadPieceBackToSourceFailedRequest { piece_number, response } => {
            assert_eq!(*piece_number, 0);
            let response = response.as_ref().unwrap();
            assert_eq!(response.status_code, 503);
            assert_eq!(response.status, "Service Unavailable");
            assert_eq!(response.header, vec![("server".to_string(), "origin".to_string())]);
        }
        _ => panic!("another announcement"),
    }
    // the scheduler is given up, and the pure source pass starts with piece 0
    assert_eq!(run.closed, 1);
    assert_eq!(session.phase(), Phase::Source);
    assert!(matches!(next, Some(Action::FetchFromSource { piece, .. }) if piece.number == 0));
    assert_eq!(task.storage().get_piece("t1", 0).unwrap().unwrap().state, PieceState::Failed);
    // which fails too
    let next = run.perform(task.source_piece_fetched(&mut session, Ok(origin_answer(503, b""))));
    assert!(next.is_none());
    assert_eq!(session.phase(), Phase::Failed);
    assert_eq!(run.failed.len(), 1);
    assert_eq!(run.failed[0].code, Code::Internal);
    assert_eq!(run.failed[0].message, "download from source error");
    // the failure was announced exactly once, and nothing was committed or reported
    let announced = run
        .sent
        .iter()
        .filter(|(_, _, _, r)| matches!(r, Request::DownloadPieceBackToSourceFailedRequest { .. }))
        .count();
    assert_eq!(announced, 1);
    assert!(run.progress.is_empty());
    assert!(run.file.is_empty());
    assert!(task.storage().get_pieces("t1").unwrap().iter().all(|p| !p.is_finished()));
}

#[test]
fn a_failed_fetch_without_a_status_is_announced_without_a_response() {
    let mut task = task_with(Some(7));
    let mut run = Run::new();
    let mut session = start(&mut task, &mut run, 7, download(4, None));
    run.perform(task.scheduler_answered(&mut session, AnnouncePeerResponse::NeedBackToSourceResponse));
    let before = run.sent.len();
    run.perform(task.source_piece_fetched(&mut session, Err(Error::Unknown("reset".to_string()))));
    match &run.sent[before].3 {
        Request::DownloadPieceBackToSourceFailedRequest { piece_number, response } => {
            assert_eq!(*piece_number, 0);
            assert!(response.is_none());
        }
        _ => panic!("another announcement"),
    }
    assert_eq!(session.phase(), Phase::Source);
}

#[test]
fn a_failed_fetch_with_a_status_is_announced_with_it() {
    let mut task = task_with(Some(7));
    let mut run = Run::new();
    let mut session = start(&mut task, &mut run, 7, download(4, None));
    run.perform(task.scheduler_answered(&mut session, AnnouncePeerResponse::NeedBackToSourceResponse));
    let before = run.sent.len();
    let cause = Error::HTTP(HttpError { status_code: 799, header: vec![] });
    run.perform(task.source_piece_fetched(&mut session, Err(cause)));
    match &run.sent[before].3 {
        Request::DownloadPieceBackToSourceFailedRequest { response, .. } => {
            let response = response.as_ref().unwrap();
            assert_eq!(response.status_code, 799);
            // a status without a standard reason phrase
            assert_eq!(response.status, "");
        }
        _ => panic!("another announcement"),
    }
}

#[test]
fn the_source_pass_fetches_what_the_scheduler_did_not_bring() {
    let mut task = task_with(Some(10));
    let mut run = Run::new();
    let mut d = download(4, None);
    d.timeout = Timeout::Millis(9000);
    let mut session = start(&mut task, &mut run, 10, d);
    let next = run.perform(task.scheduler_answered(
        &mut session,
        AnnouncePeerResponse::NormalTaskResponse(vec![parent("P1")]),
    ));
    assert!(matches!(next, Some(Action::FetchFromRemotePeer(_))));
    let next = run.perform(task.remote_piece_fetched(&mut session, Ok(remote(b"AAAA", 0))));
    assert!(matches!(next, Some(Action::FetchFromRemotePeer(ref c)) if c.number == 1));
    // the stream breaks while piece 1 is asked for
    let mut next = run.perform(task.scheduler_closed(&mut session));
    assert_eq!(session.phase(), Phase::Source);
    assert_eq!(run.closed, 1);
    let mut fetched = Vec::new();
    while let Some(Action::FetchFromSource { piece, timeout }) = next {
        assert_eq!(timeout, Some(9000));
        fetched.push(piece.number);
        let body: &[u8] = if piece.number == 1 { b"BBBB" } else { b"CC" };
        next = run.perform(task.source_piece_fetched(&mut session, Ok(origin_answer(200, body))));
    }
    assert_eq!(fetched, vec![1, 2]);
    assert_eq!(session.phase(), Phase::Done);
    assert_eq!(run.progress_numbers(), vec![0, 1, 2]);
    let types: Vec<TrafficType> = run.progress.iter().map(|(_, p)| p.traffic_type).collect();
    assert_eq!(
        types,
        vec![TrafficType::RemotePeer, TrafficType::BackToSource, TrafficType::BackToSource]
    );
    // the scheduler is told of the pieces that arrived while it was listened to
    assert_eq!(run.finished_numbers_sent(), vec![0]);
    assert_eq!(run.file, b"AAAABBBBCC".to_vec());
    assert_eq!(run.closed, 1);
}

#[test]
fn an_empty_task_ends_the_download() {
    let mut task = task_with(Some(8));
    let mut run = Run::new();
    let mut session = start(&mut task, &mut run, 8, download(4, None));
    let next = run.perform(task.scheduler_answered(&mut session, AnnouncePeerResponse::EmptyTaskResponse));
    assert!(next.is_none());
    assert_eq!(session.phase(), Phase::Done);
    assert_eq!(run.closed, 1);
    assert!(run.progress.is_empty());
    assert!(run.file.is_empty());
}

#[test]
fn an_answer_that_is_not_recognized_gives_up_the_scheduler() {
    let mut task = task_with(Some(8));
    let mut run = Run::new();
    let mut session = start(&mut task, &mut run, 8, download(4, None));
    let next = run.perform(task.scheduler_answered(&mut session, AnnouncePeerResponse::Unrecognized));
    assert!(matches!(next, Some(Action::FetchFromSource { piece, .. }) if piece.number == 0));
    assert_eq!(session.phase(), Phase::Source);
    assert_eq!(session.queued(), 2);
    assert_eq!(run.closed, 1);
}

#[test]
fn a_normal_task_without_parents_waits_for_the_next_answer() {
    let mut task = task_with(Some(8));
    let mut run = Run::new();
    let mut session = start(&mut task, &mut run, 8, download(4, None));
    let next =
        run.perform(task.scheduler_answered(&mut session, AnnouncePeerResponse::NormalTaskResponse(vec![])));
    assert!(next.is_none());
    assert_eq!(session.phase(), Phase::Scheduler);
    assert_eq!(session.queued(), 0);
    assert_eq!(run.closed, 0);
}

#[test]
fn the_local_drain_leaves_the_rest_to_the_scheduler() {
    let mut storage = Storage::new(Config { piece_timeout: 3000 }).unwrap();
    storage.download_task_started("t1", 4).unwrap();
    storage.set_task_content_length("t1", 10).unwrap();
    storage.download_piece_started("t1", 1).unwrap();
    storage.download_piece_from_source_finished("t1", 1, 4, 4, b"BBBB").unwrap();
    let mut task = Task::new(storage, HTTP::new("http"));
    let mut run = Run::new();
    let (mut session, actions) =
        task.download_into_file("t1", "h", "p", 10, download(4, None), true);
    run.perform(actions);
    assert_eq!(run.progress_numbers(), vec![1]);
    assert_eq!(run.progress[0].1.traffic_type, TrafficType::LocalPeer);
    assert_eq!(run.file, b"\0\0\0\0BBBB".to_vec());
    assert_eq!(
        session.interested().clone(),
        vec![
            InterestedPiece { number: 0, offset: 0, length: 4 },
            InterestedPiece { number: 2, offset: 8, length: 2 }
        ]
    );
    assert!(session.finished().is_empty());
    run.perform(task.download_partial_with_scheduler_into_file(&mut session));
    assert_eq!(session.phase(), Phase::Scheduler);
    match &run.sent[0].3 {
        Request::RegisterPeerRequest(d) => {
            assert_eq!(d.url, "http://origin/file");
            assert_eq!(d.piece_length, 4);
        }
        _ => panic!("another announcement"),
    }
    // a second call changes nothing
    assert!(task.download_partial_with_scheduler_into_file(&mut session).is_empty());
    assert_eq!(session.phase(), Phase::Scheduler);
}

#[test]
fn a_range_downloads_whole_pieces() {
    let mut task = task_with(Some(10));
    let mut run = Run::new();
    let d = download(4, Some(Range { start: 5, length: 2 }));
    let mut session = start(&mut task, &mut run, 10, d);
    assert_eq!(session.interested().clone(), vec![InterestedPiece { number: 1, offset: 4, length: 4 }]);
    let next =
        run.perform(task.scheduler_answered(&mut session, AnnouncePeerResponse::NeedBackToSourceResponse));
    assert!(matches!(next, Some(Action::FetchFromSource { piece, .. }) if piece.number == 1));
    run.perform(task.source_piece_fetched(&mut session, Ok(origin_answer(206, b"BBBB"))));
    assert_eq!(session.phase(), Phase::Done);
    // the file is as long as the end of the last interested piece
    assert_eq!(run.file, b"\0\0\0\0BBBB".to_vec());
}

fn preflight_failure(task: &mut Task, content_length: u64, d: Download, file_opened: bool) -> (Code, String) {
    let (session, actions) = task.download_into_file("t1", "h", "p", content_length, d, file_opened);
    assert_eq!(session.phase(), Phase::Failed);
    assert_eq!(actions.len(), 1);
    match actions.into_iter().next().unwrap() {
        Action::Fail(status) => (status.code, status.message),
        _ => panic!("another action"),
    }
}

#[test]
fn preflight_errors_are_terminal() {
    let mut task = task_with(Some(10));
    let mut d = download(4, None);
    d.timeout = Timeout::Invalid;
    assert_eq!(
        preflight_failure(&mut task, 10, d, true),
        (Code::InvalidArgument, "invalid timeout".to_string())
    );
    assert_eq!(
        preflight_failure(&mut task, 10, download(4, None), false),
        (Code::Internal, "open file error".to_string())
    );
    assert_eq!(
        preflight_failure(&mut task, 10, download(0, None), true),
        (Code::InvalidArgument, "calculate interested pieces error".to_string())
    );
    assert_eq!(
        preflight_failure(&mut task, 10, download(4, Some(Range { start: 0, length: 0 })), true),
        (Code::InvalidArgument, "calculate interested pieces error".to_string())
    );
    let mut empty = Task::new(Storage::new(Config { piece_timeout: 1 }).unwrap(), HTTP::new("http"));
    assert_eq!(
        preflight_failure(&mut empty, 10, download(4, None), true),
        (Code::NotFound, "task not found".to_string())
    );
}

#[test]
fn a_failed_action_ends_or_redirects_the_download() {
    let mut task = task_with(Some(8));
    // while the local pieces are written out: the download fails
    let (mut session, _) = task.download_into_file("t1", "h", "p", 8, download(4, None), true);
    let actions = task.action_failed(&mut session);
    assert_eq!(session.phase(), Phase::Failed);
    assert!(matches!(&actions[0], Action::Fail(s)
        if s.code == Code::Internal && s.message == "download from local peer error"));
    assert!(task.action_failed(&mut session).is_empty());
    // while the scheduler is listened to: it is given up
    let mut run = Run::new();
    let mut session = start(&mut task, &mut run, 8, download(4, None));
    let next = run.perform(task.action_failed(&mut session));
    assert_eq!(session.phase(), Phase::Source);
    assert!(matches!(next, Some(Action::FetchFromSource { piece, .. }) if piece.number == 0));
    // with the origin as the last resort: the download fails
    let actions = task.action_failed(&mut session);
    assert_eq!(session.phase(), Phase::Failed);
    assert!(matches!(&actions[0], Action::Fail(s)
        if s.code == Code::Internal && s.message == "download from source error"));
}

#[test]
fn events_that_do_not_apply_change_nothing() {
    let mut task = task_with(Some(8));
    let mut run = Run::new();
    let mut session = start(&mut task, &mut run, 8, download(4, None));
    // no fetch is asked for yet
    assert!(task.remote_piece_fetched(&mut session, Ok(remote(b"AAAA", 0))).is_empty());
    assert!(task.source_piece_fetched(&mut session, Ok(origin_answer(200, b"AAAA"))).is_empty());
    assert!(task.storage().get_pieces("t1").unwrap().is_empty());
    run.perform(task.scheduler_answered(
        &mut session,
        AnnouncePeerResponse::NormalTaskResponse(vec![parent("P1")]),
    ));
    // a fetch from a parent is asked for: an answer of the origin does not apply,
    // nor does another answer of the scheduler
    assert!(task.source_piece_fetched(&mut session, Ok(origin_answer(200, b"AAAA"))).is_empty());
    assert!(task.scheduler_answered(&mut session, AnnouncePeerResponse::EmptyTaskResponse).is_empty());
    assert_eq!(session.phase(), Phase::Scheduler);
    assert_eq!(session.queued(), 2);
}

#[test]
fn task_records_are_kept_by_the_manager() {
    let mut task = Task::new(Storage::new(Config { piece_timeout: 1 }).unwrap(), HTTP::new("http"));
    assert_eq!(task.http_client().scheme(), "http");
    assert!(task.get("t9").unwrap().is_none());
    task.set_time(5);
    task.download_task_started("t9", 16).unwrap();
    let t = task.get("t9").unwrap().unwrap();
    assert_eq!((t.piece_length, t.created_at), (16, 5));
    task.download_task_failed("t9").unwrap();
    assert_eq!(task.get("t9").unwrap().unwrap().state, TaskState::Failed);
    assert_eq!(task.download_task_failed("zz").unwrap_err().kind(), ErrorKind::TaskNotFound);
    assert_eq!(task.download_task_started("t9", 0).unwrap_err().kind(), ErrorKind::InvalidParameter);
    assert_eq!(task.download_task_finished("t9").unwrap_err().kind(), ErrorKind::InvariantViolation);
}

fn head(header: Option<Vec<(&str, &str)>>) -> HeadResponse {
    HeadResponse {
        success: true,
        content_length: None,
        http_header: header
            .map(|h| h.into_iter().map(|(n, v)| (n.to_string(), v.to_string())).collect()),
        http_status_code: Some(200),
        error_message: None,
    }
}

#[test]
fn get_content_length_reads_the_header_once() {
    let mut task = task_with(None);
    assert_eq!(
        task.get_content_length("t1", &head(Some(vec![("content-length", "1000")]))).unwrap(),
        1000
    );
    // the stored length is returned from now on, whatever the origin says
    assert_eq!(
        task.get_content_length("t1", &head(Some(vec![("content-length", "5")]))).unwrap(),
        1000
    );
    assert_eq!(task.get_content_length("t1", &head(None)).unwrap(), 1000);
    assert_eq!(task.get("t1").unwrap().unwrap().content_length, Some(1000));
}

#[test]
fn get_content_length_fails_without_a_parsable_header() {
    let mut task = task_with(None);
    let bad = vec![
        head(None),
        head(Some(vec![])),
        head(Some(vec![("content-type", "text/plain")])),
        head(Some(vec![("content-length", "")])),
        head(Some(vec![("content-length", "12 ")])),
        head(Some(vec![("content-length", "-1")])),
        head(Some(vec![("content-length", "1.5")])),
        head(Some(vec![("content-length", "18446744073709551616")])),
        head(Some(vec![("content-length", "abc"), ("content-length", "7")])),
    ];
    for response in bad {
        assert_eq!(
            task.get_content_length("t1", &response).unwrap_err().kind(),
            ErrorKind::InvalidContentLength
        );
    }
    assert_eq!(task.cached_content_length("t1").unwrap(), None);
    assert_eq!(
        task.get_content_length("zz", &head(Some(vec![("content-length", "1")]))).unwrap_err().kind(),
        ErrorKind::TaskNotFound
    );
    assert_eq!(task.cached_content_length("zz").unwrap_err().kind(), ErrorKind::TaskNotFound);
}

#[test]
fn read_content_length_takes_the_first_header_of_that_name() {
    let h = |pairs: Vec<(&str, &str)>| -> Vec<(String, String)> {
        pairs.into_iter().map(|(n, v)| (n.to_string(), v.to_string())).collect()
    };
    assert_eq!(read_content_length(&h(vec![("Content-Length", "10")])), Some(10));
    assert_eq!(read_content_length(&h(vec![("CONTENT-LENGTH", "0")])), Some(0));
    assert_eq!(
        read_content_length(&h(vec![("a", "1"), ("content-length", "7"), ("content-length", "8")])),
        Some(7)
    );
    assert_eq!(read_content_length(&h(vec![("content_length", "7")])), None);
    assert_eq!(read_content_length(&h(vec![])), None);
}

#[test]
fn headers_that_cannot_be_sent_give_up_the_scheduler_at_once() {
    let mut task = task_with(Some(8));
    let mut run = Run::new();
    let mut d = download(4, None);
    d.header = vec![("bad name".to_string(), "v".to_string())];
    let (mut session, actions) = task.download_into_file("t1", "h", "p", 8, d, true);
    assert!(run.perform(actions).is_none());
    let next = run.perform(task.download_partial_with_scheduler_into_file(&mut session));
    assert_eq!(session.phase(), Phase::Source);
    assert!(matches!(next, Some(Action::FetchFromSource { piece, .. }) if piece.number == 0));
    // nothing was announced
    assert!(run.sent.is_empty());
}

#[test]
fn the_output_file_is_the_concatenation_of_the_pieces_in_ascending_order() {
    let origin = b"The quick brown fox jumps over the lazy dog";
    let mut storage = Storage::new(Config { piece_timeout: 3000 }).unwrap();
    storage.download_task_started("t1", 8).unwrap();
    storage.set_task_content_length("t1", origin.len() as u64).unwrap();
    // piece 3 is in the store already
    storage.download_piece_started("t1", 3).unwrap();
    storage.download_piece_from_source_finished("t1", 3, 24, 8, &origin[24..32]).unwrap();
    let mut task = Task::new(storage, HTTP::new("http"));
    let mut run = Run::new();
    let mut session = start(&mut task, &mut run, origin.len() as u64, download(8, None));
    // pieces 0 and 1 come from parents, the others from the origin
    let next = run.perform(task.scheduler_answered(
        &mut session,
        AnnouncePeerResponse::NormalTaskResponse(vec![parent("P1")]),
    ));
    assert!(matches!(next, Some(Action::FetchFromRemotePeer(ref c)) if c.number == 0));
    run.perform(task.remote_piece_fetched(&mut session, Ok(remote(&origin[0..8], 0))));
    run.perform(task.remote_piece_fetched(&mut session, Ok(remote(&origin[8..16], 8))));
    let mut next = run.perform(task.scheduler_closed(&mut session));
    while let Some(Action::FetchFromSource { piece, .. }) = next {
        let from = piece.offset as usize;
        let body = &origin[from..from + piece.length as usize];
        next = run.perform(task.source_piece_fetched(&mut session, Ok(origin_answer(206, body))));
    }
    assert_eq!(session.phase(), Phase::Done);
    assert_eq!(run.progress_numbers(), vec![3, 0, 1, 2, 4, 5]);
    // what the store holds, read piece by piece in ascending order
    let mut storage = task.into_storage();
    let mut pieces = storage.get_pieces("t1").unwrap();
    pieces.sort_by_key(|p| p.number);
    let numbers: Vec<u32> = pieces.iter().map(|p| p.number).collect();
    assert_eq!(numbers, vec![0, 1, 2, 3, 4, 5]);
    let mut whole = Vec::new();
    for p in &pieces {
        whole.extend(storage.upload_piece("t1", p.number).unwrap());
    }
    assert_eq!(run.file, whole);
    assert_eq!(run.file, origin.to_vec());
}

#[test]
fn the_source_pass_can_be_started_by_the_caller() {
    let mut task = task_with(Some(8));
    let mut run = Run::new();
    let mut session = start(&mut task, &mut run, 8, download(4, None));
    let mut next = run.perform(task.download_partial_from_source_into_file(&mut session));
    assert_eq!(session.phase(), Phase::Source);
    assert_eq!(run.closed, 1);
    let mut fetched = Vec::new();
    while let Some(Action::FetchFromSource { piece, .. }) = next {
        fetched.push(piece.number);
        let body: &[u8] = if piece.number == 0 { b"AAAA" } else { b"BBBB" };
        next = run.perform(task.source_piece_fetched(&mut session, Ok(origin_answer(200, body))));
    }
    assert_eq!(fetched, vec![0, 1]);
    assert_eq!(session.phase(), Phase::Done);
    assert_eq!(run.file, b"AAAABBBB".to_vec());
    // the scheduler is not told of pieces that arrive after it was given up
    assert!(run.finished_numbers_sent().is_empty());
    assert_eq!(session.finished().len(), 2);
}
