//! The steps of a download as mathematical values: what each step makes of
//! the download and of the store, which actions it asks for, and what holds
//! of a download at every step.

use crate::backend::http::{canonical_reason, headers_accepted};
use crate::backend::{header_view, GetResponse, Header, HeaderView};
use crate::error::Error;
use crate::scheduler::{
    piece_message,
    AnnouncePeerRequestView,
    AnnouncePeerResponseView,
    Code,
    DownloadView,
    HttpResponseView,
    PieceMessageView,
    RequestView,
    Timeout,
};
use crate::storage::metadata::{PieceView, TrafficType};
use crate::storage::StorageView;
use crate::task::piece::{
    answered_header,
    answered_status,
    collected,
    interested_error,
    interested_pieces,
    is_finished_number,
    remaining_pieces,
    remote_fetch_error,
    remote_fetched,
    source_fetch_error,
    source_fetched,
    source_unreached,
    CandidateParentView,
    CollectedPieceView,
    FileWriteView,
    InterestedPiece,
    RemotePiece,
};
use crate::task::{Action, Phase, Work};
use vstd::prelude::*;

verus! {

/// A fetch as a mathematical value.
pub enum WorkView {
    Remote(CollectedPieceView),
    Source(InterestedPiece),
}

/// An action as a mathematical value.
pub enum ActionView {
    Send(AnnouncePeerRequestView),
    Progress { content_length: u64, reported: Option<PieceMessageView> },
    Fail { code: Code, message: Seq<char> },
    Write(FileWriteView),
    FetchFromRemotePeer(CollectedPieceView),
    FetchFromSource { piece: InterestedPiece, timeout: Option<u64> },
    CloseScheduler,
}

/// A download as a mathematical value.
pub struct SessionView {
    pub task_id: Seq<char>,
    pub host_id: Seq<char>,
    pub peer_id: Seq<char>,
    pub content_length: u64,
    pub download: DownloadView,
    /// The pieces that were left to fetch when the scheduler was first
    /// asked.
    pub interested: Seq<InterestedPiece>,
    /// The records of the pieces that have arrived since, in the order of
    /// their arrival.
    pub finished: Seq<PieceView>,
    /// The fetches that are yet to be made, the next one first.
    pub queue: Seq<WorkView>,
    pub phase: Phase,
}

/// The bound on a fetch from the origin that a download's timeout gives.
pub open spec fn timeout_millis(timeout: Timeout) -> Option<u64> {
    match timeout {
        Timeout::Millis(t) => Some(t),
        _ => None,
    }
}

/// The pieces of a list, each as a fetch from the origin.
pub open spec fn source_work(pieces: Seq<InterestedPiece>) -> Seq<WorkView> {
    Seq::new(pieces.len(), |i: int| WorkView::Source(pieces[i]))
}

/// The assignments of a list, each as a fetch from a parent.
pub open spec fn remote_work(assigned: Seq<CollectedPieceView>) -> Seq<WorkView> {
    Seq::new(assigned.len(), |i: int| WorkView::Remote(assigned[i]))
}

/// What a step leaves behind: the download, the store, and the actions for
/// the caller, in the order in which they are to be performed.
pub struct Step {
    pub session: SessionView,
    pub store: StorageView,
    pub actions: Seq<ActionView>,
}

impl SessionView {
    /// The announcement of `request`, with the ids of this download.
    pub open spec fn announce(self, request: RequestView) -> ActionView {
        ActionView::Send(
            AnnouncePeerRequestView {
                host_id: self.host_id,
                task_id: self.task_id,
                peer_id: self.peer_id,
                request,
            },
        )
    }

    /// The action that asks for the fetch `work`. A fetch from the origin
    /// is bounded by the download's timeout once the scheduler is given up,
    /// and by the piece timeout before.
    pub open spec fn fetch(self, work: WorkView) -> ActionView {
        match work {
            WorkView::Remote(c) => ActionView::FetchFromRemotePeer(c),
            WorkView::Source(p) => ActionView::FetchFromSource {
                piece: p,
                timeout: if self.phase == Phase::Source {
                    timeout_millis(self.download.timeout)
                } else {
                    None
                },
            },
        }
    }

    /// The actions for a piece that has arrived: its bytes are written at
    /// its offset, the scheduler is told if it is still listened to, and
    /// the caller is told.
    pub open spec fn arrived(
        self,
        record: PieceView,
        bytes: Seq<u8>,
        parent_id: Option<Seq<char>>,
        traffic_type: TrafficType,
    ) -> Seq<ActionView> {
        let message = piece_message(record, parent_id, traffic_type);
        let write = ActionView::Write(FileWriteView { offset: record.offset, data: bytes });
        let progress = ActionView::Progress {
            content_length: self.content_length,
            reported: Some(message),
        };
        if self.phase == Phase::Scheduler {
            seq![
                write,
                self.announce(RequestView::DownloadPieceFinishedRequest(message)),
                progress,
            ]
        } else {
            seq![write, progress]
        }
    }

    /// How a download goes on when a fetch has been dealt with. The next
    /// fetch is asked for if there is one. Else the download is done if
    /// every piece has arrived; it fails if the origin was the last resort;
    /// and it waits for the scheduler's next answer otherwise.
    pub open spec fn proceed(self) -> (SessionView, Seq<ActionView>) {
        if self.queue.len() > 0 {
            (self, seq![self.fetch(self.queue[0])])
        } else if self.finished.len() == self.interested.len() {
            (
                SessionView { phase: Phase::Done, ..self },
                if self.phase == Phase::Scheduler {
                    seq![ActionView::CloseScheduler]
                } else {
                    Seq::empty()
                },
            )
        } else if self.phase == Phase::Source {
            (
                SessionView { phase: Phase::Failed, ..self },
                seq![
                    ActionView::Fail {
                        code: Code::Internal,
                        message: "download from source error"@,
                    },
                ],
            )
        } else {
            (self, Seq::empty())
        }
    }

    /// How a download gives up the scheduler: the stream is closed, and
    /// every piece that has not arrived is fetched from the origin.
    pub open spec fn fall_back(self) -> (SessionView, Seq<ActionView>) {
        let next = SessionView {
            phase: Phase::Source,
            queue: source_work(remaining_pieces(self.finished, self.interested)),
            ..self
        };
        (next.proceed().0, seq![ActionView::CloseScheduler] + next.proceed().1)
    }
}

/// What the local drain leaves behind: the store, the actions that write
/// out the pieces read, and the records of these pieces.
pub struct Drained {
    pub store: StorageView,
    pub actions: Seq<ActionView>,
    pub finished: Seq<PieceView>,
}

/// The local drain: each interested piece, in order, is asked of the store
/// of this peer. A piece that the store has committed is served: its bytes
/// are written at the offset of the interested piece and the caller is told,
/// with the local peer as the source. Any other piece is passed over.
pub open spec fn drained(
    store: StorageView,
    task_id: Seq<char>,
    content_length: u64,
    interested: Seq<InterestedPiece>,
) -> Drained
    decreases interested.len(),
{
    if interested.len() == 0 {
        Drained { store, actions: Seq::empty(), finished: Seq::empty() }
    } else {
        let before = drained(store, task_id, content_length, interested.drop_last());
        let p = interested.last();
        let after = before.store.served(task_id, p.number);
        if before.store.upload_error(task_id, p.number) is None {
            let record = after.metadata.piece(task_id, p.number);
            Drained {
                store: after,
                actions: before.actions + seq![
                    ActionView::Write(
                        FileWriteView {
                            offset: p.offset,
                            data: before.store.piece_bytes(task_id, p.number),
                        },
                    ),
                    ActionView::Progress {
                        content_length,
                        reported: Some(piece_message(record, None, TrafficType::LocalPeer)),
                    },
                ],
                finished: before.finished.push(record),
            }
        } else {
            Drained { store: after, actions: before.actions, finished: before.finished }
        }
    }
}

/// A download that has just been asked for, with nothing interested,
/// finished or queued.
pub open spec fn new_session(
    task_id: Seq<char>,
    host_id: Seq<char>,
    peer_id: Seq<char>,
    content_length: u64,
    download: DownloadView,
    phase: Phase,
) -> SessionView {
    SessionView {
        task_id,
        host_id,
        peer_id,
        content_length,
        download,
        interested: Seq::empty(),
        finished: Seq::empty(),
        queue: Seq::empty(),
        phase,
    }
}

/// Why a download cannot start, if it cannot: on a timeout that is no span
/// of time, on an output file that could not be opened, on a request whose
/// pieces cannot be computed, and on a task that is not recorded.
pub open spec fn preflight_error(
    store: StorageView,
    task_id: Seq<char>,
    content_length: u64,
    download: DownloadView,
    file_opened: bool,
) -> Option<(Code, Seq<char>)> {
    if download.timeout == Timeout::Invalid {
        Some((Code::InvalidArgument, "invalid timeout"@))
    } else if !file_opened {
        Some((Code::Internal, "open file error"@))
    } else if interested_error(download.piece_length, Some(content_length), download.range)
        is Some {
        Some((Code::InvalidArgument, "calculate interested pieces error"@))
    } else if !store.metadata.has_task(task_id) {
        Some((Code::NotFound, "task not found"@))
    } else {
        None
    }
}

/// The start of a download. Where it cannot start, the one action reports
/// why and the download has failed. Else the pieces that the download needs
/// are computed and drained from the store of this peer; the pieces that
/// are left are the interested pieces of the download from then on.
pub open spec fn begun(
    store: StorageView,
    task_id: Seq<char>,
    host_id: Seq<char>,
    peer_id: Seq<char>,
    content_length: u64,
    download: DownloadView,
    file_opened: bool,
) -> Step {
    match preflight_error(store, task_id, content_length, download, file_opened) {
        Some((code, message)) => Step {
            session: new_session(
                task_id,
                host_id,
                peer_id,
                content_length,
                download,
                Phase::Failed,
            ),
            store,
            actions: seq![ActionView::Fail { code, message }],
        },
        None => {
            let all = interested_pieces(download.piece_length, content_length, download.range);
            let local = drained(store, task_id, content_length, all);
            Step {
                session: SessionView {
                    interested: remaining_pieces(local.finished, all),
                    ..new_session(
                        task_id,
                        host_id,
                        peer_id,
                        content_length,
                        download,
                        Phase::Local,
                    )
                },
                store: local.store,
                actions: local.actions,
            }
        },
    }
}

impl SessionView {
    /// How a download turns to the scheduler once the pieces of the local
    /// drain are written out. With no piece left the download is done. With
    /// headers that cannot be sent the scheduler is given up at once. Else
    /// the peer registers and announces that it starts.
    pub open spec fn with_scheduler(self) -> (SessionView, Seq<ActionView>) {
        if self.phase != Phase::Local {
            (self, Seq::empty())
        } else if self.interested.len() == 0 {
            (SessionView { phase: Phase::Done, ..self }, Seq::empty())
        } else if !headers_accepted(self.download.header) {
            self.fall_back()
        } else {
            (
                SessionView { phase: Phase::Scheduler, ..self },
                seq![
                    self.announce(RequestView::RegisterPeerRequest(self.download)),
                    self.announce(RequestView::DownloadPeerStartedRequest),
                ],
            )
        }
    }
}

/// What a parent sent for a piece, as a mathematical value.
pub struct RemotePieceView {
    pub offset: u64,
    pub digest: Seq<char>,
    pub content: Seq<u8>,
}

/// What came of a fetch from a parent: what the parent sent, or nothing
/// where the fetch failed.
pub open spec fn remote_answer(fetched: Result<RemotePiece, Error>) -> Option<RemotePieceView> {
    match fetched {
        Ok(p) => Some(RemotePieceView { offset: p.offset, digest: p.digest@, content: p.content@ }),
        Err(_) => None,
    }
}

/// What came of a fetch from the origin, as a mathematical value.
pub enum SourceAnswer {
    /// The origin answered.
    Answered { success: bool, status: Option<u16>, header: Option<Header>, body: Seq<u8> },
    /// The fetch failed. The failure may carry a status and headers.
    Unreached { failure: Option<(u16, HeaderView)> },
}

/// The status and the headers that an error carries, if it carries any.
pub open spec fn http_failure(e: Error) -> Option<(u16, HeaderView)> {
    match e {
        Error::HTTP(h) => Some((h.status_code, header_view(h.header@))),
        _ => None,
    }
}

/// What came of a fetch from the origin.
pub open spec fn source_answer(response: Result<GetResponse, Error>) -> SourceAnswer {
    match response {
        Ok(a) => SourceAnswer::Answered {
            success: a.success,
            status: a.http_status_code,
            header: a.http_header,
            body: a.body@,
        },
        Err(e) => SourceAnswer::Unreached { failure: http_failure(e) },
    }
}

/// The announcement that a piece could not be had from its parent. The
/// failure is temporary: the scheduler may offer the piece again.
pub open spec fn piece_failed_request(c: CollectedPieceView) -> RequestView {
    RequestView::DownloadPieceFailedRequest {
        piece_number: c.number,
        parent_id: c.parent.id,
        temporary: true,
    }
}

/// The announcement that a piece could not be had from the origin, with
/// the status, its standard reason phrase and the headers where the
/// failure carries them.
pub open spec fn back_to_source_failed_request(
    number: u32,
    failure: Option<(u16, HeaderView)>,
) -> RequestView {
    RequestView::DownloadPieceBackToSourceFailedRequest {
        piece_number: number,
        response: match failure {
            Some((status, header)) => Some(
                HttpResponseView {
                    header,
                    status_code: status as i32,
                    status: match canonical_reason(status) {
                        Some(reason) => reason,
                        None => Seq::empty(),
                    },
                },
            ),
            None => None,
        },
    }
}

/// The step that takes an answer of the scheduler. It applies to a download
/// that listens to the scheduler and has no fetch to make; on any other
/// nothing happens. An empty task ends the download. A normal task assigns
/// the pieces that the store has not committed to the parents named, and
/// the first fetch is asked for. A call back to the source queues every
/// piece that has not arrived for the origin. An answer that is not
/// recognized makes the download give up the scheduler.
pub open spec fn scheduler_step(
    s: SessionView,
    store: StorageView,
    response: AnnouncePeerResponseView,
) -> Step {
    if !(s.phase == Phase::Scheduler && s.queue.len() == 0) {
        Step { session: s, store, actions: Seq::empty() }
    } else {
        match response {
            AnnouncePeerResponseView::EmptyTaskResponse => Step {
                session: SessionView { phase: Phase::Done, ..s },
                store,
                actions: seq![ActionView::CloseScheduler],
            },
            AnnouncePeerResponseView::NormalTaskResponse(parents) => {
                let next = SessionView {
                    queue: remote_work(collected(store.metadata, s.task_id, s.interested, parents)),
                    ..s
                };
                Step { session: next.proceed().0, store, actions: next.proceed().1 }
            },
            AnnouncePeerResponseView::NeedBackToSourceResponse => {
                let next = SessionView {
                    queue: source_work(remaining_pieces(s.finished, s.interested)),
                    ..s
                };
                Step { session: next.proceed().0, store, actions: next.proceed().1 }
            },
            AnnouncePeerResponseView::Unrecognized => Step {
                session: s.fall_back().0,
                store,
                actions: s.fall_back().1,
            },
        }
    }
}

/// The step that takes what came of the fetch from a parent. It applies to
/// a download that listens to the scheduler and whose next fetch is one
/// from a parent; on any other nothing happens. Where the fetch failed or
/// the store refuses what was sent, the scheduler is told that the piece
/// failed. Else the piece has arrived. Either way the download proceeds.
pub open spec fn remote_step(
    s: SessionView,
    store: StorageView,
    answer: Option<RemotePieceView>,
) -> Step {
    if s.phase == Phase::Scheduler && s.queue.len() > 0 {
        match s.queue[0] {
            WorkView::Remote(c) => {
                let rest = SessionView { queue: s.queue.skip(1), ..s };
                let after = match answer {
                    Some(p) => remote_fetched(
                        store,
                        s.task_id,
                        c.number,
                        c.parent.id,
                        p.offset,
                        p.digest,
                        p.content,
                    ),
                    None => store,
                };
                let accepted = match answer {
                    Some(p) => remote_fetch_error(
                        store,
                        s.task_id,
                        c.number,
                        c.parent.id,
                        p.offset,
                        p.digest,
                        p.content,
                    ) is None,
                    None => false,
                };
                if accepted {
                    let record = after.metadata.piece(s.task_id, c.number);
                    let got = SessionView { finished: rest.finished.push(record), ..rest };
                    Step {
                        session: got.proceed().0,
                        store: after,
                        actions: s.arrived(
                            record,
                            after.piece_bytes(s.task_id, c.number),
                            Some(c.parent.id),
                            TrafficType::RemotePeer,
                        ) + got.proceed().1,
                    }
                } else {
                    Step {
                        session: rest.proceed().0,
                        store: after,
                        actions: seq![s.announce(piece_failed_request(c))] + rest.proceed().1,
                    }
                }
            },
            WorkView::Source(_) => Step { session: s, store, actions: Seq::empty() },
        }
    } else {
        Step { session: s, store, actions: Seq::empty() }
    }
}

/// The store after the fetch of a piece from the origin.
pub open spec fn source_store(
    store: StorageView,
    task_id: Seq<char>,
    p: InterestedPiece,
    answer: SourceAnswer,
) -> StorageView {
    match answer {
        SourceAnswer::Answered { success, body, .. } => source_fetched(
            store,
            task_id,
            p.number,
            p.offset,
            p.length,
            success,
            body,
        ),
        SourceAnswer::Unreached { .. } => source_unreached(store, task_id, p.number),
    }
}

/// True when the fetch of a piece from the origin has brought the piece
/// into the store.
pub open spec fn source_accepted(
    store: StorageView,
    task_id: Seq<char>,
    p: InterestedPiece,
    answer: SourceAnswer,
) -> bool {
    match answer {
        SourceAnswer::Answered { success, body, .. } => source_fetch_error(
            store,
            task_id,
            p.number,
            p.offset,
            p.length,
            success,
            body,
        ) is None,
        SourceAnswer::Unreached { .. } => false,
    }
}

/// The status and the headers that the failure of a fetch from the origin
/// carries: those of an answer that is no success, and those that the error
/// of a failed fetch carries.
pub open spec fn source_failure(
    store: StorageView,
    task_id: Seq<char>,
    answer: SourceAnswer,
) -> Option<(u16, HeaderView)> {
    if !store.metadata.has_task(task_id) {
        None
    } else {
        match answer {
            SourceAnswer::Answered { success, status, header, .. } => if success {
                None
            } else {
                Some((answered_status(status), answered_header(header)->0))
            },
            SourceAnswer::Unreached { failure } => failure,
        }
    }
}

/// The step that takes what came of the fetch from the origin. It applies
/// to a download whose next fetch is one from the origin; on any other
/// nothing happens. Where the piece is in the store now, it has arrived and
/// the download proceeds. Else, with the scheduler still listened to, the
/// scheduler is told that the piece failed and is given up; and with the
/// origin as the last resort the download fails.
pub open spec fn source_step(s: SessionView, store: StorageView, answer: SourceAnswer) -> Step {
    if (s.phase == Phase::Scheduler || s.phase == Phase::Source) && s.queue.len() > 0 {
        match s.queue[0] {
            WorkView::Source(p) => {
                let rest = SessionView { queue: s.queue.skip(1), ..s };
                let after = source_store(store, s.task_id, p, answer);
                if source_accepted(store, s.task_id, p, answer) {
                    let record = after.metadata.piece(s.task_id, p.number);
                    let got = SessionView { finished: rest.finished.push(record), ..rest };
                    Step {
                        session: got.proceed().0,
                        store: after,
                        actions: s.arrived(
                            record,
                            after.piece_bytes(s.task_id, p.number),
                            None,
                            TrafficType::BackToSource,
                        ) + got.proceed().1,
                    }
                } else if s.phase == Phase::Source {
                    Step {
                        session: SessionView { phase: Phase::Failed, ..rest },
                        store: after,
                        actions: seq![
                            ActionView::Fail {
                                code: Code::Internal,
                                message: "download from source error"@,
                            },
                        ],
                    }
                } else {
                    Step {
                        session: rest.fall_back().0,
                        store: after,
                        actions: seq![
                            s.announce(
                                back_to_source_failed_request(
                                    p.number,
                                    source_failure(store, s.task_id, answer),
                                ),
                            ),
                        ] + rest.fall_back().1,
                    }
                }
            },
            WorkView::Remote(_) => Step { session: s, store, actions: Seq::empty() },
        }
    } else {
        Step { session: s, store, actions: Seq::empty() }
    }
}

impl SessionView {
    /// How a download takes the end of the scheduler's stream: it gives up
    /// the scheduler if it listens to it, and nothing happens otherwise.
    pub open spec fn scheduler_closed(self) -> (SessionView, Seq<ActionView>) {
        if self.phase == Phase::Scheduler {
            self.fall_back()
        } else {
            (self, Seq::empty())
        }
    }

    /// How a download takes the failure of an action: of a write into the
    /// output file, of an event of progress, or of an announcement. While
    /// the scheduler is listened to, it is given up. Otherwise a download
    /// that has not ended fails, and names the source that it was reading.
    pub open spec fn action_failed(self) -> (SessionView, Seq<ActionView>) {
        if self.phase == Phase::Scheduler {
            self.fall_back()
        } else if self.phase == Phase::Local {
            (
                SessionView { phase: Phase::Failed, ..self },
                seq![
                    ActionView::Fail {
                        code: Code::Internal,
                        message: "download from local peer error"@,
                    },
                ],
            )
        } else if self.phase == Phase::Source {
            (
                SessionView { phase: Phase::Failed, ..self },
                seq![
                    ActionView::Fail {
                        code: Code::Internal,
                        message: "download from source error"@,
                    },
                ],
            )
        } else {
            (self, Seq::empty())
        }
    }
}

/// The number of the piece that a fetch is for.
pub open spec fn work_number(work: WorkView) -> u32 {
    match work {
        WorkView::Remote(c) => c.number,
        WorkView::Source(p) => p.number,
    }
}

impl SessionView {
    /// True when the download is interested in the piece of this number.
    pub open spec fn is_interested(self, number: u32) -> bool {
        exists|k: int|
            0 <= k < self.interested.len() && (#[trigger] self.interested[k]).number == number
    }

    /// No two interested pieces have one number.
    pub open spec fn interested_distinct(self) -> bool {
        forall|i: int, j: int|
            0 <= i < j < self.interested.len() ==> (#[trigger] self.interested[i]).number != (
            #[trigger] self.interested[j]).number
    }

    /// No piece has arrived twice, and every piece that has arrived is an
    /// interested piece that the store has committed.
    pub open spec fn finished_sound(self, store: StorageView) -> bool {
        &&& forall|i: int, j: int|
            0 <= i < j < self.finished.len() ==> (#[trigger] self.finished[i]).number != (
            #[trigger] self.finished[j]).number
        &&& forall|i: int|
            0 <= i < self.finished.len() ==> self.is_interested(
                (#[trigger] self.finished[i]).number,
            ) && store.metadata.committed(self.task_id, self.finished[i].number)
    }

    /// No piece is queued twice, and every piece that is queued is an
    /// interested piece that has not arrived.
    pub open spec fn queue_sound(self) -> bool {
        &&& forall|i: int, j: int|
            0 <= i < j < self.queue.len() ==> work_number(#[trigger] self.queue[i])
                != work_number(#[trigger] self.queue[j])
        &&& forall|i: int|
            0 <= i < self.queue.len() ==> self.is_interested(
                work_number(#[trigger] self.queue[i]),
            ) && !is_finished_number(
                self.finished,
                work_number(self.queue[i]),
            )
    }

    /// What holds of a download at every step: the interested pieces are
    /// distinct; the pieces that have arrived are distinct interested pieces
    /// that the store has committed; and the pieces that are queued are
    /// distinct interested pieces that have not arrived.
    pub open spec fn inv(self, store: StorageView) -> bool {
        &&& self.interested_distinct()
        &&& self.finished_sound(store)
        &&& self.queue_sound()
    }

    /// A download in which as many pieces have arrived as it is interested
    /// in has every interested piece: each has arrived, and the store has
    /// committed it.
    pub proof fn lemma_done_is_complete(self, store: StorageView)
        requires
            self.inv(store),
            self.finished.len() == self.interested.len(),
        ensures
            forall|k: int|
                0 <= k < self.interested.len() ==> is_finished_number(
                    self.finished,
                    (#[trigger] self.interested[k]).number,
                ) && store.metadata.committed(self.task_id, self.interested[k].number),
    {
        let arrived = self.finished.map_values(|p: PieceView| p.number);
        let wanted = self.interested.map_values(|p: InterestedPiece| p.number);
        assert(arrived.no_duplicates()) by {
            assert forall|i: int, j: int|
                0 <= i < arrived.len() && 0 <= j < arrived.len() && i != j implies arrived[i]
                != arrived[j] by {
                if i < j {
                    assert(self.finished[i].number != self.finished[j].number);
                } else {
                    assert(self.finished[j].number != self.finished[i].number);
                }
            }
        }
        assert(wanted.no_duplicates()) by {
            assert forall|i: int, j: int|
                0 <= i < wanted.len() && 0 <= j < wanted.len() && i != j implies wanted[i]
                != wanted[j] by {
                if i < j {
                    assert(self.interested[i].number != self.interested[j].number);
                } else {
                    assert(self.interested[j].number != self.interested[i].number);
                }
            }
        }
        arrived.unique_seq_to_set();
        wanted.unique_seq_to_set();
        vstd::seq_lib::seq_to_set_is_finite(arrived);
        vstd::seq_lib::seq_to_set_is_finite(wanted);
        assert(arrived.to_set().subset_of(wanted.to_set())) by {
            assert forall|n: u32| arrived.to_set().contains(n) implies wanted.to_set().contains(
                n,
            ) by {
                let i = choose|i: int| 0 <= i < arrived.len() && arrived[i] == n;
                assert(self.is_interested(self.finished[i].number));
                let k = choose|k: int|
                    0 <= k < self.interested.len() && (#[trigger] self.interested[k]).number == n;
                assert(wanted[k] == n);
            }
        }
        vstd::set_lib::lemma_subset_equality(arrived.to_set(), wanted.to_set());
        assert forall|k: int| 0 <= k < self.interested.len() implies is_finished_number(
            self.finished,
            (#[trigger] self.interested[k]).number,
        ) && store.metadata.committed(self.task_id, self.interested[k].number) by {
            let n = self.interested[k].number;
            assert(wanted[k] == n);
            assert(wanted.to_set().contains(n));
            assert(arrived.to_set().contains(n));
            let i = choose|i: int| 0 <= i < arrived.len() && arrived[i] == n;
            assert(self.finished[i].number == n);
        }
    }

    /// What holds of a download does not depend on where it stands.
    pub proof fn lemma_phase_inv(self, store: StorageView, phase: Phase)
        requires
            self.inv(store),
        ensures
            (SessionView { phase, ..self }).inv(store),
    {
        let next = SessionView { phase, ..self };
        assert(next.interested == self.interested);
        assert forall|n: u32| next.is_interested(n) == self.is_interested(n) by {}
    }

    /// Going on keeps what holds of a download: it changes at most where
    /// the download stands.
    pub proof fn lemma_proceed_inv(self, store: StorageView)
        requires
            self.inv(store),
        ensures
            self.proceed().0.inv(store),
    {
        let next = self.proceed().0;
        assert(next.interested == self.interested && next.finished == self.finished
            && next.queue == self.queue && next.task_id == self.task_id);
        assert(next.interested == self.interested);
        assert forall|n: u32| next.is_interested(n) == self.is_interested(n) by {}
    }

    /// Queueing for the origin every interested piece that has not arrived
    /// keeps what holds of a download.
    pub proof fn lemma_source_queue_inv(self, store: StorageView, phase: Phase)
        requires
            self.inv(store),
        ensures
            (SessionView {
                phase,
                queue: source_work(remaining_pieces(self.finished, self.interested)),
                ..self
            }).inv(store),
    {
        let pred = |p: InterestedPiece|
            !is_finished_number(self.finished, p.number);
        let left = remaining_pieces(self.finished, self.interested);
        let next = SessionView { phase, queue: source_work(left), ..self };
        let map = crate::seq_lemmas::lemma_filter_positions(self.interested, pred);
        assert(next.interested == self.interested);
        assert forall|n: u32| next.is_interested(n) == self.is_interested(n) by {}
        assert forall|i: int, j: int| 0 <= i < j < next.queue.len() implies work_number(
            #[trigger] next.queue[i],
        ) != work_number(#[trigger] next.queue[j]) by {
            assert(map[i] < map[j]);
            assert(self.interested[map[i]].number != self.interested[map[j]].number);
        }
        assert forall|i: int| 0 <= i < next.queue.len() implies next.is_interested(
            work_number(#[trigger] next.queue[i]),
        ) && !is_finished_number(
            next.finished,
            work_number(next.queue[i]),
        ) by {
            assert(self.interested[map[i]].number == work_number(next.queue[i]));
            assert(pred(self.interested[map[i]]));
        }
    }

    /// Giving up the scheduler keeps what holds of a download.
    pub proof fn lemma_fall_back_inv(self, store: StorageView)
        requires
            self.inv(store),
        ensures
            self.fall_back().0.inv(store),
    {
        self.lemma_source_queue_inv(store, Phase::Source);
        let next = SessionView {
            phase: Phase::Source,
            queue: source_work(remaining_pieces(self.finished, self.interested)),
            ..self
        };
        next.lemma_proceed_inv(store);
    }

    /// Queueing for the parents named every interested piece that the store
    /// has not committed keeps what holds of a download.
    pub proof fn lemma_remote_queue_inv(
        self,
        store: StorageView,
        parents: Seq<CandidateParentView>,
    )
        requires
            self.inv(store),
        ensures
            (SessionView {
                queue: remote_work(collected(store.metadata, self.task_id, self.interested, parents)),
                ..self
            }).inv(store),
    {
        let m = store.metadata;
        let pred = |p: InterestedPiece| !m.committed(self.task_id, p.number);
        let assigned = collected(m, self.task_id, self.interested, parents);
        let next = SessionView { queue: remote_work(assigned), ..self };
        let map = crate::seq_lemmas::lemma_filter_positions(self.interested, pred);
        assert(next.interested == self.interested);
        assert forall|n: u32| next.is_interested(n) == self.is_interested(n) by {}
        assert forall|i: int, j: int| 0 <= i < j < next.queue.len() implies work_number(
            #[trigger] next.queue[i],
        ) != work_number(#[trigger] next.queue[j]) by {
            assert(map[i] < map[j]);
            assert(self.interested[map[i]].number != self.interested[map[j]].number);
        }
        assert forall|i: int| 0 <= i < next.queue.len() implies next.is_interested(
            work_number(#[trigger] next.queue[i]),
        ) && !is_finished_number(
            next.finished,
            work_number(next.queue[i]),
        ) by {
            let n = work_number(next.queue[i]);
            assert(self.interested[map[i]].number == n);
            assert(pred(self.interested[map[i]]));
            if is_finished_number(self.finished, n) {
                let j = choose|j: int|
                    0 <= j < self.finished.len() && (#[trigger] self.finished[j]).number == n;
                assert(m.committed(self.task_id, self.finished[j].number));
            }
        }
    }

    /// Dealing with the next fetch keeps what holds of a download, whether
    /// the piece has arrived or not, as long as the store takes no commit
    /// back and has committed the piece if it has arrived.
    pub proof fn lemma_fetched_inv(
        self,
        store: StorageView,
        after: StorageView,
        arrived: Option<PieceView>,
    )
        requires
            self.inv(store),
            self.queue.len() > 0,
            forall|id: Seq<char>, n: u32|
                store.metadata.committed(id, n) ==> #[trigger] after.metadata.committed(id, n),
            arrived matches Some(record) ==> record.number == work_number(self.queue[0])
                && after.metadata.committed(self.task_id, record.number),
        ensures
            (SessionView {
                queue: self.queue.skip(1),
                finished: match arrived {
                    Some(record) => self.finished.push(record),
                    None => self.finished,
                },
                ..self
            }).inv(after),
    {
        let next = SessionView {
            queue: self.queue.skip(1),
            finished: match arrived {
                Some(record) => self.finished.push(record),
                None => self.finished,
            },
            ..self
        };
        let n = work_number(self.queue[0]);
        assert(next.interested == self.interested);
        assert forall|x: u32| next.is_interested(x) == self.is_interested(x) by {}
        assert(self.is_interested(n));
        assert(!is_finished_number(self.finished, n));
        assert forall|i: int, j: int| 0 <= i < j < next.finished.len() implies (
        #[trigger] next.finished[i]).number != (#[trigger] next.finished[j]).number by {
            if j < self.finished.len() {
                assert(self.finished[i].number != self.finished[j].number);
            } else {
                assert(self.finished[i].number != n);
            }
        }
        assert forall|i: int| 0 <= i < next.finished.len() implies next.is_interested(
            (#[trigger] next.finished[i]).number,
        ) && after.metadata.committed(next.task_id, next.finished[i].number) by {
            if i < self.finished.len() {
                assert(self.is_interested(self.finished[i].number));
                assert(store.metadata.committed(self.task_id, self.finished[i].number));
            }
        }
        assert forall|i: int, j: int| 0 <= i < j < next.queue.len() implies work_number(
            #[trigger] next.queue[i],
        ) != work_number(#[trigger] next.queue[j]) by {
            assert(work_number(self.queue[i + 1]) != work_number(self.queue[j + 1]));
        }
        assert forall|i: int| 0 <= i < next.queue.len() implies next.is_interested(
            work_number(#[trigger] next.queue[i]),
        ) && !is_finished_number(
            next.finished,
            work_number(next.queue[i]),
        ) by {
            let x = work_number(next.queue[i]);
            assert(next.queue[i] == self.queue[i + 1]);
            assert(self.is_interested(work_number(self.queue[i + 1])));
            assert(!is_finished_number(self.finished, x));
            assert(work_number(self.queue[0]) != work_number(self.queue[i + 1]));
            if is_finished_number(next.finished, x) {
                let j = choose|j: int|
                    0 <= j < next.finished.len() && (#[trigger] next.finished[j]).number == x;
                if j < self.finished.len() {
                    assert(self.finished[j].number == x);
                }
            }
        }
    }
}

/// The actions of a list as mathematical values.
pub open spec fn action_views(v: Seq<Action>) -> Seq<ActionView> {
    Seq::new(v.len(), |i: int| v[i]@)
}

/// The fetches of a list as mathematical values.
pub open spec fn work_views(v: Seq<Work>) -> Seq<WorkView> {
    Seq::new(v.len(), |i: int| v[i]@)
}

} // verus!
