//! The task orchestrator: the decisions that bring a task into a file, from
//! the local store, from the peers that the scheduler names, and from the
//! origin.
//!
//! The orchestrator does no input or output of its own. A download is a
//! `Session`. Each step takes what has happened (the download was asked
//! for, the scheduler answered, a fetch ended) and returns the actions to
//! perform: bytes to write into the output file, events of progress,
//! announcements to the scheduler, and the next fetch.

pub mod output;
pub mod piece;
pub mod steps;

use crate::backend::http::{canonical_reason, check_headers, headers_accepted, status_reason, HTTP};
use crate::backend::{
    clone_header,
    header_view,
    GetResponse,
    HeadRequest,
    HeadResponse,
    Header,
    HeaderView,
};
use crate::error::{Error, ErrorKind};
use crate::scheduler::{
    piece_message,
    AnnouncePeerRequest,
    AnnouncePeerRequestView,
    AnnouncePeerResponse,
    AnnouncePeerResponseView,
    Code,
    Download,
    DownloadTaskResponse,
    DownloadView,
    HttpResponse,
    HttpResponseView,
    PieceMessage,
    PieceMessageView,
    Request,
    RequestView,
    Status,
    Timeout,
};
use crate::storage::metadata;
use crate::storage::metadata::{opt_text, piece_views, PieceView, TrafficType};
use crate::storage::{Storage, StorageView};
use crate::task::piece::{
    answered_header,
    answered_status,
    collected,
    collected_views,
    interested_error,
    interested_pieces,
    remaining_pieces,
    remote_fetch_error,
    remote_fetched,
    source_fetch_error,
    source_fetched,
    source_unreached,
    CollectedPiece,
    CollectedPieceView,
    FileWrite,
    FileWriteView,
    InterestedPiece,
    RemotePiece,
};
use crate::task::steps::{
    ActionView,
    Drained,
    RemotePieceView,
    SessionView,
    SourceAnswer,
    Step,
    WorkView,
    action_views,
    back_to_source_failed_request,
    begun,
    drained,
    http_failure,
    new_session,
    piece_failed_request,
    preflight_error,
    remote_answer,
    remote_step,
    remote_work,
    scheduler_step,
    source_accepted,
    source_answer,
    source_failure,
    source_step,
    source_store,
    source_work,
    timeout_millis,
    work_number,
    work_views,
};
use crate::text::{eq_ignore_case, parse_decimal, parse_u64, str_eq_ignore_case};
use std::collections::VecDeque;
use vstd::prelude::*;
use vstd::string::*;

verus! {

/// The name of the header that carries the length of the content.
pub open spec fn content_length_name() -> Seq<char> {
    seq!['c', 'o', 'n', 't', 'e', 'n', 't', '-', 'l', 'e', 'n', 'g', 't', 'h']
}

/// The value of the first header of the given name, without regard to the
/// case of ASCII letters in the name.
pub open spec fn header_value(header: HeaderView, name: Seq<char>) -> Option<Seq<char>>
    decreases header.len(),
{
    if header.len() == 0 {
        None
    } else if eq_ignore_case(header[0].0, name) {
        Some(header[0].1)
    } else {
        header_value(header.skip(1), name)
    }
}

/// The content length that the headers of an answer report: the value of
/// the content length header, read as an unsigned decimal number.
pub open spec fn reported_content_length(header: Option<HeaderView>) -> Option<u64> {
    match header {
        Some(h) => match header_value(h, content_length_name()) {
            Some(v) => parse_decimal(v),
            None => None,
        },
        None => None,
    }
}

/// Reads the content length that the headers report.
pub fn read_content_length(header: &Header) -> (r: Option<u64>)
    ensures
        r == reported_content_length(Some(header_view(header@))),
{
    let ghost all = header_view(header@);
    let mut i: usize = 0;
    proof {
        reveal_strlit("content-length");
        assert("content-length"@ =~= content_length_name());
        assert(all.skip(0) =~= all);
    }
    while i < header.len()
        invariant
            i <= header@.len(),
            all == header_view(header@),
            "content-length"@ == content_length_name(),
            header_value(all, content_length_name()) == header_value(
                all.skip(i as int),
                content_length_name(),
            ),
        decreases header@.len() - i,
    {
        proof {
            assert(all.skip(i as int)[0] == all[i as int]);
            assert(all.skip(i as int).skip(1) =~= all.skip(i + 1));
        }
        if str_eq_ignore_case(header[i].0.as_str(), "content-length") {
            return parse_u64(header[i].1.as_str());
        }
        i = i + 1;
    }
    None
}

/// Where a download stands.
#[derive(Clone, Copy, Debug, PartialEq, Eq, Structural)]
pub enum Phase {
    /// The pieces that the store of this peer holds are written out.
    Local,
    /// Pieces are fetched as the scheduler says.
    Scheduler,
    /// The scheduler is given up: pieces are fetched from the origin.
    Source,
    /// The download has ended well.
    Done,
    /// The download has ended with a terminal error.
    Failed,
}

/// A fetch that a download has yet to make.
#[derive(Debug)]
pub enum Work {
    /// A piece to fetch from a parent.
    Remote(CollectedPiece),
    /// A piece to fetch from the origin.
    Source(InterestedPiece),
}

impl View for Work {
    type V = WorkView;

    open spec fn view(&self) -> WorkView {
        match self {
            Work::Remote(c) => WorkView::Remote(c@),
            Work::Source(p) => WorkView::Source(*p),
        }
    }
}

/// What a step of a download asks its caller to do.
#[derive(Debug)]
pub enum Action {
    /// Send this announcement to the scheduler.
    Send(AnnouncePeerRequest),
    /// Report this event of progress.
    Progress(DownloadTaskResponse),
    /// Report this terminal error.
    Fail(Status),
    /// Write these bytes into the output file.
    Write(FileWrite),
    /// Fetch this piece from this parent and hand over what came of it.
    FetchFromRemotePeer(CollectedPiece),
    /// Fetch this piece from the origin, within this many milliseconds if
    /// a bound is given, and hand over what came of it.
    FetchFromSource { piece: InterestedPiece, timeout: Option<u64> },
    /// Close the stream to the scheduler.
    CloseScheduler,
}

impl View for Action {
    type V = ActionView;

    open spec fn view(&self) -> ActionView {
        match self {
            Action::Send(r) => ActionView::Send(r@),
            Action::Progress(p) => ActionView::Progress {
                content_length: p.content_length,
                reported: match p.piece {
                    Some(m) => Some(m@),
                    None => None,
                },
            },
            Action::Fail(s) => ActionView::Fail { code: s.code, message: s.message@ },
            Action::Write(w) => ActionView::Write(w@),
            Action::FetchFromRemotePeer(c) => ActionView::FetchFromRemotePeer(c@),
            Action::FetchFromSource { piece, timeout } => ActionView::FetchFromSource {
                piece: *piece,
                timeout: *timeout,
            },
            Action::CloseScheduler => ActionView::CloseScheduler,
        }
    }
}

/// Appends an action to a list.
pub fn push_action(actions: &mut Vec<Action>, action: Action)
    ensures
        action_views(final(actions)@) == action_views(old(actions)@).push(action@),
{
    let ghost before = action_views(actions@);
    actions.push(action);
    assert(action_views(actions@) =~= before.push(action@));
}

/// One download: what was asked for, which pieces it still needs, which
/// have arrived, and the fetches that are yet to be made.
#[derive(Debug)]
pub struct Session {
    task_id: String,
    host_id: String,
    peer_id: String,
    content_length: u64,
    download: Download,
    interested: Vec<InterestedPiece>,
    finished: Vec<metadata::Piece>,
    queue: VecDeque<Work>,
    phase: Phase,
}

impl View for Session {
    type V = SessionView;

    closed spec fn view(&self) -> SessionView {
        SessionView {
            task_id: self.task_id@,
            host_id: self.host_id@,
            peer_id: self.peer_id@,
            content_length: self.content_length,
            download: self.download@,
            interested: self.interested@,
            finished: piece_views(self.finished@),
            queue: work_views(self.queue@),
            phase: self.phase,
        }
    }
}

impl Session {
    /// The task that is downloaded.
    pub fn task_id(&self) -> (r: &str)
        ensures
            r@ == self@.task_id,
    {
        self.task_id.as_str()
    }

    /// Where the download stands.
    pub fn phase(&self) -> (r: Phase)
        ensures
            r == self@.phase,
    {
        self.phase
    }

    /// The length of the content.
    pub fn content_length(&self) -> (r: u64)
        ensures
            r == self@.content_length,
    {
        self.content_length
    }

    /// What was asked for.
    pub fn download(&self) -> (r: &Download)
        ensures
            r@ == self@.download,
    {
        &self.download
    }

    /// The pieces that were left to fetch when the scheduler was first
    /// asked.
    pub fn interested(&self) -> (r: &Vec<InterestedPiece>)
        ensures
            r@ == self@.interested,
    {
        &self.interested
    }

    /// The records of the pieces that have arrived since, in the order of
    /// their arrival.
    pub fn finished(&self) -> (r: &Vec<metadata::Piece>)
        ensures
            piece_views(r@) == self@.finished,
    {
        &self.finished
    }

    /// The number of fetches that are yet to be made.
    pub fn queued(&self) -> (r: usize)
        ensures
            r == self@.queue.len(),
    {
        self.queue.len()
    }

    fn announce(&self, request: Request) -> (r: Action)
        ensures
            r@ == self@.announce(request@),
    {
        Action::Send(
            AnnouncePeerRequest {
                host_id: self.host_id.clone(),
                task_id: self.task_id.clone(),
                peer_id: self.peer_id.clone(),
                request,
            },
        )
    }

    fn fetch(&self, work: &Work) -> (r: Action)
        ensures
            r@ == self@.fetch(work@),
    {
        match work {
            Work::Remote(c) => Action::FetchFromRemotePeer(
                CollectedPiece { number: c.number, parent: c.parent.clone() },
            ),
            Work::Source(p) => Action::FetchFromSource {
                piece: *p,
                timeout: if self.phase == Phase::Source {
                    match self.download.timeout {
                        Timeout::Millis(t) => Some(t),
                        _ => None,
                    }
                } else {
                    None
                },
            },
        }
    }

    fn proceed(&mut self, actions: &mut Vec<Action>)
        ensures
            final(self)@ == old(self)@.proceed().0,
            action_views(final(actions)@) == action_views(old(actions)@) + old(
                self,
            )@.proceed().1,
    {
        let ghost before = action_views(actions@);
        if self.queue.len() > 0 {
            let next = self.fetch(&self.queue[0]);
            push_action(actions, next);
            assert(action_views(actions@) =~= before + self@.proceed().1);
        } else if self.finished.len() == self.interested.len() {
            if self.phase == Phase::Scheduler {
                push_action(actions, Action::CloseScheduler);
            }
            assert(action_views(actions@) =~= before + self@.proceed().1);
            self.phase = Phase::Done;
        } else if self.phase == Phase::Source {
            push_action(
                actions,
                Action::Fail(
                    Status {
                        code: Code::Internal,
                        message: String::from_str("download from source error"),
                    },
                ),
            );
            assert(action_views(actions@) =~= before + self@.proceed().1);
            self.phase = Phase::Failed;
        } else {
            assert(action_views(actions@) =~= before + self@.proceed().1);
        }
    }

    fn queue_source(&mut self, left: &Vec<InterestedPiece>)
        ensures
            final(self)@ == (SessionView { queue: source_work(left@), ..old(self)@ }),
    {
        let ghost start = self@;
        self.queue = VecDeque::new();
        let mut i: usize = 0;
        while i < left.len()
            invariant
                i <= left@.len(),
                self.queue@.len() == i,
                forall|k: int|
                    0 <= k < i ==> (#[trigger] self.queue@[k])@ == WorkView::Source(left@[k]),
                self@ == (SessionView { queue: work_views(self.queue@), ..start }),
            decreases left@.len() - i,
        {
            self.queue.push_back(Work::Source(left[i]));
            i = i + 1;
        }
        assert(work_views(self.queue@) =~= source_work(left@));
    }

    fn queue_remote(&mut self, assigned: Vec<CollectedPiece>)
        ensures
            final(self)@ == (SessionView {
                queue: remote_work(collected_views(assigned@)),
                ..old(self)@
            }),
    {
        let ghost start = self@;
        self.queue = VecDeque::new();
        let mut i: usize = 0;
        while i < assigned.len()
            invariant
                i <= assigned@.len(),
                self.queue@.len() == i,
                forall|k: int|
                    0 <= k < i ==> (#[trigger] self.queue@[k])@ == WorkView::Remote(
                        assigned@[k]@,
                    ),
                self@ == (SessionView { queue: work_views(self.queue@), ..start }),
            decreases assigned@.len() - i,
        {
            let c = &assigned[i];
            self.queue.push_back(
                Work::Remote(CollectedPiece { number: c.number, parent: c.parent.clone() }),
            );
            i = i + 1;
        }
        assert(work_views(self.queue@) =~= remote_work(collected_views(assigned@)));
    }

    fn fall_back(&mut self, piece: &piece::Piece, actions: &mut Vec<Action>)
        ensures
            final(self)@ == old(self)@.fall_back().0,
            action_views(final(actions)@) == action_views(old(actions)@) + old(
                self,
            )@.fall_back().1,
    {
        let ghost before = action_views(actions@);
        let ghost start = self@;
        push_action(actions, Action::CloseScheduler);
        let left = piece.remove_finished_from_interested(
            &self.finished,
            copy_pieces(&self.interested),
        );
        self.phase = Phase::Source;
        self.queue_source(&left);
        self.proceed(actions);
        assert(action_views(actions@) =~= before + start.fall_back().1);
    }
}

/// Copies a list of pieces.
fn copy_pieces(pieces: &Vec<InterestedPiece>) -> (r: Vec<InterestedPiece>)
    ensures
        r@ == pieces@,
{
    let mut out: Vec<InterestedPiece> = Vec::new();
    let mut i: usize = 0;
    while i < pieces.len()
        invariant
            i <= pieces@.len(),
            out@ == pieces@.take(i as int),
        decreases pieces@.len() - i,
    {
        out.push(pieces[i]);
        assert(out@ =~= pieces@.take(i + 1));
        i = i + 1;
    }
    assert(pieces@.take(i as int) =~= pieces@);
    out
}

/// The task manager: the store of this peer and the backend that reaches
/// the origin.
#[derive(Debug)]
pub struct Task {
    storage: Storage,
    http_client: HTTP,
    /// The piece manager.
    pub piece: piece::Piece,
}

impl Task {
    /// The store that the manager holds, as a mathematical value.
    pub closed spec fn store(&self) -> StorageView {
        self.storage@
    }

    /// The scheme of the backend that the manager holds.
    pub closed spec fn scheme(&self) -> Seq<char> {
        self.http_client.spec_scheme()
    }

    /// The invariant that every operation keeps: the store is well formed.
    pub open spec fn wf(&self) -> bool {
        self.store().wf()
    }

    /// A task manager over `storage`.
    pub fn new(storage: Storage, http_client: HTTP) -> (r: Task)
        requires
            storage.wf(),
        ensures
            r.wf(),
            r.store() == storage@,
            r.scheme() == http_client.spec_scheme(),
    {
        Task { storage, http_client, piece: piece::Piece::new() }
    }

    /// The store that the manager holds.
    pub fn storage(&self) -> (r: &Storage)
        ensures
            r@ == self.store(),
    {
        &self.storage
    }

    /// The backend that reaches the origin.
    pub fn http_client(&self) -> (r: &HTTP)
        ensures
            r.spec_scheme() == self.scheme(),
    {
        &self.http_client
    }

    /// Gives up the manager for the store that it holds.
    pub fn into_storage(self) -> (r: Storage)
        ensures
            r@ == self.store(),
    {
        self.storage
    }

    /// Sets the clock of the store, in milliseconds.
    pub fn set_time(&mut self, now: u64)
        ensures
            final(self).store() == (StorageView { now, ..old(self).store() }),
    {
        self.storage.set_time(now);
    }

    /// The record of the task `task_id`, if there is one.
    pub fn get(&self, task_id: &str) -> (r: Result<Option<metadata::Task>, Error>)
        requires
            self.wf(),
        ensures
            match r {
                Ok(Some(t)) => self.store().metadata.has_task(task_id@) && t@
                    == self.store().metadata.task(task_id@),
                Ok(None) => !self.store().metadata.has_task(task_id@),
                Err(_) => false,
            },
    {
        self.storage.get_task(task_id)
    }

    /// Records that the task `id` starts, with pieces of `piece_length`
    /// bytes.
    pub fn download_task_started(&mut self, id: &str, piece_length: u64) -> (r: Result<(), Error>)
        requires
            old(self).wf(),
        ensures
            final(self).wf(),
            crate::storage::storage_outcome(
                r,
                old(self).store().metadata.task_started_error(id@, piece_length),
                id@,
                old(self).store(),
                final(self).store(),
                old(self).store().metadata.task_started(id@, piece_length, old(self).store().now),
            ),
    {
        self.storage.download_task_started(id, piece_length)
    }

    /// Marks the task `id` as finished. Fails unless every piece of the
    /// content is committed.
    pub fn download_task_finished(&mut self, id: &str) -> (r: Result<(), Error>)
        requires
            old(self).wf(),
        ensures
            final(self).wf(),
            crate::storage::storage_outcome(
                r,
                old(self).store().metadata.task_finished_error(id@),
                id@,
                old(self).store(),
                final(self).store(),
                old(self).store().metadata.with_task(
                    id@,
                    old(self).store().metadata.task_finished(id@, old(self).store().now),
                ),
            ),
    {
        self.storage.download_task_finished(id)
    }

    /// Marks the task `id` as failed. A finished task stays finished.
    pub fn download_task_failed(&mut self, id: &str) -> (r: Result<(), Error>)
        requires
            old(self).wf(),
        ensures
            final(self).wf(),
            crate::storage::storage_outcome(
                r,
                old(self).store().metadata.task_missing_error(id@),
                id@,
                old(self).store(),
                final(self).store(),
                old(self).store().metadata.with_task(
                    id@,
                    old(self).store().metadata.task_failed(id@, old(self).store().now),
                ),
            ),
    {
        self.storage.download_task_failed(id)
    }

    /// The content length of the task `task_id` as far as the store knows
    /// it. Fails with `TaskNotFound` for a task that is not recorded. Where
    /// the answer is `None` the origin is to be asked, with `head_request`,
    /// and its answer handed to `get_content_length`.
    pub fn cached_content_length(&self, task_id: &str) -> (r: Result<Option<u64>, Error>)
        requires
            self.wf(),
        ensures
            match r {
                Ok(known) => self.store().metadata.has_task(task_id@) && known
                    == self.store().metadata.task(task_id@).content_length,
                Err(e) => !self.store().metadata.has_task(task_id@) && e.is_of(
                    ErrorKind::TaskNotFound,
                    task_id@,
                ),
            },
    {
        match self.storage.get_task(task_id) {
            Ok(Some(task)) => Ok(task.content_length),
            _ => Err(Error::TaskNotFound(String::from_str(task_id))),
        }
    }

    /// The request that asks the origin for the headers of `url`. Without a
    /// timeout the piece timeout of the store bounds the request.
    pub fn head_request(&self, task_id: &str, url: &str, header: &Header, timeout: Option<u64>) -> (r:
        HeadRequest)
        ensures
            r.task_id@ == task_id@,
            r.url@ == url@,
            crate::backend::opt_header_view(r.http_header) == Some(header_view(header@)),
            r.timeout == match timeout {
                Some(t) => t,
                None => self.store().piece_timeout,
            },
            r.client_certs is None,
    {
        HeadRequest {
            task_id: String::from_str(task_id),
            url: String::from_str(url),
            http_header: Some(clone_header(header)),
            timeout: match timeout {
                Some(t) => t,
                None => self.storage.piece_timeout(),
            },
            client_certs: None,
        }
    }

    /// The content length of the task `task_id`: the one that the store
    /// knows, or else the one that the origin's answer `response` reports,
    /// which is then recorded. Fails with `TaskNotFound` for a task that is
    /// not recorded, with `InvalidContentLength` where the answer carries no
    /// content length header that reads as an unsigned decimal number, and
    /// with `InvariantViolation` where a committed piece does not fit the
    /// length reported.
    pub fn get_content_length(&mut self, task_id: &str, response: &HeadResponse) -> (r: Result<
        u64,
        Error,
    >)
        requires
            old(self).wf(),
        ensures
            final(self).wf(),
            ({
                let m = old(self).store().metadata;
                let reported = reported_content_length(
                    crate::backend::opt_header_view(response.http_header),
                );
                if !m.has_task(task_id@) {
                    &&& r matches Err(e) && e.is_of(ErrorKind::TaskNotFound, task_id@)
                    &&& final(self).store() == old(self).store()
                } else if m.task(task_id@).content_length is Some {
                    &&& r == Ok::<u64, Error>(m.task(task_id@).content_length->0)
                    &&& final(self).store() == old(self).store()
                } else if reported is None {
                    &&& r matches Err(e) && e.spec_kind() == ErrorKind::InvalidContentLength
                    &&& final(self).store() == old(self).store()
                } else {
                    crate::storage::storage_outcome(
                        match r {
                            Ok(_) => Ok(()),
                            Err(e) => Err(e),
                        },
                        m.content_length_error(task_id@, reported->0),
                        task_id@,
                        old(self).store(),
                        final(self).store(),
                        m.with_task(
                            task_id@,
                            m.task_with_content_length(
                                task_id@,
                                reported->0,
                                old(self).store().now,
                            ),
                        ),
                    ) && (r matches Ok(n) ==> n == reported->0)
                }
            }),
    {
        let task = match self.storage.get_task(task_id) {
            Ok(Some(task)) => task,
            _ => {
                return Err(Error::TaskNotFound(String::from_str(task_id)));
            },
        };
        match task.content_length {
            Some(known) => {
                return Ok(known);
            },
            None => {},
        }
        let reported = match &response.http_header {
            Some(header) => read_content_length(header),
            None => None,
        };
        let content_length: u64 = match reported {
            Some(n) => n,
            None => {
                return Err(Error::InvalidContentLength);
            },
        };
        match self.storage.set_task_content_length(task_id, content_length) {
            Ok(_) => Ok(content_length),
            Err(e) => Err(e),
        }
    }

    /// The local drain: serves each interested piece that the store of this
    /// peer has committed, and appends to `actions` the write of its bytes
    /// and the event of progress. Returns the records of the pieces served.
    pub fn download_partial_from_local_peer_into_file(
        &mut self,
        task_id: &str,
        interested: &Vec<InterestedPiece>,
        content_length: u64,
        actions: &mut Vec<Action>,
    ) -> (r: Vec<metadata::Piece>)
        requires
            old(self).wf(),
        ensures
            final(self).wf(),
            final(self).store() == drained(
                old(self).store(),
                task_id@,
                content_length,
                interested@,
            ).store,
            action_views(final(actions)@) == action_views(old(actions)@) + drained(
                old(self).store(),
                task_id@,
                content_length,
                interested@,
            ).actions,
            piece_views(r@) == drained(
                old(self).store(),
                task_id@,
                content_length,
                interested@,
            ).finished,
    {
        let ghost start = self.store();
        let ghost given = action_views(actions@);
        let manager = self.piece;
        let mut finished: Vec<metadata::Piece> = Vec::new();
        let mut i: usize = 0;
        proof {
            assert(interested@.take(0) =~= Seq::empty());
            assert(action_views(actions@) =~= given + Seq::empty());
            assert(piece_views(finished@) =~= Seq::empty());
        }
        while i < interested.len()
            invariant
                self.wf(),
                i <= interested@.len(),
                self.store() == drained(
                    start,
                    task_id@,
                    content_length,
                    interested@.take(i as int),
                ).store,
                action_views(actions@) == given + drained(
                    start,
                    task_id@,
                    content_length,
                    interested@.take(i as int),
                ).actions,
                piece_views(finished@) == drained(
                    start,
                    task_id@,
                    content_length,
                    interested@.take(i as int),
                ).finished,
            decreases interested@.len() - i,
        {
            let p = interested[i];
            let ghost before = self.store();
            let ghost so_far = drained(start, task_id@, content_length, interested@.take(i as int));
            proof {
                assert(interested@.take(i + 1).drop_last() =~= interested@.take(i as int));
                assert(interested@.take(i + 1).last() == p);
            }
            match manager.download_from_local_peer(&mut self.storage, task_id, p.number) {
                Ok(bytes) => {
                    proof {
                        before.lemma_committed_digest(task_id@, p.number);
                        crate::task::piece::lemma_served_keeps_bytes(before, task_id@, p.number);
                        self.store().metadata.lemma_committed(task_id@, p.number);
                    }
                    match manager.get(&self.storage, task_id, p.number) {
                        Ok(Some(record)) => {
                            let mut file: Vec<FileWrite> = Vec::new();
                            let checked = manager.write_into_file_and_verify(
                                bytes,
                                &mut file,
                                p.offset,
                                record.digest.as_str(),
                            );
                            assert(checked is Ok);
                            assert(file@.len() == 1) by {
                                assert(crate::task::piece::write_views(file@).len() == 1);
                            }
                            let ghost held = file@;
                            assert(crate::task::piece::write_views(held)[0] == held[0]@);
                            match file.pop() {
                                Some(write) => {
                                    push_action(actions, Action::Write(write));
                                },
                                None => {},
                            }
                            push_action(
                                actions,
                                Action::Progress(
                                    DownloadTaskResponse {
                                        content_length,
                                        piece: Some(
                                            PieceMessage::new(
                                                &record,
                                                None,
                                                TrafficType::LocalPeer,
                                            ),
                                        ),
                                    },
                                ),
                            );
                            let ghost was = piece_views(finished@);
                            finished.push(record);
                            proof {
                                assert(piece_views(finished@) =~= was.push(record@));
                                let now = drained(
                                    start,
                                    task_id@,
                                    content_length,
                                    interested@.take(i + 1),
                                );
                                assert(action_views(actions@) =~= given + now.actions);
                            }
                        },
                        _ => {},
                    }
                },
                Err(_) => {
                    proof {
                        let now = drained(
                            start,
                            task_id@,
                            content_length,
                            interested@.take(i + 1),
                        );
                        assert(action_views(actions@) =~= given + now.actions);
                    }
                },
            }
            i = i + 1;
        }
        assert(interested@.take(i as int) =~= interested@);
        finished
    }

    /// Starts the download of the task `task_id` for the peer `peer_id` on
    /// the host `host_id`. `file_opened` says whether the output file could
    /// be opened. Where the download cannot start, the one action reports
    /// why. Else the interested pieces are computed and those that the store
    /// of this peer holds are served: the actions write them out and report
    /// them. The caller performs the actions and goes on with
    /// `download_partial_with_scheduler_into_file`.
    pub fn download_into_file(
        &mut self,
        task_id: &str,
        host_id: &str,
        peer_id: &str,
        content_length: u64,
        download: Download,
        file_opened: bool,
    ) -> (r: (Session, Vec<Action>))
        requires
            old(self).wf(),
        ensures
            final(self).wf(),
            r.0@ == begun(
                old(self).store(),
                task_id@,
                host_id@,
                peer_id@,
                content_length,
                download@,
                file_opened,
            ).session,
            final(self).store() == begun(
                old(self).store(),
                task_id@,
                host_id@,
                peer_id@,
                content_length,
                download@,
                file_opened,
            ).store,
            action_views(r.1@) == begun(
                old(self).store(),
                task_id@,
                host_id@,
                peer_id@,
                content_length,
                download@,
                file_opened,
            ).actions,
            r.0@.inv(final(self).store()),
    {
        let mut actions: Vec<Action> = Vec::new();
        let manager = self.piece;
        let ghost asked = download@;
        let mut session = Session {
            task_id: String::from_str(task_id),
            host_id: String::from_str(host_id),
            peer_id: String::from_str(peer_id),
            content_length,
            download,
            interested: Vec::new(),
            finished: Vec::new(),
            queue: VecDeque::new(),
            phase: Phase::Failed,
        };
        assert(session@ =~= new_session(
            task_id@,
            host_id@,
            peer_id@,
            content_length,
            asked,
            Phase::Failed,
        )) by {
            assert(session@.finished =~= Seq::empty());
            assert(session@.queue =~= Seq::empty());
            assert(session@.interested =~= Seq::empty());
        }
        assert(action_views(actions@) =~= Seq::empty());
        if session.download.timeout == Timeout::Invalid {
            push_action(
                &mut actions,
                Action::Fail(
                    Status {
                        code: Code::InvalidArgument,
                        message: String::from_str("invalid timeout"),
                    },
                ),
            );
            assert(action_views(actions@) =~= seq![
                ActionView::Fail { code: Code::InvalidArgument, message: "invalid timeout"@ },
            ]);
            return (session, actions);
        }
        if !file_opened {
            push_action(
                &mut actions,
                Action::Fail(
                    Status { code: Code::Internal, message: String::from_str("open file error") },
                ),
            );
            assert(action_views(actions@) =~= seq![
                ActionView::Fail { code: Code::Internal, message: "open file error"@ },
            ]);
            return (session, actions);
        }
        let all = match manager.calculate_interested(
            session.download.piece_length,
            Some(content_length),
            session.download.range,
        ) {
            Ok(all) => all,
            Err(_) => {
                push_action(
                    &mut actions,
                    Action::Fail(
                        Status {
                            code: Code::InvalidArgument,
                            message: String::from_str("calculate interested pieces error"),
                        },
                    ),
                );
                assert(action_views(actions@) =~= seq![
                    ActionView::Fail {
                        code: Code::InvalidArgument,
                        message: "calculate interested pieces error"@,
                    },
                ]);
                return (session, actions);
            },
        };
        match self.storage.get_task(task_id) {
            Ok(Some(_)) => {},
            _ => {
                push_action(
                    &mut actions,
                    Action::Fail(
                        Status { code: Code::NotFound, message: String::from_str("task not found") },
                    ),
                );
                assert(action_views(actions@) =~= seq![
                    ActionView::Fail { code: Code::NotFound, message: "task not found"@ },
                ]);
                return (session, actions);
            },
        }
        let served = self.download_partial_from_local_peer_into_file(
            task_id,
            &all,
            content_length,
            &mut actions,
        );
        let ghost wanted = all@;
        session.interested = manager.remove_finished_from_interested(&served, all);
        session.phase = Phase::Local;
        proof {
            let local = drained(old(self).store(), task_id@, content_length, wanted);
            assert(action_views(actions@) =~= local.actions);
            crate::task::piece::lemma_interested_distinct(
                asked.piece_length,
                content_length,
                asked.range,
                piece_views(served@),
            );
        }
        (session, actions)
    }

    /// Turns a download to the scheduler, once the actions of
    /// `download_into_file` are performed. With no piece left to fetch the
    /// download is done. With headers that cannot be sent the scheduler is
    /// given up at once, and the pieces are fetched from the origin. Else
    /// the actions register the peer and announce that it starts, and the
    /// download waits for the scheduler's answer. On a download that is past
    /// its local drain nothing happens.
    pub fn download_partial_with_scheduler_into_file(&self, session: &mut Session) -> (r: Vec<
        Action,
    >)
        ensures
            final(session)@ == old(session)@.with_scheduler().0,
            action_views(r@) == old(session)@.with_scheduler().1,
            old(session)@.inv(self.store()) ==> final(session)@.inv(self.store()),
    {
        proof {
            if session@.inv(self.store()) {
                session@.lemma_fall_back_inv(self.store());
                session@.lemma_phase_inv(self.store(), Phase::Done);
                session@.lemma_phase_inv(self.store(), Phase::Scheduler);
            }
        }
        let mut actions: Vec<Action> = Vec::new();
        assert(action_views(actions@) =~= Seq::empty());
        if session.phase != Phase::Local {
            return actions;
        }
        if session.interested.len() == 0 {
            session.phase = Phase::Done;
            return actions;
        }
        if !check_headers(&session.download.header) {
            session.fall_back(&self.piece, &mut actions);
            assert(action_views(actions@) =~= old(session)@.fall_back().1);
            return actions;
        }
        let register = session.announce(Request::RegisterPeerRequest(session.download.clone()));
        push_action(&mut actions, register);
        let started = session.announce(Request::DownloadPeerStartedRequest);
        push_action(&mut actions, started);
        assert(action_views(actions@) =~= old(session)@.with_scheduler().1);
        session.phase = Phase::Scheduler;
        actions
    }

    /// Gives up the scheduler: the stream is closed, and every piece that
    /// has not arrived is fetched from the origin, one after the other. The
    /// download is done at once if no piece is left.
    pub fn download_partial_from_source_into_file(&self, session: &mut Session) -> (r: Vec<Action>)
        ensures
            final(session)@ == old(session)@.fall_back().0,
            action_views(r@) == old(session)@.fall_back().1,
            old(session)@.inv(self.store()) ==> final(session)@.inv(self.store()),
    {
        proof {
            if session@.inv(self.store()) {
                session@.lemma_fall_back_inv(self.store());
            }
        }
        let mut actions: Vec<Action> = Vec::new();
        assert(action_views(actions@) =~= Seq::empty());
        session.fall_back(&self.piece, &mut actions);
        assert(action_views(actions@) =~= old(session)@.fall_back().1);
        actions
    }

    fn piece_arrived(
        &self,
        session: &mut Session,
        number: u32,
        bytes: Vec<u8>,
        parent_id: Option<String>,
        traffic_type: TrafficType,
        actions: &mut Vec<Action>,
    )
        requires
            self.wf(),
            self.store().metadata.committed(old(session)@.task_id, number),
            bytes@ == self.store().piece_bytes(old(session)@.task_id, number),
        ensures
            final(session)@ == (SessionView {
                finished: old(session)@.finished.push(
                    self.store().metadata.piece(old(session)@.task_id, number),
                ),
                ..old(session)@
            }),
            action_views(final(actions)@) == action_views(old(actions)@) + old(session)@.arrived(
                self.store().metadata.piece(old(session)@.task_id, number),
                bytes@,
                opt_text(parent_id),
                traffic_type,
            ),
    {
        let ghost before = action_views(actions@);
        let ghost start = session@;
        proof {
            self.store().metadata.lemma_committed(start.task_id, number);
            self.store().lemma_committed_digest(start.task_id, number);
        }
        match self.piece.get(&self.storage, session.task_id.as_str(), number) {
            Ok(Some(record)) => {
                let mut file: Vec<FileWrite> = Vec::new();
                let checked = self.piece.write_into_file_and_verify(
                    bytes,
                    &mut file,
                    record.offset,
                    record.digest.as_str(),
                );
                assert(checked is Ok);
                let ghost held = file@;
                assert(crate::task::piece::write_views(held).len() == 1);
                assert(crate::task::piece::write_views(held)[0] == held[0]@);
                match file.pop() {
                    Some(write) => {
                        push_action(actions, Action::Write(write));
                    },
                    None => {},
                }
                let message = PieceMessage::new(&record, parent_id, traffic_type);
                if session.phase == Phase::Scheduler {
                    let told = session.announce(
                        Request::DownloadPieceFinishedRequest(message.clone()),
                    );
                    push_action(actions, told);
                }
                push_action(
                    actions,
                    Action::Progress(
                        DownloadTaskResponse {
                            content_length: session.content_length,
                            piece: Some(message),
                        },
                    ),
                );
                let ghost was = piece_views(session.finished@);
                session.finished.push(record);
                assert(piece_views(session.finished@) =~= was.push(record@));
                assert(action_views(actions@) =~= before + start.arrived(
                    record@,
                    bytes@,
                    opt_text(parent_id),
                    traffic_type,
                ));
            },
            _ => {},
        }
    }

    /// Takes an answer of the scheduler and returns the actions that follow
    /// from it.
    pub fn scheduler_answered(&mut self, session: &mut Session, response: AnnouncePeerResponse) -> (r:
        Vec<Action>)
        requires
            old(self).wf(),
        ensures
            final(self).wf(),
            final(self).store() == old(self).store(),
            final(session)@ == scheduler_step(
                old(session)@,
                old(self).store(),
                response@,
            ).session,
            action_views(r@) == scheduler_step(
                old(session)@,
                old(self).store(),
                response@,
            ).actions,
            old(session)@.inv(old(self).store()) ==> final(session)@.inv(final(self).store()),
    {
        let mut actions: Vec<Action> = Vec::new();
        assert(action_views(actions@) =~= Seq::empty());
        if !(session.phase == Phase::Scheduler && session.queue.len() == 0) {
            return actions;
        }
        let ghost start = session@;
        proof {
            if start.inv(self.store()) {
                start.lemma_fall_back_inv(self.store());
                start.lemma_source_queue_inv(self.store(), start.phase);
                let back = SessionView {
                    queue: source_work(remaining_pieces(start.finished, start.interested)),
                    ..start
                };
                back.lemma_proceed_inv(self.store());
                match response@ {
                    AnnouncePeerResponseView::NormalTaskResponse(parents) => {
                        start.lemma_remote_queue_inv(self.store(), parents);
                        let next = SessionView {
                            queue: remote_work(
                                collected(
                                    self.store().metadata,
                                    start.task_id,
                                    start.interested,
                                    parents,
                                ),
                            ),
                            ..start
                        };
                        next.lemma_proceed_inv(self.store());
                    },
                    _ => {},
                }
                start.lemma_phase_inv(self.store(), Phase::Done);
            }
        }
        match response {
            AnnouncePeerResponse::EmptyTaskResponse => {
                push_action(&mut actions, Action::CloseScheduler);
                session.phase = Phase::Done;
                assert(action_views(actions@) =~= seq![ActionView::CloseScheduler]);
            },
            AnnouncePeerResponse::NormalTaskResponse(parents) => {
                let assigned = self.piece.collect_interested_from_remote_peer(
                    &self.storage,
                    session.task_id.as_str(),
                    &session.interested,
                    &parents,
                );
                session.queue_remote(assigned);
                let ghost next = session@;
                session.proceed(&mut actions);
                assert(action_views(actions@) =~= next.proceed().1);
            },
            AnnouncePeerResponse::NeedBackToSourceResponse => {
                let left = self.piece.remove_finished_from_interested(
                    &session.finished,
                    copy_pieces(&session.interested),
                );
                session.queue_source(&left);
                let ghost next = session@;
                session.proceed(&mut actions);
                assert(action_views(actions@) =~= next.proceed().1);
            },
            AnnouncePeerResponse::Unrecognized => {
                session.fall_back(&self.piece, &mut actions);
                assert(action_views(actions@) =~= start.fall_back().1);
            },
        }
        actions
    }

    /// Takes what came of the fetch from a parent that the download asked
    /// for last, and returns the actions that follow from it.
    pub fn remote_piece_fetched(
        &mut self,
        session: &mut Session,
        fetched: Result<RemotePiece, Error>,
    ) -> (r: Vec<Action>)
        requires
            old(self).wf(),
        ensures
            final(self).wf(),
            final(session)@ == remote_step(
                old(session)@,
                old(self).store(),
                remote_answer(fetched),
            ).session,
            final(self).store() == remote_step(
                old(session)@,
                old(self).store(),
                remote_answer(fetched),
            ).store,
            action_views(r@) == remote_step(
                old(session)@,
                old(self).store(),
                remote_answer(fetched),
            ).actions,
            old(session)@.inv(old(self).store()) ==> final(session)@.inv(final(self).store()),
    {
        let ghost before = self.store();
        let ghost answer = remote_answer(fetched);
        let mut actions: Vec<Action> = Vec::new();
        assert(action_views(actions@) =~= Seq::empty());
        if !(session.phase == Phase::Scheduler && session.queue.len() > 0) {
            return actions;
        }
        let ghost start = session@;
        match &session.queue[0] {
            Work::Remote(_) => {},
            Work::Source(_) => {
                return actions;
            },
        }
        let c = match session.queue.pop_front() {
            Some(Work::Remote(c)) => c,
            _ => {
                return actions;
            },
        };
        assert(session@.queue =~= start.queue.skip(1));
        let manager = self.piece;
        match manager.download_from_remote_peer(
            &mut self.storage,
            session.task_id.as_str(),
            c.number,
            &c.parent,
            fetched,
        ) {
            Ok(bytes) => {
                self.piece_arrived(
                    session,
                    c.number,
                    bytes,
                    Some(c.parent.id.clone()),
                    TrafficType::RemotePeer,
                    &mut actions,
                );
                proof {
                    if start.inv(before) {
                        let p = answer->0;
                        crate::task::piece::lemma_fetches_keep_committed(
                            before,
                            start.task_id,
                            c.number,
                            c.parent@.id,
                            p.offset,
                            0,
                            p.digest,
                            p.content,
                            true,
                        );
                        self.store().metadata.lemma_committed(start.task_id, c.number);
                        let record = self.store().metadata.piece(start.task_id, c.number);
                        start.lemma_fetched_inv(before, self.store(), Some(record));
                    }
                }
            },
            Err(_) => {
                let told = session.announce(
                    Request::DownloadPieceFailedRequest {
                        piece_number: c.number,
                        parent_id: c.parent.id.clone(),
                        temporary: true,
                    },
                );
                push_action(&mut actions, told);
                proof {
                    if start.inv(before) {
                        match answer {
                            Some(p) => {
                                crate::task::piece::lemma_fetches_keep_committed(
                                    before,
                                    start.task_id,
                                    c.number,
                                    c.parent@.id,
                                    p.offset,
                                    0,
                                    p.digest,
                                    p.content,
                                    true,
                                );
                            },
                            None => {},
                        }
                        start.lemma_fetched_inv(before, self.store(), None);
                    }
                }
            },
        }
        let ghost mid = action_views(actions@);
        let ghost next = session@;
        session.proceed(&mut actions);
        assert(action_views(actions@) =~= mid + next.proceed().1);
        proof {
            if start.inv(before) {
                next.lemma_proceed_inv(self.store());
            }
        }
        actions
    }

    /// Takes what came of the fetch from the origin that the download asked
    /// for last, and returns the actions that follow from it.
    pub fn source_piece_fetched(
        &mut self,
        session: &mut Session,
        response: Result<GetResponse, Error>,
    ) -> (r: Vec<Action>)
        requires
            old(self).wf(),
        ensures
            final(self).wf(),
            final(session)@ == source_step(
                old(session)@,
                old(self).store(),
                source_answer(response),
            ).session,
            final(self).store() == source_step(
                old(session)@,
                old(self).store(),
                source_answer(response),
            ).store,
            action_views(r@) == source_step(
                old(session)@,
                old(self).store(),
                source_answer(response),
            ).actions,
            old(session)@.inv(old(self).store()) ==> final(session)@.inv(final(self).store()),
    {
        let ghost before = self.store();
        let ghost answer = source_answer(response);
        let mut actions: Vec<Action> = Vec::new();
        assert(action_views(actions@) =~= Seq::empty());
        if !((session.phase == Phase::Scheduler || session.phase == Phase::Source)
            && session.queue.len() > 0) {
            return actions;
        }
        let ghost start = session@;
        match &session.queue[0] {
            Work::Source(_) => {},
            Work::Remote(_) => {
                return actions;
            },
        }
        let p = match session.queue.pop_front() {
            Some(Work::Source(p)) => p,
            _ => {
                return actions;
            },
        };
        assert(session@.queue =~= start.queue.skip(1));
        let ghost rest = session@;
        let manager = self.piece;
        proof {
            let body = match answer {
                SourceAnswer::Answered { body, .. } => body,
                SourceAnswer::Unreached { .. } => Seq::empty(),
            };
            let success = match answer {
                SourceAnswer::Answered { success, .. } => success,
                SourceAnswer::Unreached { .. } => false,
            };
            crate::task::piece::lemma_fetches_keep_committed(
                before,
                start.task_id,
                p.number,
                Seq::empty(),
                p.offset,
                p.length,
                Seq::empty(),
                body,
                success,
            );
        }
        match manager.download_from_source(
            &mut self.storage,
            session.task_id.as_str(),
            p.number,
            p.offset,
            p.length,
            response,
        ) {
            Ok(bytes) => {
                self.piece_arrived(
                    session,
                    p.number,
                    bytes,
                    None,
                    TrafficType::BackToSource,
                    &mut actions,
                );
                let ghost mid = action_views(actions@);
                let ghost next = session@;
                session.proceed(&mut actions);
                assert(action_views(actions@) =~= mid + next.proceed().1);
                proof {
                    if start.inv(before) {
                        self.store().metadata.lemma_committed(start.task_id, p.number);
                        let record = self.store().metadata.piece(start.task_id, p.number);
                        start.lemma_fetched_inv(before, self.store(), Some(record));
                        next.lemma_proceed_inv(self.store());
                    }
                }
            },
            Err(e) => {
                proof {
                    if start.inv(before) {
                        start.lemma_fetched_inv(before, self.store(), None);
                        rest.lemma_phase_inv(self.store(), Phase::Failed);
                        rest.lemma_fall_back_inv(self.store());
                    }
                }
                if session.phase == Phase::Source {
                    push_action(
                        &mut actions,
                        Action::Fail(
                            Status {
                                code: Code::Internal,
                                message: String::from_str("download from source error"),
                            },
                        ),
                    );
                    session.phase = Phase::Failed;
                    assert(action_views(actions@) =~= seq![
                        ActionView::Fail {
                            code: Code::Internal,
                            message: "download from source error"@,
                        },
                    ]);
                } else {
                    let answered = match e {
                        Error::HTTP(failure) => {
                            let reason = match status_reason(failure.status_code) {
                                Some(reason) => reason,
                                None => String::new(),
                            };
                            Some(
                                HttpResponse {
                                    header: failure.header,
                                    status_code: failure.status_code as i32,
                                    status: reason,
                                },
                            )
                        },
                        _ => None,
                    };
                    let told = session.announce(
                        Request::DownloadPieceBackToSourceFailedRequest {
                            piece_number: p.number,
                            response: answered,
                        },
                    );
                    push_action(&mut actions, told);
                    let ghost mid = action_views(actions@);
                    session.fall_back(&manager, &mut actions);
                    assert(action_views(actions@) =~= mid + rest.fall_back().1);
                }
            },
        }
        actions
    }

    /// Takes the end of the scheduler's stream, whether it ended in good
    /// order or broke, and returns the actions that follow from it.
    pub fn scheduler_closed(&self, session: &mut Session) -> (r: Vec<Action>)
        ensures
            final(session)@ == old(session)@.scheduler_closed().0,
            action_views(r@) == old(session)@.scheduler_closed().1,
            old(session)@.inv(self.store()) ==> final(session)@.inv(self.store()),
    {
        proof {
            if session@.inv(self.store()) {
                session@.lemma_fall_back_inv(self.store());
            }
        }
        let mut actions: Vec<Action> = Vec::new();
        assert(action_views(actions@) =~= Seq::empty());
        if session.phase == Phase::Scheduler {
            session.fall_back(&self.piece, &mut actions);
            assert(action_views(actions@) =~= old(session)@.fall_back().1);
        }
        actions
    }

    /// Takes the failure of an action that a step asked for, and returns the
    /// actions that follow from it.
    pub fn action_failed(&self, session: &mut Session) -> (r: Vec<Action>)
        ensures
            final(session)@ == old(session)@.action_failed().0,
            action_views(r@) == old(session)@.action_failed().1,
            old(session)@.inv(self.store()) ==> final(session)@.inv(self.store()),
    {
        proof {
            if session@.inv(self.store()) {
                session@.lemma_fall_back_inv(self.store());
                session@.lemma_phase_inv(self.store(), Phase::Failed);
            }
        }
        let mut actions: Vec<Action> = Vec::new();
        assert(action_views(actions@) =~= Seq::empty());
        if session.phase == Phase::Scheduler {
            session.fall_back(&self.piece, &mut actions);
            assert(action_views(actions@) =~= old(session)@.fall_back().1);
        } else if session.phase == Phase::Local {
            push_action(
                &mut actions,
                Action::Fail(
                    Status {
                        code: Code::Internal,
                        message: String::from_str("download from local peer error"),
                    },
                ),
            );
            session.phase = Phase::Failed;
            assert(action_views(actions@) =~= old(session)@.action_failed().1);
        } else if session.phase == Phase::Source {
            push_action(
                &mut actions,
                Action::Fail(
                    Status {
                        code: Code::Internal,
                        message: String::from_str("download from source error"),
                    },
                ),
            );
            session.phase = Phase::Failed;
            assert(action_views(actions@) =~= old(session)@.action_failed().1);
        }
        actions
    }
}

} // verus!
