//! Task and piece records, and the store that keeps them.
//!
//! The store holds one record per task id and one per pair of task id and
//! piece number. A piece record is committed once, by
//! `Metadata::download_piece_finished`, and never changes afterwards but for
//! the time of its last use. What the operations make of the records is
//! said in the module `model`.

use crate::error::{Error, ErrorKind};
use crate::storage::model::{geometry_ok, numbers_fit, outcome, MetadataView};
use crate::text::{decimal, str_eq, u64_to_string};
use vstd::prelude::*;
use vstd::string::*;

verus! {

/// Where a task stands.
#[derive(Clone, Copy, Debug, PartialEq, Eq, Structural)]
pub enum TaskState {
    /// Started and neither finished nor failed.
    InProgress,
    /// The last download attempt failed.
    Failed,
    /// Every piece of the content is committed.
    Finished,
}

/// Where a piece stands.
#[derive(Clone, Copy, Debug, PartialEq, Eq, Structural)]
pub enum PieceState {
    /// Reserved by a writer; no bytes are committed.
    Pending,
    /// Bytes have been written for the piece; none are committed.
    InProgress,
    /// Committed: offset, length, digest and parent are final.
    Finished,
    /// The last attempt to write the piece failed.
    Failed,
}

/// The source that a piece's bytes came from.
#[derive(Clone, Copy, Debug, PartialEq, Eq, Structural)]
pub enum TrafficType {
    /// Fetched from another peer.
    RemotePeer,
    /// Fetched from the origin server.
    BackToSource,
    /// Read from this peer's own store.
    LocalPeer,
}

/// The record of one task.
#[derive(Debug)]
pub struct Task {
    /// The task's id.
    pub id: String,
    /// The length of every piece but the last. Never zero.
    pub piece_length: u64,
    /// The length of the content, once known.
    pub content_length: Option<u64>,
    /// Where the task stands.
    pub state: TaskState,
    /// When the record was created.
    pub created_at: u64,
    /// When the record was last touched.
    pub updated_at: u64,
    /// When the task finished, if it has.
    pub finished_at: Option<u64>,
}

/// A task record as a mathematical value.
pub struct TaskView {
    pub id: Seq<char>,
    pub piece_length: u64,
    pub content_length: Option<u64>,
    pub state: TaskState,
    pub created_at: u64,
    pub updated_at: u64,
    pub finished_at: Option<u64>,
}

impl View for Task {
    type V = TaskView;

    open spec fn view(&self) -> TaskView {
        TaskView {
            id: self.id@,
            piece_length: self.piece_length,
            content_length: self.content_length,
            state: self.state,
            created_at: self.created_at,
            updated_at: self.updated_at,
            finished_at: self.finished_at,
        }
    }
}

impl Clone for Task {
    fn clone(&self) -> (r: Task)
        ensures
            r@ == self@,
    {
        Task {
            id: self.id.clone(),
            piece_length: self.piece_length,
            content_length: self.content_length,
            state: self.state,
            created_at: self.created_at,
            updated_at: self.updated_at,
            finished_at: self.finished_at,
        }
    }
}

impl Task {
    /// True once the task is finished.
    pub fn is_finished(&self) -> (r: bool)
        ensures
            r == (self@.state == TaskState::Finished),
    {
        self.state == TaskState::Finished
    }

    /// True while the last attempt stands as failed.
    pub fn is_failed(&self) -> (r: bool)
        ensures
            r == (self@.state == TaskState::Failed),
    {
        self.state == TaskState::Failed
    }
}

/// The record of one piece of a task.
#[derive(Debug)]
pub struct Piece {
    /// The id of the task that the piece belongs to.
    pub task_id: String,
    /// The piece's number within the task, from zero.
    pub number: u32,
    /// Where the piece starts in the content. Zero until committed.
    pub offset: u64,
    /// How many bytes the piece holds. Zero until committed.
    pub length: u64,
    /// The digest of the piece's bytes. Empty until committed.
    pub digest: String,
    /// The peer that the bytes came from; `None` for the origin.
    pub parent_id: Option<String>,
    /// Where the piece stands.
    pub state: PieceState,
    /// When the record was created.
    pub created_at: u64,
    /// When the record was last touched.
    pub updated_at: u64,
    /// When the piece was committed, if it has been.
    pub finished_at: Option<u64>,
}

/// A piece record as a mathematical value.
pub struct PieceView {
    pub task_id: Seq<char>,
    pub number: u32,
    pub offset: u64,
    pub length: u64,
    pub digest: Seq<char>,
    pub parent_id: Option<Seq<char>>,
    pub state: PieceState,
    pub created_at: u64,
    pub updated_at: u64,
    pub finished_at: Option<u64>,
}

/// The characters of an optional string.
pub open spec fn opt_text(s: Option<String>) -> Option<Seq<char>> {
    match s {
        Some(t) => Some(t@),
        None => None,
    }
}

impl View for Piece {
    type V = PieceView;

    open spec fn view(&self) -> PieceView {
        PieceView {
            task_id: self.task_id@,
            number: self.number,
            offset: self.offset,
            length: self.length,
            digest: self.digest@,
            parent_id: opt_text(self.parent_id),
            state: self.state,
            created_at: self.created_at,
            updated_at: self.updated_at,
            finished_at: self.finished_at,
        }
    }
}

/// Copies an optional string.
pub fn clone_opt_string(s: &Option<String>) -> (r: Option<String>)
    ensures
        opt_text(r) == opt_text(*s),
{
    match s {
        Some(t) => Some(t.clone()),
        None => None,
    }
}

impl Clone for Piece {
    fn clone(&self) -> (r: Piece)
        ensures
            r@ == self@,
    {
        Piece {
            task_id: self.task_id.clone(),
            number: self.number,
            offset: self.offset,
            length: self.length,
            digest: self.digest.clone(),
            parent_id: clone_opt_string(&self.parent_id),
            state: self.state,
            created_at: self.created_at,
            updated_at: self.updated_at,
            finished_at: self.finished_at,
        }
    }
}

impl PieceView {
    /// The source of a committed piece: a remote peer where a parent is
    /// recorded, the origin where none is.
    pub open spec fn traffic_type(self) -> TrafficType {
        if self.parent_id is Some {
            TrafficType::RemotePeer
        } else {
            TrafficType::BackToSource
        }
    }
}

impl Piece {
    /// True once the piece is committed.
    pub fn is_finished(&self) -> (r: bool)
        ensures
            r == (self@.state == PieceState::Finished),
    {
        self.state == PieceState::Finished
    }

    /// The source that the committed bytes came from.
    pub fn traffic_type(&self) -> (r: TrafficType)
        ensures
            r == self@.traffic_type(),
    {
        if self.parent_id.is_some() {
            TrafficType::RemotePeer
        } else {
            TrafficType::BackToSource
        }
    }

    /// The milliseconds between the record's creation and its commit; zero
    /// for a piece that is not committed.
    pub fn cost(&self) -> (r: u64)
        ensures
            r == match self@.finished_at {
                Some(t) => if t >= self@.created_at {
                    (t - self@.created_at) as u64
                } else {
                    0
                },
                None => 0,
            },
    {
        match self.finished_at {
            Some(t) => if t >= self.created_at {
                t - self.created_at
            } else {
                0
            },
            None => 0,
        }
    }
}

/// The views of a sequence of task records, in order.
pub open spec fn task_views(v: Seq<Task>) -> Seq<TaskView> {
    Seq::new(v.len(), |i: int| v[i]@)
}

/// The views of a sequence of piece records, in order.
pub open spec fn piece_views(v: Seq<Piece>) -> Seq<PieceView> {
    Seq::new(v.len(), |i: int| v[i]@)
}

/// The canonical id of a piece: the task id, a hyphen, the number in decimal.
pub open spec fn spec_piece_id(task_id: Seq<char>, number: u32) -> Seq<char> {
    task_id + seq!['-'] + decimal(number as nat)
}

/// Writes the canonical id of a piece.
pub fn piece_id(task_id: &str, number: u32) -> (r: String)
    ensures
        r@ == spec_piece_id(task_id@, number),
{
    proof {
        reveal_strlit("-");
    }
    let mut out = String::from_str(task_id);
    out.append("-");
    let digits = u64_to_string(number as u64);
    out.append(digits.as_str());
    assert(out@ =~= spec_piece_id(task_id@, number));
    out
}

/// The key under which the record of a task is kept: `task:` and the task
/// id.
pub open spec fn spec_task_key(id: Seq<char>) -> Seq<char> {
    seq!['t', 'a', 's', 'k', ':'] + id
}

/// The key under which the record of a piece is kept: `piece:` and the
/// piece id.
pub open spec fn spec_piece_key(task_id: Seq<char>, number: u32) -> Seq<char> {
    seq!['p', 'i', 'e', 'c', 'e', ':'] + spec_piece_id(task_id, number)
}

/// Writes the key under which the record of a task is kept.
pub fn task_key(id: &str) -> (r: String)
    ensures
        r@ == spec_task_key(id@),
{
    proof {
        reveal_strlit("task:");
    }
    let mut out = String::from_str("task:");
    out.append(id);
    assert(out@ =~= spec_task_key(id@));
    out
}

/// Writes the key under which the record of a piece is kept.
pub fn piece_key(task_id: &str, number: u32) -> (r: String)
    ensures
        r@ == spec_piece_key(task_id@, number),
{
    proof {
        reveal_strlit("piece:");
    }
    let mut out = String::from_str("piece:");
    let id = piece_id(task_id, number);
    out.append(id.as_str());
    assert(out@ =~= spec_piece_key(task_id@, number));
    out
}

/// The store of task and piece records.
#[derive(Debug)]
pub struct Metadata {
    tasks: Vec<Task>,
    pieces: Vec<Piece>,
}

impl View for Metadata {
    type V = MetadataView;

    closed spec fn view(&self) -> MetadataView {
        MetadataView { tasks: task_views(self.tasks@), pieces: piece_views(self.pieces@) }
    }
}

impl Metadata {
    /// The invariant that every operation keeps.
    pub open spec fn wf(&self) -> bool {
        self@.wf()
    }

    /// An empty store.
    pub fn new() -> (r: Metadata)
        ensures
            r.wf(),
            r@.tasks.len() == 0,
            r@.pieces.len() == 0,
    {
        Metadata { tasks: Vec::new(), pieces: Vec::new() }
    }

    fn find_task(&self, id: &str) -> (r: Option<usize>)
        ensures
            match r {
                Some(i) => i < self@.tasks.len() && self@.tasks[i as int].id == id@
                    && self.tasks@[i as int]@ == self@.tasks[i as int],
                None => !self@.has_task(id@),
            },
    {
        let mut i: usize = 0;
        while i < self.tasks.len()
            invariant
                i <= self.tasks@.len(),
                forall|j: int| 0 <= j < i ==> (#[trigger] self@.tasks[j]).id != id@,
            decreases self.tasks@.len() - i,
        {
            if str_eq(self.tasks[i].id.as_str(), id) {
                return Some(i);
            }
            i = i + 1;
        }
        None
    }

    fn find_piece(&self, task_id: &str, number: u32) -> (r: Option<usize>)
        ensures
            match r {
                Some(i) => i < self@.pieces.len() && self@.pieces[i as int].task_id == task_id@
                    && self@.pieces[i as int].number == number && self.pieces@[i as int]@
                    == self@.pieces[i as int],
                None => !self@.has_piece(task_id@, number),
            },
    {
        let mut i: usize = 0;
        while i < self.pieces.len()
            invariant
                i <= self.pieces@.len(),
                forall|j: int|
                    0 <= j < i ==> !((#[trigger] self@.pieces[j]).task_id == task_id@
                        && self@.pieces[j].number == number),
            decreases self.pieces@.len() - i,
        {
            if self.pieces[i].number == number && str_eq(self.pieces[i].task_id.as_str(), task_id) {
                return Some(i);
            }
            i = i + 1;
        }
        None
    }

    /// The record of the task `id`, if there is one.
    pub fn get_task(&self, id: &str) -> (r: Result<Option<Task>, Error>)
        requires
            self.wf(),
        ensures
            match r {
                Ok(Some(t)) => self@.has_task(id@) && t@ == self@.task(id@),
                Ok(None) => !self@.has_task(id@),
                Err(_) => false,
            },
    {
        match self.find_task(id) {
            Some(i) => {
                proof {
                    self@.lemma_task_at(i as int);
                }
                Ok(Some(self.tasks[i].clone()))
            },
            None => Ok(None),
        }
    }

    /// Every task record, in the order in which the tasks were first started.
    pub fn get_tasks(&self) -> (r: Result<Vec<Task>, Error>)
        ensures
            match r {
                Ok(v) => task_views(v@) == self@.tasks,
                Err(_) => false,
            },
    {
        let mut out: Vec<Task> = Vec::new();
        let mut i: usize = 0;
        while i < self.tasks.len()
            invariant
                i <= self.tasks@.len(),
                out@.len() == i,
                forall|j: int| 0 <= j < i ==> (#[trigger] out@[j])@ == self.tasks@[j]@,
            decreases self.tasks@.len() - i,
        {
            out.push(self.tasks[i].clone());
            i = i + 1;
        }
        assert(task_views(out@) =~= self@.tasks);
        Ok(out)
    }

    /// The record of piece `number` of the task `task_id`, if there is one.
    pub fn get_piece(&self, task_id: &str, number: u32) -> (r: Result<Option<Piece>, Error>)
        requires
            self.wf(),
        ensures
            match r {
                Ok(Some(p)) => self@.has_piece(task_id@, number) && p@ == self@.piece(
                    task_id@,
                    number,
                ),
                Ok(None) => !self@.has_piece(task_id@, number),
                Err(_) => false,
            },
    {
        match self.find_piece(task_id, number) {
            Some(i) => {
                proof {
                    self@.lemma_piece_at(i as int);
                }
                Ok(Some(self.pieces[i].clone()))
            },
            None => Ok(None),
        }
    }

    /// The canonical id of a piece.
    pub fn piece_id(&self, task_id: &str, number: u32) -> (r: String)
        ensures
            r@ == spec_piece_id(task_id@, number),
    {
        piece_id(task_id, number)
    }

    fn replace_task(&mut self, i: usize, t: Task)
        requires
            i < old(self)@.tasks.len(),
        ensures
            final(self)@.tasks == old(self)@.tasks.update(i as int, t@),
            final(self)@.pieces == old(self)@.pieces,
    {
        self.tasks.set(i, t);
        assert(self@.tasks =~= old(self)@.tasks.update(i as int, t@));
    }

    fn replace_piece(&mut self, i: usize, p: Piece)
        requires
            i < old(self)@.pieces.len(),
        ensures
            final(self)@.pieces == old(self)@.pieces.update(i as int, p@),
            final(self)@.tasks == old(self)@.tasks,
    {
        self.pieces.set(i, p);
        assert(self@.pieces =~= old(self)@.pieces.update(i as int, p@));
    }

    /// Records that the task `id` starts, with pieces of `piece_length`
    /// bytes. A task that is already recorded keeps its state and is touched;
    /// its piece length must be the one given.
    pub fn download_task_started(&mut self, id: &str, piece_length: u64, now: u64) -> (r: Result<
        (),
        Error,
    >)
        requires
            old(self).wf(),
        ensures
            final(self).wf(),
            outcome(
                r,
                old(self)@.task_started_error(id@, piece_length),
                id@,
                old(self)@,
                final(self)@,
                old(self)@.task_started(id@, piece_length, now),
            ),
    {
        if piece_length == 0 {
            return Err(Error::InvalidParameter);
        }
        match self.find_task(id) {
            Some(i) => {
                proof {
                    self@.lemma_task_at(i as int);
                }
                if self.tasks[i].piece_length != piece_length {
                    return Err(Error::InvariantViolation(String::from_str(id)));
                }
                let mut t = self.tasks[i].clone();
                t.updated_at = now;
                proof {
                    self@.lemma_update_task(i as int, t@);
                }
                self.replace_task(i, t);
                Ok(())
            },
            None => {
                let t = Task {
                    id: String::from_str(id),
                    piece_length,
                    content_length: None,
                    state: TaskState::InProgress,
                    created_at: now,
                    updated_at: now,
                    finished_at: None,
                };
                proof {
                    self@.lemma_push_task(t@);
                }
                self.tasks.push(t);
                assert(self@.tasks =~= old(self)@.tasks.push(t@));
                Ok(())
            },
        }
    }

    fn pieces_fit(&self, t: &Task) -> (r: bool)
        ensures
            r == self@.pieces_fit_task(t@),
    {
        let mut i: usize = 0;
        while i < self.pieces.len()
            invariant
                i <= self.pieces@.len(),
                forall|k: int|
                    0 <= k < i && (#[trigger] self@.pieces[k]).task_id == t@.id
                        && self@.pieces[k].state == PieceState::Finished ==> geometry_ok(
                        t@,
                        self@.pieces[k].number,
                        self@.pieces[k].offset,
                        self@.pieces[k].length,
                    ),
            decreases self.pieces@.len() - i,
        {
            let p = &self.pieces[i];
            assert(p@ == self@.pieces[i as int]);
            if p.state == PieceState::Finished && str_eq(p.task_id.as_str(), t.id.as_str()) {
                if !fits(t, p.number, p.offset, p.length) {
                    return false;
                }
            }
            i = i + 1;
        }
        true
    }

    /// Records the content length of the task `id`. It is set once: a later
    /// call must give the same length. Every committed piece of the task
    /// must fit a content of that length.
    pub fn set_task_content_length(&mut self, id: &str, content_length: u64, now: u64) -> (r:
        Result<(), Error>)
        requires
            old(self).wf(),
        ensures
            final(self).wf(),
            outcome(
                r,
                old(self)@.content_length_error(id@, content_length),
                id@,
                old(self)@,
                final(self)@,
                old(self)@.with_task(
                    id@,
                    old(self)@.task_with_content_length(id@, content_length, now),
                ),
            ),
    {
        match self.find_task(id) {
            Some(i) => {
                proof {
                    self@.lemma_task_at(i as int);
                }
                match self.tasks[i].content_length {
                    Some(c) => {
                        if c != content_length {
                            return Err(Error::InvariantViolation(String::from_str(id)));
                        }
                    },
                    None => {},
                }
                let mut t = self.tasks[i].clone();
                t.content_length = Some(content_length);
                t.updated_at = now;
                let ghost timeless = self@.task_with_content_length(id@, content_length, 0);
                assert(self@.pieces_fit_task(timeless) == self@.pieces_fit_task(t@)) by {
                    assert forall|n: u32, o: u64, l: u64|
                        geometry_ok(timeless, n, o, l) == geometry_ok(t@, n, o, l) by {}
                }
                if !self.pieces_fit(&t) {
                    return Err(Error::InvariantViolation(String::from_str(id)));
                }
                proof {
                    if t@.state == TaskState::Finished {
                        assert(self@.complete(self@.tasks[i as int]));
                        assert(self@.tasks[i as int].content_length == Some(content_length));
                    }
                    self@.lemma_update_task(i as int, t@);
                }
                self.replace_task(i, t);
                Ok(())
            },
            None => Err(Error::TaskNotFound(String::from_str(id))),
        }
    }

    fn is_committed(&self, task_id: &str, number: u32) -> (r: bool)
        requires
            self.wf(),
        ensures
            r == self@.committed(task_id@, number),
    {
        proof {
            self@.lemma_committed(task_id@, number);
        }
        match self.find_piece(task_id, number) {
            Some(i) => {
                proof {
                    self@.lemma_piece_at(i as int);
                }
                self.pieces[i].state == PieceState::Finished
            },
            None => false,
        }
    }

    fn is_complete(&self, t: &Task) -> (r: bool)
        requires
            self.wf(),
        ensures
            r == self@.complete(t@),
    {
        let cl: u64 = match t.content_length {
            Some(cl) => cl,
            None => {
                return false;
            },
        };
        let pl: u64 = t.piece_length;
        if (cl as u128) > mul_wide(0x1_0000_0000, pl) {
            return false;
        }
        let mut n: u64 = 0;
        while n < 0x1_0000_0000 && mul_wide(n, pl) < (cl as u128)
            invariant
                self.wf(),
                n <= 0x1_0000_0000,
                t@.content_length == Some(cl),
                t@.piece_length == pl,
                numbers_fit(pl, cl),
                forall|m: u32| m < n ==> #[trigger] self@.committed(t@.id, m),
            decreases 0x1_0000_0000 - n,
        {
            if !self.is_committed(t.id.as_str(), n as u32) {
                assert((n as u32) * pl < cl && !self@.committed(t@.id, n as u32));
                return false;
            }
            n = n + 1;
        }
        assert forall|m: u32| m * pl < cl implies #[trigger] self@.committed(t@.id, m) by {
            if m >= n {
                assert(n * pl >= cl);
                assert(m * pl >= n * pl) by (nonlinear_arith)
                    requires
                        m >= n,
                        pl >= 0,
                ;
            }
        }
        true
    }

    /// Marks the task `id` as finished. The task must be complete: its
    /// content length is known and every piece of the content is committed.
    pub fn download_task_finished(&mut self, id: &str, now: u64) -> (r: Result<(), Error>)
        requires
            old(self).wf(),
        ensures
            final(self).wf(),
            outcome(
                r,
                old(self)@.task_finished_error(id@),
                id@,
                old(self)@,
                final(self)@,
                old(self)@.with_task(id@, old(self)@.task_finished(id@, now)),
            ),
    {
        match self.find_task(id) {
            Some(i) => {
                proof {
                    self@.lemma_task_at(i as int);
                }
                if !self.is_complete(&self.tasks[i]) {
                    return Err(Error::InvariantViolation(String::from_str(id)));
                }
                let mut t = self.tasks[i].clone();
                if t.state != TaskState::Finished {
                    t.finished_at = Some(now);
                }
                t.state = TaskState::Finished;
                t.updated_at = now;
                proof {
                    assert(self@.complete(t@)) by {
                        assert forall|n: u32|
                            n * t@.piece_length < t@.content_length->0 implies #[trigger] self@.committed(
                            t@.id,
                            n,
                        ) by {
                            assert(self@.committed(self@.tasks[i as int].id, n));
                        }
                    }
                    self@.lemma_update_task(i as int, t@);
                }
                self.replace_task(i, t);
                Ok(())
            },
            None => Err(Error::TaskNotFound(String::from_str(id))),
        }
    }

    /// Marks the task `id` as failed. A finished task stays finished.
    pub fn download_task_failed(&mut self, id: &str, now: u64) -> (r: Result<(), Error>)
        requires
            old(self).wf(),
        ensures
            final(self).wf(),
            outcome(
                r,
                old(self)@.task_missing_error(id@),
                id@,
                old(self)@,
                final(self)@,
                old(self)@.with_task(id@, old(self)@.task_failed(id@, now)),
            ),
    {
        match self.find_task(id) {
            Some(i) => {
                proof {
                    self@.lemma_task_at(i as int);
                }
                let mut t = self.tasks[i].clone();
                if t.state != TaskState::Finished {
                    t.state = TaskState::Failed;
                }
                t.updated_at = now;
                proof {
                    if t@.state == TaskState::Finished {
                        assert(self@.complete(self@.tasks[i as int]));
                        assert(self@.complete(t@)) by {
                            assert forall|n: u32|
                                n * t@.piece_length < t@.content_length->0 implies #[trigger] self@.committed(
                                t@.id,
                                n,
                            ) by {
                                assert(self@.committed(self@.tasks[i as int].id, n));
                            }
                        }
                    }
                    self@.lemma_update_task(i as int, t@);
                }
                self.replace_task(i, t);
                Ok(())
            },
            None => Err(Error::TaskNotFound(String::from_str(id))),
        }
    }

    fn touch_task(&mut self, id: &str, now: u64) -> (r: Result<(), Error>)
        requires
            old(self).wf(),
        ensures
            final(self).wf(),
            outcome(
                r,
                old(self)@.task_missing_error(id@),
                id@,
                old(self)@,
                final(self)@,
                old(self)@.with_task(id@, old(self)@.task_touched(id@, now)),
            ),
    {
        match self.find_task(id) {
            Some(i) => {
                proof {
                    self@.lemma_task_at(i as int);
                }
                let mut t = self.tasks[i].clone();
                t.updated_at = now;
                proof {
                    if t@.state == TaskState::Finished {
                        assert(self@.complete(self@.tasks[i as int]));
                        assert(self@.complete(t@)) by {
                            assert forall|n: u32|
                                n * t@.piece_length < t@.content_length->0 implies #[trigger] self@.committed(
                                t@.id,
                                n,
                            ) by {
                                assert(self@.committed(self@.tasks[i as int].id, n));
                            }
                        }
                    }
                    self@.lemma_update_task(i as int, t@);
                }
                self.replace_task(i, t);
                Ok(())
            },
            None => Err(Error::TaskNotFound(String::from_str(id))),
        }
    }

    /// Records that a piece of the task `id` starts to be served to another
    /// peer: the task is touched.
    pub fn upload_task_started(&mut self, id: &str, now: u64) -> (r: Result<(), Error>)
        requires
            old(self).wf(),
        ensures
            final(self).wf(),
            outcome(
                r,
                old(self)@.task_missing_error(id@),
                id@,
                old(self)@,
                final(self)@,
                old(self)@.with_task(id@, old(self)@.task_touched(id@, now)),
            ),
    {
        self.touch_task(id, now)
    }

    /// Records that a piece of the task `id` was served: the task is touched.
    pub fn upload_task_finished(&mut self, id: &str, now: u64) -> (r: Result<(), Error>)
        requires
            old(self).wf(),
        ensures
            final(self).wf(),
            outcome(
                r,
                old(self)@.task_missing_error(id@),
                id@,
                old(self)@,
                final(self)@,
                old(self)@.with_task(id@, old(self)@.task_touched(id@, now)),
            ),
    {
        self.touch_task(id, now)
    }

    /// Records that serving a piece of the task `id` failed: the task is
    /// touched.
    pub fn upload_task_failed(&mut self, id: &str, now: u64) -> (r: Result<(), Error>)
        requires
            old(self).wf(),
        ensures
            final(self).wf(),
            outcome(
                r,
                old(self)@.task_missing_error(id@),
                id@,
                old(self)@,
                final(self)@,
                old(self)@.with_task(id@, old(self)@.task_touched(id@, now)),
            ),
    {
        self.touch_task(id, now)
    }

    /// Reserves piece `number` of the task `task_id` for a writer. A
    /// committed piece is left as it is.
    pub fn download_piece_started(&mut self, task_id: &str, number: u32, now: u64) -> (r: Result<
        (),
        Error,
    >)
        requires
            old(self).wf(),
        ensures
            final(self).wf(),
            outcome(
                r,
                old(self)@.task_missing_error(task_id@),
                task_id@,
                old(self)@,
                final(self)@,
                old(self)@.piece_started(task_id@, number, now),
            ),
    {
        if self.find_task(task_id).is_none() {
            return Err(Error::TaskNotFound(String::from_str(task_id)));
        }
        match self.find_piece(task_id, number) {
            Some(i) => {
                proof {
                    self@.lemma_piece_at(i as int);
                }
                if self.pieces[i].state == PieceState::Finished {
                    return Ok(());
                }
                let mut p = self.pieces[i].clone();
                p.state = PieceState::Pending;
                p.updated_at = now;
                proof {
                    self@.lemma_update_piece(i as int, p@);
                }
                self.replace_piece(i, p);
                Ok(())
            },
            None => {
                let p = Piece {
                    task_id: String::from_str(task_id),
                    number,
                    offset: 0,
                    length: 0,
                    digest: String::new(),
                    parent_id: None,
                    state: PieceState::Pending,
                    created_at: now,
                    updated_at: now,
                    finished_at: None,
                };
                proof {
                    self@.lemma_push_piece(p@);
                }
                self.pieces.push(p);
                assert(self@.pieces =~= old(self)@.pieces.push(p@));
                Ok(())
            },
        }
    }

    /// Commits piece `number` of the task `task_id`. The piece must have
    /// been reserved and the values must fit the task. A piece is committed
    /// once: a later call succeeds only with the values already recorded,
    /// and changes nothing.
    pub fn download_piece_finished(
        &mut self,
        task_id: &str,
        number: u32,
        offset: u64,
        length: u64,
        digest: &str,
        parent_id: Option<String>,
        now: u64,
    ) -> (r: Result<(), Error>)
        requires
            old(self).wf(),
        ensures
            final(self).wf(),
            outcome(
                r,
                old(self)@.piece_finished_error(
                    task_id@,
                    number,
                    offset,
                    length,
                    digest@,
                    opt_text(parent_id),
                ),
                old(self)@.piece_error_text(
                    task_id@,
                    number,
                    old(self)@.piece_finished_error(
                        task_id@,
                        number,
                        offset,
                        length,
                        digest@,
                        opt_text(parent_id),
                    ),
                ),
                old(self)@,
                final(self)@,
                old(self)@.piece_finished(
                    task_id@,
                    number,
                    offset,
                    length,
                    digest@,
                    opt_text(parent_id),
                    now,
                ),
            ),
    {
        let t: usize = match self.find_task(task_id) {
            Some(t) => t,
            None => {
                return Err(Error::TaskNotFound(String::from_str(task_id)));
            },
        };
        let i: usize = match self.find_piece(task_id, number) {
            Some(i) => i,
            None => {
                return Err(Error::PieceNotFound(piece_id(task_id, number)));
            },
        };
        proof {
            self@.lemma_task_at(t as int);
            self@.lemma_piece_at(i as int);
        }
        if self.pieces[i].state == PieceState::Finished {
            let same = self.pieces[i].offset == offset && self.pieces[i].length == length && str_eq(
                self.pieces[i].digest.as_str(),
                digest,
            ) && same_opt_text(&self.pieces[i].parent_id, &parent_id);
            if same {
                return Ok(());
            }
            return Err(Error::InvariantViolation(piece_id(task_id, number)));
        }
        if !fits(&self.tasks[t], number, offset, length) {
            return Err(Error::InvalidParameter);
        }
        let mut p = self.pieces[i].clone();
        p.offset = offset;
        p.length = length;
        p.digest = String::from_str(digest);
        p.parent_id = parent_id;
        p.state = PieceState::Finished;
        p.updated_at = now;
        p.finished_at = Some(now);
        proof {
            self@.lemma_update_piece(i as int, p@);
        }
        self.replace_piece(i, p);
        Ok(())
    }

    /// Records that writing piece `number` of the task `task_id` failed. A
    /// committed piece is left as it is.
    pub fn download_piece_failed(&mut self, task_id: &str, number: u32, now: u64) -> (r: Result<
        (),
        Error,
    >)
        requires
            old(self).wf(),
        ensures
            final(self).wf(),
            outcome(
                r,
                old(self)@.piece_missing_error(task_id@, number),
                spec_piece_id(task_id@, number),
                old(self)@,
                final(self)@,
                old(self)@.piece_failed(task_id@, number, now),
            ),
    {
        match self.find_piece(task_id, number) {
            Some(i) => {
                proof {
                    self@.lemma_piece_at(i as int);
                }
                if self.pieces[i].state == PieceState::Finished {
                    return Ok(());
                }
                let mut p = self.pieces[i].clone();
                p.state = PieceState::Failed;
                p.updated_at = now;
                proof {
                    self@.lemma_update_piece(i as int, p@);
                }
                self.replace_piece(i, p);
                Ok(())
            },
            None => Err(Error::PieceNotFound(piece_id(task_id, number))),
        }
    }

    /// Records that bytes have been written for piece `number` of the task
    /// `task_id` that are not committed. A committed piece is left as it is.
    pub fn download_piece_in_progress(&mut self, task_id: &str, number: u32, now: u64) -> (r:
        Result<(), Error>)
        requires
            old(self).wf(),
        ensures
            final(self).wf(),
            outcome(
                r,
                old(self)@.piece_missing_error(task_id@, number),
                spec_piece_id(task_id@, number),
                old(self)@,
                final(self)@,
                old(self)@.piece_in_progress(task_id@, number, now),
            ),
    {
        match self.find_piece(task_id, number) {
            Some(i) => {
                proof {
                    self@.lemma_piece_at(i as int);
                }
                if self.pieces[i].state == PieceState::Finished {
                    return Ok(());
                }
                let mut p = self.pieces[i].clone();
                p.state = PieceState::InProgress;
                p.updated_at = now;
                proof {
                    self@.lemma_update_piece(i as int, p@);
                }
                self.replace_piece(i, p);
                Ok(())
            },
            None => Err(Error::PieceNotFound(piece_id(task_id, number))),
        }
    }

    fn touch_piece(&mut self, task_id: &str, number: u32, now: u64) -> (r: Result<(), Error>)
        requires
            old(self).wf(),
        ensures
            final(self).wf(),
            outcome(
                r,
                old(self)@.piece_missing_error(task_id@, number),
                spec_piece_id(task_id@, number),
                old(self)@,
                final(self)@,
                old(self)@.piece_touched(task_id@, number, now),
            ),
    {
        match self.find_piece(task_id, number) {
            Some(i) => {
                proof {
                    self@.lemma_piece_at(i as int);
                    assert(self@.pieces_fit());
                }
                let mut p = self.pieces[i].clone();
                p.updated_at = now;
                proof {
                    self@.lemma_update_piece(i as int, p@);
                }
                self.replace_piece(i, p);
                Ok(())
            },
            None => Err(Error::PieceNotFound(piece_id(task_id, number))),
        }
    }

    /// Records that piece `number` of the task `task_id` starts to be served
    /// to another peer: the piece is touched.
    pub fn upload_piece_started(&mut self, task_id: &str, number: u32, now: u64) -> (r: Result<
        (),
        Error,
    >)
        requires
            old(self).wf(),
        ensures
            final(self).wf(),
            outcome(
                r,
                old(self)@.piece_missing_error(task_id@, number),
                spec_piece_id(task_id@, number),
                old(self)@,
                final(self)@,
                old(self)@.piece_touched(task_id@, number, now),
            ),
    {
        self.touch_piece(task_id, number, now)
    }

    /// Records that piece `number` of the task `task_id` was served: the
    /// piece is touched.
    pub fn upload_piece_finished(&mut self, task_id: &str, number: u32, now: u64) -> (r: Result<
        (),
        Error,
    >)
        requires
            old(self).wf(),
        ensures
            final(self).wf(),
            outcome(
                r,
                old(self)@.piece_missing_error(task_id@, number),
                spec_piece_id(task_id@, number),
                old(self)@,
                final(self)@,
                old(self)@.piece_touched(task_id@, number, now),
            ),
    {
        self.touch_piece(task_id, number, now)
    }

    /// Records that serving piece `number` of the task `task_id` failed: the
    /// piece is touched.
    pub fn upload_piece_failed(&mut self, task_id: &str, number: u32, now: u64) -> (r: Result<
        (),
        Error,
    >)
        requires
            old(self).wf(),
        ensures
            final(self).wf(),
            outcome(
                r,
                old(self)@.piece_missing_error(task_id@, number),
                spec_piece_id(task_id@, number),
                old(self)@,
                final(self)@,
                old(self)@.piece_touched(task_id@, number, now),
            ),
    {
        self.touch_piece(task_id, number, now)
    }

    /// The records of the pieces of the task `task_id`, in the order in
    /// which the pieces were first reserved.
    pub fn get_pieces(&self, task_id: &str) -> (r: Result<Vec<Piece>, Error>)
        ensures
            match r {
                Ok(v) => piece_views(v@) == self@.pieces_of(task_id@),
                Err(_) => false,
            },
    {
        let ghost pred = |p: PieceView| p.task_id == task_id@;
        let mut out: Vec<Piece> = Vec::new();
        let mut i: usize = 0;
        proof {
            reveal(Seq::filter);
            assert(self@.pieces.take(0).filter(pred) =~= piece_views(out@));
        }
        while i < self.pieces.len()
            invariant
                i <= self.pieces@.len(),
                pred == (|p: PieceView| p.task_id == task_id@),
                piece_views(out@) == self@.pieces.take(i as int).filter(pred),
            decreases self.pieces@.len() - i,
        {
            let ghost before = out@;
            proof {
                reveal(Seq::filter);
                assert(self@.pieces.take(i + 1).drop_last() =~= self@.pieces.take(i as int));
                assert(self@.pieces.take(i + 1).last() == self@.pieces[i as int]);
            }
            if str_eq(self.pieces[i].task_id.as_str(), task_id) {
                out.push(self.pieces[i].clone());
                assert(piece_views(out@) =~= piece_views(before).push(self@.pieces[i as int]));
            }
            i = i + 1;
        }
        assert(self@.pieces.take(i as int) =~= self@.pieces);
        Ok(out)
    }

    fn drop_pieces(&mut self, task_id: &str)
        ensures
            final(self)@.tasks == old(self)@.tasks,
            final(self)@.pieces == old(self)@.pieces.filter(|p: PieceView| p.task_id != task_id@),
    {
        let ghost pred = |p: PieceView| p.task_id != task_id@;
        let mut out: Vec<Piece> = Vec::new();
        let mut i: usize = 0;
        proof {
            reveal(Seq::filter);
            assert(self@.pieces.take(0).filter(pred) =~= piece_views(out@));
        }
        while i < self.pieces.len()
            invariant
                i <= self.pieces@.len(),
                pred == (|p: PieceView| p.task_id != task_id@),
                piece_views(out@) == self@.pieces.take(i as int).filter(pred),
            decreases self.pieces@.len() - i,
        {
            let ghost before = out@;
            proof {
                reveal(Seq::filter);
                assert(self@.pieces.take(i + 1).drop_last() =~= self@.pieces.take(i as int));
                assert(self@.pieces.take(i + 1).last() == self@.pieces[i as int]);
            }
            if !str_eq(self.pieces[i].task_id.as_str(), task_id) {
                out.push(self.pieces[i].clone());
                assert(piece_views(out@) =~= piece_views(before).push(self@.pieces[i as int]));
            }
            i = i + 1;
        }
        assert(self@.pieces.take(i as int) =~= self@.pieces);
        self.pieces = out;
    }

    /// Deletes the piece records of the task `task_id`. A finished task
    /// keeps its pieces: for one the call fails.
    pub fn delete_pieces(&mut self, task_id: &str) -> (r: Result<(), Error>)
        requires
            old(self).wf(),
        ensures
            final(self).wf(),
            outcome(
                r,
                old(self)@.delete_pieces_error(task_id@),
                task_id@,
                old(self)@,
                final(self)@,
                old(self)@.without_pieces(task_id@),
            ),
    {
        match self.find_task(task_id) {
            Some(i) => {
                proof {
                    self@.lemma_task_at(i as int);
                }
                if self.tasks[i].state == TaskState::Finished {
                    return Err(Error::InvariantViolation(String::from_str(task_id)));
                }
            },
            None => {},
        }
        proof {
            self@.lemma_without_pieces(task_id@);
        }
        self.drop_pieces(task_id);
        Ok(())
    }

    /// Deletes the record of the task `id` together with the records of its
    /// pieces. Deleting a task that is not recorded changes nothing.
    pub fn delete_task(&mut self, id: &str) -> (r: Result<(), Error>)
        requires
            old(self).wf(),
        ensures
            final(self).wf(),
            r is Ok,
            final(self)@ == old(self)@.without_task(id@),
    {
        proof {
            self@.lemma_without_task(id@);
        }
        match self.find_task(id) {
            Some(i) => {
                proof {
                    self@.lemma_task_at(i as int);
                }
                self.tasks.remove(i);
                assert(self@.tasks =~= old(self)@.tasks.remove(i as int));
            },
            None => {},
        }
        self.drop_pieces(id);
        Ok(())
    }
}

/// Compares two optional strings.
fn same_opt_text(a: &Option<String>, b: &Option<String>) -> (r: bool)
    ensures
        r == (opt_text(*a) == opt_text(*b)),
{
    match (a, b) {
        (Some(x), Some(y)) => str_eq(x.as_str(), y.as_str()),
        (None, None) => true,
        _ => false,
    }
}

/// The product of two 64-bit numbers, which fits in 128 bits.
fn mul_wide(a: u64, b: u64) -> (r: u128)
    ensures
        r == a * b,
{
    assert(a * b <= 0xFFFF_FFFF_FFFF_FFFF * 0xFFFF_FFFF_FFFF_FFFF) by (nonlinear_arith)
        requires
            0 <= a <= 0xFFFF_FFFF_FFFF_FFFF,
            0 <= b <= 0xFFFF_FFFF_FFFF_FFFF,
    ;
    (a as u128) * (b as u128)
}

/// Tests whether a piece of `number` that starts at `offset` and holds
/// `length` bytes fits the task `t`.
pub fn fits(t: &Task, number: u32, offset: u64, length: u64) -> (r: bool)
    ensures
        r == geometry_ok(t@, number, offset, length),
{
    let start: u128 = mul_wide(number as u64, t.piece_length);
    if (offset as u128) != start || length == 0 || length > t.piece_length {
        return false;
    }
    match t.content_length {
        Some(cl) => {
            let end: u128 = (offset as u128) + (length as u128);
            end <= (cl as u128) && (length == t.piece_length || end == (cl as u128))
        },
        None => true,
    }
}

} // verus!
