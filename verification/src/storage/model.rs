//! The records of a store as a mathematical value: what each operation
//! makes of them, when it fails, and what holds of them throughout.

use crate::error::{Error, ErrorKind};
use crate::storage::metadata::{
    spec_piece_id,
    PieceState,
    PieceView,
    TaskState,
    TaskView,
};
use vstd::prelude::*;

verus! {

/// The records of a store as a mathematical value: tasks and pieces in the
/// order in which they were first recorded.
pub struct MetadataView {
    pub tasks: Seq<TaskView>,
    pub pieces: Seq<PieceView>,
}

/// True when a piece of `number` that starts at `offset` and holds `length`
/// bytes fits the task: it starts at its number times the piece length, is
/// not empty, and is a whole piece or, once the content length is known, ends
/// where the content ends.
pub open spec fn geometry_ok(task: TaskView, number: u32, offset: u64, length: u64) -> bool {
    &&& offset == number * task.piece_length
    &&& 0 < length <= task.piece_length
    &&& (task.content_length matches Some(cl) ==> offset + length <= cl && (length
        == task.piece_length || offset + length == cl))
}

/// True when every piece number of a content of `content_length` bytes fits
/// in 32 bits.
pub open spec fn numbers_fit(piece_length: u64, content_length: u64) -> bool {
    content_length <= 0x1_0000_0000 * piece_length
}

impl MetadataView {
    /// True when a task is recorded under `id`.
    pub open spec fn has_task(self, id: Seq<char>) -> bool {
        exists|i: int| 0 <= i < self.tasks.len() && (#[trigger] self.tasks[i]).id == id
    }

    /// The position of the task recorded under `id`.
    pub open spec fn task_at(self, id: Seq<char>) -> int {
        choose|i: int| 0 <= i < self.tasks.len() && (#[trigger] self.tasks[i]).id == id
    }

    /// The task recorded under `id`.
    pub open spec fn task(self, id: Seq<char>) -> TaskView {
        self.tasks[self.task_at(id)]
    }

    /// True when a piece is recorded under `task_id` and `number`.
    pub open spec fn has_piece(self, task_id: Seq<char>, number: u32) -> bool {
        exists|i: int|
            0 <= i < self.pieces.len() && (#[trigger] self.pieces[i]).task_id == task_id
                && self.pieces[i].number == number
    }

    /// The position of the piece recorded under `task_id` and `number`.
    pub open spec fn piece_at(self, task_id: Seq<char>, number: u32) -> int {
        choose|i: int|
            0 <= i < self.pieces.len() && (#[trigger] self.pieces[i]).task_id == task_id
                && self.pieces[i].number == number
    }

    /// The piece recorded under `task_id` and `number`.
    pub open spec fn piece(self, task_id: Seq<char>, number: u32) -> PieceView {
        self.pieces[self.piece_at(task_id, number)]
    }

    /// True when the piece is recorded and committed.
    pub open spec fn committed(self, task_id: Seq<char>, number: u32) -> bool {
        exists|i: int|
            0 <= i < self.pieces.len() && (#[trigger] self.pieces[i]).task_id == task_id
                && self.pieces[i].number == number && self.pieces[i].state == PieceState::Finished
    }

    /// True when the content length of `task` is known and every piece of the
    /// content is committed.
    pub open spec fn complete(self, task: TaskView) -> bool {
        &&& task.content_length matches Some(cl)
        &&& numbers_fit(task.piece_length, cl)
        &&& forall|n: u32|
            n * task.piece_length < cl ==> #[trigger] self.committed(task.id, n)
    }

    /// No two tasks share an id.
    pub open spec fn tasks_unique(self) -> bool {
        forall|i: int, j: int|
            0 <= i < j < self.tasks.len() ==> (#[trigger] self.tasks[i]).id != (
            #[trigger] self.tasks[j]).id
    }

    /// No two pieces share both task id and number.
    pub open spec fn pieces_unique(self) -> bool {
        forall|i: int, j: int|
            0 <= i < j < self.pieces.len() ==> !((#[trigger] self.pieces[i]).task_id == (
            #[trigger] self.pieces[j]).task_id && self.pieces[i].number == self.pieces[j].number)
    }

    /// Every piece belongs to a recorded task.
    pub open spec fn pieces_owned(self) -> bool {
        forall|i: int|
            0 <= i < self.pieces.len() ==> self.has_task((#[trigger] self.pieces[i]).task_id)
    }

    /// Every committed piece fits its task.
    pub open spec fn pieces_fit(self) -> bool {
        forall|i: int|
            0 <= i < self.pieces.len() && (#[trigger] self.pieces[i]).state
                == PieceState::Finished ==> geometry_ok(
                self.task(self.pieces[i].task_id),
                self.pieces[i].number,
                self.pieces[i].offset,
                self.pieces[i].length,
            )
    }

    /// Every finished task is complete.
    pub open spec fn finished_complete(self) -> bool {
        forall|i: int|
            0 <= i < self.tasks.len() && (#[trigger] self.tasks[i]).state == TaskState::Finished
                ==> self.complete(self.tasks[i])
    }

    /// The invariant of the store: ids are unique, piece lengths are positive,
    /// every piece belongs to a recorded task, every committed piece fits its
    /// task, and every finished task is complete.
    pub open spec fn wf(self) -> bool {
        &&& self.tasks_unique()
        &&& forall|i: int| 0 <= i < self.tasks.len() ==> (#[trigger] self.tasks[i]).piece_length > 0
        &&& self.pieces_unique()
        &&& self.pieces_owned()
        &&& self.pieces_fit()
        &&& self.finished_complete()
    }

    /// Where ids are unique the task at position `i` is the one found under
    /// its id.
    pub proof fn lemma_task_at(self, i: int)
        requires
            self.tasks_unique(),
            0 <= i < self.tasks.len(),
        ensures
            self.has_task(self.tasks[i].id),
            self.task_at(self.tasks[i].id) == i,
            self.task(self.tasks[i].id) == self.tasks[i],
    {
        let j = self.task_at(self.tasks[i].id);
        assert(0 <= j < self.tasks.len() && self.tasks[j].id == self.tasks[i].id);
        if j < i {
            assert(self.tasks[j].id != self.tasks[i].id);
        } else if i < j {
            assert(self.tasks[i].id != self.tasks[j].id);
        }
    }

    /// Where ids are unique the piece at position `i` is the one found under
    /// its task id and number.
    pub proof fn lemma_piece_at(self, i: int)
        requires
            self.pieces_unique(),
            0 <= i < self.pieces.len(),
        ensures
            self.has_piece(self.pieces[i].task_id, self.pieces[i].number),
            self.piece_at(self.pieces[i].task_id, self.pieces[i].number) == i,
            self.piece(self.pieces[i].task_id, self.pieces[i].number) == self.pieces[i],
    {
        let j = self.piece_at(self.pieces[i].task_id, self.pieces[i].number);
        assert(0 <= j < self.pieces.len() && self.pieces[j].task_id == self.pieces[i].task_id
            && self.pieces[j].number == self.pieces[i].number);
        if j < i {
            assert(!(self.pieces[j].task_id == self.pieces[i].task_id && self.pieces[j].number
                == self.pieces[i].number));
        } else if i < j {
            assert(!(self.pieces[i].task_id == self.pieces[j].task_id && self.pieces[i].number
                == self.pieces[j].number));
        }
    }

    /// Whether a piece is committed depends on the piece records alone.
    pub proof fn lemma_committed_frame(self, r: MetadataView, t: TaskView)
        requires
            r.pieces == self.pieces,
            self.complete(t),
        ensures
            r.complete(t),
    {
        assert forall|n: u32| n * t.piece_length < t.content_length->0 implies #[trigger] r.committed(
            t.id,
            n,
        ) by {
            assert(self.committed(t.id, n));
        }
    }

    /// Replacing the task at position `i` by one of the same id and piece
    /// length keeps the store well formed, as long as the committed pieces
    /// of the task still fit and the task is complete if it is finished.
    pub proof fn lemma_update_task(self, i: int, t: TaskView) -> (r: MetadataView)
        requires
            self.wf(),
            0 <= i < self.tasks.len(),
            t.id == self.tasks[i].id,
            t.piece_length == self.tasks[i].piece_length,
            forall|k: int|
                0 <= k < self.pieces.len() && (#[trigger] self.pieces[k]).task_id == t.id
                    && self.pieces[k].state == PieceState::Finished ==> geometry_ok(
                    t,
                    self.pieces[k].number,
                    self.pieces[k].offset,
                    self.pieces[k].length,
                ),
            t.state == TaskState::Finished ==> self.complete(t),
        ensures
            r == (MetadataView { tasks: self.tasks.update(i, t), pieces: self.pieces }),
            r.wf(),
            forall|id: Seq<char>| #[trigger] r.has_task(id) == self.has_task(id),
            r.task(t.id) == t,
            forall|id: Seq<char>|
                self.has_task(id) && id != t.id ==> #[trigger] r.task(id) == self.task(id),
    {
        let r = MetadataView { tasks: self.tasks.update(i, t), pieces: self.pieces };
        assert forall|a: int, b: int| 0 <= a < b < r.tasks.len() implies (#[trigger] r.tasks[a]).id
            != (#[trigger] r.tasks[b]).id by {
            assert(self.tasks[a].id != self.tasks[b].id);
        }
        assert forall|id: Seq<char>| #[trigger] r.has_task(id) == self.has_task(id) by {
            if self.has_task(id) {
                let k = self.task_at(id);
                assert(r.tasks[k].id == id);
            }
            if r.has_task(id) {
                let k = r.task_at(id);
                assert(self.tasks[k].id == id);
            }
        }
        r.lemma_task_at(i);
        assert forall|id: Seq<char>| self.has_task(id) && id != t.id implies #[trigger] r.task(id)
            == self.task(id) by {
            let k = self.task_at(id);
            self.lemma_task_at(k);
            r.lemma_task_at(k);
        }
        assert forall|k: int| 0 <= k < r.tasks.len() implies (#[trigger] r.tasks[k]).piece_length
            > 0 by {
            assert(self.tasks[k].piece_length > 0);
        }
        assert forall|k: int| 0 <= k < r.pieces.len() implies r.has_task(
            (#[trigger] r.pieces[k]).task_id,
        ) by {
            assert(self.has_task(self.pieces[k].task_id));
        }
        assert forall|k: int|
            0 <= k < r.pieces.len() && (#[trigger] r.pieces[k]).state
                == PieceState::Finished implies geometry_ok(
            r.task(r.pieces[k].task_id),
            r.pieces[k].number,
            r.pieces[k].offset,
            r.pieces[k].length,
        ) by {
            assert(self.has_task(self.pieces[k].task_id));
        }
        assert forall|k: int|
            0 <= k < r.tasks.len() && (#[trigger] r.tasks[k]).state
                == TaskState::Finished implies r.complete(r.tasks[k]) by {
            if k != i {
                assert(self.complete(self.tasks[k]));
            }
            self.lemma_committed_frame(r, r.tasks[k]);
        }
        r
    }

    /// Replacing the piece at position `i` by one under the same task id and
    /// number keeps the store well formed, as long as a committed piece stays
    /// committed and the new record fits its task if it is committed.
    pub proof fn lemma_update_piece(self, i: int, p: PieceView) -> (r: MetadataView)
        requires
            self.wf(),
            0 <= i < self.pieces.len(),
            p.task_id == self.pieces[i].task_id,
            p.number == self.pieces[i].number,
            p.state == PieceState::Finished ==> geometry_ok(
                self.task(p.task_id),
                p.number,
                p.offset,
                p.length,
            ),
            self.pieces[i].state == PieceState::Finished ==> p.state == PieceState::Finished,
        ensures
            r == (MetadataView { tasks: self.tasks, pieces: self.pieces.update(i, p) }),
            r.wf(),
            forall|id: Seq<char>, n: u32|
                self.committed(id, n) ==> #[trigger] r.committed(id, n),
    {
        let r = MetadataView { tasks: self.tasks, pieces: self.pieces.update(i, p) };
        assert forall|a: int, b: int| 0 <= a < b < r.pieces.len() implies !((
        #[trigger] r.pieces[a]).task_id == (#[trigger] r.pieces[b]).task_id && r.pieces[a].number
            == r.pieces[b].number) by {
            assert(!(self.pieces[a].task_id == self.pieces[b].task_id && self.pieces[a].number
                == self.pieces[b].number));
        }
        assert forall|k: int| 0 <= k < r.pieces.len() implies r.has_task(
            (#[trigger] r.pieces[k]).task_id,
        ) by {
            assert(self.has_task(self.pieces[k].task_id));
        }
        assert forall|k: int|
            0 <= k < r.pieces.len() && (#[trigger] r.pieces[k]).state
                == PieceState::Finished implies geometry_ok(
            r.task(r.pieces[k].task_id),
            r.pieces[k].number,
            r.pieces[k].offset,
            r.pieces[k].length,
        ) by {
            if k != i {
                assert(self.pieces[k].state == PieceState::Finished);
            }
        }
        assert forall|id: Seq<char>, n: u32| self.committed(id, n) implies #[trigger] r.committed(
            id,
            n,
        ) by {
            let k = choose|k: int|
                0 <= k < self.pieces.len() && (#[trigger] self.pieces[k]).task_id == id
                    && self.pieces[k].number == n && self.pieces[k].state == PieceState::Finished;
            assert(r.pieces[k].task_id == id && r.pieces[k].number == n && r.pieces[k].state
                == PieceState::Finished);
        }
        assert forall|k: int|
            0 <= k < r.tasks.len() && (#[trigger] r.tasks[k]).state
                == TaskState::Finished implies r.complete(r.tasks[k]) by {
            assert(self.complete(self.tasks[k]));
        }
        r
    }

    /// Recording a new task that is not finished keeps the store well formed.
    pub proof fn lemma_push_task(self, t: TaskView) -> (r: MetadataView)
        requires
            self.wf(),
            !self.has_task(t.id),
            t.piece_length > 0,
            t.state != TaskState::Finished,
        ensures
            r == (MetadataView { tasks: self.tasks.push(t), pieces: self.pieces }),
            r.wf(),
            r.has_task(t.id),
            r.task(t.id) == t,
    {
        let r = MetadataView { tasks: self.tasks.push(t), pieces: self.pieces };
        assert forall|a: int, b: int| 0 <= a < b < r.tasks.len() implies (#[trigger] r.tasks[a]).id
            != (#[trigger] r.tasks[b]).id by {
            if b < self.tasks.len() {
                assert(self.tasks[a].id != self.tasks[b].id);
            } else {
                assert(self.tasks[a].id != t.id);
            }
        }
        r.lemma_task_at(self.tasks.len() as int);
        assert forall|k: int| 0 <= k < r.tasks.len() implies (#[trigger] r.tasks[k]).piece_length
            > 0 by {
            if k < self.tasks.len() {
                assert(self.tasks[k].piece_length > 0);
            }
        }
        assert forall|k: int| 0 <= k < r.pieces.len() implies r.has_task(
            (#[trigger] r.pieces[k]).task_id,
        ) && r.task(r.pieces[k].task_id) == self.task(self.pieces[k].task_id) by {
            assert(self.has_task(self.pieces[k].task_id));
            let a = self.task_at(self.pieces[k].task_id);
            self.lemma_task_at(a);
            assert(r.tasks[a] == self.tasks[a]);
            r.lemma_task_at(a);
        }
        assert forall|k: int|
            0 <= k < r.tasks.len() && (#[trigger] r.tasks[k]).state
                == TaskState::Finished implies r.complete(r.tasks[k]) by {
            assert(self.complete(self.tasks[k]));
            self.lemma_committed_frame(r, r.tasks[k]);
        }
        r
    }

    /// Recording a new piece that is not committed, for a recorded task,
    /// keeps the store well formed.
    pub proof fn lemma_push_piece(self, p: PieceView) -> (r: MetadataView)
        requires
            self.wf(),
            self.has_task(p.task_id),
            !self.has_piece(p.task_id, p.number),
            p.state != PieceState::Finished,
        ensures
            r == (MetadataView { tasks: self.tasks, pieces: self.pieces.push(p) }),
            r.wf(),
    {
        let r = MetadataView { tasks: self.tasks, pieces: self.pieces.push(p) };
        assert forall|a: int, b: int| 0 <= a < b < r.pieces.len() implies !((
        #[trigger] r.pieces[a]).task_id == (#[trigger] r.pieces[b]).task_id && r.pieces[a].number
            == r.pieces[b].number) by {
            if b < self.pieces.len() {
                assert(!(self.pieces[a].task_id == self.pieces[b].task_id && self.pieces[a].number
                    == self.pieces[b].number));
            } else {
                assert(!(self.pieces[a].task_id == p.task_id && self.pieces[a].number
                    == p.number));
            }
        }
        assert forall|k: int| 0 <= k < r.pieces.len() implies r.has_task(
            (#[trigger] r.pieces[k]).task_id,
        ) by {
            if k < self.pieces.len() {
                assert(self.has_task(self.pieces[k].task_id));
            }
        }
        assert forall|k: int|
            0 <= k < r.pieces.len() && (#[trigger] r.pieces[k]).state
                == PieceState::Finished implies geometry_ok(
            r.task(r.pieces[k].task_id),
            r.pieces[k].number,
            r.pieces[k].offset,
            r.pieces[k].length,
        ) by {
            assert(self.pieces[k].state == PieceState::Finished);
        }
        assert forall|k: int|
            0 <= k < r.tasks.len() && (#[trigger] r.tasks[k]).state
                == TaskState::Finished implies r.complete(r.tasks[k]) by {
            assert(self.complete(self.tasks[k]));
            assert forall|n: u32|
                n * r.tasks[k].piece_length < r.tasks[k].content_length->0 implies #[trigger] r.committed(
                r.tasks[k].id,
                n,
            ) by {
                assert(self.committed(self.tasks[k].id, n));
                let a = choose|a: int|
                    0 <= a < self.pieces.len() && (#[trigger] self.pieces[a]).task_id
                        == self.tasks[k].id && self.pieces[a].number == n && self.pieces[a].state
                        == PieceState::Finished;
                assert(r.pieces[a] == self.pieces[a]);
            }
        }
        r
    }

    /// A committed piece is a recorded piece in state `Finished`, and the
    /// other way round.
    pub proof fn lemma_committed(self, task_id: Seq<char>, number: u32)
        requires
            self.wf(),
        ensures
            self.committed(task_id, number) <==> (self.has_piece(task_id, number) && self.piece(
                task_id,
                number,
            ).state == PieceState::Finished),
    {
        if self.committed(task_id, number) {
            let i = choose|i: int|
                0 <= i < self.pieces.len() && (#[trigger] self.pieces[i]).task_id == task_id
                    && self.pieces[i].number == number && self.pieces[i].state
                    == PieceState::Finished;
            self.lemma_piece_at(i);
        }
        if self.has_piece(task_id, number) {
            let i = self.piece_at(task_id, number);
            self.lemma_piece_at(i);
        }
    }
}

/// A fresh record for a task that starts at `now`.
pub open spec fn new_task(id: Seq<char>, piece_length: u64, now: u64) -> TaskView {
    TaskView {
        id,
        piece_length,
        content_length: None,
        state: TaskState::InProgress,
        created_at: now,
        updated_at: now,
        finished_at: None,
    }
}

/// A fresh record for a piece reserved at `now`.
pub open spec fn new_piece(task_id: Seq<char>, number: u32, now: u64) -> PieceView {
    PieceView {
        task_id,
        number,
        offset: 0,
        length: 0,
        digest: Seq::empty(),
        parent_id: None,
        state: PieceState::Pending,
        created_at: now,
        updated_at: now,
        finished_at: None,
    }
}

impl MetadataView {
    /// The store with the task `id` replaced by `t`.
    pub open spec fn with_task(self, id: Seq<char>, t: TaskView) -> MetadataView {
        MetadataView { tasks: self.tasks.update(self.task_at(id), t), pieces: self.pieces }
    }

    /// The store with the piece under `task_id` and `number` replaced by `p`.
    pub open spec fn with_piece(self, task_id: Seq<char>, number: u32, p: PieceView) -> MetadataView {
        MetadataView {
            tasks: self.tasks,
            pieces: self.pieces.update(self.piece_at(task_id, number), p),
        }
    }

    /// True when every committed piece of the task `t.id` fits `t`.
    pub open spec fn pieces_fit_task(self, t: TaskView) -> bool {
        forall|k: int|
            0 <= k < self.pieces.len() && (#[trigger] self.pieces[k]).task_id == t.id
                && self.pieces[k].state == PieceState::Finished ==> geometry_ok(
                t,
                self.pieces[k].number,
                self.pieces[k].offset,
                self.pieces[k].length,
            )
    }

    /// Why `download_task_started` fails, if it does: on a zero piece length,
    /// and on a task recorded with another piece length.
    pub open spec fn task_started_error(self, id: Seq<char>, piece_length: u64) -> Option<
        ErrorKind,
    > {
        if piece_length == 0 {
            Some(ErrorKind::InvalidParameter)
        } else if self.has_task(id) && self.task(id).piece_length != piece_length {
            Some(ErrorKind::InvariantViolation)
        } else {
            None
        }
    }

    /// The store after `download_task_started`: a recorded task is touched,
    /// a new one is appended in state `InProgress`.
    pub open spec fn task_started(self, id: Seq<char>, piece_length: u64, now: u64) -> MetadataView {
        if self.has_task(id) {
            self.with_task(id, TaskView { updated_at: now, ..self.task(id) })
        } else {
            MetadataView {
                tasks: self.tasks.push(new_task(id, piece_length, now)),
                pieces: self.pieces,
            }
        }
    }

    /// The task `id` with its content length set to `content_length`.
    pub open spec fn task_with_content_length(
        self,
        id: Seq<char>,
        content_length: u64,
        now: u64,
    ) -> TaskView {
        TaskView { content_length: Some(content_length), updated_at: now, ..self.task(id) }
    }

    /// Why `set_task_content_length` fails, if it does: on an unknown task,
    /// on a content length that differs from the recorded one, and on one
    /// that a committed piece of the task does not fit.
    pub open spec fn content_length_error(self, id: Seq<char>, content_length: u64) -> Option<
        ErrorKind,
    > {
        if !self.has_task(id) {
            Some(ErrorKind::TaskNotFound)
        } else if self.task(id).content_length is Some && self.task(id).content_length != Some(
            content_length,
        ) {
            Some(ErrorKind::InvariantViolation)
        } else if !self.pieces_fit_task(self.task_with_content_length(id, content_length, 0)) {
            Some(ErrorKind::InvariantViolation)
        } else {
            None
        }
    }

    /// Why an operation that needs the task `id` fails, if it does.
    pub open spec fn task_missing_error(self, id: Seq<char>) -> Option<ErrorKind> {
        if !self.has_task(id) {
            Some(ErrorKind::TaskNotFound)
        } else {
            None
        }
    }

    /// Why `download_task_finished` fails, if it does: on an unknown task and
    /// on one that is not complete.
    pub open spec fn task_finished_error(self, id: Seq<char>) -> Option<ErrorKind> {
        if !self.has_task(id) {
            Some(ErrorKind::TaskNotFound)
        } else if !self.complete(self.task(id)) {
            Some(ErrorKind::InvariantViolation)
        } else {
            None
        }
    }

    /// The task `id` once finished at `now`. The time of the first finish
    /// stays.
    pub open spec fn task_finished(self, id: Seq<char>, now: u64) -> TaskView {
        TaskView {
            state: TaskState::Finished,
            updated_at: now,
            finished_at: if self.task(id).state == TaskState::Finished {
                self.task(id).finished_at
            } else {
                Some(now)
            },
            ..self.task(id)
        }
    }

    /// The task `id` once failed at `now`. A finished task stays finished.
    pub open spec fn task_failed(self, id: Seq<char>, now: u64) -> TaskView {
        TaskView {
            state: if self.task(id).state == TaskState::Finished {
                TaskState::Finished
            } else {
                TaskState::Failed
            },
            updated_at: now,
            ..self.task(id)
        }
    }

    /// The task `id` touched at `now`.
    pub open spec fn task_touched(self, id: Seq<char>, now: u64) -> TaskView {
        TaskView { updated_at: now, ..self.task(id) }
    }
}

impl MetadataView {
    /// The text that an error of a piece operation carries: the task id for
    /// an unknown task, the piece id otherwise.
    pub open spec fn piece_error_text(
        self,
        task_id: Seq<char>,
        number: u32,
        due: Option<ErrorKind>,
    ) -> Seq<char> {
        if due == Some(ErrorKind::TaskNotFound) {
            task_id
        } else {
            spec_piece_id(task_id, number)
        }
    }

    /// The store after `download_piece_started`: a committed piece stays as
    /// it is, any other recorded piece is reserved anew, and a piece that is
    /// not recorded is appended in state `Pending`.
    pub open spec fn piece_started(self, task_id: Seq<char>, number: u32, now: u64) -> MetadataView {
        if self.has_piece(task_id, number) {
            if self.piece(task_id, number).state == PieceState::Finished {
                self
            } else {
                self.with_piece(
                    task_id,
                    number,
                    PieceView {
                        state: PieceState::Pending,
                        updated_at: now,
                        ..self.piece(task_id, number)
                    },
                )
            }
        } else {
            MetadataView {
                tasks: self.tasks,
                pieces: self.pieces.push(new_piece(task_id, number, now)),
            }
        }
    }

    /// True when the committed piece under `task_id` and `number` holds
    /// exactly these values.
    pub open spec fn piece_agrees(
        self,
        task_id: Seq<char>,
        number: u32,
        offset: u64,
        length: u64,
        digest: Seq<char>,
        parent_id: Option<Seq<char>>,
    ) -> bool {
        let p = self.piece(task_id, number);
        p.offset == offset && p.length == length && p.digest == digest && p.parent_id == parent_id
    }

    /// Why `download_piece_finished` fails, if it does: on an unknown task,
    /// on a piece that was not reserved, on a committed piece that holds
    /// other values, and on values that do not fit the task.
    pub open spec fn piece_finished_error(
        self,
        task_id: Seq<char>,
        number: u32,
        offset: u64,
        length: u64,
        digest: Seq<char>,
        parent_id: Option<Seq<char>>,
    ) -> Option<ErrorKind> {
        if !self.has_task(task_id) {
            Some(ErrorKind::TaskNotFound)
        } else if !self.has_piece(task_id, number) {
            Some(ErrorKind::PieceNotFound)
        } else if self.piece(task_id, number).state == PieceState::Finished {
            if self.piece_agrees(task_id, number, offset, length, digest, parent_id) {
                None
            } else {
                Some(ErrorKind::InvariantViolation)
            }
        } else if !geometry_ok(self.task(task_id), number, offset, length) {
            Some(ErrorKind::InvalidParameter)
        } else {
            None
        }
    }

    /// The store after `download_piece_finished`: a committed piece stays as
    /// it is, a reserved one is committed with the values given.
    pub open spec fn piece_finished(
        self,
        task_id: Seq<char>,
        number: u32,
        offset: u64,
        length: u64,
        digest: Seq<char>,
        parent_id: Option<Seq<char>>,
        now: u64,
    ) -> MetadataView {
        if self.piece(task_id, number).state == PieceState::Finished {
            self
        } else {
            self.with_piece(
                task_id,
                number,
                PieceView {
                    offset,
                    length,
                    digest,
                    parent_id,
                    state: PieceState::Finished,
                    updated_at: now,
                    finished_at: Some(now),
                    ..self.piece(task_id, number)
                },
            )
        }
    }

    /// Why an operation that needs the piece fails, if it does.
    pub open spec fn piece_missing_error(self, task_id: Seq<char>, number: u32) -> Option<
        ErrorKind,
    > {
        if !self.has_piece(task_id, number) {
            Some(ErrorKind::PieceNotFound)
        } else {
            None
        }
    }

    /// The store after `download_piece_failed`: a committed piece stays as it
    /// is, any other goes to state `Failed`.
    pub open spec fn piece_failed(self, task_id: Seq<char>, number: u32, now: u64) -> MetadataView {
        if self.piece(task_id, number).state == PieceState::Finished {
            self
        } else {
            self.with_piece(
                task_id,
                number,
                PieceView {
                    state: PieceState::Failed,
                    updated_at: now,
                    ..self.piece(task_id, number)
                },
            )
        }
    }

    /// The store after `download_piece_in_progress`: a committed piece stays
    /// as it is, any other goes to state `InProgress`.
    pub open spec fn piece_in_progress(
        self,
        task_id: Seq<char>,
        number: u32,
        now: u64,
    ) -> MetadataView {
        if self.piece(task_id, number).state == PieceState::Finished {
            self
        } else {
            self.with_piece(
                task_id,
                number,
                PieceView {
                    state: PieceState::InProgress,
                    updated_at: now,
                    ..self.piece(task_id, number)
                },
            )
        }
    }

    /// The store with the piece touched at `now`.
    pub open spec fn piece_touched(self, task_id: Seq<char>, number: u32, now: u64) -> MetadataView {
        self.with_piece(
            task_id,
            number,
            PieceView { updated_at: now, ..self.piece(task_id, number) },
        )
    }

    /// The pieces of the task `task_id`, in the order of the store.
    pub open spec fn pieces_of(self, task_id: Seq<char>) -> Seq<PieceView> {
        self.pieces.filter(|p: PieceView| p.task_id == task_id)
    }

    /// The store without the pieces of the task `task_id`.
    pub open spec fn without_pieces(self, task_id: Seq<char>) -> MetadataView {
        MetadataView {
            tasks: self.tasks,
            pieces: self.pieces.filter(|p: PieceView| p.task_id != task_id),
        }
    }

    /// The store without the task `id` and without its pieces.
    pub open spec fn without_task(self, id: Seq<char>) -> MetadataView {
        MetadataView {
            tasks: if self.has_task(id) {
                self.tasks.remove(self.task_at(id))
            } else {
                self.tasks
            },
            pieces: self.pieces.filter(|p: PieceView| p.task_id != id),
        }
    }

    /// Why `delete_pieces` fails, if it does: a finished task keeps its
    /// pieces.
    pub open spec fn delete_pieces_error(self, task_id: Seq<char>) -> Option<ErrorKind> {
        if self.has_task(task_id) && self.task(task_id).state == TaskState::Finished {
            Some(ErrorKind::InvariantViolation)
        } else {
            None
        }
    }
}

impl MetadataView {
    /// Dropping the pieces of a task that is not finished, or that goes with
    /// them, keeps the rest of the store as it was.
    pub proof fn lemma_without_pieces(self, task_id: Seq<char>)
        requires
            self.wf(),
            self.delete_pieces_error(task_id) is None,
        ensures
            self.without_pieces(task_id).wf(),
    {
        let pred = |p: PieceView| p.task_id != task_id;
        let r = self.without_pieces(task_id);
        let map = crate::seq_lemmas::lemma_filter_positions(self.pieces, pred);
        assert forall|a: int, b: int| 0 <= a < b < r.pieces.len() implies !((
        #[trigger] r.pieces[a]).task_id == (#[trigger] r.pieces[b]).task_id && r.pieces[a].number
            == r.pieces[b].number) by {
            assert(map[a] < map[b]);
            assert(!(self.pieces[map[a]].task_id == self.pieces[map[b]].task_id
                && self.pieces[map[a]].number == self.pieces[map[b]].number));
        }
        assert forall|k: int| 0 <= k < r.pieces.len() implies r.has_task(
            (#[trigger] r.pieces[k]).task_id,
        ) by {
            assert(self.has_task(self.pieces[map[k]].task_id));
        }
        assert forall|k: int|
            0 <= k < r.pieces.len() && (#[trigger] r.pieces[k]).state
                == PieceState::Finished implies geometry_ok(
            r.task(r.pieces[k].task_id),
            r.pieces[k].number,
            r.pieces[k].offset,
            r.pieces[k].length,
        ) by {
            assert(self.pieces[map[k]].state == PieceState::Finished);
        }
        assert forall|k: int|
            0 <= k < r.tasks.len() && (#[trigger] r.tasks[k]).state
                == TaskState::Finished implies r.complete(r.tasks[k]) by {
            let t = self.tasks[k];
            self.lemma_task_at(k);
            assert(self.complete(t));
            assert(t.id != task_id);
            assert forall|n: u32| n * t.piece_length < t.content_length->0 implies #[trigger] r.committed(
                t.id,
                n,
            ) by {
                assert(self.committed(t.id, n));
                let a = choose|a: int|
                    0 <= a < self.pieces.len() && (#[trigger] self.pieces[a]).task_id == t.id
                        && self.pieces[a].number == n && self.pieces[a].state
                        == PieceState::Finished;
                assert(pred(self.pieces[a]));
                let c = choose|c: int| 0 <= c < map.len() && #[trigger] map[c] == a;
                assert(r.pieces[c] == self.pieces[a]);
            }
        }
    }

    /// Dropping a task together with its pieces keeps the store well formed
    /// and leaves every other task as it was.
    pub proof fn lemma_without_task(self, id: Seq<char>)
        requires
            self.wf(),
        ensures
            self.without_task(id).wf(),
            !self.without_task(id).has_task(id),
            forall|x: Seq<char>|
                x != id ==> #[trigger] self.without_task(id).has_task(x) == self.has_task(x),
            forall|x: Seq<char>|
                x != id && self.has_task(x) ==> #[trigger] self.without_task(id).task(x)
                    == self.task(x),
    {
        let pred = |p: PieceView| p.task_id != id;
        let r = self.without_task(id);
        let map = crate::seq_lemmas::lemma_filter_positions(self.pieces, pred);
        let gone = if self.has_task(id) {
            self.task_at(id)
        } else {
            self.tasks.len() as int
        };
        if self.has_task(id) {
            self.lemma_task_at(gone);
        }
        // Position `k` of the new task list came from `src(k)` of the old one.
        let src = |k: int|
            if k < gone {
                k
            } else {
                k + 1
            };
        assert forall|k: int| 0 <= k < r.tasks.len() implies #[trigger] r.tasks[k]
            == self.tasks[src(k)] && 0 <= src(k) < self.tasks.len() && r.tasks[k].id != id by {
            if self.has_task(id) {
                if self.tasks[src(k)].id == id {
                    self.lemma_task_at(src(k));
                }
            } else {
                assert(self.tasks[k].id != id);
            }
        }
        assert(r.tasks_unique()) by {
            assert forall|a: int, b: int| 0 <= a < b < r.tasks.len() implies (
            #[trigger] r.tasks[a]).id != (#[trigger] r.tasks[b]).id by {
                assert(r.tasks[a] == self.tasks[src(a)]);
                assert(r.tasks[b] == self.tasks[src(b)]);
                assert(self.tasks[src(a)].id != self.tasks[src(b)].id);
            }
        }
        assert(!r.has_task(id));
        assert forall|x: Seq<char>| x != id implies #[trigger] r.has_task(x) == self.has_task(
            x,
        ) by {
            if self.has_task(x) {
                let a = self.task_at(x);
                let k = if a < gone {
                    a
                } else {
                    a - 1
                };
                assert(r.tasks[k] == self.tasks[src(k)]);
            }
            if r.has_task(x) {
                let k = r.task_at(x);
                assert(r.tasks[k] == self.tasks[src(k)]);
            }
        }
        assert forall|x: Seq<char>| x != id && self.has_task(x) implies #[trigger] r.task(x)
            == self.task(x) by {
            let a = self.task_at(x);
            self.lemma_task_at(a);
            let k = if a < gone {
                a
            } else {
                a - 1
            };
            assert(r.tasks[k] == self.tasks[src(k)]);
            r.lemma_task_at(k);
        }
        assert forall|k: int| 0 <= k < r.tasks.len() implies (#[trigger] r.tasks[k]).piece_length
            > 0 by {
            assert(r.tasks[k] == self.tasks[src(k)]);
        }
        assert forall|a: int, b: int| 0 <= a < b < r.pieces.len() implies !((
        #[trigger] r.pieces[a]).task_id == (#[trigger] r.pieces[b]).task_id && r.pieces[a].number
            == r.pieces[b].number) by {
            assert(map[a] < map[b]);
            assert(!(self.pieces[map[a]].task_id == self.pieces[map[b]].task_id
                && self.pieces[map[a]].number == self.pieces[map[b]].number));
        }
        assert forall|k: int| 0 <= k < r.pieces.len() implies r.has_task(
            (#[trigger] r.pieces[k]).task_id,
        ) by {
            assert(self.has_task(self.pieces[map[k]].task_id));
        }
        assert forall|k: int|
            0 <= k < r.pieces.len() && (#[trigger] r.pieces[k]).state
                == PieceState::Finished implies geometry_ok(
            r.task(r.pieces[k].task_id),
            r.pieces[k].number,
            r.pieces[k].offset,
            r.pieces[k].length,
        ) by {
            assert(self.pieces[map[k]].state == PieceState::Finished);
            assert(self.has_task(self.pieces[map[k]].task_id));
        }
        assert forall|k: int|
            0 <= k < r.tasks.len() && (#[trigger] r.tasks[k]).state
                == TaskState::Finished implies r.complete(r.tasks[k]) by {
            let t = r.tasks[k];
            assert(t == self.tasks[src(k)]);
            assert(self.complete(t));
            assert forall|n: u32| n * t.piece_length < t.content_length->0 implies #[trigger] r.committed(
                t.id,
                n,
            ) by {
                assert(self.committed(t.id, n));
                let a = choose|a: int|
                    0 <= a < self.pieces.len() && (#[trigger] self.pieces[a]).task_id == t.id
                        && self.pieces[a].number == n && self.pieces[a].state
                        == PieceState::Finished;
                assert(pred(self.pieces[a]));
                let c = choose|c: int| 0 <= c < map.len() && #[trigger] map[c] == a;
                assert(r.pieces[c] == self.pieces[a]);
            }
        }
    }
}

impl MetadataView {
    /// At most one record exists for a task id and a piece number.
    pub proof fn lemma_one_record(self, i: int, j: int)
        requires
            self.wf(),
            0 <= i < self.pieces.len(),
            0 <= j < self.pieces.len(),
            self.pieces[i].task_id == self.pieces[j].task_id,
            self.pieces[i].number == self.pieces[j].number,
        ensures
            i == j,
    {
        self.lemma_piece_at(i);
        self.lemma_piece_at(j);
    }

    /// A piece is committed once: after a commit, a commit of the same piece
    /// with another offset, length, digest or parent is refused, and one with
    /// the same values changes nothing.
    pub proof fn lemma_commit_once(
        self,
        task_id: Seq<char>,
        number: u32,
        first: PieceView,
        second: PieceView,
        now: u64,
    )
        requires
            self.wf(),
            self.piece_finished_error(
                task_id,
                number,
                first.offset,
                first.length,
                first.digest,
                first.parent_id,
            ) is None,
        ensures
            ({
                let after = self.piece_finished(
                    task_id,
                    number,
                    first.offset,
                    first.length,
                    first.digest,
                    first.parent_id,
                    now,
                );
                let again = after.piece_finished_error(
                    task_id,
                    number,
                    second.offset,
                    second.length,
                    second.digest,
                    second.parent_id,
                );
                &&& after.committed(task_id, number)
                &&& after.piece_agrees(
                    task_id,
                    number,
                    first.offset,
                    first.length,
                    first.digest,
                    first.parent_id,
                )
                &&& (first.offset != second.offset || first.length != second.length || first.digest
                    != second.digest || first.parent_id != second.parent_id) ==> again == Some(
                    ErrorKind::InvariantViolation,
                )
                &&& (first.offset == second.offset && first.length == second.length && first.digest
                    == second.digest && first.parent_id == second.parent_id) ==> again is None
                    && after.piece_finished(
                    task_id,
                    number,
                    second.offset,
                    second.length,
                    second.digest,
                    second.parent_id,
                    now,
                ) == after
            }),
    {
        let at = self.piece_at(task_id, number);
        self.lemma_piece_at(at);
        let after = self.piece_finished(
            task_id,
            number,
            first.offset,
            first.length,
            first.digest,
            first.parent_id,
            now,
        );
        if self.piece(task_id, number).state != PieceState::Finished {
            let p = after.pieces[at];
            self.lemma_update_piece(at, p);
        }
        after.lemma_piece_at(at);
        assert(after.has_task(task_id)) by {
            let k = self.task_at(task_id);
            assert(after.tasks[k].id == task_id);
        }
        assert(after.pieces[at].state == PieceState::Finished);
    }

    /// In a finished task every byte of the content lies in a committed
    /// piece: the byte at position `b` lies in the piece of number `b`
    /// divided by the piece length.
    pub proof fn lemma_finished_covers(self, id: Seq<char>, b: int)
        requires
            self.wf(),
            self.has_task(id),
            self.task(id).state == TaskState::Finished,
            0 <= b < self.task(id).content_length->0,
        ensures
            self.task(id).content_length is Some,
            0 <= b / (self.task(id).piece_length as int) <= u32::MAX,
            self.committed(id, (b / (self.task(id).piece_length as int)) as u32),
            ({
                let p = self.piece(id, (b / (self.task(id).piece_length as int)) as u32);
                p.state == PieceState::Finished && p.offset <= b < p.offset + p.length
            }),
    {
        let i = self.task_at(id);
        self.lemma_task_at(i);
        let t = self.task(id);
        assert(self.complete(t));
        let pl = t.piece_length as int;
        let cl = t.content_length->0 as int;
        let n = b / pl;
        assert(n * pl <= b < (n + 1) * pl && n >= 0) by (nonlinear_arith)
            requires
                n == b / pl,
                pl > 0,
                b >= 0,
        ;
        assert(n < 0x1_0000_0000) by (nonlinear_arith)
            requires
                n * pl <= b,
                b < cl,
                cl <= 0x1_0000_0000 * pl,
                pl > 0,
        ;
        let m = n as u32;
        assert(m * t.piece_length < cl);
        assert(self.committed(id, m));
        self.lemma_committed(id, m);
        let at = self.piece_at(id, m);
        self.lemma_piece_at(at);
        let p = self.pieces[at];
        assert(geometry_ok(t, p.number, p.offset, p.length));
        assert((n + 1) * pl == n * pl + pl) by (nonlinear_arith);
    }

    /// Two committed pieces of one task do not overlap, and a committed
    /// piece of a task whose content length is known ends within the
    /// content.
    pub proof fn lemma_committed_apart(self, i: int, j: int)
        requires
            self.wf(),
            0 <= i < self.pieces.len(),
            0 <= j < self.pieces.len(),
            i != j,
            self.pieces[i].task_id == self.pieces[j].task_id,
            self.pieces[i].state == PieceState::Finished,
            self.pieces[j].state == PieceState::Finished,
        ensures
            self.pieces[i].offset + self.pieces[i].length <= self.pieces[j].offset
                || self.pieces[j].offset + self.pieces[j].length <= self.pieces[i].offset,
            self.task(self.pieces[i].task_id).content_length matches Some(cl)
                ==> self.pieces[i].offset + self.pieces[i].length <= cl,
    {
        self.lemma_piece_at(i);
        self.lemma_piece_at(j);
        let t = self.task(self.pieces[i].task_id);
        let pl = t.piece_length as int;
        let a = self.pieces[i].number as int;
        let b = self.pieces[j].number as int;
        assert(geometry_ok(t, self.pieces[i].number, self.pieces[i].offset, self.pieces[i].length));
        assert(geometry_ok(t, self.pieces[j].number, self.pieces[j].offset, self.pieces[j].length));
        if a < b {
            assert((a + 1) * pl <= b * pl) by (nonlinear_arith)
                requires
                    a + 1 <= b,
                    pl >= 0,
            ;
            assert((a + 1) * pl == a * pl + pl) by (nonlinear_arith);
        } else {
            assert((b + 1) * pl <= a * pl) by (nonlinear_arith)
                requires
                    b + 1 <= a,
                    pl >= 0,
            ;
            assert((b + 1) * pl == b * pl + pl) by (nonlinear_arith);
        }
    }
}

impl MetadataView {
    /// Replacing a piece by one that is committed if the old one was keeps
    /// every committed piece committed.
    pub proof fn lemma_with_piece_keeps_committed(
        self,
        task_id: Seq<char>,
        number: u32,
        p: PieceView,
    )
        requires
            self.has_piece(task_id, number),
            p.task_id == task_id,
            p.number == number,
            self.piece(task_id, number).state == PieceState::Finished ==> p.state
                == PieceState::Finished,
        ensures
            forall|id: Seq<char>, n: u32|
                self.committed(id, n) ==> #[trigger] self.with_piece(task_id, number, p).committed(
                    id,
                    n,
                ),
            self.with_piece(task_id, number, p).tasks == self.tasks,
    {
        let after = self.with_piece(task_id, number, p);
        let at = self.piece_at(task_id, number);
        assert forall|id: Seq<char>, n: u32| self.committed(id, n) implies #[trigger] after.committed(
            id,
            n,
        ) by {
            let i = choose|i: int|
                0 <= i < self.pieces.len() && (#[trigger] self.pieces[i]).task_id == id
                    && self.pieces[i].number == n && self.pieces[i].state
                    == PieceState::Finished;
            assert(after.pieces[i].task_id == id && after.pieces[i].number == n
                && after.pieces[i].state == PieceState::Finished);
        }
    }

    /// Recording a new piece keeps every committed piece committed.
    pub proof fn lemma_push_piece_keeps_committed(self, p: PieceView)
        ensures
            forall|id: Seq<char>, n: u32|
                self.committed(id, n) ==> #[trigger] (MetadataView {
                    tasks: self.tasks,
                    pieces: self.pieces.push(p),
                }).committed(id, n),
    {
        let after = MetadataView { tasks: self.tasks, pieces: self.pieces.push(p) };
        assert forall|id: Seq<char>, n: u32| self.committed(id, n) implies #[trigger] after.committed(
            id,
            n,
        ) by {
            let i = choose|i: int|
                0 <= i < self.pieces.len() && (#[trigger] self.pieces[i]).task_id == id
                    && self.pieces[i].number == n && self.pieces[i].state
                    == PieceState::Finished;
            assert(after.pieces[i] == self.pieces[i]);
        }
    }

    /// No operation on a piece takes a commit back: after a piece is
    /// reserved, marked as in progress, failed or touched, or committed,
    /// every piece that was committed still is.
    pub proof fn lemma_piece_operations_keep_committed(
        self,
        task_id: Seq<char>,
        number: u32,
        values: PieceView,
        now: u64,
    )
        ensures
            forall|id: Seq<char>, n: u32|
                self.committed(id, n) ==> #[trigger] self.piece_started(
                    task_id,
                    number,
                    now,
                ).committed(id, n),
            self.has_piece(task_id, number) ==> forall|id: Seq<char>, n: u32|
                self.committed(id, n) ==> #[trigger] self.piece_in_progress(
                    task_id,
                    number,
                    now,
                ).committed(id, n),
            self.has_piece(task_id, number) ==> forall|id: Seq<char>, n: u32|
                self.committed(id, n) ==> #[trigger] self.piece_failed(
                    task_id,
                    number,
                    now,
                ).committed(id, n),
            self.has_piece(task_id, number) ==> forall|id: Seq<char>, n: u32|
                self.committed(id, n) ==> #[trigger] self.piece_touched(
                    task_id,
                    number,
                    now,
                ).committed(id, n),
            self.has_piece(task_id, number) ==> forall|id: Seq<char>, n: u32|
                self.committed(id, n) ==> #[trigger] self.piece_finished(
                    task_id,
                    number,
                    values.offset,
                    values.length,
                    values.digest,
                    values.parent_id,
                    now,
                ).committed(id, n),
    {
        let old = self.piece(task_id, number);
        if self.has_piece(task_id, number) {
            if old.state != PieceState::Finished {
                self.lemma_with_piece_keeps_committed(
                    task_id,
                    number,
                    PieceView { state: PieceState::Pending, updated_at: now, ..old },
                );
                self.lemma_with_piece_keeps_committed(
                    task_id,
                    number,
                    PieceView { state: PieceState::InProgress, updated_at: now, ..old },
                );
                self.lemma_with_piece_keeps_committed(
                    task_id,
                    number,
                    PieceView { state: PieceState::Failed, updated_at: now, ..old },
                );
            }
            self.lemma_with_piece_keeps_committed(
                task_id,
                number,
                PieceView { updated_at: now, ..old },
            );
            self.lemma_with_piece_keeps_committed(
                task_id,
                number,
                PieceView {
                    offset: values.offset,
                    length: values.length,
                    digest: values.digest,
                    parent_id: values.parent_id,
                    state: PieceState::Finished,
                    updated_at: now,
                    finished_at: Some(now),
                    ..old
                },
            );
        } else {
            self.lemma_push_piece_keeps_committed(new_piece(task_id, number, now));
        }
    }
}

/// What a changing operation owes: on success no error was due and the store
/// is the expected one; on failure the error is the one due, it carries
/// `text`, and the store is unchanged.
pub open spec fn outcome(
    r: Result<(), Error>,
    due: Option<ErrorKind>,
    text: Seq<char>,
    before: MetadataView,
    after: MetadataView,
    expected: MetadataView,
) -> bool {
    match r {
        Ok(_) => due is None && after == expected,
        Err(e) => due matches Some(kind) && e.is_of(kind, text) && after == before,
    }
}

} // verus!
