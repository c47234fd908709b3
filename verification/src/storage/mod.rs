//! The store of a peer: task and piece records and the bytes of the pieces.
//!
//! `Storage` joins the records and the bytes. It sees to it that a piece is
//! written once, that the bytes of a committed piece are never written over,
//! and that the digest recorded for a committed piece is the digest of the
//! bytes that the store holds for it.

pub mod content;
pub mod metadata;
pub mod model;

use crate::digest::{digest_of, piece_digest};
use crate::error::{Error, ErrorKind};
use crate::storage::content::{read, written, Content, ContentView, lemma_write_elsewhere};
use crate::storage::metadata::{
    fits,
    opt_text,
    spec_piece_id,
    Metadata,
    Piece,
    PieceState,
    PieceView,
    Task,
    task_views,
    piece_views,
};
use crate::storage::model::{geometry_ok, outcome, MetadataView};
use crate::text::str_eq;
use vstd::prelude::*;
use vstd::string::*;

verus! {

/// How long, in milliseconds, a poll for a piece waits before the next one.
pub const DEFAULT_WAIT_FOR_PIECE_FINISHED_INTERVAL: u64 = 500;

/// The options that the store reads.
#[derive(Clone, Copy, Debug)]
pub struct Config {
    /// How long, in milliseconds, to wait for another writer to finish a
    /// piece.
    pub piece_timeout: u64,
}

/// The store as a mathematical value.
pub struct StorageView {
    pub metadata: MetadataView,
    pub content: ContentView,
    pub now: u64,
    pub piece_timeout: u64,
}

/// What one poll of a wait for a piece says.
#[derive(Clone, Copy, Debug, PartialEq, Eq, Structural)]
pub enum WaitStep {
    /// The piece is committed: the wait is over.
    Finished,
    /// No piece is recorded: the wait fails.
    NotFound,
    /// The piece timeout has passed: the wait fails.
    TimedOut,
    /// Poll again after this many milliseconds.
    Again(u64),
}

impl WaitStep {
    /// How the wait ends, if this poll ends it: well for a committed piece,
    /// with `PieceNotFound` for a piece that is not recorded, and with
    /// `WaitForPieceFinishedTimeout` once the piece timeout has passed. The
    /// errors carry the piece id.
    pub open spec fn ends(self, r: Option<Result<(), Error>>, piece_id: Seq<char>) -> bool {
        match self {
            WaitStep::Finished => r matches Some(Ok(_)),
            WaitStep::NotFound => r matches Some(Err(e)) && e.is_of(
                ErrorKind::PieceNotFound,
                piece_id,
            ),
            WaitStep::TimedOut => r matches Some(Err(e)) && e.is_of(
                ErrorKind::WaitForPieceFinishedTimeout,
                piece_id,
            ),
            WaitStep::Again(_) => r is None,
        }
    }

    /// How the wait ends, if this poll ends it; `None` where the caller is
    /// to poll again.
    pub fn result(self, piece_id: String) -> (r: Option<Result<(), Error>>)
        ensures
            self.ends(r, piece_id@),
    {
        match self {
            WaitStep::Finished => Some(Ok(())),
            WaitStep::NotFound => Some(Err(Error::PieceNotFound(piece_id))),
            WaitStep::TimedOut => Some(Err(Error::WaitForPieceFinishedTimeout(piece_id))),
            WaitStep::Again(_) => None,
        }
    }
}

impl StorageView {
    /// True when the store holds the bytes of the piece `p` and they hash to
    /// the digest recorded for it.
    pub open spec fn stored(self, p: PieceView) -> bool {
        &&& self.content.has_file(p.task_id)
        &&& p.offset + p.length <= self.content.bytes(p.task_id).len()
        &&& p.digest == piece_digest(
            read(self.content.bytes(p.task_id), p.offset as int, p.length as int),
        )
    }

    /// True when every committed piece is stored.
    pub open spec fn committed_stored(self) -> bool {
        forall|i: int|
            0 <= i < self.metadata.pieces.len() && (#[trigger] self.metadata.pieces[i]).state
                == PieceState::Finished ==> self.stored(self.metadata.pieces[i])
    }

    /// The invariant of the store: records and bytes are well formed, and
    /// every committed piece is stored.
    pub open spec fn wf(self) -> bool {
        &&& self.metadata.wf()
        &&& self.content.wf()
        &&& self.committed_stored()
    }

    /// What a poll of the wait for piece `number` says after `elapsed`
    /// milliseconds.
    pub open spec fn wait_step(self, task_id: Seq<char>, number: u32, elapsed: u64) -> WaitStep {
        if !self.metadata.has_piece(task_id, number) {
            WaitStep::NotFound
        } else if self.metadata.piece(task_id, number).state == PieceState::Finished {
            WaitStep::Finished
        } else if elapsed >= self.piece_timeout {
            WaitStep::TimedOut
        } else if self.piece_timeout - elapsed < DEFAULT_WAIT_FOR_PIECE_FINISHED_INTERVAL {
            WaitStep::Again((self.piece_timeout - elapsed) as u64)
        } else {
            WaitStep::Again(DEFAULT_WAIT_FOR_PIECE_FINISHED_INTERVAL)
        }
    }

    /// This store with other records.
    pub open spec fn with_metadata(self, metadata: MetadataView) -> StorageView {
        StorageView { metadata, ..self }
    }

    /// Why `download_piece_from_source_finished` fails, if it does: where
    /// the records refuse the commit, where `data` does not hold `length`
    /// bytes, and where the end of the write cannot be addressed.
    pub open spec fn source_finished_error(
        self,
        task_id: Seq<char>,
        number: u32,
        offset: u64,
        length: u64,
        data: Seq<u8>,
    ) -> Option<ErrorKind> {
        let refused = self.metadata.piece_finished_error(
            task_id,
            number,
            offset,
            length,
            piece_digest(data),
            None,
        );
        if refused is Some {
            refused
        } else if data.len() != length {
            Some(ErrorKind::InvalidParameter)
        } else if self.metadata.piece(task_id, number).state != PieceState::Finished && offset
            + data.len() > usize::MAX {
            Some(ErrorKind::InvalidParameter)
        } else {
            None
        }
    }

    /// True when `download_piece_from_remote_peer_finished` writes `data`
    /// into the store: the piece is reserved and not committed, the bytes
    /// fit the task, and the end of the write can be addressed.
    pub open spec fn remote_writes(
        self,
        task_id: Seq<char>,
        number: u32,
        offset: u64,
        data: Seq<u8>,
    ) -> bool {
        &&& self.metadata.has_task(task_id)
        &&& self.metadata.has_piece(task_id, number)
        &&& self.metadata.piece(task_id, number).state != PieceState::Finished
        &&& data.len() <= u64::MAX
        &&& geometry_ok(self.metadata.task(task_id), number, offset, data.len() as u64)
        &&& offset + data.len() <= usize::MAX
    }

    /// Why `download_piece_from_remote_peer_finished` fails, if it does.
    pub open spec fn remote_finished_error(
        self,
        task_id: Seq<char>,
        number: u32,
        offset: u64,
        expected_digest: Seq<char>,
        parent_id: Seq<char>,
        data: Seq<u8>,
    ) -> Option<ErrorKind> {
        if !self.metadata.has_task(task_id) {
            Some(ErrorKind::TaskNotFound)
        } else if !self.metadata.has_piece(task_id, number) {
            Some(ErrorKind::PieceNotFound)
        } else if self.metadata.piece(task_id, number).state == PieceState::Finished {
            if expected_digest != piece_digest(data) {
                Some(ErrorKind::PieceDigestMismatch)
            } else if data.len() > u64::MAX || !self.metadata.piece_agrees(
                task_id,
                number,
                offset,
                data.len() as u64,
                piece_digest(data),
                Some(parent_id),
            ) {
                Some(ErrorKind::InvariantViolation)
            } else {
                None
            }
        } else if !self.remote_writes(task_id, number, offset, data) {
            Some(ErrorKind::InvalidParameter)
        } else if expected_digest != piece_digest(data) {
            Some(ErrorKind::PieceDigestMismatch)
        } else {
            None
        }
    }

    /// The records after `upload_piece`: the task is touched, and so is the
    /// piece if it is recorded.
    pub open spec fn uploaded(self, task_id: Seq<char>, number: u32) -> MetadataView {
        let touched = self.metadata.with_task(
            task_id,
            self.metadata.task_touched(task_id, self.now),
        );
        if !self.metadata.has_task(task_id) {
            self.metadata
        } else if self.metadata.has_piece(task_id, number) {
            touched.piece_touched(task_id, number, self.now)
        } else {
            touched
        }
    }

    /// Why `upload_piece` fails, if it does: on an unknown task, and on a
    /// piece that is not recorded or not committed.
    pub open spec fn upload_error(self, task_id: Seq<char>, number: u32) -> Option<ErrorKind> {
        if !self.metadata.has_task(task_id) {
            Some(ErrorKind::TaskNotFound)
        } else if !self.metadata.committed(task_id, number) {
            Some(ErrorKind::PieceNotFound)
        } else {
            None
        }
    }
}

impl StorageView {
    /// The store after `download_piece_from_source_finished`: unchanged on
    /// a failure and for a piece that is committed already; else with the
    /// bytes written and the piece committed.
    pub open spec fn source_finished(
        self,
        task_id: Seq<char>,
        number: u32,
        offset: u64,
        length: u64,
        data: Seq<u8>,
    ) -> StorageView {
        if self.source_finished_error(task_id, number, offset, length, data) is Some
            || self.metadata.piece(task_id, number).state == PieceState::Finished {
            self
        } else {
            StorageView {
                metadata: self.metadata.piece_finished(
                    task_id,
                    number,
                    offset,
                    length,
                    piece_digest(data),
                    None,
                    self.now,
                ),
                content: self.content.write(task_id, offset, data),
                ..self
            }
        }
    }

    /// The store after `download_piece_from_remote_peer_finished`: with the
    /// bytes written where they are written at all, and with the piece
    /// committed where the bytes hash to the digest expected and in progress
    /// where they do not.
    pub open spec fn remote_finished(
        self,
        task_id: Seq<char>,
        number: u32,
        offset: u64,
        expected_digest: Seq<char>,
        parent_id: Seq<char>,
        data: Seq<u8>,
    ) -> StorageView {
        if !self.remote_writes(task_id, number, offset, data) {
            self
        } else {
            StorageView {
                metadata: if expected_digest == piece_digest(data) {
                    self.metadata.piece_finished(
                        task_id,
                        number,
                        offset,
                        data.len() as u64,
                        piece_digest(data),
                        Some(parent_id),
                        self.now,
                    )
                } else {
                    self.metadata.piece_in_progress(task_id, number, self.now)
                },
                content: self.content.write(task_id, offset, data),
                ..self
            }
        }
    }

    /// The store after `download_piece_started`.
    pub open spec fn started(self, task_id: Seq<char>, number: u32) -> StorageView {
        if self.metadata.has_task(task_id) {
            self.with_metadata(self.metadata.piece_started(task_id, number, self.now))
        } else {
            self
        }
    }

    /// The store after `download_piece_failed`.
    pub open spec fn failed(self, task_id: Seq<char>, number: u32) -> StorageView {
        if self.metadata.has_piece(task_id, number) {
            self.with_metadata(self.metadata.piece_failed(task_id, number, self.now))
        } else {
            self
        }
    }

    /// The store after `upload_piece`.
    pub open spec fn served(self, task_id: Seq<char>, number: u32) -> StorageView {
        self.with_metadata(self.uploaded(task_id, number))
    }

    /// The bytes that the store holds for the piece recorded under `task_id`
    /// and `number`.
    pub open spec fn piece_bytes(self, task_id: Seq<char>, number: u32) -> Seq<u8> {
        read(
            self.content.bytes(task_id),
            self.metadata.piece(task_id, number).offset as int,
            self.metadata.piece(task_id, number).length as int,
        )
    }

    /// The store without the task `id`, its pieces and its bytes.
    pub open spec fn deleted(self, id: Seq<char>) -> StorageView {
        StorageView {
            metadata: self.metadata.without_task(id),
            content: self.content.without(id),
            ..self
        }
    }

    /// Writing the bytes of a piece that fits its task and is not committed
    /// leaves every committed piece stored; and so is the piece itself if
    /// the write is followed by its commit with the digest of the bytes.
    pub proof fn lemma_write_keeps_stored(
        self,
        after: StorageView,
        task_id: Seq<char>,
        number: u32,
        offset: u64,
        data: Seq<u8>,
        commit: Option<PieceView>,
    )
        requires
            self.wf(),
            self.remote_writes(task_id, number, offset, data),
            after.content == self.content.write(task_id, offset, data),
            after.metadata.wf(),
            match commit {
                Some(p) => after.metadata == self.metadata.with_piece(task_id, number, p)
                    && p.task_id == task_id && p.number == number && p.offset == offset && p.length
                    == data.len() && p.digest == piece_digest(data),
                None => after.metadata == self.metadata,
            },
        ensures
            after.wf(),
    {
        let m = self.metadata;
        let at = m.piece_at(task_id, number);
        m.lemma_piece_at(at);
        self.content.lemma_write(task_id, offset, data);
        let t = m.task(task_id);
        let pl = t.piece_length as int;
        assert forall|i: int|
            0 <= i < after.metadata.pieces.len() && (#[trigger] after.metadata.pieces[i]).state
                == PieceState::Finished implies after.stored(after.metadata.pieces[i]) by {
            let p = after.metadata.pieces[i];
            if i == at && commit is Some {
                crate::storage::content::lemma_write_then_read(
                    self.content.bytes(task_id),
                    offset as int,
                    data,
                );
            } else {
                assert(p == m.pieces[i]);
                assert(self.stored(p));
                if p.task_id == task_id {
                    m.lemma_piece_at(i);
                    assert(p.number != number);
                    assert(geometry_ok(t, p.number, p.offset, p.length));
                    let a = p.number as int;
                    let b = number as int;
                    if a < b {
                        assert((a + 1) * pl <= b * pl) by (nonlinear_arith)
                            requires
                                a + 1 <= b,
                                pl >= 0,
                        ;
                        assert((a + 1) * pl == a * pl + pl) by (nonlinear_arith);
                    } else {
                        assert((b + 1) * pl <= a * pl) by (nonlinear_arith)
                            requires
                                b + 1 <= a,
                                pl >= 0,
                        ;
                        assert((b + 1) * pl == b * pl + pl) by (nonlinear_arith);
                    }
                    lemma_write_elsewhere(
                        self.content.bytes(task_id),
                        offset as int,
                        data,
                        p.offset as int,
                        p.length as int,
                    );
                } else {
                    assert(after.content.has_file(p.task_id) == self.content.has_file(p.task_id));
                    assert(after.content.bytes(p.task_id) == self.content.bytes(p.task_id));
                }
            }
        }
    }

    /// The digest recorded for a committed piece is the digest of the bytes
    /// that the store holds at the piece's offset, over the piece's length.
    pub proof fn lemma_committed_digest(self, task_id: Seq<char>, number: u32)
        requires
            self.wf(),
            self.metadata.committed(task_id, number),
        ensures
            self.metadata.piece(task_id, number).offset + self.metadata.piece(
                task_id,
                number,
            ).length <= self.content.bytes(task_id).len(),
            self.metadata.piece(task_id, number).digest == piece_digest(
                read(
                    self.content.bytes(task_id),
                    self.metadata.piece(task_id, number).offset as int,
                    self.metadata.piece(task_id, number).length as int,
                ),
            ),
    {
        self.metadata.lemma_committed(task_id, number);
        let i = self.metadata.piece_at(task_id, number);
        self.metadata.lemma_piece_at(i);
        assert(self.stored(self.metadata.pieces[i]));
    }
}

impl StorageView {
    /// No step that brings a piece into the store takes a commit back: after
    /// a piece is reserved, written, committed, marked as failed or served,
    /// every piece that was committed still is.
    pub proof fn lemma_steps_keep_committed(
        self,
        task_id: Seq<char>,
        number: u32,
        offset: u64,
        length: u64,
        digest: Seq<char>,
        parent_id: Seq<char>,
        data: Seq<u8>,
    )
        ensures
            forall|id: Seq<char>, n: u32|
                self.metadata.committed(id, n) ==> #[trigger] self.started(
                    task_id,
                    number,
                ).metadata.committed(id, n),
            forall|id: Seq<char>, n: u32|
                self.metadata.committed(id, n) ==> #[trigger] self.failed(
                    task_id,
                    number,
                ).metadata.committed(id, n),
            forall|id: Seq<char>, n: u32|
                self.metadata.committed(id, n) ==> #[trigger] self.served(
                    task_id,
                    number,
                ).metadata.committed(id, n),
            forall|id: Seq<char>, n: u32|
                self.metadata.committed(id, n) ==> #[trigger] self.remote_finished(
                    task_id,
                    number,
                    offset,
                    digest,
                    parent_id,
                    data,
                ).metadata.committed(id, n),
            forall|id: Seq<char>, n: u32|
                self.metadata.committed(id, n) ==> #[trigger] self.source_finished(
                    task_id,
                    number,
                    offset,
                    length,
                    data,
                ).metadata.committed(id, n),
    {
        let m = self.metadata;
        let from_parent = PieceView {
            offset,
            length: if data.len() <= u64::MAX {
                data.len() as u64
            } else {
                0
            },
            digest: piece_digest(data),
            parent_id: Some(parent_id),
            ..m.piece(task_id, number)
        };
        let from_source = PieceView {
            offset,
            length,
            digest: piece_digest(data),
            parent_id: None,
            ..m.piece(task_id, number)
        };
        m.lemma_piece_operations_keep_committed(task_id, number, from_parent, self.now);
        m.lemma_piece_operations_keep_committed(task_id, number, from_source, self.now);
        let touched = m.with_task(task_id, m.task_touched(task_id, self.now));
        assert forall|id: Seq<char>, n: u32| m.committed(id, n) implies #[trigger] self.started(
            task_id,
            number,
        ).metadata.committed(id, n) by {
            assert(m.piece_started(task_id, number, self.now).committed(id, n));
        }
        assert forall|id: Seq<char>, n: u32| m.committed(id, n) implies #[trigger] self.failed(
            task_id,
            number,
        ).metadata.committed(id, n) by {
            if m.has_piece(task_id, number) {
                assert(m.piece_failed(task_id, number, self.now).committed(id, n));
            }
        }
        assert forall|id: Seq<char>, n: u32| m.committed(id, n) implies #[trigger] self.served(
            task_id,
            number,
        ).metadata.committed(id, n) by {
            // Serving touches the task, which leaves the pieces alone, and the piece.
            assert(touched.pieces == m.pieces);
            assert(touched.committed(id, n));
            if m.has_task(task_id) && m.has_piece(task_id, number) {
                assert(touched.has_piece(task_id, number)) by {
                    let i = m.piece_at(task_id, number);
                    assert(touched.pieces[i] == m.pieces[i]);
                }
                touched.lemma_piece_operations_keep_committed(
                    task_id,
                    number,
                    from_parent,
                    self.now,
                );
                assert(touched.piece_touched(task_id, number, self.now).committed(id, n));
            }
        }
        assert forall|id: Seq<char>, n: u32| m.committed(id, n) implies #[trigger] self.remote_finished(
            task_id,
            number,
            offset,
            digest,
            parent_id,
            data,
        ).metadata.committed(id, n) by {
            if self.remote_writes(task_id, number, offset, data) {
                assert(m.piece_in_progress(task_id, number, self.now).committed(id, n));
                assert(m.piece_finished(
                    task_id,
                    number,
                    from_parent.offset,
                    from_parent.length,
                    from_parent.digest,
                    from_parent.parent_id,
                    self.now,
                ).committed(id, n));
            }
        }
        assert forall|id: Seq<char>, n: u32| m.committed(id, n) implies #[trigger] self.source_finished(
            task_id,
            number,
            offset,
            length,
            data,
        ).metadata.committed(id, n) by {
            if self.source_finished_error(task_id, number, offset, length, data) is None {
                assert(m.piece_finished(
                    task_id,
                    number,
                    from_source.offset,
                    from_source.length,
                    from_source.digest,
                    from_source.parent_id,
                    self.now,
                ).committed(id, n));
            }
        }
    }
}

/// What a changing operation on the records owes, for a store: the outcome
/// on the records, with the bytes and the clock left alone.
pub open spec fn storage_outcome(
    r: Result<(), Error>,
    due: Option<ErrorKind>,
    text: Seq<char>,
    before: StorageView,
    after: StorageView,
    expected: MetadataView,
) -> bool {
    &&& outcome(r, due, text, before.metadata, after.metadata, expected)
    &&& after == before.with_metadata(after.metadata)
}

/// The store of a peer.
#[derive(Debug)]
pub struct Storage {
    config: Config,
    metadata: Metadata,
    content: Content,
    now: u64,
}

impl View for Storage {
    type V = StorageView;

    closed spec fn view(&self) -> StorageView {
        StorageView {
            metadata: self.metadata@,
            content: self.content@,
            now: self.now,
            piece_timeout: self.config.piece_timeout,
        }
    }
}

impl Storage {
    /// The invariant that every operation keeps.
    pub open spec fn wf(&self) -> bool {
        self@.wf()
    }

    /// An empty store, with the clock at zero.
    pub fn new(config: Config) -> (r: Result<Storage, Error>)
        ensures
            match r {
                Ok(s) => s.wf() && s@.metadata.tasks.len() == 0 && s@.metadata.pieces.len() == 0
                    && s@.content.files.len() == 0 && s@.now == 0 && s@.piece_timeout
                    == config.piece_timeout,
                Err(_) => false,
            },
    {
        Ok(Storage { config, metadata: Metadata::new(), content: Content::new(), now: 0 })
    }

    /// Sets the clock, in milliseconds. Records that are created or touched
    /// from now on carry this time.
    pub fn set_time(&mut self, now: u64)
        ensures
            final(self)@ == (StorageView { now, ..old(self)@ }),
    {
        self.now = now;
    }

    /// The time on the clock.
    pub fn time(&self) -> (r: u64)
        ensures
            r == self@.now,
    {
        self.now
    }

    /// How long, in milliseconds, a wait for a piece lasts.
    pub fn piece_timeout(&self) -> (r: u64)
        ensures
            r == self@.piece_timeout,
    {
        self.config.piece_timeout
    }

    /// Records that the task `id` starts, with pieces of `piece_length`
    /// bytes.
    pub fn download_task_started(&mut self, id: &str, piece_length: u64) -> (r: Result<(), Error>)
        requires
            old(self).wf(),
        ensures
            final(self).wf(),
            storage_outcome(
                r,
                old(self)@.metadata.task_started_error(id@, piece_length),
                id@,
                old(self)@,
                final(self)@,
                old(self)@.metadata.task_started(id@, piece_length, old(self)@.now),
            ),
    {
        self.metadata.download_task_started(id, piece_length, self.now)
    }

    /// Records the content length of the task `id`.
    pub fn set_task_content_length(&mut self, id: &str, content_length: u64) -> (r: Result<
        (),
        Error,
    >)
        requires
            old(self).wf(),
        ensures
            final(self).wf(),
            storage_outcome(
                r,
                old(self)@.metadata.content_length_error(id@, content_length),
                id@,
                old(self)@,
                final(self)@,
                old(self)@.metadata.with_task(
                    id@,
                    old(self)@.metadata.task_with_content_length(
                        id@,
                        content_length,
                        old(self)@.now,
                    ),
                ),
            ),
    {
        self.metadata.set_task_content_length(id, content_length, self.now)
    }

    /// Marks the task `id` as finished. Fails unless every piece of the
    /// content is committed.
    pub fn download_task_finished(&mut self, id: &str) -> (r: Result<(), Error>)
        requires
            old(self).wf(),
        ensures
            final(self).wf(),
            storage_outcome(
                r,
                old(self)@.metadata.task_finished_error(id@),
                id@,
                old(self)@,
                final(self)@,
                old(self)@.metadata.with_task(
                    id@,
                    old(self)@.metadata.task_finished(id@, old(self)@.now),
                ),
            ),
    {
        self.metadata.download_task_finished(id, self.now)
    }

    /// Marks the task `id` as failed. A finished task stays finished.
    pub fn download_task_failed(&mut self, id: &str) -> (r: Result<(), Error>)
        requires
            old(self).wf(),
        ensures
            final(self).wf(),
            storage_outcome(
                r,
                old(self)@.metadata.task_missing_error(id@),
                id@,
                old(self)@,
                final(self)@,
                old(self)@.metadata.with_task(
                    id@,
                    old(self)@.metadata.task_failed(id@, old(self)@.now),
                ),
            ),
    {
        self.metadata.download_task_failed(id, self.now)
    }

    /// Records that a piece of the task `id` was served to another peer.
    pub fn upload_task_finished(&mut self, id: &str) -> (r: Result<(), Error>)
        requires
            old(self).wf(),
        ensures
            final(self).wf(),
            storage_outcome(
                r,
                old(self)@.metadata.task_missing_error(id@),
                id@,
                old(self)@,
                final(self)@,
                old(self)@.metadata.with_task(
                    id@,
                    old(self)@.metadata.task_touched(id@, old(self)@.now),
                ),
            ),
    {
        self.metadata.upload_task_finished(id, self.now)
    }

    /// The record of the task `id`, if there is one.
    pub fn get_task(&self, id: &str) -> (r: Result<Option<Task>, Error>)
        requires
            self.wf(),
        ensures
            match r {
                Ok(Some(t)) => self@.metadata.has_task(id@) && t@ == self@.metadata.task(id@),
                Ok(None) => !self@.metadata.has_task(id@),
                Err(_) => false,
            },
    {
        self.metadata.get_task(id)
    }

    /// Every task record, in the order in which the tasks were first started.
    pub fn get_tasks(&self) -> (r: Result<Vec<Task>, Error>)
        ensures
            match r {
                Ok(v) => task_views(v@) == self@.metadata.tasks,
                Err(_) => false,
            },
    {
        self.metadata.get_tasks()
    }

    /// Deletes the task `id`: its record, the records of its pieces and its
    /// bytes. Deleting a task that is not recorded changes nothing.
    pub fn delete_task(&mut self, id: &str) -> (r: Result<(), Error>)
        requires
            old(self).wf(),
        ensures
            final(self).wf(),
            r is Ok,
            final(self)@ == old(self)@.deleted(id@),
    {
        let ghost before = self@;
        self.metadata.delete_task(id)?;
        self.content.delete_task(id)?;
        proof {
            let after = self@;
            before.content.lemma_without(id@);
            let pred = |p: PieceView| p.task_id != id@;
            let map = crate::seq_lemmas::lemma_filter_positions(
                before.metadata.pieces,
                pred,
            );
            assert forall|i: int|
                0 <= i < after.metadata.pieces.len() && (#[trigger] after.metadata.pieces[i]).state
                    == PieceState::Finished implies after.stored(after.metadata.pieces[i]) by {
                let p = after.metadata.pieces[i];
                assert(p == before.metadata.pieces[map[i]]);
                assert(before.stored(p));
                assert(after.content.has_file(p.task_id) == before.content.has_file(p.task_id));
                assert(after.content.bytes(p.task_id) == before.content.bytes(p.task_id));
            }
        }
        Ok(())
    }

    /// What a poll of the wait for piece `number` of the task `task_id` says
    /// after `elapsed` milliseconds of waiting: the piece is committed, it is
    /// not recorded, the piece timeout has passed, or the caller is to poll
    /// again after the interval given.
    pub fn wait_for_piece_finished(&self, task_id: &str, number: u32, elapsed: u64) -> (r: WaitStep)
        requires
            self.wf(),
        ensures
            r == self@.wait_step(task_id@, number, elapsed),
    {
        match self.get_piece(task_id, number) {
            Ok(Some(p)) => {
                if p.is_finished() {
                    WaitStep::Finished
                } else if elapsed >= self.config.piece_timeout {
                    WaitStep::TimedOut
                } else if self.config.piece_timeout - elapsed
                    < DEFAULT_WAIT_FOR_PIECE_FINISHED_INTERVAL {
                    WaitStep::Again(self.config.piece_timeout - elapsed)
                } else {
                    WaitStep::Again(DEFAULT_WAIT_FOR_PIECE_FINISHED_INTERVAL)
                }
            },
            _ => WaitStep::NotFound,
        }
    }

    /// Reserves piece `number` of the task `task_id` for this writer, unless
    /// the piece is committed already. The caller holds the store for
    /// itself, so no other writer can commit the piece while this one
    /// waits: a piece that is not committed is reserved at once.
    pub fn download_piece_started(&mut self, task_id: &str, number: u32) -> (r: Result<(), Error>)
        requires
            old(self).wf(),
        ensures
            final(self).wf(),
            storage_outcome(
                r,
                old(self)@.metadata.task_missing_error(task_id@),
                task_id@,
                old(self)@,
                final(self)@,
                old(self)@.metadata.piece_started(task_id@, number, old(self)@.now),
            ),
    {
        match self.wait_for_piece_finished(task_id, number, self.config.piece_timeout) {
            WaitStep::Finished => {
                proof {
                    let m = self@.metadata;
                    let i = m.piece_at(task_id@, number);
                    m.lemma_piece_at(i);
                    assert(m.has_task(m.pieces[i].task_id));
                }
                Ok(())
            },
            _ => {
                let ghost before = self@;
                let r = self.metadata.download_piece_started(task_id, number, self.now);
                proof {
                    let after = self@;
                    if r is Ok {
                        assert forall|i: int|
                            0 <= i < after.metadata.pieces.len() && (
                            #[trigger] after.metadata.pieces[i]).state
                                == PieceState::Finished implies after.stored(
                            after.metadata.pieces[i],
                        ) by {
                            assert(before.metadata.pieces[i].state == PieceState::Finished);
                            assert(before.stored(before.metadata.pieces[i]));
                        }
                    }
                }
                r
            },
        }
    }

    /// Records that writing piece `number` of the task `task_id` failed. A
    /// committed piece is left as it is.
    pub fn download_piece_failed(&mut self, task_id: &str, number: u32) -> (r: Result<(), Error>)
        requires
            old(self).wf(),
        ensures
            final(self).wf(),
            storage_outcome(
                r,
                old(self)@.metadata.piece_missing_error(task_id@, number),
                spec_piece_id(task_id@, number),
                old(self)@,
                final(self)@,
                old(self)@.metadata.piece_failed(task_id@, number, old(self)@.now),
            ),
    {
        let ghost before = self@;
        let r = self.metadata.download_piece_failed(task_id, number, self.now);
        proof {
            let after = self@;
            if r is Ok {
                assert forall|i: int|
                    0 <= i < after.metadata.pieces.len() && (
                    #[trigger] after.metadata.pieces[i]).state
                        == PieceState::Finished implies after.stored(after.metadata.pieces[i]) by {
                    assert(before.metadata.pieces[i].state == PieceState::Finished);
                    assert(before.stored(before.metadata.pieces[i]));
                }
            }
        }
        r
    }

    /// The record of piece `number` of the task `task_id`, if there is one.
    pub fn get_piece(&self, task_id: &str, number: u32) -> (r: Result<Option<Piece>, Error>)
        requires
            self.wf(),
        ensures
            match r {
                Ok(Some(p)) => self@.metadata.has_piece(task_id@, number) && p@
                    == self@.metadata.piece(task_id@, number),
                Ok(None) => !self@.metadata.has_piece(task_id@, number),
                Err(_) => false,
            },
    {
        self.metadata.get_piece(task_id, number)
    }

    /// The records of the pieces of the task `task_id`.
    pub fn get_pieces(&self, task_id: &str) -> (r: Result<Vec<Piece>, Error>)
        ensures
            match r {
                Ok(v) => piece_views(v@) == self@.metadata.pieces_of(task_id@),
                Err(_) => false,
            },
    {
        self.metadata.get_pieces(task_id)
    }

    /// The canonical id of a piece: the task id, a hyphen, the number.
    pub fn piece_id(&self, task_id: &str, number: u32) -> (r: String)
        ensures
            r@ == spec_piece_id(task_id@, number),
    {
        self.metadata.piece_id(task_id, number)
    }

    /// Stores the bytes that the origin sent for piece `number` of the task
    /// `task_id` and commits the piece, with no parent. `data` must hold
    /// `length` bytes, and the piece must be reserved and fit the task. For a
    /// piece that is committed already nothing is written: the call succeeds
    /// if `data` is what was committed and fails otherwise. On any failure
    /// the store is unchanged.
    pub fn download_piece_from_source_finished(
        &mut self,
        task_id: &str,
        number: u32,
        offset: u64,
        length: u64,
        data: &[u8],
    ) -> (r: Result<u64, Error>)
        requires
            old(self).wf(),
        ensures
            final(self).wf(),
            match r {
                Ok(n) => {
                    &&& old(self)@.source_finished_error(task_id@, number, offset, length, data@)
                        is None
                    &&& n == length
                },
                Err(e) => {
                    &&& old(self)@.source_finished_error(
                        task_id@,
                        number,
                        offset,
                        length,
                        data@,
                    ) matches Some(kind)
                    &&& e.is_of(
                        kind,
                        old(self)@.metadata.piece_error_text(task_id@, number, Some(kind)),
                    )
                },
            },
            final(self)@ == old(self)@.source_finished(task_id@, number, offset, length, data@),
    {
        let digest = digest_of(data);
        let task = match self.metadata.get_task(task_id) {
            Ok(Some(t)) => t,
            _ => {
                return Err(Error::TaskNotFound(String::from_str(task_id)));
            },
        };
        let piece = match self.metadata.get_piece(task_id, number) {
            Ok(Some(p)) => p,
            _ => {
                return Err(Error::PieceNotFound(self.metadata.piece_id(task_id, number)));
            },
        };
        if piece.is_finished() {
            let same = piece.offset == offset && piece.length == length && str_eq(
                piece.digest.as_str(),
                digest.as_str(),
            ) && piece.parent_id.is_none();
            if !same {
                return Err(Error::InvariantViolation(self.metadata.piece_id(task_id, number)));
            }
            if data.len() as u64 != length {
                return Err(Error::InvalidParameter);
            }
            return Ok(length);
        }
        if !fits(&task, number, offset, length) {
            return Err(Error::InvalidParameter);
        }
        if data.len() as u64 != length {
            return Err(Error::InvalidParameter);
        }
        let ghost before = self@;
        match self.content.write_piece(task_id, offset, data) {
            Ok(_) => {},
            Err(e) => {
                return Err(e);
            },
        }
        let committed = self.metadata.download_piece_finished(
            task_id,
            number,
            offset,
            length,
            digest.as_str(),
            None,
            self.now,
        );
        proof {
            let p = self@.metadata.piece(task_id@, number);
            let at = before.metadata.piece_at(task_id@, number);
            before.metadata.lemma_piece_at(at);
            self@.metadata.lemma_piece_at(at);
            before.lemma_write_keeps_stored(self@, task_id@, number, offset, data@, Some(p));
        }
        match committed {
            Ok(_) => Ok(length),
            Err(e) => Err(e),
        }
    }

    /// Stores the bytes that the peer `parent_id` sent for piece `number` of
    /// the task `task_id` and commits the piece if the bytes hash to
    /// `expected_digest`. The piece must be reserved and fit the task. Where
    /// the digest differs the call fails with `PieceDigestMismatch` and
    /// commits nothing: the piece is in progress, and the bytes stay in the
    /// store, outside of every committed piece, until a later write at the
    /// same offset. For a piece that is committed already nothing is
    /// written.
    pub fn download_piece_from_remote_peer_finished(
        &mut self,
        task_id: &str,
        number: u32,
        offset: u64,
        expected_digest: &str,
        parent_id: &str,
        data: &[u8],
    ) -> (r: Result<u64, Error>)
        requires
            old(self).wf(),
        ensures
            final(self).wf(),
            match r {
                Ok(n) => old(self)@.remote_finished_error(
                    task_id@,
                    number,
                    offset,
                    expected_digest@,
                    parent_id@,
                    data@,
                ) is None && n == data@.len(),
                Err(e) => {
                    &&& old(self)@.remote_finished_error(
                        task_id@,
                        number,
                        offset,
                        expected_digest@,
                        parent_id@,
                        data@,
                    ) matches Some(kind)
                    &&& e.is_of(
                        kind,
                        old(self)@.metadata.piece_error_text(task_id@, number, Some(kind)),
                    )
                },
            },
            final(self)@ == old(self)@.remote_finished(
                task_id@,
                number,
                offset,
                expected_digest@,
                parent_id@,
                data@,
            ),
    {
        let digest = digest_of(data);
        let length: u64 = data.len() as u64;
        let task = match self.metadata.get_task(task_id) {
            Ok(Some(t)) => t,
            _ => {
                return Err(Error::TaskNotFound(String::from_str(task_id)));
            },
        };
        let piece = match self.metadata.get_piece(task_id, number) {
            Ok(Some(p)) => p,
            _ => {
                return Err(Error::PieceNotFound(self.metadata.piece_id(task_id, number)));
            },
        };
        if piece.is_finished() {
            if !str_eq(expected_digest, digest.as_str()) {
                return Err(Error::PieceDigestMismatch);
            }
            let same = piece.offset == offset && piece.length == length && str_eq(
                piece.digest.as_str(),
                digest.as_str(),
            ) && match &piece.parent_id {
                Some(p) => str_eq(p.as_str(), parent_id),
                None => false,
            };
            if !same {
                return Err(Error::InvariantViolation(self.metadata.piece_id(task_id, number)));
            }
            return Ok(length);
        }
        if !fits(&task, number, offset, length) {
            return Err(Error::InvalidParameter);
        }
        let ghost before = self@;
        match self.content.write_piece(task_id, offset, data) {
            Ok(_) => {},
            Err(e) => {
                return Err(e);
            },
        }
        if !str_eq(expected_digest, digest.as_str()) {
            let ghost wrote = self@;
            proof {
                before.lemma_write_keeps_stored(wrote, task_id@, number, offset, data@, None);
            }
            let _ = self.metadata.download_piece_in_progress(task_id, number, self.now);
            proof {
                let at = before.metadata.piece_at(task_id@, number);
                before.metadata.lemma_piece_at(at);
                assert forall|i: int|
                    0 <= i < self@.metadata.pieces.len() && (
                    #[trigger] self@.metadata.pieces[i]).state
                        == PieceState::Finished implies self@.stored(self@.metadata.pieces[i]) by {
                    assert(wrote.metadata.pieces[i].state == PieceState::Finished);
                    assert(wrote.stored(wrote.metadata.pieces[i]));
                }
            }
            return Err(Error::PieceDigestMismatch);
        }
        let committed = self.metadata.download_piece_finished(
            task_id,
            number,
            offset,
            length,
            digest.as_str(),
            Some(String::from_str(parent_id)),
            self.now,
        );
        proof {
            let p = self@.metadata.piece(task_id@, number);
            let at = before.metadata.piece_at(task_id@, number);
            before.metadata.lemma_piece_at(at);
            self@.metadata.lemma_piece_at(at);
            before.lemma_write_keeps_stored(self@, task_id@, number, offset, data@, Some(p));
        }
        match committed {
            Ok(_) => Ok(length),
            Err(e) => Err(e),
        }
    }

    /// Hands out the bytes of piece `number` of the task `task_id` for
    /// another reader. The task is touched, and so is the piece if it is
    /// recorded. The caller holds the store for itself, so a piece that is
    /// not committed will not be while the caller waits: for one the call
    /// fails with `PieceNotFound`, as it does for a piece that is not
    /// recorded.
    pub fn upload_piece(&mut self, task_id: &str, number: u32) -> (r: Result<Vec<u8>, Error>)
        requires
            old(self).wf(),
        ensures
            final(self).wf(),
            final(self)@ == old(self)@.with_metadata(old(self)@.uploaded(task_id@, number)),
            match r {
                Ok(bytes) => old(self)@.upload_error(task_id@, number) is None && bytes@ == read(
                    old(self)@.content.bytes(task_id@),
                    old(self)@.metadata.piece(task_id@, number).offset as int,
                    old(self)@.metadata.piece(task_id@, number).length as int,
                ),
                Err(e) => old(self)@.upload_error(task_id@, number) matches Some(kind) && e.is_of(
                    kind,
                    old(self)@.metadata.piece_error_text(task_id@, number, Some(kind)),
                ),
            },
    {
        let ghost before = self@;
        proof {
            before.metadata.lemma_committed(task_id@, number);
        }
        match self.metadata.upload_task_started(task_id, self.now) {
            Ok(_) => {},
            Err(e) => {
                return Err(e);
            },
        }
        let ghost mid = self@;
        proof {
            let i = before.metadata.task_at(task_id@);
            before.metadata.lemma_task_at(i);
            assert(mid.metadata.pieces == before.metadata.pieces);
            assert(mid.wf());
        }
        match self.metadata.upload_piece_started(task_id, number, self.now) {
            Ok(_) => {},
            Err(_) => {
                return Err(Error::PieceNotFound(self.metadata.piece_id(task_id, number)));
            },
        }
        proof {
            let at = mid.metadata.piece_at(task_id@, number);
            mid.metadata.lemma_piece_at(at);
            self@.metadata.lemma_piece_at(at);
            assert forall|i: int|
                0 <= i < self@.metadata.pieces.len() && (#[trigger] self@.metadata.pieces[i]).state
                    == PieceState::Finished implies self@.stored(self@.metadata.pieces[i]) by {
                assert(mid.metadata.pieces[i].state == PieceState::Finished);
                assert(before.stored(before.metadata.pieces[i]));
            }
            assert(self@.metadata.piece(task_id@, number).offset == before.metadata.piece(
                task_id@,
                number,
            ).offset);
        }
        match self.wait_for_piece_finished(task_id, number, self.config.piece_timeout) {
            WaitStep::Finished => {
                let piece = match self.metadata.get_piece(task_id, number) {
                    Ok(Some(p)) => p,
                    _ => {
                        return Err(Error::PieceNotFound(self.metadata.piece_id(task_id, number)));
                    },
                };
                proof {
                    self@.metadata.lemma_committed(task_id@, number);
                    self@.lemma_committed_digest(task_id@, number);
                }
                match self.content.read_piece(task_id, piece.offset, piece.length) {
                    Ok(bytes) => Ok(bytes),
                    Err(_) => Err(Error::PieceNotFound(self.metadata.piece_id(task_id, number))),
                }
            },
            _ => Err(Error::PieceNotFound(self.metadata.piece_id(task_id, number))),
        }
    }
}

} // verus!
