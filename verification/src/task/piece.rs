//! The piece manager: which pieces a download needs, which are left to
//! fetch, which parent each is asked from, and the steps that bring the
//! bytes of one piece into the store.

use crate::backend::{clone_header, header_view, opt_header_view, GetRequest, GetResponse, Header, HeaderView};
use crate::digest::{digest_of, piece_digest};
use crate::error::{Error, ErrorKind, HttpError};
use crate::storage::metadata;
use crate::seq_lemmas::{lemma_filter_all, lemma_filter_positions};
use crate::storage::metadata::{spec_piece_id, PieceState, PieceView};
use crate::storage::model::MetadataView;
use crate::storage::{Storage, StorageView};
use crate::text::{decimal, eq_ignore_case, str_eq, str_eq_ignore_case, u64_to_string};
use vstd::prelude::*;
use vstd::string::*;

verus! {

/// A range of bytes of the content: `length` bytes from `start` on.
#[derive(Clone, Copy, Debug, PartialEq, Eq, Structural)]
pub struct Range {
    /// The first byte of the range.
    pub start: u64,
    /// The number of bytes in the range.
    pub length: u64,
}

/// A piece that a download needs: its number and where its bytes lie in the
/// content.
#[derive(Clone, Copy, Debug, PartialEq, Eq, Structural)]
pub struct InterestedPiece {
    /// The piece's number, from zero.
    pub number: u32,
    /// Where the piece starts in the content.
    pub offset: u64,
    /// How many bytes the piece holds.
    pub length: u64,
}

/// A peer that the scheduler names as a source of pieces.
#[derive(Debug)]
pub struct CandidateParent {
    /// The peer's id.
    pub id: String,
    /// The address that the peer serves pieces on.
    pub ip: String,
    /// The port that the peer serves pieces on.
    pub port: u32,
}

/// A candidate parent as a mathematical value.
pub struct CandidateParentView {
    pub id: Seq<char>,
    pub ip: Seq<char>,
    pub port: u32,
}

impl View for CandidateParent {
    type V = CandidateParentView;

    open spec fn view(&self) -> CandidateParentView {
        CandidateParentView { id: self.id@, ip: self.ip@, port: self.port }
    }
}

impl Clone for CandidateParent {
    fn clone(&self) -> (r: CandidateParent)
        ensures
            r@ == self@,
    {
        CandidateParent { id: self.id.clone(), ip: self.ip.clone(), port: self.port }
    }
}

/// A piece together with the parent that it is asked from.
#[derive(Debug)]
pub struct CollectedPiece {
    /// The piece's number.
    pub number: u32,
    /// The parent to ask.
    pub parent: CandidateParent,
}

/// An assignment of a piece to a parent as a mathematical value.
pub struct CollectedPieceView {
    pub number: u32,
    pub parent: CandidateParentView,
}

impl View for CollectedPiece {
    type V = CollectedPieceView;

    open spec fn view(&self) -> CollectedPieceView {
        CollectedPieceView { number: self.number, parent: self.parent@ }
    }
}

/// The number of pieces of a content: the content length divided by the
/// piece length, rounded up.
pub open spec fn piece_count(piece_length: u64, content_length: u64) -> int {
    if content_length as int % piece_length as int == 0 {
        content_length as int / piece_length as int
    } else {
        content_length as int / piece_length as int + 1
    }
}

/// Piece `n` of a content: it starts at `n` times the piece length and holds
/// a whole piece, or what is left of the content if that is less.
pub open spec fn planned_piece(piece_length: u64, content_length: u64, n: int) -> InterestedPiece {
    InterestedPiece {
        number: n as u32,
        offset: (n * piece_length) as u64,
        length: if (n + 1) * piece_length <= content_length {
            piece_length
        } else {
            (content_length - n * piece_length) as u64
        },
    }
}

/// Every piece of a content, by number.
pub open spec fn all_pieces(piece_length: u64, content_length: u64) -> Seq<InterestedPiece> {
    Seq::new(
        piece_count(piece_length, content_length) as nat,
        |n: int| planned_piece(piece_length, content_length, n),
    )
}

/// True when the bytes of the piece and the bytes of the range have a byte
/// in common.
pub open spec fn intersects(p: InterestedPiece, r: Range) -> bool {
    p.offset < r.start + r.length && r.start < p.offset + p.length
}

/// True when a download of `range` needs the piece: always without a range,
/// and with one when the two intersect.
pub open spec fn in_range(p: InterestedPiece, range: Option<Range>) -> bool {
    match range {
        Some(r) => intersects(p, r),
        None => true,
    }
}

/// True for a range that has no bytes or whose end is beyond 64 bits.
pub open spec fn bad_range(range: Option<Range>) -> bool {
    range matches Some(r) && (r.length == 0 || r.start + r.length > u64::MAX)
}

/// Why `calculate_interested` fails, if it does: on a zero piece length, an
/// unknown content length, a bad range, and a content of more pieces than
/// 32 bits can number.
pub open spec fn interested_error(
    piece_length: u64,
    content_length: Option<u64>,
    range: Option<Range>,
) -> Option<ErrorKind> {
    if piece_length == 0 || content_length is None || bad_range(range) || piece_count(
        piece_length,
        content_length->0,
    ) > 0x1_0000_0000 {
        Some(ErrorKind::InvalidParameter)
    } else {
        None
    }
}

/// The pieces that a download needs: every piece of the content, or with a
/// range those that intersect it, whole and in ascending order.
pub open spec fn interested_pieces(
    piece_length: u64,
    content_length: u64,
    range: Option<Range>,
) -> Seq<InterestedPiece> {
    all_pieces(piece_length, content_length).filter(|p: InterestedPiece| in_range(p, range))
}

/// The sum of the lengths of the pieces.
pub open spec fn total_length(s: Seq<InterestedPiece>) -> int
    decreases s.len(),
{
    if s.len() == 0 {
        0
    } else {
        total_length(s.drop_last()) + s.last().length
    }
}

/// Piece `n` exists exactly when it starts before the content ends.
pub proof fn lemma_piece_count(piece_length: u64, content_length: u64, n: int)
    requires
        piece_length > 0,
        n >= 0,
    ensures
        n < piece_count(piece_length, content_length) <==> n * piece_length < content_length,
        piece_count(piece_length, content_length) >= 0,
{
    let pl = piece_length as int;
    let cl = content_length as int;
    let q = cl / pl;
    let r = cl % pl;
    assert(cl == q * pl + r && 0 <= r < pl && q >= 0) by (nonlinear_arith)
        requires
            q == cl / pl,
            r == cl % pl,
            pl > 0,
            cl >= 0,
    ;
    if n < q {
        assert(n * pl < q * pl) by (nonlinear_arith)
            requires
                n < q,
                pl > 0,
        ;
    } else if n == q {
    } else {
        assert(n * pl >= (q + 1) * pl) by (nonlinear_arith)
            requires
                n >= q + 1,
                pl > 0,
        ;
        assert((q + 1) * pl == q * pl + pl) by (nonlinear_arith);
    }
}

/// The first `k` pieces of a content hold its first bytes: `k` whole pieces,
/// or the whole content where `k` is the number of its pieces.
proof fn lemma_prefix_length(piece_length: u64, content_length: u64, k: int)
    requires
        piece_length > 0,
        0 <= k <= piece_count(piece_length, content_length),
    ensures
        total_length(all_pieces(piece_length, content_length).take(k)) == if k == piece_count(
            piece_length,
            content_length,
        ) {
            content_length as int
        } else {
            k * piece_length
        },
    decreases k,
{
    let all = all_pieces(piece_length, content_length);
    let pl = piece_length as int;
    if k == 0 {
        lemma_piece_count(piece_length, content_length, 0);
        assert(all.take(0).len() == 0);
    } else {
        lemma_prefix_length(piece_length, content_length, k - 1);
        lemma_piece_count(piece_length, content_length, k - 1);
        lemma_piece_count(piece_length, content_length, k);
        assert(all.take(k).drop_last() =~= all.take(k - 1));
        assert(all.take(k).last() == planned_piece(piece_length, content_length, k - 1));
        assert(k * pl == (k - 1) * pl + pl) by (nonlinear_arith);
    }
}

/// Without a range a download needs exactly as many pieces as the content
/// length divided by the piece length, rounded up, and their lengths add up
/// to the content length.
pub proof fn lemma_interested_covers(piece_length: u64, content_length: u64)
    requires
        piece_length > 0,
    ensures
        interested_pieces(piece_length, content_length, None).len() == piece_count(
            piece_length,
            content_length,
        ),
        total_length(interested_pieces(piece_length, content_length, None)) == content_length,
{
    lemma_piece_count(piece_length, content_length, 0);
    let all = all_pieces(piece_length, content_length);
    lemma_prefix_length(piece_length, content_length, all.len() as int);
    assert(all.take(all.len() as int) =~= all);
    lemma_filter_all(all, |p: InterestedPiece| in_range(p, None));
}

/// The pieces that a download needs have distinct numbers, and so have
/// those that are left when finished pieces are taken out.
pub proof fn lemma_interested_distinct(
    piece_length: u64,
    content_length: u64,
    range: Option<Range>,
    finished: Seq<PieceView>,
)
    requires
        interested_error(piece_length, Some(content_length), range) is None,
    ensures
        ({
            let left = remaining_pieces(
                finished,
                interested_pieces(piece_length, content_length, range),
            );
            forall|i: int, j: int|
                0 <= i < j < left.len() ==> (#[trigger] left[i]).number != (
                #[trigger] left[j]).number
        }),
{
    let all = all_pieces(piece_length, content_length);
    let wanted = interested_pieces(piece_length, content_length, range);
    let left = remaining_pieces(finished, wanted);
    let first = lemma_filter_positions(
        all,
        |p: InterestedPiece| in_range(p, range),
    );
    let second = lemma_filter_positions(
        wanted,
        |p: InterestedPiece| !is_finished_number(finished, p.number),
    );
    assert forall|i: int, j: int| 0 <= i < j < left.len() implies (#[trigger] left[i]).number != (
    #[trigger] left[j]).number by {
        assert(second[i] < second[j]);
        assert(first[second[i]] < first[second[j]]);
        assert(left[i] == all[first[second[i]]]);
        assert(left[j] == all[first[second[j]]]);
    }
}

/// True when one of the finished pieces has this number.
pub open spec fn is_finished_number(finished: Seq<PieceView>, number: u32) -> bool {
    exists|j: int| 0 <= j < finished.len() && (#[trigger] finished[j]).number == number
}

/// The interested pieces whose number no finished piece has, in their order.
pub open spec fn remaining_pieces(
    finished: Seq<PieceView>,
    interested: Seq<InterestedPiece>,
) -> Seq<InterestedPiece> {
    interested.filter(|p: InterestedPiece| !is_finished_number(finished, p.number))
}

/// Taking the finished pieces out twice leaves what taking them out once
/// leaves.
pub proof fn lemma_remove_finished_idempotent(
    finished: Seq<PieceView>,
    interested: Seq<InterestedPiece>,
)
    ensures
        remaining_pieces(finished, remaining_pieces(finished, interested)) == remaining_pieces(
            finished,
            interested,
        ),
{
    let pred = |p: InterestedPiece| !is_finished_number(finished, p.number);
    let once = interested.filter(pred);
    assert forall|i: int| 0 <= i < once.len() implies pred(#[trigger] once[i]) by {
        interested.lemma_filter_pred(pred, i);
    }
    lemma_filter_all(once, pred);
}

/// What a parent sent for a piece: where the piece lies, the digest that the
/// parent recorded for it, and its bytes.
#[derive(Debug)]
pub struct RemotePiece {
    /// Where the piece starts in the content.
    pub offset: u64,
    /// The digest that the parent recorded for the piece.
    pub digest: String,
    /// The bytes of the piece.
    pub content: Vec<u8>,
}

/// Bytes to write into the output file at an offset.
#[derive(Debug)]
pub struct FileWrite {
    /// Where the bytes go.
    pub offset: u64,
    /// The bytes.
    pub data: Vec<u8>,
}

/// A write into the output file as a mathematical value.
pub struct FileWriteView {
    pub offset: u64,
    pub data: Seq<u8>,
}

impl View for FileWrite {
    type V = FileWriteView;

    open spec fn view(&self) -> FileWriteView {
        FileWriteView { offset: self.offset, data: self.data@ }
    }
}

/// The writes of a list as mathematical values.
pub open spec fn write_views(v: Seq<FileWrite>) -> Seq<FileWriteView> {
    Seq::new(v.len(), |i: int| v[i]@)
}

/// The interested pieces that the store has not committed, in their order.
pub open spec fn uncommitted(
    m: MetadataView,
    task_id: Seq<char>,
    interested: Seq<InterestedPiece>,
) -> Seq<InterestedPiece> {
    interested.filter(|p: InterestedPiece| !m.committed(task_id, p.number))
}

/// The assignment of pieces to parents: the pieces that are not committed,
/// in their order, each to the next parent in turn, starting over with the
/// first parent after the last. Without parents nothing is assigned.
pub open spec fn collected(
    m: MetadataView,
    task_id: Seq<char>,
    interested: Seq<InterestedPiece>,
    parents: Seq<CandidateParentView>,
) -> Seq<CollectedPieceView> {
    if parents.len() == 0 {
        Seq::empty()
    } else {
        Seq::new(
            uncommitted(m, task_id, interested).len(),
            |k: int|
                CollectedPieceView {
                    number: uncommitted(m, task_id, interested)[k].number,
                    parent: parents[k % (parents.len() as int)],
                },
        )
    }
}

/// The assignments of a list as mathematical values.
pub open spec fn collected_views(v: Seq<CollectedPiece>) -> Seq<CollectedPieceView> {
    Seq::new(v.len(), |i: int| v[i]@)
}

/// The name of the header that asks for a range of bytes.
pub open spec fn range_name() -> Seq<char> {
    seq!['r', 'a', 'n', 'g', 'e']
}

/// The value of the header that asks for `length` bytes from `offset` on:
/// `bytes=`, the first byte, a hyphen, the last byte.
pub open spec fn range_value(offset: u64, length: u64) -> Seq<char> {
    seq!['b', 'y', 't', 'e', 's', '='] + decimal(offset as nat) + seq!['-'] + decimal(
        (offset + length - 1) as nat,
    )
}

/// The headers with any header that asks for a range taken out, and the one
/// that asks for `length` bytes from `offset` on put at the end.
pub open spec fn with_range(header: HeaderView, offset: u64, length: u64) -> HeaderView {
    header.filter(|e: (Seq<char>, Seq<char>)| !eq_ignore_case(e.0, range_name())).push(
        (range_name(), range_value(offset, length)),
    )
}

/// Why `download_from_remote_peer` fails on what a parent sent, if it does.
pub open spec fn remote_fetch_error(
    s: StorageView,
    task_id: Seq<char>,
    number: u32,
    parent_id: Seq<char>,
    offset: u64,
    digest: Seq<char>,
    content: Seq<u8>,
) -> Option<ErrorKind> {
    if !s.metadata.has_task(task_id) {
        Some(ErrorKind::TaskNotFound)
    } else {
        s.started(task_id, number).remote_finished_error(
            task_id,
            number,
            offset,
            digest,
            parent_id,
            content,
        )
    }
}

/// The store after `download_from_remote_peer` has taken what a parent
/// sent: the piece is reserved, the bytes are written and the piece is
/// committed as far as the store allows, and the piece is marked as failed
/// where it is refused and as served where it is accepted.
pub open spec fn remote_fetched(
    s: StorageView,
    task_id: Seq<char>,
    number: u32,
    parent_id: Seq<char>,
    offset: u64,
    digest: Seq<char>,
    content: Seq<u8>,
) -> StorageView {
    if !s.metadata.has_task(task_id) {
        s
    } else {
        let reserved = s.started(task_id, number);
        let stored = reserved.remote_finished(task_id, number, offset, digest, parent_id, content);
        if reserved.remote_finished_error(task_id, number, offset, digest, parent_id, content)
            is Some {
            stored.failed(task_id, number)
        } else {
            stored.served(task_id, number)
        }
    }
}

/// The status of an answer of the origin; zero where it carries none.
pub open spec fn answered_status(status: Option<u16>) -> u16 {
    match status {
        Some(s) => s,
        None => 0,
    }
}

/// The headers of an answer of the origin; none where it carries none.
pub open spec fn answered_header(header: Option<Header>) -> Option<HeaderView> {
    match header {
        Some(h) => Some(header_view(h@)),
        None => Some(Seq::empty()),
    }
}

/// Why `download_from_source` fails on an answer of the origin, if it does.
pub open spec fn source_fetch_error(
    s: StorageView,
    task_id: Seq<char>,
    number: u32,
    offset: u64,
    length: u64,
    success: bool,
    body: Seq<u8>,
) -> Option<ErrorKind> {
    if !s.metadata.has_task(task_id) {
        Some(ErrorKind::TaskNotFound)
    } else if !success {
        Some(ErrorKind::HTTP)
    } else {
        s.started(task_id, number).source_finished_error(task_id, number, offset, length, body)
    }
}

/// The store after `download_from_source` has taken an answer of the
/// origin: the piece is reserved; on a status of success the bytes are
/// written and the piece is committed, as far as the store allows; and the
/// piece is marked as failed where nothing is committed and as served where
/// it is.
pub open spec fn source_fetched(
    s: StorageView,
    task_id: Seq<char>,
    number: u32,
    offset: u64,
    length: u64,
    success: bool,
    body: Seq<u8>,
) -> StorageView {
    if !s.metadata.has_task(task_id) {
        s
    } else {
        let reserved = s.started(task_id, number);
        if !success || reserved.source_finished_error(task_id, number, offset, length, body)
            is Some {
            reserved.failed(task_id, number)
        } else {
            reserved.source_finished(task_id, number, offset, length, body).served(
                task_id,
                number,
            )
        }
    }
}

/// The store after a fetch from the origin that brought no answer: the
/// piece is reserved and marked as failed.
pub open spec fn source_unreached(s: StorageView, task_id: Seq<char>, number: u32) -> StorageView {
    if !s.metadata.has_task(task_id) {
        s
    } else {
        s.started(task_id, number).failed(task_id, number)
    }
}

/// The piece manager. It keeps no state of its own: what it needs of the
/// store is handed to each call.
#[derive(Clone, Copy, Debug)]
pub struct Piece {}

impl Piece {
    /// A piece manager.
    pub fn new() -> (r: Piece) {
        Piece {  }
    }

    /// Computes the pieces that a download needs.
    pub fn calculate_interested(
        &self,
        piece_length: u64,
        content_length: Option<u64>,
        range: Option<Range>,
    ) -> (r: Result<Vec<InterestedPiece>, Error>)
        ensures
            match r {
                Ok(v) => interested_error(piece_length, content_length, range) is None && v@
                    == interested_pieces(piece_length, content_length->0, range),
                Err(e) => interested_error(piece_length, content_length, range) == Some(e.spec_kind()),
            },
    {
        let cl: u64 = match content_length {
            Some(cl) => cl,
            None => {
                return Err(Error::InvalidParameter);
            },
        };
        if piece_length == 0 {
            return Err(Error::InvalidParameter);
        }
        match range {
            Some(r) => {
                if r.length == 0 || r.start > u64::MAX - r.length {
                    return Err(Error::InvalidParameter);
                }
            },
            None => {},
        }
        let whole: u64 = cl / piece_length;
        let count: u128 = if cl % piece_length == 0 {
            whole as u128
        } else {
            whole as u128 + 1
        };
        assert(count == piece_count(piece_length, cl));
        if count > 0x1_0000_0000 {
            return Err(Error::InvalidParameter);
        }
        let ghost all = all_pieces(piece_length, cl);
        let ghost pred = |p: InterestedPiece| in_range(p, range);
        let mut out: Vec<InterestedPiece> = Vec::new();
        let mut n: u64 = 0;
        let mut offset: u64 = 0;
        proof {
            reveal(Seq::filter);
            assert(all.take(0).filter(pred) =~= out@);
        }
        while offset < cl && (n as u128) < count
            invariant
                piece_length > 0,
                count == piece_count(piece_length, cl),
                count <= 0x1_0000_0000,
                n <= count,
                offset == n * piece_length || (n == count && offset == cl),
                all == all_pieces(piece_length, cl),
                !bad_range(range),
                pred == (|p: InterestedPiece| in_range(p, range)),
                out@ == all.take(n as int).filter(pred),
            decreases count - n,
        {
            proof {
                lemma_piece_count(piece_length, cl, n as int);
                lemma_piece_count(piece_length, cl, n + 1);
                assert((n + 1) * piece_length == n * piece_length + piece_length) by (nonlinear_arith);
            }
            let left: u64 = cl - offset;
            let length: u64 = if left >= piece_length {
                piece_length
            } else {
                left
            };
            let piece = InterestedPiece { number: n as u32, offset, length };
            assert(piece == planned_piece(piece_length, cl, n as int));
            let wanted = match range {
                Some(r) => offset < r.start + r.length && r.start < offset + length,
                None => true,
            };
            proof {
                reveal(Seq::filter);
                assert(all.take(n + 1).drop_last() =~= all.take(n as int));
                assert(all.take(n + 1).last() == piece);
            }
            if wanted {
                out.push(piece);
            }
            offset = offset + length;
            n = n + 1;
        }
        proof {
            lemma_piece_count(piece_length, cl, n as int);
            assert(n == count);
            assert(all.take(n as int) =~= all);
        }
        Ok(out)
    }

    /// Takes out of `interested` the pieces whose number one of the `finished`
    /// pieces has, and keeps the others in their order.
    pub fn remove_finished_from_interested(
        &self,
        finished: &Vec<metadata::Piece>,
        interested: Vec<InterestedPiece>,
    ) -> (r: Vec<InterestedPiece>)
        ensures
            r@ == remaining_pieces(metadata::piece_views(finished@), interested@),
    {
        let ghost done = metadata::piece_views(finished@);
        let ghost pred = |p: InterestedPiece| !is_finished_number(done, p.number);
        let mut out: Vec<InterestedPiece> = Vec::new();
        let mut i: usize = 0;
        proof {
            reveal(Seq::filter);
            assert(interested@.take(0).filter(pred) =~= out@);
        }
        while i < interested.len()
            invariant
                i <= interested@.len(),
                done == metadata::piece_views(finished@),
                pred == (|p: InterestedPiece| !is_finished_number(done, p.number)),
                out@ == interested@.take(i as int).filter(pred),
            decreases interested@.len() - i,
        {
            let piece = interested[i];
            let mut found = false;
            let mut j: usize = 0;
            while j < finished.len()
                invariant
                    j <= finished@.len(),
                    done == metadata::piece_views(finished@),
                    found == exists|k: int| 0 <= k < j && (#[trigger] done[k]).number == piece.number,
                decreases finished@.len() - j,
            {
                if finished[j].number == piece.number {
                    assert(done[j as int].number == piece.number);
                    found = true;
                }
                j = j + 1;
            }
            proof {
                reveal(Seq::filter);
                assert(interested@.take(i + 1).drop_last() =~= interested@.take(i as int));
                assert(interested@.take(i + 1).last() == piece);
            }
            if !found {
                out.push(piece);
            }
            i = i + 1;
        }
        assert(interested@.take(i as int) =~= interested@);
        out
    }

    /// The record of piece `number` of the task `task_id`, if there is one.
    pub fn get(&self, storage: &Storage, task_id: &str, number: u32) -> (r: Result<
        Option<metadata::Piece>,
        Error,
    >)
        requires
            storage.wf(),
        ensures
            match r {
                Ok(Some(p)) => storage@.metadata.has_piece(task_id@, number) && p@
                    == storage@.metadata.piece(task_id@, number),
                Ok(None) => !storage@.metadata.has_piece(task_id@, number),
                Err(_) => false,
            },
    {
        storage.get_piece(task_id, number)
    }

    /// Assigns each interested piece that the store has not committed to one
    /// of the candidate parents, in turn.
    pub fn collect_interested_from_remote_peer(
        &self,
        storage: &Storage,
        task_id: &str,
        interested: &Vec<InterestedPiece>,
        candidate_parents: &Vec<CandidateParent>,
    ) -> (r: Vec<CollectedPiece>)
        requires
            storage.wf(),
        ensures
            collected_views(r@) == collected(
                storage@.metadata,
                task_id@,
                interested@,
                crate::scheduler::parent_views(candidate_parents@),
            ),
    {
        let mut out: Vec<CollectedPiece> = Vec::new();
        let parents: usize = candidate_parents.len();
        if parents == 0 {
            assert(collected_views(out@) =~= Seq::empty());
            return out;
        }
        let ghost m = storage@.metadata;
        let ghost pred = |p: InterestedPiece| !m.committed(task_id@, p.number);
        let ghost parent_seq = crate::scheduler::parent_views(candidate_parents@);
        let mut i: usize = 0;
        let mut turn: usize = 0;
        proof {
            reveal(Seq::filter);
            assert(interested@.take(0).filter(pred).len() == 0);
        }
        while i < interested.len()
            invariant
                storage.wf(),
                m == storage@.metadata,
                i <= interested@.len(),
                parents == candidate_parents@.len(),
                parents > 0,
                turn < parents,
                parent_seq == crate::scheduler::parent_views(candidate_parents@),
                pred == (|p: InterestedPiece| !m.committed(task_id@, p.number)),
                out@.len() == interested@.take(i as int).filter(pred).len(),
                turn == (out@.len() as int) % (parents as int),
                forall|k: int|
                    0 <= k < out@.len() ==> (#[trigger] out@[k])@ == (CollectedPieceView {
                        number: interested@.take(i as int).filter(pred)[k].number,
                        parent: parent_seq[k % (parents as int)],
                    }),
            decreases interested@.len() - i,
        {
            let piece = interested[i];
            let ghost before = interested@.take(i as int).filter(pred);
            proof {
                reveal(Seq::filter);
                assert(interested@.take(i + 1).drop_last() =~= interested@.take(i as int));
                assert(interested@.take(i + 1).last() == piece);
                m.lemma_committed(task_id@, piece.number);
            }
            let committed = match storage.get_piece(task_id, piece.number) {
                Ok(Some(p)) => p.is_finished(),
                _ => false,
            };
            if !committed {
                let parent = candidate_parents[turn].clone();
                out.push(CollectedPiece { number: piece.number, parent });
                proof {
                    let n = parents as int;
                    let len = before.len() as int;
                    assert((len + 1) % n == if turn + 1 == n {
                        0
                    } else {
                        turn + 1
                    }) by (nonlinear_arith)
                        requires
                            turn == len % n,
                            n > 0,
                            len >= 0,
                            0 <= turn < n,
                    ;
                }
                turn = if turn + 1 == parents {
                    0
                } else {
                    turn + 1
                };
            }
            i = i + 1;
        }
        proof {
            assert(interested@.take(i as int) =~= interested@);
            assert(collected_views(out@) =~= collected(m, task_id@, interested@, parent_seq));
        }
        out
    }

    /// Reads piece `number` of the task `task_id` from the store of this
    /// peer. It succeeds only for a piece that is committed.
    pub fn download_from_local_peer(&self, storage: &mut Storage, task_id: &str, number: u32) -> (r:
        Result<Vec<u8>, Error>)
        requires
            old(storage).wf(),
        ensures
            final(storage).wf(),
            final(storage)@ == old(storage)@.served(task_id@, number),
            match r {
                Ok(bytes) => old(storage)@.upload_error(task_id@, number) is None && bytes@
                    == old(storage)@.piece_bytes(task_id@, number),
                Err(e) => old(storage)@.upload_error(task_id@, number) matches Some(kind)
                    && e.is_of(
                    kind,
                    old(storage)@.metadata.piece_error_text(task_id@, number, Some(kind)),
                ),
            },
    {
        storage.upload_piece(task_id, number)
    }

    /// Takes what the parent `parent` sent for piece `number` of the task
    /// `task_id`, or the error that the fetch ended with. An error of the
    /// fetch is handed back and the store is left alone. Else the piece is
    /// reserved, the bytes are stored, and the piece is committed if the
    /// bytes hash to the digest that the parent recorded. On success the
    /// bytes of the committed piece are read back from the store.
    pub fn download_from_remote_peer(
        &self,
        storage: &mut Storage,
        task_id: &str,
        number: u32,
        parent: &CandidateParent,
        fetched: Result<RemotePiece, Error>,
    ) -> (r: Result<Vec<u8>, Error>)
        requires
            old(storage).wf(),
        ensures
            final(storage).wf(),
            match fetched {
                Err(cause) => r == Err::<Vec<u8>, Error>(cause) && final(storage)@ == old(
                    storage,
                )@,
                Ok(p) => {
                    &&& final(storage)@ == remote_fetched(
                        old(storage)@,
                        task_id@,
                        number,
                        parent@.id,
                        p.offset,
                        p.digest@,
                        p.content@,
                    )
                    &&& match r {
                        Ok(bytes) => {
                            &&& remote_fetch_error(
                                old(storage)@,
                                task_id@,
                                number,
                                parent@.id,
                                p.offset,
                                p.digest@,
                                p.content@,
                            ) is None
                            &&& final(storage)@.metadata.committed(task_id@, number)
                            &&& bytes@ == final(storage)@.piece_bytes(task_id@, number)
                        },
                        Err(e) => {
                            &&& remote_fetch_error(
                                old(storage)@,
                                task_id@,
                                number,
                                parent@.id,
                                p.offset,
                                p.digest@,
                                p.content@,
                            ) matches Some(kind)
                            &&& e.is_of(
                                kind,
                                old(storage)@.metadata.piece_error_text(
                                    task_id@,
                                    number,
                                    Some(kind),
                                ),
                            )
                        },
                    }
                },
            },
    {
        let p = match fetched {
            Ok(p) => p,
            Err(e) => {
                return Err(e);
            },
        };
        match storage.download_piece_started(task_id, number) {
            Ok(_) => {},
            Err(e) => {
                return Err(e);
            },
        }
        let ghost reserved = storage@;
        match storage.download_piece_from_remote_peer_finished(
            task_id,
            number,
            p.offset,
            p.digest.as_str(),
            parent.id.as_str(),
            p.content.as_slice(),
        ) {
            Ok(_) => {},
            Err(e) => {
                let _ = storage.download_piece_failed(task_id, number);
                return Err(e);
            },
        }
        let ghost stored = storage@;
        proof {
            let first = PieceView {
                offset: p.offset,
                length: p.content@.len() as u64,
                digest: piece_digest(p.content@),
                parent_id: Some(parent@.id),
                ..reserved.metadata.piece(task_id@, number)
            };
            lemma_accepted_is_committed(reserved.metadata, stored.metadata, task_id@, number, first);
        }
        let r = storage.upload_piece(task_id, number);
        proof {
            lemma_served_keeps_bytes(stored, task_id@, number);
        }
        r
    }

    /// The request that asks the origin for the bytes of piece `number` of
    /// the task `task_id`: a get of `url` with the headers given and a range
    /// header for the `length` bytes from `offset` on, which takes the place
    /// of any range header given. Without a timeout the piece timeout of
    /// the store bounds the request. Fails with `InvalidParameter` for a
    /// piece without bytes and for one that ends beyond 64 bits.
    pub fn source_request(
        &self,
        storage: &Storage,
        task_id: &str,
        number: u32,
        url: &str,
        offset: u64,
        length: u64,
        header: &Header,
        timeout: Option<u64>,
    ) -> (r: Result<GetRequest, Error>)
        ensures
            match r {
                Ok(request) => {
                    &&& length > 0
                    &&& offset + length - 1 <= u64::MAX
                    &&& request.task_id@ == task_id@
                    &&& request.piece_id@ == spec_piece_id(task_id@, number)
                    &&& request.url@ == url@
                    &&& opt_header_view(request.http_header) == Some(
                        with_range(header_view(header@), offset, length),
                    )
                    &&& request.timeout == match timeout {
                        Some(t) => t,
                        None => storage@.piece_timeout,
                    }
                    &&& request.client_certs is None
                },
                Err(e) => (length == 0 || offset + length - 1 > u64::MAX) && e.spec_kind()
                    == ErrorKind::InvalidParameter,
            },
    {
        if length == 0 || offset > u64::MAX - (length - 1) {
            return Err(Error::InvalidParameter);
        }
        let ghost pred = |e: (Seq<char>, Seq<char>)| !eq_ignore_case(e.0, range_name());
        let ghost given = header_view(header@);
        let mut out: Header = Vec::new();
        let mut i: usize = 0;
        proof {
            reveal(Seq::filter);
            reveal_strlit("range");
            assert("range"@ =~= range_name());
            assert(given.take(0).filter(pred) =~= header_view(out@));
        }
        while i < header.len()
            invariant
                i <= header@.len(),
                given == header_view(header@),
                pred == (|e: (Seq<char>, Seq<char>)| !eq_ignore_case(e.0, range_name())),
                "range"@ == range_name(),
                header_view(out@) == given.take(i as int).filter(pred),
            decreases header@.len() - i,
        {
            let ghost before = header_view(out@);
            proof {
                reveal(Seq::filter);
                assert(given.take(i + 1).drop_last() =~= given.take(i as int));
                assert(given.take(i + 1).last() == given[i as int]);
            }
            if !str_eq_ignore_case(header[i].0.as_str(), "range") {
                out.push((header[i].0.clone(), header[i].1.clone()));
                assert(header_view(out@) =~= before.push(given[i as int]));
            }
            i = i + 1;
        }
        assert(given.take(i as int) =~= given);
        proof {
            reveal_strlit("bytes=");
            reveal_strlit("-");
        }
        let mut value = String::from_str("bytes=");
        let first = u64_to_string(offset);
        value.append(first.as_str());
        value.append("-");
        let last = u64_to_string(offset + (length - 1));
        value.append(last.as_str());
        assert(value@ =~= range_value(offset, length));
        let ghost kept = header_view(out@);
        out.push((String::from_str("range"), value));
        assert(header_view(out@) =~= kept.push((range_name(), range_value(offset, length))));
        Ok(
            GetRequest {
                task_id: String::from_str(task_id),
                piece_id: storage.piece_id(task_id, number),
                url: String::from_str(url),
                http_header: Some(out),
                timeout: match timeout {
                    Some(t) => t,
                    None => storage.piece_timeout(),
                },
                client_certs: None,
            },
        )
    }

    /// Takes what the origin answered to the request for piece `number` of
    /// the task `task_id`, or the error that the request ended with. The
    /// piece is reserved first. On a status of success the body is stored
    /// as the `length` bytes from `offset` on, the piece is committed, and
    /// its bytes are read back from the store. On any other status the call
    /// fails with the status and the headers received. Wherever nothing is
    /// committed the piece is marked as failed.
    pub fn download_from_source(
        &self,
        storage: &mut Storage,
        task_id: &str,
        number: u32,
        offset: u64,
        length: u64,
        response: Result<GetResponse, Error>,
    ) -> (r: Result<Vec<u8>, Error>)
        requires
            old(storage).wf(),
        ensures
            final(storage).wf(),
            match response {
                Err(cause) => {
                    &&& final(storage)@ == source_unreached(old(storage)@, task_id@, number)
                    &&& if old(storage)@.metadata.has_task(task_id@) {
                        r == Err::<Vec<u8>, Error>(cause)
                    } else {
                        r matches Err(e) && e.is_of(ErrorKind::TaskNotFound, task_id@)
                    }
                },
                Ok(answer) => {
                    &&& final(storage)@ == source_fetched(
                        old(storage)@,
                        task_id@,
                        number,
                        offset,
                        length,
                        answer.success,
                        answer.body@,
                    )
                    &&& match r {
                        Ok(bytes) => {
                            &&& source_fetch_error(
                                old(storage)@,
                                task_id@,
                                number,
                                offset,
                                length,
                                answer.success,
                                answer.body@,
                            ) is None
                            &&& final(storage)@.metadata.committed(task_id@, number)
                            &&& bytes@ == final(storage)@.piece_bytes(task_id@, number)
                        },
                        Err(e) => {
                            &&& source_fetch_error(
                                old(storage)@,
                                task_id@,
                                number,
                                offset,
                                length,
                                answer.success,
                                answer.body@,
                            ) matches Some(kind)
                            &&& e.is_of(
                                kind,
                                old(storage)@.metadata.piece_error_text(
                                    task_id@,
                                    number,
                                    Some(kind),
                                ),
                            )
                            &&& e matches Error::HTTP(failure) ==> failure.status_code
                                == answered_status(answer.http_status_code) && Some(
                                header_view(failure.header@),
                            ) == answered_header(answer.http_header)
                        },
                    }
                },
            },
    {
        match storage.download_piece_started(task_id, number) {
            Ok(_) => {},
            Err(e) => {
                return Err(e);
            },
        }
        let answer = match response {
            Ok(answer) => answer,
            Err(e) => {
                let _ = storage.download_piece_failed(task_id, number);
                return Err(e);
            },
        };
        if !answer.success {
            let _ = storage.download_piece_failed(task_id, number);
            let status_code: u16 = match answer.http_status_code {
                Some(status) => status,
                None => 0,
            };
            let header: Header = match answer.http_header {
                Some(header) => header,
                None => Vec::new(),
            };
            assert(header_view(header@) =~= answered_header(answer.http_header)->0);
            return Err(Error::HTTP(HttpError { status_code, header }));
        }
        let ghost reserved = storage@;
        match storage.download_piece_from_source_finished(
            task_id,
            number,
            offset,
            length,
            answer.body.as_slice(),
        ) {
            Ok(_) => {},
            Err(e) => {
                let _ = storage.download_piece_failed(task_id, number);
                return Err(e);
            },
        }
        let ghost stored = storage@;
        proof {
            let first = PieceView {
                offset,
                length,
                digest: piece_digest(answer.body@),
                parent_id: None,
                ..reserved.metadata.piece(task_id@, number)
            };
            lemma_accepted_is_committed(reserved.metadata, stored.metadata, task_id@, number, first);
        }
        let r = storage.upload_piece(task_id, number);
        proof {
            lemma_served_keeps_bytes(stored, task_id@, number);
        }
        r
    }

    /// Checks bytes against a digest and hands them to the output file, to
    /// be written at `offset`. The bytes are handed over before they are
    /// checked: they reach the file whether they pass or not. Fails with
    /// `PieceDigestMismatch` where the bytes do not hash to
    /// `expected_digest`.
    pub fn write_into_file_and_verify(
        &self,
        data: Vec<u8>,
        file: &mut Vec<FileWrite>,
        offset: u64,
        expected_digest: &str,
    ) -> (r: Result<(), Error>)
        ensures
            write_views(final(file)@) == write_views(old(file)@).push(
                FileWriteView { offset, data: data@ },
            ),
            match r {
                Ok(_) => piece_digest(data@) == expected_digest@,
                Err(e) => piece_digest(data@) != expected_digest@ && e.spec_kind()
                    == ErrorKind::PieceDigestMismatch,
            },
    {
        let digest = digest_of(data.as_slice());
        let ghost before = write_views(file@);
        let write = FileWrite { offset, data };
        file.push(write);
        assert(write_views(file@) =~= before.push(write@));
        if str_eq(digest.as_str(), expected_digest) {
            Ok(())
        } else {
            Err(Error::PieceDigestMismatch)
        }
    }
}

/// A piece that the records have accepted is committed: it was committed
/// before, or it is now, with the values given.
pub proof fn lemma_accepted_is_committed(
    before: MetadataView,
    after: MetadataView,
    task_id: Seq<char>,
    number: u32,
    values: PieceView,
)
    requires
        before.wf(),
        before.has_task(task_id),
        before.has_piece(task_id, number),
        before.piece(task_id, number).state == PieceState::Finished ==> after == before,
        before.piece(task_id, number).state != PieceState::Finished ==> before.piece_finished_error(
            task_id,
            number,
            values.offset,
            values.length,
            values.digest,
            values.parent_id,
        ) is None && exists|now: u64|
            after == #[trigger] before.piece_finished(
                task_id,
                number,
                values.offset,
                values.length,
                values.digest,
                values.parent_id,
                now,
            ),
    ensures
        after.has_task(task_id),
        after.committed(task_id, number),
{
    if before.piece(task_id, number).state == PieceState::Finished {
        before.lemma_committed(task_id, number);
    } else {
        let now = choose|now: u64|
            after == #[trigger] before.piece_finished(
                task_id,
                number,
                values.offset,
                values.length,
                values.digest,
                values.parent_id,
                now,
            );
        before.lemma_commit_once(task_id, number, values, values, now);
        let k = before.task_at(task_id);
        assert(after.tasks[k].id == task_id);
    }
}

/// No fetch takes a commit back: after what a parent or the origin sent is
/// taken, and after a fetch that brought nothing, every piece that was
/// committed still is.
pub proof fn lemma_fetches_keep_committed(
    s: StorageView,
    task_id: Seq<char>,
    number: u32,
    parent_id: Seq<char>,
    offset: u64,
    length: u64,
    digest: Seq<char>,
    content: Seq<u8>,
    success: bool,
)
    ensures
        forall|id: Seq<char>, n: u32|
            s.metadata.committed(id, n) ==> #[trigger] remote_fetched(
                s,
                task_id,
                number,
                parent_id,
                offset,
                digest,
                content,
            ).metadata.committed(id, n),
        forall|id: Seq<char>, n: u32|
            s.metadata.committed(id, n) ==> #[trigger] source_fetched(
                s,
                task_id,
                number,
                offset,
                length,
                success,
                content,
            ).metadata.committed(id, n),
        forall|id: Seq<char>, n: u32|
            s.metadata.committed(id, n) ==> #[trigger] source_unreached(
                s,
                task_id,
                number,
            ).metadata.committed(id, n),
{
    let reserved = s.started(task_id, number);
    let from_parent = reserved.remote_finished(task_id, number, offset, digest, parent_id, content);
    let from_source = reserved.source_finished(task_id, number, offset, length, content);
    s.lemma_steps_keep_committed(task_id, number, offset, length, digest, parent_id, content);
    reserved.lemma_steps_keep_committed(
        task_id,
        number,
        offset,
        length,
        digest,
        parent_id,
        content,
    );
    from_parent.lemma_steps_keep_committed(
        task_id,
        number,
        offset,
        length,
        digest,
        parent_id,
        content,
    );
    from_source.lemma_steps_keep_committed(
        task_id,
        number,
        offset,
        length,
        digest,
        parent_id,
        content,
    );
    assert forall|id: Seq<char>, n: u32| s.metadata.committed(id, n) implies #[trigger] remote_fetched(
        s,
        task_id,
        number,
        parent_id,
        offset,
        digest,
        content,
    ).metadata.committed(id, n) by {
        assert(reserved.metadata.committed(id, n));
        assert(from_parent.metadata.committed(id, n));
        assert(from_parent.failed(task_id, number).metadata.committed(id, n));
        assert(from_parent.served(task_id, number).metadata.committed(id, n));
    }
    assert forall|id: Seq<char>, n: u32| s.metadata.committed(id, n) implies #[trigger] source_fetched(
        s,
        task_id,
        number,
        offset,
        length,
        success,
        content,
    ).metadata.committed(id, n) by {
        assert(reserved.metadata.committed(id, n));
        assert(reserved.failed(task_id, number).metadata.committed(id, n));
        assert(from_source.metadata.committed(id, n));
        assert(from_source.served(task_id, number).metadata.committed(id, n));
    }
    assert forall|id: Seq<char>, n: u32| s.metadata.committed(id, n) implies #[trigger] source_unreached(
        s,
        task_id,
        number,
    ).metadata.committed(id, n) by {
        assert(reserved.metadata.committed(id, n));
        assert(reserved.failed(task_id, number).metadata.committed(id, n));
    }
}

/// Serving a committed piece leaves it committed and leaves its bytes as
/// they are.
pub proof fn lemma_served_keeps_bytes(s: StorageView, task_id: Seq<char>, number: u32)
    requires
        s.wf(),
        s.metadata.has_task(task_id),
        s.metadata.committed(task_id, number),
    ensures
        s.served(task_id, number).metadata.committed(task_id, number),
        s.served(task_id, number).piece_bytes(task_id, number) == s.piece_bytes(task_id, number),
        s.served(task_id, number).metadata.piece(task_id, number).digest == s.metadata.piece(
            task_id,
            number,
        ).digest,
{
    let m = s.metadata;
    m.lemma_committed(task_id, number);
    let ti = m.task_at(task_id);
    m.lemma_task_at(ti);
    let pi = m.piece_at(task_id, number);
    m.lemma_piece_at(pi);
    let touched = m.with_task(task_id, m.task_touched(task_id, s.now));
    assert(touched.pieces == m.pieces);
    assert(touched.pieces_unique());
    touched.lemma_piece_at(pi);
    let after = touched.piece_touched(task_id, number, s.now);
    assert(after.pieces[pi].task_id == task_id && after.pieces[pi].number == number
        && after.pieces[pi].state == PieceState::Finished);
    assert(after.pieces_unique()) by {
        assert forall|a: int, b: int| 0 <= a < b < after.pieces.len() implies !((
        #[trigger] after.pieces[a]).task_id == (#[trigger] after.pieces[b]).task_id
            && after.pieces[a].number == after.pieces[b].number) by {
            assert(!(m.pieces[a].task_id == m.pieces[b].task_id && m.pieces[a].number
                == m.pieces[b].number));
        }
    }
    after.lemma_piece_at(pi);
}

} // verus!
