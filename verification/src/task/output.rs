//! The output file of a download: what a sequence of writes leaves in it.

use crate::storage::content::written;
use crate::task::piece::{lemma_piece_count, piece_count, planned_piece, FileWriteView};
use vstd::arithmetic::div_mod::lemma_fundamental_div_mod_converse;
use vstd::prelude::*;

verus! {

/// The bytes of a file after the writes, performed in order on `file`.
pub open spec fn apply_writes(file: Seq<u8>, writes: Seq<FileWriteView>) -> Seq<u8>
    decreases writes.len(),
{
    if writes.len() == 0 {
        file
    } else {
        written(
            apply_writes(file, writes.drop_last()),
            writes.last().offset as int,
            writes.last().data,
        )
    }
}

/// The parts one after the other.
pub open spec fn concat(parts: Seq<Seq<u8>>) -> Seq<u8>
    decreases parts.len(),
{
    if parts.len() == 0 {
        Seq::empty()
    } else {
        concat(parts.drop_last()) + parts.last()
    }
}

/// True when `parts` holds the bytes of every piece of a content, by
/// number: as many parts as the content has pieces, each of the length of
/// its piece.
pub open spec fn pieces_of_content(
    piece_length: u64,
    content_length: u64,
    parts: Seq<Seq<u8>>,
) -> bool {
    &&& parts.len() == piece_count(piece_length, content_length)
    &&& forall|n: int|
        0 <= n < parts.len() ==> (#[trigger] parts[n]).len() == planned_piece(
            piece_length,
            content_length,
            n,
        ).length
}

/// True when the write puts the bytes of piece `n` where the piece lies.
pub open spec fn writes_piece(
    piece_length: u64,
    parts: Seq<Seq<u8>>,
    w: FileWriteView,
    n: int,
) -> bool {
    0 <= n < parts.len() && w.offset == n * piece_length && w.data == parts[n]
}

/// True when the write puts the bytes of some piece where the piece lies.
pub open spec fn is_piece(piece_length: u64, parts: Seq<Seq<u8>>, w: FileWriteView) -> bool {
    exists|n: int| #[trigger] writes_piece(piece_length, parts, w, n)
}

/// True when every write puts the bytes of some piece where the piece lies.
pub open spec fn writes_are_pieces(
    piece_length: u64,
    parts: Seq<Seq<u8>>,
    writes: Seq<FileWriteView>,
) -> bool {
    forall|k: int| 0 <= k < writes.len() ==> is_piece(piece_length, parts, #[trigger] writes[k])
}

/// True when one of the writes puts the bytes of piece `n` where the piece
/// lies.
pub open spec fn is_written(
    piece_length: u64,
    parts: Seq<Seq<u8>>,
    writes: Seq<FileWriteView>,
    n: int,
) -> bool {
    exists|k: int|
        0 <= k < writes.len() && #[trigger] writes_piece(piece_length, parts, writes[k], n)
}

/// True when every piece is written by at least one of the writes.
pub open spec fn every_piece_written(
    piece_length: u64,
    parts: Seq<Seq<u8>>,
    writes: Seq<FileWriteView>,
) -> bool {
    forall|n: int|
        0 <= n < parts.len() ==> #[trigger] is_written(piece_length, parts, writes, n)
}

/// True when one of the writes covers the byte at position `b`.
pub open spec fn covered(writes: Seq<FileWriteView>, b: int) -> bool {
    exists|j: int|
        0 <= j < writes.len() && (#[trigger] writes[j]).offset <= b < writes[j].offset
            + writes[j].data.len()
}

/// The byte at position `b` of a content whose pieces are `parts`.
pub open spec fn byte_of(piece_length: u64, parts: Seq<Seq<u8>>, b: int) -> u8 {
    let n = b / (piece_length as int);
    parts[n][b - n * piece_length]
}

/// A byte that lies in piece `n` has a position that, divided by the piece
/// length, gives `n`.
proof fn lemma_position(piece_length: u64, n: int, b: int)
    requires
        piece_length > 0,
        n >= 0,
        n * piece_length <= b < n * piece_length + piece_length,
    ensures
        b / (piece_length as int) == n,
{
    lemma_fundamental_div_mod_converse(b, piece_length as int, n, b - n * piece_length);
}

/// Where a piece lies: it starts at its number times the piece length, is
/// no longer than a piece, and ends within the content.
proof fn lemma_extent(piece_length: u64, content_length: u64, n: int)
    requires
        piece_length > 0,
        0 <= n < piece_count(piece_length, content_length),
    ensures
        0 < planned_piece(piece_length, content_length, n).length <= piece_length,
        n * piece_length + planned_piece(piece_length, content_length, n).length
            <= content_length,
        n + 1 == piece_count(piece_length, content_length) ==> n * piece_length + planned_piece(
            piece_length,
            content_length,
            n,
        ).length == content_length,
        n + 1 < piece_count(piece_length, content_length) ==> planned_piece(
            piece_length,
            content_length,
            n,
        ).length == piece_length,
{
    lemma_piece_count(piece_length, content_length, n);
    lemma_piece_count(piece_length, content_length, n + 1);
    assert((n + 1) * piece_length == n * piece_length + piece_length) by (nonlinear_arith);
}

/// The first `k` parts, one after the other, are the first bytes of the
/// content.
proof fn lemma_concat_prefix(
    piece_length: u64,
    content_length: u64,
    parts: Seq<Seq<u8>>,
    k: int,
)
    requires
        piece_length > 0,
        pieces_of_content(piece_length, content_length, parts),
        0 <= k <= parts.len(),
    ensures
        concat(parts.take(k)).len() == if k == parts.len() {
            content_length as int
        } else {
            k * piece_length
        },
        forall|b: int|
            0 <= b < concat(parts.take(k)).len() ==> #[trigger] concat(parts.take(k))[b]
                == byte_of(piece_length, parts, b),
    decreases k,
{
    let pl = piece_length as int;
    if k == 0 {
        lemma_piece_count(piece_length, content_length, 0);
        assert(parts.take(0) =~= Seq::empty());
    } else {
        lemma_concat_prefix(piece_length, content_length, parts, k - 1);
        lemma_extent(piece_length, content_length, k - 1);
        let before = concat(parts.take(k - 1));
        let part = parts[k - 1];
        assert(parts.take(k).drop_last() =~= parts.take(k - 1));
        assert(parts.take(k).last() == part);
        assert(concat(parts.take(k)) == before + part);
        assert(before.len() == (k - 1) * pl);
        assert(k * pl == (k - 1) * pl + pl) by (nonlinear_arith);
        assert forall|b: int| 0 <= b < concat(parts.take(k)).len() implies #[trigger] concat(
            parts.take(k),
        )[b] == byte_of(piece_length, parts, b) by {
            if b >= before.len() {
                lemma_position(piece_length, k - 1, b);
            } else {
                assert(before[b] == byte_of(piece_length, parts, b));
            }
        }
    }
}

/// What the first `k` writes leave in an empty file: a file within the
/// content that reaches as far as the writes do, with the bytes of the
/// content wherever a write has been and zero elsewhere.
proof fn lemma_apply_prefix(
    piece_length: u64,
    content_length: u64,
    parts: Seq<Seq<u8>>,
    writes: Seq<FileWriteView>,
    k: int,
)
    requires
        piece_length > 0,
        pieces_of_content(piece_length, content_length, parts),
        writes_are_pieces(piece_length, parts, writes),
        0 <= k <= writes.len(),
    ensures
        apply_writes(Seq::empty(), writes.take(k)).len() <= content_length,
        forall|j: int|
            0 <= j < k ==> (#[trigger] writes[j]).offset + writes[j].data.len() <= apply_writes(
                Seq::empty(),
                writes.take(k),
            ).len(),
        forall|b: int|
            0 <= b < apply_writes(Seq::empty(), writes.take(k)).len() ==> #[trigger] apply_writes(
                Seq::empty(),
                writes.take(k),
            )[b] == if covered(writes.take(k), b) {
                byte_of(piece_length, parts, b)
            } else {
                0u8
            },
    decreases k,
{
    let pl = piece_length as int;
    if k == 0 {
        assert(writes.take(0) =~= Seq::empty());
    } else {
        lemma_apply_prefix(piece_length, content_length, parts, writes, k - 1);
        let earlier = writes.take(k - 1);
        let now = writes.take(k);
        let w = writes[k - 1];
        assert(now.drop_last() =~= earlier);
        assert(now.last() == w);
        let before = apply_writes(Seq::empty(), earlier);
        let after = apply_writes(Seq::empty(), now);
        assert(after == written(before, w.offset as int, w.data));
        assert(is_piece(piece_length, parts, writes[k - 1]));
        let n = choose|n: int| #[trigger] writes_piece(piece_length, parts, writes[k - 1], n);
        lemma_extent(piece_length, content_length, n);
        assert(w.data.len() == planned_piece(piece_length, content_length, n).length);
        assert forall|b: int| 0 <= b < after.len() implies #[trigger] after[b] == if covered(
            now,
            b,
        ) {
            byte_of(piece_length, parts, b)
        } else {
            0u8
        } by {
            if w.offset <= b < w.offset + w.data.len() {
                lemma_position(piece_length, n, b);
                assert(now[k - 1].offset <= b < now[k - 1].offset + now[k - 1].data.len());
            } else {
                if covered(now, b) {
                    let j = choose|j: int|
                        0 <= j < now.len() && (#[trigger] now[j]).offset <= b < now[j].offset
                            + now[j].data.len();
                    assert(j < k - 1);
                    assert(earlier[j] == now[j]);
                    assert(covered(earlier, b));
                    assert(writes[j] == earlier[j]);
                }
                if covered(earlier, b) {
                    let j = choose|j: int|
                        0 <= j < earlier.len() && (#[trigger] earlier[j]).offset <= b
                            < earlier[j].offset + earlier[j].data.len();
                    assert(now[j] == earlier[j]);
                    assert(covered(now, b));
                    assert(writes[j] == earlier[j]);
                }
                if b < before.len() {
                    assert(after[b] == before[b]);
                }
            }
        }
    }
}

/// The output file holds the content. Let `parts` be the bytes of every
/// piece of a content, by number. Where each write puts the bytes of a
/// piece where the piece lies, and every piece is written at least once, the
/// writes leave in an empty file the pieces one after the other in
/// ascending order of their numbers, whatever the order of the writes.
pub proof fn lemma_output_is_concatenation(
    piece_length: u64,
    content_length: u64,
    parts: Seq<Seq<u8>>,
    writes: Seq<FileWriteView>,
)
    requires
        piece_length > 0,
        pieces_of_content(piece_length, content_length, parts),
        writes_are_pieces(piece_length, parts, writes),
        every_piece_written(piece_length, parts, writes),
    ensures
        apply_writes(Seq::empty(), writes) == concat(parts),
{
    let pl = piece_length as int;
    let file = apply_writes(Seq::empty(), writes);
    let whole = concat(parts);
    lemma_apply_prefix(piece_length, content_length, parts, writes, writes.len() as int);
    lemma_concat_prefix(piece_length, content_length, parts, parts.len() as int);
    assert(writes.take(writes.len() as int) =~= writes);
    assert(parts.take(parts.len() as int) =~= parts);
    lemma_piece_count(piece_length, content_length, 0);
    if parts.len() > 0 {
        let last = parts.len() - 1;
        lemma_extent(piece_length, content_length, last);
        assert(is_written(piece_length, parts, writes, last));
        let k = choose|k: int|
            0 <= k < writes.len() && #[trigger] writes_piece(piece_length, parts, writes[k], last);
        assert(writes[k].offset + writes[k].data.len() == content_length);
    }
    assert(file.len() == whole.len());
    assert forall|b: int| 0 <= b < file.len() implies file[b] == whole[b] by {
        let n = b / pl;
        assert(n * pl <= b < n * pl + pl && n >= 0) by (nonlinear_arith)
            requires
                n == b / pl,
                pl > 0,
                b >= 0,
        ;
        lemma_piece_count(piece_length, content_length, n);
        assert(n * pl < content_length);
        assert(0 <= n < parts.len());
        lemma_extent(piece_length, content_length, n);
        assert(is_written(piece_length, parts, writes, n));
        let k = choose|k: int|
            0 <= k < writes.len() && #[trigger] writes_piece(piece_length, parts, writes[k], n);
        if n + 1 < parts.len() {
            assert(writes[k].data.len() == pl);
        } else {
            assert(writes[k].offset + writes[k].data.len() == content_length);
        }
        assert(writes[k].offset <= b < writes[k].offset + writes[k].data.len());
        assert(covered(writes, b));
    }
    assert(file =~= whole);
}

} // verus!
