//! Which lines a file has that was put together from pieces, each meant as one
//! line.

use crate::editor::LargeFileEditor;
use crate::encoding::{ends_with_break, newline_ends_at, trimmed, FileEncoding};
use crate::codec::is_line_content;
use crate::scan::{is_line_start, line_starts};
use vstd::prelude::*;

verus! {

/// Whether `piece` can be one line of a file: it has bytes, and no line feed
/// ends before its end.
pub open spec fn is_piece(encoding: FileEncoding, piece: Seq<u8>) -> bool {
    &&& piece.len() > 0
    &&& forall|q: int| 0 < q < piece.len() ==> !#[trigger] newline_ends_at(piece, encoding, q)
}

/// Whether `piece` ends with a line feed.
pub open spec fn is_terminated(encoding: FileEncoding, piece: Seq<u8>) -> bool {
    newline_ends_at(piece, encoding, piece.len() as int)
}

/// Whether `pieces` are lines, each but the last one ending with a line feed.
pub open spec fn are_pieces(encoding: FileEncoding, pieces: Seq<Seq<u8>>) -> bool {
    &&& forall|k: int| 0 <= k < pieces.len() ==> is_piece(encoding, #[trigger] pieces[k])
    &&& forall|k: int| 0 <= k < pieces.len() - 1 ==> is_terminated(encoding, #[trigger] pieces[k])
}

/// The pieces in a row.
pub open spec fn concat(pieces: Seq<Seq<u8>>) -> Seq<u8>
    decreases pieces.len(),
{
    if pieces.len() == 0 {
        Seq::empty()
    } else {
        concat(pieces.drop_last()) + pieces.last()
    }
}

/// Two rows of pieces, one after the other.
pub proof fn lemma_concat_append(a: Seq<Seq<u8>>, b: Seq<Seq<u8>>)
    ensures
        concat(a + b) == concat(a) + concat(b),
    decreases b.len(),
{
    if b.len() == 0 {
        assert(a + b =~= a);
        assert(concat(a) + concat(b) =~= concat(a));
    } else {
        lemma_concat_append(a, b.drop_last());
        assert((a + b).drop_last() =~= a + b.drop_last());
        assert((a + b).last() == b.last());
        assert(concat(a + b) =~= concat(a) + concat(b));
    }
}

proof fn lemma_whole_units(encoding: FileEncoding, pieces: Seq<Seq<u8>>)
    requires
        forall|k: int| 0 <= k < pieces.len() ==> is_terminated(encoding, #[trigger] pieces[k]),
    ensures
        concat(pieces).len() as int % encoding.unit() == 0,
        pieces.len() > 0 ==> is_terminated(encoding, concat(pieces)),
    decreases pieces.len(),
{
    assert(encoding.unit() == 1 || encoding.unit() == 2);
    if pieces.len() > 0 {
        let front = pieces.drop_last();
        assert forall|k: int| 0 <= k < front.len() implies is_terminated(
            encoding,
            #[trigger] front[k],
        ) by {
            assert(front[k] == pieces[k]);
        }
        lemma_whole_units(encoding, front);
        let last = pieces.last();
        assert(is_terminated(encoding, pieces[pieces.len() - 1]));
        let whole = concat(pieces);
        let n = whole.len() as int;
        assert(n == concat(front).len() + last.len());
        assert(n % encoding.unit() == 0) by {
            if encoding.unit() == 2 {
                assert(last.len() as int % 2 == 0 && concat(front).len() as int % 2 == 0);
            }
        }
        assert(whole[n - 1] == last[last.len() - 1]);
        if encoding.unit() == 2 {
            assert(whole[n - 2] == last[last.len() - 2]);
        }
    }
}

/// Where the lines start in `front` does not change by what follows it.
proof fn lemma_starts_in_front(encoding: FileEncoding, front: Seq<u8>, rest: Seq<u8>, end: int)
    requires
        end <= front.len(),
    ensures
        line_starts(front + rest, encoding, end) == line_starts(front, encoding, end),
    decreases end,
{
    if end > 0 {
        lemma_starts_in_front(encoding, front, rest, end - 1);
        let p = end - 1;
        assert(is_line_start(front + rest, encoding, p) == is_line_start(front, encoding, p));
    }
}

/// No line starts inside a piece.
proof fn lemma_no_start_in_piece(
    encoding: FileEncoding,
    front: Seq<u8>,
    piece: Seq<u8>,
    end: int,
)
    requires
        front.len() as int % encoding.unit() == 0,
        is_piece(encoding, piece),
        front.len() < end <= front.len() + piece.len(),
    ensures
        line_starts(front + piece, encoding, end) == line_starts(
            front + piece,
            encoding,
            front.len() as int + 1,
        ),
    decreases end,
{
    if end > front.len() + 1 {
        lemma_no_start_in_piece(encoding, front, piece, end - 1);
        let whole = front + piece;
        let p = end - 1;
        let q = p - front.len();
        assert(!newline_ends_at(piece, encoding, q));
        if newline_ends_at(whole, encoding, p) {
            assert(q % encoding.unit() == 0);
            assert(whole[p - 1] == piece[q - 1]);
            if encoding.unit() == 2 {
                assert(whole[p - 2] == piece[q - 2]);
            }
        }
        assert(!is_line_start(whole, encoding, p));
    }
}

/// A line starts at the start of each piece and nowhere else.
pub proof fn lemma_piece_starts(encoding: FileEncoding, pieces: Seq<Seq<u8>>)
    requires
        pieces.len() > 0,
        are_pieces(encoding, pieces),
        concat(pieces).len() <= usize::MAX,
    ensures
        concat(pieces).len() > 0,
        line_starts(concat(pieces), encoding, concat(pieces).len() as int).len() == pieces.len(),
        forall|k: int|
            0 <= k < pieces.len() ==> #[trigger] line_starts(
                concat(pieces),
                encoding,
                concat(pieces).len() as int,
            )[k] == concat(pieces.take(k)).len(),
    decreases pieces.len(),
{
    let front_pieces = pieces.drop_last();
    let piece = pieces.last();
    let front = concat(front_pieces);
    let whole = concat(pieces);
    let m = pieces.len() as int;
    assert(is_piece(encoding, pieces[m - 1]));
    assert forall|k: int| 0 <= k < front_pieces.len() implies is_terminated(
        encoding,
        #[trigger] front_pieces[k],
    ) by {
        assert(is_terminated(encoding, pieces[k]));
    }
    assert forall|k: int| 0 <= k < front_pieces.len() implies is_piece(
        encoding,
        #[trigger] front_pieces[k],
    ) by {
        assert(is_piece(encoding, pieces[k]));
    }
    lemma_whole_units(encoding, front_pieces);
    assert(pieces.take(m - 1) =~= front_pieces);
    lemma_starts_in_front(encoding, front, piece, front.len() as int);
    lemma_no_start_in_piece(encoding, front, piece, whole.len() as int);
    let starts = line_starts(whole, encoding, whole.len() as int);
    let front_starts = line_starts(front, encoding, front.len() as int);
    if front_pieces.len() > 0 {
        lemma_piece_starts(encoding, front_pieces);
        assert(newline_ends_at(whole, encoding, front.len() as int)) by {
            let p = front.len() as int;
            assert(newline_ends_at(front, encoding, p));
            assert(whole[p - 1] == front[p - 1]);
            if encoding.unit() == 2 {
                assert(whole[p - 2] == front[p - 2]);
            }
        }
    } else {
        assert(front.len() == 0);
    }
    assert(is_line_start(whole, encoding, front.len() as int));
    assert(starts =~= front_starts.push(front.len() as usize));
    assert forall|k: int| 0 <= k < m implies #[trigger] starts[k] == concat(pieces.take(k)).len() by {
        if k < m - 1 {
            assert(front_pieces.take(k) =~= pieces.take(k));
            assert(starts[k] == front_starts[k]);
        }
    }
}

proof fn lemma_concat_take(pieces: Seq<Seq<u8>>, k: int)
    requires
        0 <= k < pieces.len(),
    ensures
        concat(pieces.take(k + 1)) == concat(pieces.take(k)) + pieces[k],
        concat(pieces.take(k + 1)).len() <= concat(pieces).len(),
        concat(pieces).subrange(
            concat(pieces.take(k)).len() as int,
            concat(pieces.take(k + 1)).len() as int,
        ) == pieces[k],
{
    assert(pieces.take(k + 1).drop_last() =~= pieces.take(k));
    assert(pieces.take(k + 1) + pieces.skip(k + 1) =~= pieces);
    lemma_concat_append(pieces.take(k + 1), pieces.skip(k + 1));
    assert(concat(pieces).subrange(
        concat(pieces.take(k)).len() as int,
        concat(pieces.take(k + 1)).len() as int,
    ) =~= pieces[k]);
}

/// A file that was put together from pieces has these pieces as its lines.
pub proof fn law_pieces_are_lines(editor: &LargeFileEditor<'_>, pieces: Seq<Seq<u8>>)
    requires
        editor.wf(),
        editor.scan_finished,
        editor.mmap@ == concat(pieces),
        are_pieces(editor.encoding, pieces),
    ensures
        editor.base_lines() == pieces.len(),
        forall|k: int|
            0 <= k < pieces.len() ==> #[trigger] editor.raw_line(k) == Some(pieces[k]),
{
    let bytes = editor.mmap@;
    let n = bytes.len() as int;
    lemma_piece_starts(editor.encoding, pieces);
    assert(editor.line_offsets@ == line_starts(bytes, editor.encoding, n + 1));
    assert(!is_line_start(bytes, editor.encoding, n));
    assert forall|k: int| 0 <= k < pieces.len() implies #[trigger] editor.raw_line(k) == Some(
        pieces[k],
    ) by {
        lemma_concat_take(pieces, k);
        let start = line_starts(bytes, editor.encoding, n)[k];
        assert(is_piece(editor.encoding, pieces[k]));
        if k + 1 < pieces.len() {
            let next = line_starts(bytes, editor.encoding, n)[k + 1];
            assert(next == concat(pieces.take(k + 1)).len());
        } else {
            assert(pieces.take(k + 1) =~= pieces);
        }
    }
}

/// The content of a line, followed by its line break, is one line; trimming it
/// gives the content back.
pub proof fn lemma_content_piece(encoding: FileEncoding, content: Seq<u8>, newline: Seq<u8>)
    requires
        is_line_content(encoding, content),
        newline == encoding.crlf() || newline == encoding.lf(),
    ensures
        is_piece(encoding, content + newline),
        is_terminated(encoding, content + newline),
        trimmed(content + newline, encoding) == content,
{
    let piece = content + newline;
    let c = content.len() as int;
    let n = piece.len() as int;
    let unit = encoding.unit();
    assert forall|q: int| 0 < q < piece.len() implies !#[trigger] newline_ends_at(
        piece,
        encoding,
        q,
    ) by {
        if newline_ends_at(piece, encoding, q) {
            if q <= c {
                assert(!newline_ends_at(content, encoding, q));
                assert(piece[q - 1] == content[q - 1]);
                if unit == 2 {
                    assert(piece[q - 2] == content[q - 2]);
                }
            } else {
                assert(q == c + unit);
                assert(piece[q - 1] == newline[unit - 1]);
                if unit == 2 {
                    assert(piece[q - 2] == newline[0]);
                }
            }
        }
    }
    assert(piece[n - 1] == newline[newline.len() - 1]);
    if unit == 2 {
        assert(piece[n - 2] == newline[newline.len() - 2]);
    }
    assert(ends_with_break(piece, encoding));
    let shorter = piece.take(n - unit);
    assert(trimmed(piece, encoding) == trimmed(shorter, encoding));
    assert(trimmed(content, encoding) == content);
    if newline == encoding.crlf() {
        let m = shorter.len() as int;
        assert(shorter[m - 1] == newline[unit - 1]);
        if unit == 2 {
            assert(shorter[m - 2] == newline[0]);
        }
        assert(ends_with_break(shorter, encoding));
        assert(shorter.take(m - unit) =~= content);
        assert(trimmed(shorter, encoding) == trimmed(content, encoding));
    } else {
        assert(shorter =~= content);
    }
}

} // verus!
