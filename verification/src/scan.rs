//! Finding where the lines of a file start, one chunk of bytes at a time.

use crate::codec::MAX_TEXT_BYTES;
use crate::encoding::{newline_ends_at, FileEncoding};
use vstd::prelude::*;

verus! {

/// How many bytes one step of the scan covers.
pub const CHUNK_SIZE: usize = 4194304;

/// Whether a line starts at position `p`: the first one, and one after each
/// line feed that is not the end of the file.
pub open spec fn is_line_start(bytes: Seq<u8>, encoding: FileEncoding, p: int) -> bool {
    p == 0 || (p < bytes.len() && newline_ends_at(bytes, encoding, p))
}

/// The positions below `end` where a line starts, in increasing order.
pub open spec fn line_starts(bytes: Seq<u8>, encoding: FileEncoding, end: int) -> Seq<usize>
    decreases end,
{
    if end <= 0 {
        Seq::empty()
    } else if is_line_start(bytes, encoding, end - 1) {
        line_starts(bytes, encoding, end - 1).push((end - 1) as usize)
    } else {
        line_starts(bytes, encoding, end - 1)
    }
}

/// Whether the scan can go on from `pos`: it has not stopped inside a code
/// unit, unless at the end.
pub open spec fn is_scan_position(bytes: Seq<u8>, encoding: FileEncoding, pos: int) -> bool {
    &&& 0 <= pos <= bytes.len()
    &&& pos == bytes.len() || pos % encoding.unit() == 0
}

/// What one step of the scan found.
pub struct ScanChunk {
    /// Where the step began.
    pub start: usize,
    /// Where the step ended.
    pub end: usize,
    /// The line starts that follow the line feeds in between.
    pub offsets: Vec<usize>,
}

impl ScanChunk {
    /// Whether this is what the step from `start` finds in `bytes`.
    pub open spec fn is_chunk_of(self, bytes: Seq<u8>, encoding: FileEncoding) -> bool {
        &&& is_scan_position(bytes, encoding, self.start as int)
        &&& self.end == if self.start + CHUNK_SIZE < bytes.len() {
            self.start + CHUNK_SIZE
        } else {
            bytes.len() as int
        }
        &&& is_scan_position(bytes, encoding, self.end as int)
        &&& line_starts(bytes, encoding, self.start + 1) + self.offsets@ == line_starts(
            bytes,
            encoding,
            self.end + 1,
        )
    }
}

/// Whether line `k` of a file has at most as many bytes as can be decoded.
pub open spec fn line_fits(bytes: Seq<u8>, encoding: FileEncoding, k: int) -> bool {
    let starts = line_starts(bytes, encoding, bytes.len() as int);
    let end = if k + 1 < starts.len() {
        starts[k + 1] as int
    } else {
        bytes.len() as int
    };
    end - starts[k] <= MAX_TEXT_BYTES
}

/// Whether every line of a file has at most as many bytes as can be decoded. In
/// a file that has no more bytes than that, every line has.
pub open spec fn lines_fit(bytes: Seq<u8>, encoding: FileEncoding) -> bool {
    ||| bytes.len() <= MAX_TEXT_BYTES
    ||| forall|k: int|
        0 <= k < line_starts(bytes, encoding, bytes.len() as int).len() ==> #[trigger] line_fits(
            bytes,
            encoding,
            k,
        )
}

/// The positions where a line starts are listed in increasing order, each
/// once, and all of them.
pub proof fn law_line_starts_exact(bytes: Seq<u8>, encoding: FileEncoding, end: int)
    requires
        0 <= end <= usize::MAX + 1,
    ensures
        forall|i: int, j: int|
            0 <= i < j < line_starts(bytes, encoding, end).len() ==> line_starts(
                bytes,
                encoding,
                end,
            )[i] < line_starts(bytes, encoding, end)[j],
        forall|i: int|
            0 <= i < line_starts(bytes, encoding, end).len() ==> {
                let p = #[trigger] line_starts(bytes, encoding, end)[i];
                p < end && is_line_start(bytes, encoding, p as int)
            },
        forall|p: int|
            0 <= p < end && #[trigger] is_line_start(bytes, encoding, p) ==> line_starts(
                bytes,
                encoding,
                end,
            ).contains(p as usize),
    decreases end,
{
    if end > 0 {
        law_line_starts_exact(bytes, encoding, end - 1);
        let before = line_starts(bytes, encoding, end - 1);
        let now = line_starts(bytes, encoding, end);
        assert forall|p: int| 0 <= p < end && #[trigger] is_line_start(
            bytes,
            encoding,
            p,
        ) implies now.contains(p as usize) by {
            if p < end - 1 {
                let i = choose|i: int| 0 <= i < before.len() && before[i] == p as usize;
                assert(now[i] == p as usize);
            } else {
                assert(now[now.len() - 1] == p as usize);
            }
        }
    }
}

/// The list of line starts only grows at its end as more of the file is seen.
pub proof fn law_line_starts_grow(bytes: Seq<u8>, encoding: FileEncoding, a: int, b: int)
    requires
        a <= b,
    ensures
        line_starts(bytes, encoding, a).is_prefix_of(line_starts(bytes, encoding, b)),
    decreases b - a,
{
    if a < b {
        law_line_starts_grow(bytes, encoding, a, b - 1);
    }
    assert(line_starts(bytes, encoding, a) =~= line_starts(bytes, encoding, b).take(
        line_starts(bytes, encoding, a).len() as int,
    ));
}

proof fn lemma_no_start(bytes: Seq<u8>, encoding: FileEncoding, a: int, b: int)
    requires
        0 <= a <= b,
        forall|p: int| a <= p < b ==> !#[trigger] is_line_start(bytes, encoding, p),
    ensures
        line_starts(bytes, encoding, a) == line_starts(bytes, encoding, b),
    decreases b - a,
{
    if a < b {
        lemma_no_start(bytes, encoding, a, b - 1);
    }
}

/// One step of the scan, from `pos` on.
pub fn scan_chunk(bytes: &[u8], encoding: FileEncoding, pos: usize) -> (chunk: ScanChunk)
    requires
        is_scan_position(bytes@, encoding, pos as int),
    ensures
        chunk.is_chunk_of(bytes@, encoding),
        chunk.start == pos,
{
    let len: usize = bytes.len();
    let end: usize = if len - pos > CHUNK_SIZE {
        pos + CHUNK_SIZE
    } else {
        len
    };
    let mut offsets: Vec<usize> = Vec::new();
    let ghost done = line_starts(bytes@, encoding, pos + 1);
    assert(done + offsets@ =~= done);
    match encoding {
        FileEncoding::Utf8 | FileEncoding::ShiftJis => {
            let mut at: usize = pos;
            while at < end
                invariant
                    pos <= at <= end <= len,
                    len == bytes@.len(),
                    encoding.is_single_byte(),
                    done + offsets@ == line_starts(bytes@, encoding, at + 1),
                decreases end - at,
            {
                let ghost before = offsets@;
                if bytes[at] == 0x0A && at + 1 < len {
                    offsets.push(at + 1);
                    assert(is_line_start(bytes@, encoding, at + 1));
                    assert(done + offsets@ =~= (done + before).push((at + 1) as usize));
                } else {
                    assert(!is_line_start(bytes@, encoding, at + 1));
                }
                at = at + 1;
            }
        },
        FileEncoding::Utf16Le => {
            let mut at: usize = pos;
            while at < end && end - at > 1
                invariant
                    pos <= at <= end <= len,
                    len == bytes@.len(),
                    end == len || end % 2 == 0,
                    at % 2 == 0 || at == len,
                    encoding == FileEncoding::Utf16Le,
                    done + offsets@ == line_starts(bytes@, encoding, at + 1),
                decreases end - at,
            {
                let ghost before = offsets@;
                assert(!is_line_start(bytes@, encoding, at + 1));
                if bytes[at] == 0x0A && bytes[at + 1] == 0x00 && at + 2 < len {
                    offsets.push(at + 2);
                    assert(is_line_start(bytes@, encoding, at + 2));
                    assert(done + offsets@ =~= (done + before).push((at + 2) as usize));
                } else {
                    assert(!is_line_start(bytes@, encoding, at + 2));
                }
                assert(line_starts(bytes@, encoding, at + 2) == line_starts(bytes@, encoding, at + 1));
                at = at + 2;
            }
            proof {
                lemma_no_start(bytes@, encoding, at + 1, end + 1);
            }
        },
        FileEncoding::Utf16Be => {
            let mut at: usize = pos;
            while at < end && end - at > 1
                invariant
                    pos <= at <= end <= len,
                    len == bytes@.len(),
                    end == len || end % 2 == 0,
                    at % 2 == 0 || at == len,
                    encoding == FileEncoding::Utf16Be,
                    done + offsets@ == line_starts(bytes@, encoding, at + 1),
                decreases end - at,
            {
                let ghost before = offsets@;
                assert(!is_line_start(bytes@, encoding, at + 1));
                if bytes[at] == 0x00 && bytes[at + 1] == 0x0A && at + 2 < len {
                    offsets.push(at + 2);
                    assert(is_line_start(bytes@, encoding, at + 2));
                    assert(done + offsets@ =~= (done + before).push((at + 2) as usize));
                } else {
                    assert(!is_line_start(bytes@, encoding, at + 2));
                }
                assert(line_starts(bytes@, encoding, at + 2) == line_starts(bytes@, encoding, at + 1));
                at = at + 2;
            }
            proof {
                lemma_no_start(bytes@, encoding, at + 1, end + 1);
            }
        },
    }
    ScanChunk { start: pos, end, offsets }
}

} // verus!
