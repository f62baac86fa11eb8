//! What is drawn of one line: a first part of it that is not too long, cut into
//! segments that are highlighted and segments that are not.

use crate::codec::law_bytes_of_char;
use crate::encoding::FileEncoding;
use crate::pattern::{are_ranges_in, compile, compiled, find_ranges, match_ranges};
use crate::prefix::{is_longest_prefix, law_short_text_is_whole, split_prefix};
use crate::text::{trim_end, trim_space};
use crate::utf8_lines::{lemma_encode_concat, lemma_scalar_bytes};
use vstd::prelude::*;
use vstd::utf8::{
    encode_utf8, encode_utf8_valid_utf8, is_char_boundary, is_char_boundary_start_end_of_seq,
};

verus! {

/// How many bytes of a line are drawn, in UTF-8.
pub const MAX_DISPLAY_LEN: usize = 4000;

/// The first part of `text` that is drawn.
pub fn display_prefix(text: &str) -> (short: &str)
    ensures
        is_longest_prefix(text@, MAX_DISPLAY_LEN as int, short@),
{
    let (short, _) = split_prefix(text, MAX_DISPLAY_LEN);
    short
}

/// What is drawn of a line: its text without the white space at its end, and
/// not too long.
pub fn row_text(line: &str) -> (short: &str)
    ensures
        is_longest_prefix(trim_space(line@), MAX_DISPLAY_LEN as int, short@),
{
    let clean = trim_end(line);
    display_prefix(clean)
}

/// A part of a line, from one byte position up to another, and whether it is
/// highlighted.
#[derive(Debug, Clone, Copy, PartialEq, Eq, Structural)]
pub struct Segment {
    pub start: usize,
    pub end: usize,
    pub matched: bool,
}

/// Where the first `n` ranges end.
pub open spec fn ranges_end(ranges: Seq<(usize, usize)>, n: int) -> usize {
    if n <= 0 {
        0
    } else {
        ranges[n - 1].1
    }
}

/// What stands between two positions, as a segment that is not highlighted;
/// none where nothing stands there.
pub open spec fn plain(start: usize, end: usize) -> Seq<Segment> {
    if start < end {
        seq![Segment { start, end, matched: false }]
    } else {
        Seq::empty()
    }
}

/// The segments up to the end of the first `n` ranges: each range is
/// highlighted, what stands before it is not.
pub open spec fn segments_before(ranges: Seq<(usize, usize)>, n: int) -> Seq<Segment>
    decreases n,
{
    if n <= 0 {
        Seq::empty()
    } else {
        let (start, end) = ranges[n - 1];
        segments_before(ranges, n - 1) + plain(ranges_end(ranges, n - 1), start) + seq![
            Segment { start, end, matched: true },
        ]
    }
}

/// The segments of a line of `len` bytes in which `ranges` are highlighted.
pub open spec fn segments(len: usize, ranges: Seq<(usize, usize)>) -> Seq<Segment> {
    let n = ranges.len() as int;
    segments_before(ranges, n) + plain(ranges_end(ranges, n), len)
}

/// Whether each segment begins where the one before it ends, from 0 to `len`.
pub open spec fn tile(parts: Seq<Segment>, len: int) -> bool {
    &&& parts.len() == 0 ==> len == 0
    &&& parts.len() > 0 ==> parts[0].start == 0 && parts.last().end == len
    &&& forall|k: int|
        0 <= k < parts.len() ==> (#[trigger] parts[k]).start <= parts[k].end
    &&& forall|k: int| 0 < k < parts.len() ==> (#[trigger] parts[k]).start == parts[k - 1].end
}

/// Whether the segments cut no character apart.
pub open spec fn cut_at_boundaries(parts: Seq<Segment>, bytes: Seq<u8>) -> bool {
    forall|k: int|
        0 <= k < parts.len() ==> is_char_boundary(bytes, (#[trigger] parts[k]).start as int)
            && is_char_boundary(bytes, parts[k].end as int)
}

proof fn lemma_segments_tile(ranges: Seq<(usize, usize)>, bytes: Seq<u8>, n: int)
    requires
        0 <= n <= ranges.len(),
        are_ranges_in(ranges, bytes),
        is_char_boundary(bytes, 0),
    ensures
        tile(segments_before(ranges, n), ranges_end(ranges, n) as int),
        cut_at_boundaries(segments_before(ranges, n), bytes),
        is_char_boundary(bytes, ranges_end(ranges, n) as int),
    decreases n,
{
    if n > 0 {
        lemma_segments_tile(ranges, bytes, n - 1);
        let (start, end) = ranges[n - 1];
        if n > 1 {
            assert(ranges[n - 2].1 <= ranges[n - 1].0);
        }
    }
}

/// The segments of a line cover all of it, each byte once and in order, and cut
/// no character apart.
pub proof fn law_segments_cover_the_line(text: Seq<char>, len: usize, ranges: Seq<(usize, usize)>)
    requires
        len == encode_utf8(text).len(),
        are_ranges_in(ranges, encode_utf8(text)),
    ensures
        tile(segments(len, ranges), len as int),
        cut_at_boundaries(segments(len, ranges), encode_utf8(text)),
{
    let bytes = encode_utf8(text);
    encode_utf8_valid_utf8(text);
    is_char_boundary_start_end_of_seq(bytes);
    lemma_segments_tile(ranges, bytes, ranges.len() as int);
    if ranges.len() > 0 {
        assert(ranges[ranges.len() - 1].1 <= len);
    }
}

fn push_plain(out: &mut Vec<Segment>, start: usize, end: usize)
    ensures
        final(out)@ == old(out)@ + plain(start, end),
{
    let ghost before = out@;
    if start < end {
        out.push(Segment { start, end, matched: false });
    }
    assert(out@ =~= before + plain(start, end));
}

/// The segments of a line of `len` bytes in which `ranges` are highlighted.
pub fn highlight_segments(len: usize, ranges: &[(usize, usize)]) -> (parts: Vec<Segment>)
    ensures
        parts@ == segments(len, ranges@),
{
    let mut out: Vec<Segment> = Vec::new();
    let mut last: usize = 0;
    let mut i: usize = 0;
    while i < ranges.len()
        invariant
            i <= ranges@.len(),
            last == ranges_end(ranges@, i as int),
            out@ == segments_before(ranges@, i as int),
        decreases ranges@.len() - i,
    {
        let (start, end) = ranges[i];
        push_plain(&mut out, last, start);
        out.push(Segment { start, end, matched: true });
        last = end;
        i = i + 1;
        assert(out@ =~= segments_before(ranges@, i as int));
    }
    push_plain(&mut out, last, len);
    out
}

/// The segments in which `text` is drawn: the matches of `pattern` are
/// highlighted. Without a pattern, or with one that is no regular expression,
/// the text is one segment.
pub fn highlight(pattern: &str, text: &str) -> (parts: Vec<Segment>)
    ensures
        match (pattern@.len() > 0, compiled(pattern@)) {
            (true, Ok(re)) => parts@ == segments(
                encode_utf8(text@).len() as usize,
                match_ranges(re, text@),
            ),
            _ => parts@ == seq![
                Segment { start: 0, end: encode_utf8(text@).len() as usize, matched: false },
            ],
        },
        tile(parts@, encode_utf8(text@).len() as int),
        cut_at_boundaries(parts@, encode_utf8(text@)),
{
    let len: usize = text.as_bytes().len();
    proof {
        encode_utf8_valid_utf8(text@);
        is_char_boundary_start_end_of_seq(encode_utf8(text@));
    }
    if !pattern.is_empty() {
        if let Ok(re) = compile(pattern) {
            let ranges = find_ranges(&re, text);
            proof {
                law_segments_cover_the_line(text@, len, ranges@);
            }
            return highlight_segments(len, ranges.as_slice());
        }
    }
    let mut out: Vec<Segment> = Vec::new();
    out.push(Segment { start: 0, end: len, matched: false });
    assert(out@ =~= seq![Segment { start: 0, end: len, matched: false }]);
    out
}

proof fn lemma_matches_are_segments(ranges: Seq<(usize, usize)>, n: int, k: int)
    requires
        0 <= k < n <= ranges.len(),
    ensures
        segments_before(ranges, n).contains(
            Segment { start: ranges[k].0, end: ranges[k].1, matched: true },
        ),
    decreases n,
{
    let (start, end) = ranges[n - 1];
    let before = segments_before(ranges, n - 1);
    let all = segments_before(ranges, n);
    let part = Segment { start: ranges[k].0, end: ranges[k].1, matched: true };
    if k < n - 1 {
        lemma_matches_are_segments(ranges, n - 1, k);
        let j = choose|j: int| 0 <= j < before.len() && before[j] == part;
        assert(all[j] == part);
    } else {
        assert(all[all.len() - 1] == part);
    }
}

proof fn lemma_segments_are_matches(ranges: Seq<(usize, usize)>, n: int, j: int)
    requires
        0 <= n <= ranges.len(),
        0 <= j < segments_before(ranges, n).len(),
    ensures
        segments_before(ranges, n)[j].matched ==> exists|k: int|
            0 <= k < n && #[trigger] ranges[k] == (
                segments_before(ranges, n)[j].start,
                segments_before(ranges, n)[j].end,
            ),
        !segments_before(ranges, n)[j].matched ==> segments_before(ranges, n)[j].start
            < segments_before(ranges, n)[j].end && j + 1 < segments_before(ranges, n).len()
            && segments_before(ranges, n)[j + 1].matched,
    decreases n,
{
    if n > 0 {
        let (start, end) = ranges[n - 1];
        let before = segments_before(ranges, n - 1);
        let gap = plain(ranges_end(ranges, n - 1), start);
        let all = segments_before(ranges, n);
        if j < before.len() {
            lemma_segments_are_matches(ranges, n - 1, j);
            assert(all[j] == before[j]);
            if !before[j].matched {
                assert(all[j + 1] == before[j + 1]);
            } else {
                let k = choose|k: int|
                    0 <= k < n - 1 && #[trigger] ranges[k] == (before[j].start, before[j].end);
                assert(ranges[k] == (all[j].start, all[j].end));
            }
        } else if j < before.len() + gap.len() {
            assert(all[j] == gap[0]);
            assert(all[j + 1] == (Segment { start, end, matched: true }));
        } else {
            assert(all[j] == (Segment { start, end, matched: true }));
            assert(ranges[n - 1] == (all[j].start, all[j].end));
        }
    }
}

/// A segment is highlighted just where it is a match. Every match is a segment
/// that is highlighted; every segment that is highlighted is a match; and what
/// is not highlighted has bytes, and no two such segments follow each other.
pub proof fn law_matches_are_highlighted(len: usize, ranges: Seq<(usize, usize)>)
    ensures
        forall|k: int|
            0 <= k < ranges.len() ==> {
                let (start, end) = #[trigger] ranges[k];
                exists|j: int|
                    0 <= j < segments(len, ranges).len() && (#[trigger] segments(len, ranges)[j])
                        == (Segment { start, end, matched: true })
            },
        forall|j: int|
            0 <= j < segments(len, ranges).len() && (#[trigger] segments(len, ranges)[j]).matched
                ==> ranges.contains(
                (segments(len, ranges)[j].start, segments(len, ranges)[j].end),
            ),
        forall|j: int|
            0 <= j < segments(len, ranges).len() && !(#[trigger] segments(len, ranges)[j]).matched
                ==> segments(len, ranges)[j].start < segments(len, ranges)[j].end,
        forall|i: int, j: int|
            0 <= i && j == i + 1 && j < segments(len, ranges).len() ==> (#[trigger] segments(
                len,
                ranges,
            )[i]).matched || (#[trigger] segments(len, ranges)[j]).matched,
{
    let n = ranges.len() as int;
    let front = segments_before(ranges, n);
    let all = segments(len, ranges);
    assert forall|k: int| 0 <= k < ranges.len() implies {
        let (start, end) = #[trigger] ranges[k];
        exists|j: int|
            0 <= j < all.len() && (#[trigger] all[j]) == (Segment { start, end, matched: true })
    } by {
        lemma_matches_are_segments(ranges, n, k);
        let part = Segment { start: ranges[k].0, end: ranges[k].1, matched: true };
        let j = choose|j: int| 0 <= j < front.len() && front[j] == part;
        assert(all[j] == part);
    }
    assert forall|j: int| 0 <= j < all.len() implies {
        &&& (#[trigger] all[j]).matched ==> ranges.contains((all[j].start, all[j].end))
        &&& !all[j].matched ==> all[j].start < all[j].end
        &&& !all[j].matched && j + 1 < all.len() ==> all[j + 1].matched
    } by {
        if j < front.len() {
            lemma_segments_are_matches(ranges, n, j);
            assert(all[j] == front[j]);
            if j + 1 < front.len() {
                assert(all[j + 1] == front[j + 1]);
            }
        }
    }
}

/// The matches are highlighted in the order in which they stand: of two matches
/// that have bytes, the segment of the first comes before that of the second.
pub proof fn law_highlights_in_order(
    text: Seq<char>,
    len: usize,
    ranges: Seq<(usize, usize)>,
    i: int,
    j: int,
)
    requires
        len == encode_utf8(text).len(),
        are_ranges_in(ranges, encode_utf8(text)),
        0 <= i < j < segments(len, ranges).len(),
    ensures
        segments(len, ranges)[i].end <= segments(len, ranges)[j].start,
    decreases j - i,
{
    law_segments_cover_the_line(text, len, ranges);
    let all = segments(len, ranges);
    assert(all[j].start == all[j - 1].end);
    if i < j - 1 {
        law_highlights_in_order(text, len, ranges, i, j - 1);
        assert(all[j - 1].start <= all[j - 1].end);
    }
}

/// At most 4000 bytes of a line are drawn, and all of it where it has no more.
/// A longer line is cut less than one character short of that.
pub proof fn law_row_length(text: Seq<char>, short: Seq<char>)
    requires
        is_longest_prefix(text, MAX_DISPLAY_LEN as int, short),
    ensures
        short.is_prefix_of(text),
        encode_utf8(short).len() <= 4000,
        encode_utf8(text).len() <= 4000 ==> short == text,
        encode_utf8(text).len() > 4000 ==> encode_utf8(short).len() > 4000 - 4,
{
    if encode_utf8(text).len() <= 4000 {
        law_short_text_is_whole(text, 4000, short);
    } else {
        assert(short =~= text.take(short.len() as int));
        if short.len() == text.len() {
            assert(text.take(text.len() as int) =~= text);
        }
        let c = text[short.len() as int];
        let longer = text.take(short.len() as int + 1);
        assert(longer =~= short + seq![c]);
        lemma_encode_concat(short, seq![c]);
        law_bytes_of_char(FileEncoding::Utf8, c);
        lemma_scalar_bytes(c);
    }
}

proof fn lemma_highlights(ranges: Seq<(usize, usize)>, n: int)
    requires
        0 <= n <= ranges.len(),
    ensures
        segments_before(ranges, n).filter(|part: Segment| part.matched) == Seq::new(
            n as nat,
            |k: int| Segment { start: ranges[k].0, end: ranges[k].1, matched: true },
        ),
    decreases n,
{
    let highlighted = |part: Segment| part.matched;
    let all = Seq::new(
        n as nat,
        |k: int| Segment { start: ranges[k].0, end: ranges[k].1, matched: true },
    );
    reveal(Seq::filter);
    if n == 0 {
        assert(segments_before(ranges, n).filter(highlighted) =~= all);
    } else {
        lemma_highlights(ranges, n - 1);
        let (start, end) = ranges[n - 1];
        let front = segments_before(ranges, n - 1);
        let gap = plain(ranges_end(ranges, n - 1), start);
        let part = Segment { start, end, matched: true };
        lemma_gap_is_plain(front, ranges_end(ranges, n - 1), start);
        assert((front + gap + seq![part]).drop_last() =~= front + gap);
        assert(segments_before(ranges, n).filter(highlighted) =~= front.filter(highlighted).push(
            part,
        ));
        assert(all =~= front.filter(highlighted).push(part));
    }
}

proof fn lemma_gap_is_plain(front: Seq<Segment>, start: usize, end: usize)
    ensures
        (front + plain(start, end)).filter(|part: Segment| part.matched) == front.filter(
            |part: Segment| part.matched,
        ),
{
    reveal(Seq::filter);
    if start < end {
        assert((front + plain(start, end)).drop_last() =~= front);
    } else {
        assert(front + plain(start, end) =~= front);
    }
}

/// The segments that are highlighted are the matches: all of them, each once, in
/// their order.
pub proof fn law_highlights_are_the_matches(len: usize, ranges: Seq<(usize, usize)>)
    ensures
        segments(len, ranges).filter(|part: Segment| part.matched) == Seq::new(
            ranges.len(),
            |k: int| Segment { start: ranges[k].0, end: ranges[k].1, matched: true },
        ),
{
    let n = ranges.len() as int;
    lemma_highlights(ranges, n);
    lemma_gap_is_plain(segments_before(ranges, n), ranges_end(ranges, n), len);
}

} // verus!
