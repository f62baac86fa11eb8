//! What holds of the editor as a whole: how edits change what is shown, and
//! what is found again in a file that was written.

use crate::codec::{
    bytes_of, is_ascii_text, is_line_text, law_reads_back, law_writes_lines, reads_back, text_of,
    writes_as_line,
};
use crate::display::{law_known_lines_have_bytes, lemma_rows_grow, lemma_unedited_rows};
use crate::editor::{lemma_first_line, DisplayRow, LargeFileEditor, LineState};
use crate::encoding::{newline_ends_at, newline_suffix, trimmed, FileEncoding};
use crate::filter::{
    after_steps, any_matches, law_matching_lines_exact, started, FilterRun, FilterView,
    FilterWork,
};
use crate::pattern::{compiled, finds_match, replaced};
use crate::pieces::{
    are_pieces, concat, is_piece, is_terminated, law_pieces_are_lines, lemma_concat_append,
    lemma_content_piece,
};
use crate::scan::{is_line_start, law_line_starts_exact};
use crate::text::texts;
use regex::Regex;
use vstd::prelude::*;

verus! {

proof fn lemma_same_rows(a: &LargeFileEditor<'_>, b: &LargeFileEditor<'_>, idx: int, n: int)
    requires
        a.same_index(b),
        0 <= n <= usize::MAX + 1,
        n <= idx,
        forall|k: usize|
            k != idx ==> (#[trigger] a.edited_lines@.contains_key(k)
                == b.edited_lines@.contains_key(k)) && a.edited_lines@[k] == b.edited_lines@[k],
    ensures
        a.rows_before(n) == b.rows_before(n),
    decreases n,
{
    if n > 0 {
        lemma_same_rows(a, b, idx, n - 1);
        assert(a.edited_lines@.contains_key((n - 1) as usize) == b.edited_lines@.contains_key(
            (n - 1) as usize,
        ));
        assert(a.line_text(n - 1) == b.line_text(n - 1));
        assert(a.rows_of(n - 1) =~= b.rows_of(n - 1));
    }
}

proof fn lemma_rows_after(a: &LargeFileEditor<'_>, b: &LargeFileEditor<'_>, idx: int, n: int)
    requires
        a.same_index(b),
        0 <= idx < n <= usize::MAX + 1,
        forall|k: usize|
            k != idx ==> (#[trigger] a.edited_lines@.contains_key(k)
                == b.edited_lines@.contains_key(k)) && a.edited_lines@[k] == b.edited_lines@[k],
    ensures
        b.rows_before(idx + 1).len() <= b.rows_before(n).len(),
        a.rows_before(n) == a.rows_before(idx + 1) + b.rows_before(n).skip(
            b.rows_before(idx + 1).len() as int,
        ),
    decreases n,
{
    if n == idx + 1 {
        assert(a.rows_before(n) =~= a.rows_before(idx + 1) + b.rows_before(n).skip(
            b.rows_before(idx + 1).len() as int,
        ));
    } else {
        lemma_rows_after(a, b, idx, n - 1);
        assert(a.edited_lines@.contains_key((n - 1) as usize) == b.edited_lines@.contains_key(
            (n - 1) as usize,
        ));
        assert(a.line_text(n - 1) == b.line_text(n - 1));
        assert(a.rows_of(n - 1) =~= b.rows_of(n - 1));
        assert(a.rows_before(n) =~= a.rows_before(idx + 1) + b.rows_before(n).skip(
            b.rows_before(idx + 1).len() as int,
        ));
    }
}

/// The number of lines fits in a `usize`.
pub proof fn lemma_base_bound(editor: &LargeFileEditor<'_>)
    ensures
        editor.base_lines() <= usize::MAX,
{
    assert(editor.line_offsets@.len() == editor.line_offsets.len());
}

/// An edit of a line changes what is shown for that line and nothing else: the
/// lines shown before it stay, and those after it follow what is now shown in
/// its place. So the number of lines shown changes by just as many. An edit
/// beyond the known lines is not shown.
pub proof fn law_edit_changes_one_line(
    before: &LargeFileEditor<'_>,
    after: &LargeFileEditor<'_>,
    idx: usize,
    state: LineState,
)
    requires
        before.wf(),
        after.same_index(before),
        after.edited_lines@ == before.edited_lines@.insert(idx, state),
    ensures
        idx < before.base_lines() ==> {
            &&& after.display_rows() == before.rows_before(idx as int) + after.rows_of(idx as int)
                + before.display_rows().skip(before.rows_before(idx + 1).len() as int)
            &&& after.display_rows().len() == before.display_rows().len() - before.rows_of(
                idx as int,
            ).len() + after.rows_of(idx as int).len()
            &&& before.display_rows().take(before.rows_before(idx as int).len() as int)
                == before.rows_before(idx as int)
        },
        idx >= before.base_lines() ==> after.display_rows() == before.display_rows(),
{
    let base = before.base_lines();
    if idx < base {
        lemma_same_rows(after, before, idx as int, idx as int);
        lemma_base_bound(before);
        lemma_rows_after(after, before, idx as int, base);
        assert(after.rows_before(idx + 1) == after.rows_before(idx as int) + after.rows_of(
            idx as int,
        ));
        assert(before.rows_before(idx + 1) == before.rows_before(idx as int) + before.rows_of(
            idx as int,
        ));
        lemma_rows_grow(before, idx as int, base);
        assert(before.display_rows().take(before.rows_before(idx as int).len() as int)
            =~= before.rows_before(idx as int));
        assert(after.display_rows() =~= before.rows_before(idx as int) + after.rows_of(idx as int)
            + before.display_rows().skip(before.rows_before(idx + 1).len() as int));
    } else {
        lemma_same_rows(after, before, idx as int, base);
    }
}

/// While the scan goes on, what was shown of the file stays as it is, and more
/// lines follow. `after` is what came of `before` by steps of the scan.
pub proof fn law_scan_keeps_rows(before: &LargeFileEditor<'_>, after: &LargeFileEditor<'_>, n: int)
    requires
        0 <= n <= before.base_lines() <= after.base_lines(),
        after.encoding == before.encoding,
        after.edited_lines@ == before.edited_lines@,
        forall|i: int|
            0 <= i < before.base_lines() ==> #[trigger] after.raw_line(i) == before.raw_line(i),
    ensures
        after.rows_before(n) == before.rows_before(n),
        before.rows_before(n).is_prefix_of(after.display_rows()),
    decreases n,
{
    if n > 0 {
        law_scan_keeps_rows(before, after, n - 1);
        assert(after.raw_line(n - 1) == before.raw_line(n - 1));
        assert(after.rows_of(n - 1) =~= before.rows_of(n - 1));
    }
    lemma_rows_grow(after, n, after.base_lines());
    assert(before.rows_before(n) =~= after.display_rows().take(
        before.rows_before(n).len() as int,
    ));
}

/// A filter finds the same lines whether it runs while the scan goes on or once
/// it is done. `after` is what came of `before` by steps of the scan.
pub proof fn law_filter_while_scanning(
    before: &LargeFileEditor<'_>,
    after: &LargeFileEditor<'_>,
    re: Regex,
    n: int,
)
    requires
        0 <= n <= before.base_lines(),
        after.encoding == before.encoding,
        after.edited_lines@ == before.edited_lines@,
        forall|i: int|
            0 <= i < before.base_lines() ==> #[trigger] after.raw_line(i) == before.raw_line(i),
    ensures
        after.matching_lines(re, n) == before.matching_lines(re, n),
    decreases n,
{
    if n > 0 {
        law_filter_while_scanning(before, after, re, n - 1);
        assert(after.raw_line(n - 1) == before.raw_line(n - 1));
        assert(after.line_matches(re, n - 1) == before.line_matches(re, n - 1));
    }
}

/// Whether what a filter has found are the lines that have a match among those
/// that it has looked at.
pub open spec fn filter_is_exact(editor: &LargeFileEditor<'_>, run: FilterRun) -> bool {
    &&& run.work matches Some(FilterWork { re, line }) && 0 <= line <= editor.base_lines() && run.seen.results
        == editor.matching_lines(re, line)
    &&& run.seen.error is None
}

/// A step keeps a filter exact. Where it is the last one in a file that is
/// scanned to its end, the results are all the lines that have a match.
pub proof fn law_step_keeps_filter_exact(
    editor: &LargeFileEditor<'_>,
    run: FilterRun,
    cancelled: bool,
)
    requires
        filter_is_exact(editor, run),
    ensures
        filter_is_exact(editor, editor.stepped(run, cancelled)),
        !cancelled && editor.scan_finished && run.work->0.line >= editor.base_lines()
            ==> editor.stepped(run, cancelled).seen == (FilterView {
            results: editor.matching_lines(run.work->0.re, editor.base_lines()),
            progress: editor.base_lines(),
            finished: true,
            error: None,
        }),
{
}

/// Whether `after` is what came of `before` by steps of the scan, if any, with
/// the same edits. `apply_chunk` gives such a file.
pub open spec fn scanned_on(before: &LargeFileEditor<'_>, after: &LargeFileEditor<'_>) -> bool {
    &&& after.encoding == before.encoding
    &&& after.edited_lines@ == before.edited_lines@
    &&& before.base_lines() <= after.base_lines()
    &&& forall|i: int|
        0 <= i < before.base_lines() ==> #[trigger] after.raw_line(i) == before.raw_line(i)
    &&& before.scan_finished ==> after.scan_finished && after.base_lines() == before.base_lines()
}

/// Steps of the scan keep a filter exact.
pub proof fn law_scan_keeps_filter_exact(
    before: &LargeFileEditor<'_>,
    after: &LargeFileEditor<'_>,
    run: FilterRun,
)
    requires
        filter_is_exact(before, run),
        scanned_on(before, after),
    ensures
        filter_is_exact(after, run),
{
    law_filter_while_scanning(before, after, run.work->0.re, run.work->0.line);
}

/// A filter that is started and takes its steps while the file is scanned, with
/// no edit in between, has found exactly the lines that have a match among those
/// that it has looked at. Once it is done the file is scanned to its end, and
/// the results are all the lines that have a match, and no others.
pub proof fn law_filter_during_scan<'a>(
    number: u64,
    pattern: Seq<char>,
    re: Regex,
    steps: Seq<(LargeFileEditor<'a>, bool)>,
)
    requires
        pattern.len() > 0,
        compiled(pattern) == Ok::<Regex, regex::Error>(re),
        steps.len() > 0,
        forall|i: int| 0 <= i < steps.len() ==> !(#[trigger] steps[i]).1,
        forall|i: int, j: int|
            0 <= i && j == i + 1 && j < steps.len() ==> scanned_on(
                &(#[trigger] steps[i]).0,
                &(#[trigger] steps[j]).0,
            ),
    ensures
        ({
            let run = after_steps(started(number, pattern), steps);
            let editor = steps.last().0;
            &&& filter_is_exact(&editor, run)
            &&& run.work->0.re == re
            &&& run.seen.finished ==> editor.scan_finished && run.seen.progress
                == editor.base_lines() && run.seen.results == editor.matching_lines(
                re,
                editor.base_lines(),
            ) && run.work->0.line == editor.base_lines()
        }),
    decreases steps.len(),
{
    let n = steps.len() as int;
    let front = steps.drop_last();
    let editor = steps.last().0;
    assert(!steps[n - 1].1);
    let before = after_steps(started(number, pattern), front);
    if n > 1 {
        assert forall|i: int| 0 <= i < front.len() implies !(#[trigger] front[i]).1 by {
            assert(front[i] == steps[i]);
        }
        assert forall|i: int, j: int| 0 <= i && j == i + 1 && j < front.len() implies scanned_on(
            &(#[trigger] front[i]).0,
            &(#[trigger] front[j]).0,
        ) by {
            assert(front[i] == steps[i] && front[j] == steps[j]);
        }
        law_filter_during_scan(number, pattern, re, front);
        assert(front.last() == steps[n - 2]);
        assert(scanned_on(&steps[n - 2].0, &steps[n - 1].0));
        law_scan_keeps_filter_exact(&front.last().0, &editor, before);
    } else {
        assert(front =~= Seq::empty());
    }
    law_step_keeps_filter_exact(&editor, before, false);
}

/// A filter finds a line of the file just where one of the lines shown for it
/// has a match.
pub proof fn law_filter_finds_what_is_shown(editor: &LargeFileEditor<'_>, re: Regex, i: int)
    requires
        editor.wf(),
        0 <= i < editor.base_lines(),
    ensures
        editor.line_matches(re, i) <==> exists|k: int|
            0 <= k < editor.rows_of(i).len() && finds_match(
                re,
                (#[trigger] editor.rows_of(i)[k]).text,
            ),
{
    let rows = editor.rows_of(i);
    if editor.edited_lines@.contains_key(i as usize) {
        if let LineState::Modified(lines) = editor.edited_lines@[i as usize] {
            if any_matches(re, lines@) {
                let j = choose|j: int|
                    0 <= j < lines@.len() && finds_match(re, (#[trigger] lines@[j])@);
                assert(finds_match(re, rows[j].text));
            }
            if exists|k: int| 0 <= k < rows.len() && finds_match(re, (#[trigger] rows[k]).text) {
                let k = choose|k: int|
                    0 <= k < rows.len() && finds_match(re, (#[trigger] rows[k]).text);
                assert(finds_match(re, lines@[k]@));
            }
        }
    } else {
        law_known_lines_have_bytes(editor, i);
        assert(rows[0].text == editor.line_text(i));
    }
}

/// What is shown for each result of a filter has a match: one of the lines that
/// stand from the place of that line of the file on.
pub proof fn law_results_are_matches(editor: &LargeFileEditor<'_>, re: Regex, k: int)
    requires
        editor.wf(),
        0 <= k < editor.matching_lines(re, editor.base_lines()).len(),
    ensures
        ({
            let line = editor.matching_lines(re, editor.base_lines())[k] as int;
            exists|d: int|
                editor.rows_before(line).len() <= d < editor.rows_before(line + 1).len() && d
                    < editor.display_rows().len() && (#[trigger] editor.display_rows()[d]).orig
                    == line && finds_match(re, editor.display_rows()[d].text)
        }),
{
    lemma_base_bound(editor);
    law_matching_lines_exact(editor, re, editor.base_lines());
    let line = editor.matching_lines(re, editor.base_lines())[k] as int;
    law_filter_finds_what_is_shown(editor, re, line);
    let j = choose|j: int|
        0 <= j < editor.rows_of(line).len() && finds_match(
            re,
            (#[trigger] editor.rows_of(line)[j]).text,
        );
    lemma_place_of_row(editor, line, j);
    assert(editor.rows_before(line + 1) == editor.rows_before(line) + editor.rows_of(line));
    let d = editor.rows_before(line).len() + j;
    assert(editor.display_rows()[d] == editor.rows_of(line)[j]);
}

/// What is known of the file, up to where its last known line ends.
pub open spec fn known_end(editor: &LargeFileEditor<'_>) -> int {
    if editor.scan_finished {
        editor.file_size as int
    } else {
        editor.line_offsets@[editor.base_lines()] as int
    }
}

proof fn lemma_saved_prefix(editor: &LargeFileEditor<'_>, n: int)
    requires
        editor.wf(),
        0 <= n <= editor.base_lines(),
        forall|i: int|
            0 <= i < editor.base_lines() ==> !#[trigger] editor.edited_lines@.contains_key(
                i as usize,
            ),
    ensures
        editor.saved_range(0, n) == editor.mmap@.take(
            if n < editor.line_offsets@.len() {
                editor.line_offsets@[n] as int
            } else {
                editor.file_size as int
            },
        ),
    decreases n,
{
    law_line_starts_exact(editor.mmap@, editor.encoding, editor.scan_progress + 1);
    if n == 0 {
        lemma_first_line(editor);
        assert(editor.saved_range(0, 0) =~= editor.mmap@.take(0));
    } else {
        lemma_saved_prefix(editor, n - 1);
        law_known_lines_have_bytes(editor, n - 1);
        assert(!editor.edited_lines@.contains_key((n - 1) as usize));
        let start = editor.line_offsets@[n - 1] as int;
        let end = if n < editor.line_offsets@.len() {
            editor.line_offsets@[n] as int
        } else {
            editor.file_size as int
        };
        assert(editor.mmap@.take(start) + editor.mmap@.subrange(start, end)
            =~= editor.mmap@.take(end));
    }
}

/// A file that was not edited is saved byte for byte; while it is still being
/// scanned, as far as its lines are known.
pub proof fn law_save_without_edits(editor: &LargeFileEditor<'_>)
    requires
        editor.wf(),
        forall|i: int|
            0 <= i < editor.base_lines() ==> !#[trigger] editor.edited_lines@.contains_key(
                i as usize,
            ),
    ensures
        editor.saved_bytes() == editor.mmap@.take(known_end(editor)),
        editor.scan_finished ==> editor.saved_bytes() == editor.mmap@,
{
    lemma_first_line(editor);
    lemma_saved_prefix(editor, editor.base_lines());
    assert(editor.mmap@.take(editor.file_size as int) =~= editor.mmap@);
}

/// A file saved by ranges is the file saved at once.
pub proof fn law_save_by_ranges(editor: &LargeFileEditor<'_>, from: int, mid: int, to: int)
    requires
        0 <= from <= mid <= to,
    ensures
        editor.saved_range(from, mid) + editor.saved_range(mid, to) == editor.saved_range(from, to),
    decreases to,
{
    if mid < to {
        law_save_by_ranges(editor, from, mid, to - 1);
        assert(editor.saved_range(from, mid) + editor.saved_range(mid, to) =~= editor.saved_range(
            from,
            to,
        ));
    } else {
        assert(editor.saved_range(from, mid) + editor.saved_range(mid, to) =~= editor.saved_range(
            from,
            to,
        ));
    }
}

/// A file written by ranges with matches replaced is the file written at once.
pub proof fn law_replace_by_ranges(
    editor: &LargeFileEditor<'_>,
    re: Regex,
    replacement: Seq<char>,
    from: int,
    mid: int,
    to: int,
)
    requires
        0 <= from <= mid <= to,
    ensures
        editor.replaced_range(re, replacement, from, mid) + editor.replaced_range(
            re,
            replacement,
            mid,
            to,
        ) == editor.replaced_range(re, replacement, from, to),
    decreases to,
{
    if mid < to {
        law_replace_by_ranges(editor, re, replacement, from, mid, to - 1);
    }
    assert(editor.replaced_range(re, replacement, from, mid) + editor.replaced_range(
        re,
        replacement,
        mid,
        to,
    ) =~= editor.replaced_range(re, replacement, from, to));
}

/// A line of the file is one piece, which ends with a line feed where another
/// one follows.
pub proof fn lemma_raw_is_piece(editor: &LargeFileEditor<'_>, i: int)
    requires
        editor.wf(),
        0 <= i < editor.base_lines(),
    ensures
        editor.raw_line(i) is Some,
        is_piece(editor.encoding, editor.raw_line(i)->0),
        i + 1 < editor.line_offsets@.len() ==> is_terminated(
            editor.encoding,
            editor.raw_line(i)->0,
        ),
{
    let bytes = editor.mmap@;
    let encoding = editor.encoding;
    let offsets = editor.line_offsets@;
    law_line_starts_exact(bytes, encoding, editor.scan_progress + 1);
    law_known_lines_have_bytes(editor, i);
    let raw = editor.raw_line(i)->0;
    let start = offsets[i] as int;
    let end = start + raw.len();
    assert(is_line_start(bytes, encoding, start));
    assert(start % encoding.unit() == 0) by {
        assert(encoding.unit() == 1 || encoding.unit() == 2);
    }
    assert forall|q: int| 0 < q < raw.len() implies !#[trigger] newline_ends_at(
        raw,
        encoding,
        q,
    ) by {
        if newline_ends_at(raw, encoding, q) {
            let p = start + q;
            assert(raw[q - 1] == bytes[p - 1]);
            if encoding.unit() == 2 {
                assert(raw[q - 2] == bytes[p - 2]);
            }
            assert(is_line_start(bytes, encoding, p));
            assert(offsets.contains(p as usize));
            let k = choose|k: int| 0 <= k < offsets.len() && offsets[k] == p as usize;
            if k <= i {
                assert(k < i ==> offsets[k] < offsets[i]);
            } else {
                assert(k > i + 1 ==> offsets[i + 1] < offsets[k]);
            }
        }
    }
    if i + 1 < offsets.len() {
        assert(is_line_start(bytes, encoding, end));
        assert(newline_ends_at(bytes, encoding, end));
        assert(raw[raw.len() - 1] == bytes[end - 1]);
        if encoding.unit() == 2 {
            assert(start % 2 == 0 && end % 2 == 0);
            assert(raw.len() == end - start && raw.len() as int % 2 == 0 && raw.len() >= 2);
            assert(raw[raw.len() - 2] == bytes[end - 2]);
        }
    }
}

proof fn lemma_terminated_has_newline(encoding: FileEncoding, raw: Seq<u8>)
    requires
        is_terminated(encoding, raw),
    ensures
        newline_suffix(raw, encoding).len() > 0,
{
    let n = raw.len() as int;
    assert(raw.subrange(n - encoding.unit(), n) =~= encoding.lf());
    assert(encoding.lf().is_suffix_of(raw));
}

/// Every line of the file that another one follows ends with a line break. So
/// where the file has a line break at all, its first line ends with one.
pub proof fn law_lines_end_with_breaks(editor: &LargeFileEditor<'_>, i: int)
    requires
        editor.wf(),
        0 <= i < editor.base_lines(),
    ensures
        i + 1 < editor.line_offsets@.len() ==> editor.line_newline(i).len() > 0,
        editor.line_newline(i).len() > 0 ==> editor.line_newline(0).len() > 0
            && editor.file_newline() == editor.line_newline(0),
{
    lemma_raw_is_piece(editor, i);
    lemma_raw_is_piece(editor, 0);
    if i + 1 < editor.line_offsets@.len() {
        lemma_terminated_has_newline(editor.encoding, editor.raw_line(i)->0);
    }
    if 1 < editor.line_offsets@.len() {
        lemma_terminated_has_newline(editor.encoding, editor.raw_line(0)->0);
    }
}

/// The lines are shown in the order of the file: a line shown further down
/// comes from the same line of the file or from a later one.
pub proof fn law_rows_in_order(editor: &LargeFileEditor<'_>, n: int)
    requires
        0 <= n,
    ensures
        forall|d: int|
            0 <= d < editor.rows_before(n).len() ==> 0 <= (#[trigger] editor.rows_before(n)[d]).orig
                < n,
        forall|d: int, e: int|
            0 <= d <= e < editor.rows_before(n).len() ==> (#[trigger] editor.rows_before(n)[d]).orig
                <= (#[trigger] editor.rows_before(n)[e]).orig,
    decreases n,
{
    if n > 0 {
        law_rows_in_order(editor, n - 1);
        let front = editor.rows_before(n - 1);
        let all = editor.rows_before(n);
        assert forall|d: int| 0 <= d < all.len() implies {
            &&& 0 <= (#[trigger] all[d]).orig < n
            &&& d < front.len() ==> all[d] == front[d]
            &&& d >= front.len() ==> all[d].orig == n - 1
        } by {
            if d >= front.len() {
                assert(all[d] == editor.rows_of(n - 1)[d - front.len()]);
            }
        }
    }
}

proof fn lemma_unedited_row(editor: &LargeFileEditor<'_>, d: int)
    requires
        editor.wf(),
        editor.edited_lines@ == Map::<usize, LineState>::empty(),
        0 <= d < editor.base_lines(),
    ensures
        editor.display_rows().len() == editor.base_lines(),
        editor.display_rows()[d] == (DisplayRow {
            orig: d,
            text: editor.line_text(d),
            edited: false,
        }),
{
    lemma_base_bound(editor);
    lemma_unedited_rows(editor, 0, editor.base_lines());
    assert(editor.rows_before(editor.base_lines())[editor.rows_before(0).len() + (d - 0)] == (
    DisplayRow { orig: d, text: editor.line_text(d), edited: false }));
}

/// The pieces that lines with these texts, shown for line `i` of the file, are
/// written as.
spec fn row_pieces(editor: &LargeFileEditor<'_>, i: int, rows: Seq<Seq<char>>) -> Seq<Seq<u8>> {
    Seq::new(rows.len(), |k: int| editor.row_bytes(i, k + 1 == rows.len(), rows[k]))
}

proof fn lemma_row_pieces_concat(
    editor: &LargeFileEditor<'_>,
    i: int,
    rows: Seq<Seq<char>>,
    n: int,
)
    requires
        0 <= n <= rows.len(),
    ensures
        concat(row_pieces(editor, i, rows).take(n)) == editor.rows_bytes(i, rows, n),
    decreases n,
{
    let pieces = row_pieces(editor, i, rows);
    if n > 0 {
        lemma_row_pieces_concat(editor, i, rows, n - 1);
        assert(pieces.take(n).drop_last() =~= pieces.take(n - 1));
        assert(pieces.take(n).last() == pieces[n - 1]);
    }
}

/// A line that is shown is written as one line, and its content is its text.
proof fn lemma_row_piece(editor: &LargeFileEditor<'_>, i: int, last: bool, text: Seq<char>)
    requires
        editor.wf(),
        0 <= i < editor.base_lines(),
        writes_as_line(editor.encoding, text),
        !last || editor.is_broken_after(i) || text.len() > 0,
    ensures
        is_piece(editor.encoding, editor.row_bytes(i, last, text)),
        !last || editor.is_broken_after(i) ==> is_terminated(
            editor.encoding,
            editor.row_bytes(i, last, text),
        ),
        trimmed(editor.row_bytes(i, last, text), editor.encoding) == bytes_of(
            editor.encoding,
            text,
        ),
{
    let encoding = editor.encoding;
    let content = bytes_of(encoding, text);
    if !last || editor.is_broken_after(i) {
        lemma_content_piece(encoding, content, editor.line_break(i));
    } else {
        assert(content + Seq::<u8>::empty() =~= content);
        assert forall|q: int| 0 < q < content.len() implies !(#[trigger] newline_ends_at(
            content,
            encoding,
            q,
        )) by {}
    }
}

/// The pieces of the first `n` lines of the file, one after the other.
spec fn flat(pieces: spec_fn(int) -> Seq<Seq<u8>>, n: int) -> Seq<Seq<u8>>
    decreases n,
{
    if n <= 0 {
        Seq::empty()
    } else {
        flat(pieces, n - 1) + pieces(n - 1)
    }
}

/// Whether `pieces` gives one line for each line that is shown for line `i` of
/// the file, with what `content` says as its content.
spec fn is_written(
    editor: &LargeFileEditor<'_>,
    pieces: spec_fn(int) -> Seq<Seq<u8>>,
    content: spec_fn(DisplayRow) -> Seq<u8>,
    i: int,
) -> bool {
    &&& pieces(i).len() == editor.rows_of(i).len()
    &&& forall|k: int|
        0 <= k < pieces(i).len() ==> {
            &&& is_piece(editor.encoding, #[trigger] pieces(i)[k])
            &&& k + 1 < pieces(i).len() || i + 1 < editor.base_lines() ==> is_terminated(
                editor.encoding,
                pieces(i)[k],
            )
            &&& trimmed(pieces(i)[k], editor.encoding) == content(editor.rows_of(i)[k])
        }
}

proof fn lemma_flat(
    editor: &LargeFileEditor<'_>,
    pieces: spec_fn(int) -> Seq<Seq<u8>>,
    content: spec_fn(DisplayRow) -> Seq<u8>,
    n: int,
)
    requires
        0 <= n <= editor.base_lines(),
        forall|i: int|
            0 <= i < editor.base_lines() ==> #[trigger] is_written(editor, pieces, content, i),
    ensures
        flat(pieces, n).len() == editor.rows_before(n).len(),
        are_pieces(editor.encoding, flat(pieces, n)),
        n < editor.base_lines() && flat(pieces, n).len() > 0 ==> is_terminated(
            editor.encoding,
            flat(pieces, n).last(),
        ),
        forall|d: int|
            0 <= d < flat(pieces, n).len() ==> trimmed(
                #[trigger] flat(pieces, n)[d],
                editor.encoding,
            ) == content(editor.rows_before(n)[d]),
    decreases n,
{
    if n > 0 {
        let i = n - 1;
        lemma_flat(editor, pieces, content, i);
        assert(is_written(editor, pieces, content, i));
        let front = flat(pieces, i);
        let here = pieces(i);
        let all = flat(pieces, n);
        assert forall|d: int| 0 <= d < all.len() implies {
            &&& is_piece(editor.encoding, #[trigger] all[d])
            &&& d + 1 < all.len() || n < editor.base_lines() ==> is_terminated(
                editor.encoding,
                all[d],
            )
            &&& trimmed(all[d], editor.encoding) == content(editor.rows_before(n)[d])
        } by {
            if d < front.len() {
                assert(all[d] == front[d]);
                if d == front.len() - 1 {
                    assert(front.last() == front[d]);
                }
            } else {
                assert(all[d] == here[d - front.len()]);
                assert(editor.rows_before(n)[d] == editor.rows_of(i)[d - front.len()]);
            }
        }
    }
}

/// A file that was put together from pieces, one for each line that is shown,
/// opened again and scanned, shows their contents.
proof fn lemma_reload(
    editor: &LargeFileEditor<'_>,
    pieces: spec_fn(int) -> Seq<Seq<u8>>,
    content: spec_fn(DisplayRow) -> Seq<u8>,
    reloaded: &LargeFileEditor<'_>,
)
    requires
        editor.wf(),
        forall|i: int|
            0 <= i < editor.base_lines() ==> #[trigger] is_written(editor, pieces, content, i),
        reloaded.wf(),
        reloaded.scan_finished,
        reloaded.encoding == editor.encoding,
        reloaded.mmap@ == concat(flat(pieces, editor.base_lines())),
        reloaded.edited_lines@ == Map::<usize, LineState>::empty(),
    ensures
        reloaded.display_rows().len() == editor.display_rows().len(),
        forall|d: int|
            0 <= d < editor.display_rows().len() ==> #[trigger] reloaded.display_rows()[d] == (
            DisplayRow {
                orig: d,
                text: text_of(editor.encoding, content(editor.display_rows()[d])),
                edited: false,
            }),
{
    let base = editor.base_lines();
    let all = flat(pieces, base);
    lemma_flat(editor, pieces, content, base);
    law_pieces_are_lines(reloaded, all);
    assert forall|d: int|
        0 <= d < editor.display_rows().len() implies #[trigger] reloaded.display_rows()[d] == (
    DisplayRow {
        orig: d,
        text: text_of(editor.encoding, content(editor.display_rows()[d])),
        edited: false,
    }) by {
        lemma_unedited_row(reloaded, d);
        assert(reloaded.raw_line(d) == Some(all[d]));
    }
    lemma_base_bound(reloaded);
    lemma_unedited_rows(reloaded, 0, reloaded.base_lines());
}

spec fn saved_pieces(editor: &LargeFileEditor<'_>, i: int) -> Seq<Seq<u8>> {
    if editor.edited_lines@.contains_key(i as usize) {
        match editor.edited_lines@[i as usize] {
            LineState::Modified(lines) => row_pieces(editor, i, texts(lines@)),
            LineState::Deleted => Seq::empty(),
        }
    } else {
        seq![editor.raw_line(i)->0]
    }
}

proof fn lemma_saved_is_concat(editor: &LargeFileEditor<'_>, n: int)
    requires
        editor.wf(),
        0 <= n <= editor.base_lines(),
    ensures
        concat(flat(|i: int| saved_pieces(editor, i), n)) == editor.saved_range(0, n),
    decreases n,
{
    let pieces = |i: int| saved_pieces(editor, i);
    if n > 0 {
        let i = n - 1;
        lemma_saved_is_concat(editor, i);
        lemma_concat_append(flat(pieces, i), pieces(i));
        if editor.edited_lines@.contains_key(i as usize) {
            match editor.edited_lines@[i as usize] {
                LineState::Modified(lines) => {
                    let all = row_pieces(editor, i, texts(lines@));
                    lemma_row_pieces_concat(editor, i, texts(lines@), lines@.len() as int);
                    assert(all.take(lines@.len() as int) =~= all);
                },
                LineState::Deleted => {},
            }
        } else {
            law_known_lines_have_bytes(editor, i);
            let raw = editor.raw_line(i)->0;
            assert(seq![raw].drop_last() =~= Seq::empty());
            assert(concat(seq![raw].drop_last()) =~= Seq::empty());
            assert(concat(seq![raw]) =~= raw);
        }
    }
}

/// Whether the last line of the file has no line break and was replaced by
/// lines of which the last one is empty. Nothing is written for that one, so it
/// is not found again.
pub open spec fn last_line_vanishes(editor: &LargeFileEditor<'_>) -> bool {
    let last = editor.base_lines() - 1;
    &&& 0 <= last
    &&& editor.line_newline(last).len() == 0
    &&& editor.edited_lines@.contains_key(last as usize)
    &&& editor.edited_lines@[last as usize] matches LineState::Modified(lines)
        && lines@.len() > 0 && lines@.last()@.len() == 0
}

/// The bytes in which the text of a saved line is found again.
spec fn saved_content(editor: &LargeFileEditor<'_>, row: DisplayRow) -> Seq<u8> {
    if row.edited {
        bytes_of(editor.encoding, row.text)
    } else {
        trimmed(editor.raw_line(row.orig)->0, editor.encoding)
    }
}

proof fn lemma_saved_is_written(editor: &LargeFileEditor<'_>, i: int)
    requires
        editor.wf(),
        0 <= i < editor.base_lines(),
        editor.encoding == FileEncoding::ShiftJis ==> editor.edit_writes_as_lines(i),
        !last_line_vanishes(editor),
    ensures
        is_written(
            editor,
            |i: int| saved_pieces(editor, i),
            |row: DisplayRow| saved_content(editor, row),
            i,
        ),
{
    lemma_raw_is_piece(editor, i);
    let here = saved_pieces(editor, i);
    if editor.edited_lines@.contains_key(i as usize) {
        match editor.edited_lines@[i as usize] {
            LineState::Modified(lines) => {
                let all = texts(lines@);
                assert(editor.edited_lines@[i as usize].wf());
                assert forall|k: int| 0 <= k < here.len() implies {
                    &&& is_piece(editor.encoding, #[trigger] here[k])
                    &&& k + 1 < here.len() || i + 1 < editor.base_lines() ==> is_terminated(
                        editor.encoding,
                        here[k],
                    )
                    &&& trimmed(here[k], editor.encoding) == saved_content(
                        editor,
                        editor.rows_of(i)[k],
                    )
                } by {
                    assert(is_line_text(lines@[k]@));
                    if editor.encoding != FileEncoding::ShiftJis {
                        law_writes_lines(editor.encoding, lines@[k]@);
                    }
                    assert(writes_as_line(editor.encoding, lines@[k]@));
                    assert(all[k] == lines@[k]@);
                    if k + 1 == here.len() {
                        assert(lines@[k] == lines@.last());
                    }
                    lemma_row_piece(editor, i, k + 1 == here.len(), all[k]);
                }
            },
            LineState::Deleted => {},
        }
    }
}

/// The text that is read back where `row` was shown and saved.
pub open spec fn read_back(encoding: FileEncoding, row: DisplayRow) -> Seq<char> {
    if row.edited {
        text_of(encoding, bytes_of(encoding, row.text))
    } else {
        row.text
    }
}

proof fn lemma_row_text(editor: &LargeFileEditor<'_>, n: int, d: int)
    requires
        0 <= n,
        0 <= d < editor.rows_before(n).len(),
    ensures
        text_of(editor.encoding, saved_content(editor, editor.rows_before(n)[d])) == read_back(
            editor.encoding,
            editor.rows_before(n)[d],
        ),
    decreases n,
{
    let i = n - 1;
    if d < editor.rows_before(i).len() {
        lemma_row_text(editor, i, d);
    } else {
        let row = editor.rows_of(i)[d - editor.rows_before(i).len()];
        assert(editor.rows_before(n)[d] == row);
    }
}

/// A saved file, opened again and scanned, shows line for line what was shown
/// when it was saved. A line that was not edited has the same text; an edited
/// one has the text that its bytes are read as. In Shift_JIS the replaced lines
/// must be written as lines, which `save` ensures.
pub proof fn law_save_and_reload(editor: &LargeFileEditor<'_>, reloaded: &LargeFileEditor<'_>)
    requires
        editor.wf(),
        editor.encoding == FileEncoding::ShiftJis ==> forall|i: int|
            0 <= i < editor.base_lines() ==> #[trigger] editor.edit_writes_as_lines(i),
        !last_line_vanishes(editor),
        reloaded.wf(),
        reloaded.scan_finished,
        reloaded.encoding == editor.encoding,
        reloaded.mmap@ == editor.saved_bytes(),
        reloaded.edited_lines@ == Map::<usize, LineState>::empty(),
    ensures
        reloaded.display_rows().len() == editor.display_rows().len(),
        forall|d: int|
            0 <= d < editor.display_rows().len() ==> #[trigger] reloaded.display_rows()[d] == (
            DisplayRow {
                orig: d,
                text: read_back(editor.encoding, editor.display_rows()[d]),
                edited: false,
            }),
{
    let base = editor.base_lines();
    let pieces = |i: int| saved_pieces(editor, i);
    let content = |row: DisplayRow| saved_content(editor, row);
    lemma_saved_is_concat(editor, base);
    assert forall|i: int| 0 <= i < base implies #[trigger] is_written(editor, pieces, content, i) by {
        if editor.encoding == FileEncoding::ShiftJis {
            assert(editor.edit_writes_as_lines(i));
        }
        lemma_saved_is_written(editor, i);
    }
    lemma_reload(editor, pieces, content, reloaded);
    assert forall|d: int|
        0 <= d < editor.display_rows().len() implies #[trigger] reloaded.display_rows()[d] == (
    DisplayRow {
        orig: d,
        text: read_back(editor.encoding, editor.display_rows()[d]),
        edited: false,
    }) by {
        lemma_row_text(editor, base, d);
    }
}

/// A saved file, opened again and scanned, shows the same lines with the same
/// texts. Left out are edited lines that are not known to be read as they were
/// written: in UTF-8 and UTF-16 those whose bytes start like a byte order mark,
/// in Shift_JIS those beyond ASCII. Left out too is an empty last line without a
/// line break, for which nothing is written.
pub proof fn law_saved_texts_come_back(editor: &LargeFileEditor<'_>, reloaded: &LargeFileEditor<'_>)
    requires
        editor.wf(),
        forall|d: int|
            0 <= d < editor.display_rows().len() && (#[trigger] editor.display_rows()[d]).edited
                ==> reads_back(editor.encoding, editor.display_rows()[d].text),
        !last_line_vanishes(editor),
        reloaded.wf(),
        reloaded.scan_finished,
        reloaded.encoding == editor.encoding,
        reloaded.mmap@ == editor.saved_bytes(),
        reloaded.edited_lines@ == Map::<usize, LineState>::empty(),
    ensures
        reloaded.display_rows().len() == editor.display_rows().len(),
        forall|d: int|
            0 <= d < editor.display_rows().len() ==> (#[trigger] reloaded.display_rows()[d]).text
                == editor.display_rows()[d].text,
{
    if editor.encoding == FileEncoding::ShiftJis {
        assert forall|i: int|
            0 <= i < editor.base_lines() implies #[trigger] editor.edit_writes_as_lines(i) by {
            if editor.edited_lines@.contains_key(i as usize) {
                assert(editor.edited_lines@[i as usize].wf());
                if let LineState::Modified(lines) = editor.edited_lines@[i as usize] {
                    assert forall|j: int| 0 <= j < lines@.len() implies writes_as_line(
                        editor.encoding,
                        (#[trigger] lines@[j])@,
                    ) by {
                        lemma_place_of_row(editor, i, j);
                        assert(editor.display_rows()[editor.rows_before(i).len() + j].edited);
                        assert(is_line_text(lines@[j]@));
                        law_writes_lines(editor.encoding, lines@[j]@);
                    }
                }
            }
        }
    }
    law_save_and_reload(editor, reloaded);
    assert forall|d: int| 0 <= d < editor.display_rows().len() implies (
    #[trigger] reloaded.display_rows()[d]).text == editor.display_rows()[d].text by {
        if editor.display_rows()[d].edited {
            law_reads_back(editor.encoding, editor.display_rows()[d].text);
        }
    }
}

spec fn replaced_pieces(
    editor: &LargeFileEditor<'_>,
    re: Regex,
    replacement: Seq<char>,
    i: int,
) -> Seq<Seq<u8>> {
    row_pieces(editor, i, editor.replaced_rows(re, replacement, i))
}

proof fn lemma_replaced_is_concat(
    editor: &LargeFileEditor<'_>,
    re: Regex,
    replacement: Seq<char>,
    n: int,
)
    requires
        0 <= n,
    ensures
        concat(flat(|i: int| replaced_pieces(editor, re, replacement, i), n))
            == editor.replaced_range(re, replacement, 0, n),
    decreases n,
{
    let pieces = |i: int| replaced_pieces(editor, re, replacement, i);
    if n > 0 {
        let i = n - 1;
        lemma_replaced_is_concat(editor, re, replacement, i);
        lemma_concat_append(flat(pieces, i), pieces(i));
        let rows = editor.replaced_rows(re, replacement, i);
        lemma_row_pieces_concat(editor, i, rows, rows.len() as int);
        assert(pieces(i).take(rows.len() as int) =~= pieces(i));
    }
}

/// Whether nothing is written for the last line shown once every match is
/// replaced: it is empty then, and no line break follows.
pub open spec fn last_replaced_vanishes(
    editor: &LargeFileEditor<'_>,
    re: Regex,
    replacement: Seq<char>,
) -> bool {
    let last = editor.base_lines() - 1;
    let rows = editor.replaced_rows(re, replacement, last);
    0 <= last && editor.line_newline(last).len() == 0 && rows.len() > 0 && rows.last().len() == 0
}

/// The lines shown for line `i` of the file are shown one after the other, from
/// where those for the lines before it end.
proof fn lemma_place_of_row(editor: &LargeFileEditor<'_>, i: int, k: int)
    requires
        0 <= i < editor.base_lines(),
        0 <= k < editor.rows_of(i).len(),
    ensures
        editor.rows_before(i).len() + k < editor.display_rows().len(),
        editor.display_rows()[editor.rows_before(i).len() + k] == editor.rows_of(i)[k],
{
    lemma_rows_grow(editor, i + 1, editor.base_lines());
    assert(editor.rows_before(i + 1) == editor.rows_before(i) + editor.rows_of(i));
    assert(editor.rows_before(i + 1)[editor.rows_before(i).len() + k] == editor.rows_of(i)[k]);
}

/// A file written with every match replaced, opened again and scanned, shows
/// line for line what the lines that were shown became: the text that the bytes
/// of the replaced text are read as. Left out are replacements that bring in a
/// line break, and one that empties a last line without a line break. In
/// Shift_JIS the lines must be written as lines, which `batch_replace` ensures.
pub proof fn law_replace_and_reload(
    editor: &LargeFileEditor<'_>,
    re: Regex,
    replacement: Seq<char>,
    reloaded: &LargeFileEditor<'_>,
)
    requires
        editor.wf(),
        editor.encoding == FileEncoding::ShiftJis ==> forall|i: int|
            0 <= i < editor.base_lines() ==> #[trigger] editor.replaced_writes_as_lines(
                re,
                replacement,
                i,
            ),
        forall|d: int|
            0 <= d < editor.display_rows().len() ==> is_line_text(
                replaced(re, (#[trigger] editor.display_rows()[d]).text, replacement),
            ),
        !last_replaced_vanishes(editor, re, replacement),
        reloaded.wf(),
        reloaded.scan_finished,
        reloaded.encoding == editor.encoding,
        reloaded.mmap@ == editor.replaced_bytes(re, replacement),
        reloaded.edited_lines@ == Map::<usize, LineState>::empty(),
    ensures
        reloaded.display_rows().len() == editor.display_rows().len(),
        forall|d: int|
            0 <= d < editor.display_rows().len() ==> #[trigger] reloaded.display_rows()[d] == (
            DisplayRow {
                orig: d,
                text: text_of(
                    editor.encoding,
                    bytes_of(
                        editor.encoding,
                        replaced(re, editor.display_rows()[d].text, replacement),
                    ),
                ),
                edited: false,
            }),
{
    let encoding = editor.encoding;
    let base = editor.base_lines();
    let pieces = |i: int| replaced_pieces(editor, re, replacement, i);
    let content = |row: DisplayRow| bytes_of(encoding, replaced(re, row.text, replacement));
    lemma_replaced_is_concat(editor, re, replacement, base);
    assert forall|i: int| 0 <= i < base implies #[trigger] is_written(editor, pieces, content, i) by {
        let rows = editor.replaced_rows(re, replacement, i);
        assert forall|k: int| 0 <= k < pieces(i).len() implies {
            &&& is_piece(encoding, #[trigger] pieces(i)[k])
            &&& k + 1 < pieces(i).len() || i + 1 < base ==> is_terminated(encoding, pieces(i)[k])
            &&& trimmed(pieces(i)[k], encoding) == content(editor.rows_of(i)[k])
        } by {
            lemma_place_of_row(editor, i, k);
            assert(editor.display_rows()[editor.rows_before(i).len() + k].text
                == editor.rows_of(i)[k].text);
            assert(is_line_text(rows[k]));
            if encoding == FileEncoding::ShiftJis {
                assert(editor.replaced_writes_as_lines(re, replacement, i));
            } else {
                law_writes_lines(encoding, rows[k]);
            }
            if k + 1 == rows.len() {
                assert(rows[k] == rows.last());
            }
            lemma_row_piece(editor, i, k + 1 == rows.len(), rows[k]);
        }
    }
    lemma_reload(editor, pieces, content, reloaded);
}

/// A file written with every match replaced, opened again and scanned, shows
/// each line that was shown with every match replaced. Left out are
/// replacements that bring in a line break or that are not known to be read as
/// they were written, and one that empties a last line without a line break.
pub proof fn law_replaced_texts_come_back(
    editor: &LargeFileEditor<'_>,
    re: Regex,
    replacement: Seq<char>,
    reloaded: &LargeFileEditor<'_>,
)
    requires
        editor.wf(),
        forall|d: int|
            0 <= d < editor.display_rows().len() ==> {
                let text = replaced(re, (#[trigger] editor.display_rows()[d]).text, replacement);
                is_line_text(text) && reads_back(editor.encoding, text)
            },
        !last_replaced_vanishes(editor, re, replacement),
        reloaded.wf(),
        reloaded.scan_finished,
        reloaded.encoding == editor.encoding,
        reloaded.mmap@ == editor.replaced_bytes(re, replacement),
        reloaded.edited_lines@ == Map::<usize, LineState>::empty(),
    ensures
        reloaded.display_rows().len() == editor.display_rows().len(),
        forall|d: int|
            0 <= d < editor.display_rows().len() ==> (#[trigger] reloaded.display_rows()[d]).text
                == replaced(re, editor.display_rows()[d].text, replacement),
{
    if editor.encoding == FileEncoding::ShiftJis {
        assert forall|i: int|
            0 <= i < editor.base_lines() implies #[trigger] editor.replaced_writes_as_lines(
            re,
            replacement,
            i,
        ) by {
            let rows = editor.replaced_rows(re, replacement, i);
            assert forall|k: int|
                0 <= k < editor.rows_of(i).len() && is_line_text(
                    #[trigger] editor.replaced_rows(re, replacement, i)[k],
                ) implies writes_as_line(editor.encoding, rows[k]) by {
                lemma_place_of_row(editor, i, k);
                assert(editor.display_rows()[editor.rows_before(i).len() + k].text
                    == editor.rows_of(i)[k].text);
                assert(is_ascii_text(rows[k]));
                law_writes_lines(editor.encoding, rows[k]);
            }
        }
    }
    law_replace_and_reload(editor, re, replacement, reloaded);
    assert forall|d: int| 0 <= d < editor.display_rows().len() implies (
    #[trigger] reloaded.display_rows()[d]).text == replaced(
        re,
        editor.display_rows()[d].text,
        replacement,
    ) by {
        law_reads_back(
            editor.encoding,
            replaced(re, editor.display_rows()[d].text, replacement),
        );
    }
}

} // verus!
