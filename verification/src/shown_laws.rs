//! What the lines of a file are, and how they are shown, in terms of its bytes
//! and of the edits.

use crate::codec::text_of;
use crate::display::law_known_lines_have_bytes;
use crate::editor::{
    after_delete, after_edit, lemma_first_line, DisplayRow, Edit, LargeFileEditor,
};
use crate::encoding::{
    ends_with_break, law_newline_ends_at, law_trimmed_of_break, newline_ends_at,
};
use crate::filter::{started, FilterRun, FilterView, FilterWork};
use crate::laws::{law_filter_finds_what_is_shown, lemma_raw_is_piece};
use crate::pattern::{compiled, error_message, finds_match};
use crate::scan::{is_line_start, law_line_starts_exact};
use crate::text::content_lines;
use regex::Regex;
use vstd::prelude::*;

verus! {

/// The lines of the file in a row.
spec fn lines_in_a_row(editor: &LargeFileEditor<'_>, n: int) -> Seq<u8> {
    Seq::new(n as nat, |i: int| editor.raw_line(i)->0).flatten()
}

proof fn lemma_lines_in_a_row(editor: &LargeFileEditor<'_>, n: int)
    requires
        editor.wf(),
        0 <= n <= editor.base_lines(),
    ensures
        lines_in_a_row(editor, n) == editor.mmap@.take(
            if n < editor.line_offsets@.len() {
                editor.line_offsets@[n] as int
            } else {
                editor.file_size as int
            },
        ),
    decreases n,
{
    law_line_starts_exact(editor.mmap@, editor.encoding, editor.scan_progress + 1);
    lemma_first_line(editor);
    if n == 0 {
        assert(lines_in_a_row(editor, 0) =~= editor.mmap@.take(0));
    } else {
        lemma_lines_in_a_row(editor, n - 1);
        law_known_lines_have_bytes(editor, n - 1);
        let front = Seq::new((n - 1) as nat, |i: int| editor.raw_line(i)->0);
        let all = Seq::new(n as nat, |i: int| editor.raw_line(i)->0);
        assert(all =~= front.push(editor.raw_line(n - 1)->0));
        front.lemma_flatten_push(editor.raw_line(n - 1)->0);
        let start = editor.line_offsets@[n - 1] as int;
        let end = if n < editor.line_offsets@.len() {
            editor.line_offsets@[n] as int
        } else {
            editor.file_size as int
        };
        assert(editor.mmap@.take(start) + editor.mmap@.subrange(start, end)
            =~= editor.mmap@.take(end));
    }
}

/// The lines of a file that is scanned to its end are, in a row, the file. While
/// it is still being scanned they are its first bytes, and no line feed ends
/// between where they end and where the scan has come.
pub proof fn law_file_is_its_lines(editor: &LargeFileEditor<'_>)
    requires
        editor.wf(),
    ensures
        ({
            let lines = Seq::new(editor.base_lines() as nat, |i: int| editor.raw_line(i)->0);
            let n = lines.flatten().len() as int;
            &&& editor.scan_finished ==> lines.flatten() == editor.mmap@
            &&& lines.flatten().is_prefix_of(editor.mmap@)
            &&& forall|p: int|
                n < p <= editor.scan_progress && p < editor.mmap@.len() ==> !#[trigger]
                    newline_ends_at(editor.mmap@, editor.encoding, p)
        }),
{
    let base = editor.base_lines();
    let bytes = editor.mmap@;
    lemma_first_line(editor);
    lemma_lines_in_a_row(editor, base);
    law_line_starts_exact(bytes, editor.encoding, editor.scan_progress + 1);
    assert(bytes.take(editor.file_size as int) =~= bytes);
    let lines = Seq::new(base as nat, |i: int| editor.raw_line(i)->0);
    let n = lines.flatten().len() as int;
    assert(lines.flatten() =~= bytes.take(n));
    if !editor.scan_finished {
        let offsets = editor.line_offsets@;
        assert(offsets[base] == n);
        assert forall|p: int|
            n < p <= editor.scan_progress && p < bytes.len() implies !#[trigger] newline_ends_at(
            bytes,
            editor.encoding,
            p,
        ) by {
            if newline_ends_at(bytes, editor.encoding, p) {
                assert(is_line_start(bytes, editor.encoding, p));
                assert(offsets.contains(p as usize));
                let k = choose|k: int| 0 <= k < offsets.len() && offsets[k] == p as usize;
                if k < base {
                    assert(offsets[k] < offsets[base]);
                }
            }
        }
    }
}

/// A line of the file has bytes, and no line feed ends before its end. Where
/// another line follows it, it ends with a line feed.
pub proof fn law_each_line_is_one_line(editor: &LargeFileEditor<'_>, i: int, p: int)
    requires
        editor.wf(),
        0 <= i < editor.base_lines(),
    ensures
        editor.raw_line(i) is Some,
        ({
            let raw = editor.raw_line(i)->0;
            let lf = editor.encoding.lf();
            &&& raw.len() > 0
            &&& 0 < p < raw.len() && p % (lf.len() as int) == 0 ==> !lf.is_suffix_of(raw.take(p))
            &&& i + 1 < editor.base_lines() ==> lf.is_suffix_of(raw) && raw.len() as int % (
            lf.len() as int) == 0
        }),
{
    let raw = editor.raw_line(i)->0;
    let encoding = editor.encoding;
    lemma_raw_is_piece(editor, i);
    if 0 < p < raw.len() {
        law_newline_ends_at(raw, encoding, p);
        assert(!newline_ends_at(raw, encoding, p));
    }
    if i + 1 < editor.base_lines() {
        law_newline_ends_at(raw, encoding, raw.len() as int);
        assert(raw.take(raw.len() as int) =~= raw);
    }
}

/// A line of the file is shown as the text of its content: of all its bytes but
/// the line break at the end, be it LF or CR LF.
pub proof fn law_line_text(editor: &LargeFileEditor<'_>, i: int, content: Seq<u8>)
    requires
        !ends_with_break(content, editor.encoding),
    ensures
        editor.raw_line(i) == Some(content) ==> editor.line_text(i) == text_of(
            editor.encoding,
            content,
        ),
        editor.raw_line(i) == Some(content + editor.encoding.ascii_unit(0x0A)) ==> editor.line_text(
            i,
        ) == text_of(editor.encoding, content),
        editor.raw_line(i) == Some(
            content + editor.encoding.ascii_unit(0x0D) + editor.encoding.ascii_unit(0x0A),
        ) ==> editor.line_text(i) == text_of(editor.encoding, content),
{
    law_trimmed_of_break(content, editor.encoding);
    law_trimmed_of_break(content + editor.encoding.ascii_unit(0x0D), editor.encoding);
}

/// What is shown for one line of the file: itself where it was not edited, the
/// lines that replace it, in their order, where it was, and nothing where it was
/// removed.
pub proof fn law_shown_for_a_line(editor: &LargeFileEditor<'_>, i: usize, k: int)
    ensures
        !editor.edits().contains_key(i) ==> editor.rows_of(i as int).len() == 1 && editor.rows_of(
            i as int,
        )[0] == (DisplayRow { orig: i as int, text: editor.line_text(i as int), edited: false }),
        editor.edits().contains_key(i) ==> match editor.edits()[i] {
            Edit::Replaced(lines) => {
                &&& editor.rows_of(i as int).len() == lines.len()
                &&& 0 <= k < lines.len() ==> editor.rows_of(i as int)[k] == (DisplayRow {
                    orig: i as int,
                    text: lines[k],
                    edited: true,
                })
            },
            Edit::Removed => editor.rows_of(i as int).len() == 0,
        },
{
}

proof fn lemma_rows_are_flat(editor: &LargeFileEditor<'_>, n: int)
    requires
        0 <= n,
    ensures
        editor.rows_before(n) == Seq::new(n as nat, |i: int| editor.rows_of(i)).flatten(),
    decreases n,
{
    let all = Seq::new(n as nat, |i: int| editor.rows_of(i));
    if n == 0 {
        assert(editor.rows_before(n) =~= all.flatten());
    } else {
        lemma_rows_are_flat(editor, n - 1);
        let front = Seq::new((n - 1) as nat, |i: int| editor.rows_of(i));
        assert(all =~= front.push(editor.rows_of(n - 1)));
        front.lemma_flatten_push(editor.rows_of(n - 1));
    }
}

/// The lines shown are those shown for each line of the file, in a row. Those
/// for the first lines come first, so their number is the place at which the
/// next one is shown.
pub proof fn law_shown_line_by_line(editor: &LargeFileEditor<'_>, n: int)
    requires
        0 <= n <= editor.base_lines(),
    ensures
        editor.display_rows() == Seq::new(
            editor.base_lines() as nat,
            |i: int| editor.rows_of(i),
        ).flatten(),
        editor.rows_before(n) == Seq::new(n as nat, |i: int| editor.rows_of(i)).flatten(),
{
    lemma_rows_are_flat(editor, n);
    lemma_rows_are_flat(editor, editor.base_lines());
}

/// An edit is found again under its line, as the lines of its content; a removed
/// line as removed. Every other line stays as it was.
pub proof fn law_edits_are_kept(
    edits: Map<usize, Edit>,
    idx: usize,
    content: Seq<char>,
    other: usize,
)
    requires
        other != idx,
    ensures
        after_edit(edits, idx, content).contains_key(idx),
        after_edit(edits, idx, content)[idx] == Edit::Replaced(content_lines(content)),
        after_delete(edits, idx).contains_key(idx),
        after_delete(edits, idx)[idx] == Edit::Removed,
        after_edit(edits, idx, content).contains_key(other) == edits.contains_key(other),
        after_delete(edits, idx).contains_key(other) == edits.contains_key(other),
        edits.contains_key(other) ==> after_edit(edits, idx, content)[other] == edits[other]
            && after_delete(edits, idx)[other] == edits[other],
{
}

/// How a filter starts: without results. Without a pattern it is done, with one
/// that is no regular expression it is done with the error, and else it looks at
/// the first line next.
pub proof fn law_filter_starts(number: u64, pattern: Seq<char>)
    ensures
        ({
            let run = started(number, pattern);
            &&& run.number == number
            &&& run.seen.results.len() == 0
            &&& run.seen.progress == 0
            &&& pattern.len() == 0 ==> run.seen.finished && run.seen.error is None
                && run.work is None
            &&& pattern.len() > 0 ==> match compiled(pattern) {
                Ok(re) => !run.seen.finished && run.seen.error is None && run.work == Some(
                    FilterWork { re, line: 0 },
                ),
                Err(error) => run.seen.finished && run.seen.error == Some(error_message(error))
                    && run.work is None,
            }
        }),
{
}

/// One step of a filter. Where the end of the next line is known, that line is
/// looked at: it joins the results just where one of the lines shown for it has
/// a match, and the progress is told after each thousandth line. Where its end
/// is not known yet, nothing changes. Cancelled, or at the end of the file, the
/// filter is done, and its results stay.
pub proof fn law_filter_step(editor: &LargeFileEditor<'_>, run: FilterRun, re: Regex, line: int)
    requires
        editor.wf(),
        run.work == Some(FilterWork { re, line }),
        0 <= line,
    ensures
        editor.stepped(run, true) == (FilterRun {
            seen: FilterView {
                results: run.seen.results,
                progress: line,
                finished: true,
                error: run.seen.error,
            },
            work: run.work,
            number: run.number,
        }),
        line >= editor.base_lines() && editor.scan_finished ==> editor.stepped(run, false)
            == editor.stepped(run, true),
        line >= editor.base_lines() && !editor.scan_finished ==> editor.stepped(run, false) == run,
        line < editor.base_lines() ==> {
            let next = editor.stepped(run, false);
            let found = exists|k: int|
                0 <= k < editor.rows_of(line).len() && finds_match(
                    re,
                    (#[trigger] editor.rows_of(line)[k]).text,
                );
            &&& next.work == Some(FilterWork { re, line: line + 1 })
            &&& next.number == run.number
            &&& next.seen.finished == run.seen.finished
            &&& next.seen.error == run.seen.error
            &&& found ==> next.seen.results == run.seen.results.push(line as usize)
            &&& !found ==> next.seen.results == run.seen.results
            &&& (line + 1) % 1000 == 0 ==> next.seen.progress == line + 1
            &&& (line + 1) % 1000 != 0 ==> next.seen.progress == run.seen.progress
        },
{
    if line < editor.base_lines() {
        law_filter_finds_what_is_shown(editor, re, line);
    }
}

} // verus!
