//! What is written for the lines of a file, byte for byte.

use crate::codec::bytes_of;
use crate::display::law_known_lines_have_bytes;
use crate::editor::{LargeFileEditor, LineState};
use crate::encoding::{law_newline_suffix, newline_suffix, FileEncoding};
use crate::laws::{law_lines_end_with_breaks, lemma_base_bound};
use crate::pattern::replaced;
use crate::text::texts;
use crate::utf8_lines::lemma_carriage_return_byte;
use regex::Regex;
use vstd::prelude::*;

verus! {

/// Line breaks are kept. Where a line of the file ends with a line break, each
/// line written for it ends with just these bytes. Only the last line of the
/// file can have none: then nothing follows the last line written for it, and
/// those before it end with the break of the first line of the file, or with CR
/// LF where that has none.
pub proof fn law_line_breaks_are_kept(
    editor: &LargeFileEditor<'_>,
    i: int,
    last: bool,
    text: Seq<char>,
)
    requires
        editor.wf(),
        0 <= i < editor.base_lines(),
    ensures
        ({
            let encoding = editor.encoding;
            let own = newline_suffix(editor.raw_line(i)->0, encoding);
            let first = newline_suffix(editor.raw_line(0)->0, encoding);
            let written = editor.row_bytes(i, last, text);
            &&& own.len() > 0 ==> written == bytes_of(encoding, text) + own
            &&& own.len() == 0 ==> i + 1 == editor.base_lines()
            &&& own.len() == 0 && last ==> written == bytes_of(encoding, text)
            &&& own.len() == 0 && !last && first.len() > 0 ==> written == bytes_of(encoding, text)
                + first
            &&& own.len() == 0 && !last && first.len() == 0 ==> written == bytes_of(encoding, text)
                + (encoding.ascii_unit(0x0D) + encoding.ascii_unit(0x0A))
        }),
{
    law_known_lines_have_bytes(editor, i);
    law_known_lines_have_bytes(editor, 0);
    law_lines_end_with_breaks(editor, i);
    let content = bytes_of(editor.encoding, text);
    assert(content + Seq::<u8>::empty() =~= content);
}

proof fn lemma_rows_are_flat(
    editor: &LargeFileEditor<'_>,
    i: int,
    rows: Seq<Seq<char>>,
    n: int,
)
    requires
        0 <= n <= rows.len(),
    ensures
        editor.rows_bytes(i, rows, n) == Seq::new(
            n as nat,
            |k: int| editor.row_bytes(i, k + 1 == rows.len(), rows[k]),
        ).flatten(),
    decreases n,
{
    let all = Seq::new(n as nat, |k: int| editor.row_bytes(i, k + 1 == rows.len(), rows[k]));
    if n == 0 {
        assert(editor.rows_bytes(i, rows, n) =~= all.flatten());
    } else {
        lemma_rows_are_flat(editor, i, rows, n - 1);
        let front = Seq::new(
            (n - 1) as nat,
            |k: int| editor.row_bytes(i, k + 1 == rows.len(), rows[k]),
        );
        assert(all =~= front.push(editor.row_bytes(i, n == rows.len(), rows[n - 1])));
        front.lemma_flatten_push(editor.row_bytes(i, n == rows.len(), rows[n - 1]));
    }
}

/// What is saved for one line of the file: its own bytes where it was not
/// edited, nothing where it was removed, and else the lines that replace it, in
/// a row, each with its text and its line break.
pub proof fn law_saved_for_a_line(editor: &LargeFileEditor<'_>, i: usize)
    requires
        editor.wf(),
        i < editor.base_lines(),
    ensures
        !editor.edited_lines@.contains_key(i) ==> Some(editor.saved_line(i as int))
            == editor.raw_line(i as int),
        editor.edited_lines@.contains_key(i) ==> match editor.edited_lines@[i] {
            LineState::Modified(lines) => editor.saved_line(i as int) == Seq::new(
                lines@.len(),
                |k: int| editor.row_bytes(i as int, k + 1 == lines@.len(), lines@[k]@),
            ).flatten(),
            LineState::Deleted => editor.saved_line(i as int).len() == 0,
        },
{
    law_known_lines_have_bytes(editor, i as int);
    if editor.edited_lines@.contains_key(i) {
        if let LineState::Modified(lines) = editor.edited_lines@[i] {
            let rows = texts(lines@);
            lemma_rows_are_flat(editor, i as int, rows, rows.len() as int);
            assert(Seq::new(
                lines@.len(),
                |k: int| editor.row_bytes(i as int, k + 1 == lines@.len(), lines@[k]@),
            ) =~= Seq::new(
                rows.len(),
                |k: int| editor.row_bytes(i as int, k + 1 == rows.len(), rows[k]),
            ));
        }
    }
}

/// What is saved for lines of the file is what is saved for each, in a row; the
/// saved file is that for all of them.
pub proof fn law_saved_line_by_line(editor: &LargeFileEditor<'_>, from: int, to: int)
    requires
        0 <= from <= to,
    ensures
        editor.saved_range(from, to) == Seq::new(
            (to - from) as nat,
            |j: int| editor.saved_line(from + j),
        ).flatten(),
        editor.saved_bytes() == editor.saved_range(0, editor.base_lines()),
    decreases to,
{
    let all = Seq::new((to - from) as nat, |j: int| editor.saved_line(from + j));
    if from == to {
        assert(editor.saved_range(from, to) =~= all.flatten());
    } else {
        law_saved_line_by_line(editor, from, to - 1);
        let front = Seq::new((to - 1 - from) as nat, |j: int| editor.saved_line(from + j));
        assert(all =~= front.push(editor.saved_line(to - 1)));
        front.lemma_flatten_push(editor.saved_line(to - 1));
    }
}

/// What is written for one line of the file with every match replaced: the lines
/// that are shown for it, in a row, each with its text after the replacement and
/// its line break.
pub proof fn law_replaced_for_a_line(
    editor: &LargeFileEditor<'_>,
    re: Regex,
    replacement: Seq<char>,
    i: int,
)
    ensures
        editor.replaced_line(re, replacement, i) == Seq::new(
            editor.rows_of(i).len(),
            |k: int|
                editor.row_bytes(
                    i,
                    k + 1 == editor.rows_of(i).len(),
                    replaced(re, editor.rows_of(i)[k].text, replacement),
                ),
        ).flatten(),
{
    let rows = editor.replaced_rows(re, replacement, i);
    lemma_rows_are_flat(editor, i, rows, rows.len() as int);
    assert(Seq::new(
        editor.rows_of(i).len(),
        |k: int|
            editor.row_bytes(
                i,
                k + 1 == editor.rows_of(i).len(),
                replaced(re, editor.rows_of(i)[k].text, replacement),
            ),
    ) =~= Seq::new(rows.len(), |k: int| editor.row_bytes(i, k + 1 == rows.len(), rows[k])));
}

/// What is written for lines of the file with every match replaced is what is
/// written for each, in a row; the whole file is that for all of them.
pub proof fn law_replaced_line_by_line(
    editor: &LargeFileEditor<'_>,
    re: Regex,
    replacement: Seq<char>,
    from: int,
    to: int,
)
    requires
        0 <= from <= to,
    ensures
        editor.replaced_range(re, replacement, from, to) == Seq::new(
            (to - from) as nat,
            |j: int| editor.replaced_line(re, replacement, from + j),
        ).flatten(),
        editor.replaced_bytes(re, replacement) == editor.replaced_range(
            re,
            replacement,
            0,
            editor.base_lines(),
        ),
    decreases to,
{
    let all = Seq::new(
        (to - from) as nat,
        |j: int| editor.replaced_line(re, replacement, from + j),
    );
    if from == to {
        assert(editor.replaced_range(re, replacement, from, to) =~= all.flatten());
    } else {
        law_replaced_line_by_line(editor, re, replacement, from, to - 1);
        let front = Seq::new(
            (to - 1 - from) as nat,
            |j: int| editor.replaced_line(re, replacement, from + j),
        );
        assert(all =~= front.push(editor.replaced_line(re, replacement, to - 1)));
        front.lemma_flatten_push(editor.replaced_line(re, replacement, to - 1));
    }
}

proof fn lemma_flat_has_none(parts: Seq<Seq<u8>>, b: u8)
    requires
        forall|i: int| 0 <= i < parts.len() ==> !(#[trigger] parts[i]).contains(b),
    ensures
        !parts.flatten().contains(b),
    decreases parts.len(),
{
    if parts.len() > 0 {
        let front = parts.drop_last();
        assert forall|i: int| 0 <= i < front.len() implies !(#[trigger] front[i]).contains(b) by {
            assert(front[i] == parts[i]);
        }
        lemma_flat_has_none(front, b);
        assert(parts =~= front.push(parts.last()));
        front.lemma_flatten_push(parts.last());
        assert(!parts[parts.len() - 1].contains(b));
        let all = front.flatten() + parts.last();
        assert forall|i: int| 0 <= i < all.len() implies all[i] != b by {
            if i < front.flatten().len() {
                assert(front.flatten().contains(all[i]));
            } else {
                assert(parts.last().contains(all[i]));
            }
        }
    }
}

/// In a UTF-8 file without carriage returns, whose first line ends with a line
/// feed, none is written for a text that has none.
proof fn lemma_row_has_no_return(
    editor: &LargeFileEditor<'_>,
    i: int,
    last: bool,
    text: Seq<char>,
)
    requires
        editor.wf(),
        editor.encoding == FileEncoding::Utf8,
        !editor.mmap@.contains(0x0D),
        0 <= i < editor.base_lines(),
        newline_suffix(editor.raw_line(0)->0, editor.encoding).len() > 0,
        !text.contains('\r'),
    ensures
        !editor.row_bytes(i, last, text).contains(0x0D),
{
    law_line_breaks_are_kept(editor, i, last, text);
    lemma_carriage_return_byte(text);
    lemma_break_has_no_return(editor, i);
    lemma_break_has_no_return(editor, 0);
    let content = bytes_of(editor.encoding, text);
    let own = newline_suffix(editor.raw_line(i)->0, editor.encoding);
    let first = newline_suffix(editor.raw_line(0)->0, editor.encoding);
    let written = editor.row_bytes(i, last, text);
    assert forall|p: int| 0 <= p < written.len() implies written[p] != 0x0D by {
        if p < content.len() {
            assert(written[p] == content[p]);
        } else if own.len() > 0 {
            assert(own.contains(own[p - content.len()]));
        } else {
            assert(first.contains(first[p - content.len()]));
        }
    }
}

proof fn lemma_break_has_no_return(editor: &LargeFileEditor<'_>, i: int)
    requires
        editor.wf(),
        !editor.mmap@.contains(0x0D),
        0 <= i < editor.base_lines(),
    ensures
        !(editor.raw_line(i)->0).contains(0x0D),
        !newline_suffix(editor.raw_line(i)->0, editor.encoding).contains(0x0D),
{
    law_known_lines_have_bytes(editor, i);
    let raw = editor.raw_line(i)->0;
    let start = editor.line_offsets@[i] as int;
    assert forall|p: int| 0 <= p < raw.len() implies raw[p] != 0x0D by {
        assert(raw[p] == editor.mmap@[start + p]);
        assert(editor.mmap@.contains(editor.mmap@[start + p]));
    }
    law_newline_suffix(Seq::empty(), raw, editor.encoding);
    let own = newline_suffix(raw, editor.encoding);
    let m = raw.len() - own.len();
    assert forall|p: int| 0 <= p < own.len() implies own[p] != 0x0D by {
        assert(own[p] == raw.subrange(m, raw.len() as int)[p]);
        assert(own[p] == raw[m + p]);
    }
}

/// No carriage return comes into a UTF-8 file that has none: neither when it is
/// saved with edits that have none, nor when matches are replaced and no text
/// has one after that. (Its first line must end with a line break; in a file
/// without any, CR LF is used between the lines of an edit.)
pub proof fn law_no_carriage_return_comes_in(
    editor: &LargeFileEditor<'_>,
    re: Regex,
    replacement: Seq<char>,
)
    requires
        editor.wf(),
        editor.encoding == FileEncoding::Utf8,
        !editor.mmap@.contains(0x0D),
        editor.base_lines() > 0,
        newline_suffix(editor.raw_line(0)->0, editor.encoding).len() > 0,
    ensures
        (forall|i: int, k: int|
            0 <= i < editor.base_lines() && 0 <= k < editor.rows_of(i).len() && (
            #[trigger] editor.rows_of(i)[k]).edited ==> !editor.rows_of(i)[k].text.contains('\r'))
            ==> !editor.saved_bytes().contains(0x0D),
        (forall|i: int, k: int|
            0 <= i < editor.base_lines() && 0 <= k < editor.rows_of(i).len() ==> !replaced(
                re,
                (#[trigger] editor.rows_of(i)[k]).text,
                replacement,
            ).contains('\r')) ==> !editor.replaced_bytes(re, replacement).contains(0x0D),
{
    let base = editor.base_lines();
    law_saved_line_by_line(editor, 0, base);
    law_replaced_line_by_line(editor, re, replacement, 0, base);
    if forall|i: int, k: int|
        0 <= i < base && 0 <= k < editor.rows_of(i).len() && (#[trigger] editor.rows_of(
            i,
        )[k]).edited ==> !editor.rows_of(i)[k].text.contains('\r') {
        let parts = Seq::new((base - 0) as nat, |j: int| editor.saved_line(0 + j));
        assert forall|i: int| 0 <= i < parts.len() implies !(#[trigger] parts[i]).contains(0x0D) by {
            lemma_base_bound(editor);
            law_saved_for_a_line(editor, i as usize);
            lemma_break_has_no_return(editor, i);
            if editor.edited_lines@.contains_key(i as usize) {
                if let LineState::Modified(lines) = editor.edited_lines@[i as usize] {
                    let rows = Seq::new(
                        lines@.len(),
                        |k: int| editor.row_bytes(i, k + 1 == lines@.len(), lines@[k]@),
                    );
                    assert forall|k: int| 0 <= k < rows.len() implies !(
                    #[trigger] rows[k]).contains(0x0D) by {
                        assert(editor.rows_of(i)[k].text == lines@[k]@);
                        lemma_row_has_no_return(editor, i, k + 1 == lines@.len(), lines@[k]@);
                    }
                    lemma_flat_has_none(rows, 0x0D);
                }
            }
        }
        lemma_flat_has_none(parts, 0x0D);
    }
    if forall|i: int, k: int|
        0 <= i < base && 0 <= k < editor.rows_of(i).len() ==> !replaced(
            re,
            (#[trigger] editor.rows_of(i)[k]).text,
            replacement,
        ).contains('\r') {
        let parts = Seq::new((base - 0) as nat, |j: int| editor.replaced_line(re, replacement, 0 + j));
        assert forall|i: int| 0 <= i < parts.len() implies !(#[trigger] parts[i]).contains(0x0D) by {
            law_replaced_for_a_line(editor, re, replacement, i);
            let rows = Seq::new(
                editor.rows_of(i).len(),
                |k: int|
                    editor.row_bytes(
                        i,
                        k + 1 == editor.rows_of(i).len(),
                        replaced(re, editor.rows_of(i)[k].text, replacement),
                    ),
            );
            assert forall|k: int| 0 <= k < rows.len() implies !(#[trigger] rows[k]).contains(
                0x0D,
            ) by {
                lemma_row_has_no_return(
                    editor,
                    i,
                    k + 1 == editor.rows_of(i).len(),
                    replaced(re, editor.rows_of(i)[k].text, replacement),
                );
            }
            lemma_flat_has_none(rows, 0x0D);
        }
        lemma_flat_has_none(parts, 0x0D);
    }
}

} // verus!
