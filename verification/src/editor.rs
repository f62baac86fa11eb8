//! A large file as it is shown: the lines of its bytes, with the edits that
//! were made to them.

use crate::codec::{decode, is_line_text, text_of, MAX_TEXT_BYTES};
use crate::display::lemma_unedited_rows;
use crate::encoding::{trim_line_end, trimmed, FileEncoding};
use crate::laws::{law_edit_changes_one_line, scanned_on};
use crate::scan::{
    is_line_start, is_scan_position, law_line_starts_exact, law_line_starts_grow, line_fits, line_starts,
    lines_fit, scan_chunk, ScanChunk,
};
use crate::text::{content_lines, law_content_lines_are_lines, split_content, texts};
use std::collections::BTreeMap;
use vstd::prelude::*;
use vstd::slice::slice_subrange;

verus! {

/// What became of a line of the file.
#[derive(Debug, Clone, PartialEq, Eq)]
pub enum LineState {
    /// It was replaced by these lines, one or more.
    Modified(Vec<String>),
    /// It was removed.
    Deleted,
}

/// What became of a line of the file, with its texts as what they say.
#[verifier::ext_equal]
pub enum Edit {
    /// It was replaced by these lines.
    Replaced(Seq<Seq<char>>),
    /// It was removed.
    Removed,
}

impl LineState {
    /// A replacement is at least one line, and each of its lines is one line.
    pub open spec fn wf(self) -> bool {
        match self {
            LineState::Modified(lines) => {
                &&& lines@.len() > 0
                &&& forall|j: int| 0 <= j < lines@.len() ==> is_line_text((#[trigger] lines@[j])@)
            },
            LineState::Deleted => true,
        }
    }

    /// What it says.
    pub open spec fn edit(self) -> Edit {
        match self {
            LineState::Modified(lines) => Edit::Replaced(texts(lines@)),
            LineState::Deleted => Edit::Removed,
        }
    }
}

/// The edits once line `idx` was replaced by `content`.
pub open spec fn after_edit(edits: Map<usize, Edit>, idx: usize, content: Seq<char>) -> Map<
    usize,
    Edit,
> {
    edits.insert(idx, Edit::Replaced(content_lines(content)))
}

/// The edits once line `idx` was removed.
pub open spec fn after_delete(edits: Map<usize, Edit>, idx: usize) -> Map<usize, Edit> {
    edits.insert(idx, Edit::Removed)
}

/// The last edit of a line wins, and a line that was removed comes back with
/// it. Edits of two lines can be made in either order.
pub proof fn law_last_edit_wins(
    edits: Map<usize, Edit>,
    i: usize,
    j: usize,
    a: Seq<char>,
    b: Seq<char>,
)
    ensures
        after_edit(after_edit(edits, i, a), i, b) == after_edit(edits, i, b),
        after_edit(after_delete(edits, i), i, b) == after_edit(edits, i, b),
        after_delete(after_edit(edits, i, a), i) == after_delete(edits, i),
        i != j ==> {
            &&& after_edit(after_edit(edits, i, a), j, b) == after_edit(
                after_edit(edits, j, b),
                i,
                a,
            )
            &&& after_delete(after_edit(edits, i, a), j) == after_edit(
                after_delete(edits, j),
                i,
                a,
            )
            &&& after_delete(after_delete(edits, i), j) == after_delete(after_delete(edits, j), i)
        },
{
    assert(after_edit(after_edit(edits, i, a), i, b) =~= after_edit(edits, i, b));
    assert(after_edit(after_delete(edits, i), i, b) =~= after_edit(edits, i, b));
    assert(after_delete(after_edit(edits, i, a), i) =~= after_delete(edits, i));
    if i != j {
        assert(after_edit(after_edit(edits, i, a), j, b) =~= after_edit(
            after_edit(edits, j, b),
            i,
            a,
        ));
        assert(after_delete(after_edit(edits, i, a), j) =~= after_edit(
            after_delete(edits, j),
            i,
            a,
        ));
        assert(after_delete(after_delete(edits, i), j) =~= after_delete(
            after_delete(edits, j),
            i,
        ));
    }
}

/// Why a file could not be opened.
#[derive(Debug, Clone, Copy, PartialEq, Eq, Structural)]
pub enum OpenError {
    /// The file has no bytes.
    EmptyFile,
}

impl OpenError {
    /// The message shown for this error.
    pub fn message(self) -> (message: &'static str)
        ensures
            message@
                == "Empty files are not supported via mmap. Please use a regular text editor for empty files."@,
    {
        "Empty files are not supported via mmap. Please use a regular text editor for empty files."
    }
}

/// The number of bytes of line `i`, by where the lines start.
pub open spec fn line_len(offsets: Seq<usize>, file_size: usize, i: int) -> int {
    let end = if i + 1 < offsets.len() {
        offsets[i + 1]
    } else {
        file_size
    };
    end - offsets[i]
}

/// Whether each of the first `known` lines can be decoded.
pub open spec fn known_lines_fit(offsets: Seq<usize>, file_size: usize, known: int) -> bool {
    forall|i: int| 0 <= i < known ==> #[trigger] line_len(offsets, file_size, i) <= MAX_TEXT_BYTES
}

/// One line as it is shown.
#[verifier::ext_equal]
pub struct DisplayRow {
    /// The line of the file that it comes from.
    pub orig: int,
    /// Its text.
    pub text: Seq<char>,
    /// Whether the line of the file was replaced.
    pub edited: bool,
}

/// An open file: its bytes, the index of its lines as far as it is built, the
/// edits made so far and the state of the current filter.
pub struct LargeFileEditor<'a> {
    pub encoding: FileEncoding,
    pub mmap: &'a [u8],
    pub file_size: usize,
    pub line_offsets: Vec<usize>,
    pub scan_progress: usize,
    pub scan_finished: bool,
    pub edited_lines: BTreeMap<usize, LineState>,
    pub filter_results: Vec<usize>,
    pub filter_progress: usize,
    pub filter_finished: bool,
    pub filter_error: Option<String>,
    /// The number of the current filter.
    pub filter_number: u64,
}

impl<'a> LargeFileEditor<'a> {
    /// The index holds the line starts up to where the scan has come, each known
    /// line can be decoded, and the edits are well formed.
    pub open spec fn wf(&self) -> bool {
        &&& 0 < self.mmap@.len()
        &&& self.file_size == self.mmap@.len()
        &&& is_scan_position(self.mmap@, self.encoding, self.scan_progress as int)
        &&& self.scan_finished <==> self.scan_progress == self.file_size
        &&& self.line_offsets@ == line_starts(self.mmap@, self.encoding, self.scan_progress + 1)
        &&& known_lines_fit(self.line_offsets@, self.file_size, self.base_lines())
        &&& forall|k: usize|
            self.edited_lines@.contains_key(k) ==> (#[trigger] self.edited_lines@[k]).wf()
    }

    /// The edits made so far.
    pub open spec fn edits(&self) -> Map<usize, Edit> {
        self.edited_lines@.map_values(|state: LineState| state.edit())
    }

    /// Whether `other` is the same but for the state of the filter.
    pub open spec fn same_document(&self, other: &Self) -> bool {
        &&& self.encoding == other.encoding
        &&& self.mmap@ == other.mmap@
        &&& self.file_size == other.file_size
        &&& self.line_offsets@ == other.line_offsets@
        &&& self.scan_progress == other.scan_progress
        &&& self.scan_finished == other.scan_finished
        &&& self.edited_lines@ == other.edited_lines@
    }

    /// Whether `other` is in the same state of filtering.
    pub open spec fn same_filter(&self, other: &Self) -> bool {
        &&& self.filter_results@ == other.filter_results@
        &&& self.filter_progress == other.filter_progress
        &&& self.filter_finished == other.filter_finished
        &&& self.filter_error == other.filter_error
        &&& self.filter_number == other.filter_number
    }

    /// Whether `other` is the same file, scanned as far, whatever the edits.
    pub open spec fn same_index(&self, other: &Self) -> bool {
        &&& self.encoding == other.encoding
        &&& self.mmap@ == other.mmap@
        &&& self.file_size == other.file_size
        &&& self.line_offsets@ == other.line_offsets@
        &&& self.scan_progress == other.scan_progress
        &&& self.scan_finished == other.scan_finished
    }

    /// The number of lines of the file whose end is known.
    pub open spec fn base_lines(&self) -> int {
        if self.scan_finished {
            self.line_offsets@.len() as int
        } else if self.line_offsets@.len() > 0 {
            self.line_offsets@.len() - 1
        } else {
            0
        }
    }

    /// The bytes of line `i` of the file, with its line break. A line whose end
    /// is not known yet has none.
    pub open spec fn raw_line(&self, i: int) -> Option<Seq<u8>> {
        if 0 <= i < self.base_lines() {
            let start = self.line_offsets@[i] as int;
            let end = if i + 1 < self.line_offsets@.len() {
                self.line_offsets@[i + 1] as int
            } else {
                self.file_size as int
            };
            if start < end <= self.file_size {
                Some(self.mmap@.subrange(start, end))
            } else {
                None
            }
        } else {
            None
        }
    }

    /// The text of line `i` of the file, without its line break.
    pub open spec fn line_text(&self, i: int) -> Seq<char> {
        text_of(self.encoding, trimmed(self.raw_line(i)->0, self.encoding))
    }

    /// The lines shown in place of line `i` of the file.
    pub open spec fn rows_of(&self, i: int) -> Seq<DisplayRow> {
        if self.edited_lines@.contains_key(i as usize) {
            match self.edited_lines@[i as usize] {
                LineState::Modified(lines) => Seq::new(
                    lines@.len(),
                    |j: int| DisplayRow { orig: i, text: lines@[j]@, edited: true },
                ),
                LineState::Deleted => Seq::empty(),
            }
        } else {
            seq![DisplayRow { orig: i, text: self.line_text(i), edited: false }]
        }
    }

    /// The lines shown for the first `n` lines of the file.
    pub open spec fn rows_before(&self, n: int) -> Seq<DisplayRow>
        decreases n,
    {
        if n <= 0 {
            Seq::empty()
        } else {
            self.rows_before(n - 1) + self.rows_of(n - 1)
        }
    }

    /// All the lines shown.
    pub open spec fn display_rows(&self) -> Seq<DisplayRow> {
        self.rows_before(self.base_lines())
    }

    /// Opens a file that holds these bytes. Its lines are not indexed yet.
    pub fn open(mmap: &'a [u8], encoding: FileEncoding) -> (result: Result<Self, OpenError>)
        ensures
            match result {
                Ok(editor) => {
                    &&& mmap@.len() > 0
                    &&& editor.wf()
                    &&& editor.mmap@ == mmap@
                    &&& editor.encoding == encoding
                    &&& editor.scan_progress == 0
                    &&& editor.edited_lines@ == Map::<usize, LineState>::empty()
                    &&& editor.filter_results@ == Seq::<usize>::empty()
                    &&& editor.filter_progress == 0
                    &&& !editor.filter_finished
                    &&& editor.filter_error is None
                    &&& editor.filter_number == 0
                    &&& editor.display_rows().len() == 0
                },
                Err(OpenError::EmptyFile) => mmap@.len() == 0,
            },
    {
        if mmap.len() == 0 {
            return Err(OpenError::EmptyFile);
        }
        let mut line_offsets: Vec<usize> = Vec::new();
        line_offsets.push(0);
        proof {
            reveal_with_fuel(line_starts, 2);
            assert(line_offsets@ =~= line_starts(mmap@, encoding, 1));
        }
        Ok(
            LargeFileEditor {
                encoding,
                mmap,
                file_size: mmap.len(),
                line_offsets,
                scan_progress: 0,
                scan_finished: false,
                edited_lines: BTreeMap::new(),
                filter_results: Vec::new(),
                filter_progress: 0,
                filter_finished: false,
                filter_error: None,
                filter_number: 0,
            },
        )
    }

    /// Whether line `i` can be decoded once `chunk` is taken in, if its end is
    /// known then.
    pub open spec fn chunk_line_fits(&self, chunk: ScanChunk, i: int) -> bool {
        let offsets = self.line_offsets@ + chunk.offsets@;
        if i + 1 < offsets.len() {
            offsets[i + 1] - offsets[i] <= MAX_TEXT_BYTES
        } else {
            chunk.end == self.file_size ==> self.file_size - offsets[i] <= MAX_TEXT_BYTES
        }
    }

    /// Whether every line whose end `chunk` makes known can be decoded.
    pub open spec fn admits(&self, chunk: ScanChunk) -> bool {
        forall|i: int|
            0 <= i < self.line_offsets@.len() + chunk.offsets@.len()
                ==> #[trigger] self.chunk_line_fits(chunk, i)
    }

    /// Whether every line whose end `chunk` makes known can be decoded.
    pub fn admits_chunk(&self, chunk: &ScanChunk) -> (admitted: bool)
        requires
            self.wf(),
            !self.scan_finished,
            chunk.is_chunk_of(self.mmap@, self.encoding),
            chunk.start == self.scan_progress,
        ensures
            admitted == self.admits(*chunk),
    {
        let known: usize = self.line_offsets.len();
        let ghost offsets = self.line_offsets@ + chunk.offsets@;
        proof {
            law_line_starts_exact(self.mmap@, self.encoding, chunk.end + 1);
            assert(offsets == line_starts(self.mmap@, self.encoding, chunk.end + 1));
            lemma_first_line(self);
            assert forall|i: int| 0 <= i < known - 1 implies #[trigger] self.chunk_line_fits(
                *chunk,
                i,
            ) by {
                assert(line_len(self.line_offsets@, self.file_size, i) <= MAX_TEXT_BYTES);
            }
        }
        let mut start: usize = self.line_offsets[known - 1];
        let mut j: usize = 0;
        while j < chunk.offsets.len()
            invariant
                j <= chunk.offsets@.len(),
                known == self.line_offsets@.len(),
                known > 0,
                offsets == self.line_offsets@ + chunk.offsets@,
                start == offsets[known - 1 + j],
                forall|a: int, b: int| 0 <= a < b < offsets.len() ==> offsets[a] < offsets[b],
                forall|i: int|
                    0 <= i < known - 1 + j ==> #[trigger] self.chunk_line_fits(*chunk, i),
            decreases chunk.offsets@.len() - j,
        {
            let next: usize = chunk.offsets[j];
            assert(next == offsets[known + j]);
            if next - start > MAX_TEXT_BYTES {
                assert(!self.chunk_line_fits(*chunk, known - 1 + j));
                return false;
            }
            assert(self.chunk_line_fits(*chunk, known - 1 + j));
            start = next;
            j = j + 1;
        }
        assert(start == offsets[offsets.len() - 1]);
        if chunk.end == self.file_size && self.file_size - start > MAX_TEXT_BYTES {
            assert(!self.chunk_line_fits(*chunk, offsets.len() - 1));
            return false;
        }
        true
    }

    /// Takes in what the next step of the scan found. What was shown of the
    /// file before stays as it is.
    pub fn apply_chunk(&mut self, chunk: ScanChunk)
        requires
            old(self).wf(),
            !old(self).scan_finished,
            chunk.is_chunk_of(old(self).mmap@, old(self).encoding),
            chunk.start == old(self).scan_progress,
            old(self).admits(chunk),
        ensures
            final(self).wf(),
            final(self).mmap@ == old(self).mmap@,
            final(self).encoding == old(self).encoding,
            final(self).scan_progress == chunk.end,
            final(self).scan_progress > old(self).scan_progress,
            scanned_on(old(self), final(self)),
            final(self).edited_lines@ == old(self).edited_lines@,
            final(self).same_filter(old(self)),
            final(self).base_lines() >= old(self).base_lines(),
            forall|i: int|
                0 <= i < old(self).base_lines() ==> #[trigger] final(self).raw_line(i) == old(
                    self,
                ).raw_line(i),
    {
        let ghost before = *self;
        let mut offsets = chunk.offsets;
        self.line_offsets.append(&mut offsets);
        self.scan_progress = chunk.end;
        if chunk.end == self.file_size {
            self.scan_finished = true;
        }
        assert(self.line_offsets@ =~= before.line_offsets@ + chunk.offsets@);
        proof {
            law_line_starts_grow(
                self.mmap@,
                self.encoding,
                before.scan_progress + 1,
                self.scan_progress + 1,
            );
            assert forall|i: int| 0 <= i < before.base_lines() implies #[trigger] self.raw_line(i)
                == before.raw_line(i) by {
                assert(self.line_offsets@[i] == before.line_offsets@[i]);
                assert(self.line_offsets@[i + 1] == before.line_offsets@[i + 1]);
            }
            assert forall|i: int| 0 <= i < self.base_lines() implies #[trigger] line_len(
                self.line_offsets@,
                self.file_size,
                i,
            ) <= MAX_TEXT_BYTES by {
                assert(before.chunk_line_fits(chunk, i));
            }
        }
    }

    /// The number of lines of the file whose end is known. While the scan goes
    /// on, the last line found may still grow and is left out.
    pub fn base_lines_count(&self) -> (count: usize)
        ensures
            count == self.base_lines(),
    {
        let len: usize = self.line_offsets.len();
        if self.scan_finished {
            len
        } else if len > 0 {
            len - 1
        } else {
            0
        }
    }

    /// Whether any line was edited or removed, even one past the last line.
    pub fn has_unsaved_changes(&self) -> (unsaved: bool)
        ensures
            unsaved == !self.edited_lines@.is_empty(),
    {
        !self.edited_lines.is_empty()
    }

    /// The bytes of a line of the file, with its line break.
    pub fn get_line_raw_from_mmap(&self, line_idx: usize) -> (raw: Option<&'a [u8]>)
        requires
            self.wf(),
        ensures
            match raw {
                Some(bytes) => self.raw_line(line_idx as int) == Some(bytes@),
                None => self.raw_line(line_idx as int) is None,
            },
    {
        if line_idx >= self.line_offsets.len() {
            return None;
        }
        let start: usize = self.line_offsets[line_idx];
        let end: usize = if line_idx + 1 < self.line_offsets.len() {
            self.line_offsets[line_idx + 1]
        } else if self.scan_finished {
            self.file_size
        } else {
            return None;
        };
        if start >= self.file_size || start >= end || end > self.file_size {
            return None;
        }
        Some(slice_subrange(self.mmap, start, end))
    }

    /// The same as `get_line_raw_from_mmap`.
    pub fn get_line_raw(&self, line_idx: usize) -> (raw: Option<&'a [u8]>)
        requires
            self.wf(),
        ensures
            match raw {
                Some(bytes) => self.raw_line(line_idx as int) == Some(bytes@),
                None => self.raw_line(line_idx as int) is None,
            },
    {
        self.get_line_raw_from_mmap(line_idx)
    }

    /// The text of a line of the file, without its line break.
    pub fn get_line_string_raw_from_mmap(&self, line_idx: usize) -> (text: Option<String>)
        requires
            self.wf(),
        ensures
            text is Some <==> self.raw_line(line_idx as int) is Some,
            text matches Some(s) ==> s@ == self.line_text(line_idx as int),
    {
        match self.get_line_raw_from_mmap(line_idx) {
            Some(raw) => {
                assert(line_len(self.line_offsets@, self.file_size, line_idx as int)
                    <= MAX_TEXT_BYTES);
                let clean = trim_line_end(raw, self.encoding);
                Some(decode(self.encoding, clean))
            },
            None => None,
        }
    }

    /// Replaces a line of the file by `new_content`, which may be several
    /// lines.
    pub fn edit_line(&mut self, orig_idx: usize, new_content: String)
        requires
            old(self).wf(),
        ensures
            final(self).wf(),
            final(self).same_index(old(self)),
            final(self).same_filter(old(self)),
            final(self).edited_lines@.contains_key(orig_idx),
            final(self).edited_lines@ == old(self).edited_lines@.insert(
                orig_idx,
                final(self).edited_lines@[orig_idx],
            ),
            final(self).edited_lines@[orig_idx] matches LineState::Modified(lines) && texts(lines@)
                == content_lines(new_content@),
            final(self).edits() == after_edit(old(self).edits(), orig_idx, new_content@),
            !final(self).edited_lines@.is_empty(),
            final(self).display_rows().len() == old(self).display_rows().len() + if orig_idx < old(
                self,
            ).base_lines() {
                content_lines(new_content@).len() - old(self).rows_of(orig_idx as int).len()
            } else {
                0
            },
    {
        let ghost before = *self;
        let lines = split_content(new_content.as_str());
        proof {
            law_content_lines_are_lines(new_content@);
            assert forall|j: int| 0 <= j < lines@.len() implies is_line_text(
                (#[trigger] lines@[j])@,
            ) by {
                assert(texts(lines@)[j] == lines@[j]@);
            }
        }
        self.edited_lines.insert(orig_idx, LineState::Modified(lines));
        proof {
            assert(self.edits() =~= after_edit(before.edits(), orig_idx, new_content@));
            law_edit_changes_one_line(&before, self, orig_idx, LineState::Modified(lines));
        }
    }

    /// Removes a line of the file.
    pub fn delete_line(&mut self, orig_idx: usize)
        requires
            old(self).wf(),
        ensures
            final(self).wf(),
            final(self).same_index(old(self)),
            final(self).same_filter(old(self)),
            final(self).edited_lines@ == old(self).edited_lines@.insert(
                orig_idx,
                LineState::Deleted,
            ),
            final(self).edits() == after_delete(old(self).edits(), orig_idx),
            !final(self).edited_lines@.is_empty(),
            final(self).display_rows().len() == old(self).display_rows().len() - if orig_idx < old(
                self,
            ).base_lines() {
                old(self).rows_of(orig_idx as int).len()
            } else {
                0
            },
    {
        let ghost before = *self;
        self.edited_lines.insert(orig_idx, LineState::Deleted);
        proof {
            assert(self.edits() =~= after_delete(before.edits(), orig_idx));
            law_edit_changes_one_line(&before, self, orig_idx, LineState::Deleted);
        }
    }
}

/// The first line starts at the start of the file.
pub proof fn lemma_first_line(editor: &LargeFileEditor<'_>)
    requires
        editor.wf(),
    ensures
        editor.line_offsets@.len() > 0,
        editor.line_offsets@[0] == 0,
{
    law_line_starts_exact(editor.mmap@, editor.encoding, editor.scan_progress + 1);
    assert(is_line_start(editor.mmap@, editor.encoding, 0));
    let i = choose|i: int|
        0 <= i < editor.line_offsets@.len() && editor.line_offsets@[i] == 0usize;
    if i > 0 {
        assert(editor.line_offsets@[0] < editor.line_offsets@[i]);
    }
}

/// A step of the scan is admitted in a file whose lines can all be decoded.
proof fn lemma_chunk_admitted(editor: &LargeFileEditor<'_>, chunk: ScanChunk)
    requires
        editor.wf(),
        chunk.is_chunk_of(editor.mmap@, editor.encoding),
        chunk.start == editor.scan_progress,
        lines_fit(editor.mmap@, editor.encoding),
    ensures
        editor.admits(chunk),
{
    let bytes = editor.mmap@;
    let encoding = editor.encoding;
    let n = bytes.len() as int;
    let offsets = editor.line_offsets@ + chunk.offsets@;
    let starts = line_starts(bytes, encoding, n);
    assert(offsets == line_starts(bytes, encoding, chunk.end + 1));
    law_line_starts_exact(bytes, encoding, chunk.end + 1);
    law_line_starts_grow(bytes, encoding, chunk.end + 1, n + 1);
    assert(!is_line_start(bytes, encoding, n));
    assert(line_starts(bytes, encoding, n + 1) == starts);
    assert forall|i: int| 0 <= i < offsets.len() implies #[trigger] editor.chunk_line_fits(
        chunk,
        i,
    ) by {
        assert(offsets[i] == starts[i]);
        if i + 1 < offsets.len() {
            assert(offsets[i + 1] == starts[i + 1]);
            assert(offsets[i + 1] <= n);
        }
        if n > MAX_TEXT_BYTES {
            assert(line_fits(bytes, encoding, i));
        }
    }
}

/// Scans the file from where the scan has come to its end.
pub fn scan_offsets(editor: &mut LargeFileEditor<'_>)
    requires
        old(editor).wf(),
        lines_fit(old(editor).mmap@, old(editor).encoding),
    ensures
        final(editor).wf(),
        final(editor).scan_finished,
        final(editor).mmap@ == old(editor).mmap@,
        final(editor).encoding == old(editor).encoding,
        final(editor).line_offsets@ == line_starts(
            old(editor).mmap@,
            old(editor).encoding,
            old(editor).mmap@.len() as int,
        ),
        final(editor).edited_lines@ == old(editor).edited_lines@,
        final(editor).same_filter(old(editor)),
        final(editor).edited_lines@ == Map::<usize, LineState>::empty()
            ==> final(editor).display_rows().len() == final(editor).line_offsets.len(),
{
    while !editor.scan_finished
        invariant
            editor.wf(),
            lines_fit(editor.mmap@, editor.encoding),
            editor.mmap@ == old(editor).mmap@,
            editor.encoding == old(editor).encoding,
            editor.edited_lines@ == old(editor).edited_lines@,
            editor.same_filter(old(editor)),
        decreases editor.file_size - editor.scan_progress,
    {
        let chunk = scan_chunk(editor.mmap, editor.encoding, editor.scan_progress);
        proof {
            lemma_chunk_admitted(editor, chunk);
        }
        editor.apply_chunk(chunk);
    }
    proof {
        if editor.edited_lines@ == Map::<usize, LineState>::empty() {
            lemma_unedited_rows(editor, 0, editor.line_offsets.len() as int);
        }
    }
}

/// What stays when a document, an index or the state of a filter is said to be
/// the same: everything but the rest.
pub proof fn law_what_stays(a: &LargeFileEditor<'_>, b: &LargeFileEditor<'_>, i: int)
    ensures
        a.same_index(b) ==> {
            &&& a.encoding == b.encoding
            &&& a.mmap@ == b.mmap@
            &&& a.scan_progress == b.scan_progress
            &&& a.scan_finished == b.scan_finished
            &&& a.base_lines() == b.base_lines()
            &&& a.raw_line(i) == b.raw_line(i)
        },
        a.same_document(b) ==> {
            &&& a.same_index(b)
            &&& a.edited_lines@ == b.edited_lines@
            &&& a.edits() == b.edits()
            &&& a.rows_of(i) == b.rows_of(i)
        },
        a.same_filter(b) ==> {
            &&& a.filter_results@ == b.filter_results@
            &&& a.filter_progress == b.filter_progress
            &&& a.filter_finished == b.filter_finished
            &&& a.filter_error == b.filter_error
            &&& a.filter_number == b.filter_number
        },
{
}

/// The edits say what became of each line that was edited or removed, and of no
/// other.
pub proof fn law_edits(editor: &LargeFileEditor<'_>, line: usize, k: int)
    ensures
        editor.edits().contains_key(line) == editor.edited_lines@.contains_key(line),
        editor.edited_lines@.contains_key(line) ==> match editor.edited_lines@[line] {
            LineState::Modified(lines) => editor.edits()[line] matches Edit::Replaced(rows)
                && rows.len() == lines@.len() && (0 <= k < lines@.len() ==> rows[k] == lines@[k]@),
            LineState::Deleted => editor.edits()[line] == Edit::Removed,
        },
{
}

/// A step of the scan is admitted just where each line whose end it makes known
/// can be decoded; in a file whose lines all can, every step is.
pub proof fn law_steps_are_admitted(editor: &LargeFileEditor<'_>, chunk: ScanChunk)
    requires
        editor.wf(),
        !editor.scan_finished,
        chunk.is_chunk_of(editor.mmap@, editor.encoding),
        chunk.start == editor.scan_progress,
    ensures
        ({
            let starts = editor.line_offsets@ + chunk.offsets@;
            editor.admits(chunk) <==> {
                &&& forall|i: int, j: int|
                    0 <= i && j == i + 1 && j < starts.len() ==> (#[trigger] starts[j])
                        - (#[trigger] starts[i]) <= MAX_TEXT_BYTES
                &&& chunk.end == editor.mmap@.len() ==> editor.mmap@.len() - starts.last()
                    <= MAX_TEXT_BYTES
            }
        }),
        editor.mmap@.len() <= MAX_TEXT_BYTES ==> editor.admits(chunk),
        lines_fit(editor.mmap@, editor.encoding) ==> editor.admits(chunk),
{
    let starts = editor.line_offsets@ + chunk.offsets@;
    lemma_first_line(editor);
    if lines_fit(editor.mmap@, editor.encoding) {
        lemma_chunk_admitted(editor, chunk);
    }
    if editor.admits(chunk) {
        assert(editor.chunk_line_fits(chunk, starts.len() - 1));
        assert forall|i: int, j: int|
            0 <= i && j == i + 1 && j < starts.len() implies (#[trigger] starts[j])
            - (#[trigger] starts[i]) <= MAX_TEXT_BYTES by {
            assert(editor.chunk_line_fits(chunk, i));
        }
    } else {
        let i = choose|i: int|
            0 <= i < editor.line_offsets@.len() + chunk.offsets@.len()
                && !#[trigger] editor.chunk_line_fits(chunk, i);
        assert(0 <= i < starts.len() && !editor.chunk_line_fits(chunk, i));
        if i + 1 < starts.len() {
            let j = i + 1;
            assert(starts[j] - starts[i] > MAX_TEXT_BYTES);
        }
    }
}

} // verus!
