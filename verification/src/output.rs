//! The bytes that a file is written with: saved with its edits, or with every
//! match of a pattern replaced.

use crate::codec::{bytes_of, encode, is_line_text, writes_as_line};
use crate::display::law_known_lines_have_bytes;
use crate::editor::{LargeFileEditor, LineState};
use crate::encoding::{get_newline_bytes, newline_suffix};
use crate::pattern::{compiled, error_message, parse, replace_all, replaced};
use crate::text::texts;
use regex::Regex;
use vstd::prelude::*;

verus! {

fn push_bytes(out: &mut Vec<u8>, bytes: &[u8])
    ensures
        final(out)@ == old(out)@ + bytes@,
{
    let ghost before = out@;
    out.extend_from_slice(bytes);
    assert(out@ =~= before + bytes@);
}

impl<'a> LargeFileEditor<'a> {
    /// The line break at the end of line `i` of the file; empty where it has
    /// none.
    pub open spec fn line_newline(&self, i: int) -> Seq<u8> {
        match self.raw_line(i) {
            Some(raw) => newline_suffix(raw, self.encoding),
            None => Seq::empty(),
        }
    }

    /// The line break found in the file, which is that of its first line; CR LF
    /// where it has none.
    pub open spec fn file_newline(&self) -> Seq<u8> {
        if self.line_newline(0).len() > 0 {
            self.line_newline(0)
        } else {
            self.encoding.crlf()
        }
    }

    /// The line break put behind what is shown for line `i` of the file: its
    /// own, or the one found in the file where it has none.
    pub open spec fn line_break(&self, i: int) -> Seq<u8> {
        if self.line_newline(i).len() > 0 {
            self.line_newline(i)
        } else {
            self.file_newline()
        }
    }

    /// Whether a line break ends line `i` of the file, or another line follows.
    pub open spec fn is_broken_after(&self, i: int) -> bool {
        self.line_newline(i).len() > 0 || i + 1 < self.base_lines()
    }

    /// The bytes written for a line that is shown for line `i` of the file, with
    /// its line break. `last` says whether it is the last one shown for it.
    pub open spec fn row_bytes(&self, i: int, last: bool, text: Seq<char>) -> Seq<u8> {
        bytes_of(self.encoding, text) + if !last || self.is_broken_after(i) {
            self.line_break(i)
        } else {
            Seq::empty()
        }
    }

    /// The bytes written for the first `n` of the lines that are shown for line
    /// `i` of the file.
    pub open spec fn rows_bytes(&self, i: int, rows: Seq<Seq<char>>, n: int) -> Seq<u8>
        decreases n,
    {
        if n <= 0 {
            Seq::empty()
        } else {
            self.rows_bytes(i, rows, n - 1) + self.row_bytes(i, n == rows.len(), rows[n - 1])
        }
    }

    /// The bytes written for line `i` of the file when it is saved: its own,
    /// those of the lines that replace it, or none.
    pub open spec fn saved_line(&self, i: int) -> Seq<u8> {
        if self.edited_lines@.contains_key(i as usize) {
            match self.edited_lines@[i as usize] {
                LineState::Modified(lines) => self.rows_bytes(i, texts(lines@), lines@.len() as int),
                LineState::Deleted => Seq::empty(),
            }
        } else {
            match self.raw_line(i) {
                Some(raw) => raw,
                None => Seq::empty(),
            }
        }
    }

    /// The bytes written for the lines of the file from `from` up to `to`.
    pub open spec fn saved_range(&self, from: int, to: int) -> Seq<u8>
        decreases to,
    {
        if to <= from || to <= 0 {
            Seq::empty()
        } else {
            self.saved_range(from, to - 1) + self.saved_line(to - 1)
        }
    }

    /// The bytes of the saved file.
    pub open spec fn saved_bytes(&self) -> Seq<u8> {
        self.saved_range(0, self.base_lines())
    }

    /// Whether the lines that replace line `i` of the file, if any do, are
    /// written as lines.
    pub open spec fn edit_writes_as_lines(&self, i: int) -> bool {
        self.edited_lines@.contains_key(i as usize) ==> {
            self.edited_lines@[i as usize] matches LineState::Modified(lines) ==> forall|j: int|
                0 <= j < lines@.len() ==> writes_as_line(self.encoding, (#[trigger] lines@[j])@)
        }
    }

    /// The line break at the end of a line of the file.
    fn own_newline(&self, line_idx: usize) -> (newline: &[u8])
        requires
            self.wf(),
        ensures
            newline@ == self.line_newline(line_idx as int),
    {
        match self.get_line_raw_from_mmap(line_idx) {
            Some(raw) => get_newline_bytes(raw, self.encoding),
            None => {
                assert(Seq::<u8>::empty() =~= self.line_newline(line_idx as int));
                &[]
            },
        }
    }

    /// The bytes written for a line with this text that is shown for line
    /// `line_idx` of the file, with its line break. `last` says whether it is
    /// the last one shown for it.
    pub fn encode_row(&self, line_idx: usize, last: bool, text: &str) -> (bytes: Vec<u8>)
        requires
            self.wf(),
        ensures
            bytes@ == self.row_bytes(line_idx as int, last, text@),
            is_line_text(text@) ==> writes_as_line(self.encoding, text@),
    {
        let mut out = encode(self.encoding, text);
        let newline = self.own_newline(line_idx);
        let base: usize = self.base_lines_count();
        if newline.len() > 0 {
            push_bytes(&mut out, newline);
        } else if !last || (line_idx < base && base - line_idx > 1) {
            let first = self.own_newline(0);
            if first.len() > 0 {
                push_bytes(&mut out, first);
            } else {
                push_bytes(&mut out, self.encoding.default_newline());
            }
        }
        assert(out@ =~= self.row_bytes(line_idx as int, last, text@));
        out
    }

    /// The bytes written for one line of the file when it is saved.
    pub fn save_line(&self, line_idx: usize) -> (bytes: Vec<u8>)
        requires
            self.wf(),
            line_idx < self.base_lines(),
        ensures
            bytes@ == self.saved_line(line_idx as int),
            self.edit_writes_as_lines(line_idx as int),
    {
        let mut out: Vec<u8> = Vec::new();
        match self.edited_lines.get(&line_idx) {
            Some(LineState::Modified(lines)) => {
                let ghost all = texts(lines@);
                let mut j: usize = 0;
                while j < lines.len()
                    invariant
                        self.wf(),
                        self.edited_lines@.contains_key(line_idx),
                        self.edited_lines@[line_idx] == LineState::Modified(*lines),
                        all == texts(lines@),
                        j <= lines@.len(),
                        out@ == self.rows_bytes(line_idx as int, all, j as int),
                        forall|k: int|
                            0 <= k < j ==> writes_as_line(self.encoding, (#[trigger] lines@[k])@),
                    decreases lines@.len() - j,
                {
                    assert(self.edited_lines@[line_idx].wf());
                    assert(all[j as int] == lines@[j as int]@);
                    let row = self.encode_row(line_idx, j + 1 == lines.len(), lines[j].as_str());
                    push_bytes(&mut out, row.as_slice());
                    j = j + 1;
                }
            },
            Some(LineState::Deleted) => {},
            None => {
                if let Some(raw) = self.get_line_raw_from_mmap(line_idx) {
                    push_bytes(&mut out, raw);
                    assert(out@ =~= raw@);
                }
            },
        }
        out
    }

    /// The bytes written for the lines of the file from `from` up to `to` when
    /// it is saved. A large file is saved by ranges, one after the other.
    pub fn save_range(&self, from: usize, to: usize) -> (bytes: Vec<u8>)
        requires
            self.wf(),
            to <= self.base_lines(),
        ensures
            bytes@ == self.saved_range(from as int, to as int),
            forall|i: int| from <= i < to ==> #[trigger] self.edit_writes_as_lines(i),
    {
        let mut out: Vec<u8> = Vec::new();
        let mut i: usize = from;
        assert(out@ =~= self.saved_range(from as int, i as int));
        while i < to
            invariant
                self.wf(),
                from <= i,
                i <= to || i == from,
                to <= self.base_lines(),
                out@ == self.saved_range(from as int, i as int),
                forall|k: int| from <= k < i ==> #[trigger] self.edit_writes_as_lines(k),
            decreases to - i,
        {
            let line = self.save_line(i);
            push_bytes(&mut out, line.as_slice());
            i = i + 1;
        }
        out
    }

    /// The bytes of the saved file.
    pub fn save(&self) -> (bytes: Vec<u8>)
        requires
            self.wf(),
        ensures
            bytes@ == self.saved_bytes(),
            forall|i: int|
                0 <= i < self.base_lines() ==> #[trigger] self.edit_writes_as_lines(i),
    {
        self.save_range(0, self.base_lines_count())
    }

    /// The texts shown for line `i` of the file, with every match replaced.
    pub open spec fn replaced_rows(&self, re: Regex, replacement: Seq<char>, i: int) -> Seq<
        Seq<char>,
    > {
        Seq::new(
            self.rows_of(i).len(),
            |k: int| replaced(re, self.rows_of(i)[k].text, replacement),
        )
    }

    /// The bytes written for line `i` of the file with every match replaced:
    /// those of the lines that are shown for it.
    pub open spec fn replaced_line(&self, re: Regex, replacement: Seq<char>, i: int) -> Seq<u8> {
        self.rows_bytes(
            i,
            self.replaced_rows(re, replacement, i),
            self.rows_of(i).len() as int,
        )
    }

    /// The bytes written for the lines of the file from `from` up to `to` with
    /// every match replaced.
    pub open spec fn replaced_range(
        &self,
        re: Regex,
        replacement: Seq<char>,
        from: int,
        to: int,
    ) -> Seq<u8>
        decreases to,
    {
        if to <= from || to <= 0 {
            Seq::empty()
        } else {
            self.replaced_range(re, replacement, from, to - 1) + self.replaced_line(
                re,
                replacement,
                to - 1,
            )
        }
    }

    /// The bytes of the file as it is shown, with every match replaced.
    pub open spec fn replaced_bytes(&self, re: Regex, replacement: Seq<char>) -> Seq<u8> {
        self.replaced_range(re, replacement, 0, self.base_lines())
    }

    /// Whether each line shown for line `i` of the file that is still one line
    /// once every match is replaced is written as one.
    pub open spec fn replaced_writes_as_lines(
        &self,
        re: Regex,
        replacement: Seq<char>,
        i: int,
    ) -> bool {
        forall|k: int|
            0 <= k < self.rows_of(i).len() && is_line_text(
                #[trigger] self.replaced_rows(re, replacement, i)[k],
            ) ==> writes_as_line(self.encoding, self.replaced_rows(re, replacement, i)[k])
    }

    /// The bytes written for one line of the file with every match replaced.
    pub fn replace_line(&self, re: &Regex, replacement: &str, line_idx: usize) -> (bytes: Vec<u8>)
        requires
            self.wf(),
            line_idx < self.base_lines(),
        ensures
            bytes@ == self.replaced_line(*re, replacement@, line_idx as int),
            self.replaced_writes_as_lines(*re, replacement@, line_idx as int),
    {
        let mut out: Vec<u8> = Vec::new();
        let ghost all = self.replaced_rows(*re, replacement@, line_idx as int);
        match self.edited_lines.get(&line_idx) {
            Some(LineState::Modified(lines)) => {
                let mut j: usize = 0;
                while j < lines.len()
                    invariant
                        self.wf(),
                        self.edited_lines@.contains_key(line_idx),
                        self.edited_lines@[line_idx] == LineState::Modified(*lines),
                        all == self.replaced_rows(*re, replacement@, line_idx as int),
                        all.len() == lines@.len(),
                        j <= lines@.len(),
                        out@ == self.rows_bytes(line_idx as int, all, j as int),
                        forall|k: int|
                            0 <= k < j && is_line_text(#[trigger] all[k]) ==> writes_as_line(
                                self.encoding,
                                all[k],
                            ),
                    decreases lines@.len() - j,
                {
                    assert(self.rows_of(line_idx as int)[j as int].text == lines@[j as int]@);
                    let text = replace_all(re, lines[j].as_str(), replacement);
                    assert(text@ == all[j as int]);
                    let row = self.encode_row(line_idx, j + 1 == lines.len(), text.as_str());
                    push_bytes(&mut out, row.as_slice());
                    j = j + 1;
                }
            },
            Some(LineState::Deleted) => {},
            None => {
                proof {
                    law_known_lines_have_bytes(self, line_idx as int);
                    assert(all.len() == 1);
                    reveal_with_fuel(LargeFileEditor::rows_bytes, 2);
                }
                if let Some(line) = self.get_line_string_raw_from_mmap(line_idx) {
                    let text = replace_all(re, line.as_str(), replacement);
                    assert(text@ == all[0]);
                    out = self.encode_row(line_idx, true, text.as_str());
                    assert(out@ =~= self.rows_bytes(line_idx as int, all, 1));
                }
            },
        }
        out
    }

    /// The bytes written for the lines of the file from `from` up to `to` with
    /// every match replaced. A large file is written by ranges, one after the
    /// other.
    pub fn replace_range(&self, re: &Regex, replacement: &str, from: usize, to: usize) -> (bytes:
        Vec<u8>)
        requires
            self.wf(),
            to <= self.base_lines(),
        ensures
            bytes@ == self.replaced_range(*re, replacement@, from as int, to as int),
            forall|i: int|
                from <= i < to ==> #[trigger] self.replaced_writes_as_lines(*re, replacement@, i),
    {
        let mut out: Vec<u8> = Vec::new();
        let mut i: usize = from;
        assert(out@ =~= self.replaced_range(*re, replacement@, from as int, i as int));
        while i < to
            invariant
                self.wf(),
                from <= i,
                i <= to || i == from,
                to <= self.base_lines(),
                out@ == self.replaced_range(*re, replacement@, from as int, i as int),
                forall|k: int|
                    from <= k < i ==> #[trigger] self.replaced_writes_as_lines(
                        *re,
                        replacement@,
                        k,
                    ),
            decreases to - i,
        {
            let line = self.replace_line(re, replacement, i);
            push_bytes(&mut out, line.as_slice());
            i = i + 1;
        }
        out
    }

    /// The bytes of the file as it is shown, with every match of `pattern`
    /// replaced, or why `pattern` is no regular expression.
    pub fn batch_replace(&self, pattern: &str, replacement: &str) -> (result: Result<
        Vec<u8>,
        String,
    >)
        requires
            self.wf(),
        ensures
            match compiled(pattern@) {
                Ok(re) => {
                    &&& result matches Ok(bytes) && bytes@ == self.replaced_bytes(re, replacement@)
                    &&& forall|i: int|
                        0 <= i < self.base_lines() ==> #[trigger] self.replaced_writes_as_lines(
                            re,
                            replacement@,
                            i,
                        )
                },
                Err(error) => result matches Err(message) && message@ == error_message(error),
            },
    {
        match parse(pattern) {
            Ok(re) => Ok(self.replace_range(&re, replacement, 0, self.base_lines_count())),
            Err(message) => Err(message),
        }
    }
}

} // verus!
