//! From the lines of the file and the edits to the lines that are shown.

use crate::editor::{DisplayRow, LargeFileEditor, LineState};
use crate::scan::law_line_starts_exact;
use vstd::prelude::*;
use vstd::std_specs::btree::increasing_seq;

verus! {

/// `entries` lists the edits in `edits` by increasing line number.
pub open spec fn lists_edits(
    entries: Seq<(&usize, &LineState)>,
    edits: Map<usize, LineState>,
) -> bool {
    &&& forall|i: int, j: int|
        0 <= i < j < entries.len() ==> *(#[trigger] entries[i]).0 < *(#[trigger] entries[j]).0
    &&& forall|i: int|
        0 <= i < entries.len() ==> edits.contains_key(*(#[trigger] entries[i]).0)
            && edits[*entries[i].0] == *entries[i].1
    &&& forall|k: usize| #[trigger]
        edits.contains_key(k) ==> exists|i: int|
            0 <= i < entries.len() && *(#[trigger] entries[i]).0 == k
}

proof fn lemma_increasing(keys: Seq<usize>)
    requires
        increasing_seq(keys),
    ensures
        forall|i: int, j: int| 0 <= i < j < keys.len() ==> keys[i] < keys[j],
{
    assert(vstd::laws_cmp::obeys_cmp::<usize>());
    assert forall|i: int, j: int| 0 <= i < j < keys.len() implies keys[i] < keys[j] by {
        assert(vstd::std_specs::cmp::OrdSpec::cmp_spec(&keys[i], &keys[j]) is Less);
    }
}

/// `entries` is what a walk through `edits` goes by.
spec fn walks_edits(entries: Seq<(&usize, &LineState)>, edits: Map<usize, LineState>) -> bool {
    &&& increasing_seq(entries.map_values(|kv: (&usize, &LineState)| *kv.0))
    &&& forall|i: int|
        0 <= i < entries.len() ==> edits.contains_key(*(#[trigger] entries[i]).0)
            && edits[*entries[i].0] == *entries[i].1
    &&& forall|k: usize| #[trigger]
        edits.contains_key(k) ==> entries.contains((&k, &edits[k]))
}

proof fn lemma_lists_edits(entries: Seq<(&usize, &LineState)>, edits: Map<usize, LineState>)
    requires
        walks_edits(entries, edits),
    ensures
        lists_edits(entries, edits),
{
    let keys = entries.map_values(|kv: (&usize, &LineState)| *kv.0);
    lemma_increasing(keys);
    assert forall|i: int, j: int| 0 <= i < j < entries.len() implies *(#[trigger] entries[i]).0
        < *(#[trigger] entries[j]).0 by {
        assert(keys[i] < keys[j]);
    }
    assert forall|k: usize| #[trigger] edits.contains_key(k) implies exists|i: int|
        0 <= i < entries.len() && *(#[trigger] entries[i]).0 == k by {
        let i = choose|i: int| 0 <= i < entries.len() && entries[i] == (&k, &edits[k]);
        assert(*entries[i].0 == k);
    }
}

/// Every line whose end is known has bytes, one at least.
pub proof fn law_known_lines_have_bytes(editor: &LargeFileEditor<'_>, i: int)
    requires
        editor.wf(),
        0 <= i < editor.base_lines(),
    ensures
        editor.raw_line(i) is Some,
        editor.raw_line(i)->0.len() > 0,
{
    law_line_starts_exact(editor.mmap@, editor.encoding, editor.scan_progress + 1);
    assert(editor.line_offsets@[i] < editor.file_size);
}

/// The lines shown for the first lines of the file come first, whatever
/// follows.
pub proof fn lemma_rows_grow(editor: &LargeFileEditor<'_>, a: int, b: int)
    requires
        0 <= a <= b,
    ensures
        editor.rows_before(a).len() <= editor.rows_before(b).len(),
        forall|d: int|
            0 <= d < editor.rows_before(a).len() ==> #[trigger] editor.rows_before(b)[d]
                == editor.rows_before(a)[d],
    decreases b - a,
{
    if a < b {
        lemma_rows_grow(editor, a, b - 1);
    }
}

/// Where no line was edited, each line of the file is shown as itself.
pub proof fn lemma_unedited_rows(editor: &LargeFileEditor<'_>, a: int, b: int)
    requires
        0 <= a <= b <= usize::MAX + 1,
        forall|i: int|
            a <= i < b ==> !#[trigger] editor.edited_lines@.contains_key(i as usize),
    ensures
        editor.rows_before(b).len() == editor.rows_before(a).len() + (b - a),
        forall|k: int|
            a <= k < b ==> #[trigger] editor.rows_before(b)[editor.rows_before(a).len() + (k - a)]
                == (DisplayRow { orig: k, text: editor.line_text(k), edited: false }),
    decreases b - a,
{
    if a < b {
        lemma_unedited_rows(editor, a, b - 1);
        assert(!editor.edited_lines@.contains_key((b - 1) as usize));
        assert forall|k: int| a <= k < b implies #[trigger] editor.rows_before(
            b,
        )[editor.rows_before(a).len() + (k - a)] == (DisplayRow {
            orig: k,
            text: editor.line_text(k),
            edited: false,
        }) by {
            if k < b - 1 {
                assert(editor.rows_before(b - 1)[editor.rows_before(a).len() + (k - a)] == (
                DisplayRow { orig: k, text: editor.line_text(k), edited: false }));
            }
        }
    }
}

proof fn lemma_gap(
    entries: Seq<(&usize, &LineState)>,
    edits: Map<usize, LineState>,
    n: int,
    a: int,
    b: int,
)
    requires
        lists_edits(entries, edits),
        0 <= n <= entries.len(),
        0 <= a <= b <= usize::MAX + 1,
        forall|i: int| 0 <= i < n ==> *(#[trigger] entries[i]).0 < a || *entries[i].0 >= b,
        forall|i: int| n <= i < entries.len() ==> *(#[trigger] entries[i]).0 >= b,
    ensures
        forall|i: int| a <= i < b ==> !#[trigger] edits.contains_key(i as usize),
{
    assert forall|i: int| a <= i < b implies !#[trigger] edits.contains_key(i as usize) by {
        if edits.contains_key(i as usize) {
            let e = choose|e: int|
                0 <= e < entries.len() && *(#[trigger] entries[e]).0 == i as usize;
            assert(*entries[e].0 == i);
        }
    }
}

impl<'a> LargeFileEditor<'a> {
    /// The number of lines shown for the first `n` lines of the file.
    fn count_rows(&self, n: usize) -> (count: usize)
        requires
            self.wf(),
            n <= self.base_lines(),
            self.rows_before(n as int).len() <= usize::MAX,
        ensures
            count == self.rows_before(n as int).len(),
    {
        let mut total: u128 = n as u128;
        let ghost mut done: int = 0;
        for (orig_idx, state) in it: self.edited_lines.iter()
            invariant
                self.wf(),
                n <= self.base_lines(),
                self.rows_before(n as int).len() <= usize::MAX,
                walks_edits(it.seq(), self.edited_lines@),
                0 <= done <= n,
                forall|i: int|
                    0 <= i < it.index() ==> *(#[trigger] it.seq()[i]).0 < done
                        || *it.seq()[i].0 >= n,
                forall|i: int| it.index() <= i < it.seq().len() ==> *(#[trigger] it.seq()[i]).0
                    >= done,
                forall|k: usize| #[trigger]
                    self.edited_lines@.contains_key(k) && done <= k < n ==> exists|i: int|
                        it.index() <= i < it.seq().len() && *(#[trigger] it.seq()[i]).0 == k,
                total == self.rows_before(done).len() + (n - done),
        {
            proof {
                lemma_lists_edits(it.seq(), self.edited_lines@);
            }
            if *orig_idx < n {
                let ghost k = *orig_idx as int;
                proof {
                    lemma_gap(it.seq(), self.edited_lines@, it.index() as int, done, k);
                    lemma_unedited_rows(self, done, k);
                    lemma_rows_grow(self, k + 1, n as int);
                    assert(self.rows_before(k + 1) == self.rows_before(k) + self.rows_of(k));
                    done = k + 1;
                }
                match state {
                    LineState::Modified(lines) => {
                        total = total - 1 + lines.len() as u128;
                    },
                    LineState::Deleted => {
                        total = total - 1;
                    },
                }
            }
        }
        proof {
            assert forall|i: int| done <= i < n implies !#[trigger] self.edited_lines@.contains_key(
                i as usize,
            ) by {}
            lemma_unedited_rows(self, done, n as int);
        }
        total as usize
    }

    /// The number of lines shown: those of the file whose end is known, more
    /// or fewer by what the edits added or removed.
    pub fn total_lines(&self) -> (total: usize)
        requires
            self.wf(),
            self.display_rows().len() <= usize::MAX,
        ensures
            total == self.display_rows().len(),
    {
        self.count_rows(self.base_lines_count())
    }

    /// The place at which line `orig` of the file is shown, the first one where
    /// it was replaced by several lines. `None` where it is not shown.
    pub fn display_index_of(&self, orig: usize) -> (place: Option<usize>)
        requires
            self.wf(),
            self.display_rows().len() <= usize::MAX,
        ensures
            match place {
                Some(d) => {
                    &&& orig < self.base_lines()
                    &&& self.rows_of(orig as int).len() > 0
                    &&& d == self.rows_before(orig as int).len()
                    &&& d < self.display_rows().len()
                    &&& self.display_rows()[d as int] == self.rows_of(orig as int)[0]
                },
                None => orig >= self.base_lines() || self.rows_of(orig as int).len() == 0,
            },
    {
        if orig >= self.base_lines_count() {
            return None;
        }
        match self.edited_lines.get(&orig) {
            Some(LineState::Deleted) => {
                return None;
            },
            Some(LineState::Modified(lines)) => {
                assert(self.edited_lines@[orig].wf());
            },
            None => {},
        }
        proof {
            lemma_rows_grow(self, orig as int, self.base_lines());
            lemma_rows_grow(self, orig + 1, self.base_lines());
            assert(self.rows_before(orig + 1) == self.rows_before(orig as int) + self.rows_of(
                orig as int,
            ));
            assert(self.rows_before(orig + 1)[self.rows_before(orig as int).len() as int]
                == self.rows_of(orig as int)[0]);
        }
        Some(self.count_rows(orig))
    }

    /// The line shown at `display_idx`: the line of the file that it comes
    /// from, its text, and whether it was edited.
    pub fn get_display_line(&self, display_idx: usize) -> (row: Option<(usize, String, bool)>)
        requires
            self.wf(),
        ensures
            match row {
                Some((orig, text, edited)) => {
                    &&& display_idx < self.display_rows().len()
                    &&& self.display_rows()[display_idx as int] == (DisplayRow {
                        orig: orig as int,
                        text: text@,
                        edited,
                    })
                },
                None => display_idx >= self.display_rows().len(),
            },
    {
        let base_lines: usize = self.base_lines_count();
        let mut curr_disp: usize = 0;
        let mut curr_orig: usize = 0;
        for (orig_idx, state) in it: self.edited_lines.iter()
            invariant
                self.wf(),
                base_lines == self.base_lines(),
                walks_edits(it.seq(), self.edited_lines@),
                curr_orig <= base_lines,
                forall|i: int|
                    0 <= i < it.index() ==> *(#[trigger] it.seq()[i]).0 < curr_orig
                        || *it.seq()[i].0 >= base_lines,
                forall|i: int| it.index() <= i < it.seq().len() ==> *(#[trigger] it.seq()[i]).0
                    >= curr_orig,
                forall|k: usize| #[trigger]
                    self.edited_lines@.contains_key(k) && curr_orig <= k < base_lines
                        ==> exists|i: int|
                        it.index() <= i < it.seq().len() && *(#[trigger] it.seq()[i]).0 == k,
                curr_disp == self.rows_before(curr_orig as int).len(),
                curr_disp <= display_idx,
        {
            proof {
                lemma_lists_edits(it.seq(), self.edited_lines@);
            }
            if *orig_idx < base_lines {
                let unedited_count: usize = *orig_idx - curr_orig;
                let ghost k = *orig_idx as int;
                proof {
                    lemma_gap(it.seq(), self.edited_lines@, it.index() as int, curr_orig as int, k);
                    lemma_unedited_rows(self, curr_orig as int, k);
                    lemma_rows_grow(self, k, base_lines as int);
                    lemma_rows_grow(self, k + 1, base_lines as int);
                    assert(self.rows_before(k + 1) == self.rows_before(k) + self.rows_of(k));
                }
                if display_idx - curr_disp < unedited_count {
                    let target: usize = curr_orig + (display_idx - curr_disp);
                    proof {
                        law_known_lines_have_bytes(self, target as int);
                        assert(self.rows_before(k)[curr_disp + (target - curr_orig)] == (
                        DisplayRow {
                            orig: target as int,
                            text: self.line_text(target as int),
                            edited: false,
                        }));
                    }
                    return match self.get_line_string_raw_from_mmap(target) {
                        Some(text) => Some((target, text, false)),
                        None => None,
                    };
                }
                curr_disp = curr_disp + unedited_count;
                match state {
                    LineState::Modified(lines) => {
                        if display_idx - curr_disp < lines.len() {
                            let sub_idx: usize = display_idx - curr_disp;
                            proof {
                                assert(self.rows_before(k + 1)[display_idx as int] == self.rows_of(
                                    k,
                                )[sub_idx as int]);
                            }
                            return Some((*orig_idx, lines[sub_idx].clone(), true));
                        }
                        curr_disp = curr_disp + lines.len();
                    },
                    LineState::Deleted => {},
                }
                curr_orig = *orig_idx + 1;
            }
        }
        proof {
            assert forall|i: int| curr_orig <= i < base_lines implies !(
            #[trigger] self.edited_lines@.contains_key(i as usize)) by {}
            lemma_unedited_rows(self, curr_orig as int, base_lines as int);
        }
        if display_idx - curr_disp < base_lines - curr_orig {
            let target: usize = curr_orig + (display_idx - curr_disp);
            proof {
                law_known_lines_have_bytes(self, target as int);
                assert(self.rows_before(base_lines as int)[curr_disp + (target - curr_orig)] == (
                DisplayRow {
                    orig: target as int,
                    text: self.line_text(target as int),
                    edited: false,
                }));
            }
            return match self.get_line_string_raw_from_mmap(target) {
                Some(text) => Some((target, text, false)),
                None => None,
            };
        }
        None
    }

    /// The text of the line shown at `display_idx`.
    pub fn get_line_string(&self, display_idx: usize) -> (text: Option<String>)
        requires
            self.wf(),
        ensures
            match text {
                Some(s) => display_idx < self.display_rows().len()
                    && self.display_rows()[display_idx as int].text == s@,
                None => display_idx >= self.display_rows().len(),
            },
    {
        match self.get_display_line(display_idx) {
            Some((_, text, _)) => Some(text),
            None => None,
        }
    }

    /// The lines shown from `start_line` up to `end_line`, as far as there are
    /// any: of each its place, the line of the file that it comes from, its
    /// text, and whether it was edited.
    pub fn get_display_lines_batch(&self, start_line: usize, end_line: usize) -> (rows: Vec<
        (usize, usize, String, bool),
    >)
        requires
            self.wf(),
        ensures
            rows@.len() == if start_line < end_line && start_line < self.display_rows().len() {
                if end_line < self.display_rows().len() {
                    end_line - start_line
                } else {
                    self.display_rows().len() - start_line
                }
            } else {
                0
            },
            forall|k: int|
                0 <= k < rows@.len() ==> {
                    let row = #[trigger] rows@[k];
                    &&& row.0 == start_line + k
                    &&& self.display_rows()[start_line + k] == (DisplayRow {
                        orig: row.1 as int,
                        text: row.2@,
                        edited: row.3,
                    })
                },
    {
        let mut rows: Vec<(usize, usize, String, bool)> = Vec::new();
        let mut idx: usize = start_line;
        while idx < end_line
            invariant
                self.wf(),
                start_line <= idx,
                idx <= end_line || idx == start_line,
                rows@.len() == if idx <= self.display_rows().len() {
                    idx - start_line
                } else if start_line < self.display_rows().len() {
                    self.display_rows().len() - start_line
                } else {
                    0
                },
                forall|k: int|
                    0 <= k < rows@.len() ==> {
                        let row = #[trigger] rows@[k];
                        &&& row.0 == start_line + k
                        &&& self.display_rows()[start_line + k] == (DisplayRow {
                            orig: row.1 as int,
                            text: row.2@,
                            edited: row.3,
                        })
                    },
            decreases end_line - idx,
        {
            match self.get_display_line(idx) {
                Some((orig_idx, text, edited)) => {
                    rows.push((idx, orig_idx, text, edited));
                },
                None => {},
            }
            idx = idx + 1;
        }
        rows
    }
}

} // verus!
