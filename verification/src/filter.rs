//! Filtering the lines of a file by a pattern, one line at a time, while the
//! file may still be scanned.

use crate::editor::{LargeFileEditor, LineState};
use crate::pattern::{compiled, error_message, finds_match, is_match, parse};
use regex::Regex;
use vstd::prelude::*;

verus! {

/// A filter at work: what it looks for, the next line to look at, and its
/// number, by which one that another has taken the place of is told apart.
pub struct LineFilter {
    pub re: Regex,
    pub current_line: usize,
    pub number: u64,
}

/// What a step of a filter leaves to be done.
#[derive(Debug, Clone, Copy, PartialEq, Eq, Structural)]
pub enum FilterStep {
    /// Take the next step.
    Continue,
    /// Wait for the scan to find more lines, then take the next step.
    Wait,
    /// Nothing: the filter is done, or was cancelled.
    Done,
}

/// What is seen of a filter.
#[verifier::ext_equal]
pub struct FilterView {
    /// The lines that have a match, as far as they were found.
    pub results: Seq<usize>,
    /// How many lines were looked at, as it was last told.
    pub progress: int,
    /// Whether it is done.
    pub finished: bool,
    /// Why its pattern is no regular expression, if it is none.
    pub error: Option<Seq<char>>,
}

/// What a filter looks for, and the next line to look at.
#[verifier::ext_equal]
pub struct FilterWork {
    pub re: Regex,
    pub line: int,
}

/// The current filter: what is seen of it, what it does where it is at work, and
/// its number.
#[verifier::ext_equal]
pub struct FilterRun {
    pub seen: FilterView,
    pub work: Option<FilterWork>,
    pub number: u64,
}

/// The number of the filter after the one with this number.
pub open spec fn next_number(number: u64) -> u64 {
    if number == u64::MAX {
        0
    } else {
        (number + 1) as u64
    }
}

/// A filter that was just started.
pub open spec fn started(number: u64, pattern: Seq<char>) -> FilterRun {
    let fresh = FilterView { results: Seq::empty(), progress: 0, finished: false, error: None };
    if pattern.len() == 0 {
        FilterRun { seen: FilterView { finished: true, ..fresh }, work: None, number }
    } else {
        match compiled(pattern) {
            Ok(re) => FilterRun { seen: fresh, work: Some(FilterWork { re, line: 0 }), number },
            Err(error) => FilterRun {
                seen: FilterView { finished: true, error: Some(error_message(error)), ..fresh },
                work: None,
                number,
            },
        }
    }
}

/// Every how many lines the progress of a filter is told.
pub const PROGRESS_INTERVAL: usize = 1000;

/// Whether one of `lines` has a match.
pub open spec fn any_matches(re: Regex, lines: Seq<String>) -> bool {
    exists|j: int| 0 <= j < lines.len() && finds_match(re, (#[trigger] lines[j])@)
}

impl<'a> LargeFileEditor<'a> {
    /// Whether line `i` of the file has a match, in the state that the edits
    /// left it in.
    pub open spec fn line_matches(&self, re: Regex, i: int) -> bool {
        if self.edited_lines@.contains_key(i as usize) {
            match self.edited_lines@[i as usize] {
                LineState::Modified(lines) => any_matches(re, lines@),
                LineState::Deleted => false,
            }
        } else {
            self.raw_line(i) is Some && finds_match(re, self.line_text(i))
        }
    }

    /// The lines below `n` that have a match, in increasing order.
    pub open spec fn matching_lines(&self, re: Regex, n: int) -> Seq<usize>
        decreases n,
    {
        if n <= 0 {
            Seq::empty()
        } else if self.line_matches(re, n - 1) {
            self.matching_lines(re, n - 1).push((n - 1) as usize)
        } else {
            self.matching_lines(re, n - 1)
        }
    }

    /// What is seen of the filter.
    pub open spec fn filter_view(&self) -> FilterView {
        FilterView {
            results: self.filter_results@,
            progress: self.filter_progress as int,
            finished: self.filter_finished,
            error: match self.filter_error {
                Some(message) => Some(message@),
                None => None,
            },
        }
    }

    /// The filter, with what there is of it at work.
    pub open spec fn filter_run(&self, filter: Option<LineFilter>) -> FilterRun {
        FilterRun {
            seen: self.filter_view(),
            work: match filter {
                Some(f) => Some(FilterWork { re: f.re, line: f.current_line as int }),
                None => None,
            },
            number: self.filter_number,
        }
    }

    /// A filter after one more step: the next line was looked at, if its end is
    /// known. At the end of the file, or where it was cancelled, it is done.
    pub open spec fn stepped(&self, run: FilterRun, cancelled: bool) -> FilterRun {
        match run.work {
            Some(FilterWork { re, line }) => if cancelled || (line >= self.base_lines() && self.scan_finished) {
                FilterRun {
                    seen: FilterView { progress: line, finished: true, ..run.seen },
                    ..run
                }
            } else if line >= self.base_lines() {
                run
            } else {
                FilterRun {
                    seen: FilterView {
                        results: if self.line_matches(re, line) {
                            run.seen.results.push(line as usize)
                        } else {
                            run.seen.results
                        },
                        progress: if (line + 1) % (PROGRESS_INTERVAL as int) == 0 {
                            line + 1
                        } else {
                            run.seen.progress
                        },
                        ..run.seen
                    },
                    work: Some(FilterWork { re, line: line + 1 }),
                    number: run.number,
                }
            },
            None => run,
        }
    }

    /// Gives the filter a number of its own, so that no earlier one goes on.
    fn new_number(&mut self)
        requires
            old(self).wf(),
        ensures
            final(self).wf(),
            final(self).same_document(old(self)),
            final(self).filter_view() == old(self).filter_view(),
            final(self).filter_error == old(self).filter_error,
            final(self).filter_number == next_number(old(self).filter_number),
    {
        self.filter_number = if self.filter_number == u64::MAX {
            0
        } else {
            self.filter_number + 1
        };
    }

    /// Drops the results of any earlier filter and starts a new one that looks
    /// for `pattern`; where that is an error, the filter ends with it.
    pub fn begin_filter(&mut self, pattern: Result<Regex, String>) -> (filter: Option<LineFilter>)
        requires
            old(self).wf(),
        ensures
            final(self).wf(),
            final(self).same_document(old(self)),
            final(self).filter_results@ == Seq::<usize>::empty(),
            final(self).filter_progress == 0,
            final(self).filter_number == next_number(old(self).filter_number),
            match pattern {
                Ok(re) => {
                    &&& filter == Some(
                        LineFilter { re, current_line: 0, number: final(self).filter_number },
                    )
                    &&& !final(self).filter_finished
                    &&& final(self).filter_error is None
                },
                Err(message) => {
                    &&& filter is None
                    &&& final(self).filter_finished
                    &&& final(self).filter_error == Some(message)
                },
            },
    {
        self.filter_results = Vec::new();
        self.filter_progress = 0;
        self.filter_finished = false;
        self.filter_error = None;
        self.new_number();
        match pattern {
            Ok(re) => Some(LineFilter { re, current_line: 0, number: self.filter_number }),
            Err(message) => {
                self.filter_error = Some(message);
                self.filter_finished = true;
                None
            },
        }
    }

    /// Drops the results of any earlier filter and starts a new one. With an
    /// empty pattern there is nothing to do; with one that is no regular
    /// expression the filter ends with an error.
    pub fn start_filter(&mut self, pattern: &str) -> (filter: Option<LineFilter>)
        requires
            old(self).wf(),
        ensures
            final(self).wf(),
            final(self).same_document(old(self)),
            final(self).filter_run(filter) == started(
                next_number(old(self).filter_number),
                pattern@,
            ),
            filter matches Some(f) ==> f.number == final(self).filter_number,
    {
        if pattern.is_empty() {
            self.filter_results = Vec::new();
            self.filter_progress = 0;
            self.filter_finished = true;
            self.filter_error = None;
            self.new_number();
            return None;
        }
        self.begin_filter(parse(pattern))
    }

    /// Whether a line of the file has a match.
    pub fn check_line(&self, re: &Regex, line_idx: usize) -> (found: bool)
        requires
            self.wf(),
        ensures
            found == self.line_matches(*re, line_idx as int),
    {
        match self.edited_lines.get(&line_idx) {
            Some(LineState::Modified(lines)) => {
                let mut j: usize = 0;
                while j < lines.len()
                    invariant
                        self.edited_lines@.contains_key(line_idx),
                        self.edited_lines@[line_idx] == LineState::Modified(*lines),
                        j <= lines@.len(),
                        forall|k: int| 0 <= k < j ==> !finds_match(*re, (#[trigger] lines@[k])@),
                    decreases lines@.len() - j,
                {
                    if is_match(re, lines[j].as_str()) {
                        assert(any_matches(*re, lines@));
                        return true;
                    }
                    j = j + 1;
                }
                false
            },
            Some(LineState::Deleted) => false,
            None => {
                match self.get_line_string_raw_from_mmap(line_idx) {
                    Some(text) => is_match(re, text.as_str()),
                    None => false,
                }
            },
        }
    }

    /// Takes down whether the next line of the file has a match, and goes on to
    /// the line after it.
    pub fn record_line(&mut self, filter: &mut LineFilter, found: bool)
        requires
            old(self).wf(),
            old(filter).current_line < usize::MAX,
            old(filter).number == old(self).filter_number,
        ensures
            final(self).wf(),
            final(self).same_document(old(self)),
            final(self).filter_error == old(self).filter_error,
            final(self).filter_finished == old(self).filter_finished,
            final(self).filter_number == old(self).filter_number,
            final(filter).re == old(filter).re,
            final(filter).number == old(filter).number,
            final(filter).current_line == old(filter).current_line + 1,
            final(self).filter_results@ == if found {
                old(self).filter_results@.push(old(filter).current_line)
            } else {
                old(self).filter_results@
            },
            final(self).filter_progress == if (old(filter).current_line + 1) % (
            PROGRESS_INTERVAL as int) == 0 {
                old(filter).current_line + 1
            } else {
                old(self).filter_progress as int
            },
    {
        if found {
            self.filter_results.push(filter.current_line);
        }
        filter.current_line = filter.current_line + 1;
        if filter.current_line % PROGRESS_INTERVAL == 0 {
            self.filter_progress = filter.current_line;
        }
    }

    /// One step of a filter: the next line is looked at, if its end is known. A
    /// filter that another has taken the place of is done and changes nothing.
    pub fn filter_step(&mut self, filter: &mut LineFilter, cancelled: bool) -> (step: FilterStep)
        requires
            old(self).wf(),
        ensures
            final(self).wf(),
            final(self).same_document(old(self)),
            final(filter).number == old(filter).number,
            old(filter).number == old(self).filter_number ==> {
                &&& final(self).filter_run(Some(*final(filter))) == old(self).stepped(
                    old(self).filter_run(Some(*old(filter))),
                    cancelled,
                )
                &&& step == if cancelled || (old(filter).current_line >= old(self).base_lines()
                    && old(self).scan_finished) {
                    FilterStep::Done
                } else if old(filter).current_line >= old(self).base_lines() {
                    FilterStep::Wait
                } else {
                    FilterStep::Continue
                }
            },
            old(filter).number != old(self).filter_number ==> {
                &&& step == FilterStep::Done
                &&& final(self).same_filter(old(self))
                &&& *final(filter) == *old(filter)
            },
    {
        if filter.number != self.filter_number {
            return FilterStep::Done;
        }
        let line: usize = filter.current_line;
        let safe_max_line: usize = self.base_lines_count();
        if cancelled || (line >= safe_max_line && self.scan_finished) {
            self.filter_progress = line;
            self.filter_finished = true;
            return FilterStep::Done;
        }
        if line >= safe_max_line {
            return FilterStep::Wait;
        }
        let found: bool = self.check_line(&filter.re, line);
        self.record_line(filter, found);
        FilterStep::Continue
    }

    /// Runs a filter over a file that is scanned to its end: the results are
    /// the lines that have a match, all of them and no others.
    pub fn run_filter(&mut self, pattern: &str)
        requires
            old(self).wf(),
            old(self).scan_finished,
        ensures
            final(self).wf(),
            final(self).same_document(old(self)),
            final(self).filter_finished,
            pattern@.len() == 0 ==> {
                &&& final(self).filter_results@ == Seq::<usize>::empty()
                &&& final(self).filter_progress == 0
                &&& final(self).filter_error is None
            },
            pattern@.len() > 0 ==> match compiled(pattern@) {
                Ok(re) => {
                    &&& final(self).filter_results@ == old(self).matching_lines(
                        re,
                        old(self).base_lines(),
                    )
                    &&& final(self).filter_progress == old(self).base_lines()
                    &&& final(self).filter_error is None
                },
                Err(error) => {
                    &&& final(self).filter_results@ == Seq::<usize>::empty()
                    &&& final(self).filter_progress == 0
                    &&& final(self).filter_error matches Some(message) && message@
                        == error_message(error)
                },
            },
    {
        let ghost start = *self;
        match self.start_filter(pattern) {
            Some(filter) => {
                let mut filter = filter;
                let ghost re = filter.re;
                loop
                    invariant
                        self.wf(),
                        self.same_document(&start),
                        start.wf(),
                        start.scan_finished,
                        filter.re == re,
                        filter.number == self.filter_number,
                        filter.current_line <= start.base_lines(),
                        self.filter_view().error is None,
                        self.filter_results@ == start.matching_lines(
                            re,
                            filter.current_line as int,
                        ),
                    ensures
                        self.wf(),
                        self.same_document(&start),
                        self.filter_finished,
                        self.filter_view().error is None,
                        self.filter_results@ == start.matching_lines(re, start.base_lines()),
                        self.filter_progress == start.base_lines(),
                    decreases start.base_lines() - filter.current_line,
                {
                    let ghost line = filter.current_line as int;
                    let ghost before = *self;
                    proof {
                        assert(before.line_matches(re, line) == start.line_matches(re, line));
                    }
                    let step = self.filter_step(&mut filter, false);
                    if step == FilterStep::Done {
                        break;
                    }
                }
            },
            None => {},
        }
    }
}

/// A call that has to do with filters.
#[verifier::ext_equal]
pub enum FilterCall<'a> {
    /// Start a new one, with this pattern.
    Start(Seq<char>),
    /// Take a step of the one with this number, in the file as it is then,
    /// unless cancelled.
    Step(LargeFileEditor<'a>, u64, bool),
}

/// The current filter after all these calls.
pub open spec fn after_calls<'a>(run: FilterRun, calls: Seq<FilterCall<'a>>) -> FilterRun
    decreases calls.len(),
{
    if calls.len() == 0 {
        run
    } else {
        let before = after_calls(run, calls.drop_last());
        match calls.last() {
            FilterCall::Start(pattern) => started(next_number(before.number), pattern),
            FilterCall::Step(editor, number, cancelled) => if number == before.number {
                editor.stepped(before, cancelled)
            } else {
                before
            },
        }
    }
}

/// A filter that took these steps, each in the file as it was then, unless
/// cancelled.
pub open spec fn after_steps<'a>(run: FilterRun, steps: Seq<(LargeFileEditor<'a>, bool)>) -> FilterRun
    decreases steps.len(),
{
    if steps.len() == 0 {
        run
    } else {
        steps.last().0.stepped(after_steps(run, steps.drop_last()), steps.last().1)
    }
}

/// The steps among `calls` that are those of the filter with this number.
pub open spec fn own_steps<'a>(calls: Seq<FilterCall<'a>>, number: u64) -> Seq<
    (LargeFileEditor<'a>, bool),
>
    decreases calls.len(),
{
    if calls.len() == 0 {
        Seq::empty()
    } else {
        let before = own_steps(calls.drop_last(), number);
        match calls.last() {
            FilterCall::Start(_) => before,
            FilterCall::Step(editor, own, cancelled) => if own == number {
                before.push((editor, cancelled))
            } else {
                before
            },
        }
    }
}

/// What is seen of a filter does not depend on its number.
proof fn lemma_number_unseen<'a>(
    a: u64,
    b: u64,
    pattern: Seq<char>,
    steps: Seq<(LargeFileEditor<'a>, bool)>,
)
    ensures
        after_steps(started(a, pattern), steps) == (FilterRun {
            number: a,
            ..after_steps(started(b, pattern), steps)
        }),
    decreases steps.len(),
{
    if steps.len() > 0 {
        lemma_number_unseen(a, b, pattern, steps.drop_last());
    }
}

/// A new filter gives what it alone would give: whatever was called before it
/// was started, whether or not an earlier filter was done, and whatever steps of
/// earlier ones are still taken, nothing of that remains or is added later.
pub proof fn law_new_filter_forgets_the_old<'a>(
    run: FilterRun,
    earlier: Seq<FilterCall<'a>>,
    pattern: Seq<char>,
    later: Seq<FilterCall<'a>>,
    any: u64,
)
    requires
        forall|i: int| 0 <= i < later.len() ==> (#[trigger] later[i]) is Step,
    ensures
        ({
            let number = next_number(after_calls(run, earlier).number);
            let end = after_calls(run, earlier + seq![FilterCall::Start(pattern)] + later);
            let alone = after_steps(started(any, pattern), own_steps(later, number));
            end.number == number && end.seen == alone.seen && end.work == alone.work
        }),
    decreases later.len(),
{
    let start = seq![FilterCall::<'a>::Start(pattern)];
    let number = next_number(after_calls(run, earlier).number);
    if later.len() == 0 {
        assert((earlier + start + later).drop_last() =~= earlier);
        assert((earlier + start + later).last() == FilterCall::<'a>::Start(pattern));
    } else {
        let front = later.drop_last();
        assert forall|i: int| 0 <= i < front.len() implies (#[trigger] front[i]) is Step by {
            assert(front[i] == later[i]);
        }
        law_new_filter_forgets_the_old(run, earlier, pattern, front, any);
        assert((earlier + start + later).drop_last() =~= earlier + start + front);
        assert((earlier + start + later).last() == later.last());
        assert(later[later.len() - 1] is Step);
        let own = own_steps(front, number);
        if let FilterCall::Step(editor, by_number, cancelled) = later.last() {
            if by_number == number {
                assert(own_steps(later, number) == own.push((editor, cancelled)));
                assert(own.push((editor, cancelled)).drop_last() =~= own);
            }
        }
    }
    lemma_number_unseen(any, number, pattern, own_steps(later, number));
}

/// The results of a filter are in increasing order, each once: exactly the
/// lines that have a match.
pub proof fn law_matching_lines_exact(editor: &LargeFileEditor<'_>, re: Regex, n: int)
    requires
        0 <= n <= usize::MAX + 1,
    ensures
        forall|i: int, j: int|
            0 <= i < j < editor.matching_lines(re, n).len() ==> editor.matching_lines(re, n)[i]
                < editor.matching_lines(re, n)[j],
        forall|i: int|
            0 <= i < editor.matching_lines(re, n).len() ==> {
                let line = #[trigger] editor.matching_lines(re, n)[i];
                line < n && editor.line_matches(re, line as int)
            },
        forall|line: int|
            0 <= line < n && #[trigger] editor.line_matches(re, line) ==> editor.matching_lines(
                re,
                n,
            ).contains(line as usize),
    decreases n,
{
    if n > 0 {
        law_matching_lines_exact(editor, re, n - 1);
        let before = editor.matching_lines(re, n - 1);
        let now = editor.matching_lines(re, n);
        assert forall|line: int| 0 <= line < n && #[trigger] editor.line_matches(
            re,
            line,
        ) implies now.contains(line as usize) by {
            if line < n - 1 {
                let i = choose|i: int| 0 <= i < before.len() && before[i] == line as usize;
                assert(now[i] == line as usize);
            } else {
                assert(now[now.len() - 1] == line as usize);
            }
        }
    }
}

/// Each filter has the number after the one before it, and no two filters in a
/// row have the same; after the last number they start over.
pub proof fn law_numbers_differ(a: u64, b: u64)
    ensures
        next_number(a) != a,
        a < u64::MAX ==> next_number(a) == a + 1,
        a == u64::MAX ==> next_number(a) == 0,
        next_number(a) == next_number(b) ==> a == b,
{
}

/// What is seen of a filter is what the editor holds of it, and at work is the
/// filter that is given.
pub proof fn law_filter_is_seen(editor: &LargeFileEditor<'_>, filter: LineFilter)
    ensures
        editor.filter_view().results == editor.filter_results@,
        editor.filter_view().progress == editor.filter_progress,
        editor.filter_view().finished == editor.filter_finished,
        editor.filter_view().error is Some == editor.filter_error is Some,
        editor.filter_error matches Some(message) ==> editor.filter_view().error == Some(message@),
        editor.filter_run(None).work is None,
        editor.filter_run(Some(filter)).work == Some(
            FilterWork { re: filter.re, line: filter.current_line as int },
        ),
        editor.filter_run(Some(filter)).seen == editor.filter_view(),
        editor.filter_run(Some(filter)).number == editor.filter_number,
{
}

} // verus!
