//! What the window keeps between frames, and what each action of its user does
//! to that.

use crate::codec::is_line_text;
use crate::display::law_known_lines_have_bytes;
use crate::editor::{Edit, LargeFileEditor, LineState};
use crate::encoding::FileEncoding;
use crate::numbers::{decimal, digits};
use crate::pattern::{compiled, replace_in_text, replaced};
use crate::scroll::{
    clip_top, down, jump_top, key_top, law_keys_stay_in_bounds, lowest_top, max_top, up, visible_range, wheel_top,
    ScrollKeys,
};
use crate::text::{
    content_lines, is_white_space, join, join_lines, law_split_join, texts, trim_end, trim_space,
};
use vstd::prelude::*;

verus! {

/// The state of the window.
pub struct LargeFileEditorApp {
    pub selected_encoding: FileEncoding,
    pub search_pattern: String,
    pub replace_pattern: String,
    pub filter_pattern: String,
    pub create_backup: bool,
    /// The place of the line at the top of the view.
    pub scroll_top_line: usize,
    /// A place to be brought into view.
    pub scroll_to_line: Option<usize>,
    /// The line of the file that is selected for editing.
    pub editing_line_idx: Option<usize>,
    pub editing_text: String,
    pub status_message: String,
    pub status_is_error: bool,
    /// Whether the question is open what to do with unsaved changes.
    pub show_close_confirmation: bool,
    /// Whether the window may close with unsaved changes.
    pub allowed_to_close: bool,
}

/// The state of the window, with its texts as what they say.
#[verifier::ext_equal]
pub struct AppView {
    pub selected_encoding: FileEncoding,
    pub search_pattern: Seq<char>,
    pub replace_pattern: Seq<char>,
    pub filter_pattern: Seq<char>,
    pub create_backup: bool,
    pub scroll_top_line: usize,
    pub scroll_to_line: Option<usize>,
    pub editing_line_idx: Option<usize>,
    pub editing_text: Seq<char>,
    pub status_message: Seq<char>,
    pub status_is_error: bool,
    pub show_close_confirmation: bool,
    pub allowed_to_close: bool,
}

impl View for LargeFileEditorApp {
    type V = AppView;

    open spec fn view(&self) -> AppView {
        AppView {
            selected_encoding: self.selected_encoding,
            search_pattern: self.search_pattern@,
            replace_pattern: self.replace_pattern@,
            filter_pattern: self.filter_pattern@,
            create_backup: self.create_backup,
            scroll_top_line: self.scroll_top_line,
            scroll_to_line: self.scroll_to_line,
            editing_line_idx: self.editing_line_idx,
            editing_text: self.editing_text@,
            status_message: self.status_message@,
            status_is_error: self.status_is_error,
            show_close_confirmation: self.show_close_confirmation,
            allowed_to_close: self.allowed_to_close,
        }
    }
}

/// How the question about unsaved changes was answered.
#[derive(Debug, Clone, Copy, PartialEq, Eq, Structural)]
pub enum CloseAnswer {
    /// Save and close; the file was saved.
    Saved,
    /// Save and close; the file could not be saved.
    NotSaved,
    /// Close without saving.
    Discard,
    /// Do not close.
    Cancel,
}

/// How far a filter has come.
#[derive(Debug, PartialEq, Eq)]
pub enum FilterStatus {
    /// It is at work: so many lines were looked at, so many have a match.
    Searching { scanned: usize, matched: usize },
    /// Its pattern is no regular expression; this is why.
    Failed(String),
    /// It is done: so many lines have a match.
    Done { matched: usize },
}

/// What a frame shows, and whether another one has to follow at once.
#[derive(Debug, Clone, Copy, PartialEq, Eq, Structural)]
pub struct ScrollFrame {
    pub start_line: usize,
    pub end_line: usize,
    pub repaint: bool,
}

/// The line at the top of a frame: a jump comes first, then the keys, then the
/// wheel; in the end the view is held within the file.
pub open spec fn frame_top(
    top: int,
    jump: Option<usize>,
    keys: Option<ScrollKeys>,
    wheel_lines: int,
    fully_visible: int,
    max_top: int,
) -> int {
    let a = match jump {
        Some(target) => down(up(target as int, fully_visible / 2), 0, max_top),
        None => top,
    };
    let b = match keys {
        Some(keys) => keys.lead(a, fully_visible, max_top),
        None => a,
    };
    let c = if b + wheel_lines < 0 {
        0
    } else {
        down(b, wheel_lines, max_top)
    };
    down(c, 0, max_top)
}

impl AppView {
    /// With this status.
    pub open spec fn with_status(self, message: Seq<char>, is_error: bool) -> AppView {
        AppView { status_message: message, status_is_error: is_error, ..self }
    }

    /// As it is once a file was loaded: at its first line, with none selected.
    pub open spec fn at_start(self) -> AppView {
        AppView { editing_line_idx: None, scroll_top_line: 0, ..self }
    }

    /// As it is once the question about unsaved changes was answered.
    pub open spec fn answered(self, answer: CloseAnswer) -> AppView {
        match answer {
            CloseAnswer::Saved | CloseAnswer::Discard => AppView { allowed_to_close: true, ..self },
            CloseAnswer::NotSaved => self,
            CloseAnswer::Cancel => AppView { show_close_confirmation: false, ..self },
        }
    }

    /// As it is once the question was answered so many times.
    pub open spec fn answered_all(self, answers: Seq<CloseAnswer>) -> AppView
        decreases answers.len(),
    {
        if answers.len() == 0 {
            self
        } else {
            self.answered_all(answers.drop_last()).answered(answers.last())
        }
    }
}

fn message(start: &str, end: &str) -> (text: String)
    ensures
        text@ == start@ + end@,
{
    let mut text = start.to_owned();
    text.append(end);
    text
}

/// Whether the text being edited differs from the line that it came from, apart
/// from white space at the end.
pub open spec fn edit_is_pending(
    editor: &LargeFileEditor<'_>,
    line_idx: Option<usize>,
    text: Seq<char>,
) -> bool {
    line_idx matches Some(idx) && idx < editor.display_rows().len() && trim_space(
        editor.display_rows()[idx as int].text,
    ) != trim_space(text)
}

/// The text that the edit pane shows once the line shown as `line`, which comes
/// from line `orig_idx` of the file, was selected: that line, or all the lines
/// that replace it.
pub open spec fn selected_text(editor: &LargeFileEditor<'_>, orig_idx: usize, line: Seq<char>) -> Seq<
    char,
> {
    if editor.edited_lines@.contains_key(orig_idx) {
        match editor.edited_lines@[orig_idx] {
            LineState::Modified(lines) => join_lines(texts(lines@)),
            LineState::Deleted => line,
        }
    } else {
        line
    }
}

/// Whether anything is shown for line `i` of the file.
pub open spec fn is_shown(editor: &LargeFileEditor<'_>, i: int) -> bool {
    i < editor.base_lines() && editor.rows_of(i).len() > 0
}

impl Default for LargeFileEditorApp {
    fn default() -> (app: Self)
        ensures
            app@ == (AppView {
                selected_encoding: FileEncoding::Utf8,
                search_pattern: Seq::empty(),
                replace_pattern: Seq::empty(),
                filter_pattern: Seq::empty(),
                create_backup: true,
                scroll_top_line: 0,
                scroll_to_line: None,
                editing_line_idx: None,
                editing_text: Seq::empty(),
                status_message: "ファイルをオープンしてください。"@,
                status_is_error: false,
                show_close_confirmation: false,
                allowed_to_close: false,
            }),
    {
        LargeFileEditorApp {
            selected_encoding: FileEncoding::Utf8,
            search_pattern: String::new(),
            replace_pattern: String::new(),
            filter_pattern: String::new(),
            create_backup: true,
            scroll_top_line: 0,
            scroll_to_line: None,
            editing_line_idx: None,
            editing_text: String::new(),
            status_message: "ファイルをオープンしてください。".to_owned(),
            status_is_error: false,
            show_close_confirmation: false,
            allowed_to_close: false,
        }
    }
}

impl LargeFileEditorApp {
    /// The state of a window that was just opened: no file, nothing selected,
    /// UTF-8, and backups on.
    pub fn new() -> (app: Self)
        ensures
            app@ == (AppView {
                selected_encoding: FileEncoding::Utf8,
                search_pattern: Seq::empty(),
                replace_pattern: Seq::empty(),
                filter_pattern: Seq::empty(),
                create_backup: true,
                scroll_top_line: 0,
                scroll_to_line: None,
                editing_line_idx: None,
                editing_text: Seq::empty(),
                status_message: "ファイルをオープンしてください。"@,
                status_is_error: false,
                show_close_confirmation: false,
                allowed_to_close: false,
            }),
    {
        LargeFileEditorApp::default()
    }

    /// Shows a message in the status bar.
    pub fn show_status(&mut self, message: String, is_error: bool)
        ensures
            final(self)@ == old(self)@.with_status(message@, is_error),
    {
        self.status_message = message;
        self.status_is_error = is_error;
    }

    /// Whether closing now would lose something: an edit that was made, or one
    /// that is still being typed.
    pub fn has_unsaved_work(&self, editor: Option<&LargeFileEditor<'_>>) -> (unsaved: bool)
        requires
            editor matches Some(ed) ==> ed.wf(),
        ensures
            unsaved == (editor matches Some(ed) && (!ed.edited_lines@.is_empty() || edit_is_pending(
                ed,
                self.editing_line_idx,
                self.editing_text@,
            ))),
    {
        match editor {
            Some(ed) => {
                if ed.has_unsaved_changes() {
                    return true;
                }
                match self.editing_line_idx {
                    Some(line_idx) => match ed.get_line_string(line_idx) {
                        Some(line) => {
                            let before = trim_end(line.as_str()).to_owned();
                            let now = trim_end(self.editing_text.as_str()).to_owned();
                            !(before == now)
                        },
                        None => false,
                    },
                    None => false,
                }
            },
            None => false,
        }
    }

    /// Decides on a request to close the window. Where it has to be refused, the
    /// result is true, and the question is put what to do with the unsaved
    /// changes.
    pub fn refuse_close(&mut self, unsaved: bool, close_requested: bool) -> (refused: bool)
        ensures
            refused == (unsaved && close_requested && !old(self)@.allowed_to_close),
            final(self)@ == (AppView {
                show_close_confirmation: old(self)@.show_close_confirmation || refused,
                ..old(self)@
            }),
    {
        if unsaved && close_requested && !self.allowed_to_close {
            self.show_close_confirmation = true;
            true
        } else {
            false
        }
    }

    /// Takes the answer to that question. The result says whether the window is
    /// to close.
    pub fn answer_close(&mut self, answer: CloseAnswer) -> (close: bool)
        ensures
            close == (answer == CloseAnswer::Saved || answer == CloseAnswer::Discard),
            final(self)@ == old(self)@.answered(answer),
    {
        match answer {
            CloseAnswer::Saved | CloseAnswer::Discard => {
                self.allowed_to_close = true;
                true
            },
            CloseAnswer::NotSaved => false,
            CloseAnswer::Cancel => {
                self.show_close_confirmation = false;
                false
            },
        }
    }

    /// A file was opened, or could not be.
    pub fn file_opened(&mut self, path: &str, result: Result<(), String>)
        ensures
            final(self)@ == match result {
                Ok(()) => old(self)@.at_start().with_status(
                    "ファイルをロードしました: "@ + path@,
                    false,
                ),
                Err(error) => old(self)@.with_status("エラー: "@ + error@, true),
            },
    {
        match result {
            Ok(()) => {
                self.editing_line_idx = None;
                self.scroll_top_line = 0;
                self.show_status(message("ファイルをロードしました: ", path), false);
            },
            Err(error) => {
                self.show_status(message("エラー: ", error.as_str()), true);
            },
        }
    }

    /// Another encoding was selected.
    pub fn select_encoding(&mut self, encoding: FileEncoding)
        ensures
            final(self)@ == (AppView { selected_encoding: encoding, ..old(self)@ }),
    {
        self.selected_encoding = encoding;
    }

    /// The file was opened again in the encoding that was selected, or could
    /// not be.
    pub fn file_reloaded(&mut self, result: Result<(), String>)
        ensures
            final(self)@ == match result {
                Ok(()) => old(self)@.at_start().with_status(
                    "指定エンコーディングでファイルを再ロードしました。"@,
                    false,
                ),
                Err(error) => old(self)@.with_status("再ロードエラー: "@ + error@, true),
            },
    {
        match result {
            Ok(()) => {
                self.editing_line_idx = None;
                self.scroll_top_line = 0;
                self.show_status(
                    "指定エンコーディングでファイルを再ロードしました。".to_owned(),
                    false,
                );
            },
            Err(error) => {
                self.show_status(message("再ロードエラー: ", error.as_str()), true);
            },
        }
    }

    /// The file was saved, or could not be.
    pub fn file_saved(&mut self, result: Result<(), String>)
        ensures
            final(self)@ == match result {
                Ok(()) => old(self)@.with_status("保存が完了しました。"@, false),
                Err(error) => old(self)@.with_status("保存失敗: "@ + error@, true),
            },
    {
        match result {
            Ok(()) => self.show_status("保存が完了しました。".to_owned(), false),
            Err(error) => self.show_status(message("保存失敗: ", error.as_str()), true),
        }
    }

    /// The file was saved under another name, or could not be.
    pub fn file_saved_as(&mut self, path: &str, result: Result<(), String>)
        ensures
            final(self)@ == match result {
                Ok(()) => old(self)@.with_status("保存完了: "@ + path@, false),
                Err(error) => old(self)@.with_status("保存失敗: "@ + error@, true),
            },
    {
        match result {
            Ok(()) => self.show_status(message("保存完了: ", path), false),
            Err(error) => self.show_status(message("保存失敗: ", error.as_str()), true),
        }
    }

    /// Whether all matches can be replaced: there has to be a pattern.
    pub fn can_batch_replace(&mut self) -> (can: bool)
        ensures
            can == (old(self)@.search_pattern.len() > 0),
            final(self)@ == if can {
                old(self)@
            } else {
                old(self)@.with_status("検索正規表現パターンを入力してください。"@, true)
            },
    {
        if self.search_pattern.as_str().is_empty() {
            self.show_status("検索正規表現パターンを入力してください。".to_owned(), true);
            false
        } else {
            true
        }
    }

    /// The file was written with all matches replaced, or could not be.
    pub fn batch_replaced(&mut self, path: &str, result: Result<(), String>)
        ensures
            final(self)@ == match result {
                Ok(()) => old(self)@.with_status("バッチ置換・保存完了: "@ + path@, false),
                Err(error) => old(self)@.with_status("置換失敗: "@ + error@, true),
            },
    {
        match result {
            Ok(()) => self.show_status(message("バッチ置換・保存完了: ", path), false),
            Err(error) => self.show_status(message("置換失敗: ", error.as_str()), true),
        }
    }

    /// The filter was cleared.
    pub fn clear_filter(&mut self)
        ensures
            final(self)@ == (AppView { filter_pattern: Seq::empty(), ..old(self)@ }),
    {
        self.filter_pattern = String::new();
    }

    /// How far the filter has come; nothing where there is no pattern.
    pub fn filter_status(&self, editor: &LargeFileEditor<'_>) -> (status: Option<FilterStatus>)
        ensures
            if self.filter_pattern@.len() == 0 {
                status is None
            } else if !editor.filter_finished {
                status == Some(
                    FilterStatus::Searching {
                        scanned: editor.filter_progress,
                        matched: editor.filter_results.len(),
                    },
                )
            } else {
                match editor.filter_error {
                    Some(error) => status == Some(FilterStatus::Failed(error)),
                    None => status == Some(
                        FilterStatus::Done { matched: editor.filter_results.len() },
                    ),
                }
            },
    {
        if self.filter_pattern.as_str().is_empty() {
            return None;
        }
        let matched: usize = editor.filter_results.len();
        if !editor.filter_finished {
            return Some(FilterStatus::Searching { scanned: editor.filter_progress, matched });
        }
        match &editor.filter_error {
            Some(error) => Some(FilterStatus::Failed(error.clone())),
            None => Some(FilterStatus::Done { matched }),
        }
    }

    /// A result of the filter was selected, which is listed as `line`: the place
    /// at which that line of the file is shown is brought into view, and `line`
    /// can be edited. Nothing happens where it is not shown.
    pub fn select_result(&mut self, editor: &LargeFileEditor<'_>, line_idx: usize, line: String)
        requires
            editor.wf(),
            editor.display_rows().len() <= usize::MAX,
        ensures
            final(self)@ == if is_shown(editor, line_idx as int) {
                AppView {
                    scroll_to_line: Some(editor.rows_before(line_idx as int).len() as usize),
                    editing_line_idx: Some(line_idx),
                    editing_text: line@,
                    ..old(self)@
                }
            } else {
                old(self)@
            },
    {
        match editor.display_index_of(line_idx) {
            Some(place) => {
                self.scroll_to_line = Some(place);
                self.editing_line_idx = Some(line_idx);
                self.editing_text = line;
            },
            None => {},
        }
    }

    /// A line in the view was selected: the line of the file that it comes from
    /// can be edited.
    pub fn select_row(&mut self, editor: &LargeFileEditor<'_>, orig_idx: usize, line: String)
        ensures
            final(self)@ == (AppView {
                editing_line_idx: Some(orig_idx),
                editing_text: selected_text(editor, orig_idx, line@),
                ..old(self)@
            }),
    {
        self.editing_line_idx = Some(orig_idx);
        self.editing_text = match editor.edited_lines.get(&orig_idx) {
            Some(LineState::Modified(lines)) => join(lines),
            _ => line,
        };
    }

    /// The line is no longer selected.
    pub fn deselect(&mut self)
        ensures
            final(self)@ == (AppView { editing_line_idx: None, ..old(self)@ }),
    {
        self.editing_line_idx = None;
    }

    /// Replaces all matches in the text being edited. Without a pattern, or
    /// with one that is no regular expression, nothing happens.
    pub fn replace_in_edit(&mut self)
        ensures
            match (old(self)@.search_pattern.len() > 0, compiled(old(self)@.search_pattern)) {
                (true, Ok(re)) => final(self)@ == (AppView {
                    editing_text: replaced(re, old(self)@.editing_text, old(self)@.replace_pattern),
                    ..old(self)@
                }),
                _ => final(self)@ == old(self)@,
            },
    {
        if self.search_pattern.as_str().is_empty() {
            return;
        }
        match replace_in_text(
            self.search_pattern.as_str(),
            self.replace_pattern.as_str(),
            self.editing_text.as_str(),
        ) {
            Some(text) => {
                self.editing_text = text;
            },
            None => {},
        }
    }

    /// Puts the text being edited in place of a line of the file.
    pub fn apply_edit(&mut self, editor: &mut LargeFileEditor<'_>, line_idx: usize)
        requires
            old(editor).wf(),
        ensures
            final(editor).wf(),
            final(editor).same_index(old(editor)),
            final(editor).same_filter(old(editor)),
            final(editor).edited_lines@.contains_key(line_idx),
            final(editor).edited_lines@ == old(editor).edited_lines@.insert(
                line_idx,
                final(editor).edited_lines@[line_idx],
            ),
            final(editor).edited_lines@[line_idx] matches LineState::Modified(lines) && texts(
                lines@,
            ) == content_lines(old(self)@.editing_text),
            final(self)@ == old(self)@.with_status(
                digits(line_idx + 1) + "行目を更新しました (メモリ上)。"@,
                false,
            ),
    {
        editor.edit_line(line_idx, self.editing_text.clone());
        let number = decimal(line_idx as u128 + 1);
        self.show_status(message(number.as_str(), "行目を更新しました (メモリ上)。"), false);
    }

    /// Removes a line of the file; it is no longer selected.
    pub fn delete_selected(&mut self, editor: &mut LargeFileEditor<'_>, line_idx: usize)
        requires
            old(editor).wf(),
        ensures
            final(editor).wf(),
            final(editor).same_index(old(editor)),
            final(editor).same_filter(old(editor)),
            final(editor).edited_lines@ == old(editor).edited_lines@.insert(
                line_idx,
                LineState::Deleted,
            ),
            final(self)@ == (AppView { editing_line_idx: None, ..old(self)@ }).with_status(
                digits(line_idx + 1) + "行目を削除しました (メモリ上)。"@,
                false,
            ),
    {
        editor.delete_line(line_idx);
        self.editing_line_idx = None;
        let number = decimal(line_idx as u128 + 1);
        self.show_status(message(number.as_str(), "行目を削除しました (メモリ上)。"), false);
    }

    /// Moves the view as asked for since the last frame. `keys` are the keys
    /// pressed, unless they go to an input field; `wheel_lines` is by how many
    /// lines the wheel was turned.
    pub fn scroll(
        &mut self,
        total_lines: usize,
        fully_visible: usize,
        visible: usize,
        keys: Option<ScrollKeys>,
        wheel_lines: i64,
    ) -> (frame: ScrollFrame)
        ensures
            final(self)@ == (AppView {
                scroll_top_line: final(self)@.scroll_top_line,
                scroll_to_line: None,
                ..old(self)@
            }),
            ({
                let max_top = lowest_top(total_lines as int, fully_visible as int);
                let top = frame_top(
                    old(self)@.scroll_top_line as int,
                    old(self)@.scroll_to_line,
                    keys,
                    wheel_lines as int,
                    fully_visible as int,
                    max_top,
                );
                &&& final(self)@.scroll_top_line == top
                &&& final(self)@.scroll_top_line <= max_top
            }),
            frame.start_line == final(self)@.scroll_top_line,
            frame.end_line == down(frame.start_line as int, visible as int, total_lines as int),
            frame.repaint == ((keys matches Some(k) && k.any()) || wheel_lines != 0),
    {
        let max: usize = max_top(total_lines, fully_visible);
        match self.scroll_to_line {
            Some(target) => {
                self.scroll_top_line = jump_top(target, fully_visible, max);
            },
            None => {},
        }
        self.scroll_to_line = None;
        let mut repaint: bool = false;
        match keys {
            Some(pressed) => {
                let (top, scrolled) = key_top(self.scroll_top_line, pressed, fully_visible, max);
                self.scroll_top_line = top;
                repaint = scrolled;
            },
            None => {},
        }
        if wheel_lines != 0 {
            self.scroll_top_line = wheel_top(self.scroll_top_line, wheel_lines, max);
            repaint = true;
        }
        self.scroll_top_line = clip_top(self.scroll_top_line, max);
        let (start_line, end_line) = visible_range(self.scroll_top_line, visible, total_lines);
        ScrollFrame { start_line, end_line, repaint }
    }

    /// The scroll bar was dragged to where `line` is the line at the top.
    pub fn drag_to(&mut self, line: usize, total_lines: usize, fully_visible: usize)
        ensures
            final(self)@ == (AppView {
                scroll_top_line: final(self)@.scroll_top_line,
                ..old(self)@
            }),
            final(self)@.scroll_top_line == down(
                line as int,
                0,
                lowest_top(total_lines as int, fully_visible as int),
            ),
    {
        self.scroll_top_line = clip_top(line, max_top(total_lines, fully_visible));
    }
}

/// A result of a filter as it is listed: the number of the line of the file,
/// counted from one, and the first line that is shown for it, without the white
/// space at the end. With it comes that line. `None` where nothing is shown.
pub fn result_label(editor: &LargeFileEditor<'_>, line_idx: usize) -> (result: Option<
    (String, String),
>)
    requires
        editor.wf(),
    ensures
        match result {
            Some((label, line)) => {
                &&& is_shown(editor, line_idx as int)
                &&& line@ == editor.rows_of(line_idx as int)[0].text
                &&& !editor.edited_lines@.contains_key(line_idx) ==> line@ == editor.line_text(
                    line_idx as int,
                )
                &&& label@ == digits(line_idx + 1) + ": "@ + trim_space(line@)
            },
            None => !is_shown(editor, line_idx as int),
        },
{
    if line_idx >= editor.base_lines_count() {
        return None;
    }
    let line = match editor.edited_lines.get(&line_idx) {
        Some(LineState::Modified(lines)) => {
            assert(editor.edited_lines@[line_idx].wf());
            lines[0].clone()
        },
        Some(LineState::Deleted) => {
            return None;
        },
        None => {
            proof {
                law_known_lines_have_bytes(editor, line_idx as int);
            }
            match editor.get_line_string_raw_from_mmap(line_idx) {
                Some(text) => text,
                None => {
                    return None;
                },
            }
        },
    };
    let mut label = decimal(line_idx as u128 + 1);
    label.append(": ");
    label.append(trim_end(line.as_str()));
    Some((label, line))
}

/// With unsaved changes a request to close the window is refused, however often
/// the question is answered, until the answer is to discard them or to save
/// them and they were saved.
pub proof fn law_unsaved_work_is_guarded(state: AppView, answers: Seq<CloseAnswer>)
    requires
        !state.allowed_to_close,
        forall|i: int|
            0 <= i < answers.len() ==> #[trigger] answers[i] == CloseAnswer::NotSaved || answers[i]
                == CloseAnswer::Cancel,
    ensures
        !state.answered_all(answers).allowed_to_close,
    decreases answers.len(),
{
    if answers.len() > 0 {
        let front = answers.drop_last();
        assert forall|i: int| 0 <= i < front.len() implies #[trigger] front[i]
            == CloseAnswer::NotSaved || front[i] == CloseAnswer::Cancel by {
            assert(front[i] == answers[i]);
        }
        law_unsaved_work_is_guarded(state, front);
        assert(answers[answers.len() - 1] == answers.last());
    }
}

/// What a message in the status bar, a file that was loaded and an answer to the
/// question about unsaved changes change: these fields, and no others.
pub proof fn law_what_changes(
    state: AppView,
    message: Seq<char>,
    is_error: bool,
    answer: CloseAnswer,
)
    ensures
        state.with_status(message, is_error).status_message == message,
        state.with_status(message, is_error).status_is_error == is_error,
        state.at_start().scroll_top_line == 0,
        state.at_start().editing_line_idx is None,
        state.with_status(message, is_error) == (AppView {
            status_message: message,
            status_is_error: is_error,
            ..state
        }),
        state.at_start() == (AppView { scroll_top_line: 0, editing_line_idx: None, ..state }),
        answer == CloseAnswer::Saved || answer == CloseAnswer::Discard ==> state.answered(answer)
            == (AppView { allowed_to_close: true, ..state }),
        answer == CloseAnswer::NotSaved ==> state.answered(answer) == state,
        answer == CloseAnswer::Cancel ==> state.answered(answer) == (AppView {
            show_close_confirmation: false,
            ..state
        }),
{
}

/// An edit is pending just where a line is selected, is shown, and its text and
/// the one being edited differ before the white space at their ends. So white
/// space typed at the end alone makes none.
pub proof fn law_pending_edit(
    editor: &LargeFileEditor<'_>,
    idx: usize,
    text: Seq<char>,
    c: char,
)
    ensures
        !edit_is_pending(editor, None, text),
        idx >= editor.display_rows().len() ==> !edit_is_pending(editor, Some(idx), text),
        idx < editor.display_rows().len() ==> {
            &&& edit_is_pending(editor, Some(idx), text) <==> trim_space(text) != trim_space(
                editor.display_rows()[idx as int].text,
            )
            &&& !edit_is_pending(editor, Some(idx), editor.display_rows()[idx as int].text)
        },
        is_white_space(c) ==> edit_is_pending(editor, Some(idx), text.push(c)) == edit_is_pending(
            editor,
            Some(idx),
            text,
        ),
{
    assert(text.push(c).drop_last() =~= text);
}

/// A line that was replaced is edited as the lines that replace it; put back as
/// they are, they replace it again just so. Any other line is edited as it is
/// shown.
pub proof fn law_selected_text(editor: &LargeFileEditor<'_>, line: usize, shown: Seq<char>)
    requires
        editor.wf(),
    ensures
        !editor.edits().contains_key(line) ==> selected_text(editor, line, shown) == shown,
        editor.edits().contains_key(line) ==> match editor.edits()[line] {
            Edit::Replaced(rows) => content_lines(selected_text(editor, line, shown)) == rows,
            Edit::Removed => selected_text(editor, line, shown) == shown,
        },
{
    if editor.edited_lines@.contains_key(line) {
        if let LineState::Modified(lines) = editor.edited_lines@[line] {
            assert(editor.edited_lines@[line].wf());
            let rows = texts(lines@);
            assert forall|i: int| 0 <= i < rows.len() implies is_line_text(#[trigger] rows[i]) by {
                assert(rows[i] == lines@[i]@);
            }
            law_split_join(rows);
        }
    }
}

/// A line of the file is shown unless it was removed.
pub proof fn law_what_is_shown(editor: &LargeFileEditor<'_>, line: usize)
    requires
        editor.wf(),
    ensures
        is_shown(editor, line as int) <==> line < editor.base_lines() && !(
        editor.edits().contains_key(line) && editor.edits()[line] == Edit::Removed),
{
    if editor.edited_lines@.contains_key(line) {
        assert(editor.edited_lines@[line].wf());
    }
}

/// Where a frame stands. Without input it stays where it is. The wheel moves it
/// by just as many lines as it was turned, where there is room. A jump leads to
/// the line that puts its target in the middle, where there is room, and keys
/// lead where they lead by themselves. Of these a jump comes first, then the
/// keys, then the wheel. It never leaves the file.
pub proof fn law_frame(
    top: int,
    jump: Option<usize>,
    keys: Option<ScrollKeys>,
    wheel: int,
    visible: int,
    max_top: int,
)
    requires
        0 <= top <= max_top,
        0 <= visible,
    ensures
        0 <= frame_top(top, jump, keys, wheel, visible, max_top) <= max_top,
        frame_top(top, None, None, 0, visible, max_top) == top,
        0 <= top + wheel <= max_top ==> frame_top(top, None, None, wheel, visible, max_top) - top
            == wheel,
        top + wheel < 0 ==> frame_top(top, None, None, wheel, visible, max_top) == 0,
        top + wheel > max_top ==> frame_top(top, None, None, wheel, visible, max_top) == max_top,
        jump matches Some(target) ==> {
            let led = frame_top(top, jump, None, 0, visible, max_top);
            &&& 0 <= target - visible / 2 <= max_top ==> target - led == visible / 2
            &&& target - visible / 2 < 0 ==> led == 0
            &&& target - visible / 2 > max_top ==> led == max_top
        },
        keys matches Some(pressed) ==> frame_top(top, None, keys, 0, visible, max_top)
            == pressed.lead(top, visible, max_top),
        frame_top(top, jump, keys, wheel, visible, max_top) == {
            let a = frame_top(top, jump, None, 0, visible, max_top);
            let b = frame_top(a, None, keys, 0, visible, max_top);
            frame_top(b, None, None, wheel, visible, max_top)
        },
{
    let a = frame_top(top, jump, None, 0, visible, max_top);
    if let Some(pressed) = keys {
        law_keys_stay_in_bounds(pressed, top, visible, max_top);
        law_keys_stay_in_bounds(pressed, a, visible, max_top);
    }
}

/// A view that was left below the end of a file, which got shorter since, is
/// brought back to the furthest that it can be scrolled down.
pub proof fn law_view_comes_back(top: int, visible: int, max_top: int)
    requires
        0 <= max_top <= top,
        0 <= visible,
    ensures
        frame_top(top, None, None, 0, visible, max_top) == max_top,
{
}

/// The view of the window holds each of its fields, the texts as what they say.
pub proof fn law_window_is_seen(app: LargeFileEditorApp)
    ensures
        app@.selected_encoding == app.selected_encoding,
        app@.search_pattern == app.search_pattern@,
        app@.replace_pattern == app.replace_pattern@,
        app@.filter_pattern == app.filter_pattern@,
        app@.create_backup == app.create_backup,
        app@.scroll_top_line == app.scroll_top_line,
        app@.scroll_to_line == app.scroll_to_line,
        app@.editing_line_idx == app.editing_line_idx,
        app@.editing_text == app.editing_text@,
        app@.status_message == app.status_message@,
        app@.status_is_error == app.status_is_error,
        app@.show_close_confirmation == app.show_close_confirmation,
        app@.allowed_to_close == app.allowed_to_close,
{
}

} // verus!
