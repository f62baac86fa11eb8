use giant_text_editor::editor::{scan_offsets, LargeFileEditor};
use giant_text_editor::encoding::FileEncoding;
use giant_text_editor::numbers::{decimal, line_number};
use giant_text_editor::publish::{publish_steps, PublishStep};
use giant_text_editor::row_text::{
    display_prefix, highlight, highlight_segments, row_text, Segment, MAX_DISPLAY_LEN,
};
use giant_text_editor::sample_log::log_line;
use giant_text_editor::scroll::{
    clip_top, jump_top, key_top, max_top, visible_range, wheel_top, ScrollKeys,
};
use giant_text_editor::session::{
    result_label, CloseAnswer, FilterStatus, LargeFileEditorApp, ScrollFrame,
};

const NO_KEYS: ScrollKeys = ScrollKeys {
    arrow_up: false,
    arrow_down: false,
    page_up: false,
    page_down: false,
    home: false,
    end: false,
};

fn opened(bytes: &[u8]) -> LargeFileEditor<'_> {
    let mut editor = LargeFileEditor::open(bytes, FileEncoding::Utf8).unwrap();
    scan_offsets(&mut editor);
    editor
}

fn segment(start: usize, end: usize, matched: bool) -> Segment {
    Segment { start, end, matched }
}

#[test]
fn a_new_window_has_no_file() {
    let app = LargeFileEditorApp::new();
    assert_eq!(app.selected_encoding, FileEncoding::Utf8);
    assert!(app.create_backup);
    assert_eq!(app.status_message, "ファイルをオープンしてください。");
    assert!(!app.status_is_error);
    assert_eq!(app.editing_line_idx, None);
    assert!(!app.show_close_confirmation && !app.allowed_to_close);
    assert_eq!(LargeFileEditorApp::default().scroll_top_line, 0);
}

#[test]
fn last_line_is_the_last_in_view() {
    for total in [2_000_000, 16_917_062] {
        let top = max_top(total, 40);
        assert_eq!(top, total - 40);
        let (start, end) = visible_range(top, 41, total);
        assert_eq!((start, end), (total - 40, total));
        let last_line_bottom = ((total - 1 - start) as f32 + 1.0) * 20.0;
        assert!(last_line_bottom <= 800.0);
    }
    assert_eq!(max_top(10, 40), 0);
    assert_eq!(visible_range(0, 41, 10), (0, 10));
}

#[test]
fn jumps_put_the_target_in_the_middle() {
    assert_eq!(jump_top(500, 40, 960), 480);
    assert_eq!(jump_top(3, 40, 960), 0);
    assert_eq!(jump_top(999, 40, 960), 960);
}

#[test]
fn keys_scroll() {
    let key = |keys| key_top(100, keys, 40, 960);
    assert_eq!(key(NO_KEYS), (100, false));
    assert_eq!(key(ScrollKeys { arrow_up: true, ..NO_KEYS }), (99, true));
    assert_eq!(key(ScrollKeys { arrow_down: true, ..NO_KEYS }), (101, true));
    assert_eq!(key(ScrollKeys { page_up: true, ..NO_KEYS }), (60, true));
    assert_eq!(key(ScrollKeys { page_down: true, ..NO_KEYS }), (140, true));
    assert_eq!(key(ScrollKeys { home: true, ..NO_KEYS }), (0, true));
    assert_eq!(key(ScrollKeys { end: true, ..NO_KEYS }), (960, true));
    assert_eq!(key(ScrollKeys { home: true, end: true, ..NO_KEYS }), (960, true));
    assert_eq!(key_top(0, ScrollKeys { arrow_up: true, ..NO_KEYS }, 40, 960), (0, true));
    assert_eq!(key_top(950, ScrollKeys { page_down: true, ..NO_KEYS }, 40, 960), (960, true));
    assert_eq!(key_top(10, ScrollKeys { page_up: true, ..NO_KEYS }, 40, 960), (0, true));
}

#[test]
fn the_wheel_scrolls() {
    assert_eq!(wheel_top(100, 4, 960), 104);
    assert_eq!(wheel_top(100, -4, 960), 96);
    assert_eq!(wheel_top(2, -4, 960), 0);
    assert_eq!(wheel_top(959, 4, 960), 960);
    assert_eq!(wheel_top(5, i64::MIN, 960), 0);
    assert_eq!(wheel_top(5, i64::MAX, 960), 960);
    assert_eq!(clip_top(1000, 960), 960);
    assert_eq!(clip_top(10, 960), 10);
}

#[test]
fn a_frame_takes_jump_keys_and_wheel_in_turn() {
    let mut app = LargeFileEditorApp::new();
    app.scroll_to_line = Some(500);
    let keys = ScrollKeys { arrow_down: true, ..NO_KEYS };
    let frame = app.scroll(1000, 40, 42, Some(keys), 3);
    assert_eq!(frame, ScrollFrame { start_line: 484, end_line: 526, repaint: true });
    assert_eq!((app.scroll_top_line, app.scroll_to_line), (484, None));
    let frame = app.scroll(1000, 40, 42, None, 0);
    assert_eq!(frame, ScrollFrame { start_line: 484, end_line: 526, repaint: false });
    let frame = app.scroll(100, 40, 42, Some(NO_KEYS), 0);
    assert_eq!(frame, ScrollFrame { start_line: 60, end_line: 100, repaint: false });
    app.drag_to(70, 100, 40);
    assert_eq!(app.scroll_top_line, 60);
    app.drag_to(7, 100, 40);
    assert_eq!(app.scroll_top_line, 7);
}

#[test]
fn long_lines_are_cut_between_characters() {
    let short = "あ".repeat(10);
    assert_eq!(display_prefix(&short), short);
    let exact = "x".repeat(MAX_DISPLAY_LEN);
    assert_eq!(display_prefix(&exact), exact);
    let long = "あ".repeat(2000);
    assert_eq!(display_prefix(&long).len(), 3999);
    assert_eq!(display_prefix(&long), "あ".repeat(1333));
    assert_eq!(row_text("a b \u{3000}\t\u{85}"), "a b");
    assert_eq!(row_text(" \n"), "");
}

#[test]
fn matches_are_highlighted() {
    assert_eq!(
        highlight("b+", "abbcb"),
        vec![
            segment(0, 1, false),
            segment(1, 3, true),
            segment(3, 4, false),
            segment(4, 5, true),
        ]
    );
    assert_eq!(highlight("", "abc"), vec![segment(0, 3, false)]);
    assert_eq!(highlight("(", "abc"), vec![segment(0, 3, false)]);
    assert_eq!(highlight("x", "abc"), vec![segment(0, 3, false)]);
    assert_eq!(highlight("い", "あいう"), vec![
        segment(0, 3, false),
        segment(3, 6, true),
        segment(6, 9, false),
    ]);
    assert_eq!(highlight("x", ""), vec![]);
    assert_eq!(highlight("^", "ab"), vec![segment(0, 0, true), segment(0, 2, false)]);
    assert_eq!(
        highlight_segments(6, &[(1, 2), (2, 4)]),
        vec![
            segment(0, 1, false),
            segment(1, 2, true),
            segment(2, 4, true),
            segment(4, 6, false),
        ]
    );
}

#[test]
fn numbers_are_shown() {
    assert_eq!(decimal(0), "0");
    assert_eq!(decimal(10), "10");
    assert_eq!(decimal(u128::MAX), u128::MAX.to_string());
    assert_eq!(line_number(0), "     1 │ ");
    assert_eq!(line_number(999_999), "1000000 │ ");
}

#[test]
fn sample_log_lines() {
    assert_eq!(
        log_line(1),
        "Line 1: [INFO] Application is running smoothly. User session active."
    );
    assert_eq!(log_line(2500), "Line 2500: [WARN] High memory usage detected.");
    assert_eq!(log_line(10000), "Line 10000: [ERROR] Something went wrong! Code: 30000");
}

#[test]
fn unsaved_work_is_noticed() {
    let mut app = LargeFileEditorApp::new();
    assert!(!app.has_unsaved_work(None));
    let mut editor = opened(b"one  \ntwo\n");
    assert!(!app.has_unsaved_work(Some(&editor)));
    app.select_row(&editor, 0, "one  ".to_string());
    assert!(!app.has_unsaved_work(Some(&editor)));
    app.editing_text = "one".to_string();
    assert!(!app.has_unsaved_work(Some(&editor)));
    app.editing_text = "one!".to_string();
    assert!(app.has_unsaved_work(Some(&editor)));
    app.editing_line_idx = Some(7);
    assert!(!app.has_unsaved_work(Some(&editor)));
    editor.delete_line(1);
    assert!(app.has_unsaved_work(Some(&editor)));
}

#[test]
fn closing_with_unsaved_work_is_refused() {
    let mut app = LargeFileEditorApp::new();
    assert!(!app.refuse_close(false, true));
    assert!(!app.refuse_close(true, false));
    assert!(!app.show_close_confirmation);
    assert!(app.refuse_close(true, true));
    assert!(app.show_close_confirmation);
    assert!(!app.answer_close(CloseAnswer::Cancel));
    assert!(!app.show_close_confirmation);
    assert!(app.refuse_close(true, true));
    assert!(!app.answer_close(CloseAnswer::NotSaved));
    assert!(app.refuse_close(true, true));
    assert!(app.answer_close(CloseAnswer::Discard));
    assert!(!app.refuse_close(true, true));
    let mut app = LargeFileEditorApp::new();
    assert!(app.answer_close(CloseAnswer::Saved));
    assert!(app.allowed_to_close);
}

#[test]
fn messages_tell_what_happened() {
    let mut app = LargeFileEditorApp::new();
    app.editing_line_idx = Some(3);
    app.scroll_top_line = 9;
    app.file_opened("a.log", Err("no".to_string()));
    assert_eq!((app.status_message.as_str(), app.status_is_error), ("エラー: no", true));
    assert_eq!((app.editing_line_idx, app.scroll_top_line), (Some(3), 9));
    app.file_opened("a.log", Ok(()));
    assert_eq!(app.status_message, "ファイルをロードしました: a.log");
    assert_eq!((app.editing_line_idx, app.scroll_top_line), (None, 0));
    app.select_encoding(FileEncoding::ShiftJis);
    assert_eq!(app.selected_encoding, FileEncoding::ShiftJis);
    app.file_reloaded(Ok(()));
    assert_eq!(app.status_message, "指定エンコーディングでファイルを再ロードしました。");
    app.file_reloaded(Err("no".to_string()));
    assert_eq!(app.status_message, "再ロードエラー: no");
    app.file_saved(Ok(()));
    assert_eq!((app.status_message.as_str(), app.status_is_error), ("保存が完了しました。", false));
    app.file_saved(Err("full".to_string()));
    assert_eq!((app.status_message.as_str(), app.status_is_error), ("保存失敗: full", true));
    app.file_saved_as("b.log", Ok(()));
    assert_eq!(app.status_message, "保存完了: b.log");
    app.file_saved_as("b.log", Err("full".to_string()));
    assert_eq!(app.status_message, "保存失敗: full");
    app.batch_replaced("c.log", Ok(()));
    assert_eq!(app.status_message, "バッチ置換・保存完了: c.log");
    app.batch_replaced("c.log", Err("bad".to_string()));
    assert_eq!((app.status_message.as_str(), app.status_is_error), ("置換失敗: bad", true));
    assert!(!app.can_batch_replace());
    assert_eq!(app.status_message, "検索正規表現パターンを入力してください。");
    app.search_pattern = "x".to_string();
    assert!(app.can_batch_replace());
}

#[test]
fn lines_are_selected_and_edited() {
    let mut app = LargeFileEditorApp::new();
    let mut editor = opened(b"one\ntwo\nthree\n");
    app.select_row(&editor, 1, "two".to_string());
    assert_eq!((app.editing_line_idx, app.editing_text.as_str()), (Some(1), "two"));
    app.search_pattern = "t(w)".to_string();
    app.replace_pattern = "$1\n".to_string();
    app.replace_in_edit();
    assert_eq!(app.editing_text, "w\no");
    app.apply_edit(&mut editor, 1);
    assert_eq!(app.status_message, "2行目を更新しました (メモリ上)。");
    assert_eq!(editor.total_lines(), 4);
    app.editing_text = String::new();
    app.select_row(&editor, 1, "w".to_string());
    assert_eq!(app.editing_text, "w\no");
    app.search_pattern = "(".to_string();
    app.replace_in_edit();
    assert_eq!(app.editing_text, "w\no");
    app.search_pattern = String::new();
    app.replace_in_edit();
    assert_eq!(app.editing_text, "w\no");
    app.deselect();
    assert_eq!(app.editing_line_idx, None);
    app.select_row(&editor, 0, "one".to_string());
    app.delete_selected(&mut editor, 0);
    assert_eq!(app.status_message, "1行目を削除しました (メモリ上)。");
    assert_eq!(app.editing_line_idx, None);
    assert_eq!(editor.total_lines(), 3);
}

#[test]
fn filter_results_are_listed() {
    let mut app = LargeFileEditorApp::new();
    let mut editor = opened(b"one \ntwo\n");
    assert_eq!(app.filter_status(&editor), None);
    app.filter_pattern = "o".to_string();
    assert_eq!(
        app.filter_status(&editor),
        Some(FilterStatus::Searching { scanned: 0, matched: 0 })
    );
    editor.run_filter("o");
    assert_eq!(app.filter_status(&editor), Some(FilterStatus::Done { matched: 2 }));
    let (label, line) = result_label(&editor, editor.filter_results[0]).unwrap();
    assert_eq!((label.as_str(), line.as_str()), ("1: one", "one "));
    assert_eq!(result_label(&editor, 2), None);
    app.select_result(&editor, 0, line);
    assert_eq!((app.scroll_to_line, app.editing_line_idx), (Some(0), Some(0)));
    assert_eq!(app.editing_text, "one ");
    editor.run_filter("(");
    assert!(matches!(app.filter_status(&editor), Some(FilterStatus::Failed(_))));
    app.clear_filter();
    assert_eq!(app.filter_pattern, "");
}

#[test]
fn every_line_can_be_brought_into_view() {
    for total in 1..30 {
        for line in 0..total {
            let top = clip_top(line, max_top(total, 7));
            assert!(top <= line && line < top + 7);
            let top = jump_top(line, 7, max_top(total, 7));
            assert!(top <= line && line < top + 7);
        }
    }
}

#[test]
fn the_old_file_is_kept_as_a_backup() {
    for (backup, kept) in [(true, Some("old")), (false, Some("older"))] {
        let mut files = std::collections::BTreeMap::from([
            ("a.log", "old"),
            ("a.bak", "older"),
            ("a.tmp_save", "new"),
        ]);
        for step in publish_steps(backup, files.contains_key("a.log")) {
            let (from, to) = match step {
                PublishStep::KeepBackup => ("a.log", "a.bak"),
                PublishStep::Replace => ("a.tmp_save", "a.log"),
            };
            let content = files.remove(from).unwrap();
            files.insert(to, content);
        }
        assert_eq!(files.get("a.log").copied(), Some("new"));
        assert_eq!(files.get("a.bak").copied(), kept);
        assert_eq!(files.get("a.tmp_save"), None);
    }
}

#[test]
fn filter_results_are_found_under_edits() {
    let mut app = LargeFileEditorApp::new();
    let mut editor = opened(b"1\n2\nhit\nhit too\n");
    editor.edit_line(0, "x\ny\nz".to_string());
    editor.delete_line(1);
    editor.edit_line(3, "no\nhit".to_string());
    editor.run_filter("hit");
    assert_eq!(editor.filter_results, vec![2, 3]);
    let (label, line) = result_label(&editor, 2).unwrap();
    assert_eq!((label.as_str(), line.as_str()), ("3: hit", "hit"));
    app.select_result(&editor, 2, line);
    assert_eq!((app.scroll_to_line, app.editing_line_idx), (Some(3), Some(2)));
    assert_eq!(app.editing_text, "hit");
    assert_eq!(editor.get_line_string(3).unwrap(), "hit");
    let (label, line) = result_label(&editor, 3).unwrap();
    assert_eq!((label.as_str(), line.as_str()), ("4: no", "no"));
    app.select_result(&editor, 3, line);
    assert_eq!((app.scroll_to_line, app.editing_line_idx), (Some(4), Some(3)));
    assert_eq!(app.editing_text, "no");
    assert_eq!(result_label(&editor, 1), None);
    app.select_result(&editor, 1, "2".to_string());
    assert_eq!(app.editing_line_idx, Some(3));
}

#[test]
fn a_result_names_one_line() {
    let mut app = LargeFileEditorApp::new();
    let mut editor = opened(b"a\n");
    editor.edit_line(0, "x\ny".to_string());
    let (label, line) = result_label(&editor, 0).unwrap();
    assert_eq!((label.as_str(), line.as_str()), ("1: x", "x"));
    app.select_result(&editor, 0, line);
    assert_eq!(app.editing_text, "x");
}

#[test]
fn files_are_put_in_place() {
    assert_eq!(publish_steps(true, true), vec![PublishStep::KeepBackup, PublishStep::Replace]);
    assert_eq!(publish_steps(true, false), vec![PublishStep::Replace]);
    assert_eq!(publish_steps(false, true), vec![PublishStep::Replace]);
}
