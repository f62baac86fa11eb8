use giant_text_editor::editor::{scan_offsets, LargeFileEditor, LineState, OpenError};
use giant_text_editor::encoding::FileEncoding;
use giant_text_editor::filter::FilterStep;
use giant_text_editor::scan::{scan_chunk, CHUNK_SIZE};

fn opened(bytes: &[u8], encoding: FileEncoding) -> LargeFileEditor<'_> {
    let mut editor = LargeFileEditor::open(bytes, encoding).unwrap();
    scan_offsets(&mut editor);
    editor
}

fn utf16(text: &str, big_endian: bool) -> Vec<u8> {
    text.encode_utf16()
        .flat_map(|unit| if big_endian { unit.to_be_bytes() } else { unit.to_le_bytes() })
        .collect()
}

fn shown(editor: &LargeFileEditor<'_>) -> Vec<String> {
    (0..editor.total_lines()).map(|i| editor.get_line_string(i).unwrap()).collect()
}

#[test]
fn test_utf8_load_and_search() {
    let content = "Hello World\nこんにちは 世界\nRust Programming\nLine with ERROR in it\n";
    let mut editor = LargeFileEditor::open(content.as_bytes(), FileEncoding::Utf8).unwrap();
    scan_offsets(&mut editor);
    assert!(editor.scan_finished);

    assert_eq!(editor.total_lines(), 4);
    assert_eq!(editor.get_line_string(0).unwrap(), "Hello World");
    assert_eq!(editor.get_line_string(1).unwrap(), "こんにちは 世界");

    let mut filter = editor.start_filter("ERROR").unwrap();
    while editor.filter_step(&mut filter, false) != FilterStep::Done {}
    assert!(editor.filter_finished);

    let results = &editor.filter_results;
    assert_eq!(results.len(), 1);
    assert_eq!(results[0], 3);
}

#[test]
fn test_shift_jis_load() {
    let sjis_encoder = encoding_rs::SHIFT_JIS;
    let (bytes, _, _) = sjis_encoder.encode("こんにちは 世界\n改行テスト\n");

    let editor = opened(&bytes, FileEncoding::ShiftJis);

    assert_eq!(editor.total_lines(), 2);
    assert_eq!(editor.get_line_string(0).unwrap(), "こんにちは 世界");
    assert_eq!(editor.get_line_string(1).unwrap(), "改行テスト");
}

#[test]
fn test_batch_replace() {
    let content = "log level: INFO\nlog level: ERROR\nlog level: INFO\n";
    let editor = opened(content.as_bytes(), FileEncoding::Utf8);

    let dest = editor.batch_replace("INFO", "DEBUG").unwrap();

    let new_editor = opened(&dest, FileEncoding::Utf8);
    assert_eq!(new_editor.total_lines(), 3);
    assert_eq!(new_editor.get_line_string(0).unwrap(), "log level: DEBUG");
    assert_eq!(new_editor.get_line_string(2).unwrap(), "log level: DEBUG");
}

#[test]
fn test_multiline_edit_and_line_count() {
    let content = "Line 1\nLine 2\nLine 3\n";
    let mut editor = opened(content.as_bytes(), FileEncoding::Utf8);

    assert_eq!(editor.total_lines(), 3);

    editor.edit_line(1, "Line 2-A\nLine 2-B\nLine 2-C".to_string());

    assert_eq!(editor.total_lines(), 5);

    assert_eq!(editor.get_line_string(0).unwrap(), "Line 1");
    assert_eq!(editor.get_line_string(1).unwrap(), "Line 2-A");
    assert_eq!(editor.get_line_string(2).unwrap(), "Line 2-B");
    assert_eq!(editor.get_line_string(3).unwrap(), "Line 2-C");
    assert_eq!(editor.get_line_string(4).unwrap(), "Line 3");

    let batch = editor.get_display_lines_batch(0, 5);
    assert_eq!(batch.len(), 5);
    assert_eq!(batch[1].2, "Line 2-A");
    assert_eq!(batch[1].3, true);
    assert_eq!(batch[4].2, "Line 3");
    assert_eq!(batch[4].3, false);

    editor.delete_line(2);
    assert_eq!(editor.total_lines(), 4);
    assert_eq!(editor.get_line_string(3).unwrap(), "Line 2-C");
}

#[test]
fn test_multiline_save() {
    let content = "First\nSecond\nThird\n";
    let mut editor = opened(content.as_bytes(), FileEncoding::Utf8);

    editor.edit_line(0, "Header 1\nHeader 2".to_string());
    editor.edit_line(1, "Modified Second".to_string());

    let save_file = editor.save();

    let reloaded = opened(&save_file, FileEncoding::Utf8);
    assert_eq!(reloaded.total_lines(), 4);
    assert_eq!(reloaded.get_line_string(0).unwrap(), "Header 1");
    assert_eq!(reloaded.get_line_string(1).unwrap(), "Header 2");
    assert_eq!(reloaded.get_line_string(2).unwrap(), "Modified Second");
    assert_eq!(reloaded.get_line_string(3).unwrap(), "Third");
}

#[test]
fn empty_file_is_refused() {
    let result = LargeFileEditor::open(&[], FileEncoding::Utf8);
    assert!(matches!(result, Err(OpenError::EmptyFile)));
    assert_eq!(
        OpenError::EmptyFile.message(),
        "Empty files are not supported via mmap. Please use a regular text editor for empty files."
    );
}

#[test]
fn nothing_is_shown_before_the_scan() {
    let mut editor = LargeFileEditor::open(b"a\nb", FileEncoding::Utf8).unwrap();
    assert_eq!(editor.base_lines_count(), 0);
    assert_eq!(editor.total_lines(), 0);
    assert_eq!(editor.get_line_raw(0), None);
    assert_eq!(editor.get_line_string(0), None);
    scan_offsets(&mut editor);
    assert_eq!(editor.line_offsets, vec![0, 2]);
    assert_eq!(editor.get_line_raw(0), Some(&b"a\n"[..]));
    assert_eq!(editor.get_line_raw(1), Some(&b"b"[..]));
    assert_eq!(editor.get_line_raw(2), None);
}

#[test]
fn last_line_feed_starts_no_line() {
    assert_eq!(opened(b"a\n", FileEncoding::Utf8).line_offsets, vec![0]);
    assert_eq!(opened(b"\n\n", FileEncoding::Utf8).line_offsets, vec![0, 1]);
    assert_eq!(opened(b"a", FileEncoding::Utf8).line_offsets, vec![0]);
}

#[test]
fn scan_goes_by_chunks() {
    let mut bytes = vec![b'x'; CHUNK_SIZE + 10];
    bytes[CHUNK_SIZE - 1] = b'\n';
    bytes[CHUNK_SIZE + 3] = b'\n';
    let first = scan_chunk(&bytes, FileEncoding::Utf8, 0);
    assert_eq!((first.start, first.end), (0, CHUNK_SIZE));
    assert_eq!(first.offsets, vec![CHUNK_SIZE]);
    let mut editor = LargeFileEditor::open(&bytes, FileEncoding::Utf8).unwrap();
    assert!(editor.admits_chunk(&first));
    editor.apply_chunk(first);
    assert!(!editor.scan_finished);
    assert_eq!(editor.scan_progress, CHUNK_SIZE);
    assert_eq!(editor.base_lines_count(), 1);
    assert_eq!(editor.get_line_raw(0).unwrap().len(), CHUNK_SIZE);
    assert_eq!(editor.get_line_raw(1), None);
    let mut filter = editor.start_filter("x").unwrap();
    assert_eq!(editor.filter_step(&mut filter, false), FilterStep::Continue);
    assert_eq!(editor.filter_step(&mut filter, false), FilterStep::Wait);
    let second = scan_chunk(&bytes, FileEncoding::Utf8, CHUNK_SIZE);
    assert_eq!(second.offsets, vec![CHUNK_SIZE + 4]);
    editor.apply_chunk(second);
    assert!(editor.scan_finished);
    assert_eq!(editor.base_lines_count(), 3);
    while editor.filter_step(&mut filter, false) != FilterStep::Done {}
    assert_eq!(editor.filter_results, vec![0, 1, 2]);
    let mut whole = opened(&bytes, FileEncoding::Utf8);
    whole.run_filter("x");
    assert_eq!(whole.filter_results, editor.filter_results);
}

#[test]
fn utf16_files_are_read() {
    for big_endian in [false, true] {
        let encoding = if big_endian { FileEncoding::Utf16Be } else { FileEncoding::Utf16Le };
        // U+0A0A holds two bytes that look like line feeds.
        let bytes = utf16("一行\r\n\u{a0a}二\nend", big_endian);
        let editor = opened(&bytes, encoding);
        assert_eq!(shown(&editor), vec!["一行", "\u{a0a}二", "end"]);
        assert_eq!(editor.line_offsets, vec![0, 8, 14]);
    }
}

#[test]
fn byte_order_mark_is_not_shown() {
    let editor = opened(b"\xEF\xBB\xBFabc\nd\n", FileEncoding::Utf8);
    assert_eq!(editor.get_line_string(0).unwrap(), "abc");
    let bytes = utf16("\u{feff}abc", false);
    let editor = opened(&bytes, FileEncoding::Utf16Le);
    assert_eq!(editor.get_line_string(0).unwrap(), "abc");
}

#[test]
fn malformed_bytes_are_shown_as_replacement_characters() {
    let editor = opened(b"a\xFFb\n", FileEncoding::Utf8);
    assert_eq!(editor.get_line_string(0).unwrap(), "a\u{fffd}b");
}

#[test]
fn all_line_breaks_at_the_end_are_trimmed() {
    let editor = opened(b"a\r\r\nb\r", FileEncoding::Utf8);
    assert_eq!(shown(&editor), vec!["a", "b"]);
}

#[test]
fn edits_split_at_line_feeds() {
    let mut editor = opened(b"a\nb\n", FileEncoding::Utf8);
    assert!(!editor.has_unsaved_changes());
    editor.edit_line(0, "x\r\ny\r\r\n".to_string());
    assert!(editor.has_unsaved_changes());
    assert_eq!(
        editor.edited_lines.get(&0),
        Some(&LineState::Modified(vec!["x".to_string(), "y".to_string(), String::new()]))
    );
    assert_eq!(shown(&editor), vec!["x", "y", "", "b"]);
    let row = editor.get_display_line(3).unwrap();
    assert_eq!(row, (1, "b".to_string(), false));
    assert_eq!(editor.get_display_line(4), None);
}

#[test]
fn edits_change_one_line() {
    let mut editor = opened(b"1\n2\n3\n4\n", FileEncoding::Utf8);
    editor.edit_line(2, "x\ny".to_string());
    assert_eq!(shown(&editor), vec!["1", "2", "x", "y", "4"]);
    editor.delete_line(0);
    assert_eq!(shown(&editor), vec!["2", "x", "y", "4"]);
    editor.delete_line(2);
    assert_eq!(shown(&editor), vec!["2", "4"]);
    // An edit beyond the file is kept but not shown.
    editor.edit_line(9, "z".to_string());
    assert_eq!(shown(&editor), vec!["2", "4"]);
    assert_eq!(editor.save(), b"2\n4\n");
    let rows: Vec<usize> = editor.get_display_lines_batch(0, 9).iter().map(|row| row.1).collect();
    assert_eq!(rows, vec![1, 3]);
}

#[test]
fn save_without_edits_keeps_every_byte() {
    let bytes = b"a\r\nb\r\r\n\n\xFF\xFE\x00c";
    assert_eq!(opened(bytes, FileEncoding::Utf8).save(), bytes);
    assert_eq!(opened(bytes, FileEncoding::ShiftJis).save(), bytes);
    assert_eq!(opened(bytes, FileEncoding::Utf16Le).save(), bytes);
}

#[test]
fn save_by_ranges_is_save() {
    let mut editor = opened(b"1\r\n2\n3", FileEncoding::Utf8);
    editor.edit_line(1, "x\ny".to_string());
    let mut parts = editor.save_range(0, 1);
    parts.extend(editor.save_range(1, 3));
    assert_eq!(parts, editor.save());
    assert_eq!(editor.save(), b"1\r\nx\ny\n3");
    assert_eq!(editor.save_line(1), b"x\ny\n");
    assert_eq!(editor.save_range(2, 1), b"");
}

#[test]
fn edited_last_line_without_break() {
    let mut editor = opened(b"a\nb", FileEncoding::Utf8);
    editor.edit_line(1, "x\ny".to_string());
    assert_eq!(editor.save(), b"a\nx\ny");
    editor.edit_line(1, "x\n".to_string());
    assert_eq!(editor.save(), b"a\nx\n");
    assert_eq!(editor.total_lines(), 3);
    let saved = editor.save();
    assert_eq!(opened(&saved, FileEncoding::Utf8).total_lines(), 2);
    let mut editor = opened(b"a\r\nb", FileEncoding::Utf8);
    editor.edit_line(1, "x\ny".to_string());
    assert_eq!(editor.save(), b"a\r\nx\r\ny");
    let mut editor = opened(b"b", FileEncoding::Utf8);
    editor.edit_line(0, "x\ny".to_string());
    assert_eq!(editor.save(), b"x\r\ny");
    let bytes = utf16("a\nb", true);
    let mut editor = opened(&bytes, FileEncoding::Utf16Be);
    editor.edit_line(1, "x\ny".to_string());
    assert_eq!(editor.save(), utf16("a\nx\ny", true));
}

#[test]
fn saved_shift_jis_is_read_again() {
    let (bytes, _, _) = encoding_rs::SHIFT_JIS.encode("一\r\n二\r\n");
    let mut editor = opened(&bytes, FileEncoding::ShiftJis);
    editor.edit_line(0, "表示\nソ".to_string());
    let saved = editor.save();
    let reloaded = opened(&saved, FileEncoding::ShiftJis);
    assert_eq!(shown(&reloaded), vec!["表示", "ソ", "二"]);
    assert_eq!(&saved[..6], &[0x95, 0x5C, 0x8E, 0xA6, 0x0D, 0x0A]);
}

#[test]
fn unmappable_characters_are_written_as_references() {
    let mut editor = opened(b"a\n", FileEncoding::ShiftJis);
    editor.edit_line(0, "\u{1f680}".to_string());
    assert_eq!(editor.save(), b"&#128640;\n");
}

#[test]
fn edits_of_utf16_are_written_in_utf16() {
    let bytes = [0x41, 0x00, 0x0A, 0x00, 0x43, 0x00, 0x0A, 0x00];
    let mut editor = opened(&bytes, FileEncoding::Utf16Le);
    editor.edit_line(0, "B".to_string());
    let saved = editor.save();
    assert_eq!(saved, [0x42, 0x00, 0x0A, 0x00, 0x43, 0x00, 0x0A, 0x00]);
    assert_eq!(shown(&opened(&saved, FileEncoding::Utf16Le)), vec!["B", "C"]);
    for big_endian in [false, true] {
        let encoding = if big_endian { FileEncoding::Utf16Be } else { FileEncoding::Utf16Le };
        let bytes = utf16("一\r\n二\r\n", big_endian);
        let mut editor = opened(&bytes, encoding);
        editor.edit_line(0, "é\u{1f680}\n\u{a0a}\u{d0d}".to_string());
        let saved = editor.save();
        assert_eq!(saved, utf16("é\u{1f680}\r\n\u{a0a}\u{d0d}\r\n二\r\n", big_endian));
        assert_eq!(
            shown(&opened(&saved, encoding)),
            vec!["é\u{1f680}", "\u{a0a}\u{d0d}", "二"]
        );
        let written = editor.batch_replace("二", "三\u{10ffff}").unwrap();
        assert_eq!(
            shown(&opened(&written, encoding)),
            vec!["é\u{1f680}", "\u{a0a}\u{d0d}", "三\u{10ffff}"]
        );
    }
}

#[test]
fn edits_that_start_with_a_mark_lose_it() {
    let mut editor = opened(b"a\n", FileEncoding::Utf8);
    editor.edit_line(0, "\u{feff}x".to_string());
    let saved = editor.save();
    assert_eq!(opened(&saved, FileEncoding::Utf8).get_line_string(0).unwrap(), "x");
}

#[test]
fn filter_looks_at_edits() {
    let mut editor = opened(b"one\ntwo\nthree\nfour\n", FileEncoding::Utf8);
    editor.edit_line(0, "x\ntwo".to_string());
    editor.delete_line(1);
    editor.run_filter("^t");
    assert_eq!(editor.filter_results, vec![0, 2]);
    assert_eq!(editor.filter_progress, 4);
    assert!(editor.filter_finished);
    assert_eq!(editor.filter_error, None);
    assert!(editor.check_line(&regex::Regex::new("four").unwrap(), 3));
    assert!(!editor.check_line(&regex::Regex::new("two").unwrap(), 1));
    assert!(!editor.check_line(&regex::Regex::new("").unwrap(), 4));
}

#[test]
fn filter_without_pattern_is_done_at_once() {
    let mut editor = opened(b"a\n", FileEncoding::Utf8);
    editor.run_filter("a");
    assert_eq!(editor.filter_results, vec![0]);
    assert!(editor.start_filter("").is_none());
    assert!(editor.filter_finished);
    assert!(editor.filter_results.is_empty());
    assert_eq!(editor.filter_progress, 0);
}

#[test]
fn filter_with_a_bad_pattern_fails() {
    let mut editor = opened(b"a\n", FileEncoding::Utf8);
    assert!(editor.start_filter("(").is_none());
    assert!(editor.filter_finished);
    let expected = regex::Regex::new("(").unwrap_err().to_string();
    assert_eq!(editor.filter_error, Some(expected));
    assert!(editor.begin_filter(Err("no".to_string())).is_none());
    assert_eq!(editor.filter_error, Some("no".to_string()));
}

#[test]
fn filter_can_be_cancelled() {
    let mut editor = opened(b"a\nb\n", FileEncoding::Utf8);
    let mut filter = editor.start_filter("a").unwrap();
    assert_eq!(editor.filter_step(&mut filter, false), FilterStep::Continue);
    assert_eq!(editor.filter_step(&mut filter, true), FilterStep::Done);
    assert_eq!(editor.filter_results, vec![0]);
    assert_eq!(editor.filter_progress, 1);
    assert!(editor.filter_finished);
}

#[test]
fn filter_tells_its_progress_now_and_then() {
    let mut editor = opened(b"a\n", FileEncoding::Utf8);
    let re = regex::Regex::new("a").unwrap();
    let mut filter = editor.begin_filter(Ok(re)).unwrap();
    filter.current_line = 998;
    editor.record_line(&mut filter, true);
    assert_eq!((filter.current_line, editor.filter_progress), (999, 0));
    editor.record_line(&mut filter, false);
    assert_eq!((filter.current_line, editor.filter_progress), (1000, 1000));
    assert_eq!(editor.filter_results, vec![998]);
}

#[test]
fn replacement_keeps_line_breaks() {
    let editor = opened(b"a1\r\nb2\nc3", FileEncoding::Utf8);
    assert_eq!(editor.batch_replace("[0-9]", "<$0>").unwrap(), b"a<1>\r\nb<2>\nc<3>");
    assert_eq!(editor.encode_row(0, true, "z"), b"z\r\n");
    assert_eq!(editor.encode_row(2, true, "z"), b"z");
    assert_eq!(editor.encode_row(2, false, "z"), b"z\r\n");
    let re = regex::Regex::new("[abc]").unwrap();
    assert_eq!(editor.replace_line(&re, "", 1), b"2\n");
    let mut parts = editor.replace_range(&re, "", 0, 2);
    parts.extend(editor.replace_range(&re, "", 2, 3));
    assert_eq!(parts, b"1\r\n2\n3");
}

#[test]
fn replacement_keeps_edited_lines_apart() {
    let mut editor = opened(b"a\n", FileEncoding::Utf8);
    editor.edit_line(0, "x\ny\nz".to_string());
    let written = editor.batch_replace("q", "r").unwrap();
    assert_eq!(written, b"x\ny\nz\n");
    assert_eq!(shown(&opened(&written, FileEncoding::Utf8)), vec!["x", "y", "z"]);
    let mut editor = opened(b"1\r\n2\n3", FileEncoding::Utf8);
    editor.edit_line(0, "x\ny".to_string());
    editor.delete_line(1);
    editor.edit_line(2, "z\nx".to_string());
    assert_eq!(editor.batch_replace("x", "w").unwrap(), b"w\r\ny\r\nz\r\nw");
}

#[test]
fn replacement_with_a_bad_pattern_fails() {
    let editor = opened(b"a\n", FileEncoding::Utf8);
    let expected = regex::Regex::new("[").unwrap_err().to_string();
    assert_eq!(editor.batch_replace("[", ""), Err(expected));
}

#[test]
fn replaced_shift_jis_is_read_again() {
    let (bytes, _, _) = encoding_rs::SHIFT_JIS.encode("表1\n表2\n");
    let editor = opened(&bytes, FileEncoding::ShiftJis);
    let written = editor.batch_replace("表", "裏").unwrap();
    assert_eq!(shown(&opened(&written, FileEncoding::ShiftJis)), vec!["裏1", "裏2"]);
}

#[test]
fn the_last_edit_of_a_line_wins() {
    let state = |edits: &[(usize, Option<&str>)]| {
        let mut editor = opened(b"1\n2\n3\n", FileEncoding::Utf8);
        for (line, text) in edits {
            match text {
                Some(text) => editor.edit_line(*line, text.to_string()),
                None => editor.delete_line(*line),
            }
        }
        editor.edited_lines
    };
    assert_eq!(state(&[(0, Some("a")), (0, Some("b\nc"))]), state(&[(0, Some("b\nc"))]));
    assert_eq!(state(&[(0, None), (0, Some("b"))]), state(&[(0, Some("b"))]));
    assert_eq!(state(&[(0, Some("b")), (0, None)]), state(&[(0, None)]));
    assert_eq!(
        state(&[(0, Some("a")), (2, Some("b"))]),
        state(&[(2, Some("b")), (0, Some("a"))])
    );
}

#[test]
fn a_new_filter_forgets_the_old_one() {
    let mut editor = opened(b"ab\nb\na\n", FileEncoding::Utf8);
    let mut filter = editor.start_filter("a").unwrap();
    editor.filter_step(&mut filter, false);
    assert_eq!(editor.filter_results, vec![0]);
    let mut filter = editor.start_filter("b").unwrap();
    while editor.filter_step(&mut filter, false) != FilterStep::Done {}
    let mut alone = opened(b"ab\nb\na\n", FileEncoding::Utf8);
    alone.run_filter("b");
    assert_eq!(editor.filter_results, vec![0, 1]);
    assert_eq!(editor.filter_results, alone.filter_results);
    assert_eq!(editor.filter_progress, alone.filter_progress);
    assert_eq!(editor.filter_error, alone.filter_error);
    editor.start_filter("(");
    assert!(editor.filter_error.is_some());
    editor.run_filter("b");
    assert_eq!(editor.filter_error, None);
}

#[test]
fn lines_of_the_file_have_a_place() {
    let mut editor = opened(b"1\n2\n3\n4\n", FileEncoding::Utf8);
    assert_eq!(editor.display_index_of(2), Some(2));
    editor.edit_line(0, "x\ny\nz".to_string());
    editor.delete_line(1);
    assert_eq!(editor.display_index_of(0), Some(0));
    assert_eq!(editor.display_index_of(1), None);
    assert_eq!(editor.display_index_of(2), Some(3));
    assert_eq!(editor.display_index_of(3), Some(4));
    assert_eq!(editor.display_index_of(4), None);
    editor.edit_line(9, "w".to_string());
    assert_eq!(editor.display_index_of(9), None);
}

#[test]
fn a_stale_filter_changes_nothing() {
    let mut editor = opened(b"ab\nb\na\n", FileEncoding::Utf8);
    let mut stale = editor.start_filter("a").unwrap();
    let mut filter = editor.start_filter("b").unwrap();
    assert_eq!(editor.filter_step(&mut stale, false), FilterStep::Done);
    assert_eq!(editor.filter_step(&mut stale, true), FilterStep::Done);
    assert!(!editor.filter_finished && editor.filter_results.is_empty());
    assert_eq!(stale.current_line, 0);
    while editor.filter_step(&mut filter, false) != FilterStep::Done {
        editor.filter_step(&mut stale, false);
    }
    assert_eq!(editor.filter_results, vec![0, 1]);
    assert!(editor.start_filter("").is_none());
    assert_eq!(editor.filter_step(&mut filter, false), FilterStep::Done);
    assert!(editor.filter_results.is_empty());
}

#[test]
fn ascii_edits_come_back_in_shift_jis() {
    let mut editor = opened(b"a\r\nb\r\n", FileEncoding::ShiftJis);
    editor.edit_line(0, "C:\\dir ~\nx".to_string());
    let saved = editor.save();
    assert_eq!(saved, b"C:\\dir ~\r\nx\r\nb\r\n");
    assert_eq!(shown(&opened(&saved, FileEncoding::ShiftJis)), vec!["C:\\dir ~", "x", "b"]);
    let written = editor.batch_replace("x", "y").unwrap();
    assert_eq!(shown(&opened(&written, FileEncoding::ShiftJis)), vec!["C:\\dir ~", "y", "b"]);
}
