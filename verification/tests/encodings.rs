use giant_text_editor::codec::{decode, encode, ENCODE_PART};
use giant_text_editor::encoding::{get_newline_bytes, trim_line_end, FileEncoding};
use giant_text_editor::pattern::replace_in_text;
use giant_text_editor::text::{join, split_content};

#[test]
fn encodings_and_labels() {
    let labels: Vec<&str> = FileEncoding::all_cases().iter().map(|enc| enc.to_label()).collect();
    assert_eq!(labels, vec!["UTF-8", "Shift-JIS", "UTF-16 LE", "UTF-16 BE"]);
    assert_eq!(FileEncoding::ShiftJis.to_encoding().name(), "Shift_JIS");
    assert_eq!(FileEncoding::Utf16Be.to_encoding().name(), "UTF-16BE");
    assert_eq!(FileEncoding::Utf16Le.to_encoding().name(), "UTF-16LE");
    assert_eq!(FileEncoding::Utf8.to_encoding().name(), "UTF-8");
}

#[test]
fn default_line_breaks() {
    assert_eq!(FileEncoding::Utf8.default_newline(), b"\r\n");
    assert_eq!(FileEncoding::ShiftJis.default_newline(), b"\r\n");
    assert_eq!(FileEncoding::Utf16Le.default_newline(), &[0x0D, 0x00, 0x0A, 0x00]);
    assert_eq!(FileEncoding::Utf16Be.default_newline(), &[0x00, 0x0D, 0x00, 0x0A]);
}

#[test]
fn line_breaks_are_found() {
    assert_eq!(get_newline_bytes(b"a\r\n", FileEncoding::Utf8), b"\r\n");
    assert_eq!(get_newline_bytes(b"a\n", FileEncoding::ShiftJis), b"\n");
    assert_eq!(get_newline_bytes(b"a\r", FileEncoding::Utf8), b"");
    assert_eq!(get_newline_bytes(b"", FileEncoding::Utf8), b"");
    assert_eq!(
        get_newline_bytes(&[0x41, 0x00, 0x0D, 0x00, 0x0A, 0x00], FileEncoding::Utf16Le),
        &[0x0D, 0x00, 0x0A, 0x00]
    );
    assert_eq!(get_newline_bytes(&[0x0A, 0x00], FileEncoding::Utf16Le), &[0x0A, 0x00]);
    assert_eq!(
        get_newline_bytes(&[0x00, 0x0D, 0x00, 0x0A], FileEncoding::Utf16Be),
        &[0x00, 0x0D, 0x00, 0x0A]
    );
    assert_eq!(get_newline_bytes(&[0x0A, 0x00], FileEncoding::Utf16Be), b"");
}

#[test]
fn line_ends_are_trimmed() {
    assert_eq!(trim_line_end(b"a\n\r\r\n", FileEncoding::Utf8), b"a");
    assert_eq!(trim_line_end(b"\n", FileEncoding::ShiftJis), b"");
    assert_eq!(trim_line_end(b"a\nb", FileEncoding::Utf8), b"a\nb");
    assert_eq!(trim_line_end(&[0x41, 0x00, 0x0D, 0x00, 0x0A, 0x00], FileEncoding::Utf16Le), b"A\0");
    assert_eq!(trim_line_end(&[0x00, 0x41, 0x00, 0x0A], FileEncoding::Utf16Be), b"\0A");
    assert_eq!(trim_line_end(&[0x0A], FileEncoding::Utf16Be), &[0x0A]);
}

#[test]
fn text_is_decoded() {
    assert_eq!(decode(FileEncoding::Utf8, "日本".as_bytes()), "日本");
    assert_eq!(decode(FileEncoding::ShiftJis, &[0x93, 0xFA, 0x96, 0x7B]), "日本");
    assert_eq!(decode(FileEncoding::Utf16Le, &[0xE5, 0x65, 0x2C, 0x67]), "日本");
    assert_eq!(decode(FileEncoding::Utf16Be, &[0x65, 0xE5, 0x67, 0x2C]), "日本");
    assert_eq!(decode(FileEncoding::Utf8, b""), "");
}

#[test]
fn text_is_encoded() {
    assert_eq!(encode(FileEncoding::Utf8, "日本"), "日本".as_bytes());
    assert_eq!(encode(FileEncoding::ShiftJis, "日本"), [0x93, 0xFA, 0x96, 0x7B]);
    assert_eq!(encode(FileEncoding::Utf16Le, "日本"), [0xE5, 0x65, 0x2C, 0x67]);
    assert_eq!(encode(FileEncoding::Utf16Be, "日本"), [0x65, 0xE5, 0x67, 0x2C]);
    assert_eq!(encode(FileEncoding::Utf16Be, "\u{1f680}"), [0xD8, 0x3D, 0xDE, 0x80]);
    assert_eq!(encode(FileEncoding::Utf16Le, "\u{1f680}"), [0x3D, 0xD8, 0x80, 0xDE]);
    assert_eq!(encode(FileEncoding::Utf16Le, ""), []);
}

#[test]
fn every_character_comes_back_in_utf16() {
    for c in '\0'..=char::MAX {
        for encoding in [FileEncoding::Utf16Le, FileEncoding::Utf16Be] {
            let text = format!("a{}", c);
            let bytes = encode(encoding, &text);
            assert_eq!(bytes.len(), 2 + 2 * c.len_utf16());
            assert_eq!(decode(encoding, &bytes), text);
        }
    }
}

#[test]
fn shift_jis_writes_each_character_by_itself() {
    let mut whole = Vec::new();
    for c in "aあ\u{1f680}ｱ表\u{80}".chars() {
        whole.extend(encode(FileEncoding::ShiftJis, &c.to_string()));
    }
    assert_eq!(encode(FileEncoding::ShiftJis, "aあ\u{1f680}ｱ表\u{80}"), whole);
}

#[test]
fn shift_jis_writes_line_breaks_for_line_breaks_alone() {
    for c in ('\0'..=char::MAX).filter(|c| *c != '\n' && *c != '\r') {
        let bytes = encode(FileEncoding::ShiftJis, &c.to_string());
        assert!(!bytes.is_empty());
        assert!(!bytes.contains(&0x0A) && !bytes.contains(&0x0D), "{:?}", c);
    }
}

#[test]
fn content_is_split_and_joined() {
    let lines = split_content("a\r\n\nb\r\r");
    assert_eq!(lines, vec!["a", "", "b"]);
    assert_eq!(join(&lines), "a\n\nb");
    assert_eq!(split_content(""), vec![""]);
    assert_eq!(split_content("\n"), vec!["", ""]);
    assert_eq!(split_content(&join(&lines)), lines);
}

#[test]
fn matches_are_replaced() {
    assert_eq!(replace_in_text("(a)(b)", "$2$1", "abxab"), Some("baxba".to_string()));
    assert_eq!(replace_in_text("z", "y", "abc"), Some("abc".to_string()));
    assert_eq!(replace_in_text("(", "y", "abc"), None);
}

#[test]
fn ascii_is_itself_in_shift_jis() {
    let text: String = ('\0'..'\u{80}').collect();
    assert_eq!(encode(FileEncoding::ShiftJis, &text), text.as_bytes());
    assert_eq!(decode(FileEncoding::ShiftJis, text.as_bytes()), text);
    for c in '\0'..'\u{80}' {
        let mixed = format!("表{}", c);
        assert_eq!(encode(FileEncoding::ShiftJis, &mixed), [0x95, 0x5C, c as u8]);
    }
}

#[test]
fn long_text_is_encoded_in_parts() {
    let text = format!("a{}", "表".repeat(ENCODE_PART));
    let bytes = encode(FileEncoding::ShiftJis, &text);
    assert_eq!(bytes.len(), 1 + 2 * ENCODE_PART);
    assert!(bytes[1..].chunks(2).all(|pair| pair == [0x95, 0x5C]));
    assert_eq!(decode(FileEncoding::ShiftJis, &bytes), text);
}
