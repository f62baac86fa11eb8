//! Turning the bytes of a line into text and back, by way of `encoding_rs`.

use crate::encoding::{ends_with_break, newline_ends_at, FileEncoding};
use crate::prefix::split_prefix;
use crate::utf16::{
    decode_utf16, encode_utf16, law_utf16_char, law_utf16_concat, law_utf16_round_trip,
    lemma_utf16_line_content, to_utf16, valid_utf16,
};
use crate::utf8_lines::{lemma_encode_concat, lemma_line_content, lemma_scalar_bytes};
use encoding_rs::Encoding;
use vstd::prelude::*;
use vstd::utf8::{decode_utf8, decode_utf8_encode_utf8, encode_scalar, encode_utf8, valid_utf8};

verus! {

/// An encoding of `encoding_rs`; what is inside one stays unseen.
#[verifier::external_type_specification]
#[verifier::external_body]
pub struct ExEncoding(Encoding);

/// The name that `Encoding::name` gives an encoding of `encoding_rs`. No two of
/// them have the same.
pub uninterp spec fn encoding_name(encoding: Encoding) -> Seq<char>;

/// What `Encoding::decode` makes of a byte sequence, by the encoding's name.
pub uninterp spec fn decoded(encoding: Seq<char>, bytes: Seq<u8>) -> Seq<char>;

/// What `Encoding::encode` makes of one character, by the encoding's name.
pub uninterp spec fn encoded(encoding: Seq<char>, c: char) -> Seq<u8>;

/// The most bytes that are decoded at once. `encoding_rs` asks for a buffer of
/// up to four times as many and a few more, and no buffer can have more than
/// half of `usize::MAX`.
pub const MAX_TEXT_BYTES: usize = usize::MAX / 9;

/// The most bytes of text, in UTF-8, that are encoded in Shift_JIS at once.
pub const ENCODE_PART: usize = 1048576;

/// Whether `bytes` starts with a byte order mark: that of UTF-8, or that of
/// UTF-16 in either byte order.
pub open spec fn has_bom(bytes: Seq<u8>) -> bool {
    ||| bytes.len() >= 3 && bytes[0] == 0xEF && bytes[1] == 0xBB && bytes[2] == 0xBF
    ||| bytes.len() >= 2 && bytes[0] == 0xFF && bytes[1] == 0xFE
    ||| bytes.len() >= 2 && bytes[0] == 0xFE && bytes[1] == 0xFF
}

/// Whether `bytes` are all ASCII.
pub open spec fn is_ascii(bytes: Seq<u8>) -> bool {
    forall|i: int| 0 <= i < bytes.len() ==> #[trigger] bytes[i] < 0x80
}

/// Whether `text` is all ASCII.
pub open spec fn is_ascii_text(text: Seq<char>) -> bool {
    forall|i: int| 0 <= i < text.len() ==> #[trigger] text[i] < '\u{80}'
}

/// The text that `bytes` plainly are: well-formed UTF-8 or UTF-16 that does not
/// start with a byte order mark, or ASCII in Shift_JIS.
pub open spec fn plain_text(encoding: FileEncoding, bytes: Seq<u8>) -> Option<Seq<char>> {
    if has_bom(bytes) {
        None
    } else {
        match encoding {
            FileEncoding::Utf8 if valid_utf8(bytes) => Some(decode_utf8(bytes)),
            FileEncoding::ShiftJis if is_ascii(bytes) => Some(
                Seq::new(bytes.len(), |i: int| bytes[i] as char),
            ),
            FileEncoding::Utf16Le if valid_utf16(false, bytes) => Some(decode_utf16(false, bytes)),
            FileEncoding::Utf16Be if valid_utf16(true, bytes) => Some(decode_utf16(true, bytes)),
            _ => None,
        }
    }
}

/// The text that `bytes` are read as.
pub open spec fn text_of(encoding: FileEncoding, bytes: Seq<u8>) -> Seq<char> {
    match plain_text(encoding, bytes) {
        Some(text) => text,
        None => decoded(encoding.codec_name(), bytes),
    }
}

/// The bytes of a character in Shift_JIS: itself where it is ASCII.
pub open spec fn shift_jis_char(c: char) -> Seq<u8> {
    if c >= '\u{80}' {
        encoded("Shift_JIS"@, c)
    } else {
        seq![c as u8]
    }
}

/// The bytes of a text in Shift_JIS: those of each character, one after the
/// other.
pub open spec fn encode_each(text: Seq<char>) -> Seq<u8>
    decreases text.len(),
{
    if text.len() == 0 {
        Seq::empty()
    } else {
        encode_each(text.drop_last()) + shift_jis_char(text.last())
    }
}

/// The bytes that `text` is written as.
pub open spec fn bytes_of(encoding: FileEncoding, text: Seq<char>) -> Seq<u8> {
    match encoding {
        FileEncoding::Utf8 => encode_utf8(text),
        FileEncoding::ShiftJis => encode_each(text),
        FileEncoding::Utf16Le => encode_utf16(false, text),
        FileEncoding::Utf16Be => encode_utf16(true, text),
    }
}

/// The static `UTF_8` of `encoding_rs`, which has this name.
#[verifier::external_body]
fn utf_8() -> (encoding: &'static Encoding)
    ensures
        encoding_name(*encoding) == "UTF-8"@,
{
    encoding_rs::UTF_8
}

/// The static `SHIFT_JIS` of `encoding_rs`, which has this name.
#[verifier::external_body]
fn shift_jis() -> (encoding: &'static Encoding)
    ensures
        encoding_name(*encoding) == "Shift_JIS"@,
{
    encoding_rs::SHIFT_JIS
}

/// The static `UTF_16LE` of `encoding_rs`, which has this name.
#[verifier::external_body]
fn utf_16le() -> (encoding: &'static Encoding)
    ensures
        encoding_name(*encoding) == "UTF-16LE"@,
{
    encoding_rs::UTF_16LE
}

/// The static `UTF_16BE` of `encoding_rs`, which has this name.
#[verifier::external_body]
fn utf_16be() -> (encoding: &'static Encoding)
    ensures
        encoding_name(*encoding) == "UTF-16BE"@,
{
    encoding_rs::UTF_16BE
}

impl FileEncoding {
    /// The name of the encoding of `encoding_rs` for this one.
    pub open spec fn codec_name(self) -> Seq<char> {
        match self {
            FileEncoding::Utf8 => "UTF-8"@,
            FileEncoding::ShiftJis => "Shift_JIS"@,
            FileEncoding::Utf16Le => "UTF-16LE"@,
            FileEncoding::Utf16Be => "UTF-16BE"@,
        }
    }

    /// The encoding of `encoding_rs` for this one.
    pub fn to_encoding(self) -> (encoding: &'static Encoding)
        ensures
            encoding_name(*encoding) == self.codec_name(),
    {
        match self {
            FileEncoding::Utf8 => utf_8(),
            FileEncoding::ShiftJis => shift_jis(),
            FileEncoding::Utf16Le => utf_16le(),
            FileEncoding::Utf16Be => utf_16be(),
        }
    }
}

/// `Encoding::decode`, the text alone, for one of the four encodings.
/// Well-formed UTF-8 or UTF-16 without a byte order mark is read as what it
/// says, and so is ASCII in Shift_JIS. Any other result is only named: it depends on the encoding, or on a
/// byte order mark at the start that overrides it, with U+FFFD in place of
/// malformed bytes.
#[verifier::external_body]
fn decode_with(encoding: &'static Encoding, bytes: &[u8]) -> (text: String)
    requires
        bytes@.len() <= MAX_TEXT_BYTES,
    ensures
        forall|own: FileEncoding|
            encoding_name(*encoding) == #[trigger] own.codec_name() && plain_text(
                own,
                bytes@,
            ) is Some ==> text@ == plain_text(own, bytes@)->0,
        forall|own: FileEncoding|
            encoding_name(*encoding) == #[trigger] own.codec_name() && plain_text(
                own,
                bytes@,
            ) is None ==> text@ == decoded(encoding_name(*encoding), bytes@),
{
    let (text, _, _) = encoding.decode(bytes);
    text.into_owned()
}

/// `Encoding::encode`, the bytes alone, for UTF-8 and for Shift_JIS. What
/// Shift_JIS gives is only named, but for this: each character is written by
/// itself, ASCII as it stands, a line feed comes of a line feed alone, a carriage return of a
/// carriage return alone, and a text that is not empty gives bytes. (A
/// character that Shift_JIS lacks becomes a numeric character reference.)
#[verifier::external_body]
fn encode_with(encoding: &'static Encoding, text: &str) -> (bytes: Vec<u8>)
    requires
        encoding_name(*encoding) == "UTF-8"@ || (encoding_name(*encoding) == "Shift_JIS"@
            && encode_utf8(text@).len() <= ENCODE_PART),
    ensures
        encoding_name(*encoding) == "UTF-8"@ ==> bytes@ == encode_utf8(text@),
        encoding_name(*encoding) == "Shift_JIS"@ && text@.len() == 1 && text@[0] >= '\u{80}'
            ==> bytes@ == encoded(encoding_name(*encoding), text@[0]),
        encoding_name(*encoding) == "Shift_JIS"@ ==> bytes@ == encode_each(text@),
        encoding_name(*encoding) == "Shift_JIS"@ && !text@.contains('\n')
            ==> !bytes@.contains(0x0A),
        encoding_name(*encoding) == "Shift_JIS"@ && text@.len() > 0 && text@.last() != '\r'
            ==> bytes@.last() != 0x0D,
        encoding_name(*encoding) == "Shift_JIS"@ ==> (bytes@.len() == 0 <==> text@.len() == 0),
{
    let (bytes, _, _) = encoding.encode(text);
    bytes.into_owned()
}

/// The text that `bytes` are read as.
pub fn decode(encoding: FileEncoding, bytes: &[u8]) -> (text: String)
    requires
        bytes@.len() <= MAX_TEXT_BYTES,
    ensures
        text@ == text_of(encoding, bytes@),
{
    decode_with(encoding.to_encoding(), bytes)
}

/// Whether `bytes` can stand as the content of a line: no line feed shows in
/// it or ends it, no carriage return ends it, and it is made of whole code
/// units.
pub open spec fn is_line_content(encoding: FileEncoding, bytes: Seq<u8>) -> bool {
    &&& bytes.len() as int % encoding.unit() == 0
    &&& !ends_with_break(bytes, encoding)
    &&& forall|p: int| !#[trigger] newline_ends_at(bytes, encoding, p)
}

/// Whether `text` is one line: it has no line feed and does not end in a
/// carriage return.
pub open spec fn is_line_text(text: Seq<char>) -> bool {
    &&& !text.contains('\n')
    &&& text.len() > 0 ==> text.last() != '\r'
}

/// Whether `text` is written as the content of one line, and as nothing only
/// where it is empty.
pub open spec fn writes_as_line(encoding: FileEncoding, text: Seq<char>) -> bool {
    let bytes = bytes_of(encoding, text);
    &&& is_line_content(encoding, bytes)
    &&& bytes.len() == 0 <==> text.len() == 0
}

proof fn lemma_ascii_char(c: char)
    requires
        c < '\u{80}',
    ensures
        (c as u8) < 0x80,
        (c as u8) as char == c,
        c as u8 == 0x0A ==> c == '\n',
        c as u8 == 0x0D ==> c == '\r',
{
}

proof fn lemma_ascii_bytes(text: Seq<char>)
    requires
        is_ascii_text(text),
    ensures
        encode_each(text) == Seq::new(text.len(), |i: int| text[i] as u8),
    decreases text.len(),
{
    if text.len() > 0 {
        let front = text.drop_last();
        assert forall|i: int| 0 <= i < front.len() implies #[trigger] front[i] < '\u{80}' by {
            assert(front[i] == text[i]);
        }
        lemma_ascii_bytes(front);
        assert(text[text.len() - 1] < '\u{80}');
    }
    assert(encode_each(text) =~= Seq::new(text.len(), |i: int| text[i] as u8));
}

/// In Unicode, and in ASCII, one line of text is written as one line. (So it is
/// for any text in Shift_JIS, as `encode` says of those that it is called
/// with.)
pub proof fn law_writes_lines(encoding: FileEncoding, text: Seq<char>)
    requires
        encoding != FileEncoding::ShiftJis || is_ascii_text(text),
        is_line_text(text),
    ensures
        writes_as_line(encoding, text),
{
    match encoding {
        FileEncoding::Utf8 => {
            assert(encoding.unit() == 1);
            lemma_line_content(text);
        },
        FileEncoding::ShiftJis => {
            assert(encoding.unit() == 1);
            lemma_ascii_bytes(text);
            let bytes = bytes_of(encoding, text);
            assert forall|p: int| !#[trigger] newline_ends_at(bytes, encoding, p) by {
                if newline_ends_at(bytes, encoding, p) {
                    assert(text[p - 1] < '\u{80}');
                    lemma_ascii_char(text[p - 1]);
                    assert(text.contains(text[p - 1]));
                }
            }
            if text.len() > 0 {
                assert(text[text.len() - 1] < '\u{80}');
                lemma_ascii_char(text.last());
                assert(text.contains(text[text.len() - 1]));
            }
        },
        FileEncoding::Utf16Le | FileEncoding::Utf16Be => lemma_utf16_line_content(encoding, text),
    }
}

/// Whether `text` is known to be read as it was written: in Unicode it is
/// unless its bytes start like a byte order mark, in Shift_JIS where it is
/// ASCII.
pub open spec fn reads_back(encoding: FileEncoding, text: Seq<char>) -> bool {
    if encoding == FileEncoding::ShiftJis {
        is_ascii_text(text)
    } else {
        !has_bom(bytes_of(encoding, text))
    }
}

/// Text is read as it was written.
pub proof fn law_reads_back(encoding: FileEncoding, text: Seq<char>)
    requires
        reads_back(encoding, text),
    ensures
        text_of(encoding, bytes_of(encoding, text)) == text,
{
    vstd::utf8::encode_utf8_valid_utf8(text);
    vstd::utf8::encode_utf8_decode_utf8(text);
    law_utf16_round_trip(false, text);
    law_utf16_round_trip(true, text);
    if encoding == FileEncoding::ShiftJis {
        lemma_ascii_bytes(text);
        let bytes = bytes_of(encoding, text);
        assert forall|i: int| 0 <= i < bytes.len() implies #[trigger] bytes[i] < 0x80
            && bytes[i] as char == text[i] by {
            assert(text[i] < '\u{80}');
            lemma_ascii_char(text[i]);
        }
        assert(Seq::new(bytes.len(), |i: int| bytes[i] as char) =~= text);
    }
}

proof fn lemma_each_concat(a: Seq<char>, b: Seq<char>)
    ensures
        encode_each(a + b) == encode_each(a) + encode_each(b),
    decreases b.len(),
{
    if b.len() == 0 {
        assert(a + b =~= a);
        assert(encode_each(a) + encode_each(b) =~= encode_each(a));
    } else {
        lemma_each_concat(a, b.drop_last());
        assert((a + b).drop_last() =~= a + b.drop_last());
        assert((a + b).last() == b.last());
        assert(encode_each(a + b) =~= encode_each(a) + encode_each(b));
    }
}

/// The bytes that `text` is written as in Shift_JIS. A text that is too long to
/// be encoded at once is encoded in parts.
fn encode_shift_jis(text: &str) -> (bytes: Vec<u8>)
    ensures
        bytes@ == bytes_of(FileEncoding::ShiftJis, text@),
        is_line_text(text@) ==> writes_as_line(FileEncoding::ShiftJis, text@),
{
    let encoding = FileEncoding::ShiftJis.to_encoding();
    let mut out: Vec<u8> = Vec::new();
    let mut rest: &str = text;
    let ghost mut done: Seq<char> = Seq::empty();
    assert(done + rest@ =~= text@);
    while rest.as_bytes().len() > ENCODE_PART
        invariant
            encoding_name(*encoding) == "Shift_JIS"@,
            text@ == done + rest@,
            done.len() > 0 ==> rest@.len() > 0,
            out@ == encode_each(done),
            !text@.contains('\n') ==> !out@.contains(0x0A),
        decreases rest@.len(),
    {
        let (part, tail) = split_prefix(rest, ENCODE_PART);
        let mut bytes = encode_with(encoding, part);
        proof {
            lemma_each_concat(done, part@);
            assert(text@ =~= done + part@ + tail@);
            if !text@.contains('\n') {
                assert forall|i: int| 0 <= i < part@.len() implies part@[i] != '\n' by {
                    assert(text@[done.len() + i] == part@[i]);
                }
            }
            done = done + part@;
        }
        let ghost before = out@;
        let ghost more = bytes@;
        out.append(&mut bytes);
        assert(out@ =~= before + more);
        proof {
            if !text@.contains('\n') {
                assert forall|i: int| 0 <= i < out@.len() implies out@[i] != 0x0A by {
                    if i < before.len() {
                        assert(before.contains(before[i]));
                    } else {
                        assert(more.contains(more[i - before.len()]));
                    }
                }
            }
        }
        rest = tail;
    }
    let mut bytes = encode_with(encoding, rest);
    let ghost before = out@;
    let ghost more = bytes@;
    out.append(&mut bytes);
    proof {
        lemma_each_concat(done, rest@);
        assert(out@ =~= before + more);
        if is_line_text(text@) {
            assert forall|i: int| 0 <= i < rest@.len() implies rest@[i] != '\n' by {
                assert(text@[done.len() + i] == rest@[i]);
            }
            assert forall|i: int| 0 <= i < out@.len() implies out@[i] != 0x0A by {
                if i < before.len() {
                    assert(before.contains(before[i]));
                } else {
                    assert(more.contains(more[i - before.len()]));
                }
            }
            if text@.len() > 0 {
                assert(rest@.len() > 0);
                assert(text@.last() == rest@.last());
                assert(out@.last() == more.last());
            }
        }
    }
    out
}

/// The bytes that `text` is written as. One line of text is written as the
/// content of one line, and only the empty text as nothing.
pub fn encode(encoding: FileEncoding, text: &str) -> (bytes: Vec<u8>)
    ensures
        bytes@ == bytes_of(encoding, text@),
        is_line_text(text@) ==> writes_as_line(encoding, text@),
{
    proof {
        if encoding != FileEncoding::ShiftJis && is_line_text(text@) {
            law_writes_lines(encoding, text@);
        }
    }
    match encoding {
        FileEncoding::Utf8 => encode_with(encoding.to_encoding(), text),
        FileEncoding::ShiftJis => encode_shift_jis(text),
        FileEncoding::Utf16Le => to_utf16(false, text),
        FileEncoding::Utf16Be => to_utf16(true, text),
    }
}

/// In every encoding the bytes of two texts in a row are their bytes in a row:
/// how a text is written depends neither on its length nor on what stands
/// around it.
pub proof fn law_bytes_in_a_row(encoding: FileEncoding, a: Seq<char>, b: Seq<char>)
    ensures
        bytes_of(encoding, a + b) == bytes_of(encoding, a) + bytes_of(encoding, b),
        bytes_of(encoding, Seq::empty()) == Seq::<u8>::empty(),
{
    match encoding {
        FileEncoding::Utf8 => lemma_encode_concat(a, b),
        FileEncoding::ShiftJis => lemma_each_concat(a, b),
        FileEncoding::Utf16Le => law_utf16_concat(false, a, b),
        FileEncoding::Utf16Be => law_utf16_concat(true, a, b),
    }
}

/// The bytes of one character: in Shift_JIS those that `encoding_rs` gives, in
/// UTF-8 those of its scalar value, in UTF-16 those of its code units in the
/// byte order of the file. ASCII is one code unit of that number everywhere.
pub proof fn law_bytes_of_char(encoding: FileEncoding, c: char)
    ensures
        bytes_of(FileEncoding::Utf8, seq![c]) == encode_scalar(c as u32),
        c >= '\u{80}' ==> bytes_of(FileEncoding::ShiftJis, seq![c]) == encoded("Shift_JIS"@, c),
        bytes_of(FileEncoding::Utf16Le, seq![c]) == encode_utf16(false, seq![c]),
        bytes_of(FileEncoding::Utf16Be, seq![c]) == encode_utf16(true, seq![c]),
        c < '\u{80}' ==> bytes_of(encoding, seq![c]) == match encoding {
            FileEncoding::Utf8 | FileEncoding::ShiftJis => seq![c as u8],
            FileEncoding::Utf16Le => seq![c as u8, 0u8],
            FileEncoding::Utf16Be => seq![0u8, c as u8],
        },
        c < '\u{80}' ==> bytes_of(encoding, seq![c]) == encoding.ascii_unit(c as u8),
{
    let one = seq![c];
    assert(one.drop_first() =~= Seq::empty());
    assert(one.drop_last() =~= Seq::empty());
    assert(encode_utf8(one.drop_first()) =~= Seq::empty());
    assert(encode_utf8(one) =~= encode_scalar(c as u32));
    assert(encode_each(one.drop_last()) =~= Seq::empty());
    assert(encode_each(one) =~= shift_jis_char(c));
    lemma_scalar_bytes(c);
    law_utf16_char(false, c);
    law_utf16_char(true, c);
    if '\u{80}' > c {
        lemma_ascii_char(c);
        assert(encode_utf16(false, one) =~= seq![c as u8, 0u8]);
        assert(encode_utf16(true, one) =~= seq![0u8, c as u8]);
    }
}

/// What bytes are read as, whatever their length. Well-formed UTF-8 and UTF-16
/// without a byte order mark is read as the text that has these bytes, and ASCII
/// in Shift_JIS byte for byte. Everything else is what `encoding_rs` makes of it
/// in the encoding of the file.
pub proof fn law_text_of(bytes: Seq<u8>)
    ensures
        valid_utf8(bytes) && !has_bom(bytes) ==> encode_utf8(text_of(FileEncoding::Utf8, bytes))
            == bytes,
        !valid_utf8(bytes) || has_bom(bytes) ==> text_of(FileEncoding::Utf8, bytes) == decoded(
            "UTF-8"@,
            bytes,
        ),
        is_ascii(bytes) ==> encode_utf8(text_of(FileEncoding::ShiftJis, bytes)) == bytes,
        !is_ascii(bytes) ==> text_of(FileEncoding::ShiftJis, bytes) == decoded(
            "Shift_JIS"@,
            bytes,
        ),
        valid_utf16(false, bytes) && !has_bom(bytes) ==> encode_utf16(
            false,
            text_of(FileEncoding::Utf16Le, bytes),
        ) == bytes,
        !valid_utf16(false, bytes) || has_bom(bytes) ==> text_of(FileEncoding::Utf16Le, bytes)
            == decoded("UTF-16LE"@, bytes),
        valid_utf16(true, bytes) && !has_bom(bytes) ==> encode_utf16(
            true,
            text_of(FileEncoding::Utf16Be, bytes),
        ) == bytes,
        !valid_utf16(true, bytes) || has_bom(bytes) ==> text_of(FileEncoding::Utf16Be, bytes)
            == decoded("UTF-16BE"@, bytes),
{
    if valid_utf8(bytes) {
        decode_utf8_encode_utf8(bytes);
    }
    if is_ascii(bytes) {
        let text = Seq::new(bytes.len(), |i: int| bytes[i] as char);
        if bytes.len() > 0 {
            assert(bytes[0] < 0x80);
        }
        assert(!has_bom(bytes));
        assert(is_ascii_text(text)) by {
            assert forall|i: int| 0 <= i < text.len() implies #[trigger] text[i] < '\u{80}' by {
                assert(bytes[i] < 0x80);
            }
        }
        lemma_ascii_bytes(text);
        lemma_ascii_utf8(text);
        assert(encode_utf8(text) =~= bytes) by {
            assert forall|i: int| 0 <= i < bytes.len() implies (#[trigger] bytes[i]) as char as u8
                == bytes[i] by {
                assert(bytes[i] < 0x80);
            }
        }
    }
}

proof fn lemma_ascii_utf8(text: Seq<char>)
    requires
        is_ascii_text(text),
    ensures
        encode_utf8(text) == Seq::new(text.len(), |i: int| text[i] as u8),
    decreases text.len(),
{
    if text.len() > 0 {
        let tail = text.drop_first();
        assert forall|i: int| 0 <= i < tail.len() implies #[trigger] tail[i] < '\u{80}' by {
            assert(tail[i] == text[i + 1]);
        }
        lemma_ascii_utf8(tail);
        assert(text[0] < '\u{80}');
        lemma_scalar_bytes(text[0]);
    }
    assert(encode_utf8(text) =~= Seq::new(text.len(), |i: int| text[i] as u8));
}

/// Text that starts with U+FEFF starts with a byte order mark, in UTF-8 and in
/// UTF-16; a first byte below 0xEF starts none.
pub proof fn law_byte_order_mark(text: Seq<char>, bytes: Seq<u8>)
    ensures
        has_bom(bytes_of(FileEncoding::Utf8, seq!['\u{feff}'] + text)),
        has_bom(bytes_of(FileEncoding::Utf16Le, seq!['\u{feff}'] + text)),
        has_bom(bytes_of(FileEncoding::Utf16Be, seq!['\u{feff}'] + text)),
        bytes.len() < 2 || bytes[0] < 0xEF ==> !has_bom(bytes),
{
    let mark = '\u{feff}';
    law_bytes_in_a_row(FileEncoding::Utf8, seq![mark], text);
    law_bytes_in_a_row(FileEncoding::Utf16Le, seq![mark], text);
    law_bytes_in_a_row(FileEncoding::Utf16Be, seq![mark], text);
    law_bytes_of_char(FileEncoding::Utf8, mark);
    law_utf16_char(false, mark);
    law_utf16_char(true, mark);
    assert(mark as u32 == 0xFEFF);
    let s: u32 = 0xFEFF;
    assert((0xE0u8 | ((0xFEFFu32 >> 12) & 0x0F) as u8) == 0xEF && (0x80u8 | ((0xFEFFu32 >> 6)
        & 0x3F) as u8) == 0xBB && (0x80u8 | (0xFEFFu32 & 0x3F) as u8) == 0xBF) by (bit_vector);
    assert(encode_scalar(s) =~= seq![0xEFu8, 0xBBu8, 0xBFu8]);
}

} // verus!
