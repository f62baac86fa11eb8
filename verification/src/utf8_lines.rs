//! What the lines of a text look like in UTF-8.

use crate::codec::{has_bom, is_line_content, is_line_text};
use crate::encoding::{ends_with_break, newline_ends_at, FileEncoding};
use vstd::prelude::*;
use vstd::utf8::{encode_scalar, encode_utf8};

verus! {

/// A character below U+0080 is the byte of that value; any other is a sequence
/// of bytes from 0x80 on, and only U+FEFF is the byte order mark.
pub proof fn lemma_scalar_bytes(c: char)
    ensures
        1 <= encode_scalar(c as u32).len() <= 4,
        c < '\u{80}' ==> encode_scalar(c as u32) == seq![c as u8],
        c >= '\u{80}' ==> forall|i: int|
            0 <= i < encode_scalar(c as u32).len() ==> #[trigger] encode_scalar(c as u32)[i]
                >= 0x80,
        forall|i: int|
            0 <= i < encode_scalar(c as u32).len() && #[trigger] encode_scalar(c as u32)[i] == 0x0A
                ==> c == '\n',
        forall|i: int|
            0 <= i < encode_scalar(c as u32).len() && #[trigger] encode_scalar(c as u32)[i] == 0x0D
                ==> c == '\r',
        encode_scalar(c as u32).len() >= 3 && c != '\u{feff}' ==> !has_bom(
            encode_scalar(c as u32),
        ),
        encode_scalar(c as u32).len() < 3 ==> encode_scalar(c as u32)[0] != 0xEF,
        encode_scalar(c as u32)[0] < 0xFE,
{
    let s = c as u32;
    assert(s <= 0x7F ==> (s & 0x7F) == s) by (bit_vector);
    assert((0xC0u8 | ((s >> 6) & 0x1F) as u8) >= 0x80) by (bit_vector);
    assert((0xC0u8 | ((s >> 6) & 0x1F) as u8) < 0xE0) by (bit_vector);
    assert((0xE0u8 | ((s >> 12) & 0x0F) as u8) >= 0x80) by (bit_vector);
    assert((0xF0u8 | ((s >> 18) & 0x7) as u8) >= 0x80) by (bit_vector);
    assert(0xF0 <= (0xF0u8 | ((s >> 18) & 0x7) as u8) < 0xFE) by (bit_vector);
    assert((0xE0u8 | ((s >> 12) & 0x0F) as u8) < 0xFE) by (bit_vector);
    assert((0x80u8 | (s & 0x3F) as u8) >= 0x80) by (bit_vector);
    assert((0x80u8 | ((s >> 6) & 0x3F) as u8) >= 0x80) by (bit_vector);
    assert((0x80u8 | ((s >> 12) & 0x3F) as u8) >= 0x80) by (bit_vector);
    assert(s <= 0xFFFF && (0xE0u8 | ((s >> 12) & 0x0F) as u8) == 0xEF && (0x80u8 | ((s >> 6)
        & 0x3F) as u8) == 0xBB && (0x80u8 | (s & 0x3F) as u8) == 0xBF ==> s == 0xFEFF)
        by (bit_vector);
    if s <= 0x7F {
        assert(encode_scalar(s) =~= seq![c as u8]);
    }
}

/// The bytes of two texts in a row are their bytes in a row.
pub proof fn lemma_encode_concat(a: Seq<char>, b: Seq<char>)
    ensures
        encode_utf8(a + b) == encode_utf8(a) + encode_utf8(b),
    decreases a.len(),
{
    if a.len() == 0 {
        assert(a + b =~= b);
        assert(encode_utf8(a) + encode_utf8(b) =~= encode_utf8(b));
    } else {
        lemma_encode_concat(a.drop_first(), b);
        assert((a + b).drop_first() =~= a.drop_first() + b);
        assert(encode_utf8(a + b) =~= encode_utf8(a) + encode_utf8(b));
    }
}

proof fn lemma_newline_byte(text: Seq<char>)
    requires
        !text.contains('\n'),
    ensures
        forall|i: int| 0 <= i < encode_utf8(text).len() ==> #[trigger] encode_utf8(text)[i] != 0x0A,
    decreases text.len(),
{
    if text.len() > 0 {
        let tail = text.drop_first();
        assert forall|i: int| 0 <= i < tail.len() implies tail[i] != '\n' by {
            assert(text[i + 1] != '\n');
        }
        lemma_newline_byte(tail);
        lemma_scalar_bytes(text[0]);
        assert(text[0] != '\n');
        let head = encode_scalar(text[0] as u32);
        assert forall|i: int| 0 <= i < encode_utf8(text).len() implies #[trigger] encode_utf8(
            text,
        )[i] != 0x0A by {
            if i < head.len() {
                assert(encode_utf8(text)[i] == head[i]);
            } else {
                assert(encode_utf8(text)[i] == encode_utf8(tail)[i - head.len()]);
            }
        }
    }
}

/// One line of text is the content of one line in UTF-8.
pub proof fn lemma_line_content(text: Seq<char>)
    requires
        is_line_text(text),
    ensures
        is_line_content(FileEncoding::Utf8, encode_utf8(text)),
        encode_utf8(text).len() == 0 <==> text.len() == 0,
{
    let bytes = encode_utf8(text);
    lemma_newline_byte(text);
    if text.len() > 0 {
        let front = text.drop_last();
        let last = text.last();
        assert(text =~= front + seq![last]);
        lemma_encode_concat(front, seq![last]);
        assert(seq![last].drop_first() =~= Seq::empty());
        assert(encode_utf8(seq![last].drop_first()) =~= Seq::empty());
        assert(encode_utf8(seq![last]) =~= encode_scalar(last as u32));
        lemma_scalar_bytes(last);
        let tail = encode_scalar(last as u32);
        assert(bytes[bytes.len() - 1] == tail[tail.len() - 1]);
        assert(!ends_with_break(bytes, FileEncoding::Utf8));
    }
    assert forall|p: int| !#[trigger] newline_ends_at(bytes, FileEncoding::Utf8, p) by {}
}

/// In UTF-8 only a text that starts with U+FEFF starts like a byte order mark.
pub proof fn law_utf8_byte_order_mark(text: Seq<char>)
    requires
        text.len() > 0 ==> text[0] != '\u{feff}',
    ensures
        !has_bom(encode_utf8(text)),
{
    if text.len() > 0 {
        lemma_scalar_bytes(text[0]);
        let head = encode_scalar(text[0] as u32);
        let bytes = encode_utf8(text);
        assert(bytes[0] == head[0]);
        if head.len() >= 3 {
            assert(bytes[1] == head[1]);
            assert(bytes[2] == head[2]);
        }
    }
}

/// A carriage return byte comes of a carriage return alone.
pub proof fn lemma_carriage_return_byte(text: Seq<char>)
    requires
        !text.contains('\r'),
    ensures
        forall|i: int| 0 <= i < encode_utf8(text).len() ==> #[trigger] encode_utf8(text)[i] != 0x0D,
    decreases text.len(),
{
    if text.len() > 0 {
        let tail = text.drop_first();
        assert forall|i: int| 0 <= i < tail.len() implies tail[i] != '\r' by {
            assert(text.contains(text[i + 1]));
        }
        lemma_carriage_return_byte(tail);
        lemma_scalar_bytes(text[0]);
        assert(text.contains(text[0]));
        let head = encode_scalar(text[0] as u32);
        assert forall|i: int| 0 <= i < encode_utf8(text).len() implies #[trigger] encode_utf8(
            text,
        )[i] != 0x0D by {
            if i < head.len() {
                assert(encode_utf8(text)[i] == head[i]);
            } else {
                assert(encode_utf8(text)[i] == encode_utf8(tail)[i - head.len()]);
            }
        }
    }
}

} // verus!
