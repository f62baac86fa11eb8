//! Text in UTF-16, in either byte order, and what its lines look like there.

use crate::codec::{is_line_content, is_line_text};
use crate::encoding::{ends_with_break, newline_ends_at, FileEncoding};
use vstd::prelude::*;

verus! {

/// The code units of a character: itself below U+10000, else a high and a low
/// surrogate.
pub open spec fn units(c: char) -> Seq<u16> {
    let scalar = c as int;
    if scalar < 0x10000 {
        seq![scalar as u16]
    } else {
        seq![
            (0xD800 + (scalar - 0x10000) / 0x400) as u16,
            (0xDC00 + (scalar - 0x10000) % 0x400) as u16,
        ]
    }
}

/// The two bytes of a code unit.
pub open spec fn unit_bytes(big_endian: bool, unit: u16) -> Seq<u8> {
    let high = (unit / 256) as u8;
    let low = (unit % 256) as u8;
    if big_endian {
        seq![high, low]
    } else {
        seq![low, high]
    }
}

/// The bytes of a character.
pub open spec fn char_bytes(big_endian: bool, c: char) -> Seq<u8> {
    let all = units(c);
    if all.len() == 1 {
        unit_bytes(big_endian, all[0])
    } else {
        unit_bytes(big_endian, all[0]) + unit_bytes(big_endian, all[1])
    }
}

/// The bytes of a text.
pub open spec fn encode_utf16(big_endian: bool, text: Seq<char>) -> Seq<u8>
    decreases text.len(),
{
    if text.len() == 0 {
        Seq::empty()
    } else {
        encode_utf16(big_endian, text.drop_last()) + char_bytes(big_endian, text.last())
    }
}

/// Whether `bytes` are those of some text.
pub open spec fn valid_utf16(big_endian: bool, bytes: Seq<u8>) -> bool {
    exists|text: Seq<char>| bytes == #[trigger] encode_utf16(big_endian, text)
}

/// The text that `bytes` are those of.
pub open spec fn decode_utf16(big_endian: bool, bytes: Seq<u8>) -> Seq<char> {
    choose|text: Seq<char>| bytes == #[trigger] encode_utf16(big_endian, text)
}

/// The code unit that ends at position `p`.
spec fn unit_before(big_endian: bool, bytes: Seq<u8>, p: int) -> int {
    if big_endian {
        bytes[p - 2] * 256 + bytes[p - 1]
    } else {
        bytes[p - 1] * 256 + bytes[p - 2]
    }
}

/// The code units of a character can be read off its bytes; a surrogate comes
/// of a pair alone, and a line break of a line break.
proof fn lemma_char_bytes(big_endian: bool, c: char)
    ensures
        ({
            let bytes = char_bytes(big_endian, c);
            let n = bytes.len() as int;
            let last = unit_before(big_endian, bytes, n);
            &&& n == 2 || n == 4
            &&& n == 2 ==> last == c as int && !(0xD800 <= last < 0xE000)
            &&& n == 4 ==> {
                &&& 0xDC00 <= last < 0xE000
                &&& 0xD800 <= unit_before(big_endian, bytes, 2) < 0xDC00
                &&& c as int == 0x10000 + (unit_before(big_endian, bytes, 2) - 0xD800) * 0x400 + (
                last - 0xDC00)
            }
        }),
{
    let scalar = c as int;
    assert(0 <= scalar < 0xD800 || 0xE000 <= scalar < 0x110000);
    if scalar >= 0x10000 {
        let rest = scalar - 0x10000;
        assert(0 <= rest / 0x400 < 0x400);
        assert(rest == (rest / 0x400) * 0x400 + rest % 0x400);
    }
}

/// A text is determined by its bytes.
proof fn lemma_injective(big_endian: bool, a: Seq<char>, b: Seq<char>)
    requires
        encode_utf16(big_endian, a) == encode_utf16(big_endian, b),
    ensures
        a == b,
    decreases a.len(),
{
    let bytes = encode_utf16(big_endian, a);
    if a.len() > 0 {
        lemma_char_bytes(big_endian, a.last());
    }
    if b.len() > 0 {
        lemma_char_bytes(big_endian, b.last());
    }
    if a.len() == 0 || b.len() == 0 {
        assert(bytes.len() == 0);
        assert(a.len() == 0 && b.len() == 0);
        assert(a =~= b);
    } else {
        let n = bytes.len() as int;
        let tail_a = char_bytes(big_endian, a.last());
        let tail_b = char_bytes(big_endian, b.last());
        let front_a = encode_utf16(big_endian, a.drop_last());
        let front_b = encode_utf16(big_endian, b.drop_last());
        assert(bytes == front_a + tail_a && bytes == front_b + tail_b);
        let ka = tail_a.len() as int;
        let kb = tail_b.len() as int;
        assert(bytes[n - 1] == tail_a[ka - 1] && bytes[n - 2] == tail_a[ka - 2]);
        assert(bytes[n - 1] == tail_b[kb - 1] && bytes[n - 2] == tail_b[kb - 2]);
        assert(unit_before(big_endian, tail_a, ka) == unit_before(big_endian, tail_b, kb));
        assert(ka == kb);
        if ka == 4 {
            assert(bytes[n - 3] == tail_a[1] && bytes[n - 4] == tail_a[0]);
            assert(bytes[n - 3] == tail_b[1] && bytes[n - 4] == tail_b[0]);
        }
        assert(a.last() == b.last());
        assert(front_a =~= bytes.take(n - ka));
        assert(front_b =~= bytes.take(n - ka));
        lemma_injective(big_endian, a.drop_last(), b.drop_last());
        assert(a =~= a.drop_last().push(a.last()));
        assert(b =~= b.drop_last().push(b.last()));
    }
}

/// Text written in UTF-16 is read as the same text.
pub proof fn law_utf16_round_trip(big_endian: bool, text: Seq<char>)
    ensures
        valid_utf16(big_endian, encode_utf16(big_endian, text)),
        decode_utf16(big_endian, encode_utf16(big_endian, text)) == text,
{
    let bytes = encode_utf16(big_endian, text);
    lemma_injective(big_endian, decode_utf16(big_endian, bytes), text);
}

proof fn lemma_no_newline(encoding: FileEncoding, text: Seq<char>)
    requires
        encoding == FileEncoding::Utf16Le || encoding == FileEncoding::Utf16Be,
        !text.contains('\n'),
    ensures
        ({
            let bytes = encode_utf16(encoding == FileEncoding::Utf16Be, text);
            &&& bytes.len() as int % 2 == 0
            &&& forall|p: int| !#[trigger] newline_ends_at(bytes, encoding, p)
        }),
    decreases text.len(),
{
    let big_endian = encoding == FileEncoding::Utf16Be;
    let bytes = encode_utf16(big_endian, text);
    if text.len() > 0 {
        let front = encode_utf16(big_endian, text.drop_last());
        let tail = char_bytes(big_endian, text.last());
        assert(!text.drop_last().contains('\n')) by {
            assert forall|i: int| 0 <= i < text.len() - 1 implies text.drop_last()[i] != '\n' by {
                assert(text.contains(text[i]));
            }
        }
        lemma_no_newline(encoding, text.drop_last());
        lemma_char_bytes(big_endian, text.last());
        assert(text.last() != '\n') by {
            assert(text.contains(text[text.len() - 1]));
        }
        let m = front.len() as int;
        assert forall|p: int| !#[trigger] newline_ends_at(bytes, encoding, p) by {
            if newline_ends_at(bytes, encoding, p) {
                if p <= m {
                    assert(bytes[p - 1] == front[p - 1] && bytes[p - 2] == front[p - 2]);
                    assert(!newline_ends_at(front, encoding, p));
                } else {
                    let q = p - m;
                    assert(q == 2 || q == 4);
                    assert(bytes[p - 1] == tail[q - 1] && bytes[p - 2] == tail[q - 2]);
                    assert(unit_before(big_endian, tail, q) == 0x0A);
                }
            }
        }
    }
}

/// One line of text is written as the content of one line, and only the empty
/// one as nothing.
pub proof fn lemma_utf16_line_content(encoding: FileEncoding, text: Seq<char>)
    requires
        encoding == FileEncoding::Utf16Le || encoding == FileEncoding::Utf16Be,
        is_line_text(text),
    ensures
        ({
            let bytes = encode_utf16(encoding == FileEncoding::Utf16Be, text);
            &&& is_line_content(encoding, bytes)
            &&& bytes.len() == 0 <==> text.len() == 0
        }),
{
    let big_endian = encoding == FileEncoding::Utf16Be;
    let bytes = encode_utf16(big_endian, text);
    lemma_no_newline(encoding, text);
    if text.len() > 0 {
        let tail = char_bytes(big_endian, text.last());
        let n = bytes.len() as int;
        let k = tail.len() as int;
        lemma_char_bytes(big_endian, text.last());
        assert(bytes[n - 1] == tail[k - 1] && bytes[n - 2] == tail[k - 2]);
        assert(text.last() != '\n') by {
            assert(text.contains(text[text.len() - 1]));
        }
        if ends_with_break(bytes, encoding) {
            let last = unit_before(big_endian, tail, k);
            assert(last == 0x0A || last == 0x0D);
        }
    }
}

fn push_unit(out: &mut Vec<u8>, big_endian: bool, unit: u16)
    ensures
        final(out)@ == old(out)@ + unit_bytes(big_endian, unit),
{
    let ghost before = out@;
    let high: u8 = (unit / 256) as u8;
    let low: u8 = (unit % 256) as u8;
    if big_endian {
        out.push(high);
        out.push(low);
    } else {
        out.push(low);
        out.push(high);
    }
    assert(out@ =~= before + unit_bytes(big_endian, unit));
}

fn push_char(out: &mut Vec<u8>, big_endian: bool, c: char)
    ensures
        final(out)@ == old(out)@ + char_bytes(big_endian, c),
{
    let ghost before = out@;
    let scalar: u32 = c as u32;
    if scalar < 0x10000 {
        push_unit(out, big_endian, scalar as u16);
    } else {
        push_unit(out, big_endian, (0xD800 + (scalar - 0x10000) / 0x400) as u16);
        push_unit(out, big_endian, (0xDC00 + (scalar - 0x10000) % 0x400) as u16);
    }
    assert(out@ =~= before + char_bytes(big_endian, c));
}

/// The bytes of a text in UTF-16.
pub fn to_utf16(big_endian: bool, text: &str) -> (bytes: Vec<u8>)
    ensures
        bytes@ == encode_utf16(big_endian, text@),
{
    let mut out: Vec<u8> = Vec::new();
    for c in it: text.chars()
        invariant
            it.seq() == text@,
            out@ == encode_utf16(big_endian, text@.take(it.index() as int)),
    {
        let ghost i = it.index() as int;
        push_char(&mut out, big_endian, c);
        proof {
            assert(c == text@[i]);
            assert(text@.take(i + 1).drop_last() =~= text@.take(i));
            assert(text@.take(i + 1).last() == c);
        }
    }
    assert(text@.take(text@.len() as int) =~= text@);
    out
}

/// The bytes of two texts in a row are their bytes in a row.
pub proof fn law_utf16_concat(big_endian: bool, a: Seq<char>, b: Seq<char>)
    ensures
        encode_utf16(big_endian, a + b) == encode_utf16(big_endian, a) + encode_utf16(
            big_endian,
            b,
        ),
    decreases b.len(),
{
    if b.len() == 0 {
        assert(a + b =~= a);
        assert(encode_utf16(big_endian, a) + encode_utf16(big_endian, b) =~= encode_utf16(
            big_endian,
            a,
        ));
    } else {
        law_utf16_concat(big_endian, a, b.drop_last());
        assert((a + b).drop_last() =~= a + b.drop_last());
        assert((a + b).last() == b.last());
        assert(encode_utf16(big_endian, a + b) =~= encode_utf16(big_endian, a) + encode_utf16(
            big_endian,
            b,
        ));
    }
}

/// A character is found again in its bytes: below U+10000 they are the two of
/// its number, from there on the four of a high and a low surrogate.
pub proof fn law_utf16_char(big_endian: bool, c: char)
    ensures
        ({
            let bytes = encode_utf16(big_endian, seq![c]);
            let first = if big_endian {
                bytes[0] * 256 + bytes[1]
            } else {
                bytes[1] * 256 + bytes[0]
            };
            let second = if big_endian {
                bytes[2] * 256 + bytes[3]
            } else {
                bytes[3] * 256 + bytes[2]
            };
            if (c as int) >= 0x10000 {
                &&& bytes.len() == 4
                &&& 0xD800 <= first < 0xDC00
                &&& 0xDC00 <= second < 0xE000
                &&& c as int == 0x10000 + (first - 0xD800) * 0x400 + (second - 0xDC00)
            } else {
                bytes.len() == 2 && first == c as int
            }
        }),
{
    lemma_char_bytes(big_endian, c);
    assert(seq![c].drop_last() =~= Seq::empty());
    assert(encode_utf16(big_endian, seq![c].drop_last()) =~= Seq::empty());
    assert(encode_utf16(big_endian, seq![c]) =~= char_bytes(big_endian, c));
}

} // verus!
