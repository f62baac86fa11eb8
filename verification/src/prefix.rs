//! Cutting a text where it would get too long.

use crate::utf8_lines::{lemma_encode_concat, lemma_scalar_bytes};
use vstd::prelude::*;
use vstd::utf8::{
    encode_scalar, encode_utf8, encode_utf8_decode_utf8, encode_utf8_first_scalar,
    encode_utf8_valid_utf8, is_char_boundary, is_char_boundary_start_end_of_seq, pop_first_scalar,
};

verus! {

/// `short` is the longest first part of `text` that has at most `max` bytes in
/// UTF-8.
pub open spec fn is_longest_prefix(text: Seq<char>, max: int, short: Seq<char>) -> bool {
    &&& short.is_prefix_of(text)
    &&& encode_utf8(short).len() <= max
    &&& short.len() < text.len() ==> encode_utf8(text.take(short.len() as int + 1)).len() > max
}

/// The first characters of a text end at a character boundary of its bytes.
proof fn lemma_prefix_boundary(text: Seq<char>, n: int)
    requires
        0 <= n <= text.len(),
    ensures
        is_char_boundary(encode_utf8(text), encode_utf8(text.take(n)).len() as int),
    decreases n,
{
    let bytes = encode_utf8(text);
    encode_utf8_valid_utf8(text);
    if n == 0 {
        assert(text.take(n) =~= Seq::empty());
        is_char_boundary_start_end_of_seq(bytes);
    } else {
        let tail = text.drop_first();
        encode_utf8_first_scalar(text);
        assert(pop_first_scalar(bytes) =~= encode_utf8(tail));
        lemma_prefix_boundary(tail, n - 1);
        assert(text.take(n).drop_first() =~= tail.take(n - 1));
        lemma_scalar_bytes(text[0]);
        assert(text.take(n) + text.skip(n) =~= text);
        lemma_encode_concat(text.take(n), text.skip(n));
    }
}

proof fn lemma_same_bytes(a: Seq<char>, b: Seq<char>)
    requires
        encode_utf8(a) == encode_utf8(b),
    ensures
        a == b,
{
    encode_utf8_decode_utf8(a);
    encode_utf8_decode_utf8(b);
}

/// A part of a text in bytes that ends at a character boundary is made of its
/// first characters.
proof fn lemma_boundary_prefix(text: Seq<char>, short: Seq<char>, rest: Seq<char>, end: int)
    requires
        0 <= end <= encode_utf8(text).len(),
        encode_utf8(short) == encode_utf8(text).subrange(0, end),
        encode_utf8(rest) == encode_utf8(text).subrange(end, encode_utf8(text).len() as int),
    ensures
        text == short + rest,
{
    lemma_encode_concat(short, rest);
    assert(encode_utf8(short + rest) =~= encode_utf8(text));
    lemma_same_bytes(short + rest, text);
}

/// Cuts `text` in two: the longest first part that has at most `max` bytes in
/// UTF-8, and what follows it.
pub fn split_prefix(text: &str, max: usize) -> (parts: (&str, &str))
    ensures
        is_longest_prefix(text@, max as int, parts.0@),
        text@ == parts.0@ + parts.1@,
        max >= 4 && text@.len() > 0 ==> parts.0@.len() > 0,
        encode_utf8(text@).len() > max ==> parts.1@.len() > 0,
{
    let ghost bytes = encode_utf8(text@);
    let all: usize = text.as_bytes().len();
    proof {
        encode_utf8_valid_utf8(text@);
        is_char_boundary_start_end_of_seq(bytes);
    }
    let mut boundary: usize = if all <= max {
        all
    } else {
        max
    };
    while !text.is_char_boundary(boundary) && boundary > 0
        invariant
            bytes == encode_utf8(text@),
            all == bytes.len(),
            boundary <= max,
            boundary <= all,
            is_char_boundary(bytes, 0),
            forall|p: int|
                boundary < p <= max && p <= all ==> !#[trigger] is_char_boundary(bytes, p),
        decreases boundary,
    {
        boundary = boundary - 1;
    }
    let (short, rest) = text.split_at(boundary);
    proof {
        lemma_boundary_prefix(text@, short@, rest@, boundary as int);
        let n = short@.len() as int;
        assert(short@ =~= text@.take(n));
        if n < text@.len() {
            let longer = text@.take(n + 1);
            assert(longer =~= short@ + seq![text@[n]]);
            lemma_encode_concat(short@, seq![text@[n]]);
            lemma_scalar_bytes(text@[n]);
            assert(seq![text@[n]].drop_first() =~= Seq::empty());
            assert(encode_utf8(seq![text@[n]]) =~= encode_scalar(text@[n] as u32)) by {
                assert(encode_utf8(seq![text@[n]].drop_first()) =~= Seq::empty());
            }
            lemma_prefix_boundary(text@, n + 1);
            assert(text@ =~= longer + text@.skip(n + 1));
            lemma_encode_concat(longer, text@.skip(n + 1));
            if n == 0 {
                assert(encode_utf8(short@) =~= Seq::empty());
            }
        } else {
            assert(short@ =~= text@);
        }
    }
    (short, rest)
}

/// The longest first part is the only one: any first part of the text that is
/// not too long is a first part of it.
pub proof fn law_longest_prefix(text: Seq<char>, max: int, short: Seq<char>, other: Seq<char>)
    requires
        is_longest_prefix(text, max, short),
        other.is_prefix_of(text),
        encode_utf8(other).len() <= max,
    ensures
        short.is_prefix_of(text),
        encode_utf8(short).len() <= max,
        other.is_prefix_of(short),
{
    let n = short.len() as int;
    if other.len() > n {
        let longer = text.take(n + 1);
        assert(other =~= longer + other.skip(n + 1));
        lemma_encode_concat(longer, other.skip(n + 1));
    }
    assert(other =~= short.take(other.len() as int));
}

/// A text that is not too long is drawn whole.
pub proof fn law_short_text_is_whole(text: Seq<char>, max: int, short: Seq<char>)
    requires
        is_longest_prefix(text, max, short),
        encode_utf8(text).len() <= max,
    ensures
        short == text,
{
    assert(text.take(text.len() as int) =~= text);
    law_longest_prefix(text, max, short, text);
    assert(short =~= text);
}

} // verus!
