//! Numbers as they are shown.

use vstd::prelude::*;

verus! {

/// The decimal digits of `n`.
pub open spec fn digits(n: int) -> Seq<char>
    decreases n,
{
    if n < 10 {
        seq!["0123456789"@[n]]
    } else {
        digits(n / 10).push("0123456789"@[n % 10])
    }
}

/// `text`, with as many spaces before it as bring it to `width` characters.
pub open spec fn right_aligned(text: Seq<char>, width: int) -> Seq<char> {
    Seq::new(
        (if text.len() < width {
            width - text.len()
        } else {
            0
        }) as nat,
        |i: int| ' ',
    ) + text
}

/// `n` in decimal.
pub fn decimal(n: u128) -> (text: String)
    ensures
        text@ == digits(n as int),
    decreases n,
{
    let all = "0123456789";
    proof {
        reveal_strlit("0123456789");
        vstd::string::is_ascii_spec_bytes(all);
        assert(all.is_ascii()) by {
            assert forall|i: int| 0 <= i < all@.len() implies (#[trigger] all@[i] as nat)
                < 128 by {}
        }
    }
    if n < 10 {
        let digit = all.substring_ascii(n as usize, n as usize + 1);
        assert(digit@ =~= digits(n as int));
        digit.to_owned()
    } else {
        let mut text = decimal(n / 10);
        let last: usize = (n % 10) as usize;
        let digit = all.substring_ascii(last, last + 1);
        text.append(digit);
        assert(text@ =~= digits(n as int));
        text
    }
}

/// The number shown before the line at place `display_idx`, counted from one.
pub fn line_number(display_idx: usize) -> (text: String)
    ensures
        text@ == right_aligned(digits(display_idx + 1), 6) + " │ "@,
{
    let number = decimal(display_idx as u128 + 1);
    let mut text = String::new();
    let len: usize = number.as_str().unicode_len();
    let mut i: usize = len;
    assert(text@ =~= Seq::new(0, |i: int| ' '));
    while i < 6
        invariant
            len <= i,
            i <= 6 || i == len,
            text@ == Seq::new((i - len) as nat, |i: int| ' '),
        decreases 6 - i,
    {
        proof {
            reveal_strlit(" ");
        }
        text.append(" ");
        i = i + 1;
        assert(text@ =~= Seq::new((i - len) as nat, |i: int| ' '));
    }
    text.append(number.as_str());
    text.append(" │ ");
    text
}

/// The number that decimal digits stand for.
pub open spec fn value_of(text: Seq<char>) -> int
    decreases text.len(),
{
    if text.len() == 0 {
        0
    } else {
        10 * value_of(text.drop_last()) + (text.last() as int - '0' as int)
    }
}

/// The digits of a number stand for it, are digits, and have no needless zero
/// in front.
pub proof fn law_digits(n: int)
    requires
        0 <= n,
    ensures
        value_of(digits(n)) == n,
        digits(n).len() > 0,
        digits(n).len() > 1 ==> digits(n)[0] != '0',
        n > 0 ==> digits(n)[0] != '0',
        forall|i: int| 0 <= i < digits(n).len() ==> '0' <= #[trigger] digits(n)[i] <= '9',
    decreases n,
{
    reveal_strlit("0123456789");
    let text = digits(n);
    if n < 10 {
        assert(text.drop_last() =~= Seq::empty());
        assert(value_of(text.drop_last()) == 0);
    } else {
        law_digits(n / 10);
        assert(text.drop_last() =~= digits(n / 10));
        assert forall|i: int| 0 <= i < text.len() implies '0' <= #[trigger] text[i] <= '9' by {
            if i < text.len() - 1 {
                assert(text[i] == digits(n / 10)[i]);
            }
        }
    }
}

/// Aligned to the right, a text stands at the end, with nothing but spaces
/// before it, and is as wide as asked for unless it is wider itself.
pub proof fn law_right_aligned(text: Seq<char>, width: int)
    ensures
        text.is_suffix_of(right_aligned(text, width)),
        right_aligned(text, width).len() == if text.len() < width {
            width
        } else {
            text.len() as int
        },
        forall|i: int|
            0 <= i < right_aligned(text, width).len() - text.len() ==> #[trigger] right_aligned(
                text,
                width,
            )[i] == ' ',
{
    let wide = right_aligned(text, width);
    assert(wide.subrange(wide.len() - text.len(), wide.len() as int) =~= text);
}

} // verus!
