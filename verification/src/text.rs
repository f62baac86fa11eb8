//! Splitting text into lines and putting lines together again.

use vstd::prelude::*;

verus! {

/// The pieces of `text` between its line feeds; at least one.
pub open spec fn split_lines(text: Seq<char>) -> Seq<Seq<char>>
    decreases text.len(),
{
    if text.len() == 0 {
        seq![Seq::empty()]
    } else {
        let rest = split_lines(text.drop_first());
        if text[0] == '\n' {
            seq![Seq::empty()] + rest
        } else {
            rest.update(0, seq![text[0]] + rest[0])
        }
    }
}

/// The lines put together, with a line feed between each two.
pub open spec fn join_lines(lines: Seq<Seq<char>>) -> Seq<char>
    decreases lines.len(),
{
    if lines.len() == 0 {
        Seq::empty()
    } else if lines.len() == 1 {
        lines[0]
    } else {
        join_lines(lines.drop_last()) + seq!['\n'] + lines.last()
    }
}

/// `text` without the carriage returns at its end.
pub open spec fn trim_cr(text: Seq<char>) -> Seq<char>
    decreases text.len(),
{
    if text.len() > 0 && text.last() == '\r' {
        trim_cr(text.drop_last())
    } else {
        text
    }
}

/// The lines that `content` holds: split at the line feeds, each without the
/// carriage returns at its end.
pub open spec fn content_lines(content: Seq<char>) -> Seq<Seq<char>> {
    split_lines(content).map_values(|line: Seq<char>| trim_cr(line))
}

/// The texts of a sequence of strings.
pub open spec fn texts(lines: Seq<String>) -> Seq<Seq<char>> {
    lines.map_values(|line: String| line@)
}

/// Whether a character has the Unicode property White_Space.
pub open spec fn is_white_space(c: char) -> bool {
    ||| '\u{9}' <= c <= '\u{d}'
    ||| c == ' ' || c == '\u{85}' || c == '\u{a0}' || c == '\u{1680}'
    ||| '\u{2000}' <= c <= '\u{200a}'
    ||| c == '\u{2028}' || c == '\u{2029}' || c == '\u{202f}' || c == '\u{205f}'
    ||| c == '\u{3000}'
}

/// `text` without the white space at its end.
pub open spec fn trim_space(text: Seq<char>) -> Seq<char>
    decreases text.len(),
{
    if text.len() > 0 && is_white_space(text.last()) {
        trim_space(text.drop_last())
    } else {
        text
    }
}

/// `str::split_once` at the first line feed: what stands before it and what
/// stands after it, or `None` where there is none.
#[verifier::external_body]
fn split_once_at_newline(text: &str) -> (parts: Option<(&str, &str)>)
    ensures
        match parts {
            Some((first, rest)) => text@ == first@ + seq!['\n'] + rest@ && !first@.contains('\n'),
            None => !text@.contains('\n'),
        },
{
    text.split_once('\n')
}

/// `str::trim_end_matches` on carriage returns: all those at the end go, and
/// nothing else.
#[verifier::external_body]
fn trim_end_cr(text: &str) -> (short: &str)
    ensures
        short@.len() <= text@.len(),
        short@ == text@.take(short@.len() as int),
        short@.len() > 0 ==> short@.last() != '\r',
        forall|i: int| short@.len() <= i < text@.len() ==> #[trigger] text@[i] == '\r',
{
    text.trim_end_matches('\r')
}

/// `str::trim_end`: the white space at the end goes, and nothing else. White
/// space is what has the Unicode property White_Space.
#[verifier::external_body]
pub(crate) fn trim_end(text: &str) -> (short: &str)
    ensures
        short@ == trim_space(text@),
{
    text.trim_end()
}

proof fn lemma_split_nonempty(text: Seq<char>)
    ensures
        split_lines(text).len() > 0,
    decreases text.len(),
{
    if text.len() > 0 {
        lemma_split_nonempty(text.drop_first());
    }
}

proof fn lemma_split_without_newline(text: Seq<char>)
    requires
        !text.contains('\n'),
    ensures
        split_lines(text) == seq![text],
    decreases text.len(),
{
    if text.len() == 0 {
        assert(text =~= Seq::empty());
    } else {
        let tail = text.drop_first();
        assert(text[0] != '\n');
        assert forall|i: int| 0 <= i < tail.len() implies tail[i] != '\n' by {
            assert(text[i + 1] != '\n');
        }
        lemma_split_without_newline(tail);
        assert(seq![text[0]] + tail =~= text);
        assert(split_lines(text) =~= seq![text]);
    }
}

proof fn lemma_split_at_newline(first: Seq<char>, rest: Seq<char>)
    requires
        !first.contains('\n'),
    ensures
        split_lines(first + seq!['\n'] + rest) == seq![first] + split_lines(rest),
    decreases first.len(),
{
    let text = first + seq!['\n'] + rest;
    if first.len() == 0 {
        assert(text.drop_first() =~= rest);
        assert(first =~= Seq::empty());
    } else {
        let tail = first.drop_first();
        assert(first[0] != '\n');
        assert forall|i: int| 0 <= i < tail.len() implies tail[i] != '\n' by {
            assert(first[i + 1] != '\n');
        }
        lemma_split_at_newline(tail, rest);
        assert(text.drop_first() =~= tail + seq!['\n'] + rest);
        assert(seq![first[0]] + tail =~= first);
        assert(split_lines(text) =~= seq![first] + split_lines(rest));
    }
}

proof fn lemma_trim_cr(text: Seq<char>, short: Seq<char>)
    requires
        short.len() <= text.len(),
        short == text.take(short.len() as int),
        short.len() > 0 ==> short.last() != '\r',
        forall|i: int| short.len() <= i < text.len() ==> #[trigger] text[i] == '\r',
    ensures
        trim_cr(text) == short,
    decreases text.len(),
{
    if short.len() < text.len() {
        assert(text[text.len() - 1] == '\r');
        assert(short =~= text.drop_last().take(short.len() as int));
        lemma_trim_cr(text.drop_last(), short);
    } else {
        assert(short =~= text);
    }
}

/// The lines that `content` holds.
pub fn split_content(content: &str) -> (lines: Vec<String>)
    ensures
        texts(lines@) == content_lines(content@),
{
    let mut lines: Vec<String> = Vec::new();
    let mut rest: &str = content;
    assert(texts(lines@) + content_lines(rest@) =~= content_lines(content@));
    loop
        invariant
            texts(lines@) + content_lines(rest@) == content_lines(content@),
        decreases rest@.len(),
    {
        match split_once_at_newline(rest) {
            Some((first, tail)) => {
                let short = trim_end_cr(first);
                let ghost before = lines@;
                proof {
                    lemma_split_at_newline(first@, tail@);
                    lemma_trim_cr(first@, short@);
                    assert(content_lines(rest@) =~= seq![short@] + content_lines(tail@));
                }
                lines.push(short.to_string());
                assert(texts(lines@) =~= texts(before).push(short@));
                assert(texts(lines@) + content_lines(tail@) =~= texts(before) + content_lines(rest@));
                rest = tail;
            },
            None => {
                let short = trim_end_cr(rest);
                let ghost before = lines@;
                proof {
                    lemma_split_without_newline(rest@);
                    lemma_trim_cr(rest@, short@);
                    assert(content_lines(rest@) =~= seq![short@]);
                }
                lines.push(short.to_string());
                assert(texts(lines@) =~= texts(before) + content_lines(rest@));
                return lines;
            },
        }
    }
}

/// The lines put together, with a line feed between each two.
pub fn join(lines: &Vec<String>) -> (text: String)
    ensures
        text@ == join_lines(texts(lines@)),
{
    let mut text = String::new();
    let mut i: usize = 0;
    while i < lines.len()
        invariant
            i <= lines@.len(),
            text@ == join_lines(texts(lines@.take(i as int))),
        decreases lines@.len() - i,
    {
        if i > 0 {
            text.append("\n");
        }
        text.append(lines[i].as_str());
        proof {
            reveal_strlit("\n");
            let now = texts(lines@.take(i + 1));
            assert(now.drop_last() =~= texts(lines@.take(i as int)));
            assert(now.last() == lines@[i as int]@);
            assert("\n"@ =~= seq!['\n']);
            assert(text@ =~= join_lines(now));
        }
        i += 1;
    }
    assert(lines@.take(i as int) =~= lines@);
    text
}

/// Putting the pieces of a text together again gives the text.
pub proof fn law_join_split(text: Seq<char>)
    ensures
        join_lines(split_lines(text)) == text,
    decreases text.len(),
{
    if text.len() > 0 {
        let rest = split_lines(text.drop_first());
        law_join_split(text.drop_first());
        lemma_split_nonempty(text.drop_first());
        if text[0] == '\n' {
            lemma_join_front(Seq::empty(), rest);
            assert(text =~= Seq::<char>::empty() + seq!['\n'] + text.drop_first());
        } else {
            lemma_join_first(rest, text[0]);
            assert(text =~= seq![text[0]] + text.drop_first());
        }
    }
}

proof fn lemma_join_front(first: Seq<char>, rest: Seq<Seq<char>>)
    requires
        rest.len() > 0,
    ensures
        join_lines(seq![first] + rest) == first + seq!['\n'] + join_lines(rest),
    decreases rest.len(),
{
    let all = seq![first] + rest;
    if rest.len() == 1 {
        assert(all.drop_last() =~= seq![first]);
        assert(join_lines(seq![first]) == first);
        assert(join_lines(all) =~= first + seq!['\n'] + join_lines(rest));
    } else {
        lemma_join_front(first, rest.drop_last());
        assert(all.drop_last() =~= seq![first] + rest.drop_last());
        assert(all.last() == rest.last());
        assert(join_lines(all) =~= first + seq!['\n'] + join_lines(rest));
    }
}

proof fn lemma_join_first(lines: Seq<Seq<char>>, c: char)
    requires
        lines.len() > 0,
    ensures
        join_lines(lines.update(0, seq![c] + lines[0])) == seq![c] + join_lines(lines),
    decreases lines.len(),
{
    let all = lines.update(0, seq![c] + lines[0]);
    if lines.len() > 1 {
        lemma_join_first(lines.drop_last(), c);
        assert(all.drop_last() =~= lines.drop_last().update(0, seq![c] + lines.drop_last()[0]));
        assert(join_lines(all) =~= seq![c] + join_lines(lines));
    }
}

/// Lines that were put together come apart again as they were, if none of them
/// holds a line feed or ends in a carriage return.
pub proof fn law_split_join(lines: Seq<Seq<char>>)
    requires
        lines.len() > 0,
        forall|i: int|
            0 <= i < lines.len() ==> crate::codec::is_line_text(#[trigger] lines[i]),
    ensures
        content_lines(join_lines(lines)) == lines,
    decreases lines.len(),
{
    let first = lines[0];
    assert(crate::codec::is_line_text(first));
    if lines.len() == 1 {
        lemma_split_without_newline(first);
        assert(content_lines(join_lines(lines)) =~= lines);
    } else {
        let rest = lines.drop_first();
        assert forall|i: int| 0 <= i < rest.len() implies crate::codec::is_line_text(
            #[trigger] rest[i],
        ) by {
            assert(rest[i] == lines[i + 1]);
        }
        law_split_join(rest);
        assert(lines =~= seq![first] + rest);
        lemma_join_front(first, rest);
        lemma_split_at_newline(first, join_lines(rest));
        assert(content_lines(join_lines(lines)) =~= seq![trim_cr(first)] + content_lines(
            join_lines(rest),
        ));
    }
}

/// Every line that a content is split into is one line.
pub proof fn law_content_lines_are_lines(content: Seq<char>)
    ensures
        content_lines(content).len() > 0,
        forall|i: int|
            0 <= i < content_lines(content).len() ==> crate::codec::is_line_text(
                #[trigger] content_lines(content)[i],
            ),
{
    lemma_split_nonempty(content);
    lemma_split_has_no_newline(content);
    assert forall|i: int| 0 <= i < content_lines(content).len() implies crate::codec::is_line_text(
        #[trigger] content_lines(content)[i],
    ) by {
        lemma_trim_cr_is_prefix(split_lines(content)[i]);
    }
}

proof fn lemma_split_has_no_newline(text: Seq<char>)
    ensures
        forall|i: int|
            0 <= i < split_lines(text).len() ==> !(#[trigger] split_lines(text)[i]).contains('\n'),
    decreases text.len(),
{
    if text.len() > 0 {
        let rest = split_lines(text.drop_first());
        lemma_split_has_no_newline(text.drop_first());
        lemma_split_nonempty(text.drop_first());
        assert forall|i: int| 0 <= i < split_lines(text).len() implies !(
        #[trigger] split_lines(text)[i]).contains('\n') by {
            if text[0] == '\n' {
                if i > 0 {
                    assert(split_lines(text)[i] == rest[i - 1]);
                }
            } else if i == 0 {
                let line = split_lines(text)[0];
                assert(line == seq![text[0]] + rest[0]);
                assert forall|k: int| 0 <= k < line.len() implies line[k] != '\n' by {
                    if k > 0 {
                        assert(line[k] == rest[0][k - 1]);
                        assert(!rest[0].contains('\n'));
                    }
                }
            } else {
                assert(split_lines(text)[i] == rest[i]);
            }
        }
    }
}

proof fn lemma_trim_cr_is_prefix(text: Seq<char>)
    ensures
        trim_cr(text).len() <= text.len(),
        trim_cr(text) == text.take(trim_cr(text).len() as int),
        trim_cr(text).len() > 0 ==> trim_cr(text).last() != '\r',
    decreases text.len(),
{
    if text.len() > 0 && text.last() == '\r' {
        lemma_trim_cr_is_prefix(text.drop_last());
        assert(trim_cr(text) =~= text.take(trim_cr(text).len() as int));
    } else {
        assert(text =~= text.take(text.len() as int));
    }
}

/// Two lists of lines put together are each put together, with a line feed
/// between them; one line alone is itself.
pub proof fn law_join_concat(a: Seq<Seq<char>>, b: Seq<Seq<char>>, line: Seq<char>)
    ensures
        join_lines(seq![line]) == line,
        a.len() > 0 && b.len() > 0 ==> join_lines(a + b) == join_lines(a) + seq!['\n']
            + join_lines(b),
    decreases b.len(),
{
    assert(join_lines(seq![line]) == line);
    if a.len() > 0 && b.len() == 1 {
        assert((a + b).drop_last() =~= a);
        assert((a + b).last() == b[0]);
    } else if a.len() > 0 && b.len() > 1 {
        law_join_concat(a, b.drop_last(), line);
        assert((a + b).drop_last() =~= a + b.drop_last());
        assert((a + b).last() == b.last());
        assert(join_lines(a + b) =~= join_lines(a) + seq!['\n'] + join_lines(b));
    }
}

/// A text has one line more than line feeds: before the first one, between each
/// two and after the last. Each is a line of the content, without the carriage
/// returns at its end and with nothing else gone.
pub proof fn law_content_lines(text: Seq<char>, i: int)
    ensures
        split_lines(text).len() > 0,
        join_lines(split_lines(text)) == text,
        content_lines(text).len() == split_lines(text).len(),
        0 <= i < split_lines(text).len() ==> {
            let whole = split_lines(text)[i];
            let line = content_lines(text)[i];
            &&& !whole.contains('\n')
            &&& line.is_prefix_of(whole)
            &&& line.len() > 0 ==> line.last() != '\r'
            &&& forall|k: int| line.len() <= k < whole.len() ==> #[trigger] whole[k] == '\r'
        },
{
    lemma_split_nonempty(text);
    law_join_split(text);
    lemma_split_has_no_newline(text);
    if 0 <= i < split_lines(text).len() {
        lemma_trim_cr_is_prefix(split_lines(text)[i]);
        lemma_trim_cr_rest(split_lines(text)[i]);
        assert(content_lines(text)[i] == trim_cr(split_lines(text)[i]));
    }
}

proof fn lemma_trim_cr_rest(text: Seq<char>)
    ensures
        forall|k: int| trim_cr(text).len() <= k < text.len() ==> #[trigger] text[k] == '\r',
    decreases text.len(),
{
    if text.len() > 0 && text.last() == '\r' {
        lemma_trim_cr_rest(text.drop_last());
        assert forall|k: int| trim_cr(text).len() <= k < text.len() implies #[trigger] text[k]
            == '\r' by {
            if k < text.len() - 1 {
                assert(text.drop_last()[k] == '\r');
            }
        }
    }
}

/// What is taken off the end of a text is white space, all that stands there,
/// and nothing else.
pub proof fn law_trim_space(text: Seq<char>)
    ensures
        trim_space(text).is_prefix_of(text),
        trim_space(text).len() > 0 ==> !is_white_space(trim_space(text).last()),
        forall|k: int|
            trim_space(text).len() <= k < text.len() ==> is_white_space(#[trigger] text[k]),
    decreases text.len(),
{
    if text.len() > 0 && is_white_space(text.last()) {
        let front = text.drop_last();
        law_trim_space(front);
        assert(trim_space(text) =~= text.take(trim_space(text).len() as int));
        assert forall|k: int|
            trim_space(text).len() <= k < text.len() implies is_white_space(#[trigger] text[k]) by {
            if k < front.len() {
                assert(is_white_space(front[k]));
            }
        }
    } else {
        assert(text =~= text.take(text.len() as int));
    }
}

/// White space in ASCII is the space, the tab, the line breaks and what stands
/// between those; letters, digits and signs are none.
pub proof fn law_ascii_white_space(c: char)
    requires
        c < '\u{80}',
    ensures
        is_white_space(c) <==> c == ' ' || c == '\t' || c == '\n' || c == '\u{b}' || c == '\u{c}'
            || c == '\r',
{
}

/// The texts of strings are one for each of them, in their order.
pub proof fn law_texts(lines: Seq<String>, i: int)
    ensures
        texts(lines).len() == lines.len(),
        0 <= i < lines.len() ==> texts(lines)[i] == lines[i]@,
{
}

} // verus!
