//! Regular expressions, by way of the `regex` crate.

use regex::Regex;
use vstd::prelude::*;
use vstd::utf8::{encode_utf8, is_char_boundary};

verus! {

/// A compiled regular expression; what is inside one stays unseen.
#[verifier::external_type_specification]
#[verifier::external_body]
pub struct ExRegex(Regex);

/// Why a pattern is no regular expression; what is inside stays unseen.
#[verifier::external_type_specification]
#[verifier::external_body]
pub struct ExRegexError(regex::Error);

/// What `Regex::new` makes of a pattern.
pub uninterp spec fn compiled(pattern: Seq<char>) -> Result<Regex, regex::Error>;

/// The message of an error of the `regex` crate.
pub uninterp spec fn error_message(error: regex::Error) -> Seq<char>;

/// Whether `Regex::is_match` finds a match in a text.
pub uninterp spec fn finds_match(re: Regex, text: Seq<char>) -> bool;

/// What `Regex::replace_all` makes of a text.
pub uninterp spec fn replaced(re: Regex, text: Seq<char>, replacement: Seq<char>) -> Seq<char>;

/// Where `Regex::find_iter` finds matches in a text: the byte positions at
/// which each one starts and ends.
pub uninterp spec fn match_ranges(re: Regex, text: Seq<char>) -> Seq<(usize, usize)>;

/// Whether `ranges` lie in `bytes` one after the other, without overlap, and
/// cut no character apart.
pub open spec fn are_ranges_in(ranges: Seq<(usize, usize)>, bytes: Seq<u8>) -> bool {
    &&& forall|k: int|
        0 <= k < ranges.len() ==> {
            let (start, end) = #[trigger] ranges[k];
            &&& start <= end <= bytes.len()
            &&& is_char_boundary(bytes, start as int)
            &&& is_char_boundary(bytes, end as int)
        }
    &&& forall|k: int, l: int|
        0 <= k < l < ranges.len() ==> (#[trigger] ranges[k]).1 <= (#[trigger] ranges[l]).0
}

/// `Regex::new`: the result is only named.
#[verifier::external_body]
pub(crate) fn compile(pattern: &str) -> (result: Result<Regex, regex::Error>)
    ensures
        result == compiled(pattern@),
{
    Regex::new(pattern)
}

/// `to_string` on an error of the `regex` crate: the result is only named.
#[verifier::external_body]
fn describe(error: &regex::Error) -> (message: String)
    ensures
        message@ == error_message(*error),
{
    error.to_string()
}

/// `Regex::is_match`: the result is only named.
#[verifier::external_body]
pub(crate) fn is_match(re: &Regex, text: &str) -> (found: bool)
    ensures
        found == finds_match(*re, text@),
{
    re.is_match(text)
}

/// `Regex::replace_all` with a replacement string: the result is only named.
#[verifier::external_body]
pub(crate) fn replace_all(re: &Regex, text: &str, replacement: &str) -> (result: String)
    ensures
        result@ == replaced(*re, text@, replacement@),
{
    re.replace_all(text, replacement).into_owned()
}

/// `Regex::find_iter`, each match as the byte positions of its start and its
/// end. Which matches there are is only named; they do not overlap, they come
/// in order, and they can be cut out of the text.
#[verifier::external_body]
pub(crate) fn find_ranges(re: &Regex, text: &str) -> (ranges: Vec<(usize, usize)>)
    ensures
        ranges@ == match_ranges(*re, text@),
        are_ranges_in(ranges@, encode_utf8(text@)),
{
    re.find_iter(text).map(|found| (found.start(), found.end())).collect()
}

/// `pattern` as a regular expression, or why it is none.
pub fn parse(pattern: &str) -> (result: Result<Regex, String>)
    ensures
        match compiled(pattern@) {
            Ok(re) => result == Ok::<Regex, String>(re),
            Err(error) => result matches Err(message) && message@ == error_message(error),
        },
{
    match compile(pattern) {
        Ok(re) => Ok(re),
        Err(error) => Err(describe(&error)),
    }
}

/// `text` with every match of `pattern` replaced, or `None` where `pattern` is
/// no regular expression.
pub fn replace_in_text(pattern: &str, replacement: &str, text: &str) -> (result: Option<String>)
    ensures
        match compiled(pattern@) {
            Ok(re) => result matches Some(s) && s@ == replaced(re, text@, replacement@),
            Err(_) => result is None,
        },
{
    match compile(pattern) {
        Ok(re) => Some(replace_all(&re, text, replacement)),
        Err(_) => None,
    }
}

} // verus!
