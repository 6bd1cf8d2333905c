use crate::text::spans_fit;
use vstd::prelude::*;

verus! {

/// `regex::Regex`, a compiled regular expression of the regex crate. Nothing
/// inside it is seen here: it is made by `compile_regex` and handed to the
/// searches.
#[verifier::external_type_specification]
#[verifier::external_body]
pub struct ExRegex(regex::Regex);

/// `regex::Error`, what the regex crate gives for a pattern that it does not
/// compile. Nothing inside it is seen here.
#[verifier::external_type_specification]
#[verifier::external_body]
pub struct ExRegexError(regex::Error);

/// Whether `regex::Regex::new` compiles `pattern`.
pub uninterp spec fn regex_compiles(pattern: Seq<char>) -> bool;

/// The pattern text that a compiled regular expression was made from: what
/// `regex::Regex::as_str` gives for it.
pub uninterp spec fn regex_pattern(re: regex::Regex) -> Seq<char>;

/// The byte ranges of the successive non-overlapping matches of `pattern`
/// in `text`, in the order in which `regex::Regex::find_iter` gives them.
pub uninterp spec fn regex_matches(pattern: Seq<char>, text: Seq<char>) -> Seq<(usize, usize)>;

/// `regex::Regex::new`: compiles `pattern`. Whether it succeeds depends on
/// the pattern alone, and the compiled expression remembers the pattern it
/// was made from.
#[verifier::external_body]
pub(crate) fn compile_regex(pattern: &str) -> (r: Result<regex::Regex, regex::Error>)
    ensures
        r is Ok <==> regex_compiles(pattern@),
        r matches Ok(re) ==> regex_pattern(re) == pattern@,
{
    regex::Regex::new(pattern)
}

/// `regex::Regex::is_match`: true exactly where the expression has a match
/// somewhere in `text`.
#[verifier::external_body]
pub(crate) fn is_match(re: &regex::Regex, text: &str) -> (found: bool)
    ensures
        found == (regex_matches(regex_pattern(*re), text@).len() > 0),
{
    re.is_match(text)
}

/// `regex::Regex::find_iter`: the successive non-overlapping matches of the
/// expression in `text`, each as its start and end byte offset. The offsets
/// of a match lie on character boundaries, with the start not after the end,
/// and a match starts no earlier than the one before it ended.
#[verifier::external_body]
pub(crate) fn find_all(re: &regex::Regex, text: &str) -> (spans: Vec<(usize, usize)>)
    ensures
        spans@ == regex_matches(regex_pattern(*re), text@),
        spans_fit(text@, spans@),
{
    re.find_iter(text).map(|m| (m.start(), m.end())).collect()
}

} // verus!
