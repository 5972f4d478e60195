//! Patterns over log types: regular expressions of the `regex` crate, and
//! what this library takes for granted of them.

use vstd::prelude::*;

verus! {

/// `regex::Regex`, a compiled regular expression. Nothing inside it is
/// seen; what is said of it is said through `pattern_source`.
#[verifier::external_type_specification]
#[verifier::external_body]
pub struct ExRegex(regex::Regex);

/// Whether `regex::Regex::new` accepts the pattern.
pub uninterp spec fn pattern_compiles(pattern: Seq<char>) -> bool;

/// Whether a regex that `regex::Regex::new` compiled from the pattern finds a
/// match anywhere in the text.
pub uninterp spec fn pattern_matches(pattern: Seq<char>, text: Seq<char>) -> bool;

/// The pattern that a compiled regex was made from: what its `as_str`
/// returns.
pub uninterp spec fn pattern_source(re: regex::Regex) -> Seq<char>;

/// Whether a compiled regex finds a match anywhere in the text. Two regexes
/// made from one pattern need not agree: a builder may have set flags that
/// the pattern does not show.
pub uninterp spec fn regex_matches(re: regex::Regex, text: Seq<char>) -> bool;

/// `regex::Regex::as_str`: the string that the regex was compiled from.
pub assume_specification[ regex::Regex::as_str ](re: &regex::Regex) -> (s: &str)
    ensures
        s@ == pattern_source(*re),
;

/// `regex::Regex::new`, with the error dropped. Whether it compiles a
/// pattern depends on the pattern alone; a compiled regex keeps the pattern
/// it came from, and what it matches depends on that pattern and the text
/// alone, since `new` builds with the default flags.
#[verifier::external_body]
pub(crate) fn compile(pattern: &str) -> (r: Option<regex::Regex>)
    ensures
        r.is_some() == pattern_compiles(pattern@),
        r.is_some() ==> pattern_source(r.unwrap()) == pattern@,
        r.is_some() ==> forall|text: Seq<char>| #[trigger]
            regex_matches(r.unwrap(), text) == pattern_matches(pattern@, text),
{
    regex::Regex::new(pattern).ok()
}

/// `regex::Regex::is_match`: whether the regex finds a match anywhere in the
/// haystack, which depends on the regex and the haystack alone.
pub assume_specification[ regex::Regex::is_match ](re: &regex::Regex, haystack: &str) -> (b: bool)
    ensures
        b == regex_matches(*re, haystack@),
;

} // verus!
