//! Regular-expression predicates over text.

use regex::Regex;
use vstd::prelude::*;

verus! {

#[verifier::external_type_specification]
#[verifier::external_body]
pub struct ExRegexError(regex::Error);

/// Whether `pattern` is accepted as a regular expression.
pub uninterp spec fn pattern_compiles(pattern: Seq<char>) -> bool;

/// Whether the regular expression written as `pattern` matches somewhere in
/// `text`.
pub uninterp spec fn pattern_matches(pattern: Seq<char>, text: Seq<char>) -> bool;

/// `Regex::new` on the pattern, then `Regex::is_match` on the text. Whether
/// the pattern compiles depends on the pattern alone; whether the compiled
/// expression matches somewhere in the text depends on the pattern and the
/// text alone. An error is the one that compiling gave.
#[verifier::external_body]
pub(crate) fn regex_is_match(pattern: &str, text: &str) -> (found: Result<bool, regex::Error>)
    ensures
        found is Ok <==> pattern_compiles(pattern@),
        found is Ok ==> found->Ok_0 == pattern_matches(pattern@, text@),
{
    match Regex::new(pattern) {
        Ok(compiled) => Ok(compiled.is_match(text)),
        Err(error) => Err(error),
    }
}

/// Whether `pattern` is a regular expression that matches somewhere in
/// `text`. A pattern that does not compile matches nothing.
pub open spec fn pattern_hits(pattern: Seq<char>, text: Seq<char>) -> bool {
    pattern_compiles(pattern) && pattern_matches(pattern, text)
}

/// Some member of `patterns` compiles and matches somewhere in `text`.
pub open spec fn any_pattern_hits(text: Seq<char>, patterns: Seq<Seq<char>>) -> bool {
    exists|k: int| 0 <= k < patterns.len() && pattern_hits(#[trigger] patterns[k], text)
}

/// What a search with one pattern says: a match counts, and a pattern that
/// did not compile is passed over.
pub fn search_outcome(found: Result<bool, regex::Error>) -> (hit: bool)
    ensures
        hit == (found is Ok && found->Ok_0),
{
    match found {
        Ok(matched) => matched,
        Err(_) => false,
    }
}

/// Whether `pattern` is a regular expression that matches somewhere in `text`.
pub fn matches_pattern(pattern: &str, text: &str) -> (found: bool)
    ensures
        found == pattern_hits(pattern@, text@),
{
    search_outcome(regex_is_match(pattern, text))
}

} // verus!
