//! Matching and joining of text, stated over sequences of characters.

use vstd::prelude::*;

verus! {

/// `phrase` occurs in `text` at character offset `at`.
pub open spec fn occurs_at(text: Seq<char>, phrase: Seq<char>, at: int) -> bool {
    &&& 0 <= at
    &&& at + phrase.len() <= text.len()
    &&& text.subrange(at, at + phrase.len()) == phrase
}

/// `phrase` occurs somewhere in `text`.
pub open spec fn contains_phrase(text: Seq<char>, phrase: Seq<char>) -> bool {
    exists|at: int| occurs_at(text, phrase, at)
}

/// Some member of `phrases` occurs in `text`.
pub open spec fn contains_any(text: Seq<char>, phrases: Seq<Seq<char>>) -> bool {
    exists|k: int| 0 <= k < phrases.len() && contains_phrase(text, #[trigger] phrases[k])
}

/// Substring test of `str::contains` with a string pattern: true exactly when
/// `phrase` equals some contiguous run of characters of `text`.
#[verifier::external_body]
pub(crate) fn str_contains(text: &str, phrase: &str) -> (found: bool)
    ensures
        found == contains_phrase(text@, phrase@),
{
    text.contains(phrase)
}

/// Prefix test of `str::starts_with` with a string pattern: true exactly when
/// `text` begins with the characters of `prefix`.
#[verifier::external_body]
pub(crate) fn str_starts_with(text: &str, prefix: &str) -> (found: bool)
    ensures
        found == prefix@.is_prefix_of(text@),
{
    text.starts_with(prefix)
}

/// The character sequences of a list of borrowed phrases.
pub open spec fn literal_views(phrases: Seq<&str>) -> Seq<Seq<char>> {
    Seq::new(phrases.len(), |k: int| phrases[k]@)
}

/// The character sequences of a list of owned phrases.
pub open spec fn phrase_views(phrases: Seq<String>) -> Seq<Seq<char>> {
    Seq::new(phrases.len(), |k: int| phrases[k]@)
}

/// Whether any of the borrowed `phrases` occurs in `text`.
pub fn contains_any_literal(text: &str, phrases: &[&str]) -> (found: bool)
    ensures
        found == contains_any(text@, literal_views(phrases@)),
{
    let ghost views = literal_views(phrases@);
    let mut i: usize = 0;
    while i < phrases.len()
        invariant
            i <= phrases.len(),
            views == literal_views(phrases@),
            forall|k: int| 0 <= k < i ==> !contains_phrase(text@, #[trigger] views[k]),
        decreases phrases.len() - i,
    {
        if str_contains(text, phrases[i]) {
            assert(contains_phrase(text@, views[i as int]));
            return true;
        }
        i += 1;
    }
    false
}

/// Whether any of the owned `phrases` occurs in `text`.
pub fn contains_any_owned(text: &str, phrases: &Vec<String>) -> (found: bool)
    ensures
        found == contains_any(text@, phrase_views(phrases@)),
{
    let ghost views = phrase_views(phrases@);
    let mut i: usize = 0;
    while i < phrases.len()
        invariant
            i <= phrases.len(),
            views == phrase_views(phrases@),
            forall|k: int| 0 <= k < i ==> !contains_phrase(text@, #[trigger] views[k]),
        decreases phrases.len() - i,
    {
        if str_contains(text, phrases[i].as_str()) {
            assert(contains_phrase(text@, views[i as int]));
            return true;
        }
        i += 1;
    }
    false
}

/// The three pieces joined in order.
pub fn join3(first: &str, second: &str, third: &str) -> (joined: String)
    ensures
        joined@ == first@ + second@ + third@,
{
    let mut joined = first.to_owned();
    joined.append(second);
    joined.append(third);
    joined
}

} // verus!
