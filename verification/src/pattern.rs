//! Regular expressions, from the `regex` crate.
//!
//! What a regular expression matches takes the crate's documentation pages to
//! describe, so the results of its searches are named here and not spelled out:
//! each name stands for what the crate computes from the given pattern and text.
use vstd::prelude::*;

verus! {

/// Whether `regex::Regex::new` accepts `pattern` (it refuses bad syntax and
/// patterns over its default size limits).
pub uninterp spec fn regex_compiles(pattern: Seq<char>) -> bool;

/// What `Regex::replace_all` returns: `haystack` with every leftmost-first,
/// non-overlapping match of `pattern` replaced by `replacement`.
pub uninterp spec fn regex_replaced(
    pattern: Seq<char>,
    haystack: Seq<char>,
    replacement: Seq<char>,
) -> Seq<char>;

/// What `Regex::is_match` returns: whether `pattern` matches anywhere in `haystack`.
pub uninterp spec fn regex_finds(pattern: Seq<char>, haystack: Seq<char>) -> bool;

/// Calls `regex::Regex::new`; claims that the answer is the named `regex_compiles`.
#[verifier::external_body]
pub(crate) fn regex_is_valid(pattern: &str) -> (r: bool)
    ensures
        r == regex_compiles(pattern@),
{
    regex::Regex::new(pattern).is_ok()
}

/// Compiles `pattern` with `regex::Regex::new` (which the `requires` says succeeds) and
/// calls `Regex::replace_all`; claims that the text returned is the named
/// `regex_replaced` of the pattern, the haystack and the replacement. (In the
/// replacement, `$` names a capture group; the library passes only "".)
#[verifier::external_body]
pub(crate) fn regex_replace_all(pattern: &str, haystack: &str, replacement: &str) -> (r: String)
    requires
        regex_compiles(pattern@),
    ensures
        r@ == regex_replaced(pattern@, haystack@, replacement@),
{
    regex::Regex::new(pattern).unwrap().replace_all(haystack, replacement).into_owned()
}

/// Compiles `pattern` with `regex::Regex::new` (which the `requires` says succeeds) and
/// calls `Regex::is_match`; claims that the answer is the named `regex_finds`.
#[verifier::external_body]
pub(crate) fn regex_is_match(pattern: &str, haystack: &str) -> (r: bool)
    requires
        regex_compiles(pattern@),
    ensures
        r == regex_finds(pattern@, haystack@),
{
    regex::Regex::new(pattern).unwrap().is_match(haystack)
}

} // verus!
