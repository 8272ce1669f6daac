//! Addresses, checked with the `url` crate as `reqwest` re-exports it.
use vstd::prelude::*;

verus! {

/// Whether `Url::parse` accepts `input` as an absolute URL.
pub uninterp spec fn url_parses(input: Seq<char>) -> bool;

/// Calls `reqwest::Url::parse` (that is, `url::Url::parse`); claims that it succeeds
/// exactly when the named `url_parses` holds of the input. The parsed URL is dropped:
/// the library keeps the text it checked.
#[verifier::external_body]
pub(crate) fn url_is_valid(input: &str) -> (r: bool)
    ensures
        r == url_parses(input@),
{
    reqwest::Url::parse(input).is_ok()
}

} // verus!
