//! Text helpers: the sentinel value, UTF-8 decoding, upper-casing and
//! substring search.
//!
//! Decoding and searching are done by the standard library; the two calls
//! whose behaviour vstd can state exactly (`str::from_utf8`,
//! `str::contains`) carry that exact contract, and the result of
//! `str::to_uppercase` is given a name, since spelling out Unicode case
//! mapping here would serve nobody.

use vstd::prelude::*;
use vstd::string::StringExecFns;
use vstd::utf8::{decode_utf8, valid_utf8};

verus! {

/// The sentinel substituted whenever a string field cannot be resolved.
pub open spec fn dash() -> Seq<char> {
    seq!['-']
}

/// Builds the sentinel string `"-"`.
pub fn dash_string() -> (r: String)
    ensures
        r@ == dash(),
{
    let r = String::from_str("-");
    proof {
        reveal_strlit("-");
        assert(r@ =~= dash());
    }
    r
}

/// Relies on `std::str::from_utf8`: it succeeds exactly on valid UTF-8
/// and returns the decoded characters.
#[verifier::external_body]
pub(crate) fn utf8_to_string(bytes: &[u8]) -> (r: Option<String>)
    ensures
        r is Some <==> valid_utf8(bytes@),
        r matches Some(s) ==> s@ == decode_utf8(bytes@),
{
    match std::str::from_utf8(bytes) {
        Ok(s) => Some(s.to_string()),
        Err(_) => None,
    }
}

/// The character sequence `str::to_uppercase` produces for the given one;
/// it depends on the input characters alone.
pub uninterp spec fn upper_of(s: Seq<char>) -> Seq<char>;

/// Relies on `str::to_uppercase`: the result is a function of the input
/// characters alone.
#[verifier::external_body]
pub(crate) fn to_upper(s: &str) -> (r: String)
    ensures
        r@ == upper_of(s@),
{
    s.to_uppercase()
}

/// True when `pattern` occurs in `s` as a contiguous run of characters.
pub open spec fn spec_contains(s: Seq<char>, pattern: Seq<char>) -> bool {
    exists|i: int|
        0 <= i && i + pattern.len() <= s.len() && #[trigger] s.subrange(i, i + pattern.len())
            == pattern
}

/// Relies on `str::contains` with a `&str` pattern: true exactly when the
/// pattern occurs as a substring.
#[verifier::external_body]
pub(crate) fn str_contains(s: &str, pattern: &str) -> (r: bool)
    ensures
        r == spec_contains(s@, pattern@),
{
    s.contains(pattern)
}

} // verus!
