//! Fresh identifiers and random strings, drawn through outside crates.
//!
//! Everything here depends on entropy or on the clock, so the contracts
//! promise only what holds of every outcome.

use rand::RngExt;
use vstd::prelude::*;

verus! {

/// True of ASCII letters and digits, the alphabet of generated passwords
/// and verifier strings.
pub open spec fn is_alphanumeric_char(c: char) -> bool {
    ('a' <= c && c <= 'z') || ('A' <= c && c <= 'Z') || ('0' <= c && c <= '9')
}

/// Relies on uuid::Uuid::now_v7: a fresh time-ordered 128-bit tag.
/// Two calls may return anything, including equal values, so nothing is
/// promised of the result; callers that need distinctness must check it.
#[verifier::external_body]
pub(crate) fn new_tag() -> u128 {
    uuid::Uuid::now_v7().as_u128()
}

/// Relies on rand's Alphanumeric distribution: every sampled byte is an
/// ASCII letter or digit, and `take(len)` yields exactly `len` of them.
#[verifier::external_body]
pub(crate) fn random_alphanumeric_string(len: usize) -> (r: String)
    ensures
        r@.len() == len as nat,
        forall|i: int| 0 <= i < r@.len() ==> is_alphanumeric_char(#[trigger] r@[i]),
{
    rand::rng()
        .sample_iter(&rand::distr::Alphanumeric)
        .take(len)
        .map(char::from)
        .collect()
}

} // verus!
