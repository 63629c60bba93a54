//! Calls into uuid, chrono and std's text functions, with what the library
//! relies on of each.

use vstd::prelude::*;

verus! {

/// What `str::trim` returns for `s`: `s` without leading and trailing
/// whitespace.
pub uninterp spec fn trimmed(s: Seq<char>) -> Seq<char>;

/// What `str::to_lowercase` returns for `s`.
pub uninterp spec fn lowered(s: Seq<char>) -> Seq<char>;

/// The hyphenated text of the UUID whose 128-bit value is `v`.
pub uninterp spec fn uuid_text_of(v: u128) -> Seq<char>;

/// Relies on uuid::Uuid::new_v4 and Uuid::as_u128: a random version-4
/// UUID as its 128-bit value. Nothing is promised of the value.
#[verifier::external_body]
pub(crate) fn random_session_id() -> (r: u128) {
    uuid::Uuid::new_v4().as_u128()
}

/// Relies on uuid::Uuid::from_u128 and its `Display`: the hyphenated text
/// of a UUID, which depends on the value alone.
#[verifier::external_body]
pub(crate) fn uuid_text(v: u128) -> (r: String)
    ensures
        r@ == uuid_text_of(v),
{
    uuid::Uuid::from_u128(v).to_string()
}

/// Relies on chrono::Utc::now and DateTime::to_rfc3339: the current UTC
/// time in RFC 3339 form. Nothing is promised of the value.
#[verifier::external_body]
pub(crate) fn utc_now_rfc3339() -> (r: String) {
    chrono::Utc::now().to_rfc3339()
}

/// Relies on str::trim: the text without leading and trailing whitespace,
/// which depends on the text alone and is never longer than it.
#[verifier::external_body]
pub(crate) fn trim(s: &str) -> (r: &str)
    ensures
        r@ == trimmed(s@),
        r@.len() <= s@.len(),
{
    s.trim()
}

/// Relies on str::to_lowercase: the lowercase form of the text, which
/// depends on the text alone.
#[verifier::external_body]
pub(crate) fn lowercase(s: &str) -> (r: String)
    ensures
        r@ == lowered(s@),
{
    s.to_lowercase()
}

} // verus!
