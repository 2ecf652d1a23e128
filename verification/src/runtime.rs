//! Calls into the environment: fresh identifiers and the current time. Both
//! depend on state outside the store (randomness and the clock), so nothing
//! is assumed about which value comes back beyond its shape, and every
//! caller states what holds of its result whatever value was drawn.

use vstd::prelude::*;

verus! {

/// Relies on uuid::Uuid::new_v4 and its Display impl: a fresh random
/// identifier is rendered in the hyphenated form, which is always 36
/// characters.
#[verifier::external_body]
pub(crate) fn fresh_uuid() -> (r: String)
    ensures
        r@.len() == 36,
{
    uuid::Uuid::new_v4().to_string()
}

/// Relies on chrono::Utc::now and DateTime::to_rfc3339: the current UTC
/// instant rendered as an RFC 3339 timestamp. The value depends on the
/// clock, so nothing is assumed about it.
#[verifier::external_body]
pub(crate) fn now_rfc3339() -> (r: String) {
    chrono::Utc::now().to_rfc3339()
}

/// Relies on chrono::Utc::now and DateTime::format: the current UTC
/// calendar date rendered as year-month-day. The value depends on the
/// clock, so nothing is assumed about it.
#[verifier::external_body]
pub(crate) fn today_utc() -> (r: String) {
    chrono::Utc::now().format("%Y-%m-%d").to_string()
}

} // verus!
