//! The wall clock and fresh identifiers, both taken from outside crates.
use vstd::prelude::*;

verus! {

/// Relies on chrono's `Utc::now` and `DateTime::timestamp_millis`: the current
/// wall-clock time in milliseconds since the Unix epoch. Nothing is known of
/// the value, and two readings need not be ordered.
#[verifier::external_body]
pub(crate) fn now_millis() -> (r: i64) {
    chrono::Utc::now().timestamp_millis()
}

/// Relies on uuid's `Uuid::new_v4` and its `Display`: a random identifier in
/// hyphenated form, which is 36 characters long.
#[verifier::external_body]
pub(crate) fn new_id() -> (r: String)
    ensures
        r@.len() == 36,
{
    uuid::Uuid::new_v4().to_string()
}

} // verus!
