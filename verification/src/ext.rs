use vstd::prelude::*;

verus! {

/// Milliseconds since the Unix epoch at the moment of the call.
///
/// Relies on chrono's `Utc::now`, read out through `timestamp_millis`. The
/// clock's reading depends on the machine, so nothing is promised of the
/// result.
#[verifier::external_body]
pub(crate) fn now_timestamp_millis() -> i64 {
    chrono::Utc::now().timestamp_millis()
}

/// Fresh process-wide-unique project id.
///
/// Relies on uuid's `Uuid::new_v4` (a random version-4 UUID), taken as its
/// 128-bit value. Nothing is promised of a random draw.
#[verifier::external_body]
pub(crate) fn new_project_id() -> u128 {
    uuid::Uuid::new_v4().as_u128()
}

} // verus!
