use vstd::prelude::*;

verus! {

/// Draws a fresh random 128-bit identifier for a new user or team
/// record.
///
/// Relies on `uuid::Uuid::new_v4`, which returns a version-4 (random)
/// UUID. The result is random, so nothing is promised of it: every
/// caller must handle any value, including a collision with an existing
/// record.
#[verifier::external_body]
pub fn fresh_id() -> u128 {
    uuid::Uuid::new_v4().as_u128()
}

} // verus!
