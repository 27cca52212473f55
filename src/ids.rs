use vstd::prelude::*;

verus! {

/// Relies on `uuid::Uuid::new_v4`: a fresh random identifier, read as its 128-bit value.
/// Nothing is promised of the value.
#[verifier::external_body]
pub(crate) fn fresh_id() -> u128 {
    uuid::Uuid::new_v4().as_u128()
}

} // verus!
