use rand::Rng;
use vstd::prelude::*;

verus! {

/// Relies on `rand::Rng::gen_range` on the thread-local generator: a value drawn
/// from `0..bound`, which is never empty here.
#[verifier::external_body]
pub(crate) fn roll_below(bound: u32) -> (r: u32)
    requires
        bound > 0,
    ensures
        r < bound,
{
    rand::thread_rng().gen_range(0..bound)
}

} // verus!
