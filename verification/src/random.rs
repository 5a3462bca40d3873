//! The draws that come from the thread-local generator of `rand`.

use vstd::prelude::*;

verus! {

/// Calls `rand::random` for a `bool`. Nothing is claimed of the answer.
#[verifier::external_body]
pub(crate) fn random_bool() -> (r: bool) {
    rand::random()
}

/// Calls `rand::Rng::gen_range` on `rand::thread_rng()` with the half-open
/// range from zero to `bound`. The range must not be empty, and the answer
/// lies in it.
#[verifier::external_body]
pub(crate) fn random_below(bound: usize) -> (r: usize)
    requires
        bound > 0,
    ensures
        r < bound,
{
    rand::Rng::gen_range(&mut rand::thread_rng(), 0..bound)
}

} // verus!
