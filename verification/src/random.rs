//! The one place the crate draws randomness from.

use vstd::prelude::*;

verus! {

/// Relies on `rand::random_range`: a value drawn uniformly from the given
/// range by the thread-local generator. The draw depends on the generator's
/// state, so only the bound is promised.
#[verifier::external_body]
pub(crate) fn random_u64_below(n: u64) -> (r: u64)
    requires
        n > 0,
    ensures
        r < n,
{
    rand::random_range(0..n)
}

} // verus!
