use vstd::prelude::*;
use rand::Rng;

verus! {

/// Draws an index below `len` from rand's thread-local generator
/// (`rand::Rng::gen_range` over `0..len`). Which index comes back depends on
/// the generator's state; the contract claims only that it is in range.
#[verifier::external_body]
pub(crate) fn random_index(len: usize) -> (r: usize)
    requires
        len > 0,
    ensures
        r < len,
{
    rand::thread_rng().gen_range(0..len)
}

} // verus!
