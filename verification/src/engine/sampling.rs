use vstd::prelude::*;

verus! {

/// Draws an index below `n` from the thread-local generator of the `rand`
/// crate, by `Rng::gen_range` on the half-open range `0..n`. The crate
/// promises a value inside the range and panics on an empty range, so `n`
/// must be positive. Nothing is claimed about which index comes back.
#[verifier::external_body]
pub(crate) fn uniform_below(n: usize) -> (index: usize)
    requires
        n > 0,
    ensures
        index < n,
{
    rand::Rng::gen_range(&mut rand::thread_rng(), 0..n)
}

} // verus!
