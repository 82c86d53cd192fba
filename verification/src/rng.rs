use rand::Rng;
use vstd::prelude::*;

verus! {

/// Relies on rand's `thread_rng` and `Rng::gen_range`: a value sampled
/// from the non-empty range `0..n` lies below `n` (an empty range would
/// panic, which the precondition rules out). Nothing more is assumed:
/// the result depends on the thread-local generator's state.
#[verifier::external_body]
pub(crate) fn random_below(n: usize) -> (r: usize)
    requires
        1 <= n,
    ensures
        r < n,
{
    rand::thread_rng().gen_range(0..n)
}

} // verus!
