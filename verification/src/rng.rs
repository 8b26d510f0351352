//! The one place where the kernel draws random numbers.
use vstd::prelude::*;

verus! {

/// A random index from `low` up to, but not including, `high`.
///
/// This is `rand::Rng::gen_range(low, high)` on the generator of the calling
/// thread. The contract claims only what rand documents of it: the value lies
/// in the half-open range. The call panics on an empty range, so the range
/// must not be empty.
#[verifier::external_body]
pub(crate) fn gen_range(low: usize, high: usize) -> (r: usize)
    requires
        low < high,
    ensures
        low <= r < high,
{
    let mut rng = rand::thread_rng();
    rand::Rng::gen_range(&mut rng, low, high)
}

/// A fair coin: one of two draws with the same chance.
pub(crate) fn coin() -> bool {
    gen_range(0, 2) == 0
}

} // verus!
