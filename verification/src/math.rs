//! Random draws.

use vstd::prelude::*;

verus! {

/// A uniformly drawn integer of `a..b`, from `rand`'s thread-local
/// generator (`Rng::random_range`). The contract claims only that the draw
/// lies in the half-open range, which is what `rand` documents of a
/// non-empty range; on an empty one it panics, so `a < b` is asked for.
#[verifier::external_body]
pub fn randint(a: i32, b: i32) -> (r: i32)
    requires
        a < b,
    ensures
        a <= r < b,
{
    rand::Rng::random_range(&mut rand::rng(), a..b)
}

/// A uniformly drawn byte, from `rand::random`. Nothing is claimed of it.
#[verifier::external_body]
pub(crate) fn random_byte() -> u8 {
    rand::random()
}

} // verus!
