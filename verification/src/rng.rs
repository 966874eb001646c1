//! The library's only randomness: thin trusted wrappers over the `rand`
//! crate. Every contract states only what holds of every outcome.
use vstd::prelude::*;

use rand::Rng;

verus! {

/// Relies on rand::Rng::gen_range over a half-open range, which panics
/// on an empty range and otherwise samples a value inside it.
#[verifier::external_body]
pub(crate) fn rand_range(lo: i32, hi: i32) -> (r: i32)
    requires
        lo < hi,
    ensures
        lo <= r < hi,
{
    rand::thread_rng().gen_range(lo..hi)
}

/// Relies on rand::random::<bool>; nothing is assumed of the outcome.
#[verifier::external_body]
pub(crate) fn rand_bool() -> bool {
    rand::random::<bool>()
}

} // verus!
