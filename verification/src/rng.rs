//! Trusted boundary to the `rand` crate: a thread-local generator handle and
//! a bounded integer draw. Nothing is assumed of which value comes back, only
//! that it lies in the half-open range that was asked for.

use vstd::prelude::*;
use rand::Rng;

verus! {

#[verifier::external_type_specification]
#[verifier::external_body]
pub struct ExThreadRng(rand::rngs::ThreadRng);

/// Relies on rand::thread_rng: a handle to the thread-local generator.
#[verifier::external_body]
pub(crate) fn fresh_rng() -> rand::rngs::ThreadRng {
    rand::thread_rng()
}

/// Relies on rand::Rng::gen_range on a half-open range: it panics exactly
/// when the range is empty, and otherwise returns a value in `[lo, hi)`.
/// Nothing more is assumed: two calls on equal arguments may differ.
#[verifier::external_body]
pub(crate) fn rng_range(rng: &mut rand::rngs::ThreadRng, lo: i64, hi: i64) -> (r: i64)
    requires
        lo < hi,
    ensures
        lo <= r < hi,
{
    rng.gen_range(lo..hi)
}

} // verus!
