//! Trusted boundary to the `rand` crate.
//!
//! The simulation draws all of its randomness from a caller-supplied
//! `rand::rngs::StdRng`. Nothing is assumed about the values drawn beyond
//! the range that `gen_range` documents; every function that consumes a
//! drawn value is verified for every value in that range.

use vstd::prelude::*;
use rand::Rng;

verus! {

#[verifier::external_type_specification]
#[verifier::external_body]
pub struct ExStdRng(rand::rngs::StdRng);

/// Relies on rand::Rng::gen_range over `lo..hi` on i64: returns a value in
/// `[lo, hi)`; panics only on an empty range, which the precondition
/// excludes.
#[verifier::external_body]
pub(crate) fn rand_range(rng: &mut rand::rngs::StdRng, lo: i64, hi: i64) -> (r: i64)
    requires
        lo < hi,
    ensures
        lo <= r < hi,
{
    rng.gen_range(lo..hi)
}

} // verus!
