//! A small stochastic simulation over a sparse high-dimensional state
//! vector, together with the vocabulary pipeline that renders the final
//! state as a sentence.
//!
//! All real-valued quantities are fixed-point `i64` values in units of
//! `1 / SCALE`; see `fixed`.

use vstd::prelude::*;

pub mod assembler;
pub mod codec;
pub mod fixed;
pub mod integrator;
pub mod morpheme;
pub mod rng;
pub mod runner;
pub mod seed;
pub mod stats;
pub mod strutil;
pub mod vocab;

verus! {

/// Fixed-point scale: a logical value `x` is stored as the integer
/// `x * SCALE`.
pub const SCALE: i64 = 1_000_000;

} // verus!
