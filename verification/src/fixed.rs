//! Fixed-point arithmetic helpers.
//!
//! All real-valued quantities of the simulation (terrain, momentum, state
//! values, variance, ratios) are carried as `i64` in units of `1 / SCALE`,
//! so that every computation is exact integer arithmetic.

use vstd::prelude::*;

verus! {

use crate::SCALE;

/// Truncating division toward zero, the rounding that the simulation uses
/// for all of its fixed-point divisions.
pub open spec fn tdiv(a: int, b: int) -> int
    recommends
        b > 0,
{
    if a >= 0 {
        a / b
    } else {
        -((-a) / b)
    }
}

/// Clamp an integer into `[-SCALE, SCALE]`, the representable terrain range.
pub open spec fn clamp_spec(x: int) -> int {
    if x > SCALE {
        SCALE as int
    } else if x < -SCALE {
        -SCALE as int
    } else {
        x
    }
}

pub proof fn lemma_tdiv_bound(a: int, b: int, bound: int)
    requires
        b > 0,
        bound >= 0,
        -(bound * b) <= a <= bound * b,
    ensures
        -bound <= tdiv(a, b) <= bound,
{
    vstd::arithmetic::div_mod::lemma_div_multiples_vanish(bound, b);
    assert((b * bound) / b == bound);
    assert(b * bound == bound * b);
    if a >= 0 {
        vstd::arithmetic::div_mod::lemma_div_is_ordered(a, bound * b, b);
        assert(a / b <= (bound * b) / b);
        vstd::arithmetic::div_mod::lemma_div_pos_is_pos(a, b);
    } else {
        vstd::arithmetic::div_mod::lemma_div_is_ordered(-a, bound * b, b);
        assert((-a) / b <= (bound * b) / b);
        vstd::arithmetic::div_mod::lemma_div_pos_is_pos(-a, b);
    }
}

/// Truncating division of a (possibly negative) scaled value by a positive
/// divisor, computed with unsigned division only.
pub fn div_trunc(a: i64, b: i64) -> (r: i64)
    requires
        b > 0,
        a > i64::MIN,
    ensures
        r == tdiv(a as int, b as int),
{
    let bu: u64 = b as u64;
    if a >= 0 {
        let q: u64 = (a as u64) / bu;
        proof {
            vstd::arithmetic::div_mod::lemma_div_nonincreasing(a as int, b as int);
            vstd::arithmetic::div_mod::lemma_div_pos_is_pos(a as int, b as int);
        }
        q as i64
    } else {
        let neg: u64 = (-a) as u64;
        let q: u64 = neg / bu;
        proof {
            vstd::arithmetic::div_mod::lemma_div_nonincreasing(neg as int, b as int);
            vstd::arithmetic::div_mod::lemma_div_pos_is_pos(neg as int, b as int);
        }
        -(q as i64)
    }
}

/// Clamp a scaled value into `[-SCALE, SCALE]`.
pub fn clamp_scaled(x: i64) -> (r: i64)
    ensures
        r == clamp_spec(x as int),
        -SCALE <= r <= SCALE,
{
    if x > SCALE {
        SCALE
    } else if x < -SCALE {
        -SCALE
    } else {
        x
    }
}

/// Absolute value of a scaled quantity.
pub open spec fn abs_spec(x: int) -> int {
    if x >= 0 {
        x
    } else {
        -x
    }
}

pub fn abs_scaled(x: i64) -> (r: i64)
    requires
        x > i64::MIN,
    ensures
        r == abs_spec(x as int),
{
    if x >= 0 {
        x
    } else {
        -x
    }
}

} // verus!
