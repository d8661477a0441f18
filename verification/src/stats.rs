//! Population variance of a snapshot of state values.

use vstd::prelude::*;

verus! {

use crate::SCALE;
use crate::fixed::{tdiv, div_trunc, lemma_tdiv_bound};

/// Sum of a sequence of integers, accumulated left to right.
pub open spec fn sum_of(s: Seq<int>) -> int
    decreases s.len(),
{
    if s.len() == 0 {
        0
    } else {
        sum_of(s.drop_last()) + s.last()
    }
}

/// Sum of squared deviations from `m`.
pub open spec fn sq_dev_sum(s: Seq<int>, m: int) -> int
    decreases s.len(),
{
    if s.len() == 0 {
        0
    } else {
        sq_dev_sum(s.drop_last(), m) + (s.last() - m) * (s.last() - m)
    }
}

/// Mean of a non-empty sequence, rounded toward zero.
pub open spec fn mean_of(s: Seq<int>) -> int
    recommends
        s.len() > 0,
{
    tdiv(sum_of(s), s.len() as int)
}

/// Population variance in scaled-squared units: the mean of the squared
/// deviations from the mean, 0 for an empty sequence.
pub open spec fn variance_of(s: Seq<int>) -> int {
    if s.len() == 0 {
        0
    } else {
        sq_dev_sum(s, mean_of(s)) / (s.len() as int)
    }
}

pub open spec fn all_scaled(s: Seq<int>) -> bool {
    forall|i: int| 0 <= i < s.len() ==> -SCALE <= #[trigger] s[i] <= SCALE
}

/// View of a vector of scaled values as a sequence of mathematical integers.
pub open spec fn int_values(v: Seq<i64>) -> Seq<int> {
    v.map_values(|x: i64| x as int)
}

proof fn lemma_sum_bound(s: Seq<int>)
    requires
        all_scaled(s),
    ensures
        -(s.len() * SCALE) <= sum_of(s) <= s.len() * SCALE,
    decreases s.len(),
{
    if s.len() > 0 {
        assert(all_scaled(s.drop_last()));
        lemma_sum_bound(s.drop_last());
        assert(s.len() * SCALE == s.drop_last().len() * SCALE + SCALE) by (nonlinear_arith)
            requires s.len() == s.drop_last().len() + 1;
    }
}

/// Computes the population variance of the given scaled values.
///
/// The result is 0 for an empty or single-element snapshot and is never
/// negative.
pub fn calculate_variance(values: &Vec<i64>) -> (r: i64)
    requires
        values@.len() <= 1_000_000,
        all_scaled(int_values(values@)),
    ensures
        r == variance_of(int_values(values@)),
        0 <= r <= 4 * SCALE * SCALE,
        values@.len() <= 1 ==> r == 0,
{
    let ghost vals: Seq<int> = int_values(values@);
    let n: usize = values.len();
    if n == 0 {
        return 0;
    }

    let mut sum: i64 = 0;
    let mut i: usize = 0;
    while i < n
        invariant
            n == values@.len() <= 1_000_000,
            vals == int_values(values@),
            all_scaled(vals),
            0 <= i <= n,
            sum == sum_of(vals.take(i as int)),
            -((i as int) * SCALE) <= sum <= (i as int) * SCALE,
        decreases n - i,
    {
        proof {
            assert(vals.take(i + 1).drop_last() =~= vals.take(i as int));
            assert(vals.take(i + 1).last() == vals[i as int]);
            assert((i + 1) * SCALE == i * SCALE + SCALE) by (nonlinear_arith);
        }
        sum = sum + values[i];
        i = i + 1;
    }
    proof {
        assert(vals.take(n as int) =~= vals);
    }

    let mean: i64 = div_trunc(sum, n as i64);
    proof {
        assert(n as int * SCALE == SCALE * n as int);
        lemma_tdiv_bound(sum as int, n as int, SCALE as int);
    }

    let mut acc: i64 = 0;
    let mut j: usize = 0;
    while j < n
        invariant
            n == values@.len() <= 1_000_000,
            vals == int_values(values@),
            all_scaled(vals),
            -SCALE <= mean <= SCALE,
            0 <= j <= n,
            acc == sq_dev_sum(vals.take(j as int), mean as int),
            0 <= acc <= (j as int) * 4 * SCALE * SCALE,
        decreases n - j,
    {
        proof {
            assert(vals.take(j + 1).drop_last() =~= vals.take(j as int));
            assert(vals.take(j + 1).last() == vals[j as int]);
            let d = vals[j as int] - mean;
            assert(-2 * SCALE <= d <= 2 * SCALE);
            assert(d * d <= 4 * SCALE * SCALE) by (nonlinear_arith)
                requires -2 * SCALE <= d <= 2 * SCALE;
            assert(d * d >= 0) by (nonlinear_arith);
            assert((j + 1) as int * 4 * SCALE * SCALE == (j as int) * 4 * SCALE * SCALE + 4 * SCALE
                * SCALE) by (nonlinear_arith);
        }
        let dev: i64 = values[j] - mean;
        acc = acc + dev * dev;
        j = j + 1;
    }
    proof {
        assert(vals.take(n as int) =~= vals);
    }

    let r: i64 = ((acc as u64) / (n as u64)) as i64;
    proof {
        vstd::arithmetic::div_mod::lemma_div_pos_is_pos(acc as int, n as int);
        vstd::arithmetic::div_mod::lemma_div_nonincreasing(acc as int, n as int);
        vstd::arithmetic::div_mod::lemma_div_multiples_vanish(4 * SCALE * SCALE, n as int);
        assert((n as int) * (4 * SCALE * SCALE) == (n as int) * 4 * SCALE * SCALE)
            by (nonlinear_arith);
        vstd::arithmetic::div_mod::lemma_div_is_ordered(
            acc as int,
            (n as int) * (4 * SCALE * SCALE),
            n as int,
        );
        if n == 1 {
            vstd::arithmetic::div_mod::lemma_div_basics(sum as int);
            assert(vals =~= vals.drop_last().push(vals.last()));
            assert(vals.drop_last().len() == 0);
            assert(sum_of(vals.drop_last()) == 0);
            assert(sum_of(vals) == vals[0]);
            assert(mean as int == tdiv(vals[0], 1));
            assert(tdiv(vals[0], 1) == vals[0]) by {
                if vals[0] >= 0 {
                    vstd::arithmetic::div_mod::lemma_div_basics(vals[0]);
                } else {
                    vstd::arithmetic::div_mod::lemma_div_basics(-vals[0]);
                }
            }
            assert(sq_dev_sum(vals.drop_last(), mean as int) == 0);
            assert(vals.last() == vals[0]);
            assert(vals[0] - mean as int == 0);
            assert((vals.last() - mean as int) * (vals.last() - mean as int) == 0)
                by (nonlinear_arith)
                requires vals.last() - mean as int == 0;
            assert(sq_dev_sum(vals, mean as int) == 0);
            vstd::arithmetic::div_mod::lemma_div_basics(0);
        }
    }
    r
}

} // verus!
