//! The experiment loop: seed expansion, state initialization, integration
//! steps with periodic variance metrics, and the final report values.

use vstd::prelude::*;

verus! {

use crate::SCALE;
use crate::fixed::{tdiv, div_trunc, abs_spec, abs_scaled, lemma_tdiv_bound};
use crate::integrator::{EverlingIntegrator, NOISE_CAP};
use crate::seed::expand_seed;
use crate::stats::{calculate_variance, int_values};
use crate::assembler::LinguisticAssembler;
use crate::rng::rand_range;

/// Errors of the pipeline.
#[derive(Clone, Copy, Debug, PartialEq, Eq, Structural)]
pub enum EsiError {
    IoError,
    SerializationError,
    InvalidConfiguration,
}

#[derive(Clone, Copy, Debug)]
pub enum DiscourseMode {
    Narrative,
    Dialectic,
}

/// Parameters of one run. `alpha` and `noise_scale` are fixed-point
/// values in units of `1 / SCALE`.
#[derive(Debug)]
pub struct ExperimentConfig {
    pub virtual_dimensions: u64,
    pub active_dimensions: usize,
    pub integration_steps: usize,
    pub mode: DiscourseMode,
    pub noise_scale: i64,
    pub alpha: i64,
    pub seed_text: String,
}

/// A configuration the runner accepts: at least one active dimension (and
/// few enough to keep the sums in range), a non-empty dimension space,
/// momentum retention in `[0, 1]` and a non-negative, capped noise scale.
pub open spec fn config_valid(c: ExperimentConfig) -> bool {
    &&& 1 <= c.active_dimensions <= 1_000_000
    &&& c.virtual_dimensions >= 1
    &&& 0 <= c.alpha <= SCALE
    &&& 0 <= c.noise_scale <= NOISE_CAP
}

#[derive(Clone, Copy, Debug)]
pub struct SimulationMetric {
    pub step: usize,
    pub variance: i64,
    pub structure_score: i64,
}

pub struct ResearchReport {
    pub config: ExperimentConfig,
    pub metrics: Vec<SimulationMetric>,
    pub generated_sentence: String,
    pub variance_change: i64,
    pub intensity_score: i64,
}

/// Keys of a state snapshot are unique.
pub open spec fn keys_unique(s: Seq<(u64, i64)>) -> bool {
    forall|i: int, j: int| 0 <= i < j < s.len() ==> (#[trigger] s[i]).0 != (#[trigger] s[j]).0
}

pub open spec fn state_has_key(s: Seq<(u64, i64)>, k: u64) -> bool {
    exists|i: int| 0 <= i < s.len() && (#[trigger] s[i]).0 == k
}

/// All state values lie in `[-SCALE, SCALE]`.
pub open spec fn values_scaled(s: Seq<(u64, i64)>) -> bool {
    forall|i: int| 0 <= i < s.len() ==> -SCALE <= (#[trigger] s[i]).1 <= SCALE
}

/// Insertion into the state: an existing key is overwritten in place, a
/// new key is appended.
pub open spec fn insert_pair(s: Seq<(u64, i64)>, k: u64, v: i64) -> Seq<(u64, i64)>
    decreases s.len(),
{
    if s.len() == 0 {
        seq![(k, v)]
    } else if s[0].0 == k {
        seq![(k, v)] + s.drop_first()
    } else {
        seq![s[0]] + insert_pair(s.drop_first(), k, v)
    }
}

/// The blend of a state value toward the terrain: `0.9 * v + 0.1 * t` in
/// fixed point, rounded toward zero.
pub open spec fn blend_spec(v: int, t: int) -> int {
    tdiv(9 * v + t, 10)
}

/// The state after blending key `k` toward `t`; unchanged when `k` is
/// absent.
pub open spec fn blend_at(s: Seq<(u64, i64)>, k: u64, t: int) -> Seq<(u64, i64)>
    decreases s.len(),
{
    if s.len() == 0 {
        s
    } else if s[0].0 == k {
        seq![(k, blend_spec(s[0].1 as int, t) as i64)] + s.drop_first()
    } else {
        seq![s[0]] + blend_at(s.drop_first(), k, t)
    }
}

/// The values of the entries, in order.
pub open spec fn values_of(s: Seq<(u64, i64)>) -> Seq<i64> {
    s.map_values(|p: (u64, i64)| p.1)
}

proof fn lemma_insert_pair_props(s: Seq<(u64, i64)>, k: u64, v: i64)
    requires
        keys_unique(s),
        values_scaled(s),
        -SCALE <= v <= SCALE,
    ensures
        keys_unique(insert_pair(s, k, v)),
        values_scaled(insert_pair(s, k, v)),
        insert_pair(s, k, v).len() == if state_has_key(s, k) {
            s.len() as int
        } else {
            s.len() as int + 1
        },
        state_has_key(insert_pair(s, k, v), k),
        insert_pair(s, k, v).len() >= 1,
    decreases s.len(),
{
    let r = insert_pair(s, k, v);
    if s.len() == 0 {
        assert(r =~= seq![(k, v)]);
        assert(r[0].0 == k);
    } else if s[0].0 == k {
        assert(r =~= seq![(k, v)] + s.drop_first());
        assert(r[0].0 == k);
        assert(forall|i: int| 1 <= i < r.len() ==> r[i] == s[i]);
        assert(state_has_key(s, k)) by {
            assert(s[0].0 == k);
        }
    } else {
        assert(keys_unique(s.drop_first()));
        assert(values_scaled(s.drop_first()));
        lemma_insert_pair_props(s.drop_first(), k, v);
        let rr = insert_pair(s.drop_first(), k, v);
        assert(r =~= seq![s[0]] + rr);
        assert(state_has_key(s.drop_first(), k) == state_has_key(s, k)) by {
            if state_has_key(s.drop_first(), k) {
                let i = choose|i: int|
                    0 <= i < s.drop_first().len() && (#[trigger] s.drop_first()[i]).0 == k;
                assert(s[i + 1].0 == k);
            }
            if state_has_key(s, k) {
                let i = choose|i: int| 0 <= i < s.len() && (#[trigger] s[i]).0 == k;
                assert(i != 0);
                assert(s.drop_first()[i - 1].0 == k);
            }
        }
        assert(keys_unique(r)) by {
            assert(forall|i: int| 1 <= i < r.len() ==> r[i] == rr[i - 1]);
            assert forall|i: int, j: int| 0 <= i < j < r.len() implies (#[trigger] r[i]).0
                != (#[trigger] r[j]).0 by {
                if i == 0 {
                    // every key of rr is a key of s.drop_first() or k itself
                    lemma_insert_keys(s.drop_first(), k, v, j - 1);
                }
            }
        }
        let i = choose|i: int| 0 <= i < rr.len() && (#[trigger] rr[i]).0 == k;
        assert(r[i + 1].0 == k);
    }
}

proof fn lemma_insert_keys(s: Seq<(u64, i64)>, k: u64, v: i64, j: int)
    requires
        0 <= j < insert_pair(s, k, v).len(),
    ensures
        insert_pair(s, k, v)[j].0 == k || state_has_key(s, insert_pair(s, k, v)[j].0),
    decreases s.len(),
{
    let r = insert_pair(s, k, v);
    if s.len() == 0 {
    } else if s[0].0 == k {
        if j > 0 {
            assert(r[j] == s[j]);
        }
    } else {
        if j == 0 {
            assert(r[0] == s[0]);
        } else {
            lemma_insert_keys(s.drop_first(), k, v, j - 1);
            assert(r[j] == insert_pair(s.drop_first(), k, v)[j - 1]);
            if state_has_key(s.drop_first(), insert_pair(s.drop_first(), k, v)[j - 1].0) {
                let i = choose|i: int|
                    0 <= i < s.drop_first().len() && (#[trigger] s.drop_first()[i]).0 == insert_pair(
                        s.drop_first(),
                        k,
                        v,
                    )[j - 1].0;
                assert(s[i + 1].0 == r[j].0);
            }
        }
    }
}

/// Inserts or overwrites the entry for key `k`.
#[verifier::loop_isolation(false)]
fn state_insert(state: &mut Vec<(u64, i64)>, k: u64, v: i64)
    requires
        keys_unique(old(state)@),
        values_scaled(old(state)@),
        -SCALE <= v <= SCALE,
    ensures
        final(state)@ == insert_pair(old(state)@, k, v),
        keys_unique(final(state)@),
        values_scaled(final(state)@),
        final(state)@.len() >= 1,
        final(state)@.len() <= old(state)@.len() + 1,
{
    proof {
        lemma_insert_pair_props(old(state)@, k, v);
    }
    let n: usize = state.len();
    let mut i: usize = 0;
    while i < n
        invariant
            n == state@.len(),
            state@ == old(state)@,
            0 <= i <= n,
            forall|j: int| 0 <= j < i ==> (#[trigger] state@[j]).0 != k,
        decreases n - i,
    {
        if state[i].0 == k {
            state.set(i, (k, v));
            proof {
                lemma_insert_at_found(old(state)@, k, v, i as int);
                assert(state@ =~= old(state)@.update(i as int, (k, v)));
            }
            return ;
        }
        i = i + 1;
    }
    state.push((k, v));
    proof {
        lemma_insert_not_found(old(state)@, k, v);
        assert(state@ =~= old(state)@.push((k, v)));
    }
}

proof fn lemma_insert_at_found(s: Seq<(u64, i64)>, k: u64, v: i64, i: int)
    requires
        0 <= i < s.len(),
        s[i].0 == k,
        forall|j: int| 0 <= j < i ==> (#[trigger] s[j]).0 != k,
    ensures
        insert_pair(s, k, v) =~= s.update(i, (k, v)),
    decreases s.len(),
{
    if i == 0 {
        assert(insert_pair(s, k, v) =~= seq![(k, v)] + s.drop_first());
    } else {
        lemma_insert_at_found(s.drop_first(), k, v, i - 1);
        assert(insert_pair(s, k, v) =~= seq![s[0]] + s.drop_first().update(i - 1, (k, v)));
    }
}

proof fn lemma_insert_not_found(s: Seq<(u64, i64)>, k: u64, v: i64)
    requires
        forall|j: int| 0 <= j < s.len() ==> (#[trigger] s[j]).0 != k,
    ensures
        insert_pair(s, k, v) =~= s.push((k, v)),
    decreases s.len(),
{
    if s.len() > 0 {
        lemma_insert_not_found(s.drop_first(), k, v);
        assert(insert_pair(s, k, v) =~= seq![s[0]] + s.drop_first().push((k, v)));
    }
}

/// Blends the value at key `k` toward the terrain value `t`; a missing
/// key leaves the state unchanged.
#[verifier::loop_isolation(false)]
fn state_blend(state: &mut Vec<(u64, i64)>, k: u64, t: i64)
    requires
        keys_unique(old(state)@),
        values_scaled(old(state)@),
        -SCALE <= t <= SCALE,
    ensures
        final(state)@ == blend_at(old(state)@, k, t as int),
        keys_unique(final(state)@),
        values_scaled(final(state)@),
        final(state)@.len() == old(state)@.len(),
{
    proof {
        lemma_blend_props(old(state)@, k, t as int);
    }
    let n: usize = state.len();
    let mut i: usize = 0;
    while i < n
        invariant
            n == state@.len(),
            state@ == old(state)@,
            values_scaled(state@),
            -SCALE <= t <= SCALE,
            0 <= i <= n,
            forall|j: int| 0 <= j < i ==> (#[trigger] state@[j]).0 != k,
        decreases n - i,
    {
        if state[i].0 == k {
            let v: i64 = state[i].1;
            proof {
                assert(9 * v + t <= 10 * SCALE && 9 * v + t >= -(10 * SCALE)) by (nonlinear_arith)
                    requires -SCALE <= v <= SCALE, -SCALE <= t <= SCALE;
                lemma_tdiv_bound(9 * v + t, 10, SCALE as int);
            }
            let nv: i64 = div_trunc(9 * v + t, 10);
            state.set(i, (k, nv));
            proof {
                lemma_blend_at_found(old(state)@, k, t as int, i as int);
                assert(state@ =~= old(state)@.update(i as int, (k, nv)));
            }
            return ;
        }
        i = i + 1;
    }
    proof {
        lemma_blend_not_found(old(state)@, k, t as int);
    }
}

proof fn lemma_blend_props(s: Seq<(u64, i64)>, k: u64, t: int)
    requires
        keys_unique(s),
        values_scaled(s),
        -SCALE <= t <= SCALE,
    ensures
        keys_unique(blend_at(s, k, t)),
        values_scaled(blend_at(s, k, t)),
        blend_at(s, k, t).len() == s.len(),
        forall|j: int|
            0 <= j < s.len() ==> (#[trigger] blend_at(s, k, t)[j]).0 == s[j].0,
    decreases s.len(),
{
    if s.len() > 0 {
        if s[0].0 == k {
            let v = s[0].1 as int;
            assert(9 * v + t <= 10 * SCALE && 9 * v + t >= -(10 * SCALE)) by (nonlinear_arith)
                requires -SCALE <= v <= SCALE, -SCALE <= t <= SCALE;
            lemma_tdiv_bound(9 * v + t, 10, SCALE as int);
            assert(blend_at(s, k, t) =~= seq![(k, blend_spec(v, t) as i64)] + s.drop_first());
        } else {
            assert(keys_unique(s.drop_first()));
            assert(values_scaled(s.drop_first()));
            lemma_blend_props(s.drop_first(), k, t);
            assert(blend_at(s, k, t) =~= seq![s[0]] + blend_at(s.drop_first(), k, t));
        }
    }
}

proof fn lemma_blend_at_found(s: Seq<(u64, i64)>, k: u64, t: int, i: int)
    requires
        0 <= i < s.len(),
        s[i].0 == k,
        forall|j: int| 0 <= j < i ==> (#[trigger] s[j]).0 != k,
        -SCALE <= s[i].1 <= SCALE,
        -SCALE <= t <= SCALE,
    ensures
        blend_at(s, k, t) =~= s.update(i, (k, blend_spec(s[i].1 as int, t) as i64)),
    decreases s.len(),
{
    let v = s[i].1 as int;
    assert(9 * v + t <= 10 * SCALE && 9 * v + t >= -(10 * SCALE)) by (nonlinear_arith)
        requires -SCALE <= v <= SCALE, -SCALE <= t <= SCALE;
    lemma_tdiv_bound(9 * v + t, 10, SCALE as int);
    if i == 0 {
        assert(blend_at(s, k, t) =~= seq![(k, blend_spec(v, t) as i64)] + s.drop_first());
    } else {
        lemma_blend_at_found(s.drop_first(), k, t, i - 1);
        assert(blend_at(s, k, t) =~= seq![s[0]] + s.drop_first().update(
            i - 1,
            (k, blend_spec(v, t) as i64),
        ));
    }
}

proof fn lemma_blend_not_found(s: Seq<(u64, i64)>, k: u64, t: int)
    requires
        forall|j: int| 0 <= j < s.len() ==> (#[trigger] s[j]).0 != k,
    ensures
        blend_at(s, k, t) =~= s,
    decreases s.len(),
{
    if s.len() > 0 {
        lemma_blend_not_found(s.drop_first(), k, t);
        assert(blend_at(s, k, t) =~= seq![s[0]] + s.drop_first());
    }
}

/// The values of the state entries, for a variance snapshot.
fn state_values(state: &Vec<(u64, i64)>) -> (r: Vec<i64>)
    ensures
        r@ == values_of(state@),
{
    let n: usize = state.len();
    let mut r: Vec<i64> = Vec::new();
    let mut i: usize = 0;
    while i < n
        invariant
            n == state@.len(),
            0 <= i <= n,
            r@ =~= values_of(state@).take(i as int),
        decreases n - i,
    {
        let v: i64 = state[i].1;
        r.push(v);
        proof {
            assert(r@ =~= values_of(state@).take(i + 1));
        }
        i = i + 1;
    }
    proof {
        assert(values_of(state@).take(n as int) =~= values_of(state@));
    }
    r
}

/// Sum of the absolute values of a snapshot.
pub open spec fn sum_abs_of(s: Seq<int>) -> int
    decreases s.len(),
{
    if s.len() == 0 {
        0
    } else {
        sum_abs_of(s.drop_last()) + abs_spec(s.last())
    }
}

/// Mean of the absolute values of a non-empty snapshot, rounded down.
fn mean_abs(values: &Vec<i64>) -> (r: i64)
    requires
        1 <= values@.len() <= 1_000_000,
        crate::stats::all_scaled(int_values(values@)),
    ensures
        r == sum_abs_of(int_values(values@)) / (values@.len() as int),
        0 <= r <= SCALE,
{
    let ghost vals: Seq<int> = int_values(values@);
    let n: usize = values.len();
    let mut sum: i64 = 0;
    let mut i: usize = 0;
    while i < n
        invariant
            n == values@.len() <= 1_000_000,
            vals == int_values(values@),
            crate::stats::all_scaled(vals),
            0 <= i <= n,
            sum == sum_abs_of(vals.take(i as int)),
            0 <= sum <= (i as int) * SCALE,
        decreases n - i,
    {
        proof {
            assert((i + 1) * SCALE == i * SCALE + SCALE) by (nonlinear_arith);
            assert(vals[i as int] == values@[i as int] as int);
            assert(vals.take(i + 1).drop_last() =~= vals.take(i as int));
            assert(vals.take(i + 1).last() == vals[i as int]);
        }
        let a: i64 = abs_scaled(values[i]);
        sum = sum + a;
        i = i + 1;
    }
    proof {
        assert(vals.take(n as int) =~= vals);
    }
    let r: i64 = ((sum as u64) / (n as u64)) as i64;
    proof {
        vstd::arithmetic::div_mod::lemma_div_pos_is_pos(sum as int, n as int);
        vstd::arithmetic::div_mod::lemma_div_multiples_vanish(SCALE as int, n as int);
        assert((n as int) * SCALE == SCALE * (n as int));
        vstd::arithmetic::div_mod::lemma_div_is_ordered(sum as int, (n as int) * SCALE, n as int);
    }
    r
}

fn clone_config(c: &ExperimentConfig) -> (r: ExperimentConfig)
    ensures
        r == *c,
{
    ExperimentConfig {
        virtual_dimensions: c.virtual_dimensions,
        active_dimensions: c.active_dimensions,
        integration_steps: c.integration_steps,
        mode: c.mode,
        noise_scale: c.noise_scale,
        alpha: c.alpha,
        seed_text: (&c.seed_text).clone(),
    }
}

/// Number of sampled metrics after `steps` integration steps: one for
/// every step divisible by 25, step 0 included.
pub open spec fn metric_count(steps: int) -> int {
    (steps + 24) / 25
}

/// Runs one experiment. Fails exactly on an invalid configuration; on
/// success the report's config echoes the input, the metrics are sampled
/// at steps 0, 25, 50, ... with non-negative variance and structure
/// score, and the final ratio and intensity are non-negative (intensity
/// at most `SCALE`).
pub fn run_experiment(
    config: &ExperimentConfig,
    assembler: &LinguisticAssembler,
    rng: &mut rand::rngs::StdRng,
) -> (r: Result<ResearchReport, EsiError>)
    ensures
        r is Ok <==> config_valid(*config),
        r is Err ==> r->Err_0 == EsiError::InvalidConfiguration,
        r is Ok ==> {
            let rep = r->Ok_0;
            &&& rep.config == *config
            &&& rep.metrics@.len() == metric_count(config.integration_steps as int)
            &&& (forall|j: int|
                0 <= j < rep.metrics@.len() ==> (#[trigger] rep.metrics@[j]).step == 25 * j)
            &&& (forall|j: int|
                0 <= j < rep.metrics@.len() ==> (#[trigger] rep.metrics@[j]).variance >= 0)
            &&& (forall|j: int|
                0 <= j < rep.metrics@.len() ==> (#[trigger] rep.metrics@[j]).structure_score >= 0)
            &&& rep.variance_change >= 0
            &&& 0 <= rep.intensity_score <= SCALE
        },
{
    if !(config.active_dimensions >= 1 && config.active_dimensions <= 1_000_000
        && config.virtual_dimensions >= 1 && config.alpha >= 0 && config.alpha <= SCALE
        && config.noise_scale >= 0 && config.noise_scale <= NOISE_CAP) {
        return Err(EsiError::InvalidConfiguration);
    }

    let active: usize = config.active_dimensions;
    let mut integrator = EverlingIntegrator::new(active);
    let dims: Vec<u64> = expand_seed(
        config.seed_text.as_str(),
        active,
        config.virtual_dimensions,
    );

    let mut state: Vec<(u64, i64)> = Vec::new();
    let mut i: usize = 0;
    while i < active
        invariant
            active == dims@.len(),
            0 <= i <= active,
            keys_unique(state@),
            values_scaled(state@),
            state@.len() <= i,
            i >= 1 ==> state@.len() >= 1,
        decreases active - i,
    {
        let v: i64 = rand_range(rng, -100_000, 100_000);
        state_insert(&mut state, dims[i], v);
        i = i + 1;
    }

    let initial_values: Vec<i64> = state_values(&state);
    proof {
        assert(initial_values@.len() == state@.len());
        assert(crate::stats::all_scaled(int_values(initial_values@))) by {
            assert forall|j: int| 0 <= j < int_values(initial_values@).len() implies -SCALE
                <= #[trigger] int_values(initial_values@)[j] <= SCALE by {
                assert(int_values(initial_values@)[j] == state@[j].1 as int);
            }
        }
    }
    let initial_variance: i64 = calculate_variance(&initial_values);

    let mut metrics: Vec<SimulationMetric> = Vec::new();
    let steps: usize = config.integration_steps;
    let mut step: usize = 0;
    while step < steps
        invariant
            config_valid(*config),
            active == config.active_dimensions == dims@.len(),
            integrator.wf(),
            integrator.dim() == active,
            keys_unique(state@),
            values_scaled(state@),
            1 <= state@.len() <= active,
            initial_variance >= 0,
            steps == config.integration_steps,
            0 <= step <= steps,
            metrics@.len() == metric_count(step as int),
            forall|j: int| 0 <= j < metrics@.len() ==> (#[trigger] metrics@[j]).step == 25 * j,
            forall|j: int| 0 <= j < metrics@.len() ==> (#[trigger] metrics@[j]).variance >= 0,
            forall|j: int|
                0 <= j < metrics@.len() ==> (#[trigger] metrics@[j]).structure_score >= 0,
        decreases steps - step,
    {
        integrator.integrate(config.alpha, config.noise_scale, rng);
        let mut p: usize = 0;
        while p < active
            invariant
                active == dims@.len(),
                integrator.wf(),
                integrator.dim() == active,
                keys_unique(state@),
                values_scaled(state@),
                1 <= state@.len() <= active,
                0 <= p <= active,
            decreases active - p,
        {
            let t: i64 = integrator.terrain[p];
            state_blend(&mut state, dims[p], t);
            p = p + 1;
        }
        proof {
            let q = step as int / 25;
            let rm = step as int % 25;
            vstd::arithmetic::div_mod::lemma_fundamental_div_mod(step as int, 25);
            if rm == 0 {
                vstd::arithmetic::div_mod::lemma_fundamental_div_mod_converse(
                    step as int + 24,
                    25,
                    q,
                    24,
                );
                vstd::arithmetic::div_mod::lemma_fundamental_div_mod_converse(
                    step as int + 25,
                    25,
                    q + 1,
                    0,
                );
            } else {
                vstd::arithmetic::div_mod::lemma_fundamental_div_mod_converse(
                    step as int + 24,
                    25,
                    q + 1,
                    rm - 1,
                );
                vstd::arithmetic::div_mod::lemma_fundamental_div_mod_converse(
                    step as int + 25,
                    25,
                    q + 1,
                    rm,
                );
            }
        }
        if step % 25 == 0 {
            let vals: Vec<i64> = state_values(&state);
            proof {
                assert(crate::stats::all_scaled(int_values(vals@))) by {
                    assert forall|j: int| 0 <= j < int_values(vals@).len() implies -SCALE
                        <= #[trigger] int_values(vals@)[j] <= SCALE by {
                        assert(int_values(vals@)[j] == state@[j].1 as int);
                    }
                }
                assert(vals@.len() <= 1_000_000);
            }
            let current_var: i64 = calculate_variance(&vals);
            let structure_score: i64 = if initial_variance > 0 {
                proof {
                    assert(current_var * SCALE <= 4 * SCALE * SCALE * SCALE && current_var * SCALE
                        >= 0) by (nonlinear_arith)
                        requires 0 <= current_var <= 4 * SCALE * SCALE, SCALE >= 1;
                }
                let score: i64 = div_trunc(current_var * SCALE, initial_variance);
                proof {
                    vstd::arithmetic::div_mod::lemma_div_pos_is_pos(
                        (current_var * SCALE) as int,
                        initial_variance as int,
                    );
                }
                score
            } else {
                0
            };
            metrics.push(SimulationMetric { step, variance: current_var, structure_score });
        }
        step = step + 1;
    }

    let final_values: Vec<i64> = state_values(&state);
    proof {
        assert(crate::stats::all_scaled(int_values(final_values@))) by {
            assert forall|j: int| 0 <= j < int_values(final_values@).len() implies -SCALE
                <= #[trigger] int_values(final_values@)[j] <= SCALE by {
                assert(int_values(final_values@)[j] == state@[j].1 as int);
            }
        }
    }
    let final_variance: i64 = calculate_variance(&final_values);
    let floor: i64 = if initial_variance > 1 {
        initial_variance
    } else {
        1
    };
    proof {
        assert(final_variance * SCALE <= 4 * SCALE * SCALE * SCALE && final_variance * SCALE >= 0)
            by (nonlinear_arith)
            requires 0 <= final_variance <= 4 * SCALE * SCALE, SCALE >= 1;
    }
    let variance_change: i64 = div_trunc(final_variance * SCALE, floor);
    proof {
        vstd::arithmetic::div_mod::lemma_div_pos_is_pos(
            (final_variance * SCALE) as int,
            floor as int,
        );
    }

    let intensity_score: i64 = mean_abs(&final_values);

    let generated_sentence: String = assembler.assemble(&state);

    Ok(
        ResearchReport {
            config: clone_config(config),
            metrics,
            generated_sentence,
            variance_change,
            intensity_score,
        },
    )
}

} // verus!
