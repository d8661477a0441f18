//! Momentum-driven random walk over the active dimensions.
//!
//! Per position the integrator keeps an exponentially smoothed momentum of
//! the noise it is fed and a cumulative terrain value clamped to
//! `[-SCALE, SCALE]`.

use vstd::prelude::*;
use vstd::pervasive::VecAdditionalExecFns;

verus! {

use crate::SCALE;
use crate::fixed::{tdiv, clamp_spec, div_trunc, clamp_scaled, lemma_tdiv_bound};
use crate::rng::rand_range;

/// Largest admissible magnitude for a noise gradient (a `noiseScale` of one
/// million in real units); keeps every intermediate product inside `i64`.
pub const NOISE_CAP: i64 = 1_000_000_000_000;

/// One momentum update: exponential moving average of the noise,
/// `alpha * m + (1 - alpha) * g` in fixed point, rounded toward zero.
pub open spec fn step_momentum(m: int, alpha: int, g: int) -> int {
    tdiv(alpha * m + (SCALE - alpha) * g, SCALE as int)
}

/// One terrain update: add the momentum, then clamp to `[-SCALE, SCALE]`.
pub open spec fn step_terrain(t: int, m: int) -> int {
    clamp_spec(t + m)
}

pub struct EverlingIntegrator {
    pub momentum: Vec<i64>,
    pub terrain: Vec<i64>,
}

impl EverlingIntegrator {
    pub open spec fn momentum_view(self) -> Seq<int> {
        self.momentum@.map_values(|x: i64| x as int)
    }

    pub open spec fn terrain_view(self) -> Seq<int> {
        self.terrain@.map_values(|x: i64| x as int)
    }

    pub open spec fn dim(self) -> nat {
        self.momentum@.len()
    }

    /// Both arrays stay index-aligned, momentum never exceeds the noise cap
    /// and terrain never leaves `[-SCALE, SCALE]`.
    pub open spec fn wf(self) -> bool {
        &&& self.terrain@.len() == self.momentum@.len()
        &&& forall|i: int|
            0 <= i < self.dim() ==> -NOISE_CAP <= #[trigger] self.momentum@[i] <= NOISE_CAP
        &&& forall|i: int| 0 <= i < self.dim() ==> -SCALE <= #[trigger] self.terrain@[i] <= SCALE
    }

    /// Zero-initializes momentum and terrain arrays of the given length.
    pub fn new(dim: usize) -> (r: EverlingIntegrator)
        ensures
            r.wf(),
            r.dim() == dim,
            forall|i: int| 0 <= i < dim ==> r.momentum@[i] == 0 && r.terrain@[i] == 0,
    {
        let mut momentum: Vec<i64> = Vec::new();
        let mut terrain: Vec<i64> = Vec::new();
        let mut i: usize = 0;
        while i < dim
            invariant
                0 <= i <= dim,
                momentum@.len() == i,
                terrain@.len() == i,
                forall|j: int| 0 <= j < i ==> momentum@[j] == 0 && terrain@[j] == 0,
            decreases dim - i,
        {
            momentum.push(0);
            terrain.push(0);
            i = i + 1;
        }
        EverlingIntegrator { momentum, terrain }
    }

    /// Advances momentum and terrain once with the given noise gradients,
    /// one gradient per position.
    pub fn integrate_values(&mut self, alpha: i64, gradients: &Vec<i64>)
        requires
            old(self).wf(),
            0 <= alpha <= SCALE,
            gradients@.len() == old(self).dim(),
            forall|i: int|
                0 <= i < gradients@.len() ==> -NOISE_CAP <= #[trigger] gradients@[i] <= NOISE_CAP,
        ensures
            final(self).wf(),
            final(self).dim() == old(self).dim(),
            forall|i: int|
                0 <= i < old(self).dim() ==> #[trigger] final(self).momentum@[i] as int
                    == step_momentum(old(self).momentum@[i] as int, alpha as int, gradients@[i] as int),
            forall|i: int|
                0 <= i < old(self).dim() ==> #[trigger] final(self).terrain@[i] as int
                    == step_terrain(old(self).terrain@[i] as int, final(self).momentum@[i] as int),
            forall|i: int| 0 <= i < final(self).dim() ==> -SCALE <= #[trigger] final(self).terrain@[i] <= SCALE,
    {
        let n: usize = self.momentum.len();
        let mut i: usize = 0;
        while i < n
            invariant
                n == self.momentum@.len() == self.terrain@.len() == old(self).dim(),
                gradients@.len() == n,
                0 <= alpha <= SCALE,
                forall|j: int|
                    0 <= j < n ==> -NOISE_CAP <= #[trigger] gradients@[j] <= NOISE_CAP,
                0 <= i <= n,
                forall|j: int| i <= j < n ==> #[trigger] self.momentum@[j] == old(self).momentum@[j],
                forall|j: int| i <= j < n ==> #[trigger] self.terrain@[j] == old(self).terrain@[j],
                forall|j: int|
                    0 <= j < n ==> -NOISE_CAP <= #[trigger] self.momentum@[j] <= NOISE_CAP,
                forall|j: int| 0 <= j < n ==> -SCALE <= #[trigger] self.terrain@[j] <= SCALE,
                forall|j: int|
                    0 <= j < i ==> #[trigger] self.momentum@[j] as int
                        == step_momentum(old(self).momentum@[j] as int, alpha as int, gradients@[j] as int),
                forall|j: int|
                    0 <= j < i ==> #[trigger] self.terrain@[j] as int
                        == step_terrain(old(self).terrain@[j] as int, self.momentum@[j] as int),
            decreases n - i,
        {
            let m: i64 = self.momentum[i];
            let g: i64 = gradients[i];
            proof {
                assert(alpha * m <= SCALE * NOISE_CAP && alpha * m >= -(SCALE * NOISE_CAP))
                    by (nonlinear_arith)
                    requires 0 <= alpha <= SCALE, -NOISE_CAP <= m <= NOISE_CAP;
                assert((SCALE - alpha) * g <= SCALE * NOISE_CAP && (SCALE - alpha) * g >= -(SCALE
                    * NOISE_CAP)) by (nonlinear_arith)
                    requires 0 <= alpha <= SCALE, -NOISE_CAP <= g <= NOISE_CAP;
                assert(alpha * m + (SCALE - alpha) * g <= SCALE * NOISE_CAP && alpha * m + (SCALE
                    - alpha) * g >= -(SCALE * NOISE_CAP)) by (nonlinear_arith)
                    requires
                        0 <= alpha <= SCALE,
                        -NOISE_CAP <= m <= NOISE_CAP,
                        -NOISE_CAP <= g <= NOISE_CAP;
            }
            let blended: i64 = alpha * m + (SCALE - alpha) * g;
            let new_m: i64 = div_trunc(blended, SCALE);
            proof {
                lemma_tdiv_bound(blended as int, SCALE as int, NOISE_CAP as int);
            }
            self.momentum.set(i, new_m);
            let t: i64 = self.terrain[i];
            let new_t: i64 = clamp_scaled(t + new_m);
            self.terrain.set(i, new_t);
            i = i + 1;
        }
    }

    /// Advances momentum and terrain once, drawing one uniform gradient in
    /// `[-noise_scale, noise_scale)` per position from the given rng (zero
    /// when `noise_scale` is zero). Whatever is drawn, the terrain stays in
    /// `[-SCALE, SCALE]` and the update follows `step_momentum` /
    /// `step_terrain` for some gradient sequence in that range.
    pub fn integrate(&mut self, alpha: i64, noise_scale: i64, rng: &mut rand::rngs::StdRng)
        requires
            old(self).wf(),
            0 <= alpha <= SCALE,
            0 <= noise_scale <= NOISE_CAP,
        ensures
            final(self).wf(),
            final(self).dim() == old(self).dim(),
            exists|g: Seq<int>|
                {
                    &&& g.len() == old(self).dim()
                    &&& (forall|i: int| 0 <= i < g.len() ==> -noise_scale <= #[trigger] g[i] <= noise_scale)
                    &&& (forall|i: int|
                        0 <= i < old(self).dim() ==> #[trigger] final(self).momentum@[i] as int
                            == step_momentum(old(self).momentum@[i] as int, alpha as int, g[i]))
                    &&& (forall|i: int|
                        0 <= i < old(self).dim() ==> #[trigger] final(self).terrain@[i] as int
                            == step_terrain(old(self).terrain@[i] as int, final(self).momentum@[i] as int))
                },
            forall|i: int| 0 <= i < final(self).dim() ==> -SCALE <= #[trigger] final(self).terrain@[i] <= SCALE,
    {
        let n: usize = self.momentum.len();
        let mut gradients: Vec<i64> = Vec::new();
        let mut i: usize = 0;
        while i < n
            invariant
                0 <= noise_scale <= NOISE_CAP,
                0 <= i <= n,
                gradients@.len() == i,
                forall|j: int|
                    0 <= j < i ==> -noise_scale <= #[trigger] gradients@[j] <= noise_scale,
            decreases n - i,
        {
            let g: i64 = if noise_scale == 0 {
                0
            } else {
                rand_range(rng, -noise_scale, noise_scale)
            };
            gradients.push(g);
            i = i + 1;
        }
        self.integrate_values(alpha, &gradients);
        proof {
            let g: Seq<int> = gradients@.map_values(|x: i64| x as int);
            assert(g.len() == old(self).dim());
            assert(forall|j: int| 0 <= j < g.len() ==> -noise_scale <= #[trigger] g[j] <= noise_scale);
            assert(forall|j: int|
                0 <= j < old(self).dim() ==> #[trigger] self.momentum@[j] as int
                    == step_momentum(old(self).momentum@[j] as int, alpha as int, g[j]));
        }
    }
}

} // verus!
