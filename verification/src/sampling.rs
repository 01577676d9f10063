//! The sampling engine: draw a parameter vector for a context, blending
//! the learned mean with exploratory noise under an explicit seed.

use vstd::prelude::*;
use crate::EvoError;
use crate::{P_MAX, SCALE};
use crate::key::{key_of, tuple_valid, join_key, check_tuple};
use crate::rng::{lcg_next, uniform_spec, uniform};
use crate::stats::{ParamStats, isqrt, isqrt_spec, mean_of, variance_of, stats_wf};
use crate::store::{EvoCoreContextSystem, idx_of, total_of, store_wf, rec_wf};

verus! {

/// One exploration-weighted draw for one parameter.
///
/// With exploration `e` (fixed-point in `0 ..= SCALE`), the learned mean is
/// first jittered inside `e`-scaled learned dispersion, then blended with
/// weight `e` against a uniform draw over the prior range `0 ..= SCALE`.
/// At `e == 0` the result is exactly the mean; at `e == SCALE` it is
/// exactly the prior draw, ignoring the record.  Two generator steps are
/// consumed whatever `e` is.
pub open spec fn draw_one(s: ParamStats, e: u64, seed: u64) -> (u64, u64)
    recommends
        e <= SCALE,
        stats_wf(s),
{
    let sigma = isqrt_spec(variance_of(s) as nat) as u64;
    let spread = ((e * sigma) / (SCALE as int)) as u64;
    let d = uniform_spec(seed, (2 * spread) as u64);
    let s1 = lcg_next(seed);
    let jit = mean_of(s) + d - spread;
    let j: u64 = if jit < 0 {
        0
    } else if jit > P_MAX {
        P_MAX
    } else {
        jit as u64
    };
    let u = uniform_spec(s1, SCALE);
    let s2 = lcg_next(s1);
    let r = (((SCALE - e) * j + e * u) / (SCALE as int)) as u64;
    (r, s2)
}

/// The whole sampled vector and the final seed, one parameter after the
/// other, the seed threaded through.
pub open spec fn sample_seq(stats: Seq<ParamStats>, e: u64, seed: u64) -> (Seq<u64>, u64)
    decreases stats.len(),
{
    if stats.len() == 0 {
        (Seq::empty(), seed)
    } else {
        let (v, s1) = draw_one(stats[0], e, seed);
        let (rest, s2) = sample_seq(stats.drop_first(), e, s1);
        (seq![v] + rest, s2)
    }
}

/// One exploration-weighted draw, matching `draw_one` exactly.
fn draw(s: &ParamStats, e: u64, seed: &mut u64) -> (r: u64)
    requires
        e <= SCALE,
        stats_wf(*s),
    ensures
        (r, *final(seed)) == draw_one(*s, e, *old(seed)),
        r <= P_MAX,
{
    let variance: u64 = s.variance();
    let sigma: u64 = isqrt(variance);
    proof {
        assert((sigma as nat) * (sigma as nat) <= (P_MAX * P_MAX) as nat);
        assert(sigma <= P_MAX) by (nonlinear_arith)
            requires
                (sigma as nat) * (sigma as nat) <= (P_MAX * P_MAX) as nat,
                P_MAX == 1_000_000_000u64,
        ;
        assert(e * sigma <= SCALE * P_MAX) by (nonlinear_arith)
            requires e <= SCALE, sigma <= P_MAX;
    }
    let spread: u64 = (e * sigma) / SCALE;
    let d: u64 = uniform(seed, 2 * spread);
    let mean: u64 = s.mean();
    let t: u64 = mean + d;
    let j: u64 = if t < spread {
        0
    } else if t - spread > P_MAX {
        P_MAX
    } else {
        t - spread
    };
    let u: u64 = uniform(seed, SCALE);
    proof {
        assert((SCALE - e) * j + e * u <= SCALE * P_MAX) by (nonlinear_arith)
            requires e <= SCALE, j <= P_MAX, u <= SCALE, SCALE <= P_MAX;
        vstd::arithmetic::div_mod::lemma_div_is_ordered(
            ((SCALE - e) * j + e * u) as int,
            (SCALE * P_MAX) as int,
            SCALE as int,
        );
        vstd::arithmetic::div_mod::lemma_div_by_multiple(P_MAX as int, SCALE as int);
        assert(SCALE * P_MAX == P_MAX * SCALE) by (nonlinear_arith);
    }
    ((SCALE - e) * j + e * u) / SCALE
}

impl EvoCoreContextSystem {
    /// Sample a parameter vector for the context addressed by a pre-built
    /// key.  The seed is advanced deterministically, so a repeated call
    /// with the same seed value on an unchanged store returns the same
    /// vector.  Fails with `UnknownContext`, leaving the seed untouched,
    /// exactly when no observation was ever recorded under the key.
    pub fn sample_key(
        &self,
        key: &String,
        exploration: u64,
        seed: &mut u64,
    ) -> (r: Result<Vec<u64>, EvoError>)
        requires
            store_wf(self@),
            exploration <= SCALE,
        ensures
            r is Ok <==> total_of(self@.records, key@) > 0,
            r is Err ==> r->Err_0 == EvoError::UnknownContext && *final(seed) == *old(seed),
            r is Ok ==> {
                let rec = self@.records[idx_of(self@.records, key@)];
                &&& r->Ok_0@ == sample_seq(rec.stats, exploration, *old(seed)).0
                &&& *final(seed) == sample_seq(rec.stats, exploration, *old(seed)).1
                &&& r->Ok_0@.len() == self@.param_count
            },
    {
        match self.find_idx(key) {
            Some(i) => {
                let rec = &self.records[i];
                if rec.total_observations == 0 {
                    return Err(EvoError::UnknownContext);
                }
                proof {
                    assert(rec_wf(self@.records[i as int], self@.param_count));
                }
                let ghost all = rec.stats@;
                let n: usize = rec.stats.len();
                let mut out: Vec<u64> = Vec::new();
                let mut k: usize = 0;
                proof {
                    assert(all.skip(0) =~~= all);
                }
                while k < n
                    invariant
                        0 <= k <= n,
                        n == all.len(),
                        all == self@.records[idx_of(self@.records, key@)].stats,
                        rec_wf(self@.records[idx_of(self@.records, key@)], self@.param_count),
                        0 <= idx_of(self@.records, key@) < self.records@.len(),
                        rec == &self.records[idx_of(self@.records, key@)],
                        exploration <= SCALE,
                        out@.len() == k,
                        sample_seq(all, exploration, *old(seed)).0
                            == out@ + sample_seq(all.skip(k as int), exploration, *seed).0,
                        sample_seq(all, exploration, *old(seed)).1
                            == sample_seq(all.skip(k as int), exploration, *seed).1,
                    decreases n - k,
                {
                    proof {
                        assert(all.skip(k as int).drop_first() =~~= all.skip(k + 1));
                        assert(all.skip(k as int)[0] == all[k as int]);
                        assert(stats_wf(all[k as int]));
                    }
                    let ghost seed_before = *seed;
                    let v: u64 = draw(&rec.stats[k], exploration, seed);
                    proof {
                        let (sv, s1) = draw_one(all[k as int], exploration, seed_before);
                        let (rest, s2) = sample_seq(all.skip(k + 1), exploration, s1);
                        assert(sample_seq(all.skip(k as int), exploration, seed_before).0
                            =~~= seq![sv] + rest);
                        assert(out@.push(v) + rest =~~= out@ + (seq![sv] + rest));
                    }
                    out.push(v);
                    k = k + 1;
                }
                proof {
                    assert(all.skip(n as int) =~~= Seq::<ParamStats>::empty());
                    assert(out@ + Seq::<u64>::empty() =~~= out@);
                }
                Ok(out)
            },
            None => Err(EvoError::UnknownContext),
        }
    }

    /// Sample a parameter vector for the context addressed by a value
    /// tuple: validate the tuple, derive its key, and draw as
    /// `sample_key` does.  Fails with `DimensionCountMismatch` or
    /// `InvalidValue` on a bad tuple and with `UnknownContext` when the
    /// context holds no observation; the seed is untouched on failure.
    pub fn sample(
        &self,
        dimension_values: &Vec<String>,
        exploration: u64,
        seed: &mut u64,
    ) -> (r: Result<Vec<u64>, EvoError>)
        requires
            store_wf(self@),
            exploration <= SCALE,
        ensures
            r is Ok <==> (tuple_valid(self@.dims, dimension_values.deep_view())
                && total_of(self@.records, key_of(dimension_values.deep_view())) > 0),
            r is Err ==> *final(seed) == *old(seed),
            r is Err ==> (r->Err_0 == EvoError::DimensionCountMismatch
                || r->Err_0 == EvoError::InvalidValue
                || r->Err_0 == EvoError::UnknownContext),
            dimension_values@.len() != self@.dims.len() ==> r == Err::<Vec<u64>, EvoError>(
                EvoError::DimensionCountMismatch,
            ),
            (tuple_valid(self@.dims, dimension_values.deep_view())
                && total_of(self@.records, key_of(dimension_values.deep_view())) == 0) ==> r
                == Err::<Vec<u64>, EvoError>(EvoError::UnknownContext),
            r is Ok ==> {
                let k = key_of(dimension_values.deep_view());
                let rec = self@.records[idx_of(self@.records, k)];
                &&& r->Ok_0@ == sample_seq(rec.stats, exploration, *old(seed)).0
                &&& *final(seed) == sample_seq(rec.stats, exploration, *old(seed)).1
                &&& r->Ok_0@.len() == self@.param_count
            },
    {
        match check_tuple(&self.dimensions, dimension_values) {
            Ok(()) => {
                let key: String = join_key(dimension_values);
                self.sample_key(&key, exploration, seed)
            },
            Err(e) => Err(e),
        }
    }
}

} // verus!
