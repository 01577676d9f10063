//! Per-parameter running statistics and the online update rule.
//!
//! Each parameter of a context record keeps the exact sufficient statistics
//! of a fitness-weighted distribution: the total fitness weight, the
//! fitness-weighted sum of observed values, the fitness-weighted sum of
//! their squares, and the number of observations.  Mean and dispersion are
//! derived from the sums, so a zero-fitness trial moves no estimate while
//! still counting as evidence.

use vstd::prelude::*;
use vstd::arithmetic::div_mod::{lemma_div_is_ordered, lemma_div_by_multiple};
use crate::{P_MAX, F_MAX, OBS_MAX, SCALE};

verus! {

/// Running statistics for one parameter of one context.
#[derive(Clone, Copy, Debug, PartialEq, Eq, Structural)]
pub struct ParamStats {
    /// Sum of the fitness weights of all observations.
    pub weight_sum: u64,
    /// Fitness-weighted sum of the observed parameter values.
    pub weighted_sum: u128,
    /// Fitness-weighted sum of the squares of the observed values.
    pub weighted_sq_sum: u128,
    /// Number of observations, counted whatever the fitness was.
    pub observation_count: u64,
}

/// Bounds that every reachable `ParamStats` satisfies; they keep all
/// derived arithmetic inside `u64`/`u128`.
pub open spec fn stats_wf(s: ParamStats) -> bool {
    &&& s.observation_count <= OBS_MAX
    &&& s.weight_sum <= s.observation_count * F_MAX
    &&& s.weighted_sum <= s.weight_sum * P_MAX
    &&& s.weighted_sq_sum <= s.weight_sum * P_MAX * P_MAX
}

/// The statistics of a parameter that was never observed.
pub open spec fn stats_empty() -> ParamStats {
    ParamStats { weight_sum: 0, weighted_sum: 0, weighted_sq_sum: 0, observation_count: 0 }
}

/// The online update: one observation of value `p` with fitness weight `f`.
pub open spec fn stat_learned(s: ParamStats, p: u64, f: u64) -> ParamStats {
    ParamStats {
        weight_sum: (s.weight_sum + f) as u64,
        weighted_sum: (s.weighted_sum + (f as u128) * (p as u128)) as u128,
        weighted_sq_sum: (s.weighted_sq_sum + (f as u128) * (p as u128) * (p as u128)) as u128,
        observation_count: (s.observation_count + 1) as u64,
    }
}

/// The learned mean of a parameter: the fitness-weighted average of the
/// observed values, or the midpoint of the prior range when no weight has
/// accumulated yet.
pub open spec fn mean_of(s: ParamStats) -> u64 {
    if s.weight_sum == 0 {
        (SCALE / 2) as u64
    } else {
        (s.weighted_sum / (s.weight_sum as u128)) as u64
    }
}

/// The learned dispersion of a parameter, as a variance: second moment
/// minus squared mean, clamped at zero against rounding of the integer
/// divisions.
pub open spec fn variance_of(s: ParamStats) -> u64 {
    if s.weight_sum == 0 {
        0
    } else {
        let m2 = s.weighted_sq_sum / (s.weight_sum as u128);
        let mu = s.weighted_sum / (s.weight_sum as u128);
        if m2 > mu * mu {
            (m2 - mu * mu) as u64
        } else {
            0
        }
    }
}

/// The update keeps the well-formedness bounds and raises the observation
/// count by exactly one.
pub proof fn lemma_stat_learned_wf(s: ParamStats, p: u64, f: u64)
    requires
        stats_wf(s),
        s.observation_count < OBS_MAX,
        p <= P_MAX,
        f <= F_MAX,
    ensures
        stats_wf(stat_learned(s, p, f)),
        stat_learned(s, p, f).observation_count == s.observation_count + 1,
        s.weight_sum + f <= u64::MAX,
        s.weighted_sum + (f as u128) * (p as u128) <= u128::MAX,
        s.weighted_sq_sum + (f as u128) * (p as u128) * (p as u128) <= u128::MAX,
{
    assert((s.observation_count + 1) * F_MAX == s.observation_count * F_MAX + F_MAX)
        by (nonlinear_arith);
    assert(f * p <= F_MAX * P_MAX) by (nonlinear_arith)
        requires f <= F_MAX, p <= P_MAX;
    assert((s.weight_sum + f) * P_MAX == s.weight_sum * P_MAX + f * P_MAX)
        by (nonlinear_arith);
    assert(f * p <= f * P_MAX) by (nonlinear_arith)
        requires p <= P_MAX, f >= 0;
    assert((s.weight_sum + f) * P_MAX * P_MAX
        == s.weight_sum * P_MAX * P_MAX + f * P_MAX * P_MAX) by (nonlinear_arith);
    assert(f * p * p <= f * P_MAX * P_MAX) by (nonlinear_arith)
        requires p <= P_MAX, f >= 0;
    assert(s.observation_count * F_MAX <= OBS_MAX * F_MAX) by (nonlinear_arith)
        requires s.observation_count <= OBS_MAX;
    assert(s.weight_sum * P_MAX <= (OBS_MAX * F_MAX) * P_MAX) by (nonlinear_arith)
        requires s.weight_sum <= OBS_MAX * F_MAX;
    assert(s.weight_sum * P_MAX * P_MAX <= (OBS_MAX * F_MAX) * P_MAX * P_MAX)
        by (nonlinear_arith)
        requires s.weight_sum <= OBS_MAX * F_MAX;
}

/// The mean never leaves the admissible parameter range.
pub proof fn lemma_mean_bound(s: ParamStats)
    requires
        stats_wf(s),
    ensures
        mean_of(s) <= P_MAX,
        s.weight_sum > 0 ==>
            s.weighted_sum / (s.weight_sum as u128) <= P_MAX,
{
    if s.weight_sum > 0 {
        lemma_div_is_ordered(
            s.weighted_sum as int,
            s.weight_sum * P_MAX,
            s.weight_sum as int,
        );
        lemma_div_by_multiple(P_MAX as int, s.weight_sum as int);
        assert(s.weight_sum * P_MAX == P_MAX * s.weight_sum) by (nonlinear_arith);
    }
}

/// The variance never exceeds the square of the largest parameter value.
pub proof fn lemma_variance_bound(s: ParamStats)
    requires
        stats_wf(s),
    ensures
        variance_of(s) <= P_MAX * P_MAX,
        s.weight_sum > 0 ==>
            s.weighted_sq_sum / (s.weight_sum as u128) <= P_MAX * P_MAX,
{
    if s.weight_sum > 0 {
        lemma_div_is_ordered(
            s.weighted_sq_sum as int,
            s.weight_sum * P_MAX * P_MAX,
            s.weight_sum as int,
        );
        assert(s.weight_sum * P_MAX * P_MAX == (P_MAX * P_MAX) * s.weight_sum)
            by (nonlinear_arith);
        lemma_div_by_multiple((P_MAX * P_MAX) as int, s.weight_sum as int);
    }
}

impl ParamStats {
    /// A parameter that was never observed.
    pub fn empty() -> (r: ParamStats)
        ensures
            r == stats_empty(),
    {
        ParamStats { weight_sum: 0, weighted_sum: 0, weighted_sq_sum: 0, observation_count: 0 }
    }

    /// Fold one observation of value `p` with fitness weight `f` into the
    /// running statistics.
    pub fn learned(&self, p: u64, f: u64) -> (r: ParamStats)
        requires
            stats_wf(*self),
            self.observation_count < OBS_MAX,
            p <= P_MAX,
            f <= F_MAX,
        ensures
            r == stat_learned(*self, p, f),
            stats_wf(r),
    {
        proof {
            lemma_stat_learned_wf(*self, p, f);
        }
        ParamStats {
            weight_sum: self.weight_sum + f,
            weighted_sum: self.weighted_sum + (f as u128) * (p as u128),
            weighted_sq_sum: self.weighted_sq_sum + (f as u128) * (p as u128) * (p as u128),
            observation_count: self.observation_count + 1,
        }
    }

    /// The learned mean of this parameter.
    pub fn mean(&self) -> (r: u64)
        requires
            stats_wf(*self),
        ensures
            r == mean_of(*self),
            r <= P_MAX,
    {
        proof {
            lemma_mean_bound(*self);
        }
        if self.weight_sum == 0 {
            SCALE / 2
        } else {
            (self.weighted_sum / (self.weight_sum as u128)) as u64
        }
    }

    /// The learned dispersion of this parameter, as a variance.
    pub fn variance(&self) -> (r: u64)
        requires
            stats_wf(*self),
        ensures
            r == variance_of(*self),
            r <= P_MAX * P_MAX,
    {
        proof {
            lemma_variance_bound(*self);
            lemma_mean_bound(*self);
        }
        if self.weight_sum == 0 {
            0
        } else {
            let m2: u128 = self.weighted_sq_sum / (self.weight_sum as u128);
            let mu: u128 = self.weighted_sum / (self.weight_sum as u128);
            proof {
                assert(mu * mu <= P_MAX * P_MAX) by (nonlinear_arith)
                    requires mu <= P_MAX;
            }
            if m2 > mu * mu {
                (m2 - mu * mu) as u64
            } else {
                0
            }
        }
    }
}

/// `isqrt_spec(v)` is the integer square root of `v`: the largest `r` with
/// `r * r <= v`.
pub open spec fn isqrt_spec(v: nat) -> nat
    decreases v,
{
    if v == 0 {
        0
    } else {
        let r = isqrt_spec((v - 1) as nat);
        if (r + 1) * (r + 1) <= v {
            r + 1
        } else {
            r
        }
    }
}

/// The defining bracket of the integer square root.
pub proof fn lemma_isqrt_spec(v: nat)
    ensures
        isqrt_spec(v) * isqrt_spec(v) <= v,
        v < (isqrt_spec(v) + 1) * (isqrt_spec(v) + 1),
    decreases v,
{
    if v > 0 {
        lemma_isqrt_spec((v - 1) as nat);
        let r = isqrt_spec((v - 1) as nat);
        assert(r * r <= v - 1);
        assert(v - 1 < (r + 1) * (r + 1));
        if (r + 1) * (r + 1) <= v {
            assert(isqrt_spec(v) == r + 1);
            assert((r + 1) * (r + 1) < (r + 2) * (r + 2)) by (nonlinear_arith);
        } else {
            assert(isqrt_spec(v) == r);
        }
    } else {
        assert(isqrt_spec(0nat) == 0);
        assert(0nat * 0nat == 0) by (nonlinear_arith);
        assert((0nat + 1) * (0nat + 1) == 1) by (nonlinear_arith);
    }
}

/// Any value in the bracket is the integer square root.
pub proof fn lemma_isqrt_unique(v: nat, r: nat)
    requires
        r * r <= v,
        v < (r + 1) * (r + 1),
    ensures
        r == isqrt_spec(v),
{
    lemma_isqrt_spec(v);
    let q = isqrt_spec(v);
    if r < q {
        assert((r + 1) * (r + 1) <= q * q) by (nonlinear_arith)
            requires r + 1 <= q;
    }
    if q < r {
        assert((q + 1) * (q + 1) <= r * r) by (nonlinear_arith)
            requires q + 1 <= r;
    }
}

/// Integer square root by binary search.
pub fn isqrt(v: u64) -> (r: u64)
    ensures
        r == isqrt_spec(v as nat),
        (r as nat) * (r as nat) <= v as nat,
        (v as nat) < ((r + 1) as nat) * ((r + 1) as nat),
{
    // Invariant: lo * lo <= v < hi * hi.
    let mut lo: u64 = 0;
    let mut hi: u64 = 4_294_967_296;
    proof {
        assert((hi as nat) * (hi as nat) > u64::MAX as nat) by (nonlinear_arith)
            requires hi == 4_294_967_296u64;
    }
    while lo + 1 < hi
        invariant
            lo < hi,
            hi <= 4_294_967_296,
            (lo as nat) * (lo as nat) <= v as nat,
            (v as nat) < (hi as nat) * (hi as nat),
        decreases hi - lo,
    {
        let mid: u64 = lo + (hi - lo) / 2;
        proof {
            assert((mid as nat) * (mid as nat) <= u128::MAX) by (nonlinear_arith)
                requires mid <= 4_294_967_296u64;
        }
        if (mid as u128) * (mid as u128) <= v as u128 {
            lo = mid;
        } else {
            hi = mid;
        }
    }
    proof {
        lemma_isqrt_unique(v as nat, lo as nat);
    }
    lo
}

/// A read-only snapshot of one context's observation counts, handed out by
/// the stats reporter.
#[derive(Clone, Debug)]
#[allow(non_camel_case_types)]
pub struct evocore_context_stats_t {
    /// Observation count of each parameter, in parameter order.
    pub observation_counts: Vec<u64>,
    /// Total observations recorded for the context.
    pub total_observations: u64,
}

impl evocore_context_stats_t {
    /// True iff every parameter of the context has accumulated at least
    /// `min_samples` observations.  On a snapshot of a never-observed
    /// context all counts are zero, so any positive threshold fails.
    pub fn has_data(&self, min_samples: u64) -> (r: bool)
        ensures
            r == forall|i: int|
                0 <= i < self.observation_counts@.len()
                    ==> self.observation_counts@[i] >= min_samples,
    {
        let mut i: usize = 0;
        let n: usize = self.observation_counts.len();
        while i < n
            invariant
                0 <= i <= n,
                n == self.observation_counts@.len(),
                forall|j: int| 0 <= j < i ==> self.observation_counts@[j] >= min_samples,
            decreases n - i,
        {
            if self.observation_counts[i] < min_samples {
                return false;
            }
            i = i + 1;
        }
        true
    }
}

} // verus!
