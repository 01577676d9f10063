//! The library's laws: properties that relate several operations, stated
//! over the same spec functions the operations' contracts use.

use vstd::prelude::*;
use crate::{OBS_MAX, F_MAX, P_MAX, SCALE};
use crate::dims::{DimModel, dims_wf, dim_wf, sep_free};
use crate::key::{key_of, tuple_valid, lemma_key_of_injective};
use crate::rng::{lcg_next, uniform_spec};
use crate::sampling::{draw_one, sample_seq};
use crate::stats::{ParamStats, mean_of, stats_wf, lemma_mean_bound};
use crate::store::{
    StoreModel, store_wf, rec_wf, recs_learned, rec_learned, fresh_rec, has_rec, idx_of,
    total_of, params_ok, lemma_idx_of, lemma_learn_preserves_wf,
};

verus! {

/// Sampling is deterministic: the drawn vector and the advanced seed are
/// a function of the record's statistics, the exploration factor and the
/// seed alone, so two calls with the same seed on an unchanged record
/// return the same vector.
pub proof fn lemma_sample_deterministic(
    a: Seq<ParamStats>,
    b: Seq<ParamStats>,
    e: u64,
    seed: u64,
)
    requires
        a == b,
    ensures
        sample_seq(a, e, seed) == sample_seq(b, e, seed),
{
}

/// The key codec is collision-free: two valid value tuples for the same
/// dimensions with the same key are the same tuple.  (That repeated calls
/// on one tuple give one key is `build_key`'s own contract: the key is
/// the pure function `key_of` of the tuple.)
pub proof fn lemma_key_collision_free(
    dims: Seq<DimModel>,
    a: Seq<Seq<char>>,
    b: Seq<Seq<char>>,
)
    requires
        dims_wf(dims),
        tuple_valid(dims, a),
        tuple_valid(dims, b),
        key_of(a) == key_of(b),
    ensures
        a == b,
{
    assert forall|i: int| 0 <= i < a.len() implies sep_free(#[trigger] a[i]) by {
        assert(dim_wf(dims[i]));
        let j = choose|j: int| 0 <= j < dims[i].values.len() && dims[i].values[j] == a[i];
        assert(sep_free(dims[i].values[j]));
    }
    assert forall|i: int| 0 <= i < b.len() implies sep_free(#[trigger] b[i]) by {
        assert(dim_wf(dims[i]));
        let j = choose|j: int| 0 <= j < dims[i].values.len() && dims[i].values[j] == b[i];
        assert(sep_free(dims[i].values[j]));
    }
    lemma_key_of_injective(a, b);
}

/// Monotonic evidence: one learning step raises the observation count of
/// the addressed context's every parameter, and its total, by exactly
/// one, whatever the fitness was.
pub proof fn lemma_monotonic_evidence(
    m: StoreModel,
    key: Seq<char>,
    params: Seq<u64>,
    fitness: u64,
)
    requires
        store_wf(m),
        params.len() == m.param_count,
        fitness <= F_MAX,
        params_ok(params),
        total_of(m.records, key) < OBS_MAX,
    ensures
        ({
            let recs2 = recs_learned(m.records, key, params, fitness);
            &&& has_rec(recs2, key)
            &&& total_of(recs2, key) == total_of(m.records, key) + 1
            &&& forall|i: int|
                0 <= i < m.param_count ==> #[trigger] recs2[idx_of(recs2, key)].stats[i]
                    .observation_count == total_of(m.records, key) + 1
        }),
{
    let recs = m.records;
    let recs2 = recs_learned(recs, key, params, fitness);
    lemma_learn_preserves_wf(m, key, params, fitness);
    let m2 = StoreModel { records: recs2, ..m };
    assert(store_wf(m2));
    if has_rec(recs, key) {
        let i = idx_of(recs, key);
        assert(0 <= i < recs.len() && recs[i].key == key);
        assert(recs2[i] == rec_learned(recs[i], params, fitness));
        lemma_idx_of(recs2, key, i);
        assert(rec_wf(recs[i], m.param_count));
        assert(m2.records[i] == recs2[i]);
        assert(rec_wf(m2.records[i], m2.param_count));
    } else {
        let i = recs2.len() - 1;
        assert(recs2[i] == rec_learned(fresh_rec(key, params.len() as int), params, fitness));
        lemma_idx_of(recs2, key, i);
        assert(m2.records[i] == recs2[i]);
        assert(rec_wf(m2.records[i], m2.param_count));
    }
}

/// Convergence under consistent evidence: when every accumulated unit of
/// fitness weight observed the same value `p`, the learned mean is
/// exactly `p` — with `lemma_pure_exploitation`, zero-exploration
/// sampling then returns exactly the vector that was always learned.
pub proof fn lemma_consistent_mean(s: ParamStats, p: u64)
    requires
        stats_wf(s),
        s.weight_sum > 0,
        s.weighted_sum == s.weight_sum * p,
    ensures
        mean_of(s) == p,
{
    vstd::arithmetic::div_mod::lemma_div_by_multiple(p as int, s.weight_sum as int);
    assert(s.weight_sum * p == p * s.weight_sum) by (nonlinear_arith);
}

/// Pure exploitation: with exploration zero, sampling returns exactly the
/// learned means, with no noise at all.
pub proof fn lemma_pure_exploitation(stats: Seq<ParamStats>, seed: u64)
    requires
        forall|i: int| 0 <= i < stats.len() ==> stats_wf(#[trigger] stats[i]),
    ensures
        sample_seq(stats, 0, seed).0
            == Seq::new(stats.len(), |i: int| mean_of(stats[i])),
    decreases stats.len(),
{
    let want = Seq::new(stats.len(), |i: int| mean_of(stats[i]));
    if stats.len() == 0 {
        assert(sample_seq(stats, 0, seed).0 =~= want);
    } else {
        lemma_draw_one_exploit(stats[0], seed);
        let (v, s1) = draw_one(stats[0], 0, seed);
        lemma_pure_exploitation(stats.drop_first(), s1);
        let rest = Seq::new(stats.drop_first().len(), |i: int| mean_of(stats.drop_first()[i]));
        assert(seq![v] + rest =~= want);
    }
}

/// One zero-exploration draw is exactly the mean.
proof fn lemma_draw_one_exploit(s: ParamStats, seed: u64)
    requires
        stats_wf(s),
    ensures
        draw_one(s, 0, seed).0 == mean_of(s),
{
    lemma_mean_bound(s);
    let sigma = crate::stats::isqrt_spec(crate::stats::variance_of(s) as nat) as u64;
    assert(0u64 * sigma == 0) by (nonlinear_arith);
    assert(0int / (SCALE as int) == 0);
    let d = uniform_spec(seed, 0);
    assert(d == 0) by {
        assert(crate::rng::lcg_out(seed) % 1u64 == 0);
    }
    let m = mean_of(s);
    assert((SCALE - 0) * m + 0 * uniform_spec(lcg_next(seed), SCALE) == SCALE * m)
        by (nonlinear_arith);
    assert((SCALE * m) as int / (SCALE as int) == m) by {
        vstd::arithmetic::div_mod::lemma_div_by_multiple(m as int, SCALE as int);
        assert(SCALE * m == m * SCALE) by (nonlinear_arith);
    }
}

/// The prior draws: what sampling returns at full exploration, two
/// generator steps per parameter, uniform over the prior range and blind
/// to the record.
pub open spec fn prior_draws(n: nat, seed: u64) -> (Seq<u64>, u64)
    decreases n,
{
    if n == 0 {
        (Seq::empty(), seed)
    } else {
        let s1 = lcg_next(seed);
        let u = uniform_spec(s1, SCALE);
        let s2 = lcg_next(s1);
        let (rest, s3) = prior_draws((n - 1) as nat, s2);
        (seq![u] + rest, s3)
    }
}

/// Pure exploration: with exploration at the scale, sampling ignores the
/// learned statistics entirely — the result is the prior-draw sequence of
/// the seed, whatever the record holds.
pub proof fn lemma_pure_exploration(stats: Seq<ParamStats>, seed: u64)
    ensures
        sample_seq(stats, SCALE, seed) == prior_draws(stats.len(), seed),
    decreases stats.len(),
{
    if stats.len() > 0 {
        lemma_draw_one_explore(stats[0], seed);
        let (v, s1) = draw_one(stats[0], SCALE, seed);
        lemma_pure_exploration(stats.drop_first(), s1);
        let (pv, ps1) = prior_draws(stats.len(), seed);
        assert(sample_seq(stats, SCALE, seed).0 =~= prior_draws(stats.len(), seed).0);
    }
}

/// One full-exploration draw is the uniform prior draw of the advanced
/// seed, and advances the seed by exactly two steps, blind to the record.
proof fn lemma_draw_one_explore(s: ParamStats, seed: u64)
    ensures
        draw_one(s, SCALE, seed).0 == uniform_spec(lcg_next(seed), SCALE),
        draw_one(s, SCALE, seed).1 == lcg_next(lcg_next(seed)),
{
    let sigma = crate::stats::isqrt_spec(crate::stats::variance_of(s) as nat) as u64;
    let spread = ((SCALE * sigma) / (SCALE as int)) as u64;
    let d = uniform_spec(seed, (2 * spread) as u64);
    let jit = mean_of(s) + d - spread;
    let j: u64 = if jit < 0 {
        0
    } else if jit > P_MAX {
        P_MAX
    } else {
        jit as u64
    };
    let u = uniform_spec(lcg_next(seed), SCALE);
    assert((SCALE - SCALE) * j + SCALE * u == SCALE * u) by (nonlinear_arith);
    assert((SCALE * u) as int / (SCALE as int) == u) by {
        vstd::arithmetic::div_mod::lemma_div_by_multiple(u as int, SCALE as int);
        assert(SCALE * u == u * SCALE) by (nonlinear_arith);
    }
}

} // verus!
