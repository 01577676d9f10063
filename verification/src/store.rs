//! The context record store: dimension registry, per-context learned
//! state, and the learning update.

use vstd::prelude::*;
use crate::EvoError;
use crate::{F_MAX, OBS_MAX, P_MAX};
use crate::dims::{DimModel, dims_views, dims_wf, evocore_context_dimension_t};
use crate::key::{key_of, tuple_valid, join_key, check_tuple};
use crate::stats::{ParamStats, stat_learned, stats_empty, stats_wf};

verus! {

/// One context's learned state: its key, the per-parameter weighted
/// statistics, and how many observations it has absorbed.
#[allow(non_camel_case_types)]
#[derive(Debug)]
pub struct evocore_weighted_array_t {
    /// The canonical context key this record belongs to.
    pub key: String,
    /// Per-parameter running statistics, one entry per parameter.
    pub stats: Vec<ParamStats>,
    /// Observations absorbed by this record, whatever their fitness.
    pub total_observations: u64,
}

/// The mathematical content of a context record.
pub struct RecModel {
    pub key: Seq<char>,
    pub stats: Seq<ParamStats>,
    pub total_observations: u64,
}

impl View for evocore_weighted_array_t {
    type V = RecModel;

    open spec fn view(&self) -> RecModel {
        RecModel {
            key: self.key@,
            stats: self.stats@,
            total_observations: self.total_observations,
        }
    }
}

/// The mathematical content of a whole store.
pub struct StoreModel {
    pub dims: Seq<DimModel>,
    pub param_count: int,
    pub records: Seq<RecModel>,
}

/// The contextual parameter-learning store.
///
/// It owns all context records; callers address them by key or by value
/// tuple through its methods.  The value may be moved between exclusive
/// owners but needs external synchronization for shared concurrent use.
pub struct EvoCoreContextSystem {
    /// The fixed, ordered dimension registry.
    pub dimensions: Vec<evocore_context_dimension_t>,
    /// The fixed number of learned parameters per context.
    pub param_count: usize,
    /// All context records, keyed uniquely.
    pub records: Vec<evocore_weighted_array_t>,
}

impl View for EvoCoreContextSystem {
    type V = StoreModel;

    open spec fn view(&self) -> StoreModel {
        StoreModel {
            dims: dims_views(self.dimensions@),
            param_count: self.param_count as int,
            records: self.records@.map_values(|r: evocore_weighted_array_t| r@),
        }
    }
}

/// A well-formed record for a store with `pc` parameters: the statistics
/// list has one entry per parameter, every entry is bounded, and every
/// entry has seen exactly the record's total number of observations.
pub open spec fn rec_wf(r: RecModel, pc: int) -> bool {
    &&& r.stats.len() == pc
    &&& r.total_observations <= OBS_MAX
    &&& forall|i: int|
        0 <= i < r.stats.len() ==> stats_wf(#[trigger] r.stats[i])
            && r.stats[i].observation_count == r.total_observations
}

/// The store invariant: well-formed dimensions, a positive parameter
/// count, well-formed records, and no two records sharing a key.
pub open spec fn store_wf(m: StoreModel) -> bool {
    &&& dims_wf(m.dims)
    &&& m.param_count > 0
    &&& forall|i: int| 0 <= i < m.records.len() ==> rec_wf(#[trigger] m.records[i], m.param_count)
    &&& forall|i: int, j: int|
        0 <= i < j < m.records.len() ==> m.records[i].key != m.records[j].key
}

/// Some record carries this key.
pub open spec fn has_rec(recs: Seq<RecModel>, key: Seq<char>) -> bool {
    exists|i: int| 0 <= i < recs.len() && recs[i].key == key
}

/// The index of the record with this key, where one exists.
pub open spec fn idx_of(recs: Seq<RecModel>, key: Seq<char>) -> int {
    choose|i: int| 0 <= i < recs.len() && recs[i].key == key
}

/// The total observation count recorded under this key; zero when the key
/// was never learned.
pub open spec fn total_of(recs: Seq<RecModel>, key: Seq<char>) -> u64 {
    if has_rec(recs, key) {
        recs[idx_of(recs, key)].total_observations
    } else {
        0
    }
}

/// With unique keys, any index carrying the key is the chosen one.
pub proof fn lemma_idx_of(recs: Seq<RecModel>, key: Seq<char>, i: int)
    requires
        forall|a: int, b: int| 0 <= a < b < recs.len() ==> recs[a].key != recs[b].key,
        0 <= i < recs.len(),
        recs[i].key == key,
    ensures
        has_rec(recs, key),
        idx_of(recs, key) == i,
{
    assert(has_rec(recs, key));
    let j = idx_of(recs, key);
    assert(0 <= j < recs.len() && recs[j].key == key);
    if i < j {
        assert(recs[i].key != recs[j].key);
    }
    if j < i {
        assert(recs[j].key != recs[i].key);
    }
}

/// The record that one learning step makes of `r`.
pub open spec fn rec_learned(r: RecModel, params: Seq<u64>, fitness: u64) -> RecModel {
    RecModel {
        key: r.key,
        stats: Seq::new(r.stats.len() as nat, |i: int| stat_learned(r.stats[i], params[i], fitness)),
        total_observations: (r.total_observations + 1) as u64,
    }
}

/// A record that has absorbed nothing yet.
pub open spec fn fresh_rec(key: Seq<char>, pc: int) -> RecModel {
    RecModel {
        key: key,
        stats: Seq::new(pc as nat, |i: int| stats_empty()),
        total_observations: 0,
    }
}

/// The record list after learning `params` with `fitness` under `key`:
/// the addressed record is updated in place, or a fresh one is appended.
pub open spec fn recs_learned(
    recs: Seq<RecModel>,
    key: Seq<char>,
    params: Seq<u64>,
    fitness: u64,
) -> Seq<RecModel> {
    if has_rec(recs, key) {
        recs.update(idx_of(recs, key), rec_learned(recs[idx_of(recs, key)], params, fitness))
    } else {
        recs.push(rec_learned(fresh_rec(key, params.len() as int), params, fitness))
    }
}

/// How many contexts hold at least one observation.
pub open spec fn active_count(recs: Seq<RecModel>) -> int
    decreases recs.len(),
{
    if recs.len() == 0 {
        0
    } else {
        (if recs[0].total_observations > 0 {
            1int
        } else {
            0int
        }) + active_count(recs.drop_first())
    }
}

/// All parameters of the vector lie in the admissible range.
pub open spec fn params_ok(params: Seq<u64>) -> bool {
    forall|i: int| 0 <= i < params.len() ==> #[trigger] params[i] <= P_MAX
}

impl EvoCoreContextSystem {
    /// Find the record carrying `key`.
    pub(crate) fn find_idx(&self, key: &String) -> (r: Option<usize>)
        requires
            store_wf(self@),
        ensures
            match r {
                Some(i) => has_rec(self@.records, key@) && idx_of(self@.records, key@) == i
                    && 0 <= i < self@.records.len(),
                None => !has_rec(self@.records, key@),
            },
    {
        let n: usize = self.records.len();
        let mut i: usize = 0;
        while i < n
            invariant
                0 <= i <= n,
                n == self.records@.len(),
                store_wf(self@),
                forall|j: int| 0 <= j < i ==> self@.records[j].key != key@,
            decreases n - i,
        {
            if self.records[i].key == *key {
                proof {
                    assert(self@.records[i as int].key == key@);
                    lemma_idx_of(self@.records, key@, i as int);
                }
                return Some(i);
            }
            assert(self@.records[i as int].key != key@);
            i = i + 1;
        }
        None
    }

    /// Create a store from parallel lists of dimension names and allowed
    /// values, with `param_count` learned parameters per context.
    ///
    /// Fails with `InvalidConfiguration` when the two lists differ in
    /// length, a name is empty or duplicated, a dimension has no values, a
    /// value is empty, repeated within its dimension or contains the key
    /// separator, or `param_count` is zero.
    pub fn new(
        dimension_names: Vec<String>,
        dimension_values: Vec<Vec<String>>,
        param_count: usize,
    ) -> (r: Result<EvoCoreContextSystem, EvoError>)
        ensures
            r is Ok <==> (dimension_names@.len() == dimension_values@.len() && param_count > 0
                && dims_wf(paired_dims(dimension_names.deep_view(), dimension_values.deep_view()))),
            r is Err ==> r->Err_0 == EvoError::InvalidConfiguration,
            r is Ok ==> {
                &&& store_wf(r->Ok_0@)
                &&& r->Ok_0@.dims == paired_dims(
                    dimension_names.deep_view(),
                    dimension_values.deep_view(),
                )
                &&& r->Ok_0@.param_count == param_count
                &&& r->Ok_0@.records.len() == 0
            },
    {
        let ghost names0 = dimension_names.deep_view();
        let ghost values0 = dimension_values.deep_view();
        if dimension_names.len() != dimension_values.len() {
            return Err(EvoError::InvalidConfiguration);
        }
        if param_count == 0 {
            return Err(EvoError::InvalidConfiguration);
        }
        let mut names = dimension_names;
        let mut value_sets = dimension_values;
        let mut dims: Vec<evocore_context_dimension_t> = Vec::new();
        while names.len() > 0
            invariant
                names@.len() == value_sets@.len(),
                dims@.len() + names@.len() == names0.len(),
                names0.len() == values0.len(),
                forall|i: int|
                    0 <= i < dims@.len() ==> #[trigger] dims@[i]@ == (DimModel {
                        name: names0[i],
                        values: values0[i],
                    }),
                forall|i: int|
                    0 <= i < names@.len() ==> names@[i]@ == names0[dims@.len() + i]
                        && value_sets@[i].deep_view() == values0[dims@.len() + i],
            decreases names@.len(),
        {
            let nm: String = names.remove(0);
            let vs: Vec<String> = value_sets.remove(0);
            dims.push(evocore_context_dimension_t { name: nm, values: vs });
        }
        assert(dims_views(dims@) =~= paired_dims(names0, values0));
        if !crate::dims::check_dims(&dims) {
            return Err(EvoError::InvalidConfiguration);
        }
        let sys = EvoCoreContextSystem { dimensions: dims, param_count, records: Vec::new() };
        proof {
            assert(sys@.records =~= Seq::<RecModel>::empty());
        }
        Ok(sys)
    }

    /// Derive the canonical key of a value tuple, validating it against
    /// the dimensions.  Fails with `DimensionCountMismatch` when the tuple
    /// length is wrong, with `InvalidValue` when a value is not allowed.
    pub fn build_key(&self, values: &Vec<String>) -> (r: Result<String, EvoError>)
        requires
            store_wf(self@),
        ensures
            r is Ok <==> tuple_valid(self@.dims, values.deep_view()),
            r is Ok ==> r->Ok_0@ == key_of(values.deep_view()),
            values@.len() != self@.dims.len() <==> r == Err::<String, EvoError>(
                EvoError::DimensionCountMismatch,
            ),
            r is Err ==> (r->Err_0 == EvoError::DimensionCountMismatch
                || r->Err_0 == EvoError::InvalidValue),
    {
        match check_tuple(&self.dimensions, values) {
            Ok(()) => Ok(join_key(values)),
            Err(e) => Err(e),
        }
    }

    /// Learn one observation addressed by a pre-built key, bypassing
    /// dimension validation: fold `parameters` with weight `fitness` into
    /// the addressed record, creating it first when the key is new.  Fails
    /// with `ParameterCountMismatch` (and changes nothing) when the
    /// parameter vector has the wrong length; an unknown key is never an
    /// error.
    pub fn learn_key(
        &mut self,
        key: &String,
        parameters: &Vec<u64>,
        fitness: u64,
    ) -> (r: Result<(), EvoError>)
        requires
            store_wf(old(self)@),
            fitness <= F_MAX,
            params_ok(parameters@),
            total_of(old(self)@.records, key@) < OBS_MAX,
        ensures
            store_wf(final(self)@),
            r is Err <==> parameters@.len() != old(self)@.param_count,
            r is Err ==> r->Err_0 == EvoError::ParameterCountMismatch
                && final(self)@ == old(self)@,
            r is Ok ==> final(self)@ == (StoreModel {
                records: recs_learned(old(self)@.records, key@, parameters@, fitness),
                ..old(self)@
            }),
    {
        if parameters.len() != self.param_count {
            assert(final(self)@ =~~= old(self)@);
            return Err(EvoError::ParameterCountMismatch);
        }
        match self.find_idx(key) {
            Some(i) => {
                proof {
                    assert(rec_wf(self@.records[i as int], self@.param_count));
                }
                let rec: evocore_weighted_array_t = self.records.remove(i);
                let new_stats: Vec<ParamStats> = learned_stats(&rec.stats, parameters, fitness);
                let new_rec = evocore_weighted_array_t {
                    key: rec.key,
                    stats: new_stats,
                    total_observations: rec.total_observations + 1,
                };
                proof {
                    assert(new_rec@ =~~= rec_learned(old(self)@.records[i as int], parameters@, fitness));
                }
                self.records.insert(i, new_rec);
                proof {
                    assert(final(self)@.records =~~= recs_learned(
                        old(self)@.records,
                        key@,
                        parameters@,
                        fitness,
                    ));
                    lemma_learn_preserves_wf(old(self)@, key@, parameters@, fitness);
                }
                Ok(())
            },
            None => {
                let mut stats: Vec<ParamStats> = Vec::new();
                let n: usize = self.param_count;
                let mut k: usize = 0;
                while k < n
                    invariant
                        0 <= k <= n,
                        stats@.len() == k,
                        forall|j: int| 0 <= j < k ==> #[trigger] stats@[j] == stats_empty(),
                    decreases n - k,
                {
                    stats.push(ParamStats::empty());
                    k = k + 1;
                }
                let new_stats: Vec<ParamStats> = learned_stats(&stats, parameters, fitness);
                let new_rec = evocore_weighted_array_t {
                    key: key.clone(),
                    stats: new_stats,
                    total_observations: 1,
                };
                proof {
                    assert(stats@ =~~= fresh_rec(key@, old(self)@.param_count).stats);
                    assert(new_rec@ =~~= rec_learned(
                        fresh_rec(key@, old(self)@.param_count),
                        parameters@,
                        fitness,
                    ));
                }
                self.records.push(new_rec);
                proof {
                    assert(final(self)@.records =~~= recs_learned(
                        old(self)@.records,
                        key@,
                        parameters@,
                        fitness,
                    ));
                    lemma_learn_preserves_wf(old(self)@, key@, parameters@, fitness);
                }
                Ok(())
            },
        }
    }

    /// Learn one observation addressed by a value tuple: validate the
    /// tuple, derive its key, and fold the observation in as `learn_key`
    /// does.  Fails with `ParameterCountMismatch` on a wrong-length
    /// parameter vector, `DimensionCountMismatch` or `InvalidValue` on a
    /// bad tuple; nothing changes on any failure.
    pub fn learn(
        &mut self,
        dimension_values: &Vec<String>,
        parameters: &Vec<u64>,
        fitness: u64,
    ) -> (r: Result<(), EvoError>)
        requires
            store_wf(old(self)@),
            fitness <= F_MAX,
            params_ok(parameters@),
            total_of(old(self)@.records, key_of(dimension_values.deep_view())) < OBS_MAX,
        ensures
            store_wf(final(self)@),
            r is Err ==> final(self)@ == old(self)@,
            parameters@.len() != old(self)@.param_count ==> r == Err::<(), EvoError>(
                EvoError::ParameterCountMismatch,
            ),
            r is Ok <==> (parameters@.len() == old(self)@.param_count
                && tuple_valid(old(self)@.dims, dimension_values.deep_view())),
            r is Ok ==> final(self)@ == (StoreModel {
                records: recs_learned(
                    old(self)@.records,
                    key_of(dimension_values.deep_view()),
                    parameters@,
                    fitness,
                ),
                ..old(self)@
            }),
    {
        if parameters.len() != self.param_count {
            assert(final(self)@ =~~= old(self)@);
            return Err(EvoError::ParameterCountMismatch);
        }
        match check_tuple(&self.dimensions, dimension_values) {
            Ok(()) => {
                let key: String = join_key(dimension_values);
                match self.learn_key(&key, parameters, fitness) {
                    Ok(()) => Ok(()),
                    Err(e) => Err(e),
                }
            },
            Err(e) => {
                assert(final(self)@ =~~= old(self)@);
                Err(e)
            },
        }
    }

    /// How many distinct contexts hold at least one observation.
    pub fn context_count(&self) -> (r: usize)
        requires
            store_wf(self@),
        ensures
            r == active_count(self@.records),
    {
        let n: usize = self.records.len();
        let mut count: usize = 0;
        let mut i: usize = 0;
        proof {
            assert(self@.records.skip(0) =~~= self@.records);
        }
        while i < n
            invariant
                0 <= i <= n,
                count <= i,
                n == self.records@.len(),
                n == self@.records.len(),
                store_wf(self@),
                count + active_count(self@.records.skip(i as int)) == active_count(self@.records),
            decreases n - i,
        {
            proof {
                assert(self@.records.skip(i as int).drop_first() =~~= self@.records.skip(i + 1));
                assert(self@.records.skip(i as int)[0] == self@.records[i as int]);
            }
            if self.records[i].total_observations > 0 {
                count = count + 1;
            }
            i = i + 1;
        }
        proof {
            assert(self@.records.skip(n as int) =~~= Seq::<RecModel>::empty());
        }
        count
    }
}

/// The dimension models made of parallel name and value lists.
pub open spec fn paired_dims(names: Seq<Seq<char>>, values: Seq<Seq<Seq<char>>>) -> Seq<DimModel> {
    Seq::new(names.len(), |i: int| DimModel { name: names[i], values: values[i] })
}

/// One learning step on every parameter's statistics.
fn learned_stats(stats: &Vec<ParamStats>, params: &Vec<u64>, fitness: u64) -> (r: Vec<ParamStats>)
    requires
        stats@.len() == params@.len(),
        fitness <= F_MAX,
        params_ok(params@),
        forall|i: int|
            0 <= i < stats@.len() ==> stats_wf(#[trigger] stats@[i])
                && stats@[i].observation_count < OBS_MAX,
    ensures
        r@ =~= Seq::new(stats@.len() as nat, |i: int| stat_learned(stats@[i], params@[i], fitness)),
        forall|i: int| 0 <= i < r@.len() ==> stats_wf(#[trigger] r@[i]),
{
    let n: usize = stats.len();
    let mut out: Vec<ParamStats> = Vec::new();
    let mut i: usize = 0;
    while i < n
        invariant
            0 <= i <= n,
            n == stats@.len(),
            n == params@.len(),
            fitness <= F_MAX,
            params_ok(params@),
            forall|j: int|
                0 <= j < n ==> stats_wf(#[trigger] stats@[j])
                    && stats@[j].observation_count < OBS_MAX,
            out@.len() == i,
            forall|j: int|
                0 <= j < i ==> #[trigger] out@[j] == stat_learned(stats@[j], params@[j], fitness)
                    && stats_wf(out@[j]),
        decreases n - i,
    {
        assert(params@[i as int] <= P_MAX);
        let s: ParamStats = stats[i].learned(params[i], fitness);
        out.push(s);
        i = i + 1;
    }
    out
}

/// Learning keeps the store invariant.
pub proof fn lemma_learn_preserves_wf(m: StoreModel, key: Seq<char>, params: Seq<u64>, fitness: u64)
    requires
        store_wf(m),
        params.len() == m.param_count,
        fitness <= F_MAX,
        params_ok(params),
        total_of(m.records, key) < OBS_MAX,
    ensures
        store_wf(StoreModel { records: recs_learned(m.records, key, params, fitness), ..m }),
{
    let recs = m.records;
    let out = recs_learned(recs, key, params, fitness);
    if has_rec(recs, key) {
        let i = idx_of(recs, key);
        assert(0 <= i < recs.len() && recs[i].key == key);
        assert(rec_wf(recs[i], m.param_count));
        let nr = rec_learned(recs[i], params, fitness);
        assert forall|k: int| 0 <= k < nr.stats.len() implies stats_wf(#[trigger] nr.stats[k])
            && nr.stats[k].observation_count == nr.total_observations by {
            crate::stats::lemma_stat_learned_wf(recs[i].stats[k], params[k], fitness);
        }
        assert(rec_wf(nr, m.param_count));
        assert forall|a: int, b: int| 0 <= a < b < out.len() implies out[a].key != out[b].key by {
            assert(out[a].key == recs[a].key);
            assert(out[b].key == recs[b].key);
        }
    } else {
        let nr = rec_learned(fresh_rec(key, m.param_count), params, fitness);
        assert forall|k: int| 0 <= k < nr.stats.len() implies stats_wf(#[trigger] nr.stats[k])
            && nr.stats[k].observation_count == nr.total_observations by {
            crate::stats::lemma_stat_learned_wf(stats_empty(), params[k], fitness);
        }
        assert(rec_wf(nr, m.param_count));
        assert forall|a: int, b: int| 0 <= a < b < out.len() implies out[a].key != out[b].key by {
            if b == out.len() - 1 {
                assert(out[b].key == key);
                assert(out[a].key == recs[a].key);
                if recs[a].key == key {
                    assert(has_rec(recs, key));
                }
            } else {
                assert(out[a].key == recs[a].key);
                assert(out[b].key == recs[b].key);
            }
        }
    }
}

} // verus!
