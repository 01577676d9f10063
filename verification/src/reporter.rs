//! The stats reporter: read-only snapshots of a context's observation
//! counts.

use vstd::prelude::*;
use crate::EvoError;
use crate::key::{key_of, tuple_valid, join_key, check_tuple};
use crate::stats::evocore_context_stats_t;
use crate::store::{EvoCoreContextSystem, has_rec, idx_of, store_wf, rec_wf, RecModel};

verus! {

/// What a snapshot of the record list under `key` must hold: the
/// per-parameter observation counts and the total, all zero for a key
/// never learned.
pub open spec fn snapshot_ok(
    recs: Seq<RecModel>,
    pc: int,
    key: Seq<char>,
    st: evocore_context_stats_t,
) -> bool {
    &&& st.observation_counts@.len() == pc
    &&& if has_rec(recs, key) {
        let rec = recs[idx_of(recs, key)];
        &&& st.total_observations == rec.total_observations
        &&& forall|i: int|
            0 <= i < pc ==> #[trigger] st.observation_counts@[i]
                == rec.stats[i].observation_count
    } else {
        &&& st.total_observations == 0
        &&& forall|i: int| 0 <= i < pc ==> #[trigger] st.observation_counts@[i] == 0
    }
}

impl EvoCoreContextSystem {
    /// A read-only snapshot of the observation counts under a pre-built
    /// key.  A key never learned yields an all-zero snapshot rather than
    /// an error, so thresholds can be checked uniformly.
    pub fn get_stats_key(&self, key: &String) -> (r: evocore_context_stats_t)
        requires
            store_wf(self@),
        ensures
            snapshot_ok(self@.records, self@.param_count, key@, r),
    {
        match self.find_idx(key) {
            Some(i) => {
                proof {
                    assert(rec_wf(self@.records[i as int], self@.param_count));
                }
                let rec = &self.records[i];
                let n: usize = rec.stats.len();
                let mut counts: Vec<u64> = Vec::new();
                let mut k: usize = 0;
                while k < n
                    invariant
                        0 <= k <= n,
                        n == rec.stats@.len(),
                        counts@.len() == k,
                        forall|j: int|
                            0 <= j < k ==> #[trigger] counts@[j]
                                == rec.stats@[j].observation_count,
                    decreases n - k,
                {
                    counts.push(rec.stats[k].observation_count);
                    k = k + 1;
                }
                evocore_context_stats_t {
                    observation_counts: counts,
                    total_observations: rec.total_observations,
                }
            },
            None => {
                let n: usize = self.param_count;
                let mut counts: Vec<u64> = Vec::new();
                let mut k: usize = 0;
                while k < n
                    invariant
                        0 <= k <= n,
                        counts@.len() == k,
                        forall|j: int| 0 <= j < k ==> #[trigger] counts@[j] == 0,
                    decreases n - k,
                {
                    counts.push(0);
                    k = k + 1;
                }
                evocore_context_stats_t { observation_counts: counts, total_observations: 0 }
            },
        }
    }

    /// A read-only snapshot of the observation counts under a value
    /// tuple.  Fails with `DimensionCountMismatch` or `InvalidValue` on a
    /// bad tuple; a valid but never-learned tuple yields an all-zero
    /// snapshot.
    pub fn get_stats(&self, dimension_values: &Vec<String>) -> (r: Result<
        evocore_context_stats_t,
        EvoError,
    >)
        requires
            store_wf(self@),
        ensures
            r is Ok <==> tuple_valid(self@.dims, dimension_values.deep_view()),
            r is Err ==> (r->Err_0 == EvoError::DimensionCountMismatch
                || r->Err_0 == EvoError::InvalidValue),
            dimension_values@.len() != self@.dims.len() <==> r == Err::<
                evocore_context_stats_t,
                EvoError,
            >(EvoError::DimensionCountMismatch),
            r is Ok ==> snapshot_ok(
                self@.records,
                self@.param_count,
                key_of(dimension_values.deep_view()),
                r->Ok_0,
            ),
    {
        match check_tuple(&self.dimensions, dimension_values) {
            Ok(()) => {
                let key: String = join_key(dimension_values);
                Ok(self.get_stats_key(&key))
            },
            Err(e) => Err(e),
        }
    }
}

} // verus!
