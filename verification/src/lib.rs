//! Contextual parameter-learning store.
//!
//! The crate maintains, per discrete context (a tuple of dimension values such
//! as task type x domain), running statistics over a fixed-size parameter
//! vector, learned from fitness-scored trials.  It can later sample parameter
//! vectors for a context with an exploration/exploitation blend, and persist
//! the whole store in a binary and in a textual encoding.
//!
//! All scores and parameters are fixed-point values: a real value `x` is
//! represented by the integer `x * SCALE`.  Parameters and fitness scores are
//! non-negative and bounded by [`P_MAX`] and [`F_MAX`]; these bounds keep all
//! internal arithmetic exact and overflow-free.
//!
//! The store is a single owned value: it may be moved between exclusive
//! owners, but concurrent shared mutation requires external synchronization.

use vstd::prelude::*;

pub mod codec_bin;
pub mod codec_text;
pub mod dims;
pub mod items;
pub mod items_exec;
pub mod key;
pub mod laws;
pub mod persist;
pub mod reporter;
pub mod rng;
pub mod sampling;
pub mod store;
pub mod stats;
pub mod trusted;

verus! {

/// Fixed-point scale: one unit of real value is `SCALE` fixed-point steps.
pub const SCALE: u64 = 1_000_000;

/// Largest admissible fixed-point parameter value (1000.0 in real units).
pub const P_MAX: u64 = 1_000_000_000;

/// Largest admissible fixed-point fitness value (1000.0 in real units).
pub const F_MAX: u64 = 1_000_000_000;

/// Largest number of observations a single context record can accumulate.
pub const OBS_MAX: u64 = 1_000_000_000;

/// Everything that can go wrong in a store operation.
#[derive(Clone, Copy, Debug, PartialEq, Eq, Structural)]
pub enum EvoError {
    /// Bad dimension or parameter-count setup at construction.
    InvalidConfiguration,
    /// A value tuple whose length differs from the number of dimensions.
    DimensionCountMismatch,
    /// A value that is not in the addressed dimension's allowed set.
    InvalidValue,
    /// A parameter vector whose length differs from the store's count.
    ParameterCountMismatch,
    /// Sampling a context for which nothing was ever observed.
    UnknownContext,
    /// Malformed or version-mismatched binary content.
    CorruptData,
    /// Structurally invalid textual content.
    SchemaError,
}

} // verus!
