//! A small deterministic pseudo-random generator, threaded through
//! sampling as an explicit seed so that every draw is reproducible.

use vstd::prelude::*;

verus! {

/// One step of the 64-bit linear congruential generator.
pub open spec fn lcg_next(s: u64) -> u64 {
    ((s * 6364136223846793005 + 1442695040888963407) % 0x1_0000_0000_0000_0000) as u64
}

/// The output word of a state: its upper bits, which are the strongest.
pub open spec fn lcg_out(s: u64) -> u64 {
    lcg_next(s) >> 33
}

/// The value drawn from state `s` when a draw in `0 ..= bound` is asked.
pub open spec fn uniform_spec(s: u64, bound: u64) -> u64
    recommends
        bound < u64::MAX,
{
    (lcg_out(s) % ((bound + 1) as u64)) as u64
}

/// Advance the seed one step and draw a value in `0 ..= bound`.
pub fn uniform(seed: &mut u64, bound: u64) -> (r: u64)
    requires
        bound < u64::MAX,
    ensures
        *final(seed) == lcg_next(*old(seed)),
        r == uniform_spec(*old(seed), bound),
        r <= bound,
{
    let s: u64 = *seed;
    proof {
        assert((s as nat) * 6364136223846793005 <= (u64::MAX as nat) * 6364136223846793005)
            by (nonlinear_arith)
            requires s <= u64::MAX;
    }
    let wide: u128 = (s as u128) * 6364136223846793005u128 + 1442695040888963407u128;
    let next: u64 = (wide % 0x1_0000_0000_0000_0000u128) as u64;
    *seed = next;
    let out: u64 = next >> 33;
    out % (bound + 1)
}

} // verus!
