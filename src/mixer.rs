//! The integer mixer used for record fingerprints and proof of work.
use vstd::prelude::*;

verus! {

/// The largest prime below 2^32.
pub const MIXER_MOD: u64 = 4294967291;

/// `H(x) = ((x mod M)^2 mod M) + 1` with `M = MIXER_MOD`.
pub open spec fn mix(x: u64) -> u64 {
    let m = x as int % MIXER_MOD as int;
    ((m * m) % MIXER_MOD as int + 1) as u64
}

/// A mixed value is never zero and never exceeds `MIXER_MOD`, so zero stays
/// free to mean "empty" and every hash fits in 32 bits.
pub proof fn lemma_mix_range(x: u64)
    ensures
        1 <= mix(x) <= MIXER_MOD,
{
}

/// Mixes one word.
pub fn hash(key: u64) -> (r: u64)
    ensures
        r == mix(key),
        1 <= r <= MIXER_MOD,
{
    let mkey = key % MIXER_MOD;
    assert(mkey * mkey < MIXER_MOD * MIXER_MOD) by (nonlinear_arith)
        requires
            mkey < MIXER_MOD,
    ;
    (mkey * mkey) % MIXER_MOD + 1
}

} // verus!
