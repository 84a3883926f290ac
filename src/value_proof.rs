//! Value proofs: records that bind a key, a value, a timestamp and a nonce
//! to a content hash.
use vstd::prelude::*;

use crate::clock::now_secs;
use crate::mixer::{hash, lemma_mix_range, mix, MIXER_MOD};

verus! {

/// Forward tolerance, in seconds, on a record's timestamp.
pub const SLACK: u64 = 2;

/// The content hash that binds the four other fields of a record.
pub open spec fn binding_hash(k: u64, v: u64, ts: u64, seed: u64) -> u64 {
    mix(k ^ mix(v ^ mix(ts ^ mix(seed))))
}

/// A binding hash lies in `[1, MIXER_MOD]`.
pub proof fn lemma_binding_hash_range(k: u64, v: u64, ts: u64, seed: u64)
    ensures
        1 <= binding_hash(k, v, ts, seed) <= MIXER_MOD,
{
    lemma_mix_range(k ^ mix(v ^ mix(ts ^ mix(seed))));
}

/// Sealing a record binds it: once `h` is set to the binding hash of the
/// other fields, the record is bound.
pub proof fn lemma_sealed_is_bound(k: u64, v: u64, ts: u64, seed: u64)
    ensures
        (ValueProof { k, v, ts, seed, h: binding_hash(k, v, ts, seed) }).is_bound(),
{
}

/// `a` and `b` differ in exactly one field.
pub open spec fn differ_in_one_field(a: ValueProof, b: ValueProof) -> bool {
    let d = (a.k != b.k) as int + (a.v != b.v) as int + (a.ts != b.ts) as int + (a.seed
        != b.seed) as int + (a.h != b.h) as int;
    d == 1
}

/// Changing one field of a bound record unbinds it, except where the mixer
/// maps the changed fields to the same hash as the original ones.
pub proof fn lemma_tamper_unbinds(vp: ValueProof, t: ValueProof)
    requires
        vp.is_bound(),
        differ_in_one_field(vp, t),
        t.h != vp.h || binding_hash(t.k, t.v, t.ts, t.seed) != binding_hash(
            vp.k,
            vp.v,
            vp.ts,
            vp.seed,
        ),
    ensures
        !t.is_bound(),
{
}

/// A record `(k, v, ts, seed, h)`; `h` is its content hash.
#[derive(Clone, Copy, Debug)]
pub struct ValueProof {
    pub k: u64,
    pub v: u64,
    pub ts: u64,
    pub seed: u64,
    pub h: u64,
}

impl ValueProof {
    /// `h` is the binding hash of the other four fields.
    pub open spec fn is_bound(self) -> bool {
        self.h == binding_hash(self.k, self.v, self.ts, self.seed)
    }

    /// The timestamp is earlier than `now + SLACK`.
    pub open spec fn is_past_dated(self, now: u64) -> bool {
        self.ts < now + SLACK
    }

    /// What an index accepts at time `now`: past-dated and bound.
    pub open spec fn is_admissible(self, now: u64) -> bool {
        self.is_past_dated(now) && self.is_bound()
    }

    /// The age in seconds at time `now`, `(now + SLACK) - ts`.
    pub open spec fn age_spec(self, now: u64) -> int {
        now + SLACK - self.ts
    }

    /// The age at time `now`, clamped to the range of `i64`.
    pub open spec fn age_clamped(self, now: u64) -> int {
        if self.age_spec(now) > i64::MAX {
            i64::MAX as int
        } else if self.age_spec(now) < i64::MIN {
            i64::MIN as int
        } else {
            self.age_spec(now)
        }
    }

    /// The all-zero record.
    pub fn new() -> (r: Self)
        ensures
            r == (ValueProof { k: 0, v: 0, ts: 0, seed: 0, h: 0 }),
    {
        ValueProof { k: 0, v: 0, ts: 0, seed: 0, h: 0 }
    }

    /// The record `(k, v, ts, seed)` with its binding hash, as rebuilt from a
    /// KEY message.
    pub fn sealed(k: u64, v: u64, ts: u64, seed: u64) -> (r: Self)
        ensures
            r == (ValueProof { k, v, ts, seed, h: binding_hash(k, v, ts, seed) }),
    {
        let mut vp = ValueProof { k, v, ts, seed, h: 0 };
        vp.compute_hash();
        vp
    }

    /// Whether the record is past-dated at time `now`.
    pub fn is_past_time_at(&self, now: u64) -> (r: bool)
        ensures
            r == self.is_past_dated(now),
    {
        (self.ts as u128) < (now as u128) + (SLACK as u128)
    }

    /// Whether the record is past-dated by the system clock.
    pub fn is_past_time(&self) -> (r: bool)
        ensures
            exists|now: u64| r == #[trigger] self.is_past_dated(now),
    {
        let now = now_secs();
        self.is_past_time_at(now)
    }

    /// The age at time `now`, clamped to the range of `i64`.
    pub fn age_at(&self, now: u64) -> (r: i64)
        ensures
            r == self.age_clamped(now),
    {
        let a: i128 = (now as i128) + (SLACK as i128) - (self.ts as i128);
        if a > i64::MAX as i128 {
            i64::MAX
        } else if a < i64::MIN as i128 {
            i64::MIN
        } else {
            a as i64
        }
    }

    /// The age by the system clock.
    pub fn age(&self) -> (r: i64)
        ensures
            exists|now: u64| r == #[trigger] self.age_clamped(now),
    {
        let now = now_secs();
        self.age_at(now)
    }

    /// Sets `h` to the binding hash of the other fields.
    pub fn compute_hash(&mut self)
        ensures
            final(self).k == old(self).k,
            final(self).v == old(self).v,
            final(self).ts == old(self).ts,
            final(self).seed == old(self).seed,
            final(self).h == binding_hash(old(self).k, old(self).v, old(self).ts, old(self).seed),
    {
        self.h = hash(self.k ^ hash(self.v ^ hash(self.ts ^ hash(self.seed))));
    }

    /// Whether `h` is the binding hash of the other fields.
    pub fn hash_is_valid(&self) -> (r: bool)
        ensures
            r == self.is_bound(),
    {
        let newh = hash(self.k ^ hash(self.v ^ hash(self.ts ^ hash(self.seed))));
        self.h == newh
    }

    /// Whether the record is admissible at time `now`.
    pub fn is_valid_at(&self, now: u64) -> (r: bool)
        ensures
            r == self.is_admissible(now),
    {
        self.is_past_time_at(now) && self.hash_is_valid()
    }

    /// Whether the record is admissible by the system clock.
    pub fn is_valid(&self) -> (r: bool)
        ensures
            r ==> self.is_bound(),
            exists|now: u64| r == #[trigger] self.is_admissible(now),
    {
        let now = now_secs();
        self.is_valid_at(now)
    }
}

} // verus!
