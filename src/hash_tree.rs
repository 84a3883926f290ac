//! The proof-indexed hash trie: one record per key, a reverse index from
//! content hash to key, and an XOR digest for every prefix of the hashes.
use vstd::prelude::*;

use std::collections::BTreeMap;

use crate::clock::now_secs;
use crate::digest::{
    covers, digest, lemma_digest_aggregation, lemma_digest_insert, lemma_digest_outside,
    lemma_digest_remove, lemma_shift_not_covered, share, sound_records, PREFIX_BITS,
};
use crate::value_proof::{lemma_binding_hash_range, ValueProof};

verus! {

/// Every entry `h -> k` of the reverse index names a stored record whose
/// hash is `h`.
pub open spec fn sound_owners(m: Map<u64, ValueProof>, o: Map<u64, u64>) -> bool {
    forall|h: u64| #[trigger] o.contains_key(h) ==> m.contains_key(o[h]) && m[o[h]].h == h
}

/// A stored digest, an absent entry reading as zero.
pub open spec fn table_of(t: Map<u64, u64>, p: u64) -> u64 {
    if t.contains_key(p) {
        t[p]
    } else {
        0
    }
}

/// What `insert` did with a record.
#[derive(Clone, Copy, Debug, PartialEq, Eq, Structural)]
pub enum Admission {
    /// Its hash does not bind its fields; dropped.
    Malformed,
    /// Its timestamp is not before `now + SLACK`; dropped.
    FutureDated,
    /// Its key was absent; stored.
    Installed,
    /// The stored record for its key has the same value; dropped.
    SameValue,
    /// It is not worth more than the stored record for its key; dropped.
    Outranked,
    /// It is worth more than the stored record for its key, which it replaced.
    Replaced,
}

impl Admission {
    /// The record was stored.
    pub open spec fn stores(self) -> bool {
        self is Installed || self is Replaced
    }
}

/// The admission rule: what becomes of `vp` offered at time `now` to an index
/// holding `m`, where `outranks` tells whether `vp` is worth more than the
/// record stored for its key.
pub open spec fn admission(
    m: Map<u64, ValueProof>,
    vp: ValueProof,
    now: u64,
    outranks: bool,
) -> Admission {
    if !vp.is_bound() {
        Admission::Malformed
    } else if !vp.is_past_dated(now) {
        Admission::FutureDated
    } else if !m.contains_key(vp.k) {
        Admission::Installed
    } else if m[vp.k].v == vp.v {
        Admission::SameValue
    } else if !outranks {
        Admission::Outranked
    } else {
        Admission::Replaced
    }
}

/// The reverse index after `insert` reported `r` for `vp`.
pub open spec fn owners_after(
    m: Map<u64, ValueProof>,
    o: Map<u64, u64>,
    vp: ValueProof,
    r: Admission,
) -> Map<u64, u64> {
    match r {
        Admission::Installed => o.insert(vp.h, vp.k),
        Admission::Replaced => o.remove(m[vp.k].h).insert(vp.h, vp.k),
        _ => o,
    }
}

/// The per-node index.
pub struct HashTree {
    prefix_hash: BTreeMap<u64, u64>,
    hash_key: BTreeMap<u64, u64>,
    key_proof: BTreeMap<u64, ValueProof>,
}

impl View for HashTree {
    type V = Map<u64, ValueProof>;

    /// The stored records by key.
    closed spec fn view(&self) -> Map<u64, ValueProof> {
        self.key_proof@
    }
}

impl HashTree {
    /// The reverse index from content hash to key.
    pub closed spec fn owners(&self) -> Map<u64, u64> {
        self.hash_key@
    }

    closed spec fn table(&self, p: u64) -> u64 {
        table_of(self.prefix_hash@, p)
    }

    /// The index is well formed: its records are sound, its reverse index
    /// points at them, and each stored prefix digest is the digest of the
    /// records.
    pub closed spec fn wf(&self) -> bool {
        &&& sound_records(self.key_proof@)
        &&& sound_owners(self.key_proof@, self.hash_key@)
        &&& forall|p: u64| #[trigger] self.table(p) == digest(self.key_proof@, p)
    }

    /// What a well-formed index promises of its records.
    pub proof fn lemma_wf_sound(&self)
        requires
            self.wf(),
        ensures
            self@.dom().finite(),
            sound_records(self@),
            sound_owners(self@, self.owners()),
    {
    }

    /// In a well-formed index, the digest of every prefix `p` that is not
    /// itself the hash of a stored record is the XOR of the digests of its
    /// children `2p` and `2p + 1`.
    pub proof fn lemma_prefix_aggregation(&self, p: u64)
        requires
            self.wf(),
            1 <= p < 0x8000_0000_0000_0000,
            forall|k: u64| #[trigger] self@.contains_key(k) ==> self@[k].h != p,
        ensures
            digest(self@, p) == digest(self@, (2 * p) as u64) ^ digest(self@, (2 * p + 1) as u64),
    {
        assert forall|k: u64| #[trigger] self@.contains_key(k) implies self@[k].h != p && self@[k].h
            < 0x1_0000_0000 by {
            let r = self@[k];
            lemma_binding_hash_range(r.k, r.v, r.ts, r.seed);
        }
        lemma_digest_aggregation(self@, p);
    }

    /// In a well-formed index, the digest of prefix zero and of every prefix
    /// of 2^32 and beyond is zero: all hashes fit in 32 bits.
    pub proof fn lemma_digest_outside_trie(&self, p: u64)
        requires
            self.wf(),
            p == 0 || p >= 0x1_0000_0000,
        ensures
            digest(self@, p) == 0,
    {
        assert forall|k: u64| #[trigger] self@.contains_key(k) implies self@[k].h < 0x1_0000_0000 by {
            let r = self@[k];
            lemma_binding_hash_range(r.k, r.v, r.ts, r.seed);
        }
        lemma_digest_outside(self@, p);
    }

    /// An empty index.
    pub fn new() -> (r: Self)
        ensures
            r.wf(),
            r@ == Map::<u64, ValueProof>::empty(),
            r.owners() == Map::<u64, u64>::empty(),
    {
        let s = HashTree {
            prefix_hash: BTreeMap::new(),
            hash_key: BTreeMap::new(),
            key_proof: BTreeMap::new(),
        };
        assert forall|p: u64| #[trigger] s.table(p) == digest(s.key_proof@, p) by {
            assert(!s.prefix_hash@.contains_key(p));
        }
        s
    }

    /// The record stored for `key`, if any.
    pub fn lookup(&self, key: u64) -> (r: Option<&ValueProof>)
        ensures
            match r {
                Some(vp) => self@.contains_key(key) && *vp == self@[key],
                None => !self@.contains_key(key),
            },
    {
        self.key_proof.get(&key)
    }

    fn table_get(&self, p: u64) -> (r: u64)
        ensures
            r == self.table(p),
    {
        match self.prefix_hash.get(&p) {
            Some(x) => *x,
            None => 0,
        }
    }

    /// The digest of prefix `pre`: the XOR of the hashes of the records under
    /// it, zero when there are none.
    pub fn prehash(&self, pre: u64) -> (r: u64)
        requires
            self.wf(),
        ensures
            r == digest(self@, pre),
    {
        self.table_get(pre)
    }

    /// The key whose record the reverse index gives for hash `h`, or zero.
    pub fn hashkey(&self, h: u64) -> (r: u64)
        ensures
            r == (if self.owners().contains_key(h) {
                self.owners()[h]
            } else {
                0
            }),
    {
        match self.hash_key.get(&h) {
            Some(k) => *k,
            None => 0,
        }
    }

    /// The record stored for a key that is present.
    pub fn keyproof(&self, key: u64) -> (r: &ValueProof)
        requires
            self@.contains_key(key),
        ensures
            *r == self@[key],
    {
        self.key_proof.get(&key).unwrap()
    }

    /// XORs `h` into the digest of each of its prefixes.
    fn toggle(&mut self, h: u64)
        ensures
            final(self).key_proof@ == old(self).key_proof@,
            final(self).hash_key@ == old(self).hash_key@,
            forall|p: u64| #[trigger]
                table_of(final(self).prefix_hash@, p) == table_of(old(self).prefix_hash@, p) ^ share(h, p),
    {
        let ghost t0 = self.prefix_hash@;
        assert forall|p: u64| #[trigger] table_of(t0, p) == table_of(t0, p) ^ (if covers(h, p, 0) {
            h
        } else {
            0
        }) by {
            let x = table_of(t0, p);
            assert(x == x ^ 0u64) by (bit_vector);
        }
        let mut b: u64 = 0;
        while b < PREFIX_BITS
            invariant
                b <= PREFIX_BITS,
                self.key_proof@ == old(self).key_proof@,
                self.hash_key@ == old(self).hash_key@,
                t0 == old(self).prefix_hash@,
                forall|p: u64| #[trigger]
                    table_of(self.prefix_hash@, p) == table_of(t0, p) ^ (if covers(h, p, b as nat) {
                        h
                    } else {
                        0
                    }),
            decreases PREFIX_BITS - b,
        {
            let ghost t1 = self.prefix_hash@;
            let hpre = h >> b;
            if hpre > 0 {
                let c = self.table_get(hpre) ^ h;
                self.prefix_hash.insert(hpre, c);
            }
            assert forall|p: u64| #[trigger]
                table_of(self.prefix_hash@, p) == table_of(t0, p) ^ (if covers(h, p, (b + 1) as nat) {
                    h
                } else {
                    0
                }) by {
                assert(((b + 1) as nat - 1) as u64 == b);
                assert(covers(h, p, (b + 1) as nat) == (covers(h, p, b as nat) || (p > 0 && h >> b
                    == p)));
                let x = table_of(t0, p);
                if hpre > 0 && p == hpre {
                    lemma_shift_not_covered(h, b, b as nat);
                    assert(table_of(t1, p) == x ^ 0u64);
                    assert((x ^ 0u64) ^ h == x ^ h) by (bit_vector);
                } else {
                    assert(table_of(self.prefix_hash@, p) == table_of(t1, p));
                }
            }
            b = b + 1;
        }
    }

    /// Stores `vp` under a key that is absent.
    fn install(&mut self, vp: &ValueProof)
        requires
            old(self).wf(),
            !old(self)@.contains_key(vp.k),
            vp.is_bound(),
        ensures
            final(self).wf(),
            final(self)@ == old(self)@.insert(vp.k, *vp),
            final(self).owners() == old(self).owners().insert(vp.h, vp.k),
    {
        let ghost m0 = self.key_proof@;
        let ghost t0 = self.prefix_hash@;
        assert forall|p: u64| #[trigger] table_of(t0, p) == digest(m0, p) by {
            assert(old(self).table(p) == digest(m0, p));
        }
        self.hash_key.insert(vp.h, vp.k);
        self.key_proof.insert(vp.k, *vp);
        self.toggle(vp.h);
        assert forall|p: u64| #[trigger] self.table(p) == digest(self.key_proof@, p) by {
            assert(table_of(t0, p) == digest(m0, p));
            lemma_digest_insert(m0, *vp, p);
        }
    }

    /// Removes the record stored for a key that is present, XORing its hash
    /// out of the digests and dropping its hash from the reverse index.
    pub fn remove(&mut self, key: u64)
        requires
            old(self).wf(),
            old(self)@.contains_key(key),
        ensures
            final(self).wf(),
            final(self)@ == old(self)@.remove(key),
            final(self).owners() == old(self).owners().remove(old(self)@[key].h),
    {
        let ghost m0 = self.key_proof@;
        let ghost t0 = self.prefix_hash@;
        assert forall|p: u64| #[trigger] table_of(t0, p) == digest(m0, p) by {
            assert(old(self).table(p) == digest(m0, p));
        }
        let h = self.keyproof(key).h;
        self.hash_key.remove(&h);
        self.key_proof.remove(&key);
        self.toggle(h);
        assert forall|p: u64| #[trigger] self.table(p) == digest(self.key_proof@, p) by {
            assert(table_of(t0, p) == digest(m0, p));
            lemma_digest_remove(m0, key, p);
        }
    }

    /// Offers `vp` to the index at time `now`. `outranks` tells whether `vp`
    /// is worth more than the record stored for `vp.k`; it is read only when
    /// such a record exists and holds another value. Worth is compared in
    /// floating point, so the caller judges it.
    pub fn insert_at(&mut self, vp: &ValueProof, now: u64, outranks: bool) -> (r: Admission)
        requires
            old(self).wf(),
        ensures
            final(self).wf(),
            r == admission(old(self)@, *vp, now, outranks),
            final(self)@ == (if r.stores() {
                old(self)@.insert(vp.k, *vp)
            } else {
                old(self)@
            }),
            final(self).owners() == owners_after(old(self)@, old(self).owners(), *vp, r),
    {
        if !vp.hash_is_valid() {
            return Admission::Malformed;
        }
        if !vp.is_past_time_at(now) {
            return Admission::FutureDated;
        }
        let key = vp.k;
        let replacing = match self.key_proof.get(&key) {
            Some(incumbent) => {
                if vp.v == incumbent.v {
                    return Admission::SameValue;
                }
                if !outranks {
                    return Admission::Outranked;
                }
                true
            },
            None => false,
        };
        if replacing {
            self.remove(key);
            self.install(vp);
            Admission::Replaced
        } else {
            self.install(vp);
            Admission::Installed
        }
    }

    /// Offers `vp` to the index at the system clock's time; see `insert_at`.
    pub fn insert(&mut self, vp: &ValueProof, outranks: bool) -> (r: Admission)
        requires
            old(self).wf(),
        ensures
            final(self).wf(),
            exists|now: u64| r == #[trigger] admission(old(self)@, *vp, now, outranks),
            final(self)@ == (if r.stores() {
                old(self)@.insert(vp.k, *vp)
            } else {
                old(self)@
            }),
            final(self).owners() == owners_after(old(self)@, old(self).owners(), *vp, r),
    {
        let now = now_secs();
        self.insert_at(vp, now, outranks)
    }
}

/// Inserting a record under a fresh key and then removing that key restores
/// the digest of every prefix.
pub proof fn lemma_insert_then_remove(m: Map<u64, ValueProof>, vp: ValueProof, p: u64)
    requires
        m.dom().finite(),
        !m.contains_key(vp.k),
    ensures
        digest(m.insert(vp.k, vp).remove(vp.k), p) == digest(m, p),
{
    let mid = m.insert(vp.k, vp);
    lemma_digest_insert(m, vp, p);
    lemma_digest_remove(mid, vp.k, p);
    let (x, s) = (digest(m, p), share(vp.h, p));
    assert((x ^ s) ^ s == x) by (bit_vector);
}

/// A stored record is replaced only by an admissible record with another
/// value that the caller judged worth more; otherwise it stays.
pub proof fn lemma_replacement_needs_worth(
    m: Map<u64, ValueProof>,
    vp: ValueProof,
    now: u64,
    outranks: bool,
)
    requires
        m.contains_key(vp.k),
    ensures
        admission(m, vp, now, outranks).stores() ==> {
            &&& admission(m, vp, now, outranks) == Admission::Replaced
            &&& outranks
            &&& m[vp.k].v != vp.v
            &&& vp.is_admissible(now)
        },
{
}

} // verus!
