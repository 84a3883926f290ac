//! The prefix digests of a set of records, as mathematics.
//!
//! A prefix `p >= 1` names a node of an implicit binary trie: its children are
//! `2p` and `2p + 1` and the root is `1`. A record with content hash `h` lies
//! under the prefixes `h >> b` for `b` in `0..32` that are non-zero, and the
//! digest of a prefix is the XOR of the hashes of all records under it.
use vstd::prelude::*;

use crate::value_proof::ValueProof;

verus! {

/// Number of shifts of a hash that count as its prefixes.
pub const PREFIX_BITS: u64 = 32;

/// Whether `p` is one of `h >> 0, ..., h >> (n - 1)` and non-zero.
pub open spec fn covers(h: u64, p: u64, n: nat) -> bool
    decreases n,
{
    if n == 0 {
        false
    } else {
        covers(h, p, (n - 1) as nat) || (p > 0 && h >> ((n - 1) as u64) == p)
    }
}

/// What a record with hash `h` adds to the digest of prefix `p`.
pub open spec fn share(h: u64, p: u64) -> u64 {
    if covers(h, p, PREFIX_BITS as nat) {
        h
    } else {
        0
    }
}

/// The digest of prefix `p` over the records of `m`.
pub open spec fn digest(m: Map<u64, ValueProof>, p: u64) -> u64
    decreases m.len(),
{
    if m.dom().finite() && m.len() > 0 {
        let k = m.dom().choose();
        share(m[k].h, p) ^ digest(m.remove(k), p)
    } else {
        0
    }
}

/// The digest of the child `2p + side` of `p`, zero where that child lies
/// beyond 64 bits (no record lies there).
pub open spec fn child_digest(m: Map<u64, ValueProof>, p: u64, side: u64) -> u64 {
    if 2 * p + side <= u64::MAX {
        digest(m, (2 * p + side) as u64)
    } else {
        0
    }
}

/// Each record is stored under its own key and carries its binding hash.
pub open spec fn sound_records(m: Map<u64, ValueProof>) -> bool {
    forall|k: u64| #[trigger] m.contains_key(k) ==> m[k].k == k && m[k].is_bound()
}

proof fn lemma_xor_swap(a: u64, b: u64, c: u64)
    ensures
        a ^ (b ^ c) == b ^ (a ^ c),
{
    assert(a ^ (b ^ c) == b ^ (a ^ c)) by (bit_vector);
}

/// The digest can be split at any record: it is that record's share XOR
/// the digest of the others.
pub proof fn lemma_digest_split(m: Map<u64, ValueProof>, k: u64, p: u64)
    requires
        m.dom().finite(),
        m.contains_key(k),
    ensures
        digest(m, p) == share(m[k].h, p) ^ digest(m.remove(k), p),
    decreases m.len(),
{
    let c = m.dom().choose();
    assert(m.dom().contains(c));
    if c != k {
        let mc = m.remove(c);
        let mk = m.remove(k);
        lemma_digest_split(mc, k, p);
        lemma_digest_split(mk, c, p);
        assert(mc.remove(k) =~= mk.remove(c));
        lemma_xor_swap(share(m[c].h, p), share(m[k].h, p), digest(mc.remove(k), p));
    }
}

/// Installing a record under a fresh key XORs its hash into the digest of
/// each of its prefixes and leaves every other digest alone.
pub proof fn lemma_digest_insert(m: Map<u64, ValueProof>, vp: ValueProof, p: u64)
    requires
        m.dom().finite(),
        !m.contains_key(vp.k),
    ensures
        digest(m.insert(vp.k, vp), p) == digest(m, p) ^ share(vp.h, p),
{
    let mi = m.insert(vp.k, vp);
    lemma_digest_split(mi, vp.k, p);
    assert(mi.remove(vp.k) =~= m);
    let (a, b) = (share(vp.h, p), digest(m, p));
    assert(a ^ b == b ^ a) by (bit_vector);
}

/// Removing a record XORs its hash out of the digest of each of its
/// prefixes.
pub proof fn lemma_digest_remove(m: Map<u64, ValueProof>, k: u64, p: u64)
    requires
        m.dom().finite(),
        m.contains_key(k),
    ensures
        digest(m.remove(k), p) == digest(m, p) ^ share(m[k].h, p),
{
    lemma_digest_split(m, k, p);
    let (a, b) = (share(m[k].h, p), digest(m.remove(k), p));
    assert((a ^ b) ^ a == b) by (bit_vector);
}

/// No shift of `h` shorter than `b` yields the non-zero `h >> b`.
pub proof fn lemma_shift_not_covered(h: u64, b: u64, n: nat)
    requires
        n <= b < 64,
        (h >> b) > 0,
    ensures
        !covers(h, h >> b, n),
    decreases n,
{
    if n > 0 {
        lemma_shift_not_covered(h, b, (n - 1) as nat);
        let c = (n - 1) as u64;
        assert((h >> c) != (h >> b)) by (bit_vector)
            requires
                c < b < 64,
                (h >> b) > 0,
        ;
    }
}

proof fn lemma_covers_witness(h: u64, p: u64, n: nat) -> (c: u64)
    requires
        covers(h, p, n),
    ensures
        c < n,
        p > 0,
        h >> c == p,
    decreases n,
{
    if covers(h, p, (n - 1) as nat) {
        lemma_covers_witness(h, p, (n - 1) as nat)
    } else {
        (n - 1) as u64
    }
}

proof fn lemma_covers_intro(h: u64, p: u64, n: nat, c: u64)
    requires
        c < n,
        p > 0,
        h >> c == p,
    ensures
        covers(h, p, n),
    decreases n,
{
    if c < n - 1 {
        lemma_covers_intro(h, p, (n - 1) as nat, c);
    }
}

/// For a hash `h` below 2^32 and a prefix `p` other than `h`, the share of
/// `p` is the XOR of the shares of its two children.
proof fn lemma_share_split(h: u64, p: u64)
    requires
        1 <= p < 0x8000_0000_0000_0000,
        h != p,
        h < 0x1_0000_0000,
    ensures
        share(h, p) == share(h, (2 * p) as u64) ^ share(h, (2 * p + 1) as u64),
{
    let l = (2 * p) as u64;
    let r = (2 * p + 1) as u64;
    assert(l >> 1 == p && r >> 1 == p && l > 0 && r > 0) by (bit_vector)
        requires
            1 <= p < 0x8000_0000_0000_0000,
            l == 2 * p,
            r == 2 * p + 1,
    ;
    let n = PREFIX_BITS as nat;
    // A record under a child lies under `p` too.
    assert forall|x: u64| x >> 1 == p && #[trigger] covers(h, x, n) implies covers(h, p, n) by {
        let e = lemma_covers_witness(h, x, n);
        assert((h >> e) >> 1 == h >> (e + 1) && (h >> 32u64 == 0)) by (bit_vector)
            requires
                e < 32,
                h < 0x1_0000_0000,
        ;
        lemma_covers_intro(h, p, n, (e + 1) as u64);
    }
    // A record lies under at most one child.
    assert forall|x: u64, y: u64|
        x >> 1 == p && y >> 1 == p && #[trigger] covers(h, x, n) && #[trigger] covers(h, y, n)
            implies x == y by {
        let d = lemma_covers_witness(h, x, n);
        let e = lemma_covers_witness(h, y, n);
        assert(d == e) by (bit_vector)
            requires
                (h >> d) >> 1 == p,
                (h >> e) >> 1 == p,
                p > 0,
                d < 32,
                e < 32,
        ;
    }
    if covers(h, p, n) {
        // A record under `p` but not at `p` lies under a child.
        let c = lemma_covers_witness(h, p, n);
        let x = h >> ((c - 1) as u64);
        assert(c != 0 && x >> 1 == p && x > 0) by (bit_vector)
            requires
                h >> c == p,
                h != p,
                p > 0,
                c < 32,
                x == h >> ((c - 1) as u64),
        ;
        lemma_covers_intro(h, x, n, (c - 1) as u64);
        assert(h == h ^ 0u64 && h == 0u64 ^ h) by (bit_vector);
        if x == l {
            assert(!covers(h, r, n));
        } else {
            assert(x == r) by (bit_vector)
                requires
                    x >> 1 == p,
                    x != l,
                    l == 2 * p,
                    r == 2 * p + 1,
                    p < 0x8000_0000_0000_0000,
            ;
            assert(!covers(h, l, n));
        }
    } else {
        assert(!covers(h, l, n) && !covers(h, r, n));
        assert(0u64 == 0u64 ^ 0u64) by (bit_vector);
    }
}

/// With every hash below 2^32, the digests of prefix zero and of prefixes
/// of 2^32 and beyond are zero.
pub proof fn lemma_digest_outside(m: Map<u64, ValueProof>, p: u64)
    requires
        p == 0 || p >= 0x1_0000_0000,
        forall|k: u64| #[trigger] m.contains_key(k) ==> m[k].h < 0x1_0000_0000,
    ensures
        digest(m, p) == 0,
    decreases m.len(),
{
    if m.dom().finite() && m.len() > 0 {
        let k = m.dom().choose();
        assert(m.contains_key(k));
        let h = m[k].h;
        lemma_digest_outside(m.remove(k), p);
        if covers(h, p, PREFIX_BITS as nat) {
            let c = lemma_covers_witness(h, p, PREFIX_BITS as nat);
            assert(false) by (bit_vector)
                requires
                    h >> c == p,
                    p > 0,
                    p == 0 || p >= 0x1_0000_0000,
                    h < 0x1_0000_0000,
            ;
        }
        assert(0u64 ^ 0u64 == 0u64) by (bit_vector);
    }
}

/// Where no record has hash `p` and every hash is below 2^32, the digest of
/// `p` is the XOR of the digests of its children.
pub proof fn lemma_digest_aggregation(m: Map<u64, ValueProof>, p: u64)
    requires
        1 <= p < 0x8000_0000_0000_0000,
        forall|k: u64| #[trigger] m.contains_key(k) ==> m[k].h != p && m[k].h < 0x1_0000_0000,
    ensures
        digest(m, p) == digest(m, (2 * p) as u64) ^ digest(m, (2 * p + 1) as u64),
    decreases m.len(),
{
    let l = (2 * p) as u64;
    let r = (2 * p + 1) as u64;
    if m.dom().finite() && m.len() > 0 {
        let k = m.dom().choose();
        assert(m.contains_key(k));
        let rest = m.remove(k);
        lemma_digest_aggregation(rest, p);
        lemma_share_split(m[k].h, p);
        let (a, b, c) = (share(m[k].h, p), share(m[k].h, l), share(m[k].h, r));
        let (d, e, f) = (digest(rest, p), digest(rest, l), digest(rest, r));
        assert(a ^ d == (b ^ e) ^ (c ^ f)) by (bit_vector)
            requires
                a == b ^ c,
                d == e ^ f,
        ;
    } else {
        assert(0u64 == 0u64 ^ 0u64) by (bit_vector);
    }
}

} // verus!
