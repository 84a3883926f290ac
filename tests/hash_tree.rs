use prooftrie::{now_secs, Admission, HashTree, ValueProof};

fn sealed(k: u64, v: u64, ts: u64, seed: u64) -> ValueProof {
    ValueProof::sealed(k, v, ts, seed)
}

/// `ln(a.h) + 1e-4 * (b.ts - a.ts) < ln(b.h)` on literal fields.
fn worth_more(a_h: u64, a_ts: u64, b_h: u64, b_ts: u64) -> bool {
    (a_h as f64).ln() + 1e-4 * (b_ts as f64 - a_ts as f64) < (b_h as f64).ln()
}

fn prefixes(h: u64) -> Vec<u64> {
    (0..32).map(|b| h >> b).filter(|p| *p > 0).collect()
}

#[test]
fn empty_index() {
    let t = HashTree::new();
    assert!(t.lookup(1).is_none());
    assert_eq!(t.prehash(1), 0);
    assert_eq!(t.hashkey(5), 0);
}

#[test]
fn install_fills_every_prefix() {
    let mut t = HashTree::new();
    let vp = sealed(42, 7, 1000, 0);
    assert_eq!(t.insert_at(&vp, 2000, false), Admission::Installed);
    assert_eq!(t.lookup(42).unwrap().v, 7);
    assert_eq!(t.keyproof(42).h, vp.h);
    assert_eq!(t.hashkey(vp.h), 42);
    for p in prefixes(vp.h) {
        assert_eq!(t.prehash(p), vp.h);
    }
    assert_eq!(t.prehash(2 * vp.h), 0);
    assert_eq!(t.prehash(2 * vp.h + 1), 0);
}

#[test]
fn malformed_record_is_dropped() {
    let mut t = HashTree::new();
    let mut vp = sealed(42, 7, 1000, 0);
    vp.h ^= 1;
    assert_eq!(t.insert_at(&vp, 2000, true), Admission::Malformed);
    assert!(t.lookup(42).is_none());
    assert_eq!(t.prehash(1), 0);
}

#[test]
fn future_dated_record_is_dropped() {
    let mut t = HashTree::new();
    let vp = sealed(42, 7, 1002, 0);
    assert_eq!(t.insert_at(&vp, 1000, true), Admission::FutureDated);
    assert!(t.lookup(42).is_none());
    assert_eq!(t.insert_at(&vp, 1001, true), Admission::Installed);
}

#[test]
fn same_value_is_idempotent() {
    let mut t = HashTree::new();
    let a = sealed(1, 10, 1000, 5);
    let b = sealed(1, 10, 1000, 6);
    assert_eq!(t.insert_at(&a, 2000, false), Admission::Installed);
    assert_eq!(t.insert_at(&b, 2000, true), Admission::SameValue);
    assert_eq!(t.lookup(1).unwrap().seed, 5);
}

#[test]
fn remove_clears_a_record() {
    let mut t = HashTree::new();
    let a = sealed(1, 10, 1000, 5);
    let b = sealed(2, 20, 1000, 5);
    t.insert_at(&a, 2000, false);
    t.insert_at(&b, 2000, false);
    t.remove(1);
    assert!(t.lookup(1).is_none());
    assert_eq!(t.hashkey(a.h), 0);
    assert_eq!(t.hashkey(b.h), 2);
    assert_eq!(t.prehash(1), b.h);
}

#[test]
fn insert_then_remove_restores_digests() {
    let mut t = HashTree::new();
    let a = sealed(1, 10, 1000, 5);
    let b = sealed(2, 20, 1000, 5);
    t.insert_at(&a, 2000, false);
    let mut watched: Vec<u64> = prefixes(a.h);
    watched.extend(prefixes(b.h));
    let before: Vec<u64> = watched.iter().map(|p| t.prehash(*p)).collect();
    assert_eq!(t.insert_at(&b, 2000, false), Admission::Installed);
    t.remove(2);
    let after: Vec<u64> = watched.iter().map(|p| t.prehash(*p)).collect();
    assert_eq!(before, after);
}

#[test]
fn prefix_aggregation_holds_after_updates() {
    let mut t = HashTree::new();
    let recs = [sealed(1, 1, 1000, 0), sealed(2, 2, 1000, 0), sealed(3, 3, 1000, 0), sealed(4, 4, 1000, 0)];
    for r in recs.iter() {
        t.insert_at(r, 2000, false);
    }
    t.remove(3);
    let stored: Vec<u64> = [1u64, 2, 4].iter().map(|k| t.lookup(*k).unwrap().h).collect();
    for h in stored.iter() {
        for p in prefixes(*h) {
            if !stored.contains(&p) {
                assert_eq!(t.prehash(p), t.prehash(2 * p) ^ t.prehash(2 * p + 1));
            }
        }
    }
}

#[test]
fn admission_is_monotone_in_worth() {
    let mut t = HashTree::new();
    let a = sealed(1, 10, 1000, 5);
    t.insert_at(&a, 2000, false);
    let b = sealed(1, 11, 1000, 7);
    let b_wins = worth_more(b.h, b.ts, a.h, a.ts);
    let r = t.insert_at(&b, 2000, b_wins);
    let kept = t.lookup(1).unwrap();
    if b_wins {
        assert_eq!(r, Admission::Replaced);
        assert_eq!(kept.v, 11);
    } else {
        assert_eq!(r, Admission::Outranked);
        assert_eq!(kept.v, 10);
    }
    assert_eq!(t.insert_at(&b, 2000, false), if b_wins { Admission::SameValue } else { Admission::Outranked });
}

#[test]
fn mine_and_store() {
    let now = now_secs();
    let mut vp = sealed(42, 7, now, 0);
    let logwork = |vp: &ValueProof| {
        let age = (now + 2 - vp.ts) as f64;
        (4294967296f64).ln() - (vp.h as f64).ln() - 1e-4 * age
    };
    while logwork(&vp) < 0.0 {
        vp.seed = rand::random::<u64>();
        vp.compute_hash();
    }
    assert!(logwork(&vp) >= 0.0);
    let mut t = HashTree::new();
    assert_eq!(t.insert(&vp, false), Admission::Installed);
    assert_eq!(t.lookup(42).unwrap().v, 7);
}

#[test]
fn replace_on_worth() {
    assert!(worth_more(1900, 1000, 2000, 1000));
    let mut t = HashTree::new();
    let vp1 = sealed(1, 10, 1000, 5);
    let vp2 = sealed(1, 11, 1000, 7);
    assert_eq!(t.insert(&vp1, false), Admission::Installed);
    assert_eq!(t.insert(&vp2, worth_more(1900, 1000, 2000, 1000)), Admission::Replaced);
    assert_eq!(t.lookup(1).unwrap().v, 11);
    assert_eq!(t.hashkey(vp1.h), 0);
    assert_eq!(t.hashkey(vp2.h), 1);
    assert_eq!(t.prehash(1), vp2.h);
}

#[test]
fn reject_on_worth() {
    assert!(!worth_more(2100, 1000, 2000, 1000));
    let mut t = HashTree::new();
    let vp1 = sealed(1, 10, 1000, 5);
    let vp2 = sealed(1, 11, 1000, 7);
    t.insert(&vp1, false);
    assert_eq!(t.insert(&vp2, worth_more(2100, 1000, 2000, 1000)), Admission::Outranked);
    assert_eq!(t.lookup(1).unwrap().v, 10);
    assert_eq!(t.prehash(1), vp1.h);
}

#[test]
fn age_advantage() {
    // The scenario's literal evaluation: ln(2000) + 1e-4 * (2000 - 1000) < ln(2020) is false.
    let verdict = (2000f64).ln() + 1e-4 * (2000.0 - 1000.0) < (2020f64).ln();
    assert!(!verdict);
    let mut t = HashTree::new();
    let vp1 = sealed(1, 10, 1000, 5);
    let vp2 = sealed(1, 11, 2000, 2092189327);
    assert_eq!(vp2.h, 2020);
    t.insert(&vp1, false);
    assert_eq!(t.insert(&vp2, verdict), Admission::Outranked);
    assert_eq!(t.lookup(1).unwrap().v, 10);
}

#[test]
fn prefix_invariant_under_insert() {
    let r1 = sealed(1, 7, 1000, 290833296);
    let r2 = sealed(4, 8, 1000, 1909439934);
    assert_eq!((r1.h, r2.h), (0xCB10, 0xCB11));
    let mut t = HashTree::new();
    t.insert(&r1, false);
    t.insert(&r2, false);
    assert_eq!(t.prehash(0xCB10), 0xCB10);
    assert_eq!(t.prehash(0xCB11), 0xCB11);
    let mut p = 0xCB10u64 >> 1;
    while p > 0 {
        assert_eq!(t.prehash(p), 1);
        p >>= 1;
    }
    assert_eq!(t.prehash(0x6588), 1);
    assert_eq!(t.prehash(0x32C4), 1);
    assert_eq!(t.prehash(1), 1);
    assert_eq!(t.prehash(2 * 0xCB10), 0);
}
