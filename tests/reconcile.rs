use prooftrie::{Admission, HashTree, Message, ValueProof};

fn sealed(k: u64, v: u64, ts: u64, seed: u64) -> ValueProof {
    ValueProof::sealed(k, v, ts, seed)
}

fn tree_of(recs: &[ValueProof]) -> HashTree {
    let mut t = HashTree::new();
    for r in recs {
        assert_eq!(t.insert_at(r, 2000, false), Admission::Installed);
    }
    t
}

#[test]
fn expand_matching_digest_is_silent() {
    let t = tree_of(&[sealed(1, 1, 1000, 0)]);
    let h = t.prehash(1);
    assert!(t.on_expand(1, h, t.prehash(2), t.prehash(3)).is_empty());
}

#[test]
fn expand_requests_differing_children() {
    let t = tree_of(&[]);
    let out = t.on_expand(1, 3, 1, 2);
    assert_eq!(out, vec![Message::Request { prefix: 2 }, Message::Request { prefix: 3 }]);
    let out = t.on_expand(5, 3, 0, 3);
    assert_eq!(out, vec![Message::Request { prefix: 11 }]);
    let out = t.on_expand(5, 3, 3, 0);
    assert_eq!(out, vec![Message::Request { prefix: 10 }]);
}

#[test]
fn expand_skips_children_beyond_sixty_four_bits() {
    let t = tree_of(&[]);
    assert!(t.on_expand(1 << 63, 1, 1, 1).is_empty());
}

#[test]
fn request_for_an_empty_prefix_is_silent() {
    let t = tree_of(&[sealed(1, 1, 1000, 0)]);
    assert_eq!(t.on_request(u64::MAX), None);
    let h = t.lookup(1).unwrap().h;
    assert_eq!(t.on_request(2 * h), None);
}

#[test]
fn request_for_a_single_record_sends_it() {
    let r = sealed(7, 70, 1000, 3);
    let t = tree_of(&[r]);
    let expect = Some(Message::Key { k: 7, v: 70, ts: 1000, seed: 3 });
    assert_eq!(t.on_request(1), expect);
    assert_eq!(t.on_request(r.h), expect);
}

#[test]
fn request_for_an_inner_prefix_expands_it() {
    let t = tree_of(&[sealed(1, 7, 1000, 290833296), sealed(4, 8, 1000, 1909439934)]);
    assert_eq!(t.on_request(1), Some(Message::Expand { prefix: 1, h: 1, hl: 0, hr: 1 }));
    assert_eq!(t.on_request(0x6588), Some(Message::Expand { prefix: 0x6588, h: 1, hl: 0xCB10, hr: 0xCB11 }));
}

#[test]
fn key_zero_is_never_sent() {
    let r = sealed(0, 5, 1000, 0);
    let t = tree_of(&[r]);
    assert_eq!(t.on_request(r.h), Some(Message::Expand { prefix: r.h, h: r.h, hl: 0, hr: 0 }));
}

#[test]
fn heartbeat_of_root() {
    assert_eq!(tree_of(&[]).heartbeat(), None);
    let t = tree_of(&[sealed(1, 1, 1000, 0), sealed(2, 2, 1000, 0)]);
    assert_eq!(t.heartbeat(), Some(Message::Expand { prefix: 1, h: t.prehash(1), hl: t.prehash(2), hr: t.prehash(3) }));
}

/// Delivers every queued datagram until none is left; `to_b` says which node
/// the datagram is for.
fn run(a: &mut HashTree, b: &mut HashTree, mut queue: Vec<(bool, Vec<u8>)>) {
    let mut steps = 0;
    while let Some((to_b, bytes)) = queue.pop() {
        steps += 1;
        assert!(steps < 10_000);
        let node: &mut HashTree = if to_b { &mut *b } else { &mut *a };
        let replies: Vec<Message> = match Message::decode(&bytes).unwrap() {
            Message::Expand { prefix, h, hl, hr } => node.on_expand(prefix, h, hl, hr),
            Message::Request { prefix } => node.on_request(prefix).into_iter().collect(),
            Message::Key { k, v, ts, seed } => {
                let vp = sealed(k, v, ts, seed);
                node.insert(&vp, false);
                Vec::new()
            }
        };
        for m in replies {
            queue.push((!to_b, m.encode()));
        }
    }
}

#[test]
fn two_node_reconciliation() {
    let r1 = sealed(100, 1, 1000, 0);
    let r2 = sealed(200, 2, 1000, 0);
    let mut a = tree_of(&[r1]);
    let mut b = tree_of(&[r2]);
    let mut queue = Vec::new();
    if let Some(m) = a.heartbeat() {
        queue.push((true, m.encode()));
    }
    if let Some(m) = b.heartbeat() {
        queue.push((false, m.encode()));
    }
    run(&mut a, &mut b, queue);
    for t in [&a, &b] {
        assert_eq!(t.lookup(100).unwrap().v, 1);
        assert_eq!(t.lookup(200).unwrap().v, 2);
    }
    assert_eq!(a.prehash(1), b.prehash(1));
    assert_eq!(a.prehash(1), r1.h ^ r2.h);
    let quiet = b.heartbeat().unwrap();
    if let Message::Expand { prefix, h, hl, hr } = quiet {
        assert!(a.on_expand(prefix, h, hl, hr).is_empty());
    }
}
