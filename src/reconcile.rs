//! The anti-entropy handlers: how a node answers EXPAND and REQUEST, and the
//! EXPAND it sends each peer on a heartbeat. KEY messages are offered to
//! `HashTree::insert`.
use vstd::prelude::*;

use crate::digest::{child_digest, digest};
use crate::hash_tree::HashTree;
use crate::value_proof::ValueProof;
use crate::wire::Message;

verus! {

/// The REQUEST for child `2p + side` when the sender claims it non-empty
/// with digest `claimed` and ours differs; a child beyond 64 bits is never
/// requested.
pub open spec fn child_request(m: Map<u64, ValueProof>, p: u64, side: u64, claimed: u64) -> Seq<
    Message,
> {
    if claimed != 0 && 2 * p + side <= u64::MAX && digest(m, (2 * p + side) as u64) != claimed {
        seq![Message::Request { prefix: (2 * p + side) as u64 }]
    } else {
        seq![]
    }
}

/// The replies to EXPAND(p, h, hl, hr): none when our digest at `p` is `h`,
/// else a REQUEST for each child whose claimed digest is non-zero and differs
/// from ours, left first.
pub open spec fn expand_replies(m: Map<u64, ValueProof>, p: u64, h: u64, hl: u64, hr: u64) -> Seq<
    Message,
> {
    if digest(m, p) == h {
        seq![]
    } else {
        child_request(m, p, 0, hl) + child_request(m, p, 1, hr)
    }
}

/// The reply to REQUEST(p): nothing when our digest at `p` is zero; the
/// record when the reverse index gives a non-zero key for that digest; else
/// an EXPAND of `p` with the digests of its children.
pub open spec fn request_reply(m: Map<u64, ValueProof>, o: Map<u64, u64>, p: u64) -> Option<
    Message,
> {
    let h = digest(m, p);
    let k = if o.contains_key(h) {
        o[h]
    } else {
        0
    };
    if h == 0 {
        None
    } else if k > 0 {
        Some(Message::Key { k, v: m[k].v, ts: m[k].ts, seed: m[k].seed })
    } else {
        Some(
            Message::Expand {
                prefix: p,
                h,
                hl: child_digest(m, p, 0),
                hr: child_digest(m, p, 1),
            },
        )
    }
}

/// The EXPAND of the root sent to each peer on a heartbeat, none while the
/// index is empty at the root.
pub open spec fn heartbeat_message(m: Map<u64, ValueProof>) -> Option<Message> {
    if digest(m, 1) == 0 {
        None
    } else {
        Some(Message::Expand { prefix: 1, h: digest(m, 1), hl: digest(m, 2), hr: digest(m, 3) })
    }
}

/// Peers that hold the same records are quiescent: the heartbeat of one
/// draws no reply from the other.
pub proof fn lemma_converged_quiescent(a: Map<u64, ValueProof>, b: Map<u64, ValueProof>)
    requires
        a == b,
    ensures
        match heartbeat_message(a) {
            Some(Message::Expand { prefix, h, hl, hr }) => expand_replies(b, prefix, h, hl, hr)
                == Seq::<Message>::empty(),
            _ => true,
        },
{
    match heartbeat_message(a) {
        Some(Message::Expand { prefix, h, hl, hr }) => {
            assert(expand_replies(b, prefix, h, hl, hr) =~= Seq::<Message>::empty());
        },
        _ => {},
    }
}

/// The EXPAND that a well-formed index sends for a prefix `p`, in answer to
/// a REQUEST or on a heartbeat, splits its digest over the children:
/// `h == hl ^ hr`, unless `p` is itself the hash of a stored record.
pub proof fn lemma_expand_consistent(t: &HashTree, p: u64)
    requires
        t.wf(),
        forall|k: u64| #[trigger] t@.contains_key(k) ==> t@[k].h != p,
    ensures
        match request_reply(t@, t.owners(), p) {
            Some(Message::Expand { h, hl, hr, .. }) => h == hl ^ hr,
            _ => true,
        },
        p == 1 ==> match heartbeat_message(t@) {
            Some(Message::Expand { h, hl, hr, .. }) => h == hl ^ hr,
            _ => true,
        },
{
    if p == 0 || p >= 0x1_0000_0000 {
        t.lemma_digest_outside_trie(p);
    } else {
        t.lemma_prefix_aggregation(p);
    }
}

impl HashTree {
    fn child_prehash(&self, p: u64, side: u64) -> (r: u64)
        requires
            self.wf(),
            side <= 1,
        ensures
            r == child_digest(self@, p, side),
    {
        if p <= (u64::MAX - side) / 2 {
            self.prehash(2 * p + side)
        } else {
            0
        }
    }

    /// Answers EXPAND(prefix, h, hl, hr): at most two REQUESTs.
    pub fn on_expand(&self, prefix: u64, h: u64, hl: u64, hr: u64) -> (r: Vec<Message>)
        requires
            self.wf(),
        ensures
            r@ == expand_replies(self@, prefix, h, hl, hr),
    {
        let mut out: Vec<Message> = Vec::new();
        if self.prehash(prefix) == h {
            return out;
        }
        if hl != 0 && prefix <= u64::MAX / 2 && self.prehash(2 * prefix) != hl {
            out.push(Message::Request { prefix: 2 * prefix });
        }
        if hr != 0 && prefix <= (u64::MAX - 1) / 2 && self.prehash(2 * prefix + 1) != hr {
            out.push(Message::Request { prefix: 2 * prefix + 1 });
        }
        assert(out@ =~= expand_replies(self@, prefix, h, hl, hr));
        out
    }

    /// Answers REQUEST(prefix): a KEY, an EXPAND, or nothing.
    pub fn on_request(&self, prefix: u64) -> (r: Option<Message>)
        requires
            self.wf(),
        ensures
            r == request_reply(self@, self.owners(), prefix),
    {
        let h = self.prehash(prefix);
        if h == 0 {
            return None;
        }
        let k = self.hashkey(h);
        if k > 0 {
            proof {
                self.lemma_wf_sound();
                assert(self.owners().contains_key(h));
            }
            let vp = self.keyproof(k);
            Some(Message::Key { k, v: vp.v, ts: vp.ts, seed: vp.seed })
        } else {
            let hl = self.child_prehash(prefix, 0);
            let hr = self.child_prehash(prefix, 1);
            Some(Message::Expand { prefix, h, hl, hr })
        }
    }

    /// The EXPAND of the root to send each peer on a heartbeat.
    pub fn heartbeat(&self) -> (r: Option<Message>)
        requires
            self.wf(),
        ensures
            r == heartbeat_message(self@),
    {
        let h = self.prehash(1);
        if h == 0 {
            None
        } else {
            Some(Message::Expand { prefix: 1, h, hl: self.prehash(2), hr: self.prehash(3) })
        }
    }
}

} // verus!
