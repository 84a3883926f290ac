//! The datagrams of the reconciliation protocol. Every field is a big-endian
//! 64-bit word and the first word is the opcode.
use vstd::prelude::*;

verus! {

/// Opcode of EXPAND.
pub const OP_EXPAND: u64 = 37;

/// Opcode of REQUEST.
pub const OP_REQUEST: u64 = 38;

/// Opcode of KEY.
pub const OP_KEY: u64 = 39;

/// Length of an EXPAND or a KEY datagram.
pub const LONG_LEN: usize = 40;

/// Length of a REQUEST datagram, and the least length of any datagram.
pub const SHORT_LEN: usize = 16;

/// One protocol message.
#[derive(Clone, Copy, Debug, PartialEq, Eq, Structural)]
pub enum Message {
    /// The sender's subtree at `prefix` has digest `h`, its children `hl`
    /// and `hr`.
    Expand { prefix: u64, h: u64, hl: u64, hr: u64 },
    /// Asks the receiver to describe its subtree at `prefix`.
    Request { prefix: u64 },
    /// A full record; the receiver recomputes its hash.
    Key { k: u64, v: u64, ts: u64, seed: u64 },
}

/// The eight big-endian bytes of `x`.
pub open spec fn be_bytes(x: u64) -> Seq<u8> {
    seq![
        (x >> 56) as u8,
        (x >> 48) as u8,
        (x >> 40) as u8,
        (x >> 32) as u8,
        (x >> 24) as u8,
        (x >> 16) as u8,
        (x >> 8) as u8,
        x as u8,
    ]
}

/// The big-endian word at bytes `i .. i + 8` of `s`.
pub open spec fn be_word(s: Seq<u8>, i: int) -> u64 {
    (s[i] as u64) << 56 | (s[i + 1] as u64) << 48 | (s[i + 2] as u64) << 40 | (s[i + 3] as u64)
        << 32 | (s[i + 4] as u64) << 24 | (s[i + 5] as u64) << 16 | (s[i + 6] as u64) << 8 | (s[i
        + 7] as u64)
}

/// The datagram that carries `m`.
pub open spec fn wire(m: Message) -> Seq<u8> {
    match m {
        Message::Expand { prefix, h, hl, hr } => be_bytes(OP_EXPAND) + be_bytes(prefix) + be_bytes(
            h,
        ) + be_bytes(hl) + be_bytes(hr),
        Message::Request { prefix } => be_bytes(OP_REQUEST) + be_bytes(prefix),
        Message::Key { k, v, ts, seed } => be_bytes(OP_KEY) + be_bytes(k) + be_bytes(v) + be_bytes(
            ts,
        ) + be_bytes(seed),
    }
}

/// The message a datagram carries: none when it is shorter than
/// `SHORT_LEN`, its opcode is unknown, or its length is not the one its
/// opcode implies.
pub open spec fn parse(s: Seq<u8>) -> Option<Message> {
    if s.len() < SHORT_LEN {
        None
    } else {
        let op = be_word(s, 0);
        if op == OP_EXPAND && s.len() == LONG_LEN {
            Some(
                Message::Expand {
                    prefix: be_word(s, 8),
                    h: be_word(s, 16),
                    hl: be_word(s, 24),
                    hr: be_word(s, 32),
                },
            )
        } else if op == OP_REQUEST && s.len() == SHORT_LEN {
            Some(Message::Request { prefix: be_word(s, 8) })
        } else if op == OP_KEY && s.len() == LONG_LEN {
            Some(
                Message::Key {
                    k: be_word(s, 8),
                    v: be_word(s, 16),
                    ts: be_word(s, 24),
                    seed: be_word(s, 32),
                },
            )
        } else {
            None
        }
    }
}

fn push_word(out: &mut Vec<u8>, x: u64)
    ensures
        final(out)@ == old(out)@ + be_bytes(x),
{
    out.push((x >> 56) as u8);
    out.push((x >> 48) as u8);
    out.push((x >> 40) as u8);
    out.push((x >> 32) as u8);
    out.push((x >> 24) as u8);
    out.push((x >> 16) as u8);
    out.push((x >> 8) as u8);
    out.push(x as u8);
    assert(out@ =~= old(out)@ + be_bytes(x));
}

fn read_word(buf: &[u8], i: usize) -> (r: u64)
    requires
        i + 8 <= buf@.len(),
    ensures
        r == be_word(buf@, i as int),
{
    (buf[i] as u64) << 56 | (buf[i + 1] as u64) << 48 | (buf[i + 2] as u64) << 40 | (buf[i
        + 3] as u64) << 32 | (buf[i + 4] as u64) << 24 | (buf[i + 5] as u64) << 16 | (buf[i
        + 6] as u64) << 8 | (buf[i + 7] as u64)
}

impl Message {
    /// The datagram that carries this message.
    pub fn encode(&self) -> (r: Vec<u8>)
        ensures
            r@ == wire(*self),
    {
        let mut out: Vec<u8> = Vec::new();
        match *self {
            Message::Expand { prefix, h, hl, hr } => {
                push_word(&mut out, OP_EXPAND);
                push_word(&mut out, prefix);
                push_word(&mut out, h);
                push_word(&mut out, hl);
                push_word(&mut out, hr);
            },
            Message::Request { prefix } => {
                push_word(&mut out, OP_REQUEST);
                push_word(&mut out, prefix);
            },
            Message::Key { k, v, ts, seed } => {
                push_word(&mut out, OP_KEY);
                push_word(&mut out, k);
                push_word(&mut out, v);
                push_word(&mut out, ts);
                push_word(&mut out, seed);
            },
        }
        assert(out@ =~= wire(*self));
        out
    }

    /// The message that a received datagram carries, if any.
    pub fn decode(buf: &[u8]) -> (r: Option<Message>)
        ensures
            r == parse(buf@),
    {
        if buf.len() < SHORT_LEN {
            return None;
        }
        let op = read_word(buf, 0);
        if op == OP_EXPAND && buf.len() == LONG_LEN {
            Some(
                Message::Expand {
                    prefix: read_word(buf, 8),
                    h: read_word(buf, 16),
                    hl: read_word(buf, 24),
                    hr: read_word(buf, 32),
                },
            )
        } else if op == OP_REQUEST && buf.len() == SHORT_LEN {
            Some(Message::Request { prefix: read_word(buf, 8) })
        } else if op == OP_KEY && buf.len() == LONG_LEN {
            Some(
                Message::Key {
                    k: read_word(buf, 8),
                    v: read_word(buf, 16),
                    ts: read_word(buf, 24),
                    seed: read_word(buf, 32),
                },
            )
        } else {
            None
        }
    }
}

proof fn lemma_word_of_bytes(s: Seq<u8>, i: int, x: u64)
    requires
        0 <= i,
        i + 8 <= s.len(),
        s.subrange(i, i + 8) == be_bytes(x),
    ensures
        be_word(s, i) == x,
{
    assert(s[i] == s.subrange(i, i + 8)[0]);
    assert(s[i + 1] == s.subrange(i, i + 8)[1]);
    assert(s[i + 2] == s.subrange(i, i + 8)[2]);
    assert(s[i + 3] == s.subrange(i, i + 8)[3]);
    assert(s[i + 4] == s.subrange(i, i + 8)[4]);
    assert(s[i + 5] == s.subrange(i, i + 8)[5]);
    assert(s[i + 6] == s.subrange(i, i + 8)[6]);
    assert(s[i + 7] == s.subrange(i, i + 8)[7]);
    assert(((((x >> 56) as u8) as u64) << 56 | (((x >> 48) as u8) as u64) << 48 | (((x
        >> 40) as u8) as u64) << 40 | (((x >> 32) as u8) as u64) << 32 | (((x >> 24) as u8)
        as u64) << 24 | (((x >> 16) as u8) as u64) << 16 | (((x >> 8) as u8) as u64) << 8 | ((
    x as u8) as u64)) == x) by (bit_vector);
}

/// A receiver decodes exactly the message that its peer encoded.
pub proof fn lemma_parse_wire(m: Message)
    ensures
        parse(wire(m)) == Some(m),
{
    let s = wire(m);
    match m {
        Message::Expand { prefix, h, hl, hr } => {
            assert(s.subrange(0, 8) =~= be_bytes(OP_EXPAND));
            assert(s.subrange(8, 16) =~= be_bytes(prefix));
            assert(s.subrange(16, 24) =~= be_bytes(h));
            assert(s.subrange(24, 32) =~= be_bytes(hl));
            assert(s.subrange(32, 40) =~= be_bytes(hr));
            lemma_word_of_bytes(s, 0, OP_EXPAND);
            lemma_word_of_bytes(s, 8, prefix);
            lemma_word_of_bytes(s, 16, h);
            lemma_word_of_bytes(s, 24, hl);
            lemma_word_of_bytes(s, 32, hr);
        },
        Message::Request { prefix } => {
            assert(s.subrange(0, 8) =~= be_bytes(OP_REQUEST));
            assert(s.subrange(8, 16) =~= be_bytes(prefix));
            lemma_word_of_bytes(s, 0, OP_REQUEST);
            lemma_word_of_bytes(s, 8, prefix);
        },
        Message::Key { k, v, ts, seed } => {
            assert(s.subrange(0, 8) =~= be_bytes(OP_KEY));
            assert(s.subrange(8, 16) =~= be_bytes(k));
            assert(s.subrange(16, 24) =~= be_bytes(v));
            assert(s.subrange(24, 32) =~= be_bytes(ts));
            assert(s.subrange(32, 40) =~= be_bytes(seed));
            lemma_word_of_bytes(s, 0, OP_KEY);
            lemma_word_of_bytes(s, 8, k);
            lemma_word_of_bytes(s, 16, v);
            lemma_word_of_bytes(s, 24, ts);
            lemma_word_of_bytes(s, 32, seed);
        },
    }
}

} // verus!
