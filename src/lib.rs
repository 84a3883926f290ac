//! A gossip key-value store whose records carry a decaying proof of work.
//!
//! Each node keeps a [`HashTree`]: the accepted records, one per key, indexed
//! by their content hash, with an XOR digest for every prefix of that hash so
//! that any subtree of the implicit binary trie is summarised by one word.
//! Peers compare digests top-down with short datagrams ([`Message`]) and send
//! each other the records that differ.
mod clock;
pub mod digest;
pub mod hash_tree;
pub mod mixer;
pub mod reconcile;
pub mod value_proof;
pub mod wire;

pub use clock::now_secs;
pub use hash_tree::{Admission, HashTree};
pub use mixer::hash;
pub use value_proof::ValueProof;
pub use wire::Message;
