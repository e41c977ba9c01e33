use vstd::prelude::*;
use crate::hashing::{digest_of_bytes, sha512_prefix};

verus! {

/// The consensus component: a HotStuff core whose messages travel over the
/// gossip network.
pub struct Consensus;

impl Consensus {
    /// The key under which a consensus message is published on the gossip
    /// network: the first 32 bytes of the SHA-512 hash of its bytes.
    pub fn gossip_key(msg: &Vec<u8>) -> (k: Vec<u8>)
        ensures
            k@ == digest_of_bytes(msg@),
    {
        sha512_prefix(msg.as_slice(), 32)
    }
}

} // verus!
