use vstd::prelude::*;
use crate::types::{Digest, PublicKey, Signature};

verus! {

/// The view of an optional digest.
pub open spec fn opt_bytes(d: Option<Digest>) -> Option<Seq<u8>> {
    match d {
        Some(x) => Some(x@),
        None => None,
    }
}

// ---------------------------------------------------------------------------
// Blocks of the longest chain: (parent, payload text, payload data, slot).

/// The bincode encoding of the tuple `(parent, text, data, slot)`, where
/// `parent` is an optional 32-byte array.
pub uninterp spec fn block_encoding(parent: Option<Seq<u8>>, text: Seq<char>, data: Seq<u8>, slot: u64) -> Seq<u8>;

/// What `bincode::deserialize` makes of `bytes` read as the tuple
/// `(Option<[u8; 32]>, String, Vec<u8>, u64)`, or `None` where it fails.
pub uninterp spec fn block_decoding(bytes: Seq<u8>) -> Option<(Option<Seq<u8>>, Seq<char>, Seq<u8>, u64)>;

/// Serializes the fields of a block with `bincode::serialize`, as the tuple
/// `(Option<[u8; 32]>, &String, &Vec<u8>, u64)`; bincode lays out a struct as
/// the tuple of its fields. Trusted: the bytes depend on the four values alone.
/// Serializing these types cannot fail, so the `expect` never panics.
#[verifier::external_body]
pub(crate) fn encode_block_fields(parent: &Option<Digest>, text: &String, data: &Vec<u8>, slot: u64) -> (out: Vec<u8>)
    ensures
        out@ == block_encoding(opt_bytes(*parent), text@, data@, slot),
{
    let p: Option<[u8; 32]> = parent.map(|d| d.0);
    bincode::serialize(&(p, text, data, slot)).expect("serializing a block cannot fail")
}

/// Reads `bytes` with `bincode::deserialize` as the tuple
/// `(Option<[u8; 32]>, String, Vec<u8>, u64)`. Trusted: the outcome depends on
/// `bytes` alone, and the bytes that `encode_block_fields` wrote are read back
/// as the values that were written (bincode's round trip).
#[verifier::external_body]
pub(crate) fn decode_block_fields(bytes: &[u8]) -> (r: Option<(Option<Digest>, String, Vec<u8>, u64)>)
    ensures
        match r {
            Some(x) => block_decoding(bytes@) == Some((opt_bytes(x.0), x.1@, x.2@, x.3)),
            None => block_decoding(bytes@) is None,
        },
        r is None ==> forall|p: Option<Seq<u8>>, t: Seq<char>, d: Seq<u8>, s: u64|
            (p matches Some(q) ==> q.len() == 32) ==> bytes@ != #[trigger] block_encoding(p, t, d, s),
        r matches Some(x) ==> forall|p: Option<Seq<u8>>, t: Seq<char>, d: Seq<u8>, s: u64|
            (p matches Some(q) ==> q.len() == 32) && bytes@ == #[trigger] block_encoding(p, t, d, s)
                ==> (opt_bytes(x.0) == p && x.1@ == t && x.2@ == d && x.3 == s),
{
    match bincode::deserialize::<(Option<[u8; 32]>, String, Vec<u8>, u64)>(bytes) {
        Ok((p, t, d, s)) => Some((p.map(|a| Digest(a)), t, d, s)),
        Err(_) => None,
    }
}

// ---------------------------------------------------------------------------
// Key-value pairs carried by the gossip layer.

/// The `len` little-endian bytes of `n`: how bincode writes an integer of
/// `len` bytes (a `u32` in 4; a `u64`, a `usize` or a length in 8).
pub open spec fn le_bytes(n: nat, len: nat) -> Seq<u8>
    decreases len,
{
    if len == 0 {
        Seq::empty()
    } else {
        seq![(n % 256) as u8] + le_bytes(n / 256, (len - 1) as nat)
    }
}

/// The number that little-endian bytes spell.
pub open spec fn le_value(s: Seq<u8>) -> nat
    decreases s.len(),
{
    if s.len() == 0 {
        0
    } else {
        s[0] as nat + 256 * le_value(s.drop_first())
    }
}

/// The bincode encoding of the pair `(k, v)` of byte vectors: each vector as
/// its length in 8 little-endian bytes, then its bytes.
pub open spec fn kv_encoding(k: Seq<u8>, v: Seq<u8>) -> Seq<u8> {
    le_bytes(k.len(), 8) + k + le_bytes(v.len(), 8) + v
}

/// What `bincode::deserialize` makes of `bytes` read as `(Vec<u8>, Vec<u8>)`:
/// a length in 8 little-endian bytes and that many bytes, twice; `None` where
/// the bytes run out first. Bytes after the pair are ignored.
pub open spec fn kv_decoding(bytes: Seq<u8>) -> Option<(Seq<u8>, Seq<u8>)> {
    if bytes.len() < 8 {
        None
    } else {
        let l1: int = le_value(bytes.take(8)) as int;
        if bytes.len() < 16 + l1 {
            None
        } else {
            let l2: int = le_value(bytes.subrange(8 + l1, 16 + l1)) as int;
            if bytes.len() < 16 + l1 + l2 {
                None
            } else {
                Some((bytes.subrange(8, 8 + l1), bytes.subrange(16 + l1, 16 + l1 + l2)))
            }
        }
    }
}

/// `bincode::serialize(&(k, v))`. Trusted: the bytes depend on `k` and `v`
/// alone; serializing two byte vectors cannot fail; and
/// `bincode::deserialize` reads the bytes back as the same pair.
#[verifier::external_body]
pub(crate) fn kv_serialize(k: &Vec<u8>, v: &Vec<u8>) -> (out: Vec<u8>)
    ensures
        out@ == kv_encoding(k@, v@),
        kv_decoding(out@) == Some((k@, v@)),
{
    bincode::serialize(&(k, v)).expect("failed to serialize (k, v)!")
}

/// `bincode::deserialize::<(Vec<u8>, Vec<u8>)>(bytes)`, `None` where it fails.
/// Trusted: the outcome depends on `bytes` alone, and a pair written by
/// `kv_serialize` is read back as itself.
#[verifier::external_body]
pub(crate) fn kv_deserialize(bytes: &Vec<u8>) -> (r: Option<(Vec<u8>, Vec<u8>)>)
    ensures
        match r {
            Some(x) => kv_decoding(bytes@) == Some((x.0@, x.1@)),
            None => kv_decoding(bytes@) is None,
        },
        r is None ==> forall|k: Seq<u8>, v: Seq<u8>| bytes@ != #[trigger] kv_encoding(k, v),
        r matches Some(x) ==> forall|k: Seq<u8>, v: Seq<u8>|
            bytes@ == #[trigger] kv_encoding(k, v) ==> (x.0@ == k && x.1@ == v),
{
    bincode::deserialize::<(Vec<u8>, Vec<u8>)>(bytes).ok()
}

} // verus!
