use vstd::prelude::*;
use ed25519_dalek::Digest as _;
use crate::types::Digest;

verus! {

/// The SHA-512 hash of `data` (64 bytes).
pub uninterp spec fn sha512(data: Seq<u8>) -> Seq<u8>;

/// Hashes `data` with `ed25519_dalek::Sha512` (`new`, `update`, `finalize`).
/// Trusted: the result is the 64-byte SHA-512 hash of `data`, which depends on
/// `data` alone.
#[verifier::external_body]
fn sha512_hash(data: &[u8]) -> (out: Vec<u8>)
    ensures
        out@ == sha512(data@),
        out@.len() == 64,
{
    let mut hasher = ed25519_dalek::Sha512::new();
    hasher.update(data);
    hasher.finalize().to_vec()
}

/// The digest of a byte string: the first 32 bytes of its SHA-512 hash.
pub open spec fn digest_of_bytes(data: Seq<u8>) -> Seq<u8> {
    sha512(data).take(32)
}

/// The first `n` bytes of the SHA-512 hash of `data`.
pub fn sha512_prefix(data: &[u8], n: usize) -> (out: Vec<u8>)
    requires
        n <= 64,
    ensures
        out@ == sha512(data@).take(n as int),
{
    let full = sha512_hash(data);
    let mut out: Vec<u8> = Vec::new();
    let mut i: usize = 0;
    while i < n
        invariant
            0 <= i <= n <= 64,
            full@.len() == 64,
            out@ == full@.take(i as int),
        decreases n - i,
    {
        out.push(full[i]);
        i = i + 1;
        assert(out@ =~= full@.take(i as int));
    }
    out
}

/// The digest of `data`: the first 32 bytes of its SHA-512 hash.
pub fn digest_bytes(data: &[u8]) -> (d: Digest)
    ensures
        d@ == digest_of_bytes(data@),
{
    let full = sha512_hash(data);
    let mut arr: [u8; 32] = [0u8; 32];
    let mut i: usize = 0;
    while i < 32
        invariant
            0 <= i <= 32,
            full@.len() == 64,
            arr@.len() == 32,
            forall|j: int| 0 <= j < i ==> arr@[j] == full@[j],
        decreases 32 - i,
    {
        arr[i] = full[i];
        i = i + 1;
    }
    assert(arr@ =~= full@.take(32));
    Digest(arr)
}

} // verus!
