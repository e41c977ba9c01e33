use vstd::prelude::*;
use rand::SeedableRng as _;
use ed25519_dalek::Signer as _;
use crate::types::{Digest, PublicKey, Signature, SecretKey};

verus! {

/// The ed25519 signature that the keypair `keypair` (secret then public key)
/// makes of `msg`, or `None` when the bytes do not form a keypair.
pub uninterp spec fn ed25519_signature(keypair: Seq<u8>, msg: Seq<u8>) -> Option<Seq<u8>>;

/// Whether `sig` is a valid ed25519 signature of `msg` by the public key `pk`
/// under strict verification; false when `pk` or `sig` do not decode.
pub uninterp spec fn ed25519_valid(pk: Seq<u8>, msg: Seq<u8>, sig: Seq<u8>) -> bool;

/// The ed25519 public key (32 bytes) that `ed25519_dalek` derives from the
/// 32-byte secret key `secret` (`PublicKey::from(&SecretKey)`): a function of
/// the secret bytes alone.
pub uninterp spec fn ed25519_public_of(secret: Seq<u8>) -> Seq<u8>;

/// The keypair bytes that `ed25519_dalek::Keypair::generate` draws from a
/// `rand::rngs::StdRng` seeded with `seed`.
pub uninterp spec fn keypair_from_seed(seed: Seq<u8>) -> Seq<u8>;

/// Signs the digest with `ed25519_dalek::Keypair::from_bytes` and `sign`.
/// Trusted: the signature depends on the keypair bytes and the digest alone
/// (ed25519 signing is deterministic); `None` exactly where `from_bytes` fails.
#[verifier::external_body]
pub(crate) fn sign_digest(keypair: &SecretKey, d: &Digest) -> (r: Option<Signature>)
    ensures
        match r {
            Some(s) => ed25519_signature(keypair@, d@) == Some(s@),
            None => ed25519_signature(keypair@, d@) is None,
        },
{
    match ed25519_dalek::Keypair::from_bytes(&keypair.0) {
        Ok(kp) => {
            let sig = kp.sign(&d.0).to_bytes();
            let mut part1 = [0u8; 32];
            let mut part2 = [0u8; 32];
            part1.copy_from_slice(&sig[..32]);
            part2.copy_from_slice(&sig[32..]);
            Some(Signature { part1, part2 })
        },
        Err(_) => None,
    }
}

/// Checks `sig` on the digest against `pk` with `ed25519::Signature::from_bytes`,
/// `ed25519_dalek::PublicKey::from_bytes` and `verify_strict`. Trusted: the
/// verdict depends on the key, the digest and the signature alone.
#[verifier::external_body]
pub(crate) fn verify_digest(sig: &Signature, d: &Digest, pk: &PublicKey) -> (r: bool)
    ensures
        r == ed25519_valid(pk@, d@, sig@),
{
    let mut flat = [0u8; 64];
    flat[..32].copy_from_slice(&sig.part1);
    flat[32..].copy_from_slice(&sig.part2);
    let signature = match <ed25519_dalek::Signature as ed25519_dalek::ed25519::signature::Signature>::from_bytes(&flat) {
        Ok(s) => s,
        Err(_) => return false,
    };
    match ed25519_dalek::PublicKey::from_bytes(&pk.0) {
        Ok(key) => key.verify_strict(&d.0, &signature).is_ok(),
        Err(_) => false,
    }
}

/// Generates a keypair with `ed25519_dalek::Keypair::generate` from a
/// `StdRng::from_seed(seed)`. Trusted: the 64 bytes (`to_bytes`: secret key
/// then public key) depend on the seed alone; the public half is the key that
/// `generate` derives from the secret half; and the bytes form a keypair that
/// `Keypair::from_bytes` accepts, so it signs every message.
#[verifier::external_body]
pub(crate) fn generate_seeded_keypair(seed: [u8; 32]) -> (kp: (PublicKey, SecretKey))
    ensures
        kp.1@ == keypair_from_seed(seed@),
        kp.1@.len() == 64,
        kp.0@ == kp.1@.subrange(32, 64),
        kp.0@ == ed25519_public_of(kp.1@.subrange(0, 32)),
        forall|m: Seq<u8>| #[trigger] ed25519_signature(kp.1@, m) is Some,
{
    let mut rng = rand::rngs::StdRng::from_seed(seed);
    let keypair = ed25519_dalek::Keypair::generate(&mut rng);
    (PublicKey(keypair.public.to_bytes()), SecretKey(keypair.to_bytes().to_vec()))
}

/// Generates a keypair with `ed25519_dalek::Keypair::generate` from the
/// operating system's random source. Trusted: 64 bytes, secret key then public
/// key, the public half derived from the secret half, forming a keypair that
/// `Keypair::from_bytes` accepts, so it signs every message. Which secret is
/// drawn is random and not stated.
#[verifier::external_body]
pub(crate) fn generate_production_keypair() -> (kp: (PublicKey, SecretKey))
    ensures
        kp.1@.len() == 64,
        kp.0@ == kp.1@.subrange(32, 64),
        kp.0@ == ed25519_public_of(kp.1@.subrange(0, 32)),
        forall|m: Seq<u8>| #[trigger] ed25519_signature(kp.1@, m) is Some,
{
    let mut rng = rand::rngs::OsRng;
    let keypair = ed25519_dalek::Keypair::generate(&mut rng);
    (PublicKey(keypair.public.to_bytes()), SecretKey(keypair.to_bytes().to_vec()))
}

/// The key of an authority and its secret.
pub struct Secret {
    pub name: PublicKey,
    pub secret: SecretKey,
}

impl Secret {
    /// A fresh random key: 64 bytes, a random secret key then the public key
    /// derived from it, which is the name; the bytes sign every message.
    pub fn new() -> (s: Secret)
        ensures
            s.secret@.len() == 64,
            s.name@ == s.secret@.subrange(32, 64),
            s.name@ == ed25519_public_of(s.secret@.subrange(0, 32)),
            forall|m: Seq<u8>| #[trigger] ed25519_signature(s.secret@, m) is Some,
    {
        let (name, secret) = generate_production_keypair();
        Secret { name, secret }
    }
}

impl Default for Secret {
    /// The key drawn from the all-zero seed.
    fn default() -> (s: Secret)
        ensures
            s.secret@ == keypair_from_seed(Seq::new(32, |i: int| 0u8)),
            s.name@ == s.secret@.subrange(32, 64),
            s.name@ == ed25519_public_of(s.secret@.subrange(0, 32)),
            forall|m: Seq<u8>| #[trigger] ed25519_signature(s.secret@, m) is Some,
    {
        let seed = [0u8; 32];
        assert(seed@ =~= Seq::new(32, |i: int| 0u8));
        let (name, secret) = generate_seeded_keypair(seed);
        Secret { name, secret }
    }
}

/// Signs digests with one secret key.
pub struct SignatureService {
    secret: SecretKey,
}

impl View for SignatureService {
    type V = Seq<u8>;

    closed spec fn view(&self) -> Seq<u8> {
        self.secret@
    }
}

impl SignatureService {
    pub fn new(secret: SecretKey) -> (s: SignatureService)
        ensures
            s@ == secret@,
    {
        SignatureService { secret }
    }

    /// The signature of `d`; `None` when the secret does not form a keypair.
    pub fn request_signature(&self, d: &Digest) -> (r: Option<Signature>)
        ensures
            match r {
                Some(s) => ed25519_signature(self@, d@) == Some(s@),
                None => ed25519_signature(self@, d@) is None,
            },
    {
        sign_digest(&self.secret, d)
    }
}

} // verus!
