use vstd::prelude::*;
use crate::types::{Digest, PublicKey, Signature};
use crate::config::{CheckpointCommittee, member_stake};
use crate::crypto::{SignatureService, ed25519_signature, ed25519_valid, verify_digest};
use crate::hashing::{digest_of_bytes, digest_bytes};
use crate::codec::{le_bytes, le_value};

verus! {

/// What a member of the checkpointing committee does in an iteration.
#[derive(Clone, Copy, Debug)]
pub enum CheckpointAction {
    /// The leader proposes a block as checkpoint of an iteration.
    Propose(usize, Digest),
    /// A member accepts a block as checkpoint of an iteration.
    Accept(usize, Digest),
    /// A member rejects an iteration.
    Reject(usize),
}

/// The mathematical value of an action: its variant index, its iteration and,
/// for a proposal or an acceptance, its block.
pub open spec fn action_view(a: CheckpointAction) -> (u32, usize, Option<Seq<u8>>) {
    match a {
        CheckpointAction::Propose(i, d) => (0u32, i, Some(d@)),
        CheckpointAction::Accept(i, d) => (1u32, i, Some(d@)),
        CheckpointAction::Reject(i) => (2u32, i, None),
    }
}

/// The action that a variant index, an iteration and a block make.
pub open spec fn action_of(tag: u32, i: usize, d: Option<Seq<u8>>) -> Option<(u32, usize, Option<Seq<u8>>)> {
    if (tag == 0 || tag == 1) && (d matches Some(x) && x.len() == 32) {
        Some((tag, i, d))
    } else if tag == 2 && d is None {
        Some((tag, i, d))
    } else {
        None
    }
}

/// The bincode encoding of `(author, tag, iteration, block, sig1, sig2)`: a
/// proposal or an acceptance. The arrays are written byte by byte, the tag in
/// 4 little-endian bytes and the iteration in 8.
pub open spec fn tx_encoding_with_block(author: Seq<u8>, tag: u32, i: usize, d: Seq<u8>, sig1: Seq<u8>, sig2: Seq<u8>) -> Seq<u8> {
    author + le_bytes(tag as nat, 4) + le_bytes(i as nat, 8) + d + sig1 + sig2
}

/// The bincode encoding of `(author, tag, iteration, sig1, sig2)`: a rejection.
pub open spec fn tx_encoding_without_block(author: Seq<u8>, tag: u32, i: usize, sig1: Seq<u8>, sig2: Seq<u8>) -> Seq<u8> {
    author + le_bytes(tag as nat, 4) + le_bytes(i as nat, 8) + sig1 + sig2
}

/// What `bincode::deserialize` makes of `bytes` read as `([u8; 32], u32)`:
/// the first 32 bytes and the number that the next 4 spell, where there are 36.
pub open spec fn tx_header_decoding(bytes: Seq<u8>) -> Option<(Seq<u8>, u32)> {
    if bytes.len() >= 36 {
        Some((bytes.take(32), le_value(bytes.subrange(32, 36)) as u32))
    } else {
        None
    }
}

/// What `bincode::deserialize` makes of `bytes` read as
/// `([u8; 32], u32, usize, [u8; 32], [u8; 32], [u8; 32])`: the fields in turn,
/// the `u32` in 4 little-endian bytes and the `usize` in 8; `None` where the
/// bytes run out or the `usize` does not fit. Bytes after them are ignored.
pub open spec fn tx_decoding_with_block(bytes: Seq<u8>) -> Option<(Seq<u8>, u32, usize, Seq<u8>, Seq<u8>, Seq<u8>)> {
    if bytes.len() >= 140 && le_value(bytes.subrange(36, 44)) <= usize::MAX {
        Some((bytes.take(32), le_value(bytes.subrange(32, 36)) as u32, le_value(bytes.subrange(36, 44)) as usize,
            bytes.subrange(44, 76), bytes.subrange(76, 108), bytes.subrange(108, 140)))
    } else {
        None
    }
}

/// What `bincode::deserialize` makes of `bytes` read as
/// `([u8; 32], u32, usize, [u8; 32], [u8; 32])`, in the same way.
pub open spec fn tx_decoding_without_block(bytes: Seq<u8>) -> Option<(Seq<u8>, u32, usize, Seq<u8>, Seq<u8>)> {
    if bytes.len() >= 108 && le_value(bytes.subrange(36, 44)) <= usize::MAX {
        Some((bytes.take(32), le_value(bytes.subrange(32, 36)) as u32, le_value(bytes.subrange(36, 44)) as usize,
            bytes.subrange(44, 76), bytes.subrange(76, 108)))
    } else {
        None
    }
}

/// `bincode::serialize` of the tuple `(author, tag, i, block, sig1, sig2)`, the
/// layout bincode gives a struct whose middle field is an enum variant with two
/// fields. Trusted: the bytes depend on the arguments alone; serializing these
/// types cannot fail.
#[verifier::external_body]
fn encode_tx_with_block(author: &PublicKey, tag: u32, i: usize, d: &Digest, sig: &Signature) -> (out: Vec<u8>)
    ensures
        out@ == tx_encoding_with_block(author@, tag, i, d@, sig.part1@, sig.part2@),
{
    bincode::serialize(&(author.0, tag, i, d.0, sig.part1, sig.part2)).expect("serializing a transaction cannot fail")
}

/// `bincode::serialize` of the tuple `(author, tag, i, sig1, sig2)`. Trusted:
/// the bytes depend on the arguments alone; serializing cannot fail.
#[verifier::external_body]
fn encode_tx_without_block(author: &PublicKey, tag: u32, i: usize, sig: &Signature) -> (out: Vec<u8>)
    ensures
        out@ == tx_encoding_without_block(author@, tag, i, sig.part1@, sig.part2@),
{
    bincode::serialize(&(author.0, tag, i, sig.part1, sig.part2)).expect("serializing a transaction cannot fail")
}

/// `bincode::deserialize::<([u8; 32], u32)>(bytes)`, `None` where it fails.
/// Trusted: the outcome depends on `bytes` alone, and the first 36 bytes of
/// either transaction encoding read back as its author and tag.
#[verifier::external_body]
fn decode_tx_header(bytes: &[u8]) -> (r: Option<(PublicKey, u32)>)
    ensures
        match r {
            Some(x) => tx_header_decoding(bytes@) == Some((x.0@, x.1)),
            None => tx_header_decoding(bytes@) is None,
        },
        r is None ==> forall|a: Seq<u8>, t: u32, i: usize, d: Seq<u8>, s1: Seq<u8>, s2: Seq<u8>|
            a.len() == 32 && d.len() == 32 && s1.len() == 32 && s2.len() == 32 ==> (
            bytes@ != #[trigger] tx_encoding_with_block(a, t, i, d, s1, s2)),
        r is None ==> forall|a: Seq<u8>, t: u32, i: usize, s1: Seq<u8>, s2: Seq<u8>|
            a.len() == 32 && s1.len() == 32 && s2.len() == 32 ==> (
            bytes@ != #[trigger] tx_encoding_without_block(a, t, i, s1, s2)),
        r matches Some(x) ==> forall|a: Seq<u8>, t: u32, i: usize, d: Seq<u8>, s1: Seq<u8>, s2: Seq<u8>|
            a.len() == 32 && d.len() == 32 && s1.len() == 32 && s2.len() == 32
            && bytes@ == #[trigger] tx_encoding_with_block(a, t, i, d, s1, s2) ==> x.0@ == a && x.1 == t,
        r matches Some(x) ==> forall|a: Seq<u8>, t: u32, i: usize, s1: Seq<u8>, s2: Seq<u8>|
            a.len() == 32 && s1.len() == 32 && s2.len() == 32
            && bytes@ == #[trigger] tx_encoding_without_block(a, t, i, s1, s2) ==> x.0@ == a && x.1 == t,
{
    match bincode::deserialize::<([u8; 32], u32)>(bytes) {
        Ok((a, t)) => Some((PublicKey(a), t)),
        Err(_) => None,
    }
}

/// `bincode::deserialize::<([u8; 32], u32, usize, [u8; 32], [u8; 32], [u8; 32])>(bytes)`,
/// `None` where it fails. Trusted: the outcome depends on `bytes` alone, and
/// an encoding written by `encode_tx_with_block` reads back as what was written.
#[verifier::external_body]
fn decode_tx_with_block(bytes: &[u8]) -> (r: Option<(PublicKey, u32, usize, Digest, Signature)>)
    ensures
        match r {
            Some(x) => tx_decoding_with_block(bytes@) == Some((x.0@, x.1, x.2, x.3@, x.4.part1@, x.4.part2@)),
            None => tx_decoding_with_block(bytes@) is None,
        },
        r is None ==> forall|a: Seq<u8>, t: u32, i: usize, d: Seq<u8>, s1: Seq<u8>, s2: Seq<u8>|
            a.len() == 32 && d.len() == 32 && s1.len() == 32 && s2.len() == 32 ==> (
            bytes@ != #[trigger] tx_encoding_with_block(a, t, i, d, s1, s2)),
        r matches Some(x) ==> forall|a: Seq<u8>, t: u32, i: usize, d: Seq<u8>, s1: Seq<u8>, s2: Seq<u8>|
            a.len() == 32 && d.len() == 32 && s1.len() == 32 && s2.len() == 32
            && bytes@ == #[trigger] tx_encoding_with_block(a, t, i, d, s1, s2)
            ==> x.0@ == a && x.1 == t && x.2 == i && x.3@ == d && x.4.part1@ == s1 && x.4.part2@ == s2,
{
    match bincode::deserialize::<([u8; 32], u32, usize, [u8; 32], [u8; 32], [u8; 32])>(bytes) {
        Ok((a, t, i, d, s1, s2)) => Some((PublicKey(a), t, i, Digest(d), Signature { part1: s1, part2: s2 })),
        Err(_) => None,
    }
}

/// `bincode::deserialize::<([u8; 32], u32, usize, [u8; 32], [u8; 32])>(bytes)`,
/// `None` where it fails. Trusted: the outcome depends on `bytes` alone, and
/// an encoding written by `encode_tx_without_block` reads back as what was
/// written.
#[verifier::external_body]
fn decode_tx_without_block(bytes: &[u8]) -> (r: Option<(PublicKey, u32, usize, Signature)>)
    ensures
        match r {
            Some(x) => tx_decoding_without_block(bytes@) == Some((x.0@, x.1, x.2, x.3.part1@, x.3.part2@)),
            None => tx_decoding_without_block(bytes@) is None,
        },
        r is None ==> forall|a: Seq<u8>, t: u32, i: usize, s1: Seq<u8>, s2: Seq<u8>|
            a.len() == 32 && s1.len() == 32 && s2.len() == 32 ==> (
            bytes@ != #[trigger] tx_encoding_without_block(a, t, i, s1, s2)),
        r matches Some(x) ==> forall|a: Seq<u8>, t: u32, i: usize, s1: Seq<u8>, s2: Seq<u8>|
            a.len() == 32 && s1.len() == 32 && s2.len() == 32
            && bytes@ == #[trigger] tx_encoding_without_block(a, t, i, s1, s2)
            ==> x.0@ == a && x.1 == t && x.2 == i && x.3.part1@ == s1 && x.3.part2@ == s2,
{
    match bincode::deserialize::<([u8; 32], u32, usize, [u8; 32], [u8; 32])>(bytes) {
        Ok((a, t, i, s1, s2)) => Some((PublicKey(a), t, i, Signature { part1: s1, part2: s2 })),
        Err(_) => None,
    }
}

/// The mathematical value of a transaction.
pub struct CheckpointTransactionView {
    pub author: Seq<u8>,
    pub action: (u32, usize, Option<Seq<u8>>),
    pub signature: Seq<u8>,
}

/// The bytes of a transaction with the given author, action and signature.
pub open spec fn tx_bytes(author: Seq<u8>, action: (u32, usize, Option<Seq<u8>>), sig: Seq<u8>) -> Seq<u8> {
    match action.2 {
        Some(d) => tx_encoding_with_block(author, action.0, action.1, d, sig.subrange(0, 32), sig.subrange(32, 64)),
        None => tx_encoding_without_block(author, action.0, action.1, sig.subrange(0, 32), sig.subrange(32, 64)),
    }
}

/// The digest of a transaction: the digest of its bytes.
pub open spec fn tx_digest(author: Seq<u8>, action: (u32, usize, Option<Seq<u8>>), sig: Seq<u8>) -> Seq<u8> {
    digest_of_bytes(tx_bytes(author, action, sig))
}

/// The 64 zero bytes of an empty signature.
pub open spec fn zero_signature() -> Seq<u8> {
    Seq::new(64, |i: int| 0u8)
}

/// The transaction, if any, that `bytes` encode.
pub open spec fn tx_from_bytes(bytes: Seq<u8>) -> Option<CheckpointTransactionView> {
    match tx_header_decoding(bytes) {
        None => None,
        Some(h) => if h.1 == 0 || h.1 == 1 {
            match tx_decoding_with_block(bytes) {
                Some(x) => Some(CheckpointTransactionView { author: x.0, action: (h.1, x.2, Some(x.3)), signature: x.4 + x.5 }),
                None => None,
            }
        } else if h.1 == 2 {
            match tx_decoding_without_block(bytes) {
                Some(x) => Some(CheckpointTransactionView { author: x.0, action: (h.1, x.2, None), signature: x.3 + x.4 }),
                None => None,
            }
        } else {
            None
        },
    }
}

/// Why a transaction is refused.
#[derive(Clone, Copy, Debug)]
pub enum CheckpointError {
    /// The author has no stake in the committee.
    UnknownAuthority(PublicKey),
    /// The signature does not verify.
    InvalidSignature,
    /// The bytes do not encode a transaction.
    Malformed,
}

/// A signed action of a committee member.
#[derive(Clone, Copy, Debug)]
pub struct CheckpointTransaction {
    pub author: PublicKey,
    pub action: CheckpointAction,
    pub signature: Signature,
}

impl View for CheckpointTransaction {
    type V = CheckpointTransactionView;

    open spec fn view(&self) -> CheckpointTransactionView {
        CheckpointTransactionView {
            author: self.author@,
            action: action_view(self.action),
            signature: self.signature@,
        }
    }
}

/// The signature of a transaction is valid when the author signed the digest
/// of the transaction with an empty signature.
pub open spec fn tx_signature_valid(t: CheckpointTransactionView) -> bool {
    ed25519_valid(t.author, tx_digest(t.author, t.action, zero_signature()), t.signature)
}

impl CheckpointTransaction {
    /// The bytes of the transaction.
    pub fn to_bytes(&self) -> (out: Vec<u8>)
        ensures
            out@ == tx_bytes(self@.author, self@.action, self@.signature),
    {
        proof {
            assert(self.signature@.subrange(0, 32) =~= self.signature.part1@);
            assert(self.signature@.subrange(32, 64) =~= self.signature.part2@);
        }
        match self.action {
            CheckpointAction::Propose(i, d) => encode_tx_with_block(&self.author, 0, i, &d, &self.signature),
            CheckpointAction::Accept(i, d) => encode_tx_with_block(&self.author, 1, i, &d, &self.signature),
            CheckpointAction::Reject(i) => encode_tx_without_block(&self.author, 2, i, &self.signature),
        }
    }

    /// The transaction that `bytes` encode. The bytes of a transaction decode
    /// as that transaction.
    pub fn from_bytes(bytes: &[u8]) -> (r: Result<CheckpointTransaction, CheckpointError>)
        ensures
            match r {
                Ok(t) => tx_from_bytes(bytes@) == Some(t@),
                Err(e) => tx_from_bytes(bytes@) is None && e is Malformed,
            },
            forall|t: CheckpointTransaction| bytes@ == #[trigger] tx_bytes(t@.author, t@.action, t@.signature)
                ==> (r matches Ok(x) && x@ == t@),
    {
        let h = decode_tx_header(bytes);
        let r = match h {
            None => Err(CheckpointError::Malformed),
            Some((_, tag)) => {
                if tag == 0 || tag == 1 {
                    match decode_tx_with_block(bytes) {
                        Some((a, _, i, d, s)) => {
                            let action = if tag == 0 { CheckpointAction::Propose(i, d) } else { CheckpointAction::Accept(i, d) };
                            Ok(CheckpointTransaction { author: a, action, signature: s })
                        },
                        None => Err(CheckpointError::Malformed),
                    }
                } else if tag == 2 {
                    match decode_tx_without_block(bytes) {
                        Some((a, _, i, s)) => Ok(CheckpointTransaction { author: a, action: CheckpointAction::Reject(i), signature: s }),
                        None => Err(CheckpointError::Malformed),
                    }
                } else {
                    Err(CheckpointError::Malformed)
                }
            },
        };
        proof {
            assert forall|t: CheckpointTransaction| bytes@ == #[trigger] tx_bytes(t@.author, t@.action, t@.signature)
                implies (r matches Ok(x) && x@ == t@) by {
                let s1 = t.signature.part1@;
                let s2 = t.signature.part2@;
                assert(t@.signature.subrange(0, 32) =~= s1);
                assert(t@.signature.subrange(32, 64) =~= s2);
                match t.action {
                    CheckpointAction::Propose(i, d) => {
                        assert(bytes@ == tx_encoding_with_block(t.author@, 0, i, d@, s1, s2));
                    },
                    CheckpointAction::Accept(i, d) => {
                        assert(bytes@ == tx_encoding_with_block(t.author@, 1, i, d@, s1, s2));
                    },
                    CheckpointAction::Reject(i) => {
                        assert(bytes@ == tx_encoding_without_block(t.author@, 2, i, s1, s2));
                    },
                }
                if let Ok(x) = r {
                    assert(x.signature@ =~= t.signature@);
                }
            }
            if let Ok(x) = r {
                assert(x.signature@ =~= x.signature.part1@ + x.signature.part2@);
            }
        }
        r
    }

    /// The digest of the transaction.
    pub fn digest(&self) -> (d: Digest)
        ensures
            d@ == tx_digest(self@.author, self@.action, self@.signature),
    {
        let bytes = self.to_bytes();
        digest_bytes(bytes.as_slice())
    }

    /// The transaction of `author` doing `action`, signed by the service: its
    /// signature is that of the digest of the transaction with an empty
    /// signature. `None` when the service's secret does not form a keypair.
    pub fn new(author: PublicKey, action: CheckpointAction, signature_service: &SignatureService) -> (r: Option<CheckpointTransaction>)
        ensures
            match r {
                Some(t) => t.author == author && t.action == action
                    && ed25519_signature(signature_service@, tx_digest(author@, action_view(action), zero_signature()))
                        == Some(t.signature@),
                None => ed25519_signature(signature_service@, tx_digest(author@, action_view(action), zero_signature())) is None,
            },
    {
        let unsigned = CheckpointTransaction { author, action, signature: Signature::zero() };
        let d = unsigned.digest();
        match signature_service.request_signature(&d) {
            Some(signature) => Some(CheckpointTransaction { author, action, signature }),
            None => None,
        }
    }

    /// Checks that the author has stake in the committee, then that the
    /// signature verifies.
    pub fn verify_signature(&self, committee: &CheckpointCommittee) -> (r: Result<(), CheckpointError>)
        ensures
            match r {
                Ok(()) => member_stake(committee@.members, self.author@) > 0 && tx_signature_valid(self@),
                Err(e) => if member_stake(committee@.members, self.author@) == 0 {
                    e == CheckpointError::UnknownAuthority(self.author)
                } else {
                    !tx_signature_valid(self@) && e is InvalidSignature
                },
            },
    {
        let voting_rights = committee.stake(&self.author);
        if !(voting_rights > 0) {
            return Err(CheckpointError::UnknownAuthority(self.author));
        }
        let unsigned = CheckpointTransaction { author: self.author, action: self.action, signature: Signature::zero() };
        let d = unsigned.digest();
        if verify_digest(&self.signature, &d, &self.author) {
            Ok(())
        } else {
            Err(CheckpointError::InvalidSignature)
        }
    }
}

} // verus!
