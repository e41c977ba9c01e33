use vstd::prelude::*;
use crate::types::{Digest, PublicKey};
use crate::codec::{opt_bytes, le_bytes, le_value};
use crate::lcblocks::{LcBlock, LcBlockPayload, LcBlockView};
use crate::hashing::{digest_of_bytes, digest_bytes};

verus! {

/// The bincode encoding of `(tag, key)`: a greeting among adversaries, the
/// tag in 4 little-endian bytes, then the 32 bytes of the key.
pub open spec fn hello_encoding(tag: u32, key: Seq<u8>) -> Seq<u8> {
    le_bytes(tag as nat, 4) + key
}

/// The bincode encoding of `(tag, parent, text, data, slot)`: a hidden block.
pub uninterp spec fn hidden_block_encoding(tag: u32, parent: Option<Seq<u8>>, text: Seq<char>, data: Seq<u8>, slot: u64) -> Seq<u8>;

/// What `bincode::deserialize` makes of `bytes` read as a `u32`: the number
/// that its first 4 bytes spell in little-endian order, where there are 4.
pub open spec fn tag_decoding(bytes: Seq<u8>) -> Option<u32> {
    if bytes.len() >= 4 {
        Some(le_value(bytes.take(4)) as u32)
    } else {
        None
    }
}

/// What `bincode::deserialize` makes of `bytes` read as `(u32, [u8; 32])`:
/// the tag that the first 4 bytes spell and the 32 bytes after them, where
/// there are 36.
pub open spec fn hello_decoding(bytes: Seq<u8>) -> Option<(u32, Seq<u8>)> {
    if bytes.len() >= 36 {
        Some((le_value(bytes.take(4)) as u32, bytes.subrange(4, 36)))
    } else {
        None
    }
}

/// What `bincode::deserialize` makes of `bytes` read as
/// `(u32, Option<[u8; 32]>, String, Vec<u8>, u64)`.
pub uninterp spec fn hidden_block_decoding(bytes: Seq<u8>) -> Option<(u32, Option<Seq<u8>>, Seq<char>, Seq<u8>, u64)>;

/// `bincode::serialize(&(tag, key))`, the layout bincode gives the enum variant
/// number `tag` with one key. Trusted: the bytes depend on the arguments alone;
/// serializing cannot fail.
#[verifier::external_body]
fn encode_hello(tag: u32, key: &PublicKey) -> (out: Vec<u8>)
    ensures
        out@ == hello_encoding(tag, key@),
{
    bincode::serialize(&(tag, key.0)).expect("serializing a greeting cannot fail")
}

/// `bincode::serialize(&(tag, parent, text, data, slot))`, the layout bincode
/// gives the enum variant number `tag` holding a block. Trusted: the bytes
/// depend on the arguments alone; serializing cannot fail.
#[verifier::external_body]
fn encode_hidden_block(tag: u32, b: &LcBlock) -> (out: Vec<u8>)
    ensures
        out@ == hidden_block_encoding(tag, opt_bytes(b.parent), b.payload.0@, b.payload.1@, b.slot),
{
    let p: Option<[u8; 32]> = b.parent.map(|d| d.0);
    bincode::serialize(&(tag, p, &b.payload.0, &b.payload.1, b.slot)).expect("serializing a block cannot fail")
}

/// `bincode::deserialize::<u32>(bytes)`, `None` where it fails. Trusted: the
/// outcome depends on `bytes` alone, and both message encodings read back
/// their tag.
#[verifier::external_body]
fn decode_tag(bytes: &[u8]) -> (r: Option<u32>)
    ensures
        r == tag_decoding(bytes@),
        r is None ==> forall|t: u32, k: Seq<u8>| k.len() == 32 ==> bytes@ != #[trigger] hello_encoding(t, k),
        r matches Some(y) ==> forall|t: u32, k: Seq<u8>| k.len() == 32 && bytes@ == #[trigger] hello_encoding(t, k) ==> y == t,
        r is None ==> forall|t: u32, p: Option<Seq<u8>>, x: Seq<char>, d: Seq<u8>, s: u64|
            (p matches Some(q) ==> q.len() == 32) ==> bytes@ != #[trigger] hidden_block_encoding(t, p, x, d, s),
        r matches Some(y) ==> forall|t: u32, p: Option<Seq<u8>>, x: Seq<char>, d: Seq<u8>, s: u64|
            (p matches Some(q) ==> q.len() == 32) && bytes@ == #[trigger] hidden_block_encoding(t, p, x, d, s) ==> y == t,
{
    bincode::deserialize::<u32>(bytes).ok()
}

/// `bincode::deserialize::<(u32, [u8; 32])>(bytes)`, `None` where it fails.
/// Trusted: the outcome depends on `bytes` alone, and a greeting reads back as
/// what was written.
#[verifier::external_body]
fn decode_hello(bytes: &[u8]) -> (r: Option<(u32, PublicKey)>)
    ensures
        match r {
            Some(x) => hello_decoding(bytes@) == Some((x.0, x.1@)),
            None => hello_decoding(bytes@) is None,
        },
        r is None ==> forall|t: u32, k: Seq<u8>| k.len() == 32 ==> bytes@ != #[trigger] hello_encoding(t, k),
        r matches Some(x) ==> forall|t: u32, k: Seq<u8>| k.len() == 32 && bytes@ == #[trigger] hello_encoding(t, k)
            ==> x.0 == t && x.1@ == k,
{
    match bincode::deserialize::<(u32, [u8; 32])>(bytes) {
        Ok((t, k)) => Some((t, PublicKey(k))),
        Err(_) => None,
    }
}

/// `bincode::deserialize::<(u32, Option<[u8; 32]>, String, Vec<u8>, u64)>(bytes)`,
/// `None` where it fails. Trusted: the outcome depends on `bytes` alone, and a
/// hidden block reads back as what was written.
#[verifier::external_body]
fn decode_hidden_block(bytes: &[u8]) -> (r: Option<(u32, LcBlock)>)
    ensures
        match r {
            Some(x) => hidden_block_decoding(bytes@) == Some((x.0, opt_bytes(x.1.parent), x.1.payload.0@, x.1.payload.1@, x.1.slot)),
            None => hidden_block_decoding(bytes@) is None,
        },
        r is None ==> forall|t: u32, p: Option<Seq<u8>>, x: Seq<char>, d: Seq<u8>, s: u64|
            (p matches Some(q) ==> q.len() == 32) ==> bytes@ != #[trigger] hidden_block_encoding(t, p, x, d, s),
        r matches Some(y) ==> forall|t: u32, p: Option<Seq<u8>>, x: Seq<char>, d: Seq<u8>, s: u64|
            (p matches Some(q) ==> q.len() == 32) && bytes@ == #[trigger] hidden_block_encoding(t, p, x, d, s)
            ==> (y.0 == t && opt_bytes(y.1.parent) == p && y.1.payload.0@ == x
                && y.1.payload.1@ == d && y.1.slot == s),
{
    match bincode::deserialize::<(u32, Option<[u8; 32]>, String, Vec<u8>, u64)>(bytes) {
        Ok((t, p, x, d, s)) => Some((t, LcBlock { parent: p.map(|a| Digest(a)), payload: LcBlockPayload(x, d), slot: s })),
        Err(_) => None,
    }
}

/// A message among adversarial nodes.
#[derive(Clone, Debug)]
pub enum AdversarialGossipMsg {
    /// An adversarial node introduces itself.
    Hello(PublicKey),
    /// A block mined by an adversarial node and kept from honest nodes.
    HiddenLcBlock(LcBlock),
}

/// The mathematical value of a message.
pub enum AdversarialGossipMsgView {
    Hello(Seq<u8>),
    HiddenLcBlock(LcBlockView),
}

impl View for AdversarialGossipMsg {
    type V = AdversarialGossipMsgView;

    open spec fn view(&self) -> AdversarialGossipMsgView {
        match self {
            AdversarialGossipMsg::Hello(k) => AdversarialGossipMsgView::Hello(k@),
            AdversarialGossipMsg::HiddenLcBlock(b) => AdversarialGossipMsgView::HiddenLcBlock(b@),
        }
    }
}

/// The keys and digests in the message have 32 bytes.
pub open spec fn msg_well_sized(m: AdversarialGossipMsgView) -> bool {
    match m {
        AdversarialGossipMsgView::Hello(k) => k.len() == 32,
        AdversarialGossipMsgView::HiddenLcBlock(b) => b.parent matches Some(q) ==> q.len() == 32,
    }
}

/// The bytes of a message.
pub open spec fn msg_bytes(m: AdversarialGossipMsgView) -> Seq<u8> {
    match m {
        AdversarialGossipMsgView::Hello(k) => hello_encoding(0, k),
        AdversarialGossipMsgView::HiddenLcBlock(b) => hidden_block_encoding(1, b.parent, b.text, b.data, b.slot),
    }
}

/// The message, if any, that `bytes` encode.
pub open spec fn msg_from_bytes(bytes: Seq<u8>) -> Option<AdversarialGossipMsgView> {
    match tag_decoding(bytes) {
        Some(0u32) => match hello_decoding(bytes) {
            Some(x) => Some(AdversarialGossipMsgView::Hello(x.1)),
            None => None,
        },
        Some(1u32) => match hidden_block_decoding(bytes) {
            Some(x) => Some(AdversarialGossipMsgView::HiddenLcBlock(LcBlockView { parent: x.1, text: x.2, data: x.3, slot: x.4 })),
            None => None,
        },
        _ => None,
    }
}

impl AdversarialGossipMsg {
    /// The bytes of the message.
    pub fn to_bytes(&self) -> (out: Vec<u8>)
        ensures
            out@ == msg_bytes(self@),
    {
        match self {
            AdversarialGossipMsg::Hello(k) => encode_hello(0, k),
            AdversarialGossipMsg::HiddenLcBlock(b) => encode_hidden_block(1, b),
        }
    }

    /// The message that `bytes` encode, if any. The bytes of a message read
    /// back as that message.
    pub fn from_bytes(bytes: &[u8]) -> (r: Option<AdversarialGossipMsg>)
        ensures
            match r {
                Some(m) => msg_from_bytes(bytes@) == Some(m@),
                None => msg_from_bytes(bytes@) is None,
            },
            forall|m: AdversarialGossipMsgView| msg_well_sized(m) && bytes@ == #[trigger] msg_bytes(m)
                ==> (r matches Some(x) && x@ == m),
    {
        let r = match decode_tag(bytes) {
            Some(0u32) => match decode_hello(bytes) {
                Some((_, k)) => Some(AdversarialGossipMsg::Hello(k)),
                None => None,
            },
            Some(1u32) => match decode_hidden_block(bytes) {
                Some((_, b)) => Some(AdversarialGossipMsg::HiddenLcBlock(b)),
                None => None,
            },
            _ => None,
        };
        proof {
            assert forall|m: AdversarialGossipMsgView| msg_well_sized(m) && bytes@ == #[trigger] msg_bytes(m)
                implies (r matches Some(x) && x@ == m) by {
                match m {
                    AdversarialGossipMsgView::Hello(k) => {
                        assert(bytes@ == hello_encoding(0, k));
                    },
                    AdversarialGossipMsgView::HiddenLcBlock(b) => {
                        assert(bytes@ == hidden_block_encoding(1, b.parent, b.text, b.data, b.slot));
                    },
                }
            }
        }
        r
    }

    /// The digest of the message: the digest of its bytes.
    pub fn digest(&self) -> (d: Digest)
        ensures
            d@ == digest_of_bytes(msg_bytes(self@)),
    {
        let bytes = self.to_bytes();
        digest_bytes(bytes.as_slice())
    }
}

} // verus!
