use vstd::prelude::*;
use crate::types::Digest;
use crate::codec::{opt_bytes, block_encoding, block_decoding, encode_block_fields, decode_block_fields};
use crate::hashing::{digest_of_bytes, digest_bytes};

verus! {

/// The length of the filler data of a mined block.
pub const PAYLOAD_FILLER_LEN: usize = 22000;

/// The payload of a block of the longest chain: a text and filler data.
#[derive(Clone, Debug)]
pub struct LcBlockPayload(pub String, pub Vec<u8>);

impl LcBlockPayload {
    /// A payload with text `s` and 22000 zero bytes of filler.
    pub fn new(s: String) -> (p: LcBlockPayload)
        ensures
            p.0@ == s@,
            p.1@ == Seq::new(PAYLOAD_FILLER_LEN as nat, |i: int| 0u8),
    {
        let data: Vec<u8> = vec![0u8; PAYLOAD_FILLER_LEN];
        let p = LcBlockPayload(s, data);
        assert(p.1@ =~= Seq::new(PAYLOAD_FILLER_LEN as nat, |i: int| 0u8));
        p
    }
}

/// The mathematical value of a block.
pub struct LcBlockView {
    pub parent: Option<Seq<u8>>,
    pub text: Seq<char>,
    pub data: Seq<u8>,
    pub slot: u64,
}

/// A block of the longest chain.
#[derive(Clone, Debug)]
pub struct LcBlock {
    pub parent: Option<Digest>,
    pub payload: LcBlockPayload,
    pub slot: u64,
}

impl View for LcBlock {
    type V = LcBlockView;

    open spec fn view(&self) -> LcBlockView {
        LcBlockView {
            parent: opt_bytes(self.parent),
            text: self.payload.0@,
            data: self.payload.1@,
            slot: self.slot,
        }
    }
}

/// The bytes of a block: the bincode encoding of its fields.
pub open spec fn block_bytes(b: LcBlockView) -> Seq<u8> {
    block_encoding(b.parent, b.text, b.data, b.slot)
}

/// The digest of a block: the digest of its bytes.
pub open spec fn block_digest(b: LcBlockView) -> Seq<u8> {
    digest_of_bytes(block_bytes(b))
}

/// The genesis block: no parent, the text "Genesis", no data, slot 0.
pub open spec fn genesis_view() -> LcBlockView {
    LcBlockView { parent: None, text: "Genesis"@, data: Seq::empty(), slot: 0 }
}

/// A block is adversarial when its text ends with "[adv]".
pub open spec fn is_adversarial_view(b: LcBlockView) -> bool {
    &&& b.text.len() >= 5
    &&& b.text.subrange(b.text.len() - 5, b.text.len() as int) == "[adv]"@
}

/// The block that the fields decoded from `bytes` make, if any.
pub open spec fn block_from_bytes(bytes: Seq<u8>) -> Option<LcBlockView> {
    match block_decoding(bytes) {
        Some(x) => Some(LcBlockView { parent: x.0, text: x.1, data: x.2, slot: x.3 }),
        None => None,
    }
}

/// Bytes that do not decode as a block.
#[derive(Clone, Copy, Debug, PartialEq, Eq, Structural)]
pub enum CodecError {
    Malformed,
}

impl LcBlock {
    pub fn new(parent: Option<Digest>, payload: LcBlockPayload, slot: u64) -> (b: LcBlock)
        ensures
            b.parent == parent,
            b.payload.0@ == payload.0@,
            b.payload.1@ == payload.1@,
            b.slot == slot,
    {
        LcBlock { parent, payload, slot }
    }

    pub fn genesis() -> (b: LcBlock)
        ensures
            b@ == genesis_view(),
    {
        let text = String::from_str("Genesis");
        let b = LcBlock { parent: None, payload: LcBlockPayload(text, Vec::new()), slot: 0 };
        assert(b@.data =~= Seq::<u8>::empty());
        b
    }

    pub fn is_adversarial(&self) -> (r: bool)
        ensures
            r == is_adversarial_view(self@),
    {
        proof {
            reveal_strlit("[adv]");
        }
        let s = self.payload.0.as_str();
        let n = s.unicode_len();
        if n < 5 {
            return false;
        }
        let r = s.get_char(n - 5) == '[' && s.get_char(n - 4) == 'a' && s.get_char(n - 3) == 'd'
            && s.get_char(n - 2) == 'v' && s.get_char(n - 1) == ']';
        proof {
            let t = self@.text;
            if r {
                assert(t.subrange(t.len() - 5, t.len() as int) =~= "[adv]"@);
            } else if t.subrange(t.len() - 5, t.len() as int) == "[adv]"@ {
                assert(t.subrange(t.len() - 5, t.len() as int)[0] == t[t.len() - 5]);
                assert(t.subrange(t.len() - 5, t.len() as int)[1] == t[t.len() - 4]);
                assert(t.subrange(t.len() - 5, t.len() as int)[2] == t[t.len() - 3]);
                assert(t.subrange(t.len() - 5, t.len() as int)[3] == t[t.len() - 2]);
                assert(t.subrange(t.len() - 5, t.len() as int)[4] == t[t.len() - 1]);
            }
        }
        r
    }

    /// Whether the two blocks are equal, field by field.
    pub fn same_content(&self, other: &LcBlock) -> (r: bool)
        ensures
            r == (self@ == other@),
    {
        let same_parent = match (&self.parent, &other.parent) {
            (None, None) => true,
            (Some(a), Some(b)) => *a == *b,
            _ => false,
        };
        if !same_parent || self.slot != other.slot || !(self.payload.0 == other.payload.0) {
            return false;
        }
        let a = &self.payload.1;
        let b = &other.payload.1;
        if a.len() != b.len() {
            return false;
        }
        let mut i: usize = 0;
        while i < a.len()
            invariant
                0 <= i <= a.len(),
                a.len() == b.len(),
                a@ == self@.data,
                b@ == other@.data,
                forall|j: int| 0 <= j < i ==> a@[j] == b@[j],
            decreases a.len() - i,
        {
            if a[i] != b[i] {
                assert(self@.data[i as int] != other@.data[i as int]);
                return false;
            }
            i = i + 1;
        }
        assert(a@ =~= b@);
        true
    }

    /// A copy of the block.
    pub fn duplicate(&self) -> (b: LcBlock)
        ensures
            b@ == self@,
    {
        let data = self.payload.1.clone();
        assert(data@ =~= self.payload.1@);
        LcBlock { parent: self.parent, payload: LcBlockPayload(self.payload.0.clone(), data), slot: self.slot }
    }

    /// The bytes of the block.
    pub fn to_bytes(&self) -> (out: Vec<u8>)
        ensures
            out@ == block_bytes(self@),
    {
        encode_block_fields(&self.parent, &self.payload.0, &self.payload.1, self.slot)
    }

    /// The block that `bytes` encode. The bytes of a block decode as that block.
    pub fn from_bytes(bytes: &[u8]) -> (r: Result<LcBlock, CodecError>)
        ensures
            match r {
                Ok(b) => block_from_bytes(bytes@) == Some(b@),
                Err(_) => block_from_bytes(bytes@) is None,
            },
            forall|b: LcBlockView|
                (b.parent matches Some(q) ==> q.len() == 32) && bytes@ == #[trigger] block_bytes(b)
                    ==> (r matches Ok(x) && x@ == b),
    {
        match decode_block_fields(bytes) {
            Some((parent, text, data, slot)) => Ok(LcBlock { parent, payload: LcBlockPayload(text, data), slot }),
            None => Err(CodecError::Malformed),
        }
    }

    /// The digest of the block.
    pub fn digest(&self) -> (d: Digest)
        ensures
            d@ == block_digest(self@),
    {
        let bytes = self.to_bytes();
        digest_bytes(bytes.as_slice())
    }
}

} // verus!
