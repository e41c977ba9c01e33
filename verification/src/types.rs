use vstd::prelude::*;

verus! {

/// Lexicographic order on byte sequences: `a` comes strictly before `b`.
pub open spec fn bytes_lt(a: Seq<u8>, b: Seq<u8>) -> bool
    decreases a.len(),
{
    if a.len() == 0 || b.len() == 0 {
        a.len() == 0 && b.len() != 0
    } else if a[0] != b[0] {
        a[0] < b[0]
    } else {
        bytes_lt(a.drop_first(), b.drop_first())
    }
}

/// Byte-wise equality of two arrays, computed element by element.
fn bytes32_eq(a: &[u8; 32], b: &[u8; 32]) -> (r: bool)
    ensures r == (a@ == b@),
{
    let mut i: usize = 0;
    while i < 32
        invariant
            0 <= i <= 32,
            a@.len() == 32,
            b@.len() == 32,
            forall|j: int| 0 <= j < i ==> a@[j] == b@[j],
        decreases 32 - i,
    {
        if a[i] != b[i] {
            return false;
        }
        i = i + 1;
    }
    assert(a@ =~= b@);
    true
}

/// `bytes_lt` never holds of a sequence and itself.
pub proof fn lemma_bytes_lt_irreflexive(a: Seq<u8>)
    ensures
        !bytes_lt(a, a),
    decreases a.len(),
{
    if a.len() > 0 {
        lemma_bytes_lt_irreflexive(a.drop_first());
    }
}

/// Of two different sequences of one length, exactly one comes before the other.
pub proof fn lemma_bytes_lt_total(a: Seq<u8>, b: Seq<u8>)
    requires
        a.len() == b.len(),
    ensures
        a != b ==> (bytes_lt(a, b) || bytes_lt(b, a)),
        !(bytes_lt(a, b) && bytes_lt(b, a)),
    decreases a.len(),
{
    if a.len() > 0 && a[0] == b[0] {
        lemma_bytes_lt_total(a.drop_first(), b.drop_first());
        if a != b {
            assert(a =~= seq![a[0]] + a.drop_first());
            assert(b =~= seq![b[0]] + b.drop_first());
        }
    } else if a.len() == 0 {
        assert(a =~= b);
    }
}

/// `bytes_lt` is transitive.
pub proof fn lemma_bytes_lt_transitive(a: Seq<u8>, b: Seq<u8>, c: Seq<u8>)
    requires
        bytes_lt(a, b),
        bytes_lt(b, c),
    ensures
        bytes_lt(a, c),
    decreases a.len(),
{
    if a.len() > 0 && b.len() > 0 && c.len() > 0 && a[0] == b[0] && b[0] == c[0] {
        lemma_bytes_lt_transitive(a.drop_first(), b.drop_first(), c.drop_first());
    }
}

/// Lexicographic comparison of two arrays: whether `a` comes strictly before `b`.
fn bytes32_lt(a: &[u8; 32], b: &[u8; 32]) -> (r: bool)
    ensures r == bytes_lt(a@, b@),
{
    let mut i: usize = 0;
    assert(a@.skip(0) =~= a@);
    assert(b@.skip(0) =~= b@);
    while i < 32
        invariant
            0 <= i <= 32,
            a@.len() == 32,
            b@.len() == 32,
            bytes_lt(a@, b@) == bytes_lt(a@.skip(i as int), b@.skip(i as int)),
        decreases 32 - i,
    {
        assert(a@.skip(i as int).drop_first() =~= a@.skip(i + 1));
        assert(b@.skip(i as int).drop_first() =~= b@.skip(i + 1));
        if a[i] != b[i] {
            return a[i] < b[i];
        }
        i = i + 1;
    }
    false
}

/// A 32-byte digest.
#[derive(Clone, Copy, Debug)]
pub struct Digest(pub [u8; 32]);

impl View for Digest {
    type V = Seq<u8>;

    open spec fn view(&self) -> Seq<u8> {
        self.0@
    }
}

impl PartialEq for Digest {
    fn eq(&self, other: &Digest) -> (r: bool) {
        bytes32_eq(&self.0, &other.0)
    }
}

impl Eq for Digest {}

impl Digest {
    /// Whether `self` comes strictly before `other` in the byte-wise order.
    pub fn lt(&self, other: &Digest) -> (r: bool)
        ensures r == bytes_lt(self@, other@),
    {
        bytes32_lt(&self.0, &other.0)
    }
}

impl vstd::std_specs::cmp::PartialEqSpecImpl for Digest {
    open spec fn obeys_eq_spec() -> bool {
        true
    }

    open spec fn eq_spec(&self, other: &Digest) -> bool {
        self@ == other@
    }
}

/// A 32-byte ed25519 public key naming an authority.
#[derive(Clone, Copy, Debug)]
pub struct PublicKey(pub [u8; 32]);

impl View for PublicKey {
    type V = Seq<u8>;

    open spec fn view(&self) -> Seq<u8> {
        self.0@
    }
}

impl PartialEq for PublicKey {
    fn eq(&self, other: &PublicKey) -> (r: bool) {
        bytes32_eq(&self.0, &other.0)
    }
}

impl Eq for PublicKey {}

impl PublicKey {
    /// Whether `self` comes strictly before `other` in the byte-wise order.
    pub fn lt(&self, other: &PublicKey) -> (r: bool)
        ensures r == bytes_lt(self@, other@),
    {
        bytes32_lt(&self.0, &other.0)
    }
}

impl vstd::std_specs::cmp::PartialEqSpecImpl for PublicKey {
    open spec fn obeys_eq_spec() -> bool {
        true
    }

    open spec fn eq_spec(&self, other: &PublicKey) -> bool {
        self@ == other@
    }
}

/// An ed25519 signature, held as its two 32-byte halves.
#[derive(Clone, Copy, Debug)]
pub struct Signature {
    pub part1: [u8; 32],
    pub part2: [u8; 32],
}

impl View for Signature {
    type V = Seq<u8>;

    /// The 64 bytes of the signature.
    open spec fn view(&self) -> Seq<u8> {
        self.part1@ + self.part2@
    }
}

impl Signature {
    /// The signature whose 64 bytes are all zero.
    pub fn zero() -> (s: Signature)
        ensures
            s@ == Seq::new(64, |i: int| 0u8),
    {
        let s = Signature { part1: [0u8; 32], part2: [0u8; 32] };
        assert(s@ =~= Seq::new(64, |i: int| 0u8));
        s
    }
}

/// An ed25519 keypair: the 32-byte secret followed by the 32-byte public key.
pub struct SecretKey(pub Vec<u8>);

impl View for SecretKey {
    type V = Seq<u8>;

    open spec fn view(&self) -> Seq<u8> {
        self.0@
    }
}

} // verus!
