use vstd::prelude::*;
use crate::types::{Digest, PublicKey};

verus! {

/// The standard base64 alphabet.
pub const BASE64_ALPHABET: [char; 64] = [
    'A', 'B', 'C', 'D', 'E', 'F', 'G', 'H', 'I', 'J', 'K', 'L', 'M', 'N', 'O', 'P',
    'Q', 'R', 'S', 'T', 'U', 'V', 'W', 'X', 'Y', 'Z', 'a', 'b', 'c', 'd', 'e', 'f',
    'g', 'h', 'i', 'j', 'k', 'l', 'm', 'n', 'o', 'p', 'q', 'r', 's', 't', 'u', 'v',
    'w', 'x', 'y', 'z', '0', '1', '2', '3', '4', '5', '6', '7', '8', '9', '+', '/',
];

/// The decimal digits.
pub const DECIMAL_DIGITS: [char; 10] = ['0', '1', '2', '3', '4', '5', '6', '7', '8', '9'];

/// The four base64 characters of the three bytes `a`, `b`, `c`.
pub open spec fn base64_group(a: u8, b: u8, c: u8) -> Seq<char> {
    let n = a as int * 65536 + b as int * 256 + c as int;
    seq![
        BASE64_ALPHABET@[n / 262144],
        BASE64_ALPHABET@[(n / 4096) % 64],
        BASE64_ALPHABET@[(n / 64) % 64],
        BASE64_ALPHABET@[n % 64],
    ]
}

/// The standard base64 encoding of the first `3 * groups` bytes of `s`.
pub open spec fn base64_prefix(s: Seq<u8>, groups: nat) -> Seq<char>
    decreases groups,
{
    if groups == 0 {
        Seq::empty()
    } else {
        let k = 3 * (groups - 1);
        base64_prefix(s, (groups - 1) as nat) + base64_group(s[k], s[k + 1], s[k + 2])
    }
}

/// The short text of a 32-byte value: the first 16 characters of its base64
/// encoding, which encode its first 12 bytes.
pub open spec fn short_text(s: Seq<u8>) -> Seq<char> {
    base64_prefix(s, 4)
}

/// The decimal text of `n`.
pub open spec fn decimal(n: nat) -> Seq<char>
    decreases n,
{
    if n < 10 {
        seq![DECIMAL_DIGITS@[n as int]]
    } else {
        decimal(n / 10).push(DECIMAL_DIGITS@[(n % 10) as int])
    }
}

/// Makes a `String` of the characters with `String::from_iter`. Trusted: the
/// string holds exactly these characters.
#[verifier::external_body]
pub(crate) fn string_from_chars(v: &Vec<char>) -> (r: String)
    ensures
        r@ == v@,
{
    v.iter().collect()
}

/// The short text of 32 bytes.
fn short_text_of(bytes: &[u8; 32]) -> (r: Vec<char>)
    ensures
        r@ == short_text(bytes@),
{
    let mut out: Vec<char> = Vec::new();
    let mut g: usize = 0;
    while g < 4
        invariant
            0 <= g <= 4,
            bytes@.len() == 32,
            out@ == base64_prefix(bytes@, g as nat),
        decreases 4 - g,
    {
        let a = bytes[3 * g];
        let b = bytes[3 * g + 1];
        let c = bytes[3 * g + 2];
        let n: u32 = a as u32 * 65536 + b as u32 * 256 + c as u32;
        proof {
            assert(n < 16777216);
            assert(n as int == a as int * 65536 + b as int * 256 + c as int);
        }
        out.push(BASE64_ALPHABET[(n / 262144) as usize]);
        out.push(BASE64_ALPHABET[((n / 4096) % 64) as usize]);
        out.push(BASE64_ALPHABET[((n / 64) % 64) as usize]);
        out.push(BASE64_ALPHABET[(n % 64) as usize]);
        proof {
            assert(out@ =~= base64_prefix(bytes@, g as nat) + base64_group(a, b, c));
            assert(3 * ((g + 1) - 1) == 3 * g);
        }
        g = g + 1;
    }
    out
}

/// The decimal text of `n`.
pub fn decimal_text(n: u64) -> (r: Vec<char>)
    ensures
        r@ == decimal(n as nat),
    decreases n,
{
    if n < 10 {
        let mut v: Vec<char> = Vec::new();
        v.push(DECIMAL_DIGITS[n as usize]);
        proof {
            assert(v@ =~= seq![DECIMAL_DIGITS@[n as int]]);
        }
        v
    } else {
        let mut v = decimal_text(n / 10);
        v.push(DECIMAL_DIGITS[(n % 10) as usize]);
        v
    }
}

impl PublicKey {
    /// The short text of the key: the first 16 characters of its base64 encoding.
    pub fn to_string(&self) -> (r: String)
        ensures
            r@ == short_text(self@),
    {
        string_from_chars(&short_text_of(&self.0))
    }

    /// The short text of the key, as characters.
    pub fn short_chars(&self) -> (r: Vec<char>)
        ensures
            r@ == short_text(self@),
    {
        short_text_of(&self.0)
    }
}

impl Digest {
    /// The short text of the digest: the first 16 characters of its base64
    /// encoding.
    pub fn to_string(&self) -> (r: String)
        ensures
            r@ == short_text(self@),
    {
        string_from_chars(&short_text_of(&self.0))
    }

    /// The short text of the digest, as characters.
    pub fn short_chars(&self) -> (r: Vec<char>)
        ensures
            r@ == short_text(self@),
    {
        short_text_of(&self.0)
    }
}

} // verus!
