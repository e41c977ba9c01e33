use vstd::prelude::*;
use rand::Rng as _;
use rand::SeedableRng as _;
use crate::types::PublicKey;
use crate::config::{CheckpointCommittee, strictly_sorted, key_set, member_names};

verus! {

/// The first `usize` that a `rand::rngs::StdRng` seeded with `seed` yields.
/// rand draws a `usize` as one `u64` on 64-bit targets and one `u32` on 32-bit
/// ones, so the value is fixed by the seed and the target's word size, as
/// `usize::MAX` is.
pub uninterp spec fn std_rng_first_usize(seed: u64) -> usize;

/// Seeds a `rand::rngs::StdRng` with `seed_from_u64` and draws one `usize`
/// with `gen`. Trusted: the value depends on the seed alone (the generator is
/// deterministic).
#[verifier::external_body]
pub(crate) fn first_usize_from_seed(seed: u64) -> (r: usize)
    ensures
        r == std_rng_first_usize(seed),
{
    let mut rng = rand::rngs::StdRng::seed_from_u64(seed);
    rng.gen::<usize>()
}

/// The number that the first `n` bytes of `s` spell in big-endian order.
pub open spec fn be_value(s: Seq<u8>, n: nat) -> int
    decreases n,
{
    if n == 0 {
        0
    } else {
        be_value(s, (n - 1) as nat) * 256 + s[n - 1]
    }
}

/// The powers of 256.
pub open spec fn pow256(n: nat) -> int
    decreases n,
{
    if n == 0 {
        1
    } else {
        pow256((n - 1) as nat) * 256
    }
}

/// The seed of a key: its first 8 bytes read as a big-endian number.
pub fn get_random_seed(p: &PublicKey) -> (r: u64)
    ensures
        r as int == be_value(p@, 8),
{
    let mut v: u64 = 0;
    let mut i: usize = 0;
    proof {
        lemma_pow256_mono(0, 8);
    }
    while i < 8
        invariant
            0 <= i <= 8,
            p@.len() == 32,
            v as int == be_value(p@, i as nat),
            0 <= v < pow256(i as nat),
            pow256(i as nat) <= pow256(8),
        decreases 8 - i,
    {
        proof {
            reveal_with_fuel(pow256, 9);
            assert(pow256(8) == 0x1_0000_0000_0000_0000);
            let b = p@[i as int] as int;
            let vi = v as int;
            let pw = pow256(i as nat);
            assert(pow256((i + 1) as nat) == pw * 256);
            assert(vi * 256 + b < pw * 256) by (nonlinear_arith)
                requires vi < pw, 0 <= b < 256;
            if i + 1 < 8 {
                assert(pow256((i + 1) as nat) <= pow256(8)) by {
                    lemma_pow256_mono((i + 1) as nat, 8);
                }
            }
        }
        v = v * 256 + p.0[i] as u64;
        i = i + 1;
    }
    v
}

/// The powers of 256 grow.
pub proof fn lemma_pow256_mono(a: nat, b: nat)
    requires
        a <= b,
    ensures
        0 < pow256(a) <= pow256(b),
    decreases b,
{
    if b > 0 {
        lemma_pow256_mono(if a < b { a } else { (b - 1) as nat }, (b - 1) as nat);
    }
}

/// Picks the leader of each checkpointing iteration pseudo-randomly among the
/// committee members.
pub struct RandomLeaderElector {
    committee: CheckpointCommittee,
    keys: Vec<PublicKey>,
    rng_seed: u64,
}

impl RandomLeaderElector {
    /// The committee members in increasing byte-wise order.
    pub closed spec fn keys(&self) -> Seq<PublicKey> {
        self.keys@
    }

    /// The seed of the generator.
    pub closed spec fn seed(&self) -> u64 {
        self.rng_seed
    }

    /// The seed of the generator.
    pub fn rng_seed(&self) -> (r: u64)
        ensures
            r == self.seed(),
    {
        self.rng_seed
    }

    /// The number of members.
    pub fn size(&self) -> (r: usize)
        ensures
            r == self.keys().len(),
    {
        self.keys.len()
    }

    /// The seed is drawn from the smallest member key.
    pub fn new(committee: CheckpointCommittee) -> (r: RandomLeaderElector)
        requires
            committee@.members.len() > 0,
        ensures
            strictly_sorted(r.keys()),
            key_set(r.keys()) == member_names(committee@.members),
            r.keys().len() == committee@.members.len(),
            r.seed() == (be_value(r.keys()[0]@, 8) as u64 ^ 0xdeadbeefdeadbeefu64),
    {
        let keys = committee.sorted_names();
        let rng_seed = get_random_seed(&keys[0]) ^ 0xdeadbeefdeadbeefu64;
        RandomLeaderElector { committee, keys, rng_seed }
    }

    /// The leader of iteration `i`: the member at the position that the
    /// generator seeded with the seed plus `i` picks.
    pub fn get_leader(&self, checkpoint_iteration: usize) -> (r: PublicKey)
        requires
            self.keys().len() > 0,
            self.seed() + checkpoint_iteration <= u64::MAX,
        ensures
            r == self.keys()[std_rng_first_usize((self.seed() + checkpoint_iteration) as u64) as int
                % self.keys().len() as int],
            key_set(self.keys()).contains(r@),
    {
        let x = first_usize_from_seed(self.rng_seed + checkpoint_iteration as u64);
        let leader_idx = x % self.keys.len();
        self.keys[leader_idx]
    }
}

/// Two strictly sorted sequences of keys with the same members hold the same
/// keys at every position.
pub proof fn lemma_sorted_keys_unique(s: Seq<PublicKey>, t: Seq<PublicKey>)
    requires
        strictly_sorted(s),
        strictly_sorted(t),
        key_set(s) == key_set(t),
    ensures
        s.len() == t.len(),
        forall|i: int| 0 <= i < s.len() ==> #[trigger] s[i]@ == t[i]@,
    decreases s.len(),
{
    if s.len() == 0 {
        if t.len() > 0 {
            assert(key_set(t).contains(t[0]@));
        }
    } else if t.len() == 0 {
        assert(key_set(s).contains(s[0]@));
    } else {
        assert(key_set(s).contains(s[0]@));
        assert(key_set(t).contains(t[0]@));
        if s[0]@ != t[0]@ {
            let j = choose|j: int| 0 <= j < t.len() && t[j]@ == s[0]@;
            let k = choose|k: int| 0 <= k < s.len() && s[k]@ == t[0]@;
            assert(j != 0 && k != 0);
            crate::types::lemma_bytes_lt_transitive(s[0]@, t[0]@, s[0]@);
            crate::types::lemma_bytes_lt_irreflexive(s[0]@);
        }
        let s2 = s.drop_first();
        let t2 = t.drop_first();
        assert forall|x: Seq<u8>| key_set(s2).contains(x) <==> key_set(t2).contains(x) by {
            if key_set(s2).contains(x) {
                let i = choose|i: int| 0 <= i < s2.len() && s2[i]@ == x;
                assert(s[i + 1]@ == x);
                assert(key_set(s).contains(x));
                let j = choose|j: int| 0 <= j < t.len() && t[j]@ == x;
                if j == 0 {
                    crate::types::lemma_bytes_lt_irreflexive(x);
                }
                assert(t2[j - 1]@ == x);
            }
            if key_set(t2).contains(x) {
                let i = choose|i: int| 0 <= i < t2.len() && t2[i]@ == x;
                assert(t[i + 1]@ == x);
                assert(key_set(t).contains(x));
                let j = choose|j: int| 0 <= j < s.len() && s[j]@ == x;
                if j == 0 {
                    crate::types::lemma_bytes_lt_irreflexive(x);
                }
                assert(s2[j - 1]@ == x);
            }
        }
        assert(key_set(s2) =~= key_set(t2));
        lemma_sorted_keys_unique(s2, t2);
        assert forall|i: int| 0 <= i < s.len() implies #[trigger] s[i]@ == t[i]@ by {
            if i > 0 {
                assert(s2[i - 1]@ == t2[i - 1]@);
            }
        }
    }
}

/// Electors made from committees with the same members hold the same keys in
/// the same order and the same seed, so `get_leader` names the same leader for
/// every iteration.
pub proof fn lemma_same_members_same_leader(c1: CheckpointCommittee, c2: CheckpointCommittee, e1: RandomLeaderElector, e2: RandomLeaderElector)
    requires
        member_names(c1@.members) == member_names(c2@.members),
        strictly_sorted(e1.keys()),
        key_set(e1.keys()) == member_names(c1@.members),
        e1.keys().len() > 0,
        e1.seed() == (be_value(e1.keys()[0]@, 8) as u64 ^ 0xdeadbeefdeadbeefu64),
        strictly_sorted(e2.keys()),
        key_set(e2.keys()) == member_names(c2@.members),
        e2.seed() == (be_value(e2.keys()[0]@, 8) as u64 ^ 0xdeadbeefdeadbeefu64),
    ensures
        e1.keys().len() == e2.keys().len(),
        forall|i: int| 0 <= i < e1.keys().len() ==> #[trigger] e1.keys()[i]@ == e2.keys()[i]@,
        e1.seed() == e2.seed(),
        forall|i: int| 0 <= i && e1.seed() + i <= u64::MAX ==>
            (#[trigger] e1.keys()[std_rng_first_usize((e1.seed() + i) as u64) as int % e1.keys().len() as int])@
            == e2.keys()[std_rng_first_usize((e2.seed() + i) as u64) as int % e2.keys().len() as int]@,
{
    lemma_sorted_keys_unique(e1.keys(), e2.keys());
    assert(e1.keys()[0]@ == e2.keys()[0]@);
    assert forall|i: int| 0 <= i && e1.seed() + i <= u64::MAX implies
        (#[trigger] e1.keys()[std_rng_first_usize((e1.seed() + i) as u64) as int % e1.keys().len() as int])@
        == e2.keys()[std_rng_first_usize((e2.seed() + i) as u64) as int % e2.keys().len() as int]@ by {
        let k = std_rng_first_usize((e1.seed() + i) as u64) as int % e1.keys().len() as int;
        assert(0 <= k < e1.keys().len());
    }
}

} // verus!
