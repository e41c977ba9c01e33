use vstd::prelude::*;
use crate::types::PublicKey;
use crate::config::{CheckpointCommittee, strictly_sorted, key_set, member_names};
use crate::cpleader::{be_value, get_random_seed, first_usize_from_seed, std_rng_first_usize};

verus! {

/// The number of a consensus round.
pub type RoundNumber = u64;

/// Picks the leader of each consensus round pseudo-randomly among the
/// committee members.
pub struct RandomLeaderElector {
    committee: CheckpointCommittee,
    keys: Vec<PublicKey>,
    rng_seed: u64,
}

impl RandomLeaderElector {
    /// The committee members in increasing byte-wise order.
    pub closed spec fn keys(&self) -> Seq<PublicKey> {
        self.keys@
    }

    /// The seed of the generator.
    pub closed spec fn seed(&self) -> u64 {
        self.rng_seed
    }

    /// The seed is drawn from the second smallest member key.
    pub fn new(committee: CheckpointCommittee) -> (r: RandomLeaderElector)
        requires
            committee@.members.len() > 1,
        ensures
            strictly_sorted(r.keys()),
            key_set(r.keys()) == member_names(committee@.members),
            r.keys().len() == committee@.members.len(),
            r.seed() == (be_value(r.keys()[1]@, 8) as u64 ^ 0xbeefdeadbeefdeadu64),
    {
        let keys = committee.sorted_names();
        let rng_seed = get_random_seed(&keys[1]) ^ 0xbeefdeadbeefdeadu64;
        RandomLeaderElector { committee, keys, rng_seed }
    }

    /// The leader of `round`: the member at the position that the generator
    /// seeded with the seed plus the round picks.
    pub fn get_leader(&self, round: RoundNumber) -> (r: PublicKey)
        requires
            self.keys().len() > 0,
            self.seed() + round <= u64::MAX,
        ensures
            r == self.keys()[std_rng_first_usize((self.seed() + round) as u64) as int % self.keys().len() as int],
            key_set(self.keys()).contains(r@),
    {
        let x = first_usize_from_seed(self.rng_seed + round);
        let leader_idx = x % self.keys.len();
        self.keys[leader_idx]
    }
}

} // verus!
