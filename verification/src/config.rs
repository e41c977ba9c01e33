use vstd::prelude::*;
use crate::types::PublicKey;
use crate::gossip::GossipSwarm;

verus! {

/// The stake of an authority.
pub type Stake = u32;

/// The number of an epoch.
pub type EpochNumber = u128;

/// A member of the checkpointing committee.
#[derive(Clone, Copy, Debug)]
pub struct Authority {
    pub name: PublicKey,
    pub stake: Stake,
}

/// The stake that the last entry for `name` in `info` gives, if any.
pub open spec fn last_stake(info: Seq<(Seq<u8>, u32)>, name: Seq<u8>) -> Option<u32>
    decreases info.len(),
{
    if info.len() == 0 {
        None
    } else if info.last().0 == name {
        Some(info.last().1)
    } else {
        last_stake(info.drop_last(), name)
    }
}

/// The stake of `name` among members with distinct names, 0 for a non-member.
pub open spec fn member_stake(m: Seq<(Seq<u8>, u32)>, name: Seq<u8>) -> u32 {
    match last_stake(m, name) {
        Some(s) => s,
        None => 0,
    }
}

/// The sum of the stakes of the members.
pub open spec fn total_stake(m: Seq<(Seq<u8>, u32)>) -> int
    decreases m.len(),
{
    if m.len() == 0 {
        0
    } else {
        total_stake(m.drop_last()) + m.last().1
    }
}

/// The names of the members.
pub open spec fn member_names(m: Seq<(Seq<u8>, u32)>) -> Set<Seq<u8>> {
    Set::new(|n: Seq<u8>| exists|i: int| 0 <= i < m.len() && m[i].0 == n)
}

/// No name occurs twice.
pub open spec fn distinct_names(m: Seq<(Seq<u8>, u32)>) -> bool {
    forall|i: int, j: int| 0 <= i < j < m.len() ==> m[i].0 != m[j].0
}

/// The view of a list of (name, stake) entries.
pub open spec fn entries_view(info: Seq<(PublicKey, Stake)>) -> Seq<(Seq<u8>, u32)> {
    info.map_values(|e: (PublicKey, Stake)| (e.0@, e.1))
}

/// A name is among the members exactly when some entry names it.
pub proof fn lemma_last_stake_member(m: Seq<(Seq<u8>, u32)>, name: Seq<u8>)
    ensures
        (last_stake(m, name) is Some) == member_names(m).contains(name),
        last_stake(m, name) matches Some(s) ==> exists|i: int| 0 <= i < m.len() && m[i] == (name, s),
    decreases m.len(),
{
    if m.len() > 0 {
        lemma_last_stake_member(m.drop_last(), name);
        if m.last().0 != name {
            if member_names(m).contains(name) {
                let i = choose|i: int| 0 <= i < m.len() && m[i].0 == name;
                assert(m.drop_last()[i] == m[i]);
            }
            if let Some(s) = last_stake(m.drop_last(), name) {
                let i = choose|i: int| 0 <= i < m.drop_last().len() && m.drop_last()[i] == (name, s);
                assert(m[i] == m.drop_last()[i]);
            }
        } else {
            assert(m[m.len() - 1].0 == name);
        }
    }
}

/// Among distinct names, the stake of a member is the stake of its entry.
pub proof fn lemma_last_stake_distinct(m: Seq<(Seq<u8>, u32)>, k: int)
    requires
        distinct_names(m),
        0 <= k < m.len(),
    ensures
        last_stake(m, m[k].0) == Some(m[k].1),
    decreases m.len(),
{
    if k < m.len() - 1 {
        assert(m.drop_last()[k] == m[k]);
        lemma_last_stake_distinct(m.drop_last(), k);
    }
}

/// Changing the stake of entry `j` changes the stake of no other name.
pub proof fn lemma_last_stake_update(m: Seq<(Seq<u8>, u32)>, j: int, s: u32, n: Seq<u8>)
    requires
        0 <= j < m.len(),
        n != m[j].0,
    ensures
        last_stake(m.update(j, (m[j].0, s)), n) == last_stake(m, n),
    decreases m.len(),
{
    let u = m.update(j, (m[j].0, s));
    if j < m.len() - 1 {
        assert(m.drop_last()[j] == m[j]);
        lemma_last_stake_update(m.drop_last(), j, s, n);
        assert(u.drop_last() =~= m.drop_last().update(j, (m[j].0, s)));
        assert(u.last() == m.last());
    } else {
        assert(u.drop_last() =~= m.drop_last());
    }
}

/// The sum over a prefix is at most the sum over the whole.
pub proof fn lemma_total_stake_prefix(m: Seq<(Seq<u8>, u32)>, i: int)
    requires
        0 <= i <= m.len(),
    ensures
        0 <= total_stake(m.take(i)) <= total_stake(m),
    decreases m.len(),
{
    if i < m.len() {
        lemma_total_stake_prefix(m.drop_last(), i);
        assert(m.drop_last().take(i) =~= m.take(i));
    } else {
        assert(m.take(i) =~= m);
        if m.len() > 0 {
            lemma_total_stake_prefix(m.drop_last(), i - 1);
            assert(m.drop_last().take(i - 1) =~= m.drop_last());
        }
    }
}

/// The set of keys that a sequence holds.
pub open spec fn key_set(s: Seq<PublicKey>) -> Set<Seq<u8>> {
    Set::new(|x: Seq<u8>| exists|i: int| 0 <= i < s.len() && s[i]@ == x)
}

/// `s` is sorted in strictly increasing byte-wise order.
pub open spec fn strictly_sorted(s: Seq<PublicKey>) -> bool {
    forall|i: int, j: int| 0 <= i < j < s.len() ==> crate::types::bytes_lt(s[i]@, s[j]@)
}

/// The position of the authority named `name`, if any.
fn position_of(v: &Vec<Authority>, name: &PublicKey) -> (r: Option<usize>)
    ensures
        match r {
            Some(j) => j < v.len() && v@[j as int].name@ == name@,
            None => forall|k: int| 0 <= k < v.len() ==> v@[k].name@ != name@,
        },
{
    let mut j: usize = 0;
    while j < v.len()
        invariant
            0 <= j <= v.len(),
            forall|k: int| 0 <= k < j ==> v@[k].name@ != name@,
        decreases v.len() - j,
    {
        if v[j].name == *name {
            return Some(j);
        }
        j = j + 1;
    }
    None
}

/// Inserts `a`, which is not there yet, into a strictly sorted sequence.
fn insert_sorted(v: &mut Vec<PublicKey>, a: PublicKey)
    requires
        strictly_sorted(old(v)@),
        forall|k: int| 0 <= k < old(v)@.len() ==> old(v)@[k]@ != a@,
    ensures
        strictly_sorted(final(v)@),
        final(v)@.len() == old(v)@.len() + 1,
        key_set(final(v)@) == key_set(old(v)@).insert(a@),
{
    let ghost s0 = v@;
    let mut j: usize = 0;
    while j < v.len() && v[j].lt(&a)
        invariant
            v@ == s0,
            0 <= j <= v.len(),
            forall|k: int| 0 <= k < j ==> crate::types::bytes_lt(v@[k]@, a@),
        decreases v.len() - j,
    {
        j = j + 1;
    }
    proof {
        assert forall|k: int| j <= k < s0.len() implies crate::types::bytes_lt(a@, s0[k]@) by {
            crate::types::lemma_bytes_lt_total(a@, s0[j as int]@);
            if k > j {
                crate::types::lemma_bytes_lt_transitive(a@, s0[j as int]@, s0[k]@);
            }
        }
    }
    v.insert(j, a);
    proof {
        assert(v@ =~= s0.subrange(0, j as int).push(a) + s0.subrange(j as int, s0.len() as int));
        assert forall|p: int, q: int| 0 <= p < q < v@.len() implies crate::types::bytes_lt(v@[p]@, v@[q]@) by {
            if q < j {
            } else if q == j {
            } else if p == j {
                assert(v@[q] == s0[q - 1]);
            } else if p < j {
                assert(v@[q] == s0[q - 1]);
                crate::types::lemma_bytes_lt_transitive(v@[p]@, a@, v@[q]@);
            } else {
                assert(v@[q] == s0[q - 1]);
                assert(v@[p] == s0[p - 1]);
            }
        }
        assert forall|n: Seq<u8>| key_set(s0).insert(a@).contains(n) <==> key_set(v@).contains(n) by {
            if n == a@ {
                assert(v@[j as int]@ == n);
            }
            if exists|k: int| 0 <= k < s0.len() && s0[k]@ == n {
                let k = choose|k: int| 0 <= k < s0.len() && s0[k]@ == n;
                if k < j {
                    assert(v@[k] == s0[k]);
                } else {
                    assert(v@[k + 1] == s0[k]);
                }
            }
            if exists|k: int| 0 <= k < v@.len() && #[trigger] v@[k]@ == n {
                let k = choose|k: int| 0 <= k < v@.len() && #[trigger] v@[k]@ == n;
                if k < j {
                    assert(v@[k] == s0[k]);
                } else if k > j {
                    assert(v@[k] == s0[k - 1]);
                }
            }
        }
        assert(key_set(v@) =~= key_set(s0).insert(a@));
    }
}

/// The committee that checkpoints the longest chain.
#[derive(Debug)]
pub struct CheckpointCommittee {
    authorities: Vec<Authority>,
    epoch: EpochNumber,
}

/// The mathematical value of a committee.
pub struct CommitteeView {
    /// The members, each with its stake.
    pub members: Seq<(Seq<u8>, u32)>,
    pub epoch: u128,
}

impl View for CheckpointCommittee {
    type V = CommitteeView;

    closed spec fn view(&self) -> CommitteeView {
        CommitteeView {
            members: self.authorities@.map_values(|a: Authority| (a.name@, a.stake)),
            epoch: self.epoch,
        }
    }
}

impl Clone for CheckpointCommittee {
    /// A copy of the committee.
    fn clone(&self) -> (r: Self)
        ensures
            r@ == self@,
    {
        proof {
            use_type_invariant(self);
        }
        let mut authorities: Vec<Authority> = Vec::new();
        let mut i: usize = 0;
        while i < self.authorities.len()
            invariant
                0 <= i <= self.authorities.len(),
                authorities@ == self.authorities@.take(i as int),
            decreases self.authorities.len() - i,
        {
            authorities.push(self.authorities[i]);
            proof {
                assert(self.authorities@.take(i + 1) =~= self.authorities@.take(i as int).push(self.authorities@[i as int]));
            }
            i = i + 1;
        }
        proof {
            assert(self.authorities@.take(i as int) =~= self.authorities@);
        }
        CheckpointCommittee { authorities, epoch: self.epoch }
    }
}

impl CheckpointCommittee {
    /// No name occurs twice among the members.
    #[verifier::type_invariant]
    pub open spec fn wf(&self) -> bool {
        distinct_names(self@.members)
    }

    /// The number of members.
    pub fn size(&self) -> (r: usize)
        ensures
            r == self@.members.len(),
    {
        self.authorities.len()
    }

    /// The epoch of the committee.
    pub fn epoch(&self) -> (r: EpochNumber)
        ensures
            r == self@.epoch,
    {
        self.epoch
    }

    /// The stake of `name`, 0 when it is not a member.
    pub fn stake(&self, name: &PublicKey) -> (r: Stake)
        ensures
            r == member_stake(self@.members, name@),
    {
        proof {
            use_type_invariant(self);
        }
        match position_of(&self.authorities, name) {
            Some(j) => {
                proof {
                    lemma_last_stake_distinct(self@.members, j as int);
                }
                self.authorities[j].stake
            },
            None => {
                proof {
                    lemma_last_stake_member(self@.members, name@);
                    if member_names(self@.members).contains(name@) {
                        let k = choose|k: int| 0 <= k < self@.members.len() && self@.members[k].0 == name@;
                        assert(self.authorities@[k].name@ == name@);
                    }
                }
                0
            },
        }
    }

    /// The stake needed for a quorum: more than two thirds of the total stake.
    pub fn quorum_threshold(&self) -> (r: Stake)
        requires
            2 * total_stake(self@.members) <= u32::MAX,
        ensures
            r == 2 * total_stake(self@.members) / 3 + 1,
    {
        let ghost m = self@.members;
        let mut total: u32 = 0;
        let mut i: usize = 0;
        while i < self.authorities.len()
            invariant
                m == self@.members,
                2 * total_stake(m) <= u32::MAX,
                0 <= i <= self.authorities.len(),
                total == total_stake(m.take(i as int)),
            decreases self.authorities.len() - i,
        {
            proof {
                assert(m.take(i + 1).drop_last() =~= m.take(i as int));
                lemma_total_stake_prefix(m, i + 1);
            }
            total = total + self.authorities[i].stake;
            i = i + 1;
        }
        proof {
            assert(m.take(i as int) =~= m);
        }
        2 * total / 3 + 1
    }

    /// The names of the members in increasing byte-wise order.
    pub fn sorted_names(&self) -> (r: Vec<PublicKey>)
        ensures
            r@.len() == self@.members.len(),
            strictly_sorted(r@),
            key_set(r@) == member_names(self@.members),
    {
        proof {
            use_type_invariant(self);
        }
        let mut out: Vec<PublicKey> = Vec::new();
        let mut i: usize = 0;
        while i < self.authorities.len()
            invariant
                self.wf(),
                0 <= i <= self.authorities.len(),
                strictly_sorted(out@),
                out@.len() == i,
                key_set(out@) == member_names(self@.members.take(i as int)),
            decreases self.authorities.len() - i,
        {
            let a = self.authorities[i].name;
            proof {
                assert(self@.members[i as int].0 == a@);
                assert forall|k: int| 0 <= k < out@.len() implies out@[k]@ != a@ by {
                    if out@[k]@ == a@ {
                        assert(key_set(out@).contains(a@));
                        let k2 = choose|k2: int| 0 <= k2 < self@.members.take(i as int).len()
                            && self@.members.take(i as int)[k2].0 == a@;
                        assert(self@.members[k2].0 == a@);
                    }
                }
            }
            insert_sorted(&mut out, a);
            proof {
                let t0 = self@.members.take(i as int);
                let t1 = self@.members.take(i + 1);
                assert forall|n: Seq<u8>| member_names(t1).contains(n) <==> member_names(t0).insert(a@).contains(n) by {
                    if member_names(t1).contains(n) {
                        let k = choose|k: int| 0 <= k < t1.len() && t1[k].0 == n;
                        if k < i {
                            assert(t0[k] == t1[k]);
                        }
                    }
                    if member_names(t0).contains(n) {
                        let k = choose|k: int| 0 <= k < t0.len() && t0[k].0 == n;
                        assert(t1[k] == t0[k]);
                    }
                    if n == a@ {
                        assert(t1[i as int].0 == a@);
                    }
                }
                assert(member_names(t1) =~= member_names(t0).insert(a@));
            }
            i = i + 1;
        }
        proof {
            assert(self@.members.take(i as int) =~= self@.members);
        }
        out
    }

    /// The committee of the listed authorities; where a name is listed twice,
    /// the last stake listed for it counts.
    pub fn new(info: Vec<(PublicKey, Stake)>, epoch: EpochNumber) -> (c: CheckpointCommittee)
        ensures
            c.wf(),
            c@.epoch == epoch,
            member_names(c@.members) == member_names(entries_view(info@)),
            forall|n: Seq<u8>| #[trigger] member_stake(c@.members, n) == member_stake(entries_view(info@), n),
    {
        let mut authorities: Vec<Authority> = Vec::new();
        let mut i: usize = 0;
        while i < info.len()
            invariant
                0 <= i <= info.len(),
                distinct_names(authorities@.map_values(|a: Authority| (a.name@, a.stake))),
                member_names(authorities@.map_values(|a: Authority| (a.name@, a.stake)))
                    == member_names(entries_view(info@.take(i as int))),
                forall|n: Seq<u8>| last_stake(authorities@.map_values(|a: Authority| (a.name@, a.stake)), n)
                    == last_stake(entries_view(info@.take(i as int)), n),
            decreases info.len() - i,
        {
            let (name, stake) = info[i];
            let ghost before = authorities@.map_values(|a: Authority| (a.name@, a.stake));
            let ghost prefix = entries_view(info@.take(i as int));
            let ghost next = entries_view(info@.take(i + 1));
            assert(info@[i as int] == (name, stake));
            proof {
                assert(next =~= prefix.push((name@, stake)));
                assert(next.drop_last() =~= prefix);
            }
            match position_of(&authorities, &name) {
                Some(j) => {
                    authorities.set(j, Authority { name, stake });
                    proof {
                        let after = authorities@.map_values(|a: Authority| (a.name@, a.stake));
                        assert(before[j as int].0 == name@);
                        assert(after =~= before.update(j as int, (before[j as int].0, stake)));
                        assert forall|a: int, b: int| 0 <= a < b < after.len() implies after[a].0 != after[b].0 by {
                            assert(after[a].0 == before[a].0);
                            assert(after[b].0 == before[b].0);
                        }
                        lemma_last_stake_distinct(after, j as int);
                        assert forall|n: Seq<u8>| last_stake(after, n) == last_stake(next, n) by {
                            if n != name@ {
                                lemma_last_stake_update(before, j as int, stake, n);
                                assert(last_stake(after, n) == last_stake(before, n));
                                assert(last_stake(before, n) == last_stake(prefix, n));
                                assert(last_stake(next, n) == last_stake(next.drop_last(), n));
                            }
                        }
                        lemma_last_stake_member(before, name@);
                        lemma_last_stake_member(prefix, name@);
                        assert forall|n: Seq<u8>| #[trigger] member_names(after).contains(n)
                            <==> member_names(next).contains(n) by {
                            lemma_last_stake_member(after, n);
                            lemma_last_stake_member(before, n);
                            lemma_last_stake_member(next, n);
                            lemma_last_stake_member(prefix, n);
                        }
                        assert(member_names(after) =~= member_names(next));
                    }
                },
                None => {
                    authorities.push(Authority { name, stake });
                    proof {
                        let after = authorities@.map_values(|a: Authority| (a.name@, a.stake));
                        assert(after =~= before.push((name@, stake)));
                        assert(after.drop_last() =~= before);
                        assert forall|n: Seq<u8>| #[trigger] member_names(after).contains(n)
                            <==> member_names(next).contains(n) by {
                            lemma_last_stake_member(after, n);
                            lemma_last_stake_member(before, n);
                            lemma_last_stake_member(next, n);
                            lemma_last_stake_member(prefix, n);
                        }
                        assert(member_names(after) =~= member_names(next));
                        assert forall|n: Seq<u8>| last_stake(after, n) == last_stake(next, n) by {
                            assert(last_stake(after, n) == if n == name@ { Some(stake) } else { last_stake(before, n) });
                            assert(last_stake(before, n) == last_stake(prefix, n));
                            assert(last_stake(next, n) == if n == name@ { Some(stake) } else { last_stake(prefix, n) });
                        }
                        assert forall|a: int, b: int| 0 <= a < b < after.len() implies after[a].0 != after[b].0 by {
                            if b == before.len() {
                                assert(after[a] == before[a]);
                            }
                        }
                    }
                },
            }
            i = i + 1;
        }
        assert(info@.take(info.len() as int) =~= info@);
        CheckpointCommittee { authorities, epoch }
    }
}

/// The parameters of the checkpointing protocol and of the longest chain.
#[derive(Clone, Copy, Debug)]
pub struct CheckpointParameters {
    /// How deep below the leading tip a proposal lies.
    pub propose_k_deep: usize,
    /// Milliseconds to wait after a checkpoint before the next iteration.
    pub propose_inter_checkpoint_delay: u64,
    /// Milliseconds that an iteration waits for a proposal to act on.
    pub propose_timeout: u64,
    /// Milliseconds of a mining slot.
    pub lcmine_slot: u64,
    /// Milliseconds by which mining is offset into a slot.
    pub lcmine_slot_offset: u64,
    /// How deep below the leading tip the available ledger ends.
    pub lctree_logava_k_deep: usize,
}

impl Default for CheckpointParameters {
    fn default() -> (p: CheckpointParameters)
        ensures
            p.propose_k_deep == 5,
            p.propose_inter_checkpoint_delay == 300_000,
            p.propose_timeout == 60_000,
            p.lcmine_slot == 12_000,
            p.lcmine_slot_offset == 500,
            p.lctree_logava_k_deep == 6,
    {
        CheckpointParameters {
            propose_k_deep: 5,
            propose_inter_checkpoint_delay: 300_000,
            propose_timeout: 60_000,
            lcmine_slot: 12_000,
            lcmine_slot_offset: 500,
            lctree_logava_k_deep: 6,
        }
    }
}

/// The parameters of a node that concern checkpointing.
#[derive(Clone, Copy, Debug)]
pub struct Parameters {
    pub checkpoint: CheckpointParameters,
}

impl Default for Parameters {
    fn default() -> (p: Parameters)
        ensures
            p.checkpoint.propose_k_deep == 5,
            p.checkpoint.propose_inter_checkpoint_delay == 300_000,
            p.checkpoint.propose_timeout == 60_000,
            p.checkpoint.lcmine_slot == 12_000,
            p.checkpoint.lcmine_slot_offset == 500,
            p.checkpoint.lctree_logava_k_deep == 6,
    {
        Parameters { checkpoint: CheckpointParameters::default() }
    }
}

/// With a total stake of N = 3f + 1 + k (0 <= k < 3), the quorum threshold
/// 2N/3 + 1 is N - f: all the stake but what f faulty units can hold.
pub proof fn lemma_quorum_is_all_but_f(n: int)
    requires
        n >= 1,
    ensures
        2 * n / 3 + 1 == n - (n - 1) / 3,
{
    let f = (n - 1) / 3;
    let k = (n - 1) % 3;
    assert(n == 3 * f + 1 + k);
    assert(2 * n == 3 * (2 * f) + 2 + 2 * k);
    if k == 0 {
        assert(2 * n / 3 == 2 * f);
    } else if k == 1 {
        assert(2 * n / 3 == 2 * f + 1);
    } else {
        assert(2 * n / 3 == 2 * f + 2);
    }
}

/// The committees of a node that concern checkpointing and gossip.
#[derive(Debug)]
pub struct Committee {
    pub checkpoint: CheckpointCommittee,
    pub gossip: GossipSwarm,
}

} // verus!
