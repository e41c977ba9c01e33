use vstd::prelude::*;
use crate::types::{Digest, PublicKey};
use crate::config::{CheckpointCommittee, member_stake, member_names, distinct_names, lemma_last_stake_member};
use crate::cpactions::{CheckpointAction, CheckpointTransaction, CheckpointTransactionView, tx_from_bytes, tx_signature_valid};
use crate::cpevents::CheckpointEvent;

verus! {

/// A vote of a member in an iteration.
#[derive(Clone, Copy, Debug)]
pub enum Vote {
    Reject,
    Accept(Digest),
}

/// The mathematical value of a vote: `None` for a rejection, the block for an
/// acceptance.
pub open spec fn vote_view(v: Vote) -> Option<Seq<u8>> {
    match v {
        Vote::Reject => None,
        Vote::Accept(d) => Some(d@),
    }
}

/// The votes after `author` votes `v`: its earlier vote, if any, is replaced.
pub open spec fn votes_after(s: Seq<(Seq<u8>, Option<Seq<u8>>)>, author: Seq<u8>, v: Option<Seq<u8>>) -> Seq<(Seq<u8>, Option<Seq<u8>>)> {
    if exists|k: int| 0 <= k < s.len() && s[k].0 == author {
        s.update(choose|k: int| 0 <= k < s.len() && s[k].0 == author, (author, v))
    } else {
        s.push((author, v))
    }
}

/// The number of votes equal to `v`.
pub open spec fn count_votes(s: Seq<(Seq<u8>, Option<Seq<u8>>)>, v: Option<Seq<u8>>) -> nat
    decreases s.len(),
{
    if s.len() == 0 {
        0
    } else {
        count_votes(s.drop_last(), v) + if s.last().1 == v { 1nat } else { 0nat }
    }
}

/// A vote that is counted occurs among the votes.
pub proof fn lemma_count_positive(s: Seq<(Seq<u8>, Option<Seq<u8>>)>, v: Option<Seq<u8>>)
    requires
        count_votes(s, v) > 0,
    ensures
        exists|j: int| 0 <= j < s.len() && s[j].1 == v,
    decreases s.len(),
{
    if s.last().1 != v {
        lemma_count_positive(s.drop_last(), v);
        let j = choose|j: int| 0 <= j < s.drop_last().len() && s.drop_last()[j].1 == v;
        assert(s[j] == s.drop_last()[j]);
    } else {
        assert(s[s.len() - 1].1 == v);
    }
}

/// Votes for two different values together are at most all votes.
pub proof fn lemma_count_two(s: Seq<(Seq<u8>, Option<Seq<u8>>)>, v1: Option<Seq<u8>>, v2: Option<Seq<u8>>)
    requires
        v1 != v2,
    ensures
        count_votes(s, v1) + count_votes(s, v2) <= s.len(),
    decreases s.len(),
{
    if s.len() > 0 {
        lemma_count_two(s.drop_last(), v1, v2);
    }
}

/// Safety of the decision: with no more votes than committee members, at
/// most one block has the acceptance of more than two thirds of the committee.
pub proof fn lemma_at_most_one_accepted_block(s: Seq<(Seq<u8>, Option<Seq<u8>>)>, n: nat, b1: Seq<u8>, b2: Seq<u8>)
    requires
        s.len() <= n,
        accept_quorum(s, n, b1),
        accept_quorum(s, n, b2),
    ensures
        b1 == b2,
{
    if b1 != b2 {
        lemma_count_two(s, Some(b1), Some(b2));
    }
}

/// Distinct voters who are all members are no more than the members.
pub proof fn lemma_voters_bounded(votes: Seq<(Seq<u8>, Option<Seq<u8>>)>, members: Seq<(Seq<u8>, u32)>)
    requires
        distinct_voters(votes),
        distinct_names(members),
        forall|j: int| 0 <= j < votes.len() ==> member_names(members).contains(#[trigger] votes[j].0),
    ensures
        votes.len() <= members.len(),
{
    let a = votes.map_values(|e: (Seq<u8>, Option<Seq<u8>>)| e.0);
    let b = members.map_values(|e: (Seq<u8>, u32)| e.0);
    assert(a.no_duplicates()) by {
        assert forall|i: int, j: int| 0 <= i < a.len() && 0 <= j < a.len() && i != j implies a[i] != a[j] by {
            if i < j {} else {}
        }
    }
    assert(b.no_duplicates()) by {
        assert forall|i: int, j: int| 0 <= i < b.len() && 0 <= j < b.len() && i != j implies b[i] != b[j] by {
            if i < j {} else {}
        }
    }
    a.unique_seq_to_set();
    b.unique_seq_to_set();
    assert forall|x: Seq<u8>| a.to_set().contains(x) implies b.to_set().contains(x) by {
        let j = choose|j: int| 0 <= j < a.len() && a[j] == x;
        assert(member_names(members).contains(votes[j].0));
        let k = choose|k: int| 0 <= k < members.len() && members[k].0 == x;
        assert(b[k] == x);
    }
    vstd::seq_lib::seq_to_set_is_finite(b);
    vstd::set_lib::lemma_len_subset(a.to_set(), b.to_set());
}

/// No author votes twice.
pub open spec fn distinct_voters(s: Seq<(Seq<u8>, Option<Seq<u8>>)>) -> bool {
    forall|i: int, j: int| 0 <= i < j < s.len() ==> s[i].0 != s[j].0
}

/// A block with the acceptance of more than two thirds of the committee.
pub open spec fn accept_quorum(s: Seq<(Seq<u8>, Option<Seq<u8>>)>, n: nat, b: Seq<u8>) -> bool {
    3 * count_votes(s, Some(b)) > 2 * n
}

/// Some block has the acceptance of more than two thirds of the committee.
pub open spec fn has_accept_quorum(s: Seq<(Seq<u8>, Option<Seq<u8>>)>, n: nat) -> bool {
    exists|b: Seq<u8>| #[trigger] accept_quorum(s, n, b)
}

/// At least a third of the committee rejects.
pub open spec fn reject_quorum(s: Seq<(Seq<u8>, Option<Seq<u8>>)>, n: nat) -> bool {
    3 * count_votes(s, None) >= n
}

/// The vote that a transaction casts in `iteration`, if any: an acceptance or
/// a rejection of that iteration.
pub open spec fn vote_of(t: CheckpointTransactionView, iteration: usize) -> Option<Option<Seq<u8>>> {
    if (t.action.0 == 1 || t.action.0 == 2) && t.action.1 == iteration {
        Some(t.action.2)
    } else {
        None
    }
}

/// One step of the extractor as the rest of the node sees it: no event and
/// the same iteration, or the decision of the current iteration and a fresh
/// next iteration with no votes.
pub open spec fn extractor_moves(a: ExtractorView, b: ExtractorView, r: Option<CheckpointEvent>) -> bool {
    match r {
        None => b.iteration == a.iteration,
        Some(CheckpointEvent::NewCheckpoint(j, _)) => j == a.iteration && b.iteration == a.iteration + 1
            && b.votes.len() == 0,
        Some(CheckpointEvent::NewProposal(_, _)) => false,
    }
}

/// The events among a run of outputs, in order.
pub open spec fn emitted(outs: Seq<Option<CheckpointEvent>>) -> Seq<CheckpointEvent>
    decreases outs.len(),
{
    if outs.len() == 0 {
        Seq::empty()
    } else {
        match outs.last() {
            Some(e) => emitted(outs.drop_last()).push(e),
            None => emitted(outs.drop_last()),
        }
    }
}

/// Over any run of the extractor, the events are decisions of the
/// iterations in order, one per iteration, starting at the first state's
/// iteration: no iteration is decided twice or skipped, and no proposal is
/// ever emitted.
pub proof fn lemma_decisions_in_order(states: Seq<ExtractorView>, outs: Seq<Option<CheckpointEvent>>)
    requires
        states.len() == outs.len() + 1,
        forall|k: int| 0 <= k < outs.len() ==> extractor_moves(states[k], states[k + 1], #[trigger] outs[k]),
    ensures
        states.last().iteration == states[0].iteration + emitted(outs).len(),
        forall|j: int| 0 <= j < emitted(outs).len() ==> ((#[trigger] emitted(outs)[j]) matches
            CheckpointEvent::NewCheckpoint(i, _) && i == states[0].iteration + j),
    decreases outs.len(),
{
    if outs.len() > 0 {
        let n = outs.len() - 1;
        let pre_s = states.drop_last();
        let pre_o = outs.drop_last();
        assert forall|k: int| 0 <= k < pre_o.len() implies extractor_moves(pre_s[k], pre_s[k + 1], #[trigger] pre_o[k]) by {
            assert(extractor_moves(states[k], states[k + 1], outs[k]));
        }
        lemma_decisions_in_order(pre_s, pre_o);
        assert(extractor_moves(states[n], states[n + 1], outs[n]));
        assert(pre_s.last() == states[n]);
        assert(pre_s[0] == states[0]);
    }
}

/// Extracts checkpoints from the ledger: counts the votes of the current
/// iteration and decides it once a block has the acceptance of more than two
/// thirds of the committee, or once a third of the committee rejects.
pub struct MyCheckpointExtractor {
    committee: CheckpointCommittee,
    current_iteration: usize,
    current_votes: Vec<(PublicKey, Vote)>,
}

/// The mathematical value of the extractor.
pub struct ExtractorView {
    pub iteration: usize,
    pub votes: Seq<(Seq<u8>, Option<Seq<u8>>)>,
    pub committee_size: nat,
}

impl View for MyCheckpointExtractor {
    type V = ExtractorView;

    closed spec fn view(&self) -> ExtractorView {
        ExtractorView {
            iteration: self.current_iteration,
            votes: self.current_votes@.map_values(|e: (PublicKey, Vote)| (e.0@, vote_view(e.1))),
            committee_size: self.committee@.members.len(),
        }
    }
}

impl MyCheckpointExtractor {
    /// The committee is well-formed, and the votes are of distinct members.
    #[verifier::type_invariant]
    pub closed spec fn wf(&self) -> bool {
        &&& self.committee.wf()
        &&& distinct_voters(self@.votes)
        &&& forall|j: int| 0 <= j < self@.votes.len()
            ==> member_names(self.committee@.members).contains(#[trigger] self@.votes[j].0)
    }

    /// There are never more votes than committee members, so at most one
    /// block can gather the acceptance of more than two thirds of them.
    pub proof fn lemma_votes_within_committee(&self)
        requires
            self.wf(),
        ensures
            self@.votes.len() <= self@.committee_size,
    {
        lemma_voters_bounded(self@.votes, self.committee@.members);
    }

    /// The committee whose votes count.
    pub closed spec fn committee_view(&self) -> crate::config::CommitteeView {
        self.committee@
    }

    /// An extractor at iteration 0 with no votes.
    pub fn new(committee: CheckpointCommittee) -> (r: MyCheckpointExtractor)
        ensures
            r.wf(),
            r@.iteration == 0,
            r@.votes == Seq::<(Seq<u8>, Option<Seq<u8>>)>::empty(),
            r@.committee_size == committee@.members.len(),
            r.committee_view() == committee@,
    {
        proof {
            use_type_invariant(&committee);
        }
        let r = MyCheckpointExtractor { committee, current_iteration: 0, current_votes: Vec::new() };
        assert(r@.votes =~= Seq::<(Seq<u8>, Option<Seq<u8>>)>::empty());
        r
    }

    /// The current iteration.
    pub fn iteration(&self) -> (r: usize)
        ensures
            r == self@.iteration,
    {
        self.current_iteration
    }

    /// Records the vote of `author`, replacing its earlier vote.
    fn record(&mut self, author: PublicKey, v: Vote)
        requires
            member_names(old(self).committee@.members).contains(author@),
        ensures
            final(self)@.iteration == old(self)@.iteration,
            final(self)@.committee_size == old(self)@.committee_size,
            final(self).committee_view() == old(self).committee_view(),
            final(self)@.votes == votes_after(old(self)@.votes, author@, vote_view(v)),
    {
        proof {
            use_type_invariant(&*self);
        }
        let ghost s0 = self@.votes;
        let ghost members = self.committee@.members;
        let mut votes: Vec<(PublicKey, Vote)> = Vec::new();
        std::mem::swap(&mut votes, &mut self.current_votes);
        assert(votes@.map_values(|e: (PublicKey, Vote)| (e.0@, vote_view(e.1))) == s0);
        let mut k: usize = 0;
        let mut found = false;
        while k < votes.len() && !found
            invariant
                votes@.map_values(|e: (PublicKey, Vote)| (e.0@, vote_view(e.1))) == s0,
                distinct_voters(s0),
                0 <= k <= votes.len(),
                forall|j: int| 0 <= j < k ==> s0[j].0 != author@,
                found ==> k < votes.len() && s0[k as int].0 == author@,
            decreases votes.len() - k + if found { 0int } else { 1int },
        {
            if votes[k].0 == author {
                found = true;
            } else {
                k = k + 1;
            }
        }
        let ghost expected = votes_after(s0, author@, vote_view(v));
        if found {
            votes.set(k, (author, v));
            proof {
                assert(s0[k as int].0 == author@);
                let c = choose|j: int| 0 <= j < s0.len() && s0[j].0 == author@;
                assert(c == k) by {
                    if c != k {
                        if c < k {
                        } else {
                            assert(distinct_voters(s0));
                        }
                    }
                }
                assert(votes@.map_values(|e: (PublicKey, Vote)| (e.0@, vote_view(e.1))) =~= expected);
            }
        } else {
            votes.push((author, v));
            proof {
                assert(votes@.map_values(|e: (PublicKey, Vote)| (e.0@, vote_view(e.1))) =~= expected);
            }
        }
        proof {
            let nv = votes@.map_values(|e: (PublicKey, Vote)| (e.0@, vote_view(e.1)));
            assert forall|a: int, b: int| 0 <= a < b < nv.len() implies nv[a].0 != nv[b].0 by {
                if found {
                    assert(nv[a].0 == s0[a].0);
                    assert(nv[b].0 == s0[b].0);
                } else if b == s0.len() {
                    assert(nv[a] == s0[a]);
                } else {
                    assert(nv[a] == s0[a]);
                    assert(nv[b] == s0[b]);
                }
            }
            assert forall|j: int| 0 <= j < nv.len() implies member_names(members).contains(#[trigger] nv[j].0) by {
                if j < s0.len() {
                    assert(nv[j].0 == s0[j].0);
                }
            }
        }
        self.current_votes = votes;
    }

    /// The number of votes equal to `v`.
    fn count(&self, v: &Vote) -> (r: usize)
        ensures
            r == count_votes(self@.votes, vote_view(*v)),
    {
        let ghost s = self@.votes;
        let mut c: usize = 0;
        let mut k: usize = 0;
        while k < self.current_votes.len()
            invariant
                s == self@.votes,
                0 <= k <= self.current_votes.len(),
                c == count_votes(s.take(k as int), vote_view(*v)),
                c <= k,
            decreases self.current_votes.len() - k,
        {
            proof {
                assert(s.take(k + 1).drop_last() =~= s.take(k as int));
            }
            let same = match (&self.current_votes[k].1, v) {
                (Vote::Reject, Vote::Reject) => true,
                (Vote::Accept(a), Vote::Accept(b)) => *a == *b,
                _ => false,
            };
            if same {
                c = c + 1;
            }
            k = k + 1;
        }
        assert(s.take(k as int) =~= s);
        c
    }

    /// Handles one transaction of the ledger. A transaction that does not
    /// decode, or whose author has no stake or whose signature fails, changes
    /// nothing. An acceptance or rejection of the current iteration records the
    /// author's vote; then, if some block has the acceptance of more than two
    /// thirds of the committee, the iteration is decided for that block; else,
    /// if at least a third of the committee rejects, it is decided for no
    /// block. A decision moves to the next iteration with no votes.
    pub fn on_ledger_transaction(&mut self, tx: &[u8]) -> (r: Option<CheckpointEvent>)
        requires
            old(self)@.iteration < usize::MAX,
        ensures
            final(self).wf(),
            final(self).committee_view() == old(self).committee_view(),
            extractor_moves(old(self)@, final(self)@, r),
            tx_from_bytes(tx@) matches Some(t) && (t.action.0 == 0 || t.action.1 != old(self)@.iteration)
                && !has_accept_quorum(old(self)@.votes, old(self)@.committee_size)
                && !reject_quorum(old(self)@.votes, old(self)@.committee_size)
                ==> r is None && final(self)@ == old(self)@,
            old(self)@.committee_size > 0
                && !has_accept_quorum(old(self)@.votes, old(self)@.committee_size)
                && !reject_quorum(old(self)@.votes, old(self)@.committee_size)
                ==> !has_accept_quorum(final(self)@.votes, final(self)@.committee_size)
                    && !reject_quorum(final(self)@.votes, final(self)@.committee_size),
            ({
                let n = old(self)@.committee_size;
                let i = old(self)@.iteration;
                match tx_from_bytes(tx@) {
                    None => r is None && final(self)@ == old(self)@,
                    Some(t) => if member_stake(old(self).committee_view().members, t.author) == 0 || !tx_signature_valid(t) {
                        r is None && final(self)@ == old(self)@
                    } else {
                        let votes = match vote_of(t, i) {
                            Some(v) => votes_after(old(self)@.votes, t.author, v),
                            None => old(self)@.votes,
                        };
                        if has_accept_quorum(votes, n) {
                            &&& r matches Some(CheckpointEvent::NewCheckpoint(j, Some(b)))
                            &&& j == i && accept_quorum(votes, n, b@)
                            &&& final(self)@.iteration == i + 1
                            &&& final(self)@.votes.len() == 0
                        } else if reject_quorum(votes, n) {
                            &&& r matches Some(CheckpointEvent::NewCheckpoint(j, None))
                            &&& j == i
                            &&& final(self)@.iteration == i + 1
                            &&& final(self)@.votes.len() == 0
                        } else {
                            &&& r is None
                            &&& final(self)@.iteration == i
                            &&& final(self)@.votes == votes
                        }
                    },
                }
            }),
    {
        proof {
            use_type_invariant(&*self);
        }
        let t = match CheckpointTransaction::from_bytes(tx) {
            Ok(t) => t,
            Err(_) => {
                return None;
            },
        };
        if t.verify_signature(&self.committee).is_err() {
            return None;
        }
        proof {
            lemma_last_stake_member(self.committee@.members, t.author@);
        }
        match t.action {
            CheckpointAction::Accept(i, b) => {
                if i == self.current_iteration {
                    self.record(t.author, Vote::Accept(b));
                }
            },
            CheckpointAction::Reject(i) => {
                if i == self.current_iteration {
                    self.record(t.author, Vote::Reject);
                }
            },
            CheckpointAction::Propose(_, _) => {},
        }
        proof {
            let expected = match vote_of(t@, old(self)@.iteration) {
                Some(v) => votes_after(old(self)@.votes, t@.author, v),
                None => old(self)@.votes,
            };
            assert(self@.votes == expected);
        }
        let n = self.committee.size();
        let ghost votes = self@.votes;
        let mut k: usize = 0;
        while k < self.current_votes.len()
            invariant
                self.wf(),
                votes == self@.votes,
                n == self@.committee_size,
                self.committee_view() == old(self).committee_view(),
                self@.iteration == old(self)@.iteration,
                old(self)@.iteration < usize::MAX,
                tx_from_bytes(tx@) == Some(t@),
                !(member_stake(old(self).committee_view().members, t@.author) == 0 || !tx_signature_valid(t@)),
                votes == match vote_of(t@, old(self)@.iteration) {
                    Some(v) => votes_after(old(self)@.votes, t@.author, v),
                    None => old(self)@.votes,
                },
                0 <= k <= self.current_votes.len(),
                forall|j: int| 0 <= j < k ==> (#[trigger] votes[j].1 matches Some(b) ==> !accept_quorum(votes, n as nat, b)),
            decreases self.current_votes.len() - k,
        {
            if let Vote::Accept(b) = self.current_votes[k].1 {
                let c = self.count(&Vote::Accept(b));
                if 3 * (c as u128) > 2 * (n as u128) {
                    let i = self.current_iteration;
                    self.current_iteration = i + 1;
                    self.current_votes = Vec::new();
                    proof {
                        assert(self@.votes =~= Seq::<(Seq<u8>, Option<Seq<u8>>)>::empty());
                        assert(accept_quorum(votes, n as nat, b@));
                        assert(has_accept_quorum(votes, n as nat));
                        assert(n as nat == old(self)@.committee_size);
                        assert(accept_quorum(votes, old(self)@.committee_size, b@));
                        assert(has_accept_quorum(votes, old(self)@.committee_size));
                        assert(self@.iteration == old(self)@.iteration + 1);
                    }
                    return Some(CheckpointEvent::NewCheckpoint(i, Some(b)));
                }
            }
            k = k + 1;
        }
        proof {
            assert forall|b: Seq<u8>| !#[trigger] accept_quorum(votes, n as nat, b) by {
                if accept_quorum(votes, n as nat, b) {
                    lemma_count_positive(votes, Some(b));
                    let j = choose|j: int| 0 <= j < votes.len() && votes[j].1 == Some(b);
                    assert(votes[j].1 matches Some(x) ==> !accept_quorum(votes, n as nat, x));
                }
            }
        }
        let c = self.count(&Vote::Reject);
        if 3 * (c as u128) >= n as u128 {
            let i = self.current_iteration;
            self.current_iteration = i + 1;
            self.current_votes = Vec::new();
            proof {
                assert(self@.votes =~= Seq::<(Seq<u8>, Option<Seq<u8>>)>::empty());
            }
            return Some(CheckpointEvent::NewCheckpoint(i, None));
        }
        None
    }
}

/// With no votes, no iteration of a non-empty committee is decided: so from
/// a new extractor on, every call starts from votes with no quorum, and a
/// transaction that is not a vote of the current iteration is ignored.
pub proof fn lemma_no_votes_no_quorum(n: nat)
    requires
        n > 0,
    ensures
        !has_accept_quorum(Seq::<(Seq<u8>, Option<Seq<u8>>)>::empty(), n),
        !reject_quorum(Seq::<(Seq<u8>, Option<Seq<u8>>)>::empty(), n),
{
}

} // verus!
