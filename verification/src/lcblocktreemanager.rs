use vstd::prelude::*;
use crate::types::Digest;
use crate::config::CheckpointParameters;
use crate::lcblocks::{LcBlock, block_from_bytes, block_digest};
use crate::lcblocktree::{LcBlockTree, LcBlockTreeView, genesis_digest, is_leading, is_prefix, ancestor, tree_after_add, add_keeps_shape};
use crate::cpevents::CheckpointEvent;
use crate::tree_laws::{lemma_leading_unique, lemma_leading_extends_checkpoint, lemma_k_deep_is_prefix, lemma_prefixes_comparable, lemma_prefix_reflexive};

verus! {

/// The leading tip extending `cp`: the candidate that ranks above all others.
pub open spec fn leading_tip(t: LcBlockTreeView, cp: Seq<u8>) -> Seq<u8> {
    choose|r: Seq<u8>| is_leading(t, cp, r)
}

/// The mathematical value of the block tree manager.
pub struct ManagerView {
    pub tree: LcBlockTreeView,
    pub checkpoints: Seq<Seq<u8>>,
    pub iterations: Seq<usize>,
}

/// The latest checkpoint, or the genesis block before the first one.
pub open spec fn latest_checkpoint(v: ManagerView) -> Seq<u8> {
    if v.checkpoints.len() > 0 {
        v.checkpoints.last()
    } else {
        genesis_digest()
    }
}

/// The higher of two blocks, the first at equal height.
pub open spec fn higher(t: LcBlockTreeView, a: Seq<u8>, b: Seq<u8>) -> Seq<u8> {
    if t.heights[a] >= t.heights[b] { a } else { b }
}

/// The block `k` deep below the leading tip extending the latest checkpoint,
/// or the latest checkpoint when that is higher.
pub open spec fn checkpoint_candidate(v: ManagerView, k: nat) -> Seq<u8> {
    let l = latest_checkpoint(v);
    higher(v.tree, l, ancestor(v.tree, leading_tip(v.tree, l), k))
}

/// A block is a valid proposal when it lies between the latest checkpoint and
/// the leading tip extending it.
pub open spec fn proposal_valid(v: ManagerView, d: Seq<u8>) -> bool {
    let l = latest_checkpoint(v);
    &&& v.tree.blocks.contains_key(d)
    &&& is_prefix(v.tree, l, d)
    &&& is_prefix(v.tree, d, leading_tip(v.tree, l))
}

/// Why the manager cannot go on.
#[derive(Clone, Copy, Debug)]
pub enum ManagerError {
    /// Bytes that should hold a block do not decode.
    UndecodableBlock,
    /// The tree refuses the block.
    RejectedBlock(&'static str),
    /// A checkpoint was decided for a block that the tree does not hold.
    UnknownCheckpoint,
}

/// Keeps the block tree, the checkpoints decided so far and their
/// iterations, and answers what the miner and the proposer ask of them.
pub struct MyLcBlockTreeManager {
    lcblocktree: LcBlockTree,
    /// The checkpoints, each with the iteration that decided it.
    checkpoints: Vec<(Digest, usize)>,
    parameters: CheckpointParameters,
}

impl View for MyLcBlockTreeManager {
    type V = ManagerView;

    closed spec fn view(&self) -> ManagerView {
        ManagerView {
            tree: self.lcblocktree@,
            checkpoints: self.checkpoints@.map_values(|c: (Digest, usize)| c.0@),
            iterations: self.checkpoints@.map_values(|c: (Digest, usize)| c.1),
        }
    }
}

impl MyLcBlockTreeManager {
    /// The tree is well-formed and holds every checkpoint, each with its
    /// iteration.
    #[verifier::type_invariant]
    pub closed spec fn wf(&self) -> bool {
        &&& self.lcblocktree.wf()
        &&& forall|i: int| 0 <= i < self.checkpoints.len()
            ==> self.lcblocktree@.blocks.contains_key(#[trigger] self.checkpoints@[i].0@)
    }

    /// The parameters the manager was made with.
    pub closed spec fn params(&self) -> CheckpointParameters {
        self.parameters
    }

    /// A manager with the tree of the genesis block and no checkpoint.
    pub fn new(parameters: CheckpointParameters) -> (r: MyLcBlockTreeManager)
        ensures
            r.wf(),
            r.params() == parameters,
            r@.tree.blocks == map![genesis_digest() => crate::lcblocks::genesis_view()],
            r@.tree.heights == map![genesis_digest() => 0nat],
            r@.tree.tips == set![genesis_digest()],
            r@.checkpoints.len() == 0,
            r@.iterations.len() == 0,
    {
        let r = MyLcBlockTreeManager {
            lcblocktree: LcBlockTree::new(),
            checkpoints: Vec::new(),
            parameters,
        };
        assert(r@.checkpoints =~= Seq::<Seq<u8>>::empty());
        assert(r@.iterations =~= Seq::<usize>::empty());
        r
    }

    /// The latest checkpoint, or the genesis block.
    fn latest(&self) -> (r: Digest)
        requires
            self.wf(),
        ensures
            r@ == latest_checkpoint(self@),
            self@.tree.blocks.contains_key(r@),
    {
        if self.checkpoints.len() > 0 {
            let r = self.checkpoints[self.checkpoints.len() - 1].0;
            proof {
                assert(self.lcblocktree@.blocks.contains_key(self.checkpoints@[self.checkpoints.len() - 1].0@));
            }
            r
        } else {
            LcBlock::genesis().digest()
        }
    }

    /// The leading tip extending `cp`.
    fn tip(&self, cp: &Digest) -> (r: Digest)
        requires
            self.wf(),
            self@.tree.blocks.contains_key(cp@),
        ensures
            r@ == leading_tip(self@.tree, cp@),
            self@.tree.blocks.contains_key(r@),
            is_prefix(self@.tree, cp@, r@),
    {
        let r = *self.lcblocktree.leading_tip_extending(cp);
        proof {
            let c = leading_tip(self@.tree, cp@);
            assert(is_leading(self@.tree, cp@, r@));
            assert(is_leading(self@.tree, cp@, c));
            lemma_leading_unique(self@.tree, cp@, r@, c);
            lemma_leading_extends_checkpoint(self@.tree, cp@, r@);
            assert(crate::lcblocktree::extending_candidates(self@.tree, cp@).contains(r@));
        }
        r
    }

    /// The block to mine on: the leading tip extending the latest checkpoint,
    /// with its slot.
    fn tip_to_mine(&self) -> (r: (Digest, u64))
        requires
            self.wf(),
        ensures
            r.0@ == leading_tip(self@.tree, latest_checkpoint(self@)),
            r.1 == self@.tree.blocks[r.0@].slot,
    {
        let l = self.latest();
        let t = self.tip(&l);
        let blk = self.lcblocktree.block(&t).unwrap();
        (t, blk.slot)
    }

    /// Adds a block received from the network, given by its bytes, and
    /// returns the block to mine on next with its slot. A block whose digest
    /// the tree already holds replaces the block stored there; where that would
    /// leave the tree ill formed (`add_keeps_shape` fails, which takes a
    /// different block under the same digest) the block is refused with
    /// "Digest collision!".
    pub fn on_inbound_block(&mut self, v: &[u8]) -> (r: Result<(Digest, u64), ManagerError>)
        ensures
            final(self).wf(),
            final(self).params() == old(self).params(),
            final(self)@.checkpoints == old(self)@.checkpoints,
            final(self)@.iterations == old(self)@.iterations,
            match block_from_bytes(v@) {
                None => r matches Err(ManagerError::UndecodableBlock) && final(self)@ == old(self)@,
                Some(b) => match b.parent {
                    Some(p) => if !old(self)@.tree.blocks.contains_key(p) {
                        r matches Err(ManagerError::RejectedBlock(e)) && e == "Parent is unknown!"
                            && final(self)@ == old(self)@
                    } else if add_keeps_shape(old(self)@.tree, b, p) {
                        &&& final(self)@.tree == tree_after_add(old(self)@.tree, b, p)
                        &&& r matches Ok(x)
                        &&& x.0@ == leading_tip(final(self)@.tree, latest_checkpoint(final(self)@))
                        &&& x.1 == final(self)@.tree.blocks[x.0@].slot
                    } else {
                        r matches Err(ManagerError::RejectedBlock(e)) && e == "Digest collision!"
                            && final(self)@ == old(self)@
                    },
                    None => r matches Err(ManagerError::RejectedBlock(e))
                        && e == "Parent is None, there can be only one genesis block!"
                        && final(self)@ == old(self)@,
                },
            },
    {
        proof {
            use_type_invariant(&*self);
        }
        let blk = match LcBlock::from_bytes(v) {
            Ok(b) => b,
            Err(_) => {
                return Err(ManagerError::UndecodableBlock);
            },
        };
        let ghost old_tree = self.lcblocktree@;
        let mut cps: Vec<(Digest, usize)> = Vec::new();
        std::mem::swap(&mut cps, &mut self.checkpoints);
        let mut tree = LcBlockTree::new();
        std::mem::swap(&mut tree, &mut self.lcblocktree);
        let added = tree.try_add(blk);
        std::mem::swap(&mut tree, &mut self.lcblocktree);
        proof {
            assert forall|i: int| 0 <= i < cps.len()
                implies self.lcblocktree@.blocks.contains_key(#[trigger] cps@[i].0@) by {
                assert(old_tree.blocks.contains_key(cps@[i].0@));
            }
        }
        self.checkpoints = cps;
        match added {
            Ok(()) => Ok(self.tip_to_mine()),
            Err(e) => Err(ManagerError::RejectedBlock(e)),
        }
    }

    /// Handles a checkpointing event. A checkpoint for a block is recorded with
    /// its iteration, and the block to mine on next is returned with its slot;
    /// other events change nothing. A checkpoint for a block that the tree
    /// does not hold is refused.
    pub fn on_checkpoint_event(&mut self, ev: CheckpointEvent) -> (r: Result<Option<(Digest, u64)>, ManagerError>)
        ensures
            final(self).wf(),
            final(self).params() == old(self).params(),
            final(self)@.tree == old(self)@.tree,
            match ev {
                CheckpointEvent::NewCheckpoint(i, Some(cp)) => if old(self)@.tree.blocks.contains_key(cp@) {
                    &&& final(self)@.checkpoints == old(self)@.checkpoints.push(cp@)
                    &&& final(self)@.iterations == old(self)@.iterations.push(i)
                    &&& r matches Ok(Some(x))
                    &&& x.0@ == leading_tip(old(self)@.tree, cp@)
                    &&& x.1 == old(self)@.tree.blocks[x.0@].slot
                } else {
                    r matches Err(ManagerError::UnknownCheckpoint) && final(self)@ == old(self)@
                },
                _ => r matches Ok(None) && final(self)@ == old(self)@,
            },
    {
        proof {
            use_type_invariant(&*self);
        }
        match ev {
            CheckpointEvent::NewCheckpoint(i, Some(cp)) => {
                if self.lcblocktree.height(&cp).is_err() {
                    return Err(ManagerError::UnknownCheckpoint);
                }
                let ghost old_cps = self.checkpoints@;
                let mut cps: Vec<(Digest, usize)> = Vec::new();
                std::mem::swap(&mut cps, &mut self.checkpoints);
                cps.push((cp, i));
                proof {
                    assert forall|k: int| 0 <= k < cps.len()
                        implies self.lcblocktree@.blocks.contains_key(#[trigger] cps@[k].0@) by {
                        if k < old_cps.len() {
                            assert(cps@[k] == old_cps[k]);
                        }
                    }
                }
                self.checkpoints = cps;
                proof {
                    assert(self@.checkpoints =~= old(self)@.checkpoints.push(cp@));
                    assert(self@.iterations =~= old(self)@.iterations.push(i));
                }
                Ok(Some(self.tip_to_mine()))
            },
            _ => Ok(None),
        }
    }

    /// The block to propose as next checkpoint: the block `propose_k_deep`
    /// below the leading tip extending the latest checkpoint, or the latest
    /// checkpoint when that is higher.
    pub fn get_current_proposal(&self) -> (r: Digest)
        ensures
            r@ == checkpoint_candidate(self@, self.params().propose_k_deep as nat),
    {
        proof {
            use_type_invariant(self);
        }
        self.candidate(self.parameters.propose_k_deep)
    }

    /// The end of the available ledger: the block `lctree_logava_k_deep` below
    /// the leading tip extending the latest checkpoint, or the latest
    /// checkpoint when that is higher.
    pub fn get_log_ava(&self) -> (r: Digest)
        ensures
            r@ == checkpoint_candidate(self@, self.params().lctree_logava_k_deep as nat),
    {
        proof {
            use_type_invariant(self);
        }
        self.candidate(self.parameters.lctree_logava_k_deep)
    }

    /// The end of the accountable ledger: the latest checkpoint, a block of
    /// the manager's tree, which is well formed.
    pub fn get_log_acc(&self) -> (r: Digest)
        ensures
            r@ == latest_checkpoint(self@),
            self@.tree.blocks.contains_key(r@),
            crate::lcblocktree::tree_wf(self@.tree),
    {
        proof {
            use_type_invariant(self);
        }
        self.latest()
    }

    /// The higher of the latest checkpoint and the block `k` below the leading
    /// tip extending it.
    fn candidate(&self, k: usize) -> (r: Digest)
        requires
            self.wf(),
        ensures
            r@ == checkpoint_candidate(self@, k as nat),
            self@.tree.blocks.contains_key(r@),
    {
        let l = self.latest();
        let t = self.tip(&l);
        let a = *self.lcblocktree.k_deep(k, &t);
        proof {
            crate::lcblocktree::lemma_ancestor(self@.tree, t@, k as nat);
        }
        let r = *self.lcblocktree.higher_of(&l, &a).unwrap();
        r
    }

    /// Whether `d` lies between the latest checkpoint and the leading tip
    /// extending it; false for a block the tree does not hold.
    pub fn validate_proposal(&self, d: &Digest) -> (r: bool)
        ensures
            r == proposal_valid(self@, d@),
            r ==> exists|k: nat| #[trigger] ancestor(self@.tree, leading_tip(self@.tree, latest_checkpoint(self@)), k) == d@,
    {
        proof {
            use_type_invariant(self);
            if proposal_valid(self@, d@) {
                lemma_valid_proposal_on_leading_chain(self@, d@, d@);
            }
        }
        let l = self.latest();
        let c1 = self.lcblocktree.is_prefix_of(&l, d);
        let t = self.tip(&l);
        let c2 = self.lcblocktree.is_prefix_of(d, &t);
        match (c1, c2) {
            (Ok(a), Ok(b)) => a && b,
            _ => false,
        }
    }

    /// The height of block `d`, if the tree holds it.
    pub fn get_height_of_block(&self, d: &Digest) -> (r: Option<usize>)
        ensures
            match r {
                Some(h) => self@.tree.blocks.contains_key(d@) && h as nat == self@.tree.heights[d@],
                None => !self@.tree.blocks.contains_key(d@),
            },
    {
        proof {
            use_type_invariant(self);
        }
        self.lcblocktree.height(d).ok()
    }

    /// The leading tip extending the latest checkpoint.
    pub fn get_current_tip(&self) -> (r: Digest)
        ensures
            r@ == leading_tip(self@.tree, latest_checkpoint(self@)),
    {
        proof {
            use_type_invariant(self);
        }
        let l = self.latest();
        self.tip(&l)
    }

    /// The parent of block `d`, if the tree holds it.
    pub fn get_parent_of_block(&self, d: &Digest) -> (r: Option<Option<Digest>>)
        ensures
            match r {
                Some(p) => self@.tree.blocks.contains_key(d@)
                    && crate::codec::opt_bytes(p) == self@.tree.blocks[d@].parent,
                None => !self@.tree.blocks.contains_key(d@),
            },
    {
        proof {
            use_type_invariant(self);
        }
        self.lcblocktree.parent(d).ok()
    }

    /// A copy of block `d`, if the tree holds it.
    pub fn get_block(&self, d: &Digest) -> (r: Option<LcBlock>)
        ensures
            match r {
                Some(b) => self@.tree.blocks.contains_key(d@) && b@ == self@.tree.blocks[d@],
                None => !self@.tree.blocks.contains_key(d@),
            },
    {
        proof {
            use_type_invariant(self);
        }
        self.lcblocktree.block(d).ok()
    }

    /// The block tree.
    pub fn tree(&self) -> (r: &LcBlockTree)
        ensures
            r@ == self@.tree,
            self.wf() ==> r.wf(),
    {
        &self.lcblocktree
    }

    /// The checkpoints decided so far and their iterations.
    pub fn checkpoints(&self) -> (r: (Vec<Digest>, Vec<usize>))
        ensures
            r.0@.map_values(|d: Digest| d@) == self@.checkpoints,
            r.1@ == self@.iterations,
    {
        let mut cps: Vec<Digest> = Vec::new();
        let mut its: Vec<usize> = Vec::new();
        let mut k: usize = 0;
        while k < self.checkpoints.len()
            invariant
                0 <= k <= self.checkpoints.len(),
                cps@.map_values(|d: Digest| d@) == self@.checkpoints.take(k as int),
                its@ == self@.iterations.take(k as int),
            decreases self.checkpoints.len() - k,
        {
            let (d, i) = self.checkpoints[k];
            let ghost before = cps@;
            cps.push(d);
            its.push(i);
            proof {
                assert(self.checkpoints@[k as int] == (d, i));
                assert(self@.checkpoints[k as int] == d@);
                assert(self@.checkpoints.take(k + 1) =~= self@.checkpoints.take(k as int).push(d@));
                assert(cps@ == before.push(d));
                assert(cps@.map_values(|d: Digest| d@) =~= before.map_values(|d: Digest| d@).push(d@));
                assert(cps@.map_values(|d: Digest| d@) =~= self@.checkpoints.take(k + 1));
                assert(its@ =~= self@.iterations.take(k + 1));
            }
            k = k + 1;
        }
        proof {
            assert(self@.checkpoints.take(k as int) =~= self@.checkpoints);
            assert(self@.iterations.take(k as int) =~= self@.iterations);
        }
        (cps, its)
    }
}

/// A node accepts its own proposal: the checkpoint candidate lies between the
/// latest checkpoint and the leading tip extending it. The premises are what
/// `get_log_acc` ensures of every manager.
pub proof fn lemma_own_proposal_is_valid(v: ManagerView, k: nat)
    requires
        crate::lcblocktree::tree_wf(v.tree),
        v.tree.blocks.contains_key(latest_checkpoint(v)),
    ensures
        proposal_valid(v, checkpoint_candidate(v, k)),
{
    let l = latest_checkpoint(v);
    let t = leading_tip(v.tree, l);
    lemma_leading_exists(v.tree, l);
    lemma_leading_extends_checkpoint(v.tree, l, t);
    assert(crate::lcblocktree::extending_candidates(v.tree, l).contains(t));
    assert(v.tree.blocks.contains_key(t));
    let a = ancestor(v.tree, t, k);
    crate::lcblocktree::lemma_ancestor(v.tree, t, k);
    lemma_k_deep_is_prefix(v.tree, t, k);
    lemma_prefix_reflexive(v.tree, l);
    if v.tree.heights[l] < v.tree.heights[a] {
        lemma_prefixes_comparable(v.tree, l, a, t);
    }
}

/// In a well-formed tree, every block of the tree has a leading tip.
pub proof fn lemma_leading_exists(t: LcBlockTreeView, cp: Seq<u8>)
    requires
        crate::lcblocktree::tree_wf(t),
        t.blocks.contains_key(cp),
    ensures
        is_leading(t, cp, leading_tip(t, cp)),
{
    let cands = crate::lcblocktree::extending_candidates(t, cp);
    vstd::set_lib::lemma_len_subset(t.tips, t.blocks.dom());
    assert(cands.subset_of(t.blocks.dom()));
    vstd::set_lib::lemma_len_subset(cands, t.blocks.dom());
    lemma_max_exists(t, cands);
    let r = choose|r: Seq<u8>| cands.contains(r) && forall|c: Seq<u8>| #[trigger] cands.contains(c) ==> c == r || crate::lcblocktree::ranks_above(t, r, c);
    assert(is_leading(t, cp, r));
}

/// A finite nonempty set of blocks of the tree has an element that ranks above
/// all the others.
pub proof fn lemma_max_exists(t: LcBlockTreeView, s: Set<Seq<u8>>)
    requires
        crate::lcblocktree::tree_wf(t),
        s.finite(),
        s.len() > 0,
        s.subset_of(t.blocks.dom()),
    ensures
        exists|r: Seq<u8>| s.contains(r) && forall|c: Seq<u8>| #[trigger] s.contains(c) ==> c == r || crate::lcblocktree::ranks_above(t, r, c),
    decreases s.len(),
{
    let x = s.choose();
    let s2 = s.remove(x);
    if s2.len() == 0 {
        assert forall|c: Seq<u8>| #[trigger] s.contains(c) implies c == x || crate::lcblocktree::ranks_above(t, x, c) by {
            if c != x {
                assert(s2.contains(c));
            }
        }
    } else {
        lemma_max_exists(t, s2);
        let r2 = choose|r: Seq<u8>| s2.contains(r) && forall|c: Seq<u8>| #[trigger] s2.contains(c) ==> c == r || crate::lcblocktree::ranks_above(t, r, c);
        crate::lcblocktree::lemma_ranks_total(t, x, r2);
        if crate::lcblocktree::ranks_above(t, x, r2) {
            assert forall|c: Seq<u8>| #[trigger] s.contains(c) implies c == x || crate::lcblocktree::ranks_above(t, x, c) by {
                if c != x {
                    assert(s2.contains(c));
                    if c != r2 {
                        crate::lcblocktree::lemma_ranks_transitive(t, x, r2, c);
                    }
                }
            }
        } else {
            assert forall|c: Seq<u8>| #[trigger] s.contains(c) implies c == r2 || crate::lcblocktree::ranks_above(t, r2, c) by {
                if c != x {
                    assert(s2.contains(c));
                }
            }
        }
    }
}

/// A valid proposal lies on the chain from the leading tip extending the
/// latest checkpoint back to genesis: some number of parent links leads from
/// that tip to it. So valid proposals all lie on one chain: of two of them,
/// the lower is a prefix of the higher, and a block on a branch off that chain
/// is never valid.
pub proof fn lemma_valid_proposal_on_leading_chain(v: ManagerView, d: Seq<u8>, e: Seq<u8>)
    requires
        crate::lcblocktree::tree_wf(v.tree),
        v.tree.blocks.contains_key(latest_checkpoint(v)),
        proposal_valid(v, d),
    ensures
        exists|k: nat| #[trigger] ancestor(v.tree, leading_tip(v.tree, latest_checkpoint(v)), k) == d,
        proposal_valid(v, e) && v.tree.heights[d] <= v.tree.heights[e] ==> is_prefix(v.tree, d, e),
{
    let l = latest_checkpoint(v);
    let t = leading_tip(v.tree, l);
    lemma_leading_exists(v.tree, l);
    assert(crate::lcblocktree::extending_candidates(v.tree, l).contains(t));
    assert(v.tree.blocks.contains_key(t));
    let k = (v.tree.heights[t] - v.tree.heights[d]) as nat;
    assert(ancestor(v.tree, t, k) == d);
    if proposal_valid(v, e) && v.tree.heights[d] <= v.tree.heights[e] {
        lemma_prefixes_comparable(v.tree, d, e, t);
    }
}

} // verus!
