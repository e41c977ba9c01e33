use vstd::prelude::*;
use crate::types::{Digest, bytes_lt};
use crate::lcblocks::{LcBlock, LcBlockView, block_digest, genesis_view, is_adversarial_view};
use crate::dot::{DOT_HEADER, dot_nodes, dot_edges, dot_text, push_str, push_node_line, push_edge_line};
use crate::display::string_from_chars;

verus! {

/// The mathematical value of a block tree: the blocks by digest, their
/// heights, and the set of tips.
pub struct LcBlockTreeView {
    pub blocks: Map<Seq<u8>, LcBlockView>,
    pub heights: Map<Seq<u8>, nat>,
    pub tips: Set<Seq<u8>>,
}

/// The digest of the genesis block.
pub open spec fn genesis_digest() -> Seq<u8> {
    block_digest(genesis_view())
}

/// A well-formed tree: every block is stored under its digest; the genesis
/// block is present, is the only block without parent and has height 0; every
/// other block has its parent in the tree and a height one more than it; the
/// tips are blocks of the tree.
pub open spec fn tree_wf(v: LcBlockTreeView) -> bool {
    &&& v.blocks.dom().finite()
    &&& v.heights.dom() == v.blocks.dom()
    &&& v.tips.subset_of(v.blocks.dom())
    &&& v.blocks.contains_key(genesis_digest())
    &&& v.blocks[genesis_digest()] == genesis_view()
    &&& forall|d: Seq<u8>| #[trigger] v.blocks.contains_key(d) ==> block_digest(v.blocks[d]) == d && d.len() == 32
    &&& forall|d: Seq<u8>| #[trigger] v.blocks.contains_key(d) ==> match v.blocks[d].parent {
        None => d == genesis_digest() && v.heights[d] == 0,
        Some(p) => v.blocks.contains_key(p) && v.heights[d] == v.heights[p] + 1,
    }
}

/// The tree after `b` is attached below its parent `p`: `b` is stored under
/// its digest with height one more than `p`, `p` stops being a tip and `b`
/// becomes one.
pub open spec fn tree_after_add(v: LcBlockTreeView, b: LcBlockView, p: Seq<u8>) -> LcBlockTreeView {
    LcBlockTreeView {
        blocks: v.blocks.insert(block_digest(b), b),
        heights: v.heights.insert(block_digest(b), v.heights[p] + 1),
        tips: v.tips.remove(p).insert(block_digest(b)),
    }
}

/// Attaching `b` below `p`, replacing whatever block the tree holds under the
/// digest of `b`, leaves the tree well formed: the digest of `b` is neither the
/// genesis digest nor `p`, and every block whose parent is that digest sits
/// one level below the new height of `b`.
pub open spec fn add_keeps_shape(v: LcBlockTreeView, b: LcBlockView, p: Seq<u8>) -> bool {
    let d = block_digest(b);
    &&& d != genesis_digest()
    &&& d != p
    &&& forall|c: Seq<u8>| #[trigger] v.blocks.contains_key(c) && v.blocks[c].parent == Some(d)
        ==> v.heights[c] == v.heights[p] + 2
}

/// Some block of the tree has `d` as its parent.
pub open spec fn has_child(v: LcBlockTreeView, d: Seq<u8>) -> bool {
    exists|c: Seq<u8>| #[trigger] v.blocks.contains_key(c) && v.blocks[c].parent == Some(d)
}

/// The tips are exactly the blocks of the tree that no block has as parent.
pub open spec fn tips_exact(v: LcBlockTreeView) -> bool {
    forall|d: Seq<u8>| #[trigger] v.tips.contains(d) <==> (v.blocks.contains_key(d) && !has_child(v, d))
}

/// Every block of the tree that no block has as parent is a tip.
pub open spec fn childless_are_tips(v: LcBlockTreeView) -> bool {
    forall|d: Seq<u8>| #[trigger] v.blocks.contains_key(d) && !has_child(v, d) ==> v.tips.contains(d)
}

/// The blocks met when following at most `n` parent links from `x`, `x`
/// included.
pub open spec fn chain_set(v: LcBlockTreeView, x: Seq<u8>, n: nat) -> Set<Seq<u8>>
    decreases n,
{
    if n == 0 {
        set![x]
    } else {
        match v.blocks[x].parent {
            None => set![x],
            Some(p) => chain_set(v, p, (n - 1) as nat).insert(x),
        }
    }
}

/// The chain from a block back to genesis holds one block per level, all of
/// them in the tree and none higher than the block.
pub proof fn lemma_chain_set(v: LcBlockTreeView, x: Seq<u8>)
    requires
        tree_wf(v),
        v.blocks.contains_key(x),
    ensures
        chain_set(v, x, v.heights[x]).finite(),
        chain_set(v, x, v.heights[x]).len() == v.heights[x] + 1,
        forall|y: Seq<u8>| #[trigger] chain_set(v, x, v.heights[x]).contains(y)
            ==> v.blocks.contains_key(y) && v.heights[y] <= v.heights[x],
    decreases v.heights[x],
{
    match v.blocks[x].parent {
        None => {
            assert(chain_set(v, x, v.heights[x]) == set![x]);
        },
        Some(p) => {
            lemma_chain_set(v, p);
            let s = chain_set(v, p, v.heights[p]);
            assert((v.heights[x] - 1) as nat == v.heights[p]);
            assert(chain_set(v, x, v.heights[x]) == s.insert(x));
            assert(!s.contains(x));
        },
    }
}

/// The height of a block is below the number of blocks of the tree.
pub proof fn lemma_height_below_size(v: LcBlockTreeView, x: Seq<u8>)
    requires
        tree_wf(v),
        v.blocks.contains_key(x),
    ensures
        v.heights[x] < v.blocks.dom().len(),
{
    lemma_chain_set(v, x);
    assert(chain_set(v, x, v.heights[x]).subset_of(v.blocks.dom()));
    vstd::set_lib::lemma_len_subset(chain_set(v, x, v.heights[x]), v.blocks.dom());
}

/// The block reached from `d` by following `k` parent links, stopping at a
/// block without parent.
pub open spec fn ancestor(v: LcBlockTreeView, d: Seq<u8>, k: nat) -> Seq<u8>
    decreases k,
{
    if k == 0 {
        d
    } else {
        match v.blocks[d].parent {
            None => d,
            Some(p) => ancestor(v, p, (k - 1) as nat),
        }
    }
}

/// `s` lies on the chain from `l` back to the genesis block.
pub open spec fn is_prefix(v: LcBlockTreeView, s: Seq<u8>, l: Seq<u8>) -> bool {
    v.heights[s] <= v.heights[l] && ancestor(v, l, (v.heights[l] - v.heights[s]) as nat) == s
}

/// The order in which tips compete: a higher block first; at equal height an
/// adversarial block before an honest one; otherwise the smaller digest.
pub open spec fn ranks_above(v: LcBlockTreeView, a: Seq<u8>, b: Seq<u8>) -> bool {
    ||| v.heights[a] > v.heights[b]
    ||| v.heights[a] == v.heights[b] && is_adversarial_view(v.blocks[a]) && !is_adversarial_view(v.blocks[b])
    ||| v.heights[a] == v.heights[b] && is_adversarial_view(v.blocks[a]) == is_adversarial_view(v.blocks[b])
        && bytes_lt(a, b)
}

/// The winner of `a` against `b`.
pub open spec fn tie_break_spec(v: LcBlockTreeView, a: Seq<u8>, b: Seq<u8>) -> Seq<u8> {
    if ranks_above(v, a, b) { a } else { b }
}

/// The number of honest blocks among the first `fuel` blocks on the chain
/// from `d` back to the genesis block, genesis excluded.
pub open spec fn honest_count(v: LcBlockTreeView, d: Seq<u8>, fuel: nat) -> nat
    decreases fuel,
{
    if fuel == 0 {
        0
    } else {
        match v.blocks[d].parent {
            None => 0,
            Some(p) => honest_count(v, p, (fuel - 1) as nat) + if is_adversarial_view(v.blocks[d]) { 0nat } else { 1nat },
        }
    }
}

/// The number of honest blocks on the chain from `d` back to genesis,
/// genesis excluded.
pub open spec fn honest_height(v: LcBlockTreeView, d: Seq<u8>) -> nat {
    honest_count(v, d, v.heights[d])
}

/// Following `k` parent links from a block of the tree stays in the tree and
/// lowers the height by `k`, down to height 0.
pub proof fn lemma_ancestor(v: LcBlockTreeView, d: Seq<u8>, k: nat)
    requires
        tree_wf(v),
        v.blocks.contains_key(d),
    ensures
        v.blocks.contains_key(ancestor(v, d, k)),
        v.heights[ancestor(v, d, k)] == if k <= v.heights[d] { v.heights[d] - k } else { 0 },
    decreases k,
{
    if k > 0 {
        match v.blocks[d].parent {
            None => {},
            Some(p) => {
                lemma_ancestor(v, p, (k - 1) as nat);
            },
        }
    }
}

/// Two different blocks of the tree: one of them ranks above the other.
pub proof fn lemma_ranks_total(v: LcBlockTreeView, a: Seq<u8>, b: Seq<u8>)
    requires
        tree_wf(v),
        v.blocks.contains_key(a),
        v.blocks.contains_key(b),
        a != b,
    ensures
        ranks_above(v, a, b) || ranks_above(v, b, a),
        !(ranks_above(v, a, b) && ranks_above(v, b, a)),
{
    crate::types::lemma_bytes_lt_total(a, b);
}

/// `ranks_above` is transitive.
pub proof fn lemma_ranks_transitive(v: LcBlockTreeView, a: Seq<u8>, b: Seq<u8>, c: Seq<u8>)
    requires
        ranks_above(v, a, b),
        ranks_above(v, b, c),
    ensures
        ranks_above(v, a, c),
{
    if v.heights[a] == v.heights[b] && v.heights[b] == v.heights[c]
        && is_adversarial_view(v.blocks[a]) == is_adversarial_view(v.blocks[b])
        && is_adversarial_view(v.blocks[b]) == is_adversarial_view(v.blocks[c]) {
        crate::types::lemma_bytes_lt_transitive(a, b, c);
    }
}

/// The honest blocks among `fuel` blocks are at most `fuel`.
pub proof fn lemma_honest_count_bound(v: LcBlockTreeView, d: Seq<u8>, fuel: nat)
    ensures
        honest_count(v, d, fuel) <= fuel,
    decreases fuel,
{
    if fuel > 0 {
        match v.blocks[d].parent {
            None => {},
            Some(p) => lemma_honest_count_bound(v, p, (fuel - 1) as nat),
        }
    }
}

/// The candidates for the leading tip extending `cp`: `cp` itself and every
/// tip on a chain through `cp`.
pub open spec fn extending_candidates(v: LcBlockTreeView, cp: Seq<u8>) -> Set<Seq<u8>> {
    v.tips.filter(|t: Seq<u8>| is_prefix(v, cp, t)).insert(cp)
}

/// `r` is the candidate that ranks above every other candidate.
pub open spec fn is_leading(v: LcBlockTreeView, cp: Seq<u8>, r: Seq<u8>) -> bool {
    &&& extending_candidates(v, cp).contains(r)
    &&& forall|c: Seq<u8>| #[trigger] extending_candidates(v, cp).contains(c) ==> c == r || ranks_above(v, r, c)
}

/// The set of digests that a sequence holds.
pub open spec fn digest_set(s: Seq<Digest>) -> Set<Seq<u8>> {
    Set::new(|x: Seq<u8>| exists|i: int| 0 <= i < s.len() && s[i]@ == x)
}

/// No digest occurs twice in `s`.
pub open spec fn distinct_digests(s: Seq<Digest>) -> bool {
    forall|i: int, j: int| 0 <= i < j < s.len() ==> s[i]@ != s[j]@
}

/// Removes `d` from a sequence of distinct digests.
fn remove_digest(v: &mut Vec<Digest>, d: &Digest)
    requires
        distinct_digests(old(v)@),
    ensures
        distinct_digests(final(v)@),
        digest_set(final(v)@) == digest_set(old(v)@).remove(d@),
{
    let ghost s0 = v@;
    let mut i: usize = 0;
    while i < v.len()
        invariant
            v@ == s0,
            s0 == old(v)@,
            distinct_digests(s0),
            0 <= i <= v.len(),
            forall|j: int| 0 <= j < i ==> v[j]@ != d@,
        decreases v.len() - i,
    {
        if v[i] == *d {
            v.remove(i);
            proof {
                assert(v@ =~= s0.subrange(0, i as int) + s0.subrange(i + 1, s0.len() as int));
                assert forall|a: int, b: int| 0 <= a < b < v@.len() implies v@[a]@ != v@[b]@ by {
                    let a0 = if a < i { a } else { a + 1 };
                    let b0 = if b < i { b } else { b + 1 };
                    assert(v@[a] == s0[a0]);
                    assert(v@[b] == s0[b0]);
                }
                assert forall|x: Seq<u8>| digest_set(v@).contains(x)
                    <==> digest_set(s0).remove(d@).contains(x) by {
                    if digest_set(v@).contains(x) {
                        let a = choose|a: int| 0 <= a < v@.len() && v@[a]@ == x;
                        let a0 = if a < i { a } else { a + 1 };
                        assert(v@[a] == s0[a0]);
                        assert(a0 != i);
                    }
                    if digest_set(s0).remove(d@).contains(x) {
                        let a0 = choose|a: int| 0 <= a < s0.len() && s0[a]@ == x;
                        assert(a0 != i);
                        let a = if a0 < i { a0 } else { a0 - 1 };
                        assert(v@[a] == s0[a0]);
                    }
                }
                assert(digest_set(v@) =~= digest_set(s0).remove(d@));
                assert(s0 == old(v)@);
            }
            return;
        }
        i = i + 1;
    }
    assert(digest_set(v@) =~= digest_set(s0).remove(d@));
}

/// Adds `d` to a sequence of distinct digests, unless it is there already.
fn insert_digest(v: &mut Vec<Digest>, d: &Digest)
    requires
        distinct_digests(old(v)@),
    ensures
        distinct_digests(final(v)@),
        digest_set(final(v)@) == digest_set(old(v)@).insert(d@),
{
    let ghost s0 = v@;
    let mut i: usize = 0;
    while i < v.len()
        invariant
            v@ == s0,
            s0 == old(v)@,
            distinct_digests(s0),
            0 <= i <= v.len(),
            forall|j: int| 0 <= j < i ==> v[j]@ != d@,
        decreases v.len() - i,
    {
        if v[i] == *d {
            assert(digest_set(v@) =~= digest_set(s0).insert(d@));
            return;
        }
        i = i + 1;
    }
    v.push(*d);
    proof {
        assert(v@ =~= s0.push(*d));
        assert forall|x: Seq<u8>| digest_set(v@).contains(x)
            <==> digest_set(s0).insert(d@).contains(x) by {
            if digest_set(s0).insert(d@).contains(x) {
                if x == d@ {
                    assert(v@[s0.len() as int]@ == x);
                } else {
                    let a = choose|a: int| 0 <= a < s0.len() && s0[a]@ == x;
                    assert(v@[a] == s0[a]);
                }
            }
            if digest_set(v@).contains(x) {
                let a = choose|a: int| 0 <= a < v@.len() && v@[a]@ == x;
                if a < s0.len() {
                    assert(v@[a] == s0[a]);
                }
            }
        }
        assert(digest_set(v@) =~= digest_set(s0).insert(d@));
    }
}

/// The tree of blocks of the longest chain, rooted at the genesis block.
pub struct LcBlockTree {
    digests: Vec<Digest>,
    blocks: Vec<LcBlock>,
    heights: Vec<usize>,
    tips: Vec<Digest>,
    model: Ghost<LcBlockTreeView>,
}

impl View for LcBlockTree {
    type V = LcBlockTreeView;

    closed spec fn view(&self) -> LcBlockTreeView {
        self.model@
    }
}

impl LcBlockTree {
    /// The stored vectors hold exactly the blocks, heights and tips of the view.
    pub closed spec fn inv(&self) -> bool {
        let v = self.model@;
        &&& self.digests.len() == self.blocks.len()
        &&& self.heights.len() == self.blocks.len()
        &&& forall|i: int| 0 <= i < self.digests.len() ==> {
            &&& #[trigger] v.blocks.contains_key(self.digests[i]@)
            &&& v.blocks[self.digests[i]@] == self.blocks[i]@
            &&& v.heights[self.digests[i]@] == self.heights[i] as nat
        }
        &&& forall|d: Seq<u8>| #[trigger] v.blocks.contains_key(d)
            ==> exists|i: int| 0 <= i < self.digests.len() && self.digests[i]@ == d
        &&& forall|i: int, j: int| 0 <= i < j < self.digests.len() ==> self.digests[i]@ != self.digests[j]@
        &&& v.tips == digest_set(self.tips@)
        &&& distinct_digests(self.tips@)
    }

    /// A well-formed tree.
    pub open spec fn wf(&self) -> bool {
        tree_wf(self@) && self.inv()
    }

    /// The stored digests are exactly the blocks of the view.
    closed spec fn inv_blocks(&self) -> bool {
        let v = self.model@;
        &&& self.digests.len() == self.blocks.len()
        &&& self.heights.len() == self.blocks.len()
        &&& forall|d: Seq<u8>| #[trigger] v.blocks.contains_key(d)
            ==> exists|i: int| 0 <= i < self.digests.len() && self.digests[i]@ == d
    }

    /// The position of digest `d`, if the tree holds it.
    fn find(&self, d: &Digest) -> (r: Option<usize>)
        requires
            self.inv_blocks(),
        ensures
            match r {
                Some(i) => i < self.digests.len() && self.digests[i as int]@ == d@,
                None => !self@.blocks.contains_key(d@),
            },
    {
        let mut i: usize = 0;
        while i < self.digests.len()
            invariant
                0 <= i <= self.digests.len(),
                forall|j: int| 0 <= j < i ==> self.digests[j]@ != d@,
            decreases self.digests.len() - i,
        {
            if self.digests[i] == *d {
                return Some(i);
            }
            i = i + 1;
        }
        None
    }

    /// The position of a digest of the tree, with what the view says of it.
    fn index_of(&self, d: &Digest) -> (r: Option<usize>)
        requires
            self.wf(),
        ensures
            match r {
                Some(i) => {
                    &&& i < self.digests.len()
                    &&& self@.blocks.contains_key(d@)
                    &&& self.digests[i as int]@ == d@
                    &&& self@.blocks[d@] == self.blocks[i as int]@
                    &&& self@.heights[d@] == self.heights[i as int] as nat
                },
                None => !self@.blocks.contains_key(d@),
            },
    {
        let r = self.find(d);
        proof {
            if let Some(i) = r {
                assert(self@.blocks.contains_key(self.digests[i as int]@));
            }
        }
        r
    }

    /// The height of block `b`: the number of blocks from it back to genesis,
    /// genesis excluded.
    pub fn height(&self, b: &Digest) -> (r: Result<usize, &'static str>)
        requires
            self.wf(),
        ensures
            match r {
                Ok(h) => self@.blocks.contains_key(b@) && h as nat == self@.heights[b@],
                Err(e) => !self@.blocks.contains_key(b@) && e == "Unknown block!",
            },
    {
        match self.index_of(b) {
            None => Err("Unknown block!"),
            Some(i) => Ok(self.heights[i]),
        }
    }

    /// The parent of block `b`.
    pub fn parent(&self, b: &Digest) -> (r: Result<Option<Digest>, &'static str>)
        requires
            self.wf(),
        ensures
            match r {
                Ok(p) => self@.blocks.contains_key(b@) && crate::codec::opt_bytes(p) == self@.blocks[b@].parent,
                Err(e) => !self@.blocks.contains_key(b@) && e == "Unknown block!",
            },
    {
        match self.index_of(b) {
            None => Err("Unknown block!"),
            Some(i) => Ok(self.blocks[i].parent),
        }
    }

    /// A copy of block `b`.
    pub fn block(&self, b: &Digest) -> (r: Result<LcBlock, &'static str>)
        requires
            self.wf(),
        ensures
            match r {
                Ok(blk) => self@.blocks.contains_key(b@) && blk@ == self@.blocks[b@],
                Err(e) => !self@.blocks.contains_key(b@) && e == "Unknown block!",
            },
    {
        match self.index_of(b) {
            None => Err("Unknown block!"),
            Some(i) => Ok(self.blocks[i].duplicate()),
        }
    }

    /// The higher of two blocks, `b1` when their heights are equal.
    pub fn higher_of<'a>(&'a self, b1: &'a Digest, b2: &'a Digest) -> (r: Result<&'a Digest, &'static str>)
        requires
            self.wf(),
        ensures
            match r {
                Ok(d) => {
                    &&& self@.blocks.contains_key(b1@)
                    &&& self@.blocks.contains_key(b2@)
                    &&& d@ == if self@.heights[b1@] >= self@.heights[b2@] { b1@ } else { b2@ }
                },
                Err(e) => if !self@.blocks.contains_key(b1@) {
                    e == "Unknown block b1!"
                } else {
                    !self@.blocks.contains_key(b2@) && e == "Unknown block b2!"
                },
            },
    {
        let i1 = match self.index_of(b1) {
            None => {
                return Err("Unknown block b1!");
            },
            Some(i) => i,
        };
        let i2 = match self.index_of(b2) {
            None => {
                return Err("Unknown block b2!");
            },
            Some(i) => i,
        };
        if self.heights[i1] >= self.heights[i2] {
            Ok(b1)
        } else {
            Ok(b2)
        }
    }

    /// The winner of `d1` against `d2` in the order in which tips compete.
    pub fn tie_break<'a>(&'a self, d1: &'a Digest, d2: &'a Digest) -> (r: &'a Digest)
        requires
            self.wf(),
            self@.blocks.contains_key(d1@),
            self@.blocks.contains_key(d2@),
        ensures
            r@ == tie_break_spec(self@, d1@, d2@),
    {
        let i1 = self.index_of(d1).unwrap();
        let i2 = self.index_of(d2).unwrap();
        let h1 = self.heights[i1];
        let h2 = self.heights[i2];
        if h1 > h2 {
            return d1;
        }
        if h2 > h1 {
            return d2;
        }
        let a1 = self.blocks[i1].is_adversarial();
        let a2 = self.blocks[i2].is_adversarial();
        if a1 && !a2 {
            return d1;
        }
        if a2 && !a1 {
            return d2;
        }
        if d1.lt(d2) {
            d1
        } else {
            d2
        }
    }

    /// The block `k` parent links below `b`, or the genesis block when the
    /// chain is shorter.
    pub fn k_deep<'a>(&'a self, k: usize, b: &'a Digest) -> (r: &'a Digest)
        requires
            self.wf(),
            k > 0 ==> self@.blocks.contains_key(b@),
        ensures
            r@ == ancestor(self@, b@, k as nat),
    {
        let mut cur: &'a Digest = b;
        let mut i: usize = 0;
        while i < k
            invariant
                self.wf(),
                0 <= i <= k,
                i < k ==> self@.blocks.contains_key(cur@),
                ancestor(self@, b@, k as nat) == ancestor(self@, cur@, (k - i) as nat),
            decreases k - i,
        {
            let j = self.index_of(cur).unwrap();
            match &self.blocks[j].parent {
                None => {
                    return cur;
                },
                Some(p) => {
                    proof {
                        assert(self@.blocks.contains_key(p@));
                    }
                    cur = p;
                },
            }
            i = i + 1;
        }
        cur
    }

    /// Whether `s` lies on the chain from `l` back to genesis.
    pub fn is_prefix_of(&self, s: &Digest, l: &Digest) -> (r: Result<bool, &'static str>)
        requires
            self.wf(),
        ensures
            match r {
                Ok(x) => {
                    &&& self@.blocks.contains_key(s@)
                    &&& self@.blocks.contains_key(l@)
                    &&& x == is_prefix(self@, s@, l@)
                },
                Err(e) => if !self@.blocks.contains_key(s@) {
                    e == "Unknown block blk_short_digest!"
                } else {
                    !self@.blocks.contains_key(l@) && e == "Unknown block blk_long_digest!"
                },
            },
    {
        let si = match self.index_of(s) {
            None => {
                return Err("Unknown block blk_short_digest!");
            },
            Some(i) => i,
        };
        let mut ci = match self.index_of(l) {
            None => {
                return Err("Unknown block blk_long_digest!");
            },
            Some(i) => i,
        };
        let hs = self.heights[si];
        loop
            invariant
                self.wf(),
                si < self.digests.len(),
                ci < self.digests.len(),
                hs as nat == self@.heights[s@],
                self@.blocks.contains_key(s@),
                self@.blocks.contains_key(l@),
                is_prefix(self@, s@, l@) == (hs <= self.heights[ci as int] && ancestor(
                    self@,
                    self.digests[ci as int]@,
                    (self.heights[ci as int] - hs) as nat,
                ) == s@),
            decreases self.heights[ci as int],
        {
            proof {
                assert(self@.blocks.contains_key(self.digests[ci as int]@));
            }
            if hs > self.heights[ci] {
                return Ok(false);
            }
            if self.digests[ci] == *s {
                return Ok(true);
            }
            match &self.blocks[ci].parent {
                None => {
                    return Ok(false);
                },
                Some(p) => {
                    ci = self.index_of(p).unwrap();
                },
            }
        }
    }

    /// The leading tip on a chain through `cp`: among `cp` and the tips that
    /// extend it, the one that ranks above all the others. The result does not
    /// depend on the order in which the tips are stored.
    pub fn leading_tip_extending<'a>(&'a self, cp: &'a Digest) -> (r: &'a Digest)
        requires
            self.wf(),
            self@.blocks.contains_key(cp@),
        ensures
            is_leading(self@, cp@, r@),
            childless_are_tips(self@) ==> forall|b: Seq<u8>| #[trigger] self@.blocks.contains_key(b) && is_prefix(self@, cp@, b)
                ==> self@.heights[b] <= self@.heights[r@],
    {
        let mut best: &'a Digest = cp;
        let mut i: usize = 0;
        while i < self.tips.len()
            invariant
                self.wf(),
                self@.blocks.contains_key(cp@),
                0 <= i <= self.tips.len(),
                extending_candidates(self@, cp@).contains(best@),
                best@ == cp@ || ranks_above(self@, best@, cp@),
                forall|j: int| 0 <= j < i && is_prefix(self@, cp@, #[trigger] self.tips@[j]@)
                    ==> self.tips@[j]@ == best@ || ranks_above(self@, best@, self.tips@[j]@),
            decreases self.tips.len() - i,
        {
            let t = &self.tips[i];
            proof {
                assert(self@.tips.contains(t@));
                assert(self@.blocks.contains_key(t@));
                assert(self@.blocks.contains_key(best@));
            }
            let w = self.tie_break(t, best);
            if *w == *t && self.is_prefix_of(cp, t).unwrap() {
                proof {
                    if t@ != best@ {
                        assert(ranks_above(self@, t@, best@));
                        assert forall|j: int| 0 <= j < i + 1 && is_prefix(self@, cp@, #[trigger] self.tips@[j]@)
                            implies self.tips@[j]@ == t@ || ranks_above(self@, t@, self.tips@[j]@) by {
                            if j < i && self.tips@[j]@ != best@ {
                                lemma_ranks_transitive(self@, t@, best@, self.tips@[j]@);
                            }
                        }
                        if best@ != cp@ {
                            lemma_ranks_transitive(self@, t@, best@, cp@);
                        }
                    }
                }
                best = t;
            } else {
                proof {
                    if is_prefix(self@, cp@, t@) && t@ != best@ {
                        lemma_ranks_total(self@, t@, best@);
                    }
                }
            }
            i = i + 1;
        }
        proof {
            assert forall|c: Seq<u8>| #[trigger] extending_candidates(self@, cp@).contains(c)
                implies c == best@ || ranks_above(self@, best@, c) by {
                if c != cp@ {
                    assert(self@.tips.contains(c));
                    let j = choose|j: int| 0 <= j < self.tips@.len() && self.tips@[j]@ == c;
                    assert(is_prefix(self@, cp@, self.tips@[j]@));
                }
            }
            if childless_are_tips(self@) {
                crate::tree_laws::lemma_leading_is_longest(self@, cp@, best@);
            }
        }
        best
    }

    /// The number of honest blocks on the chain from `b` back to genesis,
    /// genesis excluded.
    pub fn height_honest(&self, b: &Digest) -> (r: Result<usize, &'static str>)
        requires
            self.wf(),
        ensures
            match r {
                Ok(h) => self@.blocks.contains_key(b@) && h as nat == honest_height(self@, b@),
                Err(e) => !self@.blocks.contains_key(b@) && e == "Unknown block!",
            },
    {
        let mut ci = match self.index_of(b) {
            None => {
                return Err("Unknown block!");
            },
            Some(i) => i,
        };
        let mut acc: usize = 0;
        loop
            invariant
                self.wf(),
                self@.blocks.contains_key(b@),
                ci < self.digests.len(),
                honest_height(self@, b@) == acc + honest_height(self@, self.digests[ci as int]@),
                acc + self.heights[ci as int] <= self@.heights[b@],
            decreases self.heights[ci as int],
        {
            let ghost c = self.digests[ci as int]@;
            proof {
                assert(self@.blocks.contains_key(c));
            }
            match &self.blocks[ci].parent {
                None => {
                    return Ok(acc);
                },
                Some(p) => {
                    let adv = self.blocks[ci].is_adversarial();
                    let ni = self.index_of(p).unwrap();
                    proof {
                        assert(self@.blocks.contains_key(p@));
                        assert(honest_count(self@, c, self@.heights[c]) == honest_count(self@, p@, self@.heights[p@])
                            + if is_adversarial_view(self@.blocks[c]) { 0nat } else { 1nat });
                        assert(self@.heights[b@] <= usize::MAX) by {
                            let k = choose|k: int| 0 <= k < self.digests.len() && self.digests[k]@ == b@;
                            assert(self@.blocks.contains_key(self.digests[k]@));
                        }
                    }
                    if !adv {
                        acc = acc + 1;
                    }
                    ci = ni;
                },
            }
        }
    }

    /// The tree holds as many blocks as it stores digests.
    proof fn lemma_size(&self)
        requires
            self.wf(),
        ensures
            self@.blocks.dom().len() == self.digests.len(),
    {
        let s = self.digests@.map_values(|x: Digest| x@);
        assert(s.no_duplicates()) by {
            assert forall|i: int, j: int| 0 <= i < s.len() && 0 <= j < s.len() && i != j
                implies s[i] != s[j] by {
                if i < j {
                    assert(self.digests@[i]@ != self.digests@[j]@);
                } else {
                    assert(self.digests@[j]@ != self.digests@[i]@);
                }
            }
        }
        assert(s.to_set() =~= self@.blocks.dom()) by {
            assert forall|x: Seq<u8>| s.to_set().contains(x) <==> self@.blocks.dom().contains(x) by {
                if s.to_set().contains(x) {
                    let i = choose|i: int| 0 <= i < s.len() && s[i] == x;
                    assert(self@.blocks.contains_key(self.digests@[i]@));
                }
                if self@.blocks.dom().contains(x) {
                    let i = choose|i: int| 0 <= i < self.digests.len() && self.digests@[i]@ == x;
                    assert(s[i] == x);
                }
            }
        }
        s.unique_seq_to_set();
    }

    /// Attaches `blk` below its parent, as the block stored under its digest
    /// (a block held under that digest before is replaced). Fails, leaving the
    /// tree as it was, when the block has no parent or its parent is not in the
    /// tree. The tree stays well formed exactly when `add_keeps_shape` holds,
    /// which it does whenever the tree held no other block under that digest.
    pub fn add(&mut self, blk: LcBlock) -> (r: Result<(), &'static str>)
        requires
            old(self).wf(),
        ensures
            match blk@.parent {
                None => r == Err::<(), &'static str>("Parent is None, there can be only one genesis block!")
                    && final(self)@ == old(self)@ && final(self).wf(),
                Some(p) => if old(self)@.blocks.contains_key(p) {
                    &&& r == Ok::<(), &'static str>(())
                    &&& final(self)@ == tree_after_add(old(self)@, blk@, p)
                    &&& final(self).wf() == add_keeps_shape(old(self)@, blk@, p)
                } else {
                    r == Err::<(), &'static str>("Parent is unknown!") && final(self)@ == old(self)@
                        && final(self).wf()
                },
            },
    {
        let d = blk.digest();
        let p = match blk.parent {
            None => {
                return Err("Parent is None, there can be only one genesis block!");
            },
            Some(p) => p,
        };
        let pi = match self.find(&p) {
            None => {
                return Err("Parent is unknown!");
            },
            Some(i) => i,
        };
        let ghost old_v = self@;
        let ghost new_v = tree_after_add(old_v, blk@, p@);
        let ghost old_digests = self.digests@;
        proof {
            assert(old_v.blocks.contains_key(p@));
            assert(old_v.heights[p@] == self.heights[pi as int]);
            lemma_height_below_size(old_v, p@);
            self.lemma_size();
            crate::tree_laws::lemma_add_wf_iff(old_v, blk@, p@);
        }
        let new_h = self.heights[pi] + 1;
        let di = self.find(&d);
        remove_digest(&mut self.tips, &p);
        insert_digest(&mut self.tips, &d);
        match di {
            Some(i) => {
                self.blocks.set(i, blk);
                self.heights.set(i, new_h);
            },
            None => {
                self.digests.push(d);
                self.blocks.push(blk);
                self.heights.push(new_h);
            },
        }
        self.model = Ghost(new_v);
        proof {
            assert forall|i: int| 0 <= i < self.digests.len() implies {
                &&& #[trigger] new_v.blocks.contains_key(self.digests[i]@)
                &&& new_v.blocks[self.digests[i]@] == self.blocks[i]@
                &&& new_v.heights[self.digests[i]@] == self.heights[i] as nat
            } by {
                if i < old_digests.len() {
                    assert(old_v.blocks.contains_key(old_digests[i]@));
                    if old_digests[i]@ == d@ {
                    } else {
                        assert(self.digests[i] == old_digests[i]);
                    }
                }
            }
            assert forall|e: Seq<u8>| #[trigger] new_v.blocks.contains_key(e)
                implies exists|i: int| 0 <= i < self.digests.len() && self.digests[i]@ == e by {
                if e == d@ {
                    match di {
                        Some(i) => { assert(self.digests[i as int]@ == e); },
                        None => { assert(self.digests[old_digests.len() as int]@ == e); },
                    }
                } else {
                    assert(old_v.blocks.contains_key(e));
                    let i = choose|i: int| 0 <= i < old_digests.len() && old_digests[i]@ == e;
                    assert(self.digests[i]@ == e);
                }
            }
            assert forall|i: int, j: int| 0 <= i < j < self.digests.len()
                implies self.digests[i]@ != self.digests[j]@ by {
                if j == old_digests.len() {
                    assert(old_v.blocks.contains_key(old_digests[i]@));
                }
            }
            assert(self.inv());
        }
        Ok(())
    }

    /// Whether attaching `blk` below its parent `p`, a block of the tree, would
    /// keep the tree well formed.
    fn keeps_shape(&self, blk: &LcBlock, p: &Digest) -> (r: bool)
        requires
            self.wf(),
            blk@.parent == Some(p@),
            self@.blocks.contains_key(p@),
        ensures
            r == add_keeps_shape(self@, blk@, p@),
    {
        let d = blk.digest();
        let g = LcBlock::genesis().digest();
        if d == g || d == *p {
            return false;
        }
        let pi = self.index_of(p).unwrap();
        let hp = self.heights[pi];
        let mut i: usize = 0;
        while i < self.digests.len()
            invariant
                self.wf(),
                0 <= i <= self.digests.len(),
                hp as nat == self@.heights[p@],
                d@ == block_digest(blk@),
                forall|j: int| 0 <= j < i && self@.blocks[self.digests[j]@].parent == Some(d@)
                    ==> self@.heights[self.digests[j]@] == self@.heights[p@] + 2,
            decreases self.digests.len() - i,
        {
            proof {
                assert(self@.blocks.contains_key(self.digests[i as int]@));
            }
            let below_d = match &self.blocks[i].parent {
                Some(q) => *q == d,
                None => false,
            };
            if below_d && !(self.heights[i] >= 2 && self.heights[i] - 2 == hp) {
                return false;
            }
            i = i + 1;
        }
        proof {
            assert forall|c: Seq<u8>| #[trigger] self@.blocks.contains_key(c) && self@.blocks[c].parent == Some(d@)
                implies self@.heights[c] == self@.heights[p@] + 2 by {
                let j = choose|j: int| 0 <= j < self.digests.len() && self.digests[j]@ == c;
            }
        }
        true
    }

    /// Like `add`, but refuses with "Digest collision!", leaving the tree as
    /// it was, where attaching the block would leave the tree ill formed (this
    /// takes a different block already held under its digest).
    pub fn try_add(&mut self, blk: LcBlock) -> (r: Result<(), &'static str>)
        requires
            old(self).wf(),
        ensures
            final(self).wf(),
            match blk@.parent {
                None => r == Err::<(), &'static str>("Parent is None, there can be only one genesis block!")
                    && final(self)@ == old(self)@,
                Some(p) => if !old(self)@.blocks.contains_key(p) {
                    r == Err::<(), &'static str>("Parent is unknown!") && final(self)@ == old(self)@
                } else if add_keeps_shape(old(self)@, blk@, p) {
                    r == Ok::<(), &'static str>(()) && final(self)@ == tree_after_add(old(self)@, blk@, p)
                } else {
                    r == Err::<(), &'static str>("Digest collision!") && final(self)@ == old(self)@
                },
            },
    {
        match &blk.parent {
            None => {},
            Some(p) => {
                let known = self.index_of(p).is_some();
                if known && !self.keeps_shape(&blk, p) {
                    return Err("Digest collision!");
                }
            },
        }
        self.add(blk)
    }

    /// The Graphviz text of the tree: a node for each block, labelled with its
    /// digest, its text and the iterations at which it was a checkpoint
    /// (`cps[i]` decided at iteration `cps_iterations[i]`), then an edge from
    /// each block to its parent. The blocks come in an order of the tree's
    /// choosing, the same for nodes and edges.
    pub fn dump_dot(&self, cps: &Vec<Digest>, cps_iterations: &Vec<usize>) -> (r: String)
        requires
            self.wf(),
            forall|i: int| 0 <= i < cps.len() && i >= cps_iterations.len() ==> !self@.blocks.contains_key(#[trigger] cps@[i]@),
        ensures
            exists|order: Seq<Seq<u8>>| {
                &&& order.no_duplicates()
                &&& order.to_set() == self@.blocks.dom()
                &&& r@ == dot_text(self@, order, cps@.map_values(|c: Digest| c@), cps_iterations@)
            },
    {
        let ghost v = self@;
        let ghost cv = cps@.map_values(|c: Digest| c@);
        let ghost dv = self.digests@.map_values(|d: Digest| d@);
        let mut out: Vec<char> = Vec::new();
        push_str(&mut out, DOT_HEADER);
        let ghost head = out@;
        let mut i: usize = 0;
        while i < self.digests.len()
            invariant
                self.wf(),
                v == self@,
                cv == cps@.map_values(|c: Digest| c@),
                dv == self.digests@.map_values(|d: Digest| d@),
                forall|j: int| 0 <= j < cps.len() && j >= cps_iterations.len() ==> !self@.blocks.contains_key(#[trigger] cps@[j]@),
                0 <= i <= self.digests.len(),
                head == DOT_HEADER@,
                out@ == head + dot_nodes(v, dv.take(i as int), cv, cps_iterations@),
            decreases self.digests.len() - i,
        {
            let d = &self.digests[i];
            proof {
                assert(v.blocks.contains_key(self.digests[i as int]@));
                assert(dv.take(i + 1).drop_last() =~= dv.take(i as int));
                assert(dv.take(i + 1).last() == d@);
                assert forall|j: int| 0 <= j < cps.len() && cps@[j]@ == d@ implies j < cps_iterations.len() by {
                    if j >= cps_iterations.len() {
                        assert(!self@.blocks.contains_key(cps@[j]@));
                    }
                }
            }
            push_node_line(&mut out, d, &self.blocks[i], cps, cps_iterations);
            proof {
                assert(out@ =~= head + dot_nodes(v, dv.take(i + 1), cv, cps_iterations@));
            }
            i = i + 1;
        }
        let ghost mid = out@;
        let mut i: usize = 0;
        while i < self.digests.len()
            invariant
                self.wf(),
                v == self@,
                dv == self.digests@.map_values(|d: Digest| d@),
                0 <= i <= self.digests.len(),
                out@ == mid + dot_edges(v, dv.take(i as int)),
            decreases self.digests.len() - i,
        {
            let d = &self.digests[i];
            proof {
                assert(v.blocks.contains_key(self.digests[i as int]@));
                assert(dv.take(i + 1).drop_last() =~= dv.take(i as int));
                assert(dv.take(i + 1).last() == d@);
            }
            match &self.blocks[i].parent {
                Some(p) => {
                    push_edge_line(&mut out, d, p);
                },
                None => {},
            }
            proof {
                assert(out@ =~= mid + dot_edges(v, dv.take(i + 1)));
            }
            i = i + 1;
        }
        push_str(&mut out, "}\n");
        proof {
            assert(dv.take(self.digests.len() as int) =~= dv);
            assert(out@ =~= dot_text(v, dv, cv, cps_iterations@));
            assert forall|a: int, b: int| 0 <= a < dv.len() && 0 <= b < dv.len() && a != b implies dv[a] != dv[b] by {
                if a < b {
                    assert(self.digests[a]@ != self.digests[b]@);
                } else {
                    assert(self.digests[b]@ != self.digests[a]@);
                }
            }
            assert forall|x: Seq<u8>| dv.to_set().contains(x) <==> v.blocks.dom().contains(x) by {
                if dv.to_set().contains(x) {
                    let k = choose|k: int| 0 <= k < dv.len() && dv[k] == x;
                    assert(v.blocks.contains_key(self.digests[k]@));
                }
                if v.blocks.dom().contains(x) {
                    assert(v.blocks.contains_key(x));
                    let k = choose|k: int| 0 <= k < self.digests.len() && self.digests[k]@ == x;
                    assert(dv[k] == x);
                }
            }
            assert(dv.to_set() =~= v.blocks.dom());
        }
        string_from_chars(&out)
    }

    /// A tree that holds the genesis block alone, which is also its only tip.
    pub fn new() -> (t: LcBlockTree)
        ensures
            t.wf(),
            t@.blocks == map![genesis_digest() => genesis_view()],
            t@.heights == map![genesis_digest() => 0nat],
            t@.tips == set![genesis_digest()],
            tips_exact(t@),
            childless_are_tips(t@),
    {
        let blk = LcBlock::genesis();
        let d = blk.digest();
        let mut digests: Vec<Digest> = Vec::new();
        digests.push(d);
        let mut blocks: Vec<LcBlock> = Vec::new();
        blocks.push(blk);
        let mut heights: Vec<usize> = Vec::new();
        heights.push(0);
        let mut tips: Vec<Digest> = Vec::new();
        tips.push(d);
        let ghost v = LcBlockTreeView {
            blocks: map![genesis_digest() => genesis_view()],
            heights: map![genesis_digest() => 0nat],
            tips: set![genesis_digest()],
        };
        let t = LcBlockTree { digests, blocks, heights, tips, model: Ghost(v) };
        proof {
            assert(v.heights.dom() =~= v.blocks.dom());
            assert(t.digests[0]@ == genesis_digest());
            assert forall|e: Seq<u8>| #[trigger] v.blocks.contains_key(e)
                implies exists|i: int| 0 <= i < t.digests.len() && t.digests[i]@ == e by {
                assert(t.digests[0]@ == e);
            }
            assert forall|e: Seq<u8>| v.tips.contains(e) <==> digest_set(t.tips@).contains(e) by {
                if v.tips.contains(e) {
                    assert(t.tips@[0]@ == e);
                }
            }
            assert(v.tips =~= digest_set(t.tips@));
            assert forall|d: Seq<u8>| #[trigger] v.tips.contains(d) <==> (v.blocks.contains_key(d) && !has_child(v, d)) by {
                if has_child(v, d) {
                    let c = choose|c: Seq<u8>| #[trigger] v.blocks.contains_key(c) && v.blocks[c].parent == Some(d);
                    assert(c == genesis_digest());
                }
            }
        }
        t
    }
}

} // verus!
