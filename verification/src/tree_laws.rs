use vstd::prelude::*;
use crate::lcblocks::LcBlockView;
use crate::lcblocktree::{LcBlockTreeView, ancestor, is_prefix, tree_wf, genesis_digest, is_leading, extending_candidates, lemma_ancestor, lemma_ranks_total, ranks_above, tie_break_spec, honest_height, lemma_honest_count_bound, tree_after_add, add_keeps_shape, tips_exact, has_child, lemma_height_below_size, childless_are_tips};

verus! {

/// Following `m` and then `n` parent links is following `m + n` links.
pub proof fn lemma_ancestor_compose(v: LcBlockTreeView, d: Seq<u8>, m: nat, n: nat)
    ensures
        ancestor(v, ancestor(v, d, m), n) == ancestor(v, d, m + n),
    decreases m,
{
    if m > 0 {
        match v.blocks[d].parent {
            None => {
                assert(ancestor(v, d, m) == d);
                lemma_root_fixed(v, d, n);
                lemma_root_fixed(v, d, m + n);
            },
            Some(p) => {
                lemma_ancestor_compose(v, p, (m - 1) as nat, n);
                assert((m - 1) as nat + n == (m + n - 1) as nat);
            },
        }
    }
}

/// A block without parent is its own ancestor at every depth.
pub proof fn lemma_root_fixed(v: LcBlockTreeView, d: Seq<u8>, k: nat)
    requires
        v.blocks[d].parent is None,
    ensures
        ancestor(v, d, k) == d,
{
}

/// Every block of a well-formed tree lies on a chain from the genesis block.
pub proof fn lemma_every_block_extends_genesis(v: LcBlockTreeView, d: Seq<u8>)
    requires
        tree_wf(v),
        v.blocks.contains_key(d),
    ensures
        is_prefix(v, genesis_digest(), d),
{
    lemma_ancestor(v, d, v.heights[d]);
    let r = ancestor(v, d, v.heights[d]);
    assert(v.blocks.contains_key(r));
    match v.blocks[r].parent {
        None => {},
        Some(p) => {
            assert(v.heights[r] == v.heights[p] + 1);
        },
    }
}

/// Every block is a prefix of itself.
pub proof fn lemma_prefix_reflexive(v: LcBlockTreeView, d: Seq<u8>)
    ensures
        is_prefix(v, d, d),
{
}

/// Being a prefix is transitive.
pub proof fn lemma_prefix_transitive(v: LcBlockTreeView, a: Seq<u8>, b: Seq<u8>, c: Seq<u8>)
    requires
        tree_wf(v),
        v.blocks.contains_key(c),
        is_prefix(v, a, b),
        is_prefix(v, b, c),
    ensures
        is_prefix(v, a, c),
{
    let m = (v.heights[c] - v.heights[b]) as nat;
    let n = (v.heights[b] - v.heights[a]) as nat;
    lemma_ancestor_compose(v, c, m, n);
    assert(m + n == (v.heights[c] - v.heights[a]) as nat);
}

/// Two blocks that are prefixes of each other are the same block.
pub proof fn lemma_prefix_antisymmetric(v: LcBlockTreeView, a: Seq<u8>, b: Seq<u8>)
    requires
        is_prefix(v, a, b),
        is_prefix(v, b, a),
    ensures
        a == b,
{
}

/// The block `k` links below `b` is a prefix of `b`.
pub proof fn lemma_k_deep_is_prefix(v: LcBlockTreeView, b: Seq<u8>, k: nat)
    requires
        tree_wf(v),
        v.blocks.contains_key(b),
    ensures
        is_prefix(v, ancestor(v, b, k), b),
{
    lemma_ancestor(v, b, k);
    let r = ancestor(v, b, k);
    if k <= v.heights[b] {
        assert((v.heights[b] - v.heights[r]) as nat == k);
    } else {
        // the chain ends in a block without parent at height 0
        lemma_ancestor(v, b, v.heights[b]);
        let g = ancestor(v, b, v.heights[b]);
        lemma_ancestor_compose(v, b, v.heights[b], (k - v.heights[b]) as nat);
        match v.blocks[g].parent {
            None => {
                lemma_root_fixed(v, g, (k - v.heights[b]) as nat);
            },
            Some(p) => {
                assert(v.heights[g] == v.heights[p] + 1);
            },
        }
    }
}

/// The leading tip extending a checkpoint lies on a chain through it, and is
/// not outranked by the checkpoint.
pub proof fn lemma_leading_extends_checkpoint(v: LcBlockTreeView, cp: Seq<u8>, r: Seq<u8>)
    requires
        is_leading(v, cp, r),
    ensures
        is_prefix(v, cp, r),
        r == cp || ranks_above(v, r, cp),
{
    assert(extending_candidates(v, cp).contains(cp));
}

/// The leading tip is unique: two candidates that both rank above all others
/// are the same block.
pub proof fn lemma_leading_unique(v: LcBlockTreeView, cp: Seq<u8>, r1: Seq<u8>, r2: Seq<u8>)
    requires
        tree_wf(v),
        v.blocks.contains_key(cp),
        is_leading(v, cp, r1),
        is_leading(v, cp, r2),
    ensures
        r1 == r2,
{
    if r1 != r2 {
        assert(extending_candidates(v, cp).contains(r1));
        assert(extending_candidates(v, cp).contains(r2));
        assert(v.blocks.contains_key(r1));
        assert(v.blocks.contains_key(r2));
        lemma_ranks_total(v, r1, r2);
    }
}

/// The tie break between two blocks does not depend on their order.
pub proof fn lemma_tie_break_symmetric(v: LcBlockTreeView, a: Seq<u8>, b: Seq<u8>)
    requires
        tree_wf(v),
        v.blocks.contains_key(a),
        v.blocks.contains_key(b),
    ensures
        tie_break_spec(v, a, b) == tie_break_spec(v, b, a),
{
    if a != b {
        lemma_ranks_total(v, a, b);
    } else {
        crate::types::lemma_bytes_lt_irreflexive(a);
    }
}

/// The honest height of a block is at most its height.
pub proof fn lemma_honest_height_bound(v: LcBlockTreeView, d: Seq<u8>)
    ensures
        honest_height(v, d) <= v.heights[d],
{
    lemma_honest_count_bound(v, d, v.heights[d]);
}

/// Adding a block below a parent of the tree keeps the tree well formed.
pub proof fn lemma_add_keeps_wf(v: LcBlockTreeView, b: LcBlockView, p: Seq<u8>)
    requires
        tree_wf(v),
        b.parent == Some(p),
        v.blocks.contains_key(p),
        crate::lcblocks::block_digest(b).len() == 32,
        v.blocks.contains_key(crate::lcblocks::block_digest(b))
            ==> v.blocks[crate::lcblocks::block_digest(b)] == b,
    ensures
        tree_wf(tree_after_add(v, b, p)),
{
    let d = crate::lcblocks::block_digest(b);
    let w = tree_after_add(v, b, p);
    assert(w.heights.dom() =~= w.blocks.dom());
    assert forall|e: Seq<u8>| #[trigger] w.blocks.contains_key(e)
        implies match w.blocks[e].parent {
            None => e == genesis_digest() && w.heights[e] == 0,
            Some(q) => w.blocks.contains_key(q) && w.heights[e] == w.heights[q] + 1,
        } by {
        if e != d {
            assert(v.blocks.contains_key(e));
            match v.blocks[e].parent {
                None => {},
                Some(q) => {
                    assert(v.blocks.contains_key(q));
                },
            }
        }
    }
}

/// Attaching `b` below `p`, replacing any block held under its digest, keeps
/// the tree well formed exactly when `add_keeps_shape` holds; that is so
/// whenever the tree held no other block under the digest of `b`.
pub proof fn lemma_add_wf_iff(v: LcBlockTreeView, b: LcBlockView, p: Seq<u8>)
    requires
        tree_wf(v),
        b.parent == Some(p),
        v.blocks.contains_key(p),
        crate::lcblocks::block_digest(b).len() == 32,
    ensures
        tree_wf(tree_after_add(v, b, p)) <==> add_keeps_shape(v, b, p),
        (v.blocks.contains_key(crate::lcblocks::block_digest(b))
            ==> v.blocks[crate::lcblocks::block_digest(b)] == b) ==> add_keeps_shape(v, b, p),
{
    let d = crate::lcblocks::block_digest(b);
    let w = tree_after_add(v, b, p);
    if v.blocks.contains_key(d) && v.blocks[d] == b {
        assert(v.heights[d] == v.heights[p] + 1);
        assert(d != genesis_digest());
    }
    if add_keeps_shape(v, b, p) {
        assert(w.heights.dom() =~= w.blocks.dom());
        assert(w.blocks[genesis_digest()] == v.blocks[genesis_digest()]);
        assert forall|e: Seq<u8>| #[trigger] w.blocks.contains_key(e)
            implies match w.blocks[e].parent {
                None => e == genesis_digest() && w.heights[e] == 0,
                Some(q) => w.blocks.contains_key(q) && w.heights[e] == w.heights[q] + 1,
            } by {
            if e != d {
                assert(v.blocks.contains_key(e));
                match v.blocks[e].parent {
                    None => {},
                    Some(q) => {
                        assert(v.blocks.contains_key(q));
                    },
                }
            }
        }
        assert(tree_wf(w));
    }
    if tree_wf(w) {
        if d == genesis_digest() {
            assert(w.blocks[d] == b);
            assert(b.parent is None);
        }
        assert(d != p) by {
            if d == p {
                assert(w.blocks.contains_key(d));
            }
        }
        assert forall|c: Seq<u8>| #[trigger] v.blocks.contains_key(c) && v.blocks[c].parent == Some(d)
            implies v.heights[c] == v.heights[p] + 2 by {
            if c == d {
                assert(v.heights[d] == v.heights[d] + 1);
            }
            assert(w.blocks.contains_key(c));
            assert(w.blocks[c] == v.blocks[c]);
        }
    }
}

/// Adding a block below a parent of the tree changes no chain of the tree:
/// among the blocks that were there, the prefix relation stays as it was.
pub proof fn lemma_add_keeps_chains(v: LcBlockTreeView, b: LcBlockView, p: Seq<u8>, x: Seq<u8>, y: Seq<u8>)
    requires
        tree_wf(v),
        b.parent == Some(p),
        v.blocks.contains_key(p),
        v.blocks.contains_key(crate::lcblocks::block_digest(b))
            ==> v.blocks[crate::lcblocks::block_digest(b)] == b,
        v.blocks.contains_key(x),
        v.blocks.contains_key(y),
    ensures
        is_prefix(tree_after_add(v, b, p), x, y) == is_prefix(v, x, y),
{
    let w = tree_after_add(v, b, p);
    let d = crate::lcblocks::block_digest(b);
    if v.blocks.contains_key(d) {
        assert(v.heights[d] == v.heights[p] + 1);
    }
    assert(w.heights[x] == v.heights[x]);
    assert(w.heights[y] == v.heights[y]);
    lemma_ancestor_same(v, b, p, y, (v.heights[y] - v.heights[x]) as nat);
}

/// Below a block that was in the tree, adding a block changes no ancestor.
pub proof fn lemma_ancestor_same(v: LcBlockTreeView, b: LcBlockView, p: Seq<u8>, y: Seq<u8>, k: nat)
    requires
        tree_wf(v),
        b.parent == Some(p),
        v.blocks.contains_key(p),
        v.blocks.contains_key(crate::lcblocks::block_digest(b))
            ==> v.blocks[crate::lcblocks::block_digest(b)] == b,
        v.blocks.contains_key(y),
    ensures
        ancestor(tree_after_add(v, b, p), y, k) == ancestor(v, y, k),
    decreases k,
{
    let w = tree_after_add(v, b, p);
    assert(w.blocks[y] == v.blocks[y]);
    if k > 0 {
        match v.blocks[y].parent {
            None => {},
            Some(q) => {
                lemma_ancestor_same(v, b, p, q, (k - 1) as nat);
            },
        }
    }
}

/// After adding a block below `p`, `p` is a prefix of it and it is a tip.
pub proof fn lemma_add_extends_parent(v: LcBlockTreeView, b: LcBlockView, p: Seq<u8>)
    requires
        tree_wf(v),
        b.parent == Some(p),
        v.blocks.contains_key(p),
        v.blocks.contains_key(crate::lcblocks::block_digest(b))
            ==> v.blocks[crate::lcblocks::block_digest(b)] == b,
    ensures
        is_prefix(tree_after_add(v, b, p), p, crate::lcblocks::block_digest(b)),
        tree_after_add(v, b, p).tips.contains(crate::lcblocks::block_digest(b)),
        tree_after_add(v, b, p).heights[crate::lcblocks::block_digest(b)] == v.heights[p] + 1,
{
    let w = tree_after_add(v, b, p);
    let d = crate::lcblocks::block_digest(b);
    if v.blocks.contains_key(d) {
        assert(v.heights[d] == v.heights[p] + 1);
    }
    assert(p != d);
    assert(w.heights[p] == v.heights[p]);
    assert(ancestor(w, d, 1) == ancestor(w, p, 0));
}

} // verus!

verus! {

/// Two prefixes of one block lie on one chain: the lower is a prefix of the
/// higher.
pub proof fn lemma_prefixes_comparable(v: LcBlockTreeView, x: Seq<u8>, y: Seq<u8>, t: Seq<u8>)
    requires
        tree_wf(v),
        v.blocks.contains_key(t),
        is_prefix(v, x, t),
        is_prefix(v, y, t),
        v.heights[x] <= v.heights[y],
    ensures
        is_prefix(v, x, y),
{
    let m = (v.heights[t] - v.heights[y]) as nat;
    let n = (v.heights[y] - v.heights[x]) as nat;
    lemma_ancestor_compose(v, t, m, n);
    assert(m + n == (v.heights[t] - v.heights[x]) as nat);
}

} // verus!

verus! {

/// Adding a block under a digest the tree does not hold keeps the tips exactly
/// the blocks without a child: the parent stops being a tip and the new block
/// becomes one.
pub proof fn lemma_add_keeps_tips(v: LcBlockTreeView, b: LcBlockView, p: Seq<u8>)
    requires
        tree_wf(v),
        tips_exact(v),
        b.parent == Some(p),
        v.blocks.contains_key(p),
        !v.blocks.contains_key(crate::lcblocks::block_digest(b)),
    ensures
        tips_exact(tree_after_add(v, b, p)),
{
    let d = crate::lcblocks::block_digest(b);
    let w = tree_after_add(v, b, p);
    assert forall|x: Seq<u8>| #[trigger] w.tips.contains(x) <==> (w.blocks.contains_key(x) && !has_child(w, x)) by {
        if x == d {
            if has_child(w, d) {
                let c = choose|c: Seq<u8>| #[trigger] w.blocks.contains_key(c) && w.blocks[c].parent == Some(d);
                if c != d {
                    assert(v.blocks.contains_key(c));
                }
            }
        } else if x == p {
            assert(w.blocks.contains_key(d) && w.blocks[d].parent == Some(p));
        } else {
            if has_child(w, x) {
                let c = choose|c: Seq<u8>| #[trigger] w.blocks.contains_key(c) && w.blocks[c].parent == Some(x);
                assert(c != d);
                assert(v.blocks.contains_key(c) && v.blocks[c].parent == Some(x));
            }
            if has_child(v, x) {
                let c = choose|c: Seq<u8>| #[trigger] v.blocks.contains_key(c) && v.blocks[c].parent == Some(x);
                assert(c != d);
                assert(w.blocks.contains_key(c) && w.blocks[c].parent == Some(x));
            }
            assert(w.tips.contains(x) == v.tips.contains(x));
        }
    }
}

/// Where every block without a child is a tip, every block of the tree is a
/// prefix of some tip.
pub proof fn lemma_reaches_tip(v: LcBlockTreeView, b: Seq<u8>) -> (t: Seq<u8>)
    requires
        tree_wf(v),
        childless_are_tips(v),
        v.blocks.contains_key(b),
    ensures
        v.tips.contains(t),
        v.blocks.contains_key(t),
        is_prefix(v, b, t),
    decreases v.blocks.dom().len() - v.heights[b],
{
    lemma_height_below_size(v, b);
    if v.tips.contains(b) {
        lemma_prefix_reflexive(v, b);
        b
    } else {
        assert(has_child(v, b));
        let c = choose|c: Seq<u8>| #[trigger] v.blocks.contains_key(c) && v.blocks[c].parent == Some(b);
        assert(v.heights[c] == v.heights[b] + 1);
        lemma_height_below_size(v, c);
        let t = lemma_reaches_tip(v, c);
        assert(ancestor(v, c, 1) == ancestor(v, b, 0));
        assert(is_prefix(v, b, c));
        lemma_prefix_transitive(v, b, c, t);
        t
    }
}

/// Where every block without a child is a tip, the leading tip extending `cp`
/// is at least as high as every block on a chain through `cp`: it heads a
/// longest chain through the checkpoint.
pub proof fn lemma_leading_is_longest(v: LcBlockTreeView, cp: Seq<u8>, r: Seq<u8>)
    requires
        tree_wf(v),
        childless_are_tips(v),
        v.blocks.contains_key(cp),
        is_leading(v, cp, r),
    ensures
        forall|b: Seq<u8>| #[trigger] v.blocks.contains_key(b) && is_prefix(v, cp, b)
            ==> v.heights[b] <= v.heights[r],
{
    assert forall|b: Seq<u8>| #[trigger] v.blocks.contains_key(b) && is_prefix(v, cp, b)
        implies v.heights[b] <= v.heights[r] by {
        let t = lemma_reaches_tip(v, b);
        lemma_prefix_transitive(v, cp, b, t);
        assert(extending_candidates(v, cp).contains(t));
    }
}

/// Adding a block, new or the same as the one held under its digest, keeps
/// every block without a child a tip: the new block becomes a tip, and the
/// parent, which leaves the tips, now has a child. Re-adding a block that has
/// children makes it a tip again, which this allows.
pub proof fn lemma_add_keeps_childless_tips(v: LcBlockTreeView, b: LcBlockView, p: Seq<u8>)
    requires
        tree_wf(v),
        childless_are_tips(v),
        b.parent == Some(p),
        v.blocks.contains_key(p),
        v.blocks.contains_key(crate::lcblocks::block_digest(b))
            ==> v.blocks[crate::lcblocks::block_digest(b)] == b,
    ensures
        childless_are_tips(tree_after_add(v, b, p)),
{
    let d = crate::lcblocks::block_digest(b);
    let w = tree_after_add(v, b, p);
    if v.blocks.contains_key(d) {
        assert(v.heights[d] == v.heights[p] + 1);
    }
    assert(d != p);
    assert forall|x: Seq<u8>| #[trigger] w.blocks.contains_key(x) && !has_child(w, x) implies w.tips.contains(x) by {
        if x != d {
            assert(x != p) by {
                if x == p {
                    assert(w.blocks.contains_key(d) && w.blocks[d].parent == Some(p));
                }
            }
            assert(v.blocks.contains_key(x));
            if has_child(v, x) {
                let c = choose|c: Seq<u8>| #[trigger] v.blocks.contains_key(c) && v.blocks[c].parent == Some(x);
                if c == d {
                    assert(v.blocks[d] == b);
                }
                assert(w.blocks.contains_key(c) && w.blocks[c].parent == Some(x));
            }
        }
    }
}

/// Tips that are exactly the blocks without a child include every such block.
pub proof fn lemma_exact_tips_cover_childless(v: LcBlockTreeView)
    requires
        tips_exact(v),
    ensures
        childless_are_tips(v),
{
}

} // verus!
