use vstd::prelude::*;
use crate::types::Digest;
use crate::lcblocks::LcBlock;
use crate::lcblocktree::LcBlockTreeView;
use crate::display::{short_text, decimal, decimal_text};

verus! {

/// The first lines of the Graphviz text of a block tree.
pub const DOT_HEADER: &'static str = "digraph G_lc {\n  rankdir=BT;\n  style=filled;\n  color=lightgrey;\n  node [shape=box,style=filled,color=white];\n";

/// `s` without the characters `a` and `b`.
pub open spec fn without_chars(s: Seq<char>, a: char, b: char) -> Seq<char>
    decreases s.len(),
{
    if s.len() == 0 {
        s
    } else {
        let c = s.last();
        without_chars(s.drop_last(), a, b) + if c == a || c == b { Seq::empty() } else { seq![c] }
    }
}

/// The name under which a block appears in the graph: the short text of its
/// digest without `+` and `/`.
pub open spec fn dot_name(d: Seq<u8>) -> Seq<char> {
    without_chars(short_text(d), '+', '/')
}

/// The iterations at which `d` was a checkpoint, in the order of the list.
pub open spec fn checkpoint_iterations(d: Seq<u8>, cps: Seq<Seq<u8>>, iters: Seq<usize>) -> Seq<usize>
    decreases cps.len(),
{
    if cps.len() == 0 {
        Seq::empty()
    } else {
        checkpoint_iterations(d, cps.drop_last(), iters) + if cps.last() == d {
            seq![iters[cps.len() - 1]]
        } else {
            Seq::empty()
        }
    }
}

/// The numbers separated by `, `.
pub open spec fn joined_decimals(xs: Seq<usize>) -> Seq<char>
    decreases xs.len(),
{
    if xs.len() == 0 {
        Seq::empty()
    } else if xs.len() == 1 {
        decimal(xs[0] as nat)
    } else {
        joined_decimals(xs.drop_last()) + ", "@ + decimal(xs.last() as nat)
    }
}

/// The debug text of a list of numbers, such as `[3, 7]`.
pub open spec fn list_text(xs: Seq<usize>) -> Seq<char> {
    "["@ + joined_decimals(xs) + "]"@
}

/// The line that draws block `d` with text `text`: its digest, its text
/// without double quotes, and the iterations at which it was a checkpoint.
pub open spec fn node_line(d: Seq<u8>, text: Seq<char>, cps: Seq<Seq<u8>>, iters: Seq<usize>) -> Seq<char> {
    "  lcblk_"@ + dot_name(d) + " [label=\""@ + short_text(d) + "\\n"@ + without_chars(text, '"', '"') + "\\n"@
        + list_text(checkpoint_iterations(d, cps, iters)) + "\"];\n"@
}

/// The line that draws the edge from block `d` to its parent `p`.
pub open spec fn edge_line(d: Seq<u8>, p: Seq<u8>) -> Seq<char> {
    "  lcblk_"@ + dot_name(d) + " -> lcblk_"@ + dot_name(p) + ";\n"@
}

/// The lines that draw the blocks of `order`, in that order.
pub open spec fn dot_nodes(v: LcBlockTreeView, order: Seq<Seq<u8>>, cps: Seq<Seq<u8>>, iters: Seq<usize>) -> Seq<char>
    decreases order.len(),
{
    if order.len() == 0 {
        Seq::empty()
    } else {
        dot_nodes(v, order.drop_last(), cps, iters) + node_line(order.last(), v.blocks[order.last()].text, cps, iters)
    }
}

/// The lines that draw the edges from the blocks of `order` to their
/// parents, in that order.
pub open spec fn dot_edges(v: LcBlockTreeView, order: Seq<Seq<u8>>) -> Seq<char>
    decreases order.len(),
{
    if order.len() == 0 {
        Seq::empty()
    } else {
        dot_edges(v, order.drop_last()) + match v.blocks[order.last()].parent {
            Some(p) => edge_line(order.last(), p),
            None => Seq::empty(),
        }
    }
}

/// The Graphviz text of tree `v`, its blocks taken in the order `order`,
/// with the checkpoints `cps` decided at the iterations `iters`.
pub open spec fn dot_text(v: LcBlockTreeView, order: Seq<Seq<u8>>, cps: Seq<Seq<u8>>, iters: Seq<usize>) -> Seq<char> {
    DOT_HEADER@ + dot_nodes(v, order, cps, iters) + dot_edges(v, order) + "}\n"@
}

/// Appends the characters of `s` to `out`.
pub fn push_str(out: &mut Vec<char>, s: &str)
    ensures
        final(out)@ == old(out)@ + s@,
{
    let n = s.unicode_len();
    let mut i: usize = 0;
    while i < n
        invariant
            0 <= i <= n,
            n == s@.len(),
            out@ == old(out)@ + s@.take(i as int),
        decreases n - i,
    {
        out.push(s.get_char(i));
        proof {
            assert(s@.take(i + 1) =~= s@.take(i as int).push(s@[i as int]));
        }
        i = i + 1;
    }
    proof {
        assert(s@.take(n as int) =~= s@);
    }
}

/// Appends the characters of `s` other than `a` and `b` to `out`.
fn push_without(out: &mut Vec<char>, s: &Vec<char>, a: char, b: char)
    ensures
        final(out)@ == old(out)@ + without_chars(s@, a, b),
{
    let mut i: usize = 0;
    while i < s.len()
        invariant
            0 <= i <= s.len(),
            out@ == old(out)@ + without_chars(s@.take(i as int), a, b),
        decreases s.len() - i,
    {
        let c = s[i];
        proof {
            assert(s@.take(i + 1).drop_last() =~= s@.take(i as int));
            assert(s@.take(i + 1).last() == c);
        }
        if c != a && c != b {
            out.push(c);
        }
        proof {
            assert(out@ =~= old(out)@ + without_chars(s@.take(i + 1), a, b));
        }
        i = i + 1;
    }
    proof {
        assert(s@.take(i as int) =~= s@);
    }
}

/// The characters of a string.
fn chars_of(s: &String) -> (r: Vec<char>)
    ensures
        r@ == s@,
{
    let t = s.as_str();
    let n = t.unicode_len();
    let mut r: Vec<char> = Vec::new();
    let mut i: usize = 0;
    while i < n
        invariant
            0 <= i <= n,
            n == t@.len(),
            t@ == s@,
            r@ == t@.take(i as int),
        decreases n - i,
    {
        r.push(t.get_char(i));
        proof {
            assert(t@.take(i + 1) =~= t@.take(i as int).push(t@[i as int]));
        }
        i = i + 1;
    }
    proof {
        assert(t@.take(n as int) =~= t@);
    }
    r
}

/// Appends the name of the block with digest `d`.
fn push_dot_name(out: &mut Vec<char>, d: &Digest)
    ensures
        final(out)@ == old(out)@ + dot_name(d@),
{
    let s = d.short_chars();
    push_without(out, &s, '+', '/');
}

/// The iterations at which `d` was a checkpoint.
fn checkpoint_iterations_of(d: &Digest, cps: &Vec<Digest>, iters: &Vec<usize>) -> (r: Vec<usize>)
    requires
        forall|i: int| 0 <= i < cps.len() && cps@[i]@ == d@ ==> i < iters.len(),
    ensures
        r@ == checkpoint_iterations(d@, cps@.map_values(|c: Digest| c@), iters@),
{
    let ghost cv = cps@.map_values(|c: Digest| c@);
    let mut r: Vec<usize> = Vec::new();
    let mut i: usize = 0;
    while i < cps.len()
        invariant
            0 <= i <= cps.len(),
            cv == cps@.map_values(|c: Digest| c@),
            forall|j: int| 0 <= j < cps.len() && cps@[j]@ == d@ ==> j < iters.len(),
            r@ == checkpoint_iterations(d@, cv.take(i as int), iters@),
        decreases cps.len() - i,
    {
        proof {
            assert(cv.take(i + 1).drop_last() =~= cv.take(i as int));
            assert(cv.take(i + 1).last() == cps@[i as int]@);
        }
        if cps[i] == *d {
            r.push(iters[i]);
        }
        proof {
            assert(r@ =~= checkpoint_iterations(d@, cv.take(i + 1), iters@));
        }
        i = i + 1;
    }
    proof {
        assert(cv.take(i as int) =~= cv);
    }
    r
}

/// Appends the debug text of a list of numbers.
fn push_list(out: &mut Vec<char>, xs: &Vec<usize>)
    ensures
        final(out)@ == old(out)@ + list_text(xs@),
{
    push_str(out, "[");
    let ghost start = out@;
    let mut i: usize = 0;
    while i < xs.len()
        invariant
            0 <= i <= xs.len(),
            start == old(out)@ + "["@,
            out@ == start + joined_decimals(xs@.take(i as int)),
        decreases xs.len() - i,
    {
        proof {
            assert(xs@.take(i + 1).drop_last() =~= xs@.take(i as int));
            assert(xs@.take(i + 1).last() == xs@[i as int]);
        }
        if i > 0 {
            push_str(out, ", ");
        }
        let digits = decimal_text(xs[i] as u64);
        let mut k: usize = 0;
        let ghost mid = out@;
        while k < digits.len()
            invariant
                0 <= k <= digits.len(),
                out@ == mid + digits@.take(k as int),
            decreases digits.len() - k,
        {
            out.push(digits[k]);
            proof {
                assert(digits@.take(k + 1) =~= digits@.take(k as int).push(digits@[k as int]));
            }
            k = k + 1;
        }
        proof {
            assert(digits@.take(k as int) =~= digits@);
            if i == 0 {
                assert(xs@.take(1) =~= seq![xs@[0]]);
                assert(joined_decimals(xs@.take(0)) =~= Seq::<char>::empty());
                assert(out@ =~= start + joined_decimals(xs@.take(1)));
            } else {
                assert(out@ =~= start + joined_decimals(xs@.take(i + 1)));
            }
        }
        i = i + 1;
    }
    proof {
        assert(xs@.take(i as int) =~= xs@);
    }
    push_str(out, "]");
    proof {
        assert(out@ =~= old(out)@ + list_text(xs@));
    }
}

/// Appends the line that draws block `blk`, stored under digest `d`.
pub fn push_node_line(out: &mut Vec<char>, d: &Digest, blk: &LcBlock, cps: &Vec<Digest>, iters: &Vec<usize>)
    requires
        forall|i: int| 0 <= i < cps.len() && cps@[i]@ == d@ ==> i < iters.len(),
    ensures
        final(out)@ == old(out)@ + node_line(d@, blk@.text, cps@.map_values(|c: Digest| c@), iters@),
{
    push_str(out, "  lcblk_");
    push_dot_name(out, d);
    push_str(out, " [label=\"");
    let short = d.short_chars();
    let mut k: usize = 0;
    let ghost mid = out@;
    while k < short.len()
        invariant
            0 <= k <= short.len(),
            out@ == mid + short@.take(k as int),
        decreases short.len() - k,
    {
        out.push(short[k]);
        proof {
            assert(short@.take(k + 1) =~= short@.take(k as int).push(short@[k as int]));
        }
        k = k + 1;
    }
    proof {
        assert(short@.take(k as int) =~= short@);
    }
    push_str(out, "\\n");
    let text = chars_of(&blk.payload.0);
    push_without(out, &text, '"', '"');
    push_str(out, "\\n");
    let its = checkpoint_iterations_of(d, cps, iters);
    push_list(out, &its);
    push_str(out, "\"];\n");
    proof {
        assert(out@ =~= old(out)@ + node_line(d@, blk@.text, cps@.map_values(|c: Digest| c@), iters@));
    }
}

/// Appends the line that draws the edge from block `d` to its parent `p`.
pub fn push_edge_line(out: &mut Vec<char>, d: &Digest, p: &Digest)
    ensures
        final(out)@ == old(out)@ + edge_line(d@, p@),
{
    push_str(out, "  lcblk_");
    push_dot_name(out, d);
    push_str(out, " -> lcblk_");
    push_dot_name(out, p);
    push_str(out, ";\n");
    proof {
        assert(out@ =~= old(out)@ + edge_line(d@, p@));
    }
}

} // verus!
