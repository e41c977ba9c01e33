use vstd::prelude::*;

verus! {

/// Which blocks of a committed chain, given by their rounds from the oldest to
/// the newest, are processed, and the smallest round left unprocessed after
/// them: a block is processed when its round is not below the smallest
/// unprocessed round, which then moves past it.
pub open spec fn select_blocks(rounds: Seq<u64>, smallest: nat) -> (Seq<bool>, nat)
    decreases rounds.len(),
{
    if rounds.len() == 0 {
        (Seq::empty(), smallest)
    } else {
        let (sel, s) = select_blocks(rounds.drop_last(), smallest);
        if rounds.last() as nat >= s {
            (sel.push(true), rounds.last() as nat + 1)
        } else {
            (sel.push(false), s)
        }
    }
}

/// Tracks which rounds of the committed chain were handed to the ledger, so
/// that each committed block is processed once, in the order of the chain.
pub struct CommitAnalyzer {
    smallest_unprocessed_round: usize,
}

impl View for CommitAnalyzer {
    type V = nat;

    /// The smallest round not processed yet.
    closed spec fn view(&self) -> nat {
        self.smallest_unprocessed_round as nat
    }
}

impl CommitAnalyzer {
    /// Nothing processed yet.
    pub fn new() -> (r: CommitAnalyzer)
        ensures
            r@ == 0,
    {
        CommitAnalyzer { smallest_unprocessed_round: 0 }
    }

    /// Given the rounds of a committed chain from the oldest block to the
    /// newest, tells for each block whether to process it. `None` when a
    /// round does not fit below the largest round number.
    pub fn select(&mut self, rounds: &Vec<u64>) -> (r: Option<Vec<bool>>)
        ensures
            match r {
                Some(sel) => {
                    &&& forall|k: int| 0 <= k < rounds@.len() ==> rounds@[k] < usize::MAX
                    &&& sel@ == select_blocks(rounds@, old(self)@).0
                    &&& final(self)@ == select_blocks(rounds@, old(self)@).1
                },
                None => exists|k: int| 0 <= k < rounds@.len() && rounds@[k] >= usize::MAX,
            },
    {
        let mut sel: Vec<bool> = Vec::new();
        let mut k: usize = 0;
        let ghost s0 = self@;
        proof {
            assert(rounds@.take(0) =~= Seq::<u64>::empty());
        }
        while k < rounds.len()
            invariant
                0 <= k <= rounds.len(),
                s0 == old(self)@,
                forall|j: int| 0 <= j < k ==> rounds@[j] < usize::MAX,
                (sel@, self@) == select_blocks(rounds@.take(k as int), s0),
            decreases rounds.len() - k,
        {
            proof {
                assert(rounds@.take(k + 1).drop_last() =~= rounds@.take(k as int));
            }
            let round = rounds[k];
            if round >= usize::MAX as u64 {
                return None;
            }
            let r = round as usize;
            if r >= self.smallest_unprocessed_round {
                self.smallest_unprocessed_round = r + 1;
                sel.push(true);
            } else {
                sel.push(false);
            }
            k = k + 1;
        }
        proof {
            assert(rounds@.take(k as int) =~= rounds@);
        }
        Some(sel)
    }
}

/// Each round is processed at most once: after a selection, the smallest
/// unprocessed round is above every round that was selected.
pub proof fn lemma_selected_rounds_below_cursor(rounds: Seq<u64>, smallest: nat, k: int)
    requires
        0 <= k < rounds.len(),
        select_blocks(rounds, smallest).0[k],
    ensures
        rounds[k] < select_blocks(rounds, smallest).1,
        rounds[k] >= smallest,
    decreases rounds.len(),
{
    lemma_select_len(rounds, smallest);
    lemma_select_monotonic(rounds, smallest);
    if k < rounds.len() - 1 {
        lemma_select_len(rounds.drop_last(), smallest);
        assert(select_blocks(rounds, smallest).0[k] == select_blocks(rounds.drop_last(), smallest).0[k]);
        lemma_selected_rounds_below_cursor(rounds.drop_last(), smallest, k);
        assert(rounds.drop_last()[k] == rounds[k]);
        lemma_select_monotonic(rounds, smallest);
    } else {
        lemma_select_monotonic(rounds.drop_last(), smallest);
    }
}

/// A selection has one answer per round.
pub proof fn lemma_select_len(rounds: Seq<u64>, smallest: nat)
    ensures
        select_blocks(rounds, smallest).0.len() == rounds.len(),
    decreases rounds.len(),
{
    if rounds.len() > 0 {
        lemma_select_len(rounds.drop_last(), smallest);
    }
}

/// The smallest unprocessed round never goes back.
pub proof fn lemma_select_monotonic(rounds: Seq<u64>, smallest: nat)
    ensures
        select_blocks(rounds, smallest).1 >= smallest,
        rounds.len() > 0 ==> select_blocks(rounds, smallest).1 >= select_blocks(rounds.drop_last(), smallest).1,
    decreases rounds.len(),
{
    if rounds.len() > 0 {
        lemma_select_monotonic(rounds.drop_last(), smallest);
    }
}

/// Within one selection, the processed rounds strictly increase.
pub proof fn lemma_selected_rounds_increase(rounds: Seq<u64>, smallest: nat, i: int, j: int)
    requires
        0 <= i < j < rounds.len(),
        select_blocks(rounds, smallest).0[i],
        select_blocks(rounds, smallest).0[j],
    ensures
        rounds[i] < rounds[j],
    decreases rounds.len(),
{
    lemma_select_len(rounds.drop_last(), smallest);
    let pre = rounds.drop_last();
    assert(select_blocks(rounds, smallest).0[i] == select_blocks(pre, smallest).0[i]);
    assert(pre[i] == rounds[i]);
    if j < rounds.len() - 1 {
        assert(select_blocks(rounds, smallest).0[j] == select_blocks(pre, smallest).0[j]);
        assert(pre[j] == rounds[j]);
        lemma_selected_rounds_increase(pre, smallest, i, j);
    } else {
        lemma_selected_rounds_below_cursor(pre, smallest, i);
    }
}

/// Across two selections in a row, each processed round of the second is
/// above each processed round of the first: the ledger is fed in strictly
/// increasing rounds, and no round twice.
pub proof fn lemma_rounds_increase_across(first: Seq<u64>, second: Seq<u64>, smallest: nat, i: int, j: int)
    requires
        0 <= i < first.len(),
        0 <= j < second.len(),
        select_blocks(first, smallest).0[i],
        select_blocks(second, select_blocks(first, smallest).1).0[j],
    ensures
        first[i] < second[j],
{
    lemma_selected_rounds_below_cursor(first, smallest, i);
    lemma_selected_rounds_below_cursor(second, select_blocks(first, smallest).1, j);
}

/// The smallest unprocessed round never goes back over a run of commits.
proof fn lemma_cursors_grow(commits: Seq<Seq<u64>>, cursors: Seq<nat>, a: int, b: int)
    requires
        cursors.len() == commits.len() + 1,
        forall|m: int| 0 <= m < commits.len() ==> #[trigger] cursors[m + 1] == select_blocks(commits[m], cursors[m]).1,
        0 <= a <= b < cursors.len(),
    ensures
        cursors[a] <= cursors[b],
    decreases b - a,
{
    if a < b {
        lemma_cursors_grow(commits, cursors, a, b - 1);
        lemma_select_monotonic(commits[b - 1], cursors[b - 1]);
        assert(cursors[(b - 1) + 1] == select_blocks(commits[b - 1], cursors[b - 1]).1);
    }
}

/// Over a whole run of commits, each selected from the smallest unprocessed
/// round that the previous selections left, the processed rounds strictly
/// increase in the order the blocks are handed to the ledger: no round is
/// processed twice and none out of order. Every node, honest or adversarial,
/// hands its ledger the blocks that this selection picks.
pub proof fn lemma_run_rounds_increase(commits: Seq<Seq<u64>>, cursors: Seq<nat>, m1: int, i: int, m2: int, j: int)
    requires
        cursors.len() == commits.len() + 1,
        forall|m: int| 0 <= m < commits.len() ==> #[trigger] cursors[m + 1] == select_blocks(commits[m], cursors[m]).1,
        0 <= m1 <= m2 < commits.len(),
        0 <= i < commits[m1].len(),
        0 <= j < commits[m2].len(),
        m1 < m2 || i < j,
        select_blocks(commits[m1], cursors[m1]).0[i],
        select_blocks(commits[m2], cursors[m2]).0[j],
    ensures
        commits[m1][i] < commits[m2][j],
{
    if m1 == m2 {
        lemma_selected_rounds_increase(commits[m1], cursors[m1], i, j);
    } else {
        lemma_selected_rounds_below_cursor(commits[m1], cursors[m1], i);
        assert(cursors[m1 + 1] == select_blocks(commits[m1], cursors[m1]).1);
        lemma_cursors_grow(commits, cursors, m1 + 1, m2);
        lemma_selected_rounds_below_cursor(commits[m2], cursors[m2], j);
    }
}

} // verus!
