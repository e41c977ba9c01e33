use vstd::prelude::*;
use crate::types::{Digest, PublicKey};
use crate::config::CheckpointParameters;
use crate::lcblocks::{LcBlock, LcBlockPayload, LcBlockView, PAYLOAD_FILLER_LEN, block_digest, block_bytes, is_adversarial_view};
use crate::lcblocktree::genesis_digest;
use crate::display::{short_text, decimal, string_from_chars, decimal_text, DECIMAL_DIGITS};

verus! {

/// The text of a block mined by `name` in slot `t_slot`, marked "[adv]" when
/// the miner is adversarial.
pub open spec fn mined_text(name: Seq<u8>, t_slot: u64, adversarial: bool) -> Seq<char> {
    let base = seq!['B', 'y', ' '] + short_text(name) + seq![' ', 'a', 't', ' '] + decimal(t_slot as nat);
    if adversarial {
        base + seq![' ', '[', 'a', 'd', 'v', ']']
    } else {
        base
    }
}

/// The block mined on `parent` by `name` in slot `t_slot`.
pub open spec fn mined_block(parent: Seq<u8>, name: Seq<u8>, t_slot: u64, adversarial: bool) -> LcBlockView {
    LcBlockView {
        parent: Some(parent),
        text: mined_text(name, t_slot, adversarial),
        data: Seq::new(PAYLOAD_FILLER_LEN as nat, |i: int| 0u8),
        slot: t_slot,
    }
}

/// After the slot moves on to `accept`: the parent to mine on, and the
/// deferred tips still in the future. Deferred tips are taken in the order
/// they came; the last one that is no longer in the future wins.
pub open spec fn apply_deferred(parent: Seq<u8>, accept: u64, ds: Seq<(Seq<u8>, u64)>) -> (Seq<u8>, Seq<(Seq<u8>, u64)>)
    decreases ds.len(),
{
    if ds.len() == 0 {
        (parent, ds)
    } else {
        let (p0, k0) = apply_deferred(parent, accept, ds.drop_last());
        if ds.last().1 <= accept {
            (ds.last().0, k0)
        } else {
            (p0, k0.push(ds.last()))
        }
    }
}

/// The slot with which the tip that the miner mines on arrived, once the
/// deferred tips whose slot has begun (`accept`) are taken in order.
pub open spec fn parent_slot_after(ps: u64, accept: u64, ds: Seq<(Seq<u8>, u64)>) -> u64
    decreases ds.len(),
{
    if ds.len() == 0 {
        ps
    } else {
        if ds.last().1 <= accept {
            ds.last().1
        } else {
            parent_slot_after(ps, accept, ds.drop_last())
        }
    }
}

/// The mathematical value of the miner.
pub struct MinerView {
    /// The block to mine on.
    pub parent: Seq<u8>,
    /// The latest slot for which tips are accepted.
    pub accept_slot: u64,
    /// Tips of future slots, deferred in the order they came.
    pub deferred: Seq<(Seq<u8>, u64)>,
}

/// The miner after a tip `d` of slot `s` arrives: taken at once if its slot
/// has begun, else kept for later.
pub open spec fn tip_step(m: MinerView, d: Seq<u8>, s: u64) -> MinerView {
    if s <= m.accept_slot {
        MinerView { parent: d, ..m }
    } else {
        MinerView { deferred: m.deferred.push((d, s)), ..m }
    }
}

/// The miner after the tick of slot `t`: the kept tips whose slot has begun
/// are taken in order, the others stay kept.
pub open spec fn slot_step(m: MinerView, t: u64) -> MinerView {
    MinerView {
        parent: apply_deferred(m.parent, t, m.deferred).0,
        accept_slot: t,
        deferred: apply_deferred(m.parent, t, m.deferred).1,
    }
}

/// The miner mines on no tip from the future: the tip it mines on arrived
/// with slot `parent_slot`, which has begun, and every kept tip is of a later
/// slot.
pub open spec fn miner_inv(m: MinerView, parent_slot: u64) -> bool {
    &&& parent_slot <= m.accept_slot
    &&& forall|k: int| 0 <= k < m.deferred.len() ==> #[trigger] m.deferred[k].1 > m.accept_slot
}

/// The miner of the longest chain: mines on the tip it was last told of, and
/// defers tips of slots that have not begun yet.
pub struct MyMiner {
    name: PublicKey,
    produce_adversarial_blocks: bool,
    current_parent: Digest,
    accept_blocks_for_slot: u64,
    blocks_from_future_slots: Vec<(Digest, u64)>,
}

impl View for MyMiner {
    type V = MinerView;

    closed spec fn view(&self) -> MinerView {
        MinerView {
            parent: self.current_parent@,
            accept_slot: self.accept_blocks_for_slot,
            deferred: self.blocks_from_future_slots@.map_values(|e: (Digest, u64)| (e.0@, e.1)),
        }
    }
}

impl MyMiner {
    /// The miner's name.
    pub closed spec fn name(&self) -> Seq<u8> {
        self.name@
    }

    /// Whether the miner marks its blocks adversarial.
    pub closed spec fn adversarial(&self) -> bool {
        self.produce_adversarial_blocks
    }

    /// A miner that mines on the genesis block.
    pub fn new(name: PublicKey, produce_adversarial_blocks: bool) -> (r: MyMiner)
        ensures
            r@.parent == genesis_digest(),
            r@.accept_slot == 0,
            r@.deferred.len() == 0,
            r.name() == name@,
            r.adversarial() == produce_adversarial_blocks,
    {
        MyMiner {
            name,
            produce_adversarial_blocks,
            current_parent: LcBlock::genesis().digest(),
            accept_blocks_for_slot: 0,
            blocks_from_future_slots: Vec::new(),
        }
    }

    /// A new tip to mine on, with its slot: taken at once unless its slot has
    /// not begun, in which case it is deferred.
    pub fn on_tip(&mut self, target_parent: Digest, target_slot: u64)
        ensures
            final(self).name() == old(self).name(),
            final(self).adversarial() == old(self).adversarial(),
            final(self)@.accept_slot == old(self)@.accept_slot,
            final(self)@ == tip_step(old(self)@, target_parent@, target_slot),
            if target_slot <= old(self)@.accept_slot {
                final(self)@.parent == target_parent@ && final(self)@.deferred == old(self)@.deferred
            } else {
                final(self)@.parent == old(self)@.parent
                    && final(self)@.deferred == old(self)@.deferred.push((target_parent@, target_slot))
            },
    {
        if target_slot <= self.accept_blocks_for_slot {
            self.current_parent = target_parent;
        } else {
            self.blocks_from_future_slots.push((target_parent, target_slot));
            proof {
                assert(self@.deferred =~= old(self)@.deferred.push((target_parent@, target_slot)));
            }
        }
    }

    /// The text of a block mined in slot `t_slot`.
    fn block_text(&self, t_slot: u64) -> (r: String)
        ensures
            r@ == mined_text(self.name(), t_slot, self.adversarial()),
    {
        let mut v: Vec<char> = Vec::new();
        v.push('B');
        v.push('y');
        v.push(' ');
        let name = self.name.short_chars();
        let mut i: usize = 0;
        while i < name.len()
            invariant
                0 <= i <= name.len(),
                v@ == seq!['B', 'y', ' '] + name@.take(i as int),
            decreases name.len() - i,
        {
            v.push(name[i]);
            i = i + 1;
            proof {
                assert(v@ =~= seq!['B', 'y', ' '] + name@.take(i as int));
            }
        }
        v.push(' ');
        v.push('a');
        v.push('t');
        v.push(' ');
        let digits = decimal_text(t_slot);
        let ghost head = v@;
        let mut j: usize = 0;
        while j < digits.len()
            invariant
                0 <= j <= digits.len(),
                v@ == head + digits@.take(j as int),
            decreases digits.len() - j,
        {
            v.push(digits[j]);
            j = j + 1;
            proof {
                assert(v@ =~= head + digits@.take(j as int));
            }
        }
        proof {
            assert(name@.take(name.len() as int) =~= name@);
            assert(digits@.take(digits.len() as int) =~= digits@);
            assert(head =~= seq!['B', 'y', ' '] + short_text(self.name()) + seq![' ', 'a', 't', ' ']);
        }
        if self.produce_adversarial_blocks {
            v.push(' ');
            v.push('[');
            v.push('a');
            v.push('d');
            v.push('v');
            v.push(']');
        }
        proof {
            let base = seq!['B', 'y', ' '] + short_text(self.name()) + seq![' ', 'a', 't', ' '] + decimal(t_slot as nat);
            if self.produce_adversarial_blocks {
                assert(v@ =~= base + seq![' ', '[', 'a', 'd', 'v', ']']);
            } else {
                assert(v@ =~= base);
            }
        }
        string_from_chars(&v)
    }

    /// A new slot `t_slot` begins. When the miner won the slot's lottery, it
    /// mines a block on its current parent and returns the block with its
    /// digest and bytes. Then tips up to `t_slot` are accepted: the deferred
    /// ones that are no longer in the future are taken in order.
    pub fn on_slot(&mut self, t_slot: u64, won_lottery: bool) -> (r: Option<(LcBlock, Vec<u8>, Vec<u8>)>)
        ensures
            final(self).name() == old(self).name(),
            final(self).adversarial() == old(self).adversarial(),
            final(self)@.accept_slot == t_slot,
            final(self)@ == slot_step(old(self)@, t_slot),
            final(self)@.parent == apply_deferred(old(self)@.parent, t_slot, old(self)@.deferred).0,
            final(self)@.deferred == apply_deferred(old(self)@.parent, t_slot, old(self)@.deferred).1,
            match r {
                Some((b, key, bytes)) => won_lottery
                    && b@ == mined_block(old(self)@.parent, old(self).name(), t_slot, old(self).adversarial())
                    && key@ == block_digest(b@) && bytes@ == block_bytes(b@),
                None => !won_lottery,
            },
    {
        let mined = if won_lottery {
            let text = self.block_text(t_slot);
            let blk = LcBlock::new(Some(self.current_parent), LcBlockPayload::new(text), t_slot);
            let d = blk.digest();
            let key = digest_to_vec(&d);
            let bytes = blk.to_bytes();
            Some((blk, key, bytes))
        } else {
            None
        };
        self.accept_blocks_for_slot = t_slot;
        let ghost ds = old(self)@.deferred;
        let ghost p0 = old(self)@.parent;
        let mut kept: Vec<(Digest, u64)> = Vec::new();
        let mut k: usize = 0;
        while k < self.blocks_from_future_slots.len()
            invariant
                ds == self.blocks_from_future_slots@.map_values(|e: (Digest, u64)| (e.0@, e.1)),
                self.accept_blocks_for_slot == t_slot,
                self.name == old(self).name,
                self.produce_adversarial_blocks == old(self).produce_adversarial_blocks,
                0 <= k <= self.blocks_from_future_slots.len(),
                (self.current_parent@, kept@.map_values(|e: (Digest, u64)| (e.0@, e.1)))
                    == apply_deferred(p0, t_slot, ds.take(k as int)),
            decreases self.blocks_from_future_slots.len() - k,
        {
            proof {
                assert(ds.take(k + 1).drop_last() =~= ds.take(k as int));
            }
            let e = self.blocks_from_future_slots[k];
            if e.1 <= t_slot {
                self.current_parent = e.0;
            } else {
                kept.push(e);
            }
            proof {
                let (pp, kk) = apply_deferred(p0, t_slot, ds.take(k as int));
                if e.1 > t_slot {
                    assert(kept@.map_values(|e: (Digest, u64)| (e.0@, e.1)) =~= kk.push((e.0@, e.1)));
                }
            }
            k = k + 1;
        }
        proof {
            assert(ds.take(k as int) =~= ds);
        }
        self.blocks_from_future_slots = kept;
        mined
    }
}

/// The bytes of a digest as a vector.
pub fn digest_to_vec(d: &Digest) -> (r: Vec<u8>)
    ensures
        r@ == d@,
{
    let mut v: Vec<u8> = Vec::new();
    let mut i: usize = 0;
    while i < 32
        invariant
            0 <= i <= 32,
            d@.len() == 32,
            v@ == d@.take(i as int),
        decreases 32 - i,
    {
        v.push(d.0[i]);
        i = i + 1;
        proof {
            assert(v@ =~= d@.take(i as int));
        }
    }
    assert(d@.take(32) =~= d@);
    v
}

/// The milliseconds from `now_ms` to the first tick of the miner: the start of
/// the next slot plus the slot offset.
pub fn first_tick_delay(now_ms: u64, parameters: &CheckpointParameters) -> (r: u64)
    requires
        parameters.lcmine_slot > 0,
        parameters.lcmine_slot - now_ms % parameters.lcmine_slot + parameters.lcmine_slot_offset <= u64::MAX,
    ensures
        r == parameters.lcmine_slot - now_ms % parameters.lcmine_slot + parameters.lcmine_slot_offset,
{
    parameters.lcmine_slot - now_ms % parameters.lcmine_slot + parameters.lcmine_slot_offset
}

/// The slot that `now_ms` falls in.
pub fn slot_of(now_ms: u64, parameters: &CheckpointParameters) -> (r: u64)
    requires
        parameters.lcmine_slot > 0,
    ensures
        r == now_ms / parameters.lcmine_slot,
{
    now_ms / parameters.lcmine_slot
}

/// A block mined by an adversarial miner is adversarial, and one mined by an
/// honest miner is honest.
pub proof fn lemma_mined_block_adversarial(parent: Seq<u8>, name: Seq<u8>, t_slot: u64, adversarial: bool)
    ensures
        is_adversarial_view(mined_block(parent, name, t_slot, adversarial)) == adversarial,
{
    reveal_strlit("[adv]");
    let t = mined_text(name, t_slot, adversarial);
    let base = seq!['B', 'y', ' '] + short_text(name) + seq![' ', 'a', 't', ' '] + decimal(t_slot as nat);
    lemma_decimal_ends_in_digit(t_slot as nat);
    if adversarial {
        assert(t.subrange(t.len() - 5, t.len() as int) =~= "[adv]"@);
    } else {
        assert(t == base);
        let d = decimal(t_slot as nat);
        assert(t.last() == d.last());
        if t.len() >= 5 {
            let sub = t.subrange(t.len() - 5, t.len() as int);
            assert(sub[4] == t.last());
            assert(sub[4] != "[adv]"@[4]);
        }
    }
}

/// The decimal text of a number is not empty and ends in a digit.
pub proof fn lemma_decimal_ends_in_digit(n: nat)
    ensures
        decimal(n).len() > 0,
        exists|k: int| 0 <= k < 10 && decimal(n).last() == DECIMAL_DIGITS@[k],
    decreases n,
{
    if n >= 10 {
        lemma_decimal_ends_in_digit(n / 10);
        assert(decimal(n).last() == DECIMAL_DIGITS@[(n % 10) as int]);
    } else {
        assert(decimal(n).last() == DECIMAL_DIGITS@[n as int]);
    }
}

/// Once a slot begins, the miner never mines on a tip of a later slot: the
/// tips still deferred are all of later slots, and the parent taken is the
/// previous one or a deferred tip whose slot has begun.
pub proof fn lemma_deferred_stay_in_future(parent: Seq<u8>, accept: u64, ds: Seq<(Seq<u8>, u64)>)
    ensures
        forall|k: int| 0 <= k < apply_deferred(parent, accept, ds).1.len()
            ==> #[trigger] apply_deferred(parent, accept, ds).1[k].1 > accept,
        apply_deferred(parent, accept, ds).0 == parent || exists|j: int| 0 <= j < ds.len()
            && ds[j].0 == apply_deferred(parent, accept, ds).0 && ds[j].1 <= accept,
    decreases ds.len(),
{
    if ds.len() > 0 {
        let d = ds.drop_last();
        lemma_deferred_stay_in_future(parent, accept, d);
        let (p0, k0) = apply_deferred(parent, accept, d);
        if ds.last().1 <= accept {
            assert(ds[ds.len() - 1] == ds.last());
        } else {
            assert forall|k: int| 0 <= k < k0.push(ds.last()).len() implies #[trigger] k0.push(ds.last())[k].1 > accept by {
                if k < k0.len() {
                    assert(k0.push(ds.last())[k] == k0[k]);
                }
            }
            if p0 != parent {
                let j = choose|j: int| 0 <= j < d.len() && d[j].0 == p0 && d[j].1 <= accept;
                assert(ds[j] == d[j]);
            }
        }
    }
}

/// The slot with which the parent arrived after the kept tips are taken is
/// the earlier one or the slot of a taken tip, which has begun.
pub proof fn lemma_parent_slot_after(ps: u64, accept: u64, ds: Seq<(Seq<u8>, u64)>)
    ensures
        parent_slot_after(ps, accept, ds) == ps || parent_slot_after(ps, accept, ds) <= accept,
    decreases ds.len(),
{
    if ds.len() > 0 {
        lemma_parent_slot_after(ps, accept, ds.drop_last());
    }
}

/// A new miner mines on the genesis block, of slot 0, and keeps no tip.
pub proof fn lemma_miner_starts_well(m: MinerView)
    requires
        m.accept_slot == 0,
        m.deferred.len() == 0,
    ensures
        miner_inv(m, 0),
{
}

/// A tip arriving keeps the miner from mining on the future: a tip of a slot
/// that has begun becomes the parent, any other is kept.
pub proof fn lemma_tip_keeps_inv(m: MinerView, ps: u64, d: Seq<u8>, s: u64)
    requires
        miner_inv(m, ps),
    ensures
        miner_inv(tip_step(m, d, s), if s <= m.accept_slot { s } else { ps }),
{
    let m2 = tip_step(m, d, s);
    if s > m.accept_slot {
        assert forall|k: int| 0 <= k < m2.deferred.len() implies #[trigger] m2.deferred[k].1 > m2.accept_slot by {
            if k < m.deferred.len() {
                assert(m2.deferred[k] == m.deferred[k]);
            }
        }
    }
}

/// A tick of a slot not before the last one keeps the miner from mining on
/// the future. The block mined at that tick has as parent the tip the miner
/// held before it, which arrived with a slot not above the previous tick's.
pub proof fn lemma_slot_keeps_inv(m: MinerView, ps: u64, t: u64)
    requires
        miner_inv(m, ps),
        m.accept_slot <= t,
    ensures
        miner_inv(slot_step(m, t), parent_slot_after(ps, t, m.deferred)),
{
    lemma_parent_slot_after(ps, t, m.deferred);
    lemma_deferred_stay_in_future(m.parent, t, m.deferred);
}

/// At the tick of slot `t`, the miner moves to the last tip, in arrival
/// order, of those it kept whose slot has begun, and keeps its parent when none
/// has begun; it goes on keeping exactly the other tips, in arrival order.
pub proof fn lemma_tick_takes_latest_begun_tip(parent: Seq<u8>, t: u64, ds: Seq<(Seq<u8>, u64)>)
    ensures
        (forall|k: int| 0 <= k < ds.len() ==> #[trigger] ds[k].1 > t) ==> apply_deferred(parent, t, ds).0 == parent,
        forall|j: int| 0 <= j < ds.len() && #[trigger] ds[j].1 <= t
            && (forall|k: int| j < k < ds.len() ==> #[trigger] ds[k].1 > t)
            ==> apply_deferred(parent, t, ds).0 == ds[j].0,
        apply_deferred(parent, t, ds).1 == ds.filter(|e: (Seq<u8>, u64)| e.1 > t),
    decreases ds.len(),
{
    reveal(Seq::filter);
    if ds.len() > 0 {
        let d = ds.drop_last();
        lemma_tick_takes_latest_begun_tip(parent, t, d);
        assert forall|j: int| 0 <= j < ds.len() && #[trigger] ds[j].1 <= t
            && (forall|k: int| j < k < ds.len() ==> #[trigger] ds[k].1 > t)
            implies apply_deferred(parent, t, ds).0 == ds[j].0 by {
            if j < ds.len() - 1 {
                assert(ds[ds.len() - 1].1 > t);
                assert(d[j] == ds[j]);
                assert forall|k: int| j < k < d.len() implies #[trigger] d[k].1 > t by {
                    assert(d[k] == ds[k]);
                }
            }
        }
        if forall|k: int| 0 <= k < ds.len() ==> #[trigger] ds[k].1 > t {
            assert forall|k: int| 0 <= k < d.len() implies #[trigger] d[k].1 > t by {
                assert(d[k] == ds[k]);
            }
            assert(ds[ds.len() - 1].1 > t);
        }
    }
}

} // verus!
