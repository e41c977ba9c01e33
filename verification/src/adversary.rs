use vstd::prelude::*;
use crate::types::{Digest, PublicKey, bytes_lt};
use crate::lcblocks::{LcBlock, LcBlockView, block_from_bytes, block_digest, block_bytes, is_adversarial_view};
use crate::advmsg::{AdversarialGossipMsg, AdversarialGossipMsgView, msg_bytes, msg_from_bytes};
use crate::hashing::digest_of_bytes;
use crate::miner::digest_to_vec;

verus! {

/// Where the adversarial logic stands.
#[derive(Clone, Debug)]
pub enum AdversaryPhase {
    /// Waiting for the next message or block.
    Idle,
    /// Waiting for the tree to know the height of a hidden block.
    AwaitHiddenHeight(LcBlock),
    /// Waiting for the tree to know the height of a public block, honest or not.
    AwaitPublicHeight(Digest, bool),
    /// Waiting for the leading tip, to answer a public block of that height.
    AwaitTip(usize),
    /// Waiting for the height of the tip.
    AwaitTipHeight(Digest, usize),
    /// Walking down from a block of the given height to the target height.
    Walking(Digest, usize, usize),
    /// Waiting for the block at the target height.
    AwaitBlock(usize),
}

/// What the adversarial logic is told.
#[derive(Clone, Debug)]
pub enum AdversaryEvent {
    /// A block that the local miner just mined, as bytes.
    LocallyMined(Vec<u8>),
    /// A message from the network of adversaries, as bytes.
    AdversaryMessage(Vec<u8>),
    /// A block from the public network: its key and bytes.
    PublicBlock(Vec<u8>, Vec<u8>),
    /// The height the tree gives for the block asked about.
    Height(Option<usize>),
    /// The leading tip of the tree.
    Tip(Digest),
    /// The parent the tree gives for the block asked about.
    Parent(Option<Option<Digest>>),
    /// The block the tree gives for the digest asked about.
    Block(Option<LcBlock>),
}

/// What the adversarial logic asks to be done, in order.
#[derive(Clone, Debug)]
pub enum AdversaryAction {
    /// Send a message to the other adversaries: key and bytes.
    SendToAdversaries(Vec<u8>, Vec<u8>),
    /// Hand a block to the local tree: key and bytes.
    DeliverToTree(Vec<u8>, Vec<u8>),
    /// Publish a block to the public network: key and bytes.
    Publish(Vec<u8>, Vec<u8>),
    /// Ask the tree for the height of a block.
    QueryHeight(Digest),
    /// Ask the tree for its leading tip.
    QueryTip,
    /// Ask the tree for the parent of a block.
    QueryParent(Digest),
    /// Ask the tree for a block.
    QueryBlock(Digest),
}

/// Why the adversarial logic cannot go on.
#[derive(Clone, Copy, Debug)]
pub enum AdversaryError {
    /// Bytes that should hold a block or a message do not decode.
    Undecodable,
    /// The tree does not know a block it should know.
    MissingBlock,
    /// An event came that the logic was not waiting for.
    UnexpectedEvent,
}

/// The mathematical value of an action.
pub enum AdvActionView {
    SendToAdversaries(Seq<u8>, Seq<u8>),
    DeliverToTree(Seq<u8>, Seq<u8>),
    Publish(Seq<u8>, Seq<u8>),
    QueryHeight(Seq<u8>),
    QueryTip,
    QueryParent(Seq<u8>),
    QueryBlock(Seq<u8>),
}

pub open spec fn adv_action_view(a: AdversaryAction) -> AdvActionView {
    match a {
        AdversaryAction::SendToAdversaries(k, v) => AdvActionView::SendToAdversaries(k@, v@),
        AdversaryAction::DeliverToTree(k, v) => AdvActionView::DeliverToTree(k@, v@),
        AdversaryAction::Publish(k, v) => AdvActionView::Publish(k@, v@),
        AdversaryAction::QueryHeight(d) => AdvActionView::QueryHeight(d@),
        AdversaryAction::QueryTip => AdvActionView::QueryTip,
        AdversaryAction::QueryParent(d) => AdvActionView::QueryParent(d@),
        AdversaryAction::QueryBlock(d) => AdvActionView::QueryBlock(d@),
    }
}

/// The mathematical value of a phase.
pub enum AdvPhaseView {
    Idle,
    AwaitHiddenHeight(LcBlockView),
    AwaitPublicHeight(Seq<u8>, bool),
    AwaitTip(usize),
    AwaitTipHeight(Seq<u8>, usize),
    Walking(Seq<u8>, usize, usize),
    AwaitBlock(usize),
}

pub open spec fn adv_phase_view(p: AdversaryPhase) -> AdvPhaseView {
    match p {
        AdversaryPhase::Idle => AdvPhaseView::Idle,
        AdversaryPhase::AwaitHiddenHeight(b) => AdvPhaseView::AwaitHiddenHeight(b@),
        AdversaryPhase::AwaitPublicHeight(d, a) => AdvPhaseView::AwaitPublicHeight(d@, a),
        AdversaryPhase::AwaitTip(h) => AdvPhaseView::AwaitTip(h),
        AdversaryPhase::AwaitTipHeight(d, h) => AdvPhaseView::AwaitTipHeight(d@, h),
        AdversaryPhase::Walking(d, th, h) => AdvPhaseView::Walking(d@, th, h),
        AdversaryPhase::AwaitBlock(h) => AdvPhaseView::AwaitBlock(h),
    }
}

/// The mathematical value of the adversarial logic.
pub struct AdversaryView {
    /// The adversary with the smallest key heard of, the node itself included.
    pub leader: Seq<u8>,
    /// The height of the highest honest public block answered so far.
    pub highest_honest: usize,
    pub phase: AdvPhaseView,
}

/// The outcome of a step: the next state and the actions, or the error.
pub type AdvStepView = Result<(AdversaryView, Seq<AdvActionView>), AdversaryError>;

/// Walking down from `tip` at `tip_height` towards `h`: ask for the parent
/// while above `h`, else ask for the block.
pub open spec fn walk(s: AdversaryView, tip: Seq<u8>, tip_height: usize, h: usize) -> (AdversaryView, Seq<AdvActionView>) {
    if tip_height > h {
        (AdversaryView { phase: AdvPhaseView::Walking(tip, tip_height, h), ..s }, seq![AdvActionView::QueryParent(tip)])
    } else {
        (AdversaryView { phase: AdvPhaseView::AwaitBlock(h), ..s }, seq![AdvActionView::QueryBlock(tip)])
    }
}

/// The step of the adversarial logic on an event. Bytes and messages are
/// taken only when idle, and answers only when asked for; a block the tree
/// should know but does not is an error.
pub open spec fn adv_step_spec(s: AdversaryView, ev: AdversaryEventView) -> AdvStepView {
    let idle = s.phase is Idle;
    match ev {
        AdversaryEventView::LocallyMined(v) => if !idle {
            Err(AdversaryError::UnexpectedEvent)
        } else {
            match block_from_bytes(v) {
                Some(b) => {
                    let m = msg_bytes(AdversarialGossipMsgView::HiddenLcBlock(b));
                    Ok((s, seq![AdvActionView::SendToAdversaries(digest_of_bytes(m), m)]))
                },
                None => Err(AdversaryError::Undecodable),
            }
        },
        AdversaryEventView::AdversaryMessage(v) => if !idle {
            Err(AdversaryError::UnexpectedEvent)
        } else {
            match msg_from_bytes(v) {
                Some(AdversarialGossipMsgView::Hello(pk)) => {
                    if bytes_lt(pk, s.leader) {
                        Ok((AdversaryView { leader: pk, ..s }, Seq::empty()))
                    } else {
                        Ok((s, Seq::empty()))
                    }
                },
                Some(AdversarialGossipMsgView::HiddenLcBlock(b)) => {
                    let d = block_digest(b);
                    Ok((AdversaryView { phase: AdvPhaseView::AwaitHiddenHeight(b), ..s },
                        seq![AdvActionView::DeliverToTree(d, block_bytes(b)), AdvActionView::QueryHeight(d)]))
                },
                None => Err(AdversaryError::Undecodable),
            }
        },
        AdversaryEventView::PublicBlock(k, v) => if !idle {
            Err(AdversaryError::UnexpectedEvent)
        } else {
            match block_from_bytes(v) {
                Some(b) => {
                    let d = block_digest(b);
                    Ok((AdversaryView { phase: AdvPhaseView::AwaitPublicHeight(d, is_adversarial_view(b)), ..s },
                        seq![AdvActionView::DeliverToTree(k, v), AdvActionView::QueryHeight(d)]))
                },
                None => Err(AdversaryError::Undecodable),
            }
        },
        AdversaryEventView::Height(h) => match s.phase {
            AdvPhaseView::AwaitHiddenHeight(b) => match h {
                None => Ok((s, seq![AdvActionView::QueryHeight(block_digest(b))])),
                Some(x) => {
                    let s1 = AdversaryView { phase: AdvPhaseView::Idle, ..s };
                    if x <= s.highest_honest {
                        Ok((s1, seq![AdvActionView::Publish(block_digest(b), block_bytes(b))]))
                    } else {
                        Ok((s1, Seq::empty()))
                    }
                },
            },
            AdvPhaseView::AwaitPublicHeight(d, adv) => match h {
                None => Ok((s, seq![AdvActionView::QueryHeight(d)])),
                Some(x) => if !adv && x > s.highest_honest {
                    Ok((AdversaryView { phase: AdvPhaseView::AwaitTip(x), ..s }, seq![AdvActionView::QueryTip]))
                } else {
                    Ok((AdversaryView { phase: AdvPhaseView::Idle, ..s }, Seq::empty()))
                },
            },
            AdvPhaseView::AwaitTipHeight(tip, x) => match h {
                None => Err(AdversaryError::MissingBlock),
                Some(th) => if th >= x {
                    Ok(walk(s, tip, th, x))
                } else {
                    Ok((AdversaryView { phase: AdvPhaseView::Idle, highest_honest: x, ..s }, Seq::empty()))
                },
            },
            _ => Err(AdversaryError::UnexpectedEvent),
        },
        AdversaryEventView::Tip(t) => match s.phase {
            AdvPhaseView::AwaitTip(x) => Ok((AdversaryView { phase: AdvPhaseView::AwaitTipHeight(t, x), ..s },
                seq![AdvActionView::QueryHeight(t)])),
            _ => Err(AdversaryError::UnexpectedEvent),
        },
        AdversaryEventView::Parent(p) => match s.phase {
            AdvPhaseView::Walking(_, th, x) => match p {
                Some(Some(q)) => if th > 0 { Ok(walk(s, q, (th - 1) as usize, x)) } else { Err(AdversaryError::MissingBlock) },
                _ => Err(AdversaryError::MissingBlock),
            },
            _ => Err(AdversaryError::UnexpectedEvent),
        },
        AdversaryEventView::Block(b) => match s.phase {
            AdvPhaseView::AwaitBlock(x) => match b {
                Some(blk) => {
                    let s1 = AdversaryView { phase: AdvPhaseView::Idle, highest_honest: x, ..s };
                    if is_adversarial_view(blk) {
                        Ok((s1, seq![AdvActionView::Publish(block_digest(blk), block_bytes(blk))]))
                    } else {
                        Ok((s1, Seq::empty()))
                    }
                },
                None => Err(AdversaryError::MissingBlock),
            },
            _ => Err(AdversaryError::UnexpectedEvent),
        },
    }
}

/// The mathematical value of an event.
pub enum AdversaryEventView {
    LocallyMined(Seq<u8>),
    AdversaryMessage(Seq<u8>),
    PublicBlock(Seq<u8>, Seq<u8>),
    Height(Option<usize>),
    Tip(Seq<u8>),
    Parent(Option<Option<Seq<u8>>>),
    Block(Option<LcBlockView>),
}

pub open spec fn adv_event_view(e: AdversaryEvent) -> AdversaryEventView {
    match e {
        AdversaryEvent::LocallyMined(v) => AdversaryEventView::LocallyMined(v@),
        AdversaryEvent::AdversaryMessage(v) => AdversaryEventView::AdversaryMessage(v@),
        AdversaryEvent::PublicBlock(k, v) => AdversaryEventView::PublicBlock(k@, v@),
        AdversaryEvent::Height(h) => AdversaryEventView::Height(h),
        AdversaryEvent::Tip(t) => AdversaryEventView::Tip(t@),
        AdversaryEvent::Parent(p) => AdversaryEventView::Parent(match p {
            Some(q) => Some(crate::codec::opt_bytes(q)),
            None => None,
        }),
        AdversaryEvent::Block(b) => AdversaryEventView::Block(match b {
            Some(x) => Some(x@),
            None => None,
        }),
    }
}

/// The decisions of an adversarial node: hidden blocks are shared among the
/// adversaries and published once honest blocks of their height appear; each
/// new higher honest public block is answered with an adversarial block of the
/// same height, where there is one.
pub struct AdversaryState {
    adversary_leader: PublicKey,
    highest_honest_block: usize,
    phase: AdversaryPhase,
}

impl View for AdversaryState {
    type V = AdversaryView;

    closed spec fn view(&self) -> AdversaryView {
        AdversaryView {
            leader: self.adversary_leader@,
            highest_honest: self.highest_honest_block,
            phase: adv_phase_view(self.phase),
        }
    }
}

pub open spec fn adv_actions_view(s: Seq<AdversaryAction>) -> Seq<AdvActionView> {
    s.map_values(|a: AdversaryAction| adv_action_view(a))
}

impl AdversaryState {
    /// The logic of the adversarial node `name`: it leads until it hears of a
    /// smaller key; no honest block answered yet.
    pub fn new(name: PublicKey) -> (r: AdversaryState)
        ensures
            r@ == (AdversaryView { leader: name@, highest_honest: 0, phase: AdvPhaseView::Idle }),
    {
        AdversaryState { adversary_leader: name, highest_honest_block: 0, phase: AdversaryPhase::Idle }
    }

    /// The greeting that introduces `name` to the other adversaries: its key
    /// and bytes.
    pub fn hello_message(name: PublicKey) -> (r: (Vec<u8>, Vec<u8>))
        ensures
            r.1@ == msg_bytes(AdversarialGossipMsgView::Hello(name@)),
            r.0@ == digest_of_bytes(r.1@),
    {
        let m = AdversarialGossipMsg::Hello(name);
        let d = m.digest();
        (digest_to_vec(&d), m.to_bytes())
    }

    /// The adversary currently leading.
    pub fn leader(&self) -> (r: PublicKey)
        ensures
            r@ == self@.leader,
    {
        self.adversary_leader
    }

    /// Walking down from `tip`.
    fn walk(&mut self, tip: Digest, tip_height: usize, h: usize, actions: &mut Vec<AdversaryAction>)
        requires
            old(actions)@.len() == 0,
        ensures
            (final(self)@, adv_actions_view(final(actions)@)) == walk(old(self)@, tip@, tip_height, h),
    {
        if tip_height > h {
            self.phase = AdversaryPhase::Walking(tip, tip_height, h);
            actions.push(AdversaryAction::QueryParent(tip));
        } else {
            self.phase = AdversaryPhase::AwaitBlock(h);
            actions.push(AdversaryAction::QueryBlock(tip));
        }
        proof {
            assert(adv_actions_view(actions@) =~= walk(old(self)@, tip@, tip_height, h).1);
        }
    }

    /// Handles one event and returns the actions to take, in order.
    pub fn step(&mut self, ev: AdversaryEvent) -> (r: Result<Vec<AdversaryAction>, AdversaryError>)
        ensures
            match adv_step_spec(old(self)@, adv_event_view(ev)) {
                Ok((s, a)) => r matches Ok(acts) && final(self)@ == s && adv_actions_view(acts@) == a,
                Err(e) => r matches Err(e2) && e2 == e,
            },
    {
        let mut actions: Vec<AdversaryAction> = Vec::new();
        let idle = match self.phase {
            AdversaryPhase::Idle => true,
            _ => false,
        };
        match ev {
            AdversaryEvent::LocallyMined(v) => {
                if !idle {
                    return Err(AdversaryError::UnexpectedEvent);
                }
                let blk = match LcBlock::from_bytes(v.as_slice()) {
                    Ok(b) => b,
                    Err(_) => {
                        return Err(AdversaryError::Undecodable);
                    },
                };
                let m = AdversarialGossipMsg::HiddenLcBlock(blk);
                let d = m.digest();
                actions.push(AdversaryAction::SendToAdversaries(digest_to_vec(&d), m.to_bytes()));
            },
            AdversaryEvent::AdversaryMessage(v) => {
                if !idle {
                    return Err(AdversaryError::UnexpectedEvent);
                }
                match AdversarialGossipMsg::from_bytes(v.as_slice()) {
                    None => {
                        return Err(AdversaryError::Undecodable);
                    },
                    Some(AdversarialGossipMsg::Hello(pk)) => {
                        if pk.lt(&self.adversary_leader) {
                            self.adversary_leader = pk;
                        }
                    },
                    Some(AdversarialGossipMsg::HiddenLcBlock(b)) => {
                        let d = b.digest();
                        let bytes = b.to_bytes();
                        actions.push(AdversaryAction::DeliverToTree(digest_to_vec(&d), bytes));
                        actions.push(AdversaryAction::QueryHeight(d));
                        self.phase = AdversaryPhase::AwaitHiddenHeight(b);
                    },
                }
            },
            AdversaryEvent::PublicBlock(k, v) => {
                if !idle {
                    return Err(AdversaryError::UnexpectedEvent);
                }
                let blk = match LcBlock::from_bytes(v.as_slice()) {
                    Ok(b) => b,
                    Err(_) => {
                        return Err(AdversaryError::Undecodable);
                    },
                };
                let d = blk.digest();
                let adv = blk.is_adversarial();
                actions.push(AdversaryAction::DeliverToTree(k, v));
                actions.push(AdversaryAction::QueryHeight(d));
                self.phase = AdversaryPhase::AwaitPublicHeight(d, adv);
            },
            AdversaryEvent::Height(h) => {
                match &self.phase {
                    AdversaryPhase::AwaitHiddenHeight(b) => {
                        match h {
                            None => {
                                actions.push(AdversaryAction::QueryHeight(b.digest()));
                            },
                            Some(x) => {
                                if x <= self.highest_honest_block {
                                    let d = b.digest();
                                    actions.push(AdversaryAction::Publish(digest_to_vec(&d), b.to_bytes()));
                                }
                                self.phase = AdversaryPhase::Idle;
                            },
                        }
                    },
                    AdversaryPhase::AwaitPublicHeight(d, adv) => {
                        let d = *d;
                        let adv = *adv;
                        match h {
                            None => {
                                actions.push(AdversaryAction::QueryHeight(d));
                            },
                            Some(x) => {
                                if !adv && x > self.highest_honest_block {
                                    actions.push(AdversaryAction::QueryTip);
                                    self.phase = AdversaryPhase::AwaitTip(x);
                                } else {
                                    self.phase = AdversaryPhase::Idle;
                                }
                            },
                        }
                    },
                    AdversaryPhase::AwaitTipHeight(tip, x) => {
                        let tip = *tip;
                        let x = *x;
                        match h {
                            None => {
                                return Err(AdversaryError::MissingBlock);
                            },
                            Some(th) => {
                                if th >= x {
                                    self.walk(tip, th, x, &mut actions);
                                } else {
                                    self.highest_honest_block = x;
                                    self.phase = AdversaryPhase::Idle;
                                }
                            },
                        }
                    },
                    _ => {
                        return Err(AdversaryError::UnexpectedEvent);
                    },
                }
            },
            AdversaryEvent::Tip(t) => {
                match self.phase {
                    AdversaryPhase::AwaitTip(x) => {
                        actions.push(AdversaryAction::QueryHeight(t));
                        self.phase = AdversaryPhase::AwaitTipHeight(t, x);
                    },
                    _ => {
                        return Err(AdversaryError::UnexpectedEvent);
                    },
                }
            },
            AdversaryEvent::Parent(p) => {
                match self.phase {
                    AdversaryPhase::Walking(_, th, x) => {
                        match p {
                            Some(Some(q)) => {
                                if th > 0 {
                                    self.walk(q, th - 1, x, &mut actions);
                                } else {
                                    return Err(AdversaryError::MissingBlock);
                                }
                            },
                            _ => {
                                return Err(AdversaryError::MissingBlock);
                            },
                        }
                    },
                    _ => {
                        return Err(AdversaryError::UnexpectedEvent);
                    },
                }
            },
            AdversaryEvent::Block(b) => {
                match self.phase {
                    AdversaryPhase::AwaitBlock(x) => {
                        match b {
                            Some(blk) => {
                                if blk.is_adversarial() {
                                    let d = blk.digest();
                                    actions.push(AdversaryAction::Publish(digest_to_vec(&d), blk.to_bytes()));
                                }
                                self.highest_honest_block = x;
                                self.phase = AdversaryPhase::Idle;
                            },
                            None => {
                                return Err(AdversaryError::MissingBlock);
                            },
                        }
                    },
                    _ => {
                        return Err(AdversaryError::UnexpectedEvent);
                    },
                }
            },
        }
        proof {
            assert(adv_actions_view(actions@) =~= match adv_step_spec(old(self)@, adv_event_view(ev)) {
                Ok((s, a)) => a,
                Err(_) => adv_actions_view(actions@),
            });
        }
        Ok(actions)
    }
}

/// The height that an answer under way is about is above the highest honest
/// block answered so far.
pub open spec fn adv_inv(s: AdversaryView) -> bool {
    match s.phase {
        AdvPhaseView::AwaitTip(x) => x > s.highest_honest,
        AdvPhaseView::AwaitTipHeight(_, x) => x > s.highest_honest,
        AdvPhaseView::Walking(_, _, x) => x > s.highest_honest,
        AdvPhaseView::AwaitBlock(x) => x > s.highest_honest,
        _ => true,
    }
}

/// Every step keeps the invariant; the adversaries' leader can only move to a
/// smaller key, and the highest honest block answered can only grow; and a
/// block published in answer to an honest one is adversarial.
pub proof fn lemma_adversary_step(s: AdversaryView, ev: AdversaryEventView)
    requires
        adv_inv(s),
    ensures
        adv_step_spec(s, ev) matches Ok((s2, a)) ==> {
            &&& adv_inv(s2)
            &&& (s2.leader == s.leader || bytes_lt(s2.leader, s.leader))
            &&& s2.highest_honest >= s.highest_honest
            &&& (ev is Block && a.len() > 0) ==> (ev->Block_0 matches Some(b) && is_adversarial_view(b)
                && a == seq![AdvActionView::Publish(block_digest(b), block_bytes(b))])
        },
{
}

/// On learning the height `x` of a hidden block, the adversary publishes that
/// block, under its digest, exactly when `x` is not above the highest honest
/// height it has answered so far; either way it goes back to idle with its
/// leader and highest honest height unchanged.
pub proof fn lemma_hidden_block_published_iff_not_higher(s: AdversaryView, b: LcBlockView, x: usize)
    requires
        s.phase == AdvPhaseView::AwaitHiddenHeight(b),
    ensures
        adv_step_spec(s, AdversaryEventView::Height(Some(x))) is Ok,
        ({
            let (s2, acts) = adv_step_spec(s, AdversaryEventView::Height(Some(x)))->Ok_0;
            &&& s2.phase is Idle
            &&& s2.highest_honest == s.highest_honest
            &&& s2.leader == s.leader
            &&& (acts.len() > 0 <==> x <= s.highest_honest)
            &&& x <= s.highest_honest ==> acts == seq![AdvActionView::Publish(block_digest(b), block_bytes(b))]
        }),
{
}

} // verus!
