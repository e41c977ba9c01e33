use vstd::prelude::*;
use std::collections::HashMap;
use crate::types::{Digest, PublicKey};
use crate::config::{CheckpointCommittee, CheckpointParameters, member_stake};
use crate::cpactions::{CheckpointAction, CheckpointTransaction, CheckpointTransactionView, action_view, tx_digest, zero_signature, tx_from_bytes, tx_signature_valid};
use crate::cpevents::CheckpointEvent;
use crate::cpleader::{RandomLeaderElector, std_rng_first_usize};
use crate::crypto::{SignatureService, ed25519_signature};

verus! {

broadcast use vstd::std_specs::hash::group_hash_axioms;

/// The milliseconds between two repeated rejections of an iteration that
/// timed out.
pub const REJECT_REPEAT_INTERVAL: u64 = 30_000;

/// The part of an iteration the proposer is in.
#[derive(Clone, Copy, Debug)]
pub enum ProposerPhase {
    /// Waiting out the delay after the previous checkpoint.
    InterCheckpointDelay,
    /// Waiting for the leader to ask for the current proposal.
    AwaitingCurrentProposal,
    /// Waiting for a proposal to act on, until the timeout.
    Timeout,
    /// Waiting for the validity of the proposal being acted on.
    AwaitingValidity(Digest),
    /// Rejecting the timed-out iteration again and again.
    RejectRepeat,
}

/// What the proposer is told.
#[derive(Clone, Copy, Debug)]
pub enum ProposerEvent {
    /// An event of the checkpointing components.
    Checkpoint(CheckpointEvent),
    /// The timer that the proposer last started has run out.
    TimerElapsed,
    /// The block tree's current proposal, as asked for.
    CurrentProposal(Digest),
    /// Whether the proposal acted on is valid, as asked for.
    ProposalValidity(bool),
}

/// What the proposer asks to be done, in order.
#[derive(Clone, Copy, Debug)]
pub enum ProposerAction {
    /// Pause the consensus until it is resumed.
    PauseConsensus,
    /// Resume the consensus.
    ResumeConsensus,
    /// Start a timer of the given milliseconds, replacing any earlier one.
    StartTimer(u64),
    /// Ask the block tree for its current proposal.
    RequestCurrentProposal,
    /// Ask the block tree whether a proposal is valid.
    ValidateProposal(Digest),
    /// Broadcast a signed proposal to the committee.
    BroadcastProposal(CheckpointTransaction),
    /// Submit a signed vote to the ledger.
    SubmitVote(CheckpointTransaction),
}

/// Why the proposer cannot go on.
#[derive(Clone, Copy, Debug)]
pub enum ProposerError {
    /// The secret key does not sign.
    SigningFailed,
    /// A checkpoint was decided for another iteration than the current one.
    IterationMismatch(usize, usize),
    /// The iteration or the leader's seed would overflow.
    Overflow,
    /// An event came that the proposer was not waiting for.
    UnexpectedEvent,
}

/// The mathematical value of a phase.
pub enum PhaseView {
    InterCheckpointDelay,
    AwaitingCurrentProposal,
    Timeout,
    AwaitingValidity(Seq<u8>),
    RejectRepeat,
}

pub open spec fn phase_view(p: ProposerPhase) -> PhaseView {
    match p {
        ProposerPhase::InterCheckpointDelay => PhaseView::InterCheckpointDelay,
        ProposerPhase::AwaitingCurrentProposal => PhaseView::AwaitingCurrentProposal,
        ProposerPhase::Timeout => PhaseView::Timeout,
        ProposerPhase::AwaitingValidity(d) => PhaseView::AwaitingValidity(d@),
        ProposerPhase::RejectRepeat => PhaseView::RejectRepeat,
    }
}

/// The mathematical value of an action.
pub enum ActionView {
    PauseConsensus,
    ResumeConsensus,
    StartTimer(u64),
    RequestCurrentProposal,
    ValidateProposal(Seq<u8>),
    BroadcastProposal(CheckpointTransactionView),
    SubmitVote(CheckpointTransactionView),
}

pub open spec fn proposer_action_view(a: ProposerAction) -> ActionView {
    match a {
        ProposerAction::PauseConsensus => ActionView::PauseConsensus,
        ProposerAction::ResumeConsensus => ActionView::ResumeConsensus,
        ProposerAction::StartTimer(ms) => ActionView::StartTimer(ms),
        ProposerAction::RequestCurrentProposal => ActionView::RequestCurrentProposal,
        ProposerAction::ValidateProposal(d) => ActionView::ValidateProposal(d@),
        ProposerAction::BroadcastProposal(t) => ActionView::BroadcastProposal(t@),
        ProposerAction::SubmitVote(t) => ActionView::SubmitVote(t@),
    }
}

pub open spec fn actions_view(s: Seq<ProposerAction>) -> Seq<ActionView> {
    s.map_values(|a: ProposerAction| proposer_action_view(a))
}

/// The mathematical value of the proposer's state.
pub struct ProposerView {
    pub iteration: usize,
    pub last_checkpoint: Option<Seq<u8>>,
    /// The proposals received for current and future iterations.
    pub proposals: Map<usize, Seq<u8>>,
    pub phase: PhaseView,
    /// Whether the consensus was resumed in this iteration.
    pub resumed: bool,
}

/// What the proposer is configured with.
pub struct ProposerConfig {
    pub name: Seq<u8>,
    pub secret: Seq<u8>,
    pub boycott_proposals: bool,
    pub inter_checkpoint_delay: u64,
    pub timeout: u64,
    pub leader_keys: Seq<PublicKey>,
    pub leader_seed: u64,
}

/// The proposal received for iteration `i`, if any.
pub open spec fn proposal_for(ps: Map<usize, Seq<u8>>, i: usize) -> Option<Seq<u8>> {
    if ps.contains_key(i) {
        Some(ps[i])
    } else {
        None
    }
}

/// The proposals without the one of iteration `i`.
pub open spec fn proposals_without(ps: Map<usize, Seq<u8>>, i: usize) -> Map<usize, Seq<u8>> {
    ps.remove(i)
}

/// The leader of iteration `i`.
pub open spec fn leader_of(c: ProposerConfig, i: usize) -> Seq<u8> {
    c.leader_keys[std_rng_first_usize((c.leader_seed + i) as u64) as int % c.leader_keys.len() as int]@
}

/// The transaction of the proposer doing `act`, signed with its secret.
pub open spec fn signed(c: ProposerConfig, act: (u32, usize, Option<Seq<u8>>)) -> Option<CheckpointTransactionView> {
    match ed25519_signature(c.secret, tx_digest(c.name, act, zero_signature())) {
        Some(sig) => Some(CheckpointTransactionView { author: c.name, action: act, signature: sig }),
        None => None,
    }
}

/// The outcome of a step: the next state and the actions, or the error.
pub type StepView = Result<(ProposerView, Seq<ActionView>), ProposerError>;

/// Acting on proposal `p`: resume the consensus if it is still paused, and
/// ask whether `p` is valid.
pub open spec fn act_on(s: ProposerView, p: Seq<u8>) -> (ProposerView, Seq<ActionView>) {
    let resume = if s.resumed { Seq::empty() } else { seq![ActionView::ResumeConsensus] };
    (ProposerView { phase: PhaseView::AwaitingValidity(p), resumed: true, ..s },
        resume.push(ActionView::ValidateProposal(p)))
}

/// Entering the wait for a proposal: start the timeout, and act on the
/// proposal of the iteration if one was received already.
pub open spec fn enter_timeout(c: ProposerConfig, s: ProposerView) -> (ProposerView, Seq<ActionView>) {
    let s1 = ProposerView { phase: PhaseView::Timeout, ..s };
    let a1 = seq![ActionView::StartTimer(c.timeout)];
    match proposal_for(s.proposals, s.iteration) {
        Some(p) => {
            let (s2, a2) = act_on(s1, p);
            (s2, a1 + a2)
        },
        None => (s1, a1),
    }
}

/// After the delay: the leader of the iteration, unless it boycotts, asks for
/// the current proposal; everyone else waits for a proposal.
pub open spec fn leader_step(c: ProposerConfig, s: ProposerView) -> StepView {
    if c.leader_seed + s.iteration > u64::MAX {
        Err(ProposerError::Overflow)
    } else if leader_of(c, s.iteration) == c.name && !c.boycott_proposals {
        Ok((ProposerView { phase: PhaseView::AwaitingCurrentProposal, ..s }, seq![ActionView::RequestCurrentProposal]))
    } else {
        Ok(enter_timeout(c, s))
    }
}

/// Beginning iteration `i`: forget the proposal of the previous iteration,
/// pause the consensus, then wait out the delay if there was a checkpoint.
pub open spec fn begin_iteration(c: ProposerConfig, s: ProposerView, i: usize) -> StepView {
    let ps = if i > 0 { proposals_without(s.proposals, (i - 1) as usize) } else { s.proposals };
    let s1 = ProposerView { iteration: i, proposals: ps, resumed: false, ..s };
    if s.last_checkpoint is Some {
        Ok((ProposerView { phase: PhaseView::InterCheckpointDelay, ..s1 },
            seq![ActionView::PauseConsensus, ActionView::StartTimer(c.inter_checkpoint_delay)]))
    } else {
        match leader_step(c, s1) {
            Ok((s2, a2)) => Ok((s2, seq![ActionView::PauseConsensus] + a2)),
            Err(e) => Err(e),
        }
    }
}

/// A vote of the proposer for the current iteration, after the actions `pre`.
pub open spec fn vote_step(c: ProposerConfig, s: ProposerView, act: (u32, usize, Option<Seq<u8>>), pre: Seq<ActionView>) -> StepView {
    match signed(c, act) {
        Some(t) => Ok((s, pre.push(ActionView::SubmitVote(t)))),
        None => Err(ProposerError::SigningFailed),
    }
}

/// The whole step of the proposer on an event.
pub open spec fn step_spec(c: ProposerConfig, s: ProposerView, ev: ProposerEvent) -> StepView {
    let awaiting = s.phase is AwaitingCurrentProposal || s.phase is AwaitingValidity;
    match ev {
        ProposerEvent::Checkpoint(CheckpointEvent::NewCheckpoint(j, b)) => {
            if awaiting {
                Err(ProposerError::UnexpectedEvent)
            } else if j != s.iteration {
                Err(ProposerError::IterationMismatch(j, s.iteration))
            } else if s.iteration == usize::MAX {
                Err(ProposerError::Overflow)
            } else {
                let resume = if s.resumed { Seq::empty() } else { seq![ActionView::ResumeConsensus] };
                let s1 = ProposerView { last_checkpoint: crate::codec::opt_bytes(b), ..s };
                match begin_iteration(c, s1, (s.iteration + 1) as usize) {
                    Ok((s2, a2)) => Ok((s2, resume + a2)),
                    Err(e) => Err(e),
                }
            }
        },
        ProposerEvent::Checkpoint(CheckpointEvent::NewProposal(j, b)) => {
            if awaiting {
                Err(ProposerError::UnexpectedEvent)
            } else if j >= s.iteration && proposal_for(s.proposals, j) is None {
                let s1 = ProposerView { proposals: s.proposals.insert(j, b@), ..s };
                if s.phase is Timeout && j == s.iteration {
                    Ok(act_on(s1, b@))
                } else {
                    Ok((s1, Seq::empty()))
                }
            } else {
                Ok((s, Seq::empty()))
            }
        },
        ProposerEvent::TimerElapsed => match s.phase {
            PhaseView::InterCheckpointDelay => leader_step(c, s),
            PhaseView::Timeout => {
                let resume = if s.resumed { Seq::empty() } else { seq![ActionView::ResumeConsensus] };
                let s1 = ProposerView { phase: PhaseView::RejectRepeat, resumed: true, ..s };
                match vote_step(c, s1, (2u32, s.iteration, None), resume) {
                    Ok((s2, a2)) => Ok((s2, a2.push(ActionView::StartTimer(REJECT_REPEAT_INTERVAL)))),
                    Err(e) => Err(e),
                }
            },
            PhaseView::RejectRepeat => match vote_step(c, s, (2u32, s.iteration, None), Seq::empty()) {
                Ok((s2, a2)) => Ok((s2, a2.push(ActionView::StartTimer(REJECT_REPEAT_INTERVAL)))),
                Err(e) => Err(e),
            },
            _ => Err(ProposerError::UnexpectedEvent),
        },
        ProposerEvent::CurrentProposal(d) => match s.phase {
            PhaseView::AwaitingCurrentProposal => match signed(c, (0u32, s.iteration, Some(d@))) {
                Some(t) => {
                    let (s2, a2) = enter_timeout(c, s);
                    Ok((s2, seq![ActionView::BroadcastProposal(t)] + a2))
                },
                None => Err(ProposerError::SigningFailed),
            },
            _ => Err(ProposerError::UnexpectedEvent),
        },
        ProposerEvent::ProposalValidity(ok) => match s.phase {
            PhaseView::AwaitingValidity(p) => {
                let act = if ok { (1u32, s.iteration, Some(p)) } else { (2u32, s.iteration, None) };
                vote_step(c, ProposerView { phase: PhaseView::Timeout, ..s }, act, Seq::empty())
            },
            _ => Err(ProposerError::UnexpectedEvent),
        },
    }
}

/// Runs the checkpointing iterations of one committee member: pauses the
/// consensus at the start of each iteration, proposes as leader, votes on the
/// proposal of the iteration, and rejects an iteration that times out.
pub struct MyCheckpointProposer {
    name: PublicKey,
    signature_service: SignatureService,
    boycott_proposals: bool,
    parameters: CheckpointParameters,
    leader_election: RandomLeaderElector,
    current_iteration: usize,
    last_checkpoint: Option<Digest>,
    proposals: HashMap<usize, Digest>,
    phase: ProposerPhase,
    resumed: bool,
}

impl View for MyCheckpointProposer {
    type V = ProposerView;

    closed spec fn view(&self) -> ProposerView {
        ProposerView {
            iteration: self.current_iteration,
            last_checkpoint: crate::codec::opt_bytes(self.last_checkpoint),
            proposals: self.proposals@.map_values(|d: Digest| d@),
            phase: phase_view(self.phase),
            resumed: self.resumed,
        }
    }
}

impl MyCheckpointProposer {
    /// The proposal received for iteration `i`, if any.
    fn find_proposal(&self, i: usize) -> (r: Option<Digest>)
        ensures
            crate::codec::opt_bytes(r) == proposal_for(self@.proposals, i),
    {
        match self.proposals.get(&i) {
            Some(d) => Some(*d),
            None => None,
        }
    }

    /// Forgets the proposal of iteration `i`.
    fn forget_proposal(&mut self, i: usize)
        ensures
            final(self)@ == (ProposerView { proposals: proposals_without(old(self)@.proposals, i), ..old(self)@ }),
            final(self).config() == old(self).config(),
            final(self).wf() == old(self).wf(),
    {
        proof {
            use_type_invariant(&*self);
        }
        let mut ps: HashMap<usize, Digest> = HashMap::new();
        std::mem::swap(&mut ps, &mut self.proposals);
        ps.remove(&i);
        self.proposals = ps;
        proof {
            assert(self@.proposals =~= old(self)@.proposals.remove(i));
        }
    }

    /// The transaction of the proposer doing `action`, signed.
    fn sign(&self, action: CheckpointAction) -> (r: Result<CheckpointTransaction, ProposerError>)
        ensures
            match signed(self.config(), action_view(action)) {
                Some(t) => r matches Ok(x) && x@ == t,
                None => r matches Err(e) && e == ProposerError::SigningFailed,
            },
    {
        match CheckpointTransaction::new(self.name, action, &self.signature_service) {
            Some(t) => Ok(t),
            None => Err(ProposerError::SigningFailed),
        }
    }

    /// Acting on proposal `p`.
    fn act_on(&mut self, p: Digest, actions: &mut Vec<ProposerAction>)
        ensures
            final(self)@ == act_on(old(self)@, p@).0,
            actions_view(final(actions)@) == actions_view(old(actions)@) + act_on(old(self)@, p@).1,
            final(self).config() == old(self).config(),
            final(self).wf() == old(self).wf(),
    {
        proof {
            use_type_invariant(&*self);
        }
        let ghost a0 = actions_view(actions@);
        if !self.resumed {
            actions.push(ProposerAction::ResumeConsensus);
        }
        actions.push(ProposerAction::ValidateProposal(p));
        self.resumed = true;
        self.phase = ProposerPhase::AwaitingValidity(p);
        proof {
            let resume = if old(self)@.resumed { Seq::<ActionView>::empty() } else { seq![ActionView::ResumeConsensus] };
            assert(actions_view(actions@) =~= a0 + resume.push(ActionView::ValidateProposal(p@)));
        }
    }

    /// Entering the wait for a proposal.
    fn enter_timeout(&mut self, actions: &mut Vec<ProposerAction>)
        ensures
            final(self)@ == enter_timeout(old(self).config(), old(self)@).0,
            actions_view(final(actions)@) == actions_view(old(actions)@) + enter_timeout(old(self).config(), old(self)@).1,
            final(self).config() == old(self).config(),
            final(self).wf() == old(self).wf(),
    {
        proof {
            use_type_invariant(&*self);
        }
        let ghost a0 = actions_view(actions@);
        self.phase = ProposerPhase::Timeout;
        actions.push(ProposerAction::StartTimer(self.parameters.propose_timeout));
        proof {
            assert(actions_view(actions@) =~= a0 + seq![ActionView::StartTimer(self.config().timeout)]);
        }
        match self.find_proposal(self.current_iteration) {
            Some(p) => {
                let ghost a1 = actions_view(actions@);
                self.act_on(p, actions);
                proof {
                    assert(actions_view(actions@) =~= a0 + (seq![ActionView::StartTimer(self.config().timeout)]
                        + act_on(ProposerView { phase: PhaseView::Timeout, ..old(self)@ }, p@).1));
                }
            },
            None => {},
        }
    }

    /// The step after the delay, or right away when there is no delay.
    fn leader_step(&mut self, actions: &mut Vec<ProposerAction>) -> (r: Result<(), ProposerError>)
        requires
            old(self).wf(),
        ensures
            final(self).config() == old(self).config(),
            final(self).wf(),
            match leader_step(old(self).config(), old(self)@) {
                Ok((s, a)) => r is Ok && final(self)@ == s && actions_view(final(actions)@) == actions_view(old(actions)@) + a,
                Err(e) => r == Err::<(), ProposerError>(e),
            },
    {
        let i = self.current_iteration;
        if self.leader_election.rng_seed() > u64::MAX - i as u64 {
            return Err(ProposerError::Overflow);
        }
        let leader = self.leader_election.get_leader(i);
        if leader == self.name && !self.boycott_proposals {
            let ghost a0 = actions_view(actions@);
            self.phase = ProposerPhase::AwaitingCurrentProposal;
            actions.push(ProposerAction::RequestCurrentProposal);
            proof {
                assert(actions_view(actions@) =~= a0 + seq![ActionView::RequestCurrentProposal]);
            }
        } else {
            self.enter_timeout(actions);
        }
        Ok(())
    }

    /// Beginning iteration `i`.
    fn begin_iteration(&mut self, i: usize, actions: &mut Vec<ProposerAction>) -> (r: Result<(), ProposerError>)
        requires
            old(self).wf(),
        ensures
            final(self).config() == old(self).config(),
            final(self).wf(),
            match begin_iteration(old(self).config(), old(self)@, i) {
                Ok((s, a)) => r is Ok && final(self)@ == s && actions_view(final(actions)@) == actions_view(old(actions)@) + a,
                Err(e) => r == Err::<(), ProposerError>(e),
            },
    {
        let ghost a0 = actions_view(actions@);
        if i > 0 {
            self.forget_proposal(i - 1);
        }
        self.current_iteration = i;
        self.resumed = false;
        actions.push(ProposerAction::PauseConsensus);
        if self.last_checkpoint.is_some() {
            self.phase = ProposerPhase::InterCheckpointDelay;
            actions.push(ProposerAction::StartTimer(self.parameters.propose_inter_checkpoint_delay));
            proof {
                assert(actions_view(actions@) =~= a0 + seq![ActionView::PauseConsensus, ActionView::StartTimer(self.config().inter_checkpoint_delay)]);
            }
            Ok(())
        } else {
            let ghost s1 = self@;
            let ghost a1 = actions_view(actions@);
            let r = self.leader_step(actions);
            proof {
                match leader_step(self.config(), s1) {
                    Ok((s2, a2)) => {
                        assert(a1 =~= a0 + seq![ActionView::PauseConsensus]);
                        assert(actions_view(actions@) =~= a0 + (seq![ActionView::PauseConsensus] + a2));
                    },
                    Err(_) => {},
                }
            }
            r
        }
    }

    /// Handles one event and returns the actions to take, in order.
    pub fn step(&mut self, ev: ProposerEvent) -> (r: Result<Vec<ProposerAction>, ProposerError>)
        ensures
            final(self).wf(),
            final(self).config() == old(self).config(),
            match step_spec(old(self).config(), old(self)@, ev) {
                Ok((s, a)) => r matches Ok(acts) && final(self)@ == s && actions_view(acts@) == a,
                Err(e) => r matches Err(e2) && e2 == e,
            },
    {
        proof {
            use_type_invariant(&*self);
        }
        let mut actions: Vec<ProposerAction> = Vec::new();
        proof {
            assert(actions_view(actions@) =~= Seq::<ActionView>::empty());
        }
        let awaiting = match self.phase {
            ProposerPhase::AwaitingCurrentProposal => true,
            ProposerPhase::AwaitingValidity(_) => true,
            _ => false,
        };
        match ev {
            ProposerEvent::Checkpoint(CheckpointEvent::NewCheckpoint(j, b)) => {
                if awaiting {
                    return Err(ProposerError::UnexpectedEvent);
                }
                let i = self.current_iteration;
                if j != i {
                    return Err(ProposerError::IterationMismatch(j, i));
                }
                if i == usize::MAX {
                    return Err(ProposerError::Overflow);
                }
                if !self.resumed {
                    actions.push(ProposerAction::ResumeConsensus);
                }
                let ghost a0 = actions_view(actions@);
                self.last_checkpoint = b;
                let ghost s1 = self@;
                let r = self.begin_iteration(i + 1, &mut actions);
                proof {
                    match begin_iteration(self.config(), s1, (i + 1) as usize) {
                        Ok((s2, a2)) => {
                            assert(actions_view(actions@) == a0 + a2);
                        },
                        Err(_) => {},
                    }
                }
                match r {
                    Ok(()) => Ok(actions),
                    Err(e) => Err(e),
                }
            },
            ProposerEvent::Checkpoint(CheckpointEvent::NewProposal(j, b)) => {
                if awaiting {
                    return Err(ProposerError::UnexpectedEvent);
                }
                if j >= self.current_iteration && self.find_proposal(j).is_none() {
                    let is_timeout = match self.phase {
                        ProposerPhase::Timeout => true,
                        _ => false,
                    };
                    let mut ps: HashMap<usize, Digest> = HashMap::new();
                    std::mem::swap(&mut ps, &mut self.proposals);
                    ps.insert(j, b);
                    self.proposals = ps;
                    proof {
                                        assert(self@.proposals =~= old(self)@.proposals.insert(j, b@));
                    }
                    if is_timeout && j == self.current_iteration {
                        self.act_on(b, &mut actions);
                    }
                }
                Ok(actions)
            },
            ProposerEvent::TimerElapsed => {
                match self.phase {
                    ProposerPhase::InterCheckpointDelay => {
                        match self.leader_step(&mut actions) {
                            Ok(()) => Ok(actions),
                            Err(e) => Err(e),
                        }
                    },
                    ProposerPhase::Timeout => {
                        if !self.resumed {
                            actions.push(ProposerAction::ResumeConsensus);
                        }
                        self.phase = ProposerPhase::RejectRepeat;
                        self.resumed = true;
                        let t = match self.sign(CheckpointAction::Reject(self.current_iteration)) {
                            Ok(t) => t,
                            Err(e) => {
                                return Err(e);
                            },
                        };
                        actions.push(ProposerAction::SubmitVote(t));
                        actions.push(ProposerAction::StartTimer(REJECT_REPEAT_INTERVAL));
                        proof {
                            let resume = if old(self)@.resumed { Seq::<ActionView>::empty() } else { seq![ActionView::ResumeConsensus] };
                            assert(actions_view(actions@) =~= resume.push(ActionView::SubmitVote(t@)).push(ActionView::StartTimer(REJECT_REPEAT_INTERVAL)));
                        }
                        Ok(actions)
                    },
                    ProposerPhase::RejectRepeat => {
                        let t = match self.sign(CheckpointAction::Reject(self.current_iteration)) {
                            Ok(t) => t,
                            Err(e) => {
                                return Err(e);
                            },
                        };
                        actions.push(ProposerAction::SubmitVote(t));
                        actions.push(ProposerAction::StartTimer(REJECT_REPEAT_INTERVAL));
                        proof {
                            assert(actions_view(actions@) =~= Seq::<ActionView>::empty().push(ActionView::SubmitVote(t@)).push(ActionView::StartTimer(REJECT_REPEAT_INTERVAL)));
                        }
                        Ok(actions)
                    },
                    _ => Err(ProposerError::UnexpectedEvent),
                }
            },
            ProposerEvent::CurrentProposal(d) => {
                match self.phase {
                    ProposerPhase::AwaitingCurrentProposal => {
                        let t = match self.sign(CheckpointAction::Propose(self.current_iteration, d)) {
                            Ok(t) => t,
                            Err(e) => {
                                return Err(e);
                            },
                        };
                        actions.push(ProposerAction::BroadcastProposal(t));
                        let ghost a1 = actions_view(actions@);
                        self.enter_timeout(&mut actions);
                        proof {
                            assert(a1 =~= seq![ActionView::BroadcastProposal(t@)]);
                        }
                        Ok(actions)
                    },
                    _ => Err(ProposerError::UnexpectedEvent),
                }
            },
            ProposerEvent::ProposalValidity(ok) => {
                match self.phase {
                    ProposerPhase::AwaitingValidity(p) => {
                        let act = if ok {
                            CheckpointAction::Accept(self.current_iteration, p)
                        } else {
                            CheckpointAction::Reject(self.current_iteration)
                        };
                        let t = match self.sign(act) {
                            Ok(t) => t,
                            Err(e) => {
                                return Err(e);
                            },
                        };
                        self.phase = ProposerPhase::Timeout;
                        actions.push(ProposerAction::SubmitVote(t));
                        proof {
                            assert(actions_view(actions@) =~= Seq::<ActionView>::empty().push(ActionView::SubmitVote(t@)));
                        }
                        Ok(actions)
                    },
                    _ => Err(ProposerError::UnexpectedEvent),
                }
            },
        }
    }

    /// What the proposer is configured with.
    pub closed spec fn config(&self) -> ProposerConfig {
        ProposerConfig {
            name: self.name@,
            secret: self.signature_service@,
            boycott_proposals: self.boycott_proposals,
            inter_checkpoint_delay: self.parameters.propose_inter_checkpoint_delay,
            timeout: self.parameters.propose_timeout,
            leader_keys: self.leader_election.keys(),
            leader_seed: self.leader_election.seed(),
        }
    }

    /// There is a leader to elect.
    #[verifier::type_invariant]
    pub closed spec fn wf(&self) -> bool {
        self.leader_election.keys().len() > 0
    }

    /// A proposer for the member `name` of `committee`, started at iteration 0.
    pub fn new(
        name: PublicKey,
        committee: CheckpointCommittee,
        parameters: CheckpointParameters,
        signature_service: SignatureService,
        boycott_proposals: bool,
    ) -> (r: (MyCheckpointProposer, Vec<ProposerAction>))
        requires
            committee@.members.len() > 0,
        ensures
            r.0.wf(),
            r.0.config().name == name@,
            r.0.config().secret == signature_service@,
            r.0.config().boycott_proposals == boycott_proposals,
            r.0.config().inter_checkpoint_delay == parameters.propose_inter_checkpoint_delay,
            r.0.config().timeout == parameters.propose_timeout,
            crate::config::key_set(r.0.config().leader_keys) == crate::config::member_names(committee@.members),
            crate::config::strictly_sorted(r.0.config().leader_keys),
            r.0.config().leader_keys.len() == committee@.members.len(),
            r.0.config().leader_seed == (crate::cpleader::be_value(r.0.config().leader_keys[0]@, 8) as u64
                ^ 0xdeadbeefdeadbeefu64),
            begin_iteration(r.0.config(), initial_view(), 0) == Ok::<(ProposerView, Seq<ActionView>), ProposerError>((r.0@, actions_view(r.1@))),
    {
        let leader_election = RandomLeaderElector::new(committee);
        let mut p = MyCheckpointProposer {
            name,
            signature_service,
            boycott_proposals,
            parameters,
            leader_election,
            current_iteration: 0,
            last_checkpoint: None,
            proposals: HashMap::new(),
            phase: ProposerPhase::InterCheckpointDelay,
            resumed: false,
        };
        proof {
            assert(p@.proposals =~= Map::<usize, Seq<u8>>::empty());
        }
        let mut actions: Vec<ProposerAction> = Vec::new();
        proof {
            assert(actions_view(actions@) =~= Seq::<ActionView>::empty());
        }
        let r = p.begin_iteration(0, &mut actions);
        match r {
            Ok(()) => {},
            Err(_) => {
                proof {
                    assert(false);
                }
            },
        }
        (p, actions)
    }
}

/// The state of a proposer before its first iteration.
pub open spec fn initial_view() -> ProposerView {
    ProposerView {
        iteration: 0,
        last_checkpoint: None,
        proposals: Map::empty(),
        phase: PhaseView::InterCheckpointDelay,
        resumed: false,
    }
}

// ---------------------------------------------------------------------------
// Proposals heard on the gossip network.

/// Why a proposal heard on the gossip network cannot be screened.
#[derive(Clone, Copy, Debug, PartialEq, Eq, Structural)]
pub enum ScreenError {
    /// The bytes do not encode a checkpoint transaction.
    Undecodable,
    /// The iteration is so large that its leader cannot be drawn.
    IterationOverflow,
}

/// What screening the transaction `t` gives: `None` where it is dropped, the
/// iteration and block of a proposal signed by the leader of that iteration
/// otherwise; or why it cannot be screened.
pub open spec fn screen_spec(
    stake: u32,
    keys: Seq<PublicKey>,
    seed: u64,
    t: CheckpointTransactionView,
) -> Result<Option<(usize, Seq<u8>)>, ScreenError> {
    if !(stake > 0 && tx_signature_valid(t)) || t.action.0 != 0 {
        Ok(None)
    } else if seed + t.action.1 > u64::MAX {
        Err(ScreenError::IterationOverflow)
    } else if t.author == keys[std_rng_first_usize((seed + t.action.1) as u64) as int % keys.len() as int]@ {
        match t.action.2 {
            Some(b) => Ok(Some((t.action.1, b))),
            None => Ok(None),
        }
    } else {
        Ok(None)
    }
}

/// Screens the bytes of a transaction heard on the proposals topic: a
/// proposal whose signature verifies against the committee and whose author
/// leads its iteration becomes a `NewProposal` event; any other transaction
/// is dropped.
pub fn screen_proposal(
    bytes: &Vec<u8>,
    committee: &CheckpointCommittee,
    leader_election: &RandomLeaderElector,
) -> (r: Result<Option<CheckpointEvent>, ScreenError>)
    requires
        leader_election.keys().len() > 0,
    ensures
        match tx_from_bytes(bytes@) {
            None => r == Err::<Option<CheckpointEvent>, ScreenError>(ScreenError::Undecodable),
            Some(t) => match screen_spec(
                member_stake(committee@.members, t.author),
                leader_election.keys(),
                leader_election.seed(),
                t,
            ) {
                Ok(None) => r matches Ok(None),
                Ok(Some((i, b))) => r matches Ok(Some(CheckpointEvent::NewProposal(i2, b2))) && i2 == i && b2@ == b,
                Err(e) => r == Err::<Option<CheckpointEvent>, ScreenError>(e),
            },
        },
{
    let p = match CheckpointTransaction::from_bytes(bytes.as_slice()) {
        Ok(p) => p,
        Err(_) => {
            return Err(ScreenError::Undecodable);
        },
    };
    if p.verify_signature(committee).is_err() {
        return Ok(None);
    }
    match p.action {
        CheckpointAction::Propose(i, b) => {
            if i as u128 + leader_election.rng_seed() as u128 > u64::MAX as u128 {
                return Err(ScreenError::IterationOverflow);
            }
            if p.author == leader_election.get_leader(i) {
                Ok(Some(CheckpointEvent::NewProposal(i, b)))
            } else {
                Ok(None)
            }
        },
        _ => Ok(None),
    }
}

} // verus!
