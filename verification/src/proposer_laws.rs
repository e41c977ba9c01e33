use vstd::prelude::*;
use crate::cpevents::CheckpointEvent;
use crate::cpproposer::{
    ProposerConfig, ProposerView, ProposerEvent, PhaseView, ActionView, proposal_for,
    proposals_without, leader_of, signed, act_on, enter_timeout, leader_step, begin_iteration,
    vote_step, step_spec, initial_view,
};

verus! {

/// What holds of the proposer's state between steps: it keeps no proposal of
/// a past iteration; the proposal it is validating is the one received for
/// the iteration; and it waits for the current proposal only as the leader of
/// the iteration that does not boycott.
pub open spec fn proposer_inv(c: ProposerConfig, s: ProposerView) -> bool {
    &&& forall|k: usize| #[trigger] s.proposals.contains_key(k) ==> k >= s.iteration
    &&& (s.phase matches PhaseView::AwaitingValidity(p) ==> proposal_for(s.proposals, s.iteration) == Some(p))
    &&& (s.phase is AwaitingCurrentProposal ==> c.leader_seed + s.iteration <= u64::MAX
        && leader_of(c, s.iteration) == c.name && !c.boycott_proposals)
}

/// The actions hold no vote and no proposal.
pub open spec fn quiet(a: Seq<ActionView>) -> bool {
    forall|k: int| 0 <= k < a.len() ==> !(a[k] is SubmitVote) && !(a[k] is BroadcastProposal)
}

/// Dropping the proposal of iteration `i` from proposals of iteration `i` or
/// later leaves proposals of later iterations only.
proof fn lemma_without_above(ps: Map<usize, Seq<u8>>, i: usize)
    requires
        forall|k: usize| #[trigger] ps.contains_key(k) ==> k >= i,
    ensures
        forall|k: usize| #[trigger] proposals_without(ps, i).contains_key(k) ==> k > i,
{
}

/// Entering the wait for a proposal keeps the invariant and proposes or
/// votes nothing.
proof fn lemma_enter_timeout(c: ProposerConfig, s: ProposerView)
    requires
        forall|k: usize| #[trigger] s.proposals.contains_key(k) ==> k >= s.iteration,
    ensures
        proposer_inv(c, enter_timeout(c, s).0),
        quiet(enter_timeout(c, s).1),
        enter_timeout(c, s).0.iteration == s.iteration,
{
    let s1 = ProposerView { phase: PhaseView::Timeout, ..s };
    let a1 = seq![ActionView::StartTimer(c.timeout)];
    match proposal_for(s.proposals, s.iteration) {
        Some(p) => {
            let (s2, a2) = act_on(s1, p);
            assert(quiet(a2));
            assert forall|k: int| 0 <= k < (a1 + a2).len() implies !((a1 + a2)[k] is SubmitVote)
                && !((a1 + a2)[k] is BroadcastProposal) by {
                if k >= 1 {
                    assert((a1 + a2)[k] == a2[k - 1]);
                }
            }
        },
        None => {},
    }
}

/// The step after the delay keeps the invariant and proposes or votes nothing.
proof fn lemma_leader_step(c: ProposerConfig, s: ProposerView)
    requires
        forall|k: usize| #[trigger] s.proposals.contains_key(k) ==> k >= s.iteration,
    ensures
        leader_step(c, s) matches Ok((s2, a)) ==> proposer_inv(c, s2) && quiet(a) && s2.iteration
            == s.iteration,
{
    lemma_enter_timeout(c, s);
}

/// Beginning iteration `i` after proposals of iteration `i - 1` or later
/// keeps the invariant and proposes or votes nothing.
proof fn lemma_begin_iteration(c: ProposerConfig, s: ProposerView, i: usize)
    requires
        i > 0,
        forall|k: usize| #[trigger] s.proposals.contains_key(k) ==> k >= i - 1,
    ensures
        begin_iteration(c, s, i) matches Ok((s2, a)) ==> proposer_inv(c, s2) && quiet(a) && s2.iteration
            == i,
{
    lemma_without_above(s.proposals, (i - 1) as usize);
    let ps = proposals_without(s.proposals, (i - 1) as usize);
    let s1 = ProposerView { iteration: i, proposals: ps, resumed: false, ..s };
    if s.last_checkpoint is None {
        lemma_leader_step(c, s1);
        if let Ok((s2, a2)) = leader_step(c, s1) {
            let a = seq![ActionView::PauseConsensus] + a2;
            assert forall|k: int| 0 <= k < a.len() implies !(a[k] is SubmitVote) && !(a[k] is BroadcastProposal) by {
                if k >= 1 {
                    assert(a[k] == a2[k - 1]);
                }
            }
        }
    }
}

/// The proposer's first iteration starts in a state that meets the invariant.
pub proof fn lemma_proposer_starts_well(c: ProposerConfig)
    ensures
        begin_iteration(c, initial_view(), 0) matches Ok((s, a)) ==> proposer_inv(c, s) && quiet(a),
{
    let s = initial_view();
    assert(s.proposals =~= Map::<usize, Seq<u8>>::empty());
    lemma_leader_step(c, ProposerView { iteration: 0, proposals: s.proposals, resumed: false, ..s });
    if let Ok((s2, a2)) = leader_step(c, ProposerView { iteration: 0, proposals: s.proposals, resumed: false, ..s }) {
        let a = seq![ActionView::PauseConsensus] + a2;
        assert forall|k: int| 0 <= k < a.len() implies !(a[k] is SubmitVote) && !(a[k] is BroadcastProposal) by {
            if k >= 1 {
                assert(a[k] == a2[k - 1]);
            }
        }
    }
}

/// Every step keeps the invariant. Of the actions of a step, each vote is
/// signed by the proposer for the iteration it was in; an acceptance is for
/// the proposal received for that iteration; and a proposal is broadcast only
/// by the leader of that iteration, for that iteration.
pub proof fn lemma_proposer_step(c: ProposerConfig, s: ProposerView, ev: ProposerEvent)
    requires
        proposer_inv(c, s),
    ensures
        step_spec(c, s, ev) matches Ok((s2, a)) ==> {
            &&& proposer_inv(c, s2)
            &&& forall|k: int| 0 <= k < a.len() && #[trigger] a[k] is SubmitVote ==> {
                let t = a[k]->SubmitVote_0;
                &&& t.author == c.name
                &&& t.action.1 == s.iteration
                &&& (t.action.0 == 1 ==> t.action.2 is Some && proposal_for(s.proposals, s.iteration) == t.action.2)
            }
            &&& forall|k: int| 0 <= k < a.len() && #[trigger] a[k] is BroadcastProposal ==> {
                let t = a[k]->BroadcastProposal_0;
                &&& t.author == c.name
                &&& t.action.0 == 0
                &&& t.action.1 == s.iteration
                &&& leader_of(c, s.iteration) == c.name
                &&& !c.boycott_proposals
            }
        },
{
    match step_spec(c, s, ev) {
        Err(_) => {},
        Ok((s2, a)) => {
            match ev {
                ProposerEvent::Checkpoint(CheckpointEvent::NewCheckpoint(j, b)) => {
                    let resume = if s.resumed { Seq::empty() } else { seq![ActionView::ResumeConsensus] };
                    let s1 = ProposerView { last_checkpoint: crate::codec::opt_bytes(b), ..s };
                    lemma_begin_iteration(c, s1, (s.iteration + 1) as usize);
                    let (s3, a3) = begin_iteration(c, s1, (s.iteration + 1) as usize)->Ok_0;
                    assert(a == resume + a3);
                    assert forall|k: int| 0 <= k < a.len() implies !(a[k] is SubmitVote) && !(a[k] is BroadcastProposal) by {
                        if k >= resume.len() {
                            assert(a[k] == a3[k - resume.len()]);
                        }
                    }
                },
                ProposerEvent::Checkpoint(CheckpointEvent::NewProposal(j, b)) => {
                    if j >= s.iteration && proposal_for(s.proposals, j) is None {
                        let s1 = ProposerView { proposals: s.proposals.insert(j, b@), ..s };
                        assert(proposal_for(s1.proposals, j) == Some(b@));
                        if !(s.phase is Timeout && j == s.iteration) {
                            assert(s.phase !is AwaitingValidity);
                        }
                    }
                },
                ProposerEvent::TimerElapsed => {
                    match s.phase {
                        PhaseView::InterCheckpointDelay => {
                            lemma_leader_step(c, s);
                        },
                        PhaseView::Timeout => {
                            let resume = if s.resumed { Seq::empty() } else { seq![ActionView::ResumeConsensus] };
                            let t = signed(c, (2u32, s.iteration, None))->Some_0;
                            assert(a == resume.push(ActionView::SubmitVote(t)).push(
                                ActionView::StartTimer(crate::cpproposer::REJECT_REPEAT_INTERVAL),
                            ));
                        },
                        PhaseView::RejectRepeat => {
                            let t = signed(c, (2u32, s.iteration, None))->Some_0;
                            assert(a == seq![ActionView::SubmitVote(t)].push(
                                ActionView::StartTimer(crate::cpproposer::REJECT_REPEAT_INTERVAL),
                            ));
                        },
                        _ => {},
                    }
                },
                ProposerEvent::CurrentProposal(d) => {
                    let t = signed(c, (0u32, s.iteration, Some(d@)))->Some_0;
                    lemma_enter_timeout(c, s);
                    let (s3, a3) = enter_timeout(c, s);
                    assert(a == seq![ActionView::BroadcastProposal(t)] + a3);
                    assert forall|k: int| 0 <= k < a.len() && k >= 1 implies !(a[k] is SubmitVote)
                        && !(a[k] is BroadcastProposal) by {
                        assert(a[k] == a3[k - 1]);
                    }
                },
                ProposerEvent::ProposalValidity(ok) => {
                    let p = s.phase->AwaitingValidity_0;
                    let act = if ok { (1u32, s.iteration, Some(p)) } else { (2u32, s.iteration, None) };
                    let t = signed(c, act)->Some_0;
                    assert(a == seq![ActionView::SubmitVote(t)]);
                },
            }
        },
    }
}

// ---------------------------------------------------------------------------
// Pausing and resuming the consensus.

/// Whether the consensus is paused after the actions `a`, when it was paused
/// before them exactly when `paused` holds; `None` when the actions pause a
/// paused consensus or resume a running one.
pub open spec fn pause_pairs(paused: bool, a: Seq<ActionView>) -> Option<bool>
    decreases a.len(),
{
    if a.len() == 0 {
        Some(paused)
    } else {
        match pause_pairs(paused, a.drop_last()) {
            None => None,
            Some(p) => pause_step(p, a.last()),
        }
    }
}

/// Whether the consensus is paused after action `x`, when it was paused
/// before exactly when `p` holds; `None` when `x` pauses a paused consensus
/// or resumes a running one.
pub open spec fn pause_step(p: bool, x: ActionView) -> Option<bool> {
    match x {
        ActionView::PauseConsensus => if p { None } else { Some(true) },
        ActionView::ResumeConsensus => if p { Some(false) } else { None },
        _ => Some(p),
    }
}

proof fn lemma_pairs_single(p: bool, x: ActionView)
    ensures
        pause_pairs(p, seq![x]) == pause_step(p, x),
{
    assert(seq![x].drop_last() =~= Seq::<ActionView>::empty());
    assert(pause_pairs(p, Seq::<ActionView>::empty()) == Some(p));
}

/// Between steps, the proposer validates a proposal or repeats its rejection
/// only with the consensus running.
pub open spec fn pause_inv(s: ProposerView) -> bool {
    (s.phase is AwaitingValidity || s.phase is RejectRepeat) ==> s.resumed
}

/// The actions neither pause nor resume the consensus.
pub open spec fn neutral(a: Seq<ActionView>) -> bool {
    forall|k: int| 0 <= k < a.len() ==> !(a[k] is PauseConsensus) && !(a[k] is ResumeConsensus)
}

proof fn lemma_pairs_neutral(p: bool, a: Seq<ActionView>)
    requires
        neutral(a),
    ensures
        pause_pairs(p, a) == Some(p),
    decreases a.len(),
{
    if a.len() > 0 {
        assert(neutral(a.drop_last())) by {
            assert forall|k: int| 0 <= k < a.drop_last().len() implies !(a.drop_last()[k] is PauseConsensus)
                && !(a.drop_last()[k] is ResumeConsensus) by {
                assert(a.drop_last()[k] == a[k]);
            }
        }
        lemma_pairs_neutral(p, a.drop_last());
        assert(a[a.len() - 1] == a.last());
    }
}

proof fn lemma_pairs_concat(p: bool, a: Seq<ActionView>, b: Seq<ActionView>)
    ensures
        pause_pairs(p, a + b) == match pause_pairs(p, a) {
            Some(q) => pause_pairs(q, b),
            None => None,
        },
    decreases b.len(),
{
    if b.len() == 0 {
        assert(a + b =~= a);
    } else {
        lemma_pairs_concat(p, a, b.drop_last());
        assert((a + b).drop_last() =~= a + b.drop_last());
        assert((a + b).last() == b.last());
    }
}

/// Acting on a proposal resumes the consensus if it is paused.
proof fn lemma_pairs_act_on(s: ProposerView, p: Seq<u8>)
    ensures
        pause_pairs(!s.resumed, act_on(s, p).1) == Some(false),
        act_on(s, p).0.resumed,
{
    let resume = if s.resumed { Seq::<ActionView>::empty() } else { seq![ActionView::ResumeConsensus] };
    let v = seq![ActionView::ValidateProposal(p)];
    assert(act_on(s, p).1 =~= resume + v);
    lemma_pairs_concat(!s.resumed, resume, v);
    lemma_pairs_single(false, ActionView::ValidateProposal(p));
    if !s.resumed {
        lemma_pairs_single(true, ActionView::ResumeConsensus);
    } else {
        assert(pause_pairs(false, resume) == Some(false));
    }
}

proof fn lemma_pairs_enter_timeout(c: ProposerConfig, s: ProposerView)
    ensures
        pause_pairs(!s.resumed, enter_timeout(c, s).1) == Some(!enter_timeout(c, s).0.resumed),
        pause_inv(enter_timeout(c, s).0),
{
    let s1 = ProposerView { phase: PhaseView::Timeout, ..s };
    let a1 = seq![ActionView::StartTimer(c.timeout)];
    lemma_pairs_single(!s.resumed, ActionView::StartTimer(c.timeout));
    match proposal_for(s.proposals, s.iteration) {
        Some(p) => {
            lemma_pairs_act_on(s1, p);
            lemma_pairs_concat(!s.resumed, a1, act_on(s1, p).1);
        },
        None => {},
    }
}

proof fn lemma_pairs_leader_step(c: ProposerConfig, s: ProposerView)
    ensures
        leader_step(c, s) matches Ok((s2, a)) ==> pause_pairs(!s.resumed, a) == Some(!s2.resumed) && pause_inv(s2),
{
    lemma_pairs_enter_timeout(c, s);
    lemma_pairs_single(!s.resumed, ActionView::RequestCurrentProposal);
}

/// Beginning an iteration with the consensus running pauses it.
proof fn lemma_pairs_begin_iteration(c: ProposerConfig, s: ProposerView, i: usize)
    ensures
        begin_iteration(c, s, i) matches Ok((s2, a)) ==> pause_pairs(false, a) == Some(!s2.resumed) && pause_inv(s2),
{
    let ps = if i > 0 { proposals_without(s.proposals, (i - 1) as usize) } else { s.proposals };
    let s1 = ProposerView { iteration: i, proposals: ps, resumed: false, ..s };
    let pause = seq![ActionView::PauseConsensus];
    lemma_pairs_single(false, ActionView::PauseConsensus);
    if s.last_checkpoint is Some {
        let t = seq![ActionView::StartTimer(c.inter_checkpoint_delay)];
        assert(seq![ActionView::PauseConsensus, ActionView::StartTimer(c.inter_checkpoint_delay)] =~= pause + t);
        lemma_pairs_concat(false, pause, t);
        lemma_pairs_single(true, ActionView::StartTimer(c.inter_checkpoint_delay));
    } else {
        lemma_pairs_leader_step(c, s1);
        if let Ok((s2, a2)) = leader_step(c, s1) {
            lemma_pairs_concat(false, pause, a2);
        }
    }
}

/// The proposer's first iteration starts by pausing the running consensus.
pub proof fn lemma_first_iteration_pauses(c: ProposerConfig)
    ensures
        begin_iteration(c, initial_view(), 0) matches Ok((s, a)) ==> pause_pairs(false, a) == Some(!s.resumed)
            && pause_inv(s),
{
    lemma_pairs_begin_iteration(c, initial_view(), 0);
}

/// The proposer never pauses a paused consensus nor resumes a running one:
/// each step starts from the consensus paused exactly when the proposer has
/// not resumed it in the iteration, and leaves it so. Every vote is cast
/// with the consensus running, so that the vote can be ordered.
pub proof fn lemma_pauses_alternate(c: ProposerConfig, s: ProposerView, ev: ProposerEvent)
    requires
        pause_inv(s),
    ensures
        step_spec(c, s, ev) matches Ok((s2, a)) ==> {
            &&& pause_inv(s2)
            &&& pause_pairs(!s.resumed, a) == Some(!s2.resumed)
            &&& forall|k: int| 0 <= k < a.len() && #[trigger] a[k] is SubmitVote
                ==> pause_pairs(!s.resumed, a.take(k)) == Some(false)
        },
{
    match step_spec(c, s, ev) {
        Err(_) => {},
        Ok((s2, a)) => {
            match ev {
                ProposerEvent::Checkpoint(CheckpointEvent::NewCheckpoint(j, b)) => {
                    let resume = if s.resumed { Seq::<ActionView>::empty() } else { seq![ActionView::ResumeConsensus] };
                    let s1 = ProposerView { last_checkpoint: crate::codec::opt_bytes(b), ..s };
                    lemma_pairs_begin_iteration(c, s1, (s.iteration + 1) as usize);
                    let (s3, a3) = begin_iteration(c, s1, (s.iteration + 1) as usize)->Ok_0;
                    lemma_pairs_concat(!s.resumed, resume, a3);
                    if !s.resumed {
                        lemma_pairs_single(true, ActionView::ResumeConsensus);
                    }
                    lemma_begin_iteration_quiet(c, s1, (s.iteration + 1) as usize);
                    assert forall|k: int| 0 <= k < a.len() && #[trigger] a[k] is SubmitVote implies false by {
                        if k >= resume.len() {
                            assert(a[k] == a3[k - resume.len()]);
                        }
                    }
                },
                ProposerEvent::Checkpoint(CheckpointEvent::NewProposal(j, b)) => {
                    if j >= s.iteration && proposal_for(s.proposals, j) is None {
                        let s1 = ProposerView { proposals: s.proposals.insert(j, b@), ..s };
                        if s.phase is Timeout && j == s.iteration {
                            lemma_pairs_act_on(s1, b@);
                            let resume = if s.resumed { Seq::<ActionView>::empty() } else { seq![ActionView::ResumeConsensus] };
                            assert(a == resume.push(ActionView::ValidateProposal(b@)));
                            assert forall|k: int| 0 <= k < a.len() && #[trigger] a[k] is SubmitVote implies false by {}
                        }
                    }
                },
                ProposerEvent::TimerElapsed => {
                    match s.phase {
                        PhaseView::InterCheckpointDelay => {
                            lemma_pairs_leader_step(c, s);
                            lemma_leader_step_quiet(c, s);
                        },
                        PhaseView::Timeout => {
                            let resume = if s.resumed { Seq::<ActionView>::empty() } else { seq![ActionView::ResumeConsensus] };
                            let t = signed(c, (2u32, s.iteration, None))->Some_0;
                            let tail = seq![ActionView::SubmitVote(t), ActionView::StartTimer(crate::cpproposer::REJECT_REPEAT_INTERVAL)];
                            assert(a =~= resume + tail);
                            lemma_pairs_neutral(false, tail);
                            lemma_pairs_concat(!s.resumed, resume, tail);
                            if !s.resumed {
                                lemma_pairs_single(true, ActionView::ResumeConsensus);
                            }
                            assert forall|k: int| 0 <= k < a.len() && #[trigger] a[k] is SubmitVote
                                implies pause_pairs(!s.resumed, a.take(k)) == Some(false) by {
                                assert(k == resume.len());
                                assert(a.take(k) =~= resume);
                            }
                        },
                        PhaseView::RejectRepeat => {
                            let t = signed(c, (2u32, s.iteration, None))->Some_0;
                            assert(a =~= seq![ActionView::SubmitVote(t), ActionView::StartTimer(crate::cpproposer::REJECT_REPEAT_INTERVAL)]);
                            lemma_pairs_neutral(false, a);
                            assert forall|k: int| 0 <= k < a.len() && #[trigger] a[k] is SubmitVote
                                implies pause_pairs(!s.resumed, a.take(k)) == Some(false) by {
                                assert(k == 0);
                                assert(a.take(k) =~= Seq::<ActionView>::empty());
                            }
                        },
                        _ => {},
                    }
                },
                ProposerEvent::CurrentProposal(d) => {
                    let t = signed(c, (0u32, s.iteration, Some(d@)))->Some_0;
                    lemma_pairs_enter_timeout(c, s);
                    let (s3, a3) = enter_timeout(c, s);
                    let head = seq![ActionView::BroadcastProposal(t)];
                    lemma_pairs_neutral(!s.resumed, head);
                    lemma_pairs_concat(!s.resumed, head, a3);
                    lemma_enter_timeout_quiet(c, s);
                    assert forall|k: int| 0 <= k < a.len() && #[trigger] a[k] is SubmitVote implies false by {
                        if k >= 1 {
                            assert(a[k] == a3[k - 1]);
                        }
                    }
                },
                ProposerEvent::ProposalValidity(ok) => {
                    let p = s.phase->AwaitingValidity_0;
                    let act = if ok { (1u32, s.iteration, Some(p)) } else { (2u32, s.iteration, None) };
                    let t = signed(c, act)->Some_0;
                    assert(a == seq![ActionView::SubmitVote(t)]);
                    lemma_pairs_neutral(false, a);
                    assert forall|k: int| 0 <= k < a.len() && #[trigger] a[k] is SubmitVote
                        implies pause_pairs(!s.resumed, a.take(k)) == Some(false) by {
                        assert(a.take(k) =~= Seq::<ActionView>::empty());
                    }
                },
            }
        },
    }
}

proof fn lemma_enter_timeout_quiet(c: ProposerConfig, s: ProposerView)
    ensures
        quiet(enter_timeout(c, s).1),
{
    let s1 = ProposerView { phase: PhaseView::Timeout, ..s };
    let a1 = seq![ActionView::StartTimer(c.timeout)];
    match proposal_for(s.proposals, s.iteration) {
        Some(p) => {
            let a2 = act_on(s1, p).1;
            assert forall|k: int| 0 <= k < (a1 + a2).len() implies !((a1 + a2)[k] is SubmitVote)
                && !((a1 + a2)[k] is BroadcastProposal) by {
                if k >= 1 {
                    assert((a1 + a2)[k] == a2[k - 1]);
                }
            }
        },
        None => {},
    }
}

proof fn lemma_leader_step_quiet(c: ProposerConfig, s: ProposerView)
    ensures
        leader_step(c, s) matches Ok((s2, a)) ==> quiet(a),
{
    lemma_enter_timeout_quiet(c, s);
}

proof fn lemma_begin_iteration_quiet(c: ProposerConfig, s: ProposerView, i: usize)
    ensures
        begin_iteration(c, s, i) matches Ok((s2, a)) ==> quiet(a),
{
    let ps = if i > 0 { proposals_without(s.proposals, (i - 1) as usize) } else { s.proposals };
    let s1 = ProposerView { iteration: i, proposals: ps, resumed: false, ..s };
    if s.last_checkpoint is None {
        lemma_leader_step_quiet(c, s1);
        if let Ok((s2, a2)) = leader_step(c, s1) {
            let a = seq![ActionView::PauseConsensus] + a2;
            assert forall|k: int| 0 <= k < a.len() implies !(a[k] is SubmitVote) && !(a[k] is BroadcastProposal) by {
                if k >= 1 {
                    assert(a[k] == a2[k - 1]);
                }
            }
        }
    }
}

/// The number of checkpoint decisions among `evs`.
pub open spec fn decisions_in(evs: Seq<ProposerEvent>) -> nat
    decreases evs.len(),
{
    if evs.len() == 0 {
        0
    } else {
        decisions_in(evs.drop_last()) + if evs.last() matches ProposerEvent::Checkpoint(CheckpointEvent::NewCheckpoint(_, _)) { 1nat } else { 0nat }
    }
}

/// Entering the wait for a proposal stays in the iteration and never waits out
/// the delay.
proof fn lemma_enter_timeout_iteration(c: ProposerConfig, s: ProposerView)
    ensures
        enter_timeout(c, s).0.iteration == s.iteration,
        !(enter_timeout(c, s).0.phase is InterCheckpointDelay),
{
}

/// One step of the proposer on the iterations: the decision of an iteration
/// is accepted only for the iteration in force and moves to the next one,
/// which pauses the consensus first (after resuming it, if it was paused) and
/// waits out the delay exactly when the decision was a checkpoint; any other
/// event leaves the iteration as it is.
pub proof fn lemma_step_iteration(c: ProposerConfig, s: ProposerView, ev: ProposerEvent)
    requires
        step_spec(c, s, ev) is Ok,
    ensures
        ({
            let (s2, a) = step_spec(c, s, ev)->Ok_0;
            match ev {
                ProposerEvent::Checkpoint(CheckpointEvent::NewCheckpoint(j, b)) => {
                    let resume = if s.resumed { Seq::<ActionView>::empty() } else { seq![ActionView::ResumeConsensus] };
                    &&& j == s.iteration
                    &&& s2.iteration == s.iteration + 1
                    &&& a.len() > resume.len()
                    &&& a.subrange(0, resume.len() as int) == resume
                    &&& a[resume.len() as int] == ActionView::PauseConsensus
                    &&& (s2.phase is InterCheckpointDelay <==> b is Some)
                    &&& (b is Some ==> a.last() == ActionView::StartTimer(c.inter_checkpoint_delay))
                },
                _ => s2.iteration == s.iteration,
            }
        }),
{
    match ev {
        ProposerEvent::Checkpoint(CheckpointEvent::NewCheckpoint(j, b)) => {
            let resume = if s.resumed { Seq::<ActionView>::empty() } else { seq![ActionView::ResumeConsensus] };
            let s1 = ProposerView { last_checkpoint: crate::codec::opt_bytes(b), ..s };
            let i = (s.iteration + 1) as usize;
            let ps = if i > 0 { proposals_without(s1.proposals, (i - 1) as usize) } else { s1.proposals };
            let s1b = ProposerView { iteration: i, proposals: ps, resumed: false, ..s1 };
            lemma_enter_timeout_iteration(c, s1b);
            let (s2, a2) = begin_iteration(c, s1, i)->Ok_0;
            assert((resume + a2).subrange(0, resume.len() as int) =~= resume);
            assert((resume + a2)[resume.len() as int] == a2[0]);
            if b is Some {
                assert((resume + a2).last() == a2.last());
            }
        },
        ProposerEvent::Checkpoint(CheckpointEvent::NewProposal(j, b)) => {},
        ProposerEvent::TimerElapsed => {
            lemma_enter_timeout_iteration(c, s);
        },
        ProposerEvent::CurrentProposal(d) => {
            lemma_enter_timeout_iteration(c, s);
        },
        ProposerEvent::ProposalValidity(ok) => {},
    }
}

/// Over any run of successful steps, the iteration goes up by exactly the
/// number of decisions, and each decision is of the iteration in force when
/// it arrives.
pub proof fn lemma_iterations_follow_decisions(c: ProposerConfig, states: Seq<ProposerView>, evs: Seq<ProposerEvent>)
    requires
        states.len() == evs.len() + 1,
        forall|k: int| 0 <= k < evs.len() ==> (step_spec(c, states[k], #[trigger] evs[k]) matches Ok((s2, _)) && s2 == states[k + 1]),
    ensures
        states.last().iteration == states[0].iteration + decisions_in(evs),
        forall|k: int| 0 <= k < evs.len() ==> ((#[trigger] evs[k]) matches ProposerEvent::Checkpoint(CheckpointEvent::NewCheckpoint(j, _))
            ==> j == states[k].iteration),
    decreases evs.len(),
{
    if evs.len() > 0 {
        let n = evs.len() - 1;
        let pre_s = states.drop_last();
        let pre_e = evs.drop_last();
        assert forall|k: int| 0 <= k < pre_e.len() implies (step_spec(c, pre_s[k], #[trigger] pre_e[k]) matches Ok((s2, _)) && s2 == pre_s[k + 1]) by {
            assert(step_spec(c, states[k], evs[k]) matches Ok((s2, _)) && s2 == states[k + 1]);
        }
        lemma_iterations_follow_decisions(c, pre_s, pre_e);
        assert forall|k: int| 0 <= k < evs.len() implies ((#[trigger] evs[k]) matches ProposerEvent::Checkpoint(CheckpointEvent::NewCheckpoint(j, _))
            ==> j == states[k].iteration) by {
            assert(step_spec(c, states[k], evs[k]) matches Ok((s2, _)) && s2 == states[k + 1]);
            lemma_step_iteration(c, states[k], evs[k]);
            if k < n {
                assert(pre_e[k] == evs[k]);
                assert(pre_s[k] == states[k]);
            }
        }
        assert(step_spec(c, states[n], evs[n]) matches Ok((s2, _)) && s2 == states[n + 1]);
        lemma_step_iteration(c, states[n], evs[n]);
        assert(pre_s.last() == states[n]);
        assert(pre_s[0] == states[0]);
    }
}

/// A proposal received for an iteration before its wait for proposals
/// starts is acted on when the wait starts. After the inter-checkpoint delay,
/// a member that does not itself ask for the current proposal starts the
/// timeout, resumes the consensus if it is paused, asks to validate the stored
/// proposal and waits for the answer; with no stored proposal it only starts
/// the timeout.
pub proof fn lemma_stored_proposal_acted_on_after_delay(c: ProposerConfig, s: ProposerView)
    requires
        s.phase is InterCheckpointDelay,
        c.leader_seed + s.iteration <= u64::MAX,
        !(leader_of(c, s.iteration) == c.name && !c.boycott_proposals),
    ensures
        step_spec(c, s, ProposerEvent::TimerElapsed) is Ok,
        ({
            let (s2, a) = step_spec(c, s, ProposerEvent::TimerElapsed)->Ok_0;
            &&& s2.iteration == s.iteration
            &&& a.len() > 0 && a[0] == ActionView::StartTimer(c.timeout)
            &&& s.proposals.contains_key(s.iteration) ==> {
                &&& s2.phase == PhaseView::AwaitingValidity(s.proposals[s.iteration])
                &&& s2.resumed
                &&& a.last() == ActionView::ValidateProposal(s.proposals[s.iteration])
                &&& (!s.resumed ==> a == seq![ActionView::StartTimer(c.timeout), ActionView::ResumeConsensus,
                    ActionView::ValidateProposal(s.proposals[s.iteration])])
                &&& (s.resumed ==> a == seq![ActionView::StartTimer(c.timeout),
                    ActionView::ValidateProposal(s.proposals[s.iteration])])
            }
            &&& !s.proposals.contains_key(s.iteration) ==> s2.phase is Timeout && a == seq![ActionView::StartTimer(c.timeout)]
        }),
{
    let s1 = ProposerView { phase: PhaseView::Timeout, ..s };
    if s.proposals.contains_key(s.iteration) {
        let p = s.proposals[s.iteration];
        let (s2, a2) = act_on(s1, p);
        if s.resumed {
            assert(seq![ActionView::StartTimer(c.timeout)] + a2 =~= seq![ActionView::StartTimer(c.timeout),
                ActionView::ValidateProposal(p)]);
        } else {
            assert(seq![ActionView::StartTimer(c.timeout)] + a2 =~= seq![ActionView::StartTimer(c.timeout),
                ActionView::ResumeConsensus, ActionView::ValidateProposal(p)]);
        }
    }
}

/// The leader that has broadcast its proposal acts on the proposal stored
/// for the iteration in the same way: it validates it and waits for the
/// answer.
pub proof fn lemma_stored_proposal_acted_on_after_proposing(c: ProposerConfig, s: ProposerView, d: crate::types::Digest)
    requires
        s.phase is AwaitingCurrentProposal,
        signed(c, (0u32, s.iteration, Some(d@))) is Some,
        s.proposals.contains_key(s.iteration),
    ensures
        step_spec(c, s, ProposerEvent::CurrentProposal(d)) is Ok,
        ({
            let (s2, a) = step_spec(c, s, ProposerEvent::CurrentProposal(d))->Ok_0;
            &&& s2.phase == PhaseView::AwaitingValidity(s.proposals[s.iteration])
            &&& s2.resumed
            &&& a.len() >= 3
            &&& a[0] is BroadcastProposal
            &&& a[1] == ActionView::StartTimer(c.timeout)
            &&& a.last() == ActionView::ValidateProposal(s.proposals[s.iteration])
        }),
{
    let s1 = ProposerView { phase: PhaseView::Timeout, ..s };
    let p = s.proposals[s.iteration];
    let t = signed(c, (0u32, s.iteration, Some(d@)))->Some_0;
    let (s2, a2) = enter_timeout(c, s);
    assert(a2 == seq![ActionView::StartTimer(c.timeout)] + act_on(s1, p).1);
    let a = seq![ActionView::BroadcastProposal(t)] + a2;
    assert(a[1] == a2[0]);
    assert(a.last() == a2.last());
}

} // verus!
