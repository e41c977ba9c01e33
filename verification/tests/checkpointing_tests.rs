use mynode::config::{CheckpointCommittee, CheckpointParameters};
use mynode::cpactions::{CheckpointAction, CheckpointTransaction};
use mynode::cpevents::CheckpointEvent;
use mynode::cpextractor::MyCheckpointExtractor;
use mynode::cpleader::RandomLeaderElector;
use mynode::cpproposer::{
    screen_proposal, MyCheckpointProposer, ProposerAction, ProposerError, ProposerEvent, ScreenError,
    REJECT_REPEAT_INTERVAL,
};
use mynode::crypto::{Secret, SignatureService};
use mynode::types::{Digest, PublicKey};
use rand::{Rng, SeedableRng};

struct Member {
    name: PublicKey,
    service: SignatureService,
}

fn members(n: usize) -> Vec<Member> {
    (0..n)
        .map(|_| {
            let s = Secret::new();
            Member { name: s.name, service: SignatureService::new(s.secret) }
        })
        .collect()
}

fn committee_of(ms: &[Member]) -> CheckpointCommittee {
    CheckpointCommittee::new(ms.iter().map(|m| (m.name, 1)).collect(), 0)
}

fn tx_bytes(m: &Member, action: CheckpointAction) -> Vec<u8> {
    CheckpointTransaction::new(m.name, action, &m.service).unwrap().to_bytes()
}

#[test]
fn three_of_four_acceptances_decide_a_checkpoint() {
    let ms = members(4);
    let mut x = MyCheckpointExtractor::new(committee_of(&ms));
    let b = Digest([8; 32]);
    assert!(x.on_ledger_transaction(&tx_bytes(&ms[0], CheckpointAction::Accept(0, b))).is_none());
    assert!(x.on_ledger_transaction(&tx_bytes(&ms[1], CheckpointAction::Accept(0, b))).is_none());
    let r = x.on_ledger_transaction(&tx_bytes(&ms[2], CheckpointAction::Accept(0, b)));
    assert!(matches!(r, Some(CheckpointEvent::NewCheckpoint(0, Some(d))) if d == b));
    assert_eq!(x.iteration(), 1);
}

#[test]
fn two_of_four_rejections_decide_no_checkpoint() {
    let ms = members(4);
    let mut x = MyCheckpointExtractor::new(committee_of(&ms));
    assert!(x.on_ledger_transaction(&tx_bytes(&ms[3], CheckpointAction::Reject(0))).is_none());
    let r = x.on_ledger_transaction(&tx_bytes(&ms[1], CheckpointAction::Reject(0)));
    assert!(matches!(r, Some(CheckpointEvent::NewCheckpoint(0, None))));
    assert_eq!(x.iteration(), 1);
}

#[test]
fn a_member_votes_once() {
    let ms = members(4);
    let mut x = MyCheckpointExtractor::new(committee_of(&ms));
    let b = Digest([8; 32]);
    // The same member accepting three times counts once.
    for _ in 0..3 {
        assert!(x.on_ledger_transaction(&tx_bytes(&ms[0], CheckpointAction::Accept(0, b))).is_none());
    }
    // A later vote replaces the earlier one.
    assert!(x.on_ledger_transaction(&tx_bytes(&ms[0], CheckpointAction::Reject(0))).is_none());
    let r = x.on_ledger_transaction(&tx_bytes(&ms[1], CheckpointAction::Reject(0)));
    assert!(matches!(r, Some(CheckpointEvent::NewCheckpoint(0, None))));
}

#[test]
fn irrelevant_transactions_change_nothing() {
    let ms = members(4);
    let outsider = members(1);
    let mut x = MyCheckpointExtractor::new(committee_of(&ms));
    let b = Digest([8; 32]);
    assert!(x.on_ledger_transaction(&[1, 2, 3]).is_none());
    assert!(x.on_ledger_transaction(&tx_bytes(&outsider[0], CheckpointAction::Reject(0))).is_none());
    assert!(x.on_ledger_transaction(&tx_bytes(&ms[0], CheckpointAction::Reject(1))).is_none());
    assert!(x.on_ledger_transaction(&tx_bytes(&ms[0], CheckpointAction::Propose(0, b))).is_none());
    let mut forged = CheckpointTransaction::new(ms[1].name, CheckpointAction::Reject(0), &ms[1].service).unwrap();
    forged.author = ms[2].name;
    assert!(x.on_ledger_transaction(&forged.to_bytes()).is_none());
    // None of them counted: one rejection alone does not decide.
    assert!(x.on_ledger_transaction(&tx_bytes(&ms[3], CheckpointAction::Reject(0))).is_none());
    assert_eq!(x.iteration(), 0);
}

#[test]
fn leader_election_is_deterministic_and_picks_members() {
    let ms = members(5);
    let c = committee_of(&ms);
    let e1 = RandomLeaderElector::new(committee_of(&ms));
    let e2 = RandomLeaderElector::new(c);
    assert_eq!(e1.size(), 5);
    assert_eq!(e1.rng_seed(), e2.rng_seed());
    for i in 0..50 {
        let l = e1.get_leader(i);
        assert_eq!(l, e2.get_leader(i));
        assert!(ms.iter().any(|m| m.name == l));
    }
}

#[test]
fn leader_is_drawn_with_the_seeded_generator() {
    let ms = members(4);
    let c = committee_of(&ms);
    let keys = c.sorted_names();
    let e = RandomLeaderElector::new(c);
    for i in 0..20usize {
        let mut rng = rand::rngs::StdRng::seed_from_u64(e.rng_seed() + i as u64);
        let expected = keys[rng.gen::<usize>() % keys.len()];
        assert_eq!(e.get_leader(i), expected);
    }
}

#[test]
fn seed_comes_from_the_smallest_key() {
    let mut k = [0u8; 32];
    k[7] = 1;
    let small = PublicKey(k);
    let c = CheckpointCommittee::new(vec![(PublicKey([0xff; 32]), 1), (small, 1)], 0);
    let e = RandomLeaderElector::new(c);
    assert_eq!(e.rng_seed(), 1 ^ 0xdeadbeefdeadbeef);
}

#[test]
fn lone_leader_proposes_votes_and_moves_on() {
    let s = Secret::default();
    let name = s.name;
    let c = CheckpointCommittee::new(vec![(name, 1)], 0);
    let params = CheckpointParameters::default();
    let (mut p, acts) = MyCheckpointProposer::new(name, c, params, SignatureService::new(s.secret), false);
    assert!(matches!(acts.as_slice(), [ProposerAction::PauseConsensus, ProposerAction::RequestCurrentProposal]));

    let d = Digest([4; 32]);
    let acts = p.step(ProposerEvent::CurrentProposal(d)).unwrap();
    assert_eq!(acts.len(), 2);
    match acts[0] {
        ProposerAction::BroadcastProposal(t) => {
            assert_eq!(t.author, name);
            assert!(matches!(t.action, CheckpointAction::Propose(0, x) if x == d));
        },
        _ => panic!("expected a proposal"),
    }
    assert!(matches!(acts[1], ProposerAction::StartTimer(60_000)));

    let acts = p.step(ProposerEvent::Checkpoint(CheckpointEvent::NewProposal(0, d))).unwrap();
    assert!(matches!(acts.as_slice(), [ProposerAction::ResumeConsensus, ProposerAction::ValidateProposal(x)] if *x == d));

    let acts = p.step(ProposerEvent::ProposalValidity(true)).unwrap();
    assert_eq!(acts.len(), 1);
    match acts[0] {
        ProposerAction::SubmitVote(t) => assert!(matches!(t.action, CheckpointAction::Accept(0, x) if x == d)),
        _ => panic!("expected a vote"),
    }

    let acts = p.step(ProposerEvent::Checkpoint(CheckpointEvent::NewCheckpoint(0, Some(d)))).unwrap();
    assert!(matches!(acts.as_slice(), [ProposerAction::PauseConsensus, ProposerAction::StartTimer(300_000)]));

    let acts = p.step(ProposerEvent::TimerElapsed).unwrap();
    assert!(matches!(acts.as_slice(), [ProposerAction::RequestCurrentProposal]));
}

#[test]
fn invalid_proposal_is_rejected() {
    let s = Secret::default();
    let name = s.name;
    let c = CheckpointCommittee::new(vec![(name, 1)], 0);
    let (mut p, _) = MyCheckpointProposer::new(name, c, CheckpointParameters::default(), SignatureService::new(s.secret), true);
    let d = Digest([4; 32]);
    let acts = p.step(ProposerEvent::Checkpoint(CheckpointEvent::NewProposal(0, d))).unwrap();
    assert!(matches!(acts.as_slice(), [ProposerAction::ResumeConsensus, ProposerAction::ValidateProposal(_)]));
    let acts = p.step(ProposerEvent::ProposalValidity(false)).unwrap();
    match acts.as_slice() {
        [ProposerAction::SubmitVote(t)] => assert!(matches!(t.action, CheckpointAction::Reject(0))),
        _ => panic!("expected a rejection"),
    }
}

#[test]
fn boycotting_member_times_out_and_keeps_rejecting() {
    let s = Secret::default();
    let name = s.name;
    let c = CheckpointCommittee::new(vec![(name, 1)], 0);
    let (mut p, acts) = MyCheckpointProposer::new(name, c, CheckpointParameters::default(), SignatureService::new(s.secret), true);
    assert!(matches!(acts.as_slice(), [ProposerAction::PauseConsensus, ProposerAction::StartTimer(60_000)]));

    let acts = p.step(ProposerEvent::TimerElapsed).unwrap();
    assert_eq!(acts.len(), 3);
    assert!(matches!(acts[0], ProposerAction::ResumeConsensus));
    match acts[1] {
        ProposerAction::SubmitVote(t) => assert!(matches!(t.action, CheckpointAction::Reject(0))),
        _ => panic!("expected a rejection"),
    }
    assert!(matches!(acts[2], ProposerAction::StartTimer(x) if x == REJECT_REPEAT_INTERVAL));

    let acts = p.step(ProposerEvent::TimerElapsed).unwrap();
    assert_eq!(acts.len(), 2);
    assert!(matches!(acts[0], ProposerAction::SubmitVote(_)));
    assert!(matches!(acts[1], ProposerAction::StartTimer(30_000)));

    // A proposal that comes late is remembered but not acted on.
    let acts = p.step(ProposerEvent::Checkpoint(CheckpointEvent::NewProposal(0, Digest([1; 32])))).unwrap();
    assert!(acts.is_empty());
}

#[test]
fn proposer_refuses_unexpected_events() {
    let s = Secret::default();
    let name = s.name;
    let c = CheckpointCommittee::new(vec![(name, 1)], 0);
    let (mut p, _) = MyCheckpointProposer::new(name, c, CheckpointParameters::default(), SignatureService::new(s.secret), false);
    // Waiting for the current proposal: a timer or a validity is unexpected.
    assert!(matches!(p.step(ProposerEvent::TimerElapsed), Err(ProposerError::UnexpectedEvent)));
    assert!(matches!(p.step(ProposerEvent::ProposalValidity(true)), Err(ProposerError::UnexpectedEvent)));
    p.step(ProposerEvent::CurrentProposal(Digest([2; 32]))).unwrap();
    assert!(matches!(
        p.step(ProposerEvent::Checkpoint(CheckpointEvent::NewCheckpoint(3, None))),
        Err(ProposerError::IterationMismatch(3, 0))
    ));
}

#[test]
fn checkpoint_without_block_skips_the_delay() {
    let s = Secret::default();
    let name = s.name;
    let c = CheckpointCommittee::new(vec![(name, 1)], 0);
    let (mut p, _) = MyCheckpointProposer::new(name, c, CheckpointParameters::default(), SignatureService::new(s.secret), true);
    let acts = p.step(ProposerEvent::Checkpoint(CheckpointEvent::NewCheckpoint(0, None))).unwrap();
    // Resume the paused consensus, pause it again for iteration 1, and wait.
    assert!(matches!(
        acts.as_slice(),
        [ProposerAction::ResumeConsensus, ProposerAction::PauseConsensus, ProposerAction::StartTimer(60_000)]
    ));
}

#[test]
fn screening_keeps_only_the_leaders_proposals() {
    let s = Secret::default();
    let name = s.name;
    let service = SignatureService::new(s.secret);
    let c = CheckpointCommittee::new(vec![(name, 1)], 0);
    let e = RandomLeaderElector::new(CheckpointCommittee::new(vec![(name, 1)], 0));
    let d = Digest([6; 32]);

    let propose = CheckpointTransaction::new(name, CheckpointAction::Propose(2, d), &service).unwrap();
    let r = screen_proposal(&propose.to_bytes(), &c, &e);
    assert!(matches!(r, Ok(Some(CheckpointEvent::NewProposal(2, x))) if x == d));

    let accept = CheckpointTransaction::new(name, CheckpointAction::Accept(2, d), &service).unwrap();
    assert!(matches!(screen_proposal(&accept.to_bytes(), &c, &e), Ok(None)));

    let outsider = members(1);
    let foreign = CheckpointTransaction::new(outsider[0].name, CheckpointAction::Propose(2, d), &outsider[0].service).unwrap();
    assert!(matches!(screen_proposal(&foreign.to_bytes(), &c, &e), Ok(None)));

    let mut forged = propose;
    forged.action = CheckpointAction::Propose(3, d);
    assert!(matches!(screen_proposal(&forged.to_bytes(), &c, &e), Ok(None)));

    assert!(matches!(screen_proposal(&vec![9, 9], &c, &e), Err(ScreenError::Undecodable)));

    let huge = CheckpointTransaction::new(name, CheckpointAction::Propose(usize::MAX, d), &service).unwrap();
    assert!(matches!(screen_proposal(&huge.to_bytes(), &c, &e), Err(ScreenError::IterationOverflow)));
}

#[test]
fn screening_drops_proposals_of_non_leaders() {
    let ms = members(3);
    let c = committee_of(&ms);
    let e = RandomLeaderElector::new(committee_of(&ms));
    let d = Digest([6; 32]);
    let leader = e.get_leader(0);
    for m in ms.iter() {
        let t = CheckpointTransaction::new(m.name, CheckpointAction::Propose(0, d), &m.service).unwrap();
        let r = screen_proposal(&t.to_bytes(), &c, &e).unwrap();
        assert_eq!(r.is_some(), m.name == leader);
    }
}

#[test]
fn consensus_leader_is_seeded_by_the_second_smallest_key() {
    let mut k = [0u8; 32];
    k[7] = 3;
    let second = PublicKey(k);
    let c = CheckpointCommittee::new(vec![(PublicKey([0xff; 32]), 1), (second, 1), (PublicKey([0; 32]), 1)], 0);
    let keys = c.sorted_names();
    assert_eq!(keys[1], second);
    let e = mynode::consensus_leader::RandomLeaderElector::new(c);
    let seed: u64 = 3 ^ 0xbeefdeadbeefdead;
    for round in 0..20u64 {
        let mut rng = rand::rngs::StdRng::seed_from_u64(seed + round);
        assert_eq!(e.get_leader(round), keys[rng.gen::<usize>() % 3]);
    }
}

#[test]
fn committees_with_the_same_members_elect_the_same_leaders() {
    let ms = members(4);
    let forward = CheckpointCommittee::new(ms.iter().map(|m| (m.name, 1)).collect(), 0);
    let backward = CheckpointCommittee::new(ms.iter().rev().map(|m| (m.name, 3)).collect(), 1);
    let e1 = RandomLeaderElector::new(forward);
    let e2 = RandomLeaderElector::new(backward);
    assert_eq!(e1.rng_seed(), e2.rng_seed());
    for i in 0..40 {
        assert_eq!(e1.get_leader(i), e2.get_leader(i));
    }
}

#[test]
fn extractor_decides_iterations_in_order() {
    let ms = members(4);
    let mut x = MyCheckpointExtractor::new(committee_of(&ms));
    let b = Digest([8; 32]);
    let mut events = vec![];
    let txs = vec![
        tx_bytes(&ms[0], CheckpointAction::Reject(0)),
        tx_bytes(&ms[1], CheckpointAction::Reject(0)),
        tx_bytes(&ms[2], CheckpointAction::Reject(0)),
        tx_bytes(&ms[0], CheckpointAction::Accept(1, b)),
        tx_bytes(&ms[1], CheckpointAction::Accept(1, b)),
        tx_bytes(&ms[2], CheckpointAction::Accept(1, b)),
        tx_bytes(&ms[3], CheckpointAction::Accept(1, b)),
        tx_bytes(&ms[3], CheckpointAction::Reject(2)),
        tx_bytes(&ms[2], CheckpointAction::Reject(2)),
    ];
    for tx in txs.iter() {
        if let Some(e) = x.on_ledger_transaction(tx) {
            events.push(e);
        }
    }
    assert_eq!(events.len(), 3);
    assert!(matches!(events[0], CheckpointEvent::NewCheckpoint(0, None)));
    assert!(matches!(events[1], CheckpointEvent::NewCheckpoint(1, Some(d)) if d == b));
    assert!(matches!(events[2], CheckpointEvent::NewCheckpoint(2, None)));
    assert_eq!(x.iteration(), 3);
}
