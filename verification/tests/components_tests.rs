use mynode::adversary::{AdversaryAction, AdversaryError, AdversaryEvent, AdversaryState};
use mynode::advmsg::AdversarialGossipMsg;
use mynode::config::CheckpointParameters;
use mynode::cpevents::CheckpointEvent;
use mynode::display::decimal_text;
use mynode::lcblocks::{LcBlock, LcBlockPayload};
use mynode::lcblocktreemanager::{ManagerError, MyLcBlockTreeManager};
use mynode::ledger::CommitAnalyzer;
use mynode::miner::{digest_to_vec, first_tick_delay, slot_of, MyMiner};
use mynode::types::{Digest, PublicKey};

fn child(parent: &Digest, text: &str, slot: u64) -> LcBlock {
    LcBlock::new(Some(*parent), LcBlockPayload::new(text.to_string()), slot)
}

/// Feeds a chain of `n` blocks above genesis to the manager; returns their digests.
fn feed_chain(m: &mut MyLcBlockTreeManager, n: u64) -> Vec<Digest> {
    let mut ds = vec![LcBlock::genesis().digest()];
    for i in 1..=n {
        let b = child(ds.last().unwrap(), &format!("b{}", i), i);
        let (tip, slot) = m.on_inbound_block(&b.to_bytes()).unwrap();
        assert_eq!(tip, b.digest());
        assert_eq!(slot, i);
        ds.push(b.digest());
    }
    ds
}

#[test]
fn fresh_manager_points_at_genesis() {
    let m = MyLcBlockTreeManager::new(CheckpointParameters::default());
    let g = LcBlock::genesis().digest();
    assert_eq!(m.get_current_tip(), g);
    assert_eq!(m.get_current_proposal(), g);
    assert_eq!(m.get_log_acc(), g);
    assert_eq!(m.get_log_ava(), g);
    assert!(m.validate_proposal(&g));
    assert!(!m.validate_proposal(&Digest([1; 32])));
    assert_eq!(m.get_height_of_block(&g), Some(0));
    assert_eq!(m.get_parent_of_block(&g), Some(None));
    assert!(m.get_block(&Digest([1; 32])).is_none());
}

#[test]
fn proposal_lies_k_deep_below_the_tip() {
    let mut m = MyLcBlockTreeManager::new(CheckpointParameters::default());
    let ds = feed_chain(&mut m, 8);
    assert_eq!(m.get_current_tip(), ds[8]);
    assert_eq!(m.get_current_proposal(), ds[3]);
    assert_eq!(m.get_log_ava(), ds[2]);
    assert!(m.validate_proposal(&ds[3]));
    assert!(m.validate_proposal(&ds[8]));
    assert_eq!(m.get_height_of_block(&ds[5]), Some(5));
    assert_eq!(m.get_parent_of_block(&ds[5]), Some(Some(ds[4])));
    assert_eq!(m.get_block(&ds[5]).unwrap().payload.0, "b5");
}

#[test]
fn checkpoints_move_the_ledgers() {
    let mut m = MyLcBlockTreeManager::new(CheckpointParameters::default());
    let ds = feed_chain(&mut m, 8);
    let r = m.on_checkpoint_event(CheckpointEvent::NewCheckpoint(0, Some(ds[3]))).unwrap();
    assert_eq!(r, Some((ds[8], 8)));
    assert_eq!(m.get_log_acc(), ds[3]);
    // The block 5 deep below the tip is the checkpoint itself.
    assert_eq!(m.get_current_proposal(), ds[3]);
    // 6 deep would be below the checkpoint, which is higher.
    assert_eq!(m.get_log_ava(), ds[3]);
    assert!(!m.validate_proposal(&ds[2]));
    let (cps, its) = m.checkpoints();
    assert_eq!(cps, vec![ds[3]]);
    assert_eq!(its, vec![0]);

    // A branch that leaves out the checkpoint does not count.
    let side = child(&ds[1], "side", 20);
    m.on_inbound_block(&side.to_bytes()).unwrap();
    assert!(!m.validate_proposal(&side.digest()));
    assert_eq!(m.get_current_tip(), ds[8]);
}

#[test]
fn manager_refusals() {
    let mut m = MyLcBlockTreeManager::new(CheckpointParameters::default());
    assert!(matches!(m.on_inbound_block(&[1, 2]), Err(ManagerError::UndecodableBlock)));
    let orphan = child(&Digest([3; 32]), "orphan", 1);
    assert!(matches!(
        m.on_inbound_block(&orphan.to_bytes()),
        Err(ManagerError::RejectedBlock("Parent is unknown!"))
    ));
    assert!(matches!(
        m.on_checkpoint_event(CheckpointEvent::NewCheckpoint(0, Some(Digest([3; 32])))),
        Err(ManagerError::UnknownCheckpoint)
    ));
    assert_eq!(m.on_checkpoint_event(CheckpointEvent::NewCheckpoint(0, None)).unwrap(), None);
    assert_eq!(m.on_checkpoint_event(CheckpointEvent::NewProposal(0, Digest([3; 32]))).unwrap(), None);
    assert!(m.checkpoints().0.is_empty());
}

#[test]
fn miner_mines_on_its_parent() {
    let name = PublicKey([0; 32]);
    let mut miner = MyMiner::new(name, false);
    let g = LcBlock::genesis().digest();
    let (b, key, bytes) = miner.on_slot(5, true).unwrap();
    assert_eq!(b.parent, Some(g));
    assert_eq!(b.payload.0, "By AAAAAAAAAAAAAAAA at 5");
    assert_eq!(b.payload.1.len(), 22000);
    assert_eq!(b.slot, 5);
    assert_eq!(key, b.digest().0.to_vec());
    assert_eq!(bytes, b.to_bytes());
    assert!(!b.is_adversarial());
    assert!(miner.on_slot(6, false).is_none());
}

#[test]
fn adversarial_miner_marks_its_blocks() {
    let mut k = [0u8; 32];
    for (i, x) in k.iter_mut().enumerate() {
        *x = i as u8;
    }
    let mut miner = MyMiner::new(PublicKey(k), true);
    let (b, _, _) = miner.on_slot(1234, true).unwrap();
    assert_eq!(b.payload.0, "By AAECAwQFBgcICQoL at 1234 [adv]");
    assert!(b.is_adversarial());
}

#[test]
fn miner_defers_tips_of_future_slots() {
    let mut miner = MyMiner::new(PublicKey([1; 32]), false);
    let g = LcBlock::genesis().digest();
    miner.on_slot(3, false);
    let now = Digest([5; 32]);
    let later = Digest([6; 32]);
    miner.on_tip(now, 3);
    miner.on_tip(later, 10);
    let (b, _, _) = miner.on_slot(4, true).unwrap();
    assert_eq!(b.parent, Some(now));
    let (b, _, _) = miner.on_slot(10, true).unwrap();
    assert_eq!(b.parent, Some(now));
    let (b, _, _) = miner.on_slot(11, true).unwrap();
    assert_eq!(b.parent, Some(later));
    assert_ne!(g, later);
}

#[test]
fn miner_timing() {
    let p = CheckpointParameters::default();
    assert_eq!(first_tick_delay(25_000, &p), 11_500);
    assert_eq!(first_tick_delay(24_000, &p), 12_500);
    assert_eq!(slot_of(25_000, &p), 2);
    assert_eq!(slot_of(11_999, &p), 0);
    assert_eq!(digest_to_vec(&Digest([7; 32])), vec![7u8; 32]);
}

#[test]
fn decimal_and_short_texts() {
    assert_eq!(decimal_text(0), vec!['0']);
    assert_eq!(decimal_text(1234).iter().collect::<String>(), "1234");
    assert_eq!(decimal_text(u64::MAX).iter().collect::<String>(), u64::MAX.to_string());
    assert_eq!(PublicKey([0; 32]).to_string(), "AAAAAAAAAAAAAAAA");
    assert_eq!(PublicKey([0xff; 32]).to_string(), "////////////////");
    assert_eq!(Digest([0xfb; 32]).to_string(), "+/v7+/v7+/v7+/v7");
}

#[test]
fn commit_analyzer_processes_each_round_once() {
    let mut a = CommitAnalyzer::new();
    assert_eq!(a.select(&vec![0, 1, 2]), Some(vec![true, true, true]));
    assert_eq!(a.select(&vec![0, 1, 2, 3]), Some(vec![false, false, false, true]));
    assert_eq!(a.select(&vec![1, 5]), Some(vec![false, true]));
    assert_eq!(a.select(&vec![]), Some(vec![]));
    assert_eq!(a.select(&vec![5, 6]), Some(vec![false, true]));
}

#[test]
fn adversaries_agree_on_the_smallest_key() {
    let me = PublicKey([5; 32]);
    let mut s = AdversaryState::new(me);
    assert_eq!(s.leader(), me);
    let (_, bigger) = AdversaryState::hello_message(PublicKey([9; 32]));
    assert!(s.step(AdversaryEvent::AdversaryMessage(bigger)).unwrap().is_empty());
    assert_eq!(s.leader(), me);
    let (key, smaller) = AdversaryState::hello_message(PublicKey([2; 32]));
    assert!(s.step(AdversaryEvent::AdversaryMessage(smaller.clone())).unwrap().is_empty());
    assert_eq!(s.leader(), PublicKey([2; 32]));
    let m = AdversarialGossipMsg::from_bytes(&smaller).unwrap();
    assert!(matches!(m, AdversarialGossipMsg::Hello(k) if k == PublicKey([2; 32])));
    assert_eq!(key, m.digest().0.to_vec());
}

#[test]
fn mined_blocks_are_shared_hidden() {
    let mut s = AdversaryState::new(PublicKey([5; 32]));
    let g = LcBlock::genesis().digest();
    let b = child(&g, "x [adv]", 1);
    let acts = s.step(AdversaryEvent::LocallyMined(b.to_bytes())).unwrap();
    match acts.as_slice() {
        [AdversaryAction::SendToAdversaries(k, v)] => {
            let m = AdversarialGossipMsg::from_bytes(v).unwrap();
            match m {
                AdversarialGossipMsg::HiddenLcBlock(h) => assert!(h.same_content(&b)),
                _ => panic!("expected a hidden block"),
            }
            assert_eq!(*k, m_digest(v));
        },
        _ => panic!("expected one message"),
    }
    assert!(matches!(s.step(AdversaryEvent::LocallyMined(vec![0])), Err(AdversaryError::Undecodable)));
}

fn m_digest(bytes: &[u8]) -> Vec<u8> {
    AdversarialGossipMsg::from_bytes(bytes).unwrap().digest().0.to_vec()
}

#[test]
fn hidden_block_is_published_once_honest_blocks_reach_its_height() {
    let mut s = AdversaryState::new(PublicKey([5; 32]));
    let g = LcBlock::genesis().digest();
    let hidden = child(&g, "h [adv]", 1);
    let msg = AdversarialGossipMsg::HiddenLcBlock(hidden.duplicate()).to_bytes();
    let acts = s.step(AdversaryEvent::AdversaryMessage(msg)).unwrap();
    assert!(matches!(acts.as_slice(), [AdversaryAction::DeliverToTree(_, _), AdversaryAction::QueryHeight(d)] if *d == hidden.digest()));
    // The tree does not know it yet: ask again.
    let acts = s.step(AdversaryEvent::Height(None)).unwrap();
    assert!(matches!(acts.as_slice(), [AdversaryAction::QueryHeight(_)]));
    // Height 1 is above the highest honest block answered (0): keep it hidden.
    assert!(s.step(AdversaryEvent::Height(Some(1))).unwrap().is_empty());
}

#[test]
fn honest_block_is_answered_with_an_adversarial_one() {
    let mut s = AdversaryState::new(PublicKey([5; 32]));
    let g = LcBlock::genesis().digest();
    let honest = child(&g, "honest", 1);
    let adv1 = child(&g, "a1 [adv]", 1);
    let adv2 = child(&adv1.digest(), "a2 [adv]", 2);

    let acts = s.step(AdversaryEvent::PublicBlock(vec![1], honest.to_bytes())).unwrap();
    assert!(matches!(acts.as_slice(), [AdversaryAction::DeliverToTree(k, _), AdversaryAction::QueryHeight(_)] if *k == vec![1]));
    let acts = s.step(AdversaryEvent::Height(Some(1))).unwrap();
    assert!(matches!(acts.as_slice(), [AdversaryAction::QueryTip]));
    assert!(matches!(s.step(AdversaryEvent::Height(Some(1))), Err(AdversaryError::UnexpectedEvent)));
    let acts = s.step(AdversaryEvent::Tip(adv2.digest())).unwrap();
    assert!(matches!(acts.as_slice(), [AdversaryAction::QueryHeight(d)] if *d == adv2.digest()));
    let acts = s.step(AdversaryEvent::Height(Some(2))).unwrap();
    assert!(matches!(acts.as_slice(), [AdversaryAction::QueryParent(d)] if *d == adv2.digest()));
    let acts = s.step(AdversaryEvent::Parent(Some(Some(adv1.digest())))).unwrap();
    assert!(matches!(acts.as_slice(), [AdversaryAction::QueryBlock(d)] if *d == adv1.digest()));
    let acts = s.step(AdversaryEvent::Block(Some(adv1.duplicate()))).unwrap();
    match acts.as_slice() {
        [AdversaryAction::Publish(k, v)] => {
            assert_eq!(*k, adv1.digest().0.to_vec());
            assert_eq!(*v, adv1.to_bytes());
        },
        _ => panic!("expected a publication"),
    }
    // A second honest block of the same height is not answered again.
    let honest2 = child(&g, "honest2", 1);
    s.step(AdversaryEvent::PublicBlock(vec![2], honest2.to_bytes())).unwrap();
    assert!(s.step(AdversaryEvent::Height(Some(1))).unwrap().is_empty());
}

#[test]
fn adversary_refuses_unexpected_events() {
    let mut s = AdversaryState::new(PublicKey([5; 32]));
    assert!(matches!(s.step(AdversaryEvent::Tip(Digest([0; 32]))), Err(AdversaryError::UnexpectedEvent)));
    assert!(matches!(s.step(AdversaryEvent::Height(Some(3))), Err(AdversaryError::UnexpectedEvent)));
    assert!(matches!(s.step(AdversaryEvent::AdversaryMessage(vec![7, 7])), Err(AdversaryError::Undecodable)));
}

#[test]
fn first_tick_delay_with_a_large_offset() {
    let mut p = CheckpointParameters::default();
    p.lcmine_slot = 1_000;
    p.lcmine_slot_offset = u64::MAX - 1_000;
    assert_eq!(first_tick_delay(2_600, &p), u64::MAX - 600);
}

#[test]
fn ledger_rounds_increase_across_commits() {
    let mut a = CommitAnalyzer::new();
    let first = vec![0u64, 2, 1, 4];
    let second = vec![3u64, 4, 5, 7, 6];
    let s1 = a.select(&first).unwrap();
    let s2 = a.select(&second).unwrap();
    let mut out = vec![];
    for (r, keep) in first.iter().zip(s1).chain(second.iter().zip(s2)) {
        if keep {
            out.push(*r);
        }
    }
    assert_eq!(out, vec![0, 2, 4, 5, 7]);
}

#[test]
fn greeting_bytes_follow_the_bincode_layout() {
    let k = PublicKey([9; 32]);
    let mut expected = vec![0u8, 0, 0, 0];
    expected.extend_from_slice(&[9; 32]);
    assert_eq!(AdversarialGossipMsg::Hello(k).to_bytes(), expected);
}
