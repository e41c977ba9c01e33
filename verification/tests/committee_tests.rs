use mynode::config::{CheckpointCommittee, CheckpointParameters, Parameters};
use mynode::cpactions::{CheckpointAction, CheckpointError, CheckpointTransaction};
use mynode::crypto::{Secret, SignatureService};
use mynode::types::{Digest, PublicKey, SecretKey};

fn key(b: u8) -> PublicKey {
    PublicKey([b; 32])
}

#[test]
fn committee_keeps_the_last_stake_of_a_name() {
    let c = CheckpointCommittee::new(vec![(key(1), 1), (key(2), 2), (key(1), 5)], 3);
    assert_eq!(c.size(), 2);
    assert_eq!(c.stake(&key(1)), 5);
    assert_eq!(c.stake(&key(2)), 2);
    assert_eq!(c.stake(&key(3)), 0);
    assert_eq!(c.epoch(), 3);
}

#[test]
fn quorum_is_more_than_two_thirds() {
    let four = CheckpointCommittee::new(vec![(key(1), 1), (key(2), 1), (key(3), 1), (key(4), 1)], 0);
    assert_eq!(four.quorum_threshold(), 3);
    let three = CheckpointCommittee::new(vec![(key(1), 1), (key(2), 1), (key(3), 1)], 0);
    assert_eq!(three.quorum_threshold(), 3);
    let weighted = CheckpointCommittee::new(vec![(key(1), 10), (key(2), 20)], 0);
    assert_eq!(weighted.quorum_threshold(), 21);
    let empty = CheckpointCommittee::new(vec![], 0);
    assert_eq!(empty.quorum_threshold(), 1);
    assert_eq!(empty.size(), 0);
}

#[test]
fn quorum_is_all_but_the_faulty_stake() {
    for n in 1u8..=20 {
        let c = CheckpointCommittee::new((1..=n).map(|k| (key(k), 1)).collect(), 0);
        let f = (n as u32 - 1) / 3;
        assert_eq!(c.quorum_threshold(), n as u32 - f);
    }
}

#[test]
fn names_come_sorted() {
    let mut k = [0u8; 32];
    k[0] = 2;
    let a = PublicKey(k);
    k[0] = 1;
    k[31] = 9;
    let b = PublicKey(k);
    let c = CheckpointCommittee::new(vec![(key(7), 1), (a, 1), (b, 1)], 0);
    let names = c.sorted_names();
    assert_eq!(names, vec![b, a, key(7)]);
}

#[test]
fn default_parameters() {
    let p = CheckpointParameters::default();
    assert_eq!(p.propose_k_deep, 5);
    assert_eq!(p.propose_inter_checkpoint_delay, 300_000);
    assert_eq!(p.propose_timeout, 60_000);
    assert_eq!(p.lcmine_slot, 12_000);
    assert_eq!(p.lcmine_slot_offset, 500);
    assert_eq!(p.lctree_logava_k_deep, 6);
    let q = Parameters::default();
    assert_eq!(q.checkpoint.propose_timeout, 60_000);
}

#[test]
fn default_secret_is_deterministic() {
    let a = Secret::default();
    let b = Secret::default();
    assert_eq!(a.name, b.name);
    assert_eq!(a.secret.0, b.secret.0);
    assert_eq!(a.secret.0.len(), 64);
    assert_eq!(&a.secret.0[32..], &a.name.0[..]);
}

#[test]
fn fresh_secrets_differ() {
    let a = Secret::new();
    let b = Secret::new();
    assert_ne!(a.name, b.name);
    assert_eq!(&a.secret.0[32..], &a.name.0[..]);
}

#[test]
fn signed_transaction_verifies() {
    let s = Secret::new();
    let name = s.name;
    let service = SignatureService::new(s.secret);
    let c = CheckpointCommittee::new(vec![(name, 1), (key(9), 1)], 0);
    let t = CheckpointTransaction::new(name, CheckpointAction::Accept(3, Digest([5; 32])), &service).unwrap();
    assert!(t.verify_signature(&c).is_ok());
    assert_eq!(t.author, name);
    assert!(matches!(t.action, CheckpointAction::Accept(3, d) if d == Digest([5; 32])));
}

#[test]
fn tampered_transaction_fails() {
    let s = Secret::new();
    let name = s.name;
    let service = SignatureService::new(s.secret);
    let c = CheckpointCommittee::new(vec![(name, 1)], 0);
    let mut t = CheckpointTransaction::new(name, CheckpointAction::Reject(4), &service).unwrap();
    t.action = CheckpointAction::Reject(5);
    assert!(matches!(t.verify_signature(&c), Err(CheckpointError::InvalidSignature)));
}

#[test]
fn outsider_is_refused() {
    let s = Secret::new();
    let name = s.name;
    let service = SignatureService::new(s.secret);
    let c = CheckpointCommittee::new(vec![(key(1), 1)], 0);
    let t = CheckpointTransaction::new(name, CheckpointAction::Reject(0), &service).unwrap();
    assert!(matches!(t.verify_signature(&c), Err(CheckpointError::UnknownAuthority(k)) if k == name));
    let zero_stake = CheckpointCommittee::new(vec![(name, 0)], 0);
    assert!(matches!(t.verify_signature(&zero_stake), Err(CheckpointError::UnknownAuthority(_))));
}

#[test]
fn transaction_bytes_round_trip() {
    let s = Secret::default();
    let name = s.name;
    let service = SignatureService::new(s.secret);
    for action in [
        CheckpointAction::Propose(1, Digest([1; 32])),
        CheckpointAction::Accept(2, Digest([2; 32])),
        CheckpointAction::Reject(3),
    ] {
        let t = CheckpointTransaction::new(name, action, &service).unwrap();
        let back = CheckpointTransaction::from_bytes(&t.to_bytes()).ok().unwrap();
        assert_eq!(back.author, t.author);
        assert_eq!(back.signature.part1, t.signature.part1);
        assert_eq!(back.signature.part2, t.signature.part2);
        assert_eq!(back.digest(), t.digest());
    }
    assert!(matches!(CheckpointTransaction::from_bytes(&[0, 1, 2]), Err(CheckpointError::Malformed)));
}

#[test]
fn digest_covers_the_signature() {
    let s = Secret::default();
    let service = SignatureService::new(s.secret);
    let t = CheckpointTransaction::new(s.name, CheckpointAction::Reject(1), &service).unwrap();
    let mut u = t;
    u.signature.part1[0] ^= 1;
    assert_ne!(t.digest(), u.digest());
}

#[test]
fn bad_secret_cannot_sign() {
    let service = SignatureService::new(SecretKey(vec![0; 10]));
    assert!(service.request_signature(&Digest([0; 32])).is_none());
    assert!(CheckpointTransaction::new(key(1), CheckpointAction::Reject(0), &service).is_none());
}

#[test]
fn signatures_are_deterministic() {
    let s = Secret::default();
    let service = SignatureService::new(s.secret);
    let a = service.request_signature(&Digest([3; 32])).unwrap();
    let b = service.request_signature(&Digest([3; 32])).unwrap();
    assert_eq!(a.part1, b.part1);
    assert_eq!(a.part2, b.part2);
}

#[test]
fn transaction_bytes_follow_the_bincode_layout() {
    let s = Secret::default();
    let service = SignatureService::new(s.secret);
    let t = CheckpointTransaction::new(s.name, CheckpointAction::Reject(3), &service).unwrap();
    let mut expected = s.name.0.to_vec();
    expected.extend_from_slice(&[2, 0, 0, 0]);
    expected.extend_from_slice(&[3, 0, 0, 0, 0, 0, 0, 0]);
    expected.extend_from_slice(&t.signature.part1);
    expected.extend_from_slice(&t.signature.part2);
    assert_eq!(t.to_bytes(), expected);

    let u = CheckpointTransaction::new(s.name, CheckpointAction::Accept(258, Digest([5; 32])), &service).unwrap();
    let mut expected = s.name.0.to_vec();
    expected.extend_from_slice(&[1, 0, 0, 0]);
    expected.extend_from_slice(&[2, 1, 0, 0, 0, 0, 0, 0]);
    expected.extend_from_slice(&[5; 32]);
    expected.extend_from_slice(&u.signature.part1);
    expected.extend_from_slice(&u.signature.part2);
    assert_eq!(u.to_bytes(), expected);
}

#[test]
fn fresh_secret_names_the_public_key_of_its_secret_half() {
    for _ in 0..4 {
        let s = Secret::new();
        let sk = ed25519_dalek::SecretKey::from_bytes(&s.secret.0[..32]).unwrap();
        let pk: ed25519_dalek::PublicKey = (&sk).into();
        assert_eq!(pk.to_bytes(), s.name.0);
        let service = SignatureService::new(s.secret);
        assert!(service.request_signature(&Digest([4; 32])).is_some());
    }
}
