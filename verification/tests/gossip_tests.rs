use ed25519_dalek::Digest as _;
use mynode::consensus::Consensus;
use mynode::gossip::{message_id, DispatchError, GossipAction, GossipCmd, GossipDispatcher, GossipSwarm};
use mynode::types::PublicKey;

fn key(b: u8) -> PublicKey {
    PublicKey([b; 32])
}

fn sha512(data: &[u8]) -> Vec<u8> {
    ed25519_dalek::Sha512::digest(data).to_vec()
}

#[test]
fn swarm_keeps_the_last_entry_of_a_name() {
    let s = GossipSwarm::new(vec![
        (key(1), "/ip4/127.0.0.1/tcp/1".to_string(), vec![key(2)]),
        (key(2), "/ip4/127.0.0.1/tcp/2".to_string(), vec![]),
        (key(1), "/ip4/127.0.0.1/tcp/11".to_string(), vec![key(2), key(1)]),
    ]);
    assert_eq!(s.size(), 2);
    let n = s.node(&key(1)).unwrap();
    assert_eq!(n.address, "/ip4/127.0.0.1/tcp/11");
    assert_eq!(n.connect_to, vec![key(2), key(1)]);
    assert!(s.node(&key(3)).is_none());
}

#[test]
fn connection_plan_lists_the_peers_addresses() {
    let s = GossipSwarm::new(vec![
        (key(1), "/ip4/10.0.0.1/tcp/9000".to_string(), vec![key(2), key(3)]),
        (key(2), "/ip4/10.0.0.2/tcp/9000".to_string(), vec![]),
        (key(3), "/ip4/10.0.0.3/tcp/9000".to_string(), vec![key(4)]),
    ]);
    let plan = s.connection_plan(&key(1)).unwrap();
    assert_eq!(plan.listen, "/ip4/10.0.0.1/tcp/9000");
    assert_eq!(plan.dial, vec!["/ip4/10.0.0.2/tcp/9000".to_string(), "/ip4/10.0.0.3/tcp/9000".to_string()]);
    let plan2 = s.connection_plan(&key(2)).unwrap();
    assert!(plan2.dial.is_empty());
    // Node 3 connects to a node the swarm does not list.
    assert!(s.connection_plan(&key(3)).is_none());
    assert!(s.connection_plan(&key(9)).is_none());
}

#[test]
fn message_id_is_a_hash_prefix() {
    let data = b"some gossip".to_vec();
    let id = message_id(&data);
    assert_eq!(id.len(), 16);
    assert_eq!(id, sha512(&data)[..16].to_vec());
    assert_ne!(message_id(&b"other".to_vec()), id);
}

#[test]
fn consensus_key_is_a_hash_prefix() {
    let data = vec![1, 2, 3, 4];
    let k = Consensus::gossip_key(&data);
    assert_eq!(k.len(), 32);
    assert_eq!(k, sha512(&data)[..32].to_vec());
}

fn subscribed(topic: &str, id: u64) -> GossipDispatcher {
    let mut d = GossipDispatcher::new();
    let acts = d.on_command(GossipCmd::Subscribe(topic.to_string(), id)).unwrap();
    assert!(matches!(acts.as_slice(), [GossipAction::JoinTopic(t)] if t == topic));
    d
}

#[test]
fn publish_stores_broadcasts_and_replays() {
    let mut d = subscribed("lcblocks", 7);
    let acts = d.on_command(GossipCmd::Publish("lcblocks".to_string(), vec![1], vec![2, 3], false)).unwrap();
    assert_eq!(acts.len(), 3);
    assert!(matches!(&acts[0], GossipAction::PutRecord(k, v) if *k == vec![1] && *v == vec![2, 3]));
    assert!(matches!(&acts[1], GossipAction::Broadcast(t, _) if t == "lcblocks"));
    assert!(matches!(&acts[2], GossipAction::Deliver(7, k, v) if *k == vec![1] && *v == vec![2, 3]));
}

#[test]
fn ephemeral_publish_is_not_stored() {
    let mut d = subscribed("consensus", 1);
    let acts = d.on_command(GossipCmd::Publish("consensus".to_string(), vec![1], vec![2], true)).unwrap();
    assert_eq!(acts.len(), 2);
    assert!(matches!(&acts[0], GossipAction::Broadcast(_, _)));
    assert!(matches!(&acts[1], GossipAction::Deliver(1, _, _)));
}

#[test]
fn publish_on_unknown_topic_is_refused() {
    let mut d = subscribed("a", 1);
    let r = d.on_command(GossipCmd::Publish("b".to_string(), vec![1], vec![2], false));
    assert!(matches!(r, Err(DispatchError::TopicNotSubscribed)));
}

#[test]
fn broadcast_bytes_reach_the_other_nodes_subscriber() {
    let mut sender = subscribed("proposals", 1);
    let receiver = subscribed("proposals", 42);
    let acts = sender.on_command(GossipCmd::Publish("proposals".to_string(), vec![5, 5], vec![6, 6, 6], false)).unwrap();
    let data = match &acts[1] {
        GossipAction::Broadcast(_, data) => data.clone(),
        _ => panic!("expected a broadcast"),
    };
    let acts = receiver.on_message(&"proposals".to_string(), &data).unwrap();
    assert!(matches!(acts.as_slice(), [GossipAction::Deliver(42, k, v)] if *k == vec![5, 5] && *v == vec![6, 6, 6]));
}

#[test]
fn messages_that_do_not_decode_or_fit_are_refused() {
    let d = subscribed("t", 1);
    assert!(matches!(d.on_message(&"t".to_string(), &vec![1]), Err(DispatchError::MalformedMessage)));
    assert!(matches!(
        d.on_decoded_message(&"u".to_string(), Some((vec![1], vec![2]))),
        Err(DispatchError::TopicNotSubscribed)
    ));
    assert!(matches!(d.on_decoded_message(&"t".to_string(), None), Err(DispatchError::MalformedMessage)));
}

#[test]
fn resubscribing_replaces_the_subscriber() {
    let mut d = subscribed("t", 1);
    d.on_command(GossipCmd::Subscribe("t".to_string(), 2)).unwrap();
    let acts = d.on_command(GossipCmd::Publish("t".to_string(), vec![], vec![], true)).unwrap();
    assert!(matches!(acts.last(), Some(GossipAction::Deliver(2, _, _))));
}

#[test]
fn retrieval_is_answered_once_to_everyone_who_asked() {
    let mut d = GossipDispatcher::new();
    let acts = d.on_command(GossipCmd::Retrieve(vec![9], 3)).unwrap();
    assert!(matches!(acts.as_slice(), [GossipAction::GetRecord(k)] if *k == vec![9]));
    d.on_command(GossipCmd::Retrieve(vec![9], 4)).unwrap();
    d.on_command(GossipCmd::Retrieve(vec![8], 5)).unwrap();
    let acts = d.on_record(vec![9], vec![1, 1]).unwrap();
    assert_eq!(acts.len(), 2);
    assert!(matches!(&acts[0], GossipAction::Deliver(3, k, v) if *k == vec![9] && *v == vec![1, 1]));
    assert!(matches!(&acts[1], GossipAction::Deliver(4, _, _)));
    assert!(matches!(d.on_record(vec![9], vec![2]), Err(DispatchError::UnknownRetrieval)));
    let acts = d.on_record(vec![8], vec![0]).unwrap();
    assert!(matches!(acts.as_slice(), [GossipAction::Deliver(5, _, _)]));
}

#[test]
fn broadcast_bytes_follow_the_bincode_layout() {
    let mut d = subscribed("lcblocks", 7);
    let acts = d.on_command(GossipCmd::Publish("lcblocks".to_string(), vec![1], vec![2, 3], true)).unwrap();
    let expected: Vec<u8> = vec![1, 0, 0, 0, 0, 0, 0, 0, 1, 2, 0, 0, 0, 0, 0, 0, 0, 2, 3];
    assert!(matches!(&acts[0], GossipAction::Broadcast(_, data) if *data == expected));
}

#[test]
fn hand_written_pair_bytes_decode_and_short_ones_do_not() {
    let d = subscribed("t", 3);
    let bytes: Vec<u8> = vec![2, 0, 0, 0, 0, 0, 0, 0, 7, 8, 1, 0, 0, 0, 0, 0, 0, 0, 9, 99];
    let acts = d.on_message(&"t".to_string(), &bytes).unwrap();
    assert!(matches!(acts.as_slice(), [GossipAction::Deliver(3, k, v)] if *k == vec![7, 8] && *v == vec![9]));
    let short: Vec<u8> = vec![2, 0, 0, 0, 0, 0, 0, 0, 7, 8, 1, 0, 0, 0, 0, 0, 0, 0];
    assert!(matches!(d.on_message(&"t".to_string(), &short), Err(DispatchError::MalformedMessage)));
}
