use vstd::prelude::*;
use crate::types::PublicKey;
use crate::hashing::{sha512, sha512_prefix};
use crate::codec::{kv_encoding, kv_decoding, kv_serialize, kv_deserialize};
use crate::keyed::{
    last_wins, distinct_keys, lemma_last_wins_push, lemma_last_wins_dom, lemma_last_wins_at,
    lemma_last_wins_update, lemma_last_wins_remove, lemma_last_wins_len,
};

verus! {

// ---------------------------------------------------------------------------
// The swarm configuration.

/// A node of the gossip network as the swarm configuration lists it.
#[derive(Clone, Debug)]
pub struct GossipNode {
    pub name: PublicKey,
    /// The node's multiaddress in its text form, such as `/ip4/127.0.0.1/tcp/9000`.
    pub address: String,
    /// The nodes that this node dials when it starts.
    pub connect_to: Vec<PublicKey>,
}

/// What the configuration says of a node, its name aside.
pub struct GossipNodeView {
    pub address: Seq<char>,
    pub connect_to: Seq<Seq<u8>>,
}

/// The byte strings of a sequence of keys.
pub open spec fn keys_view(s: Seq<PublicKey>) -> Seq<Seq<u8>> {
    s.map_values(|k: PublicKey| k@)
}

impl GossipNode {
    /// The node as a (name, description) pair.
    pub open spec fn entry(self) -> (Seq<u8>, GossipNodeView) {
        (self.name@, GossipNodeView { address: self.address@, connect_to: keys_view(self.connect_to@) })
    }
}

/// The (name, description) pairs that a list of (name, address, peers) triples gives.
pub open spec fn info_entries(info: Seq<(PublicKey, String, Vec<PublicKey>)>) -> Seq<(Seq<u8>, GossipNodeView)> {
    info.map_values(
        |e: (PublicKey, String, Vec<PublicKey>)|
            (e.0@, GossipNodeView { address: e.1@, connect_to: keys_view(e.2@) }),
    )
}

/// The configuration of the gossip network: the nodes by name.
#[derive(Debug)]
pub struct GossipSwarm {
    nodes: Vec<GossipNode>,
}

/// Where a node listens and whom it dials.
pub struct ConnectionPlan {
    /// The node's own address.
    pub listen: String,
    /// The addresses of the nodes it connects to, in the order listed.
    pub dial: Vec<String>,
}

impl GossipSwarm {
    closed spec fn entries(&self) -> Seq<(Seq<u8>, GossipNodeView)> {
        self.nodes@.map_values(|n: GossipNode| n.entry())
    }

    #[verifier::type_invariant]
    closed spec fn names_distinct(&self) -> bool {
        distinct_keys(self.entries())
    }
}

impl View for GossipSwarm {
    type V = Map<Seq<u8>, GossipNodeView>;

    closed spec fn view(&self) -> Map<Seq<u8>, GossipNodeView> {
        last_wins(self.entries())
    }
}

/// The position of the node named `name`, if any.
fn find_node(nodes: &Vec<GossipNode>, name: &PublicKey) -> (r: Option<usize>)
    ensures
        match r {
            Some(j) => j < nodes.len() && nodes@[j as int].name@ == name@,
            None => forall|k: int| 0 <= k < nodes.len() ==> nodes@[k].name@ != name@,
        },
{
    let mut j: usize = 0;
    while j < nodes.len()
        invariant
            0 <= j <= nodes.len(),
            forall|k: int| 0 <= k < j ==> nodes@[k].name@ != name@,
        decreases nodes.len() - j,
    {
        if nodes[j].name == *name {
            return Some(j);
        }
        j = j + 1;
    }
    None
}

impl GossipSwarm {
    /// The swarm of the listed nodes; where a name is listed twice, the last
    /// entry for it counts.
    pub fn new(info: Vec<(PublicKey, String, Vec<PublicKey>)>) -> (s: GossipSwarm)
        ensures
            s@ == last_wins(info_entries(info@)),
    {
        let ghost all = info@;
        let mut info = info;
        let mut nodes: Vec<GossipNode> = Vec::new();
        let ghost mut k: int = 0;
        while info.len() > 0
            invariant
                0 <= k <= all.len(),
                info@ == all.skip(k),
                distinct_keys(nodes@.map_values(|n: GossipNode| n.entry())),
                last_wins(nodes@.map_values(|n: GossipNode| n.entry())) == last_wins(
                    info_entries(all.take(k)),
                ),
            decreases info.len(),
        {
            let ghost old_nodes = nodes@;
            let ghost es = old_nodes.map_values(|n: GossipNode| n.entry());
            let (name, address, connect_to) = info.remove(0);
            let node = GossipNode { name, address, connect_to };
            proof {
                assert(all[k] == (name, node.address, node.connect_to));
                assert(info_entries(all.take(k + 1)) =~= info_entries(all.take(k)).push(node.entry()));
                lemma_last_wins_push(info_entries(all.take(k)), node.entry());
                assert(info@ =~= all.skip(k + 1));
            }
            match find_node(&nodes, &name) {
                Some(j) => {
                    nodes.set(j, node);
                    proof {
                        assert(nodes@.map_values(|n: GossipNode| n.entry()) =~= es.update(
                            j as int,
                            (es[j as int].0, node.entry().1),
                        ));
                        lemma_last_wins_update(es, j as int, node.entry().1);
                        let es2 = nodes@.map_values(|n: GossipNode| n.entry());
                        assert forall|a: int, b: int| 0 <= a < b < es2.len() implies es2[a].0 != es2[b].0 by {
                            assert(es2[a].0 == es[a].0);
                            assert(es2[b].0 == es[b].0);
                        }
                    }
                },
                None => {
                    nodes.push(node);
                    proof {
                        assert(nodes@.map_values(|n: GossipNode| n.entry()) =~= es.push(node.entry()));
                        lemma_last_wins_push(es, node.entry());
                    }
                },
            }
            proof {
                k = k + 1;
            }
        }
        proof {
            assert(all.take(k) =~= all);
        }
        GossipSwarm { nodes }
    }

    /// The number of nodes.
    pub fn size(&self) -> (r: usize)
        ensures
            self@.dom().finite(),
            r == self@.dom().len(),
    {
        proof {
            use_type_invariant(self);
            lemma_last_wins_len(self.entries());
        }
        self.nodes.len()
    }

    /// The nodes of the swarm, each name once.
    pub fn nodes(&self) -> (r: &Vec<GossipNode>)
        ensures
            distinct_keys(r@.map_values(|n: GossipNode| n.entry())),
            last_wins(r@.map_values(|n: GossipNode| n.entry())) == self@,
    {
        proof {
            use_type_invariant(self);
        }
        &self.nodes
    }

    /// The node named `name`, if the swarm has one.
    pub fn node(&self, name: &PublicKey) -> (r: Option<&GossipNode>)
        ensures
            match r {
                Some(n) => self@.contains_key(name@) && n.entry() == (name@, self@[name@]),
                None => !self@.contains_key(name@),
            },
    {
        proof {
            use_type_invariant(self);
        }
        match find_node(&self.nodes, name) {
            Some(j) => {
                proof {
                    assert(self.entries()[j as int] == self.nodes@[j as int].entry());
                    lemma_last_wins_at(self.entries(), j as int);
                }
                Some(&self.nodes[j])
            },
            None => {
                proof {
                    lemma_last_wins_dom(self.entries(), name@);
                    if exists|i: int| 0 <= i < self.entries().len() && self.entries()[i].0 == name@ {
                        let i = choose|i: int| 0 <= i < self.entries().len() && self.entries()[i].0 == name@;
                        assert(self.entries()[i] == self.nodes@[i].entry());
                    }
                }
                None
            },
        }
    }

    /// Where the node named `name` listens and the addresses it dials: `None`
    /// when the swarm lists no node of that name, or not one of its peers.
    pub fn connection_plan(&self, name: &PublicKey) -> (r: Option<ConnectionPlan>)
        ensures
            r is Some <==> plan_exists(self@, name@),
            r matches Some(p) ==> p.listen@ == self@[name@].address && strings_view(p.dial@)
                == peer_addresses(self@, self@[name@].connect_to),
    {
        let me = match self.node(name) {
            Some(n) => n,
            None => {
                return None;
            },
        };
        let ghost peers = self@[name@].connect_to;
        let mut dial: Vec<String> = Vec::new();
        let mut i: usize = 0;
        while i < me.connect_to.len()
            invariant
                self@.contains_key(name@),
                me.entry() == (name@, self@[name@]),
                peers == self@[name@].connect_to,
                0 <= i <= me.connect_to.len(),
                forall|j: int| 0 <= j < i ==> self@.contains_key(#[trigger] peers[j]),
                strings_view(dial@) == peer_addresses(self@, peers.take(i as int)),
            decreases me.connect_to.len() - i,
        {
            let c = &me.connect_to[i];
            assert(peers[i as int] == c@);
            match self.node(c) {
                Some(n) => {
                    let a = n.address.clone();
                    dial.push(a);
                    proof {
                        assert(peers.take(i + 1) =~= peers.take(i as int).push(c@));
                        assert(peer_addresses(self@, peers.take(i + 1)) =~= peer_addresses(
                            self@,
                            peers.take(i as int),
                        ).push(self@[c@].address));
                        assert(strings_view(dial@) =~= strings_view(dial@.drop_last()).push(a@));
                        assert(dial@.drop_last() =~= dial@.take(dial@.len() - 1));
                    }
                },
                None => {
                    return None;
                },
            }
            i = i + 1;
        }
        proof {
            assert(peers.take(i as int) =~= peers);
        }
        Some(ConnectionPlan { listen: me.address.clone(), dial })
    }
}

/// The text of each string.
pub open spec fn strings_view(s: Seq<String>) -> Seq<Seq<char>> {
    s.map_values(|x: String| x@)
}

/// The addresses of the named peers.
pub open spec fn peer_addresses(swarm: Map<Seq<u8>, GossipNodeView>, peers: Seq<Seq<u8>>) -> Seq<Seq<char>> {
    peers.map_values(|p: Seq<u8>| swarm[p].address)
}

/// The swarm lists the node named `name` and each node that it connects to.
pub open spec fn plan_exists(swarm: Map<Seq<u8>, GossipNodeView>, name: Seq<u8>) -> bool {
    &&& swarm.contains_key(name)
    &&& forall|j: int| 0 <= j < swarm[name].connect_to.len() ==> swarm.contains_key(#[trigger] swarm[name].connect_to[j])
}

// ---------------------------------------------------------------------------
// Message identifiers.

/// The identifier under which the gossip layer propagates a message: the first
/// 16 bytes of the SHA-512 hash of its data, so that no two messages of the
/// same content are propagated.
pub fn message_id(data: &Vec<u8>) -> (id: Vec<u8>)
    ensures
        id@ == sha512(data@).take(16),
{
    sha512_prefix(data.as_slice(), 16)
}

// ---------------------------------------------------------------------------
// The dispatcher: what the gossip layer does with each command and event.

/// Who receives what the gossip layer delivers on a topic or for a retrieval.
pub type SubscriberId = u64;

/// A command to the gossip layer.
#[derive(Clone, Debug)]
pub enum GossipCmd {
    /// Deliver what arrives on the topic to the subscriber.
    Subscribe(String, SubscriberId),
    /// Publish a (key, value) pair on a topic; unless ephemeral, also store it
    /// in the distributed hash table.
    Publish(String, Vec<u8>, Vec<u8>, bool),
    /// Look a key up in the distributed hash table for the subscriber.
    Retrieve(Vec<u8>, SubscriberId),
}

/// What the dispatcher asks the network layer to do, in order.
#[derive(Clone, Debug)]
pub enum GossipAction {
    /// Subscribe to the topic on the gossip network.
    JoinTopic(String),
    /// Store the (key, value) pair in the distributed hash table.
    PutRecord(Vec<u8>, Vec<u8>),
    /// Publish the bytes on the topic.
    Broadcast(String, Vec<u8>),
    /// Hand a (key, value) pair to a subscriber.
    Deliver(SubscriberId, Vec<u8>, Vec<u8>),
    /// Look the key up in the distributed hash table.
    GetRecord(Vec<u8>),
}

/// Why the dispatcher refuses a command or an event.
#[derive(Clone, Copy, Debug, PartialEq, Eq, Structural)]
pub enum DispatchError {
    /// No subscriber for the topic.
    TopicNotSubscribed,
    /// The bytes of a gossip message are not a (key, value) pair.
    MalformedMessage,
    /// A record came for a key that nobody asked for.
    UnknownRetrieval,
}

/// The mathematical value of a command.
pub enum GossipCmdView {
    Subscribe(Seq<char>, u64),
    Publish(Seq<char>, Seq<u8>, Seq<u8>, bool),
    Retrieve(Seq<u8>, u64),
}

pub open spec fn cmd_view(c: GossipCmd) -> GossipCmdView {
    match c {
        GossipCmd::Subscribe(t, id) => GossipCmdView::Subscribe(t@, id),
        GossipCmd::Publish(t, k, v, e) => GossipCmdView::Publish(t@, k@, v@, e),
        GossipCmd::Retrieve(k, id) => GossipCmdView::Retrieve(k@, id),
    }
}

/// The mathematical value of an action.
pub enum GossipActionView {
    JoinTopic(Seq<char>),
    PutRecord(Seq<u8>, Seq<u8>),
    Broadcast(Seq<char>, Seq<u8>),
    Deliver(u64, Seq<u8>, Seq<u8>),
    GetRecord(Seq<u8>),
}

pub open spec fn action_view(a: GossipAction) -> GossipActionView {
    match a {
        GossipAction::JoinTopic(t) => GossipActionView::JoinTopic(t@),
        GossipAction::PutRecord(k, v) => GossipActionView::PutRecord(k@, v@),
        GossipAction::Broadcast(t, d) => GossipActionView::Broadcast(t@, d@),
        GossipAction::Deliver(id, k, v) => GossipActionView::Deliver(id, k@, v@),
        GossipAction::GetRecord(k) => GossipActionView::GetRecord(k@),
    }
}

pub open spec fn actions_view(s: Seq<GossipAction>) -> Seq<GossipActionView> {
    s.map_values(|a: GossipAction| action_view(a))
}

/// The mathematical value of the dispatcher.
pub struct DispatcherView {
    /// The subscriber of each subscribed topic.
    pub subscriptions: Map<Seq<char>, u64>,
    /// For each key being looked up, who asked for it, in order.
    pub pending: Map<Seq<u8>, Seq<u64>>,
}

/// Who has asked for `key` so far.
pub open spec fn waiting_for(s: DispatcherView, key: Seq<u8>) -> Seq<u64> {
    if s.pending.contains_key(key) {
        s.pending[key]
    } else {
        Seq::empty()
    }
}

/// What a command does: the new state and the actions, or why it is refused.
/// A publication is replayed to the topic's local subscriber.
pub open spec fn command_spec(s: DispatcherView, c: GossipCmdView) -> Result<(DispatcherView, Seq<GossipActionView>), DispatchError> {
    match c {
        GossipCmdView::Subscribe(t, id) => Ok((
            DispatcherView { subscriptions: s.subscriptions.insert(t, id), pending: s.pending },
            seq![GossipActionView::JoinTopic(t)],
        )),
        GossipCmdView::Publish(t, k, v, ephemeral) => {
            if !s.subscriptions.contains_key(t) {
                Err(DispatchError::TopicNotSubscribed)
            } else {
                let store = if ephemeral { Seq::empty() } else { seq![GossipActionView::PutRecord(k, v)] };
                Ok((
                    s,
                    store + seq![
                        GossipActionView::Broadcast(t, kv_encoding(k, v)),
                        GossipActionView::Deliver(s.subscriptions[t], k, v),
                    ],
                ))
            }
        },
        GossipCmdView::Retrieve(k, id) => Ok((
            DispatcherView {
                subscriptions: s.subscriptions,
                pending: s.pending.insert(k, waiting_for(s, k).push(id)),
            },
            seq![GossipActionView::GetRecord(k)],
        )),
    }
}

/// What a gossip message on `topic` does, given what its bytes decode to:
/// the pair goes to the topic's subscriber.
pub open spec fn message_spec(s: DispatcherView, topic: Seq<char>, decoded: Option<(Seq<u8>, Seq<u8>)>) -> Result<Seq<GossipActionView>, DispatchError> {
    match decoded {
        None => Err(DispatchError::MalformedMessage),
        Some((k, v)) => {
            if !s.subscriptions.contains_key(topic) {
                Err(DispatchError::TopicNotSubscribed)
            } else {
                Ok(seq![GossipActionView::Deliver(s.subscriptions[topic], k, v)])
            }
        },
    }
}

/// What a record found in the distributed hash table does: it goes to each
/// who asked for its key, in order, and the key is no longer waited for.
pub open spec fn record_spec(s: DispatcherView, key: Seq<u8>, value: Seq<u8>) -> Result<(DispatcherView, Seq<GossipActionView>), DispatchError> {
    if !s.pending.contains_key(key) {
        Err(DispatchError::UnknownRetrieval)
    } else {
        Ok((
            DispatcherView { subscriptions: s.subscriptions, pending: s.pending.remove(key) },
            s.pending[key].map_values(|id: u64| GossipActionView::Deliver(id, key, value)),
        ))
    }
}

/// The state of the gossip layer's dispatcher.
pub struct GossipDispatcher {
    subscriptions: Vec<(String, SubscriberId)>,
    pending: Vec<(Vec<u8>, Vec<SubscriberId>)>,
}

pub open spec fn subs_entries(s: Seq<(String, SubscriberId)>) -> Seq<(Seq<char>, u64)> {
    s.map_values(|p: (String, SubscriberId)| (p.0@, p.1))
}

pub open spec fn pending_entries(s: Seq<(Vec<u8>, Vec<SubscriberId>)>) -> Seq<(Seq<u8>, Seq<u64>)> {
    s.map_values(|p: (Vec<u8>, Vec<SubscriberId>)| (p.0@, p.1@))
}

impl GossipDispatcher {
    #[verifier::type_invariant]
    closed spec fn keys_distinct(&self) -> bool {
        &&& distinct_keys(subs_entries(self.subscriptions@))
        &&& distinct_keys(pending_entries(self.pending@))
    }
}

impl View for GossipDispatcher {
    type V = DispatcherView;

    closed spec fn view(&self) -> DispatcherView {
        DispatcherView {
            subscriptions: last_wins(subs_entries(self.subscriptions@)),
            pending: last_wins(pending_entries(self.pending@)),
        }
    }
}

/// Whether two byte vectors are equal.
fn same_bytes(a: &Vec<u8>, b: &Vec<u8>) -> (r: bool)
    ensures
        r == (a@ == b@),
{
    if a.len() != b.len() {
        return false;
    }
    let mut i: usize = 0;
    while i < a.len()
        invariant
            a.len() == b.len(),
            0 <= i <= a.len(),
            forall|j: int| 0 <= j < i ==> a@[j] == b@[j],
        decreases a.len() - i,
    {
        if a[i] != b[i] {
            return false;
        }
        i = i + 1;
    }
    assert(a@ =~= b@);
    true
}

/// A copy of a byte vector.
fn copy_bytes(a: &Vec<u8>) -> (r: Vec<u8>)
    ensures
        r@ == a@,
{
    let r = a.clone();
    assert(r@ =~= a@);
    r
}

/// The position of `topic` among the subscriptions, if any.
fn find_topic(subs: &Vec<(String, SubscriberId)>, topic: &String) -> (r: Option<usize>)
    ensures
        match r {
            Some(j) => j < subs.len() && subs@[j as int].0@ == topic@,
            None => forall|k: int| 0 <= k < subs.len() ==> subs@[k].0@ != topic@,
        },
{
    let mut j: usize = 0;
    while j < subs.len()
        invariant
            0 <= j <= subs.len(),
            forall|k: int| 0 <= k < j ==> subs@[k].0@ != topic@,
        decreases subs.len() - j,
    {
        if subs[j].0 == *topic {
            return Some(j);
        }
        j = j + 1;
    }
    None
}

/// The position of `key` among the pending retrievals, if any.
fn find_key(pending: &Vec<(Vec<u8>, Vec<SubscriberId>)>, key: &Vec<u8>) -> (r: Option<usize>)
    ensures
        match r {
            Some(j) => j < pending.len() && pending@[j as int].0@ == key@,
            None => forall|k: int| 0 <= k < pending.len() ==> pending@[k].0@ != key@,
        },
{
    let mut j: usize = 0;
    while j < pending.len()
        invariant
            0 <= j <= pending.len(),
            forall|k: int| 0 <= k < j ==> pending@[k].0@ != key@,
        decreases pending.len() - j,
    {
        if same_bytes(&pending[j].0, key) {
            return Some(j);
        }
        j = j + 1;
    }
    None
}

/// The subscriber of `topic`, if any.
fn subscriber_of(subs: &Vec<(String, SubscriberId)>, topic: &String) -> (r: Option<SubscriberId>)
    requires
        distinct_keys(subs_entries(subs@)),
    ensures
        match r {
            Some(id) => last_wins(subs_entries(subs@)).contains_key(topic@)
                && last_wins(subs_entries(subs@))[topic@] == id,
            None => !last_wins(subs_entries(subs@)).contains_key(topic@),
        },
{
    let ghost es = subs_entries(subs@);
    match find_topic(subs, topic) {
        Some(j) => {
            proof {
                assert(es[j as int] == (subs@[j as int].0@, subs@[j as int].1));
                lemma_last_wins_at(es, j as int);
            }
            Some(subs[j].1)
        },
        None => {
            proof {
                lemma_last_wins_dom(es, topic@);
                if exists|i: int| 0 <= i < es.len() && es[i].0 == topic@ {
                    let i = choose|i: int| 0 <= i < es.len() && es[i].0 == topic@;
                    assert(es[i].0 == subs@[i].0@);
                }
            }
            None
        },
    }
}

impl GossipDispatcher {
    /// A dispatcher with no subscription and no retrieval under way.
    pub fn new() -> (d: GossipDispatcher)
        ensures
            d@.subscriptions == Map::<Seq<char>, u64>::empty(),
            d@.pending == Map::<Seq<u8>, Seq<u64>>::empty(),
    {
        let d = GossipDispatcher { subscriptions: Vec::new(), pending: Vec::new() };
        assert(subs_entries(d.subscriptions@) =~= Seq::empty());
        assert(pending_entries(d.pending@) =~= Seq::empty());
        d
    }

    /// Carries out a command: the new state and the actions follow
    /// `command_spec`; a refused command changes nothing.
    pub fn on_command(&mut self, cmd: GossipCmd) -> (r: Result<Vec<GossipAction>, DispatchError>)
        ensures
            match command_spec(old(self)@, cmd_view(cmd)) {
                Ok((s, a)) => r matches Ok(acts) && final(self)@ == s && actions_view(acts@) == a,
                Err(e) => r matches Err(e2) && e2 == e && final(self)@ == old(self)@,
            },
            cmd matches GossipCmd::Publish(_, k, v, _) ==> kv_decoding(kv_encoding(k@, v@)) == Some((k@, v@)),
    {
        proof {
            use_type_invariant(&*self);
        }
        let mut acts: Vec<GossipAction> = Vec::new();
        match cmd {
            GossipCmd::Subscribe(topic, id) => {
                let ghost es = subs_entries(self.subscriptions@);
                let t2 = topic.clone();
                let mut subs: Vec<(String, SubscriberId)> = Vec::new();
                std::mem::swap(&mut subs, &mut self.subscriptions);
                match find_topic(&subs, &topic) {
                    Some(j) => {
                        subs.set(j, (topic, id));
                        proof {
                            assert(subs_entries(subs@) =~= es.update(j as int, (es[j as int].0, id)));
                            lemma_last_wins_update(es, j as int, id);
                        }
                    },
                    None => {
                        subs.push((topic, id));
                        proof {
                            assert(subs_entries(subs@) =~= es.push((t2@, id)));
                            lemma_last_wins_push(es, (t2@, id));
                        }
                    },
                }
                self.subscriptions = subs;
                acts.push(GossipAction::JoinTopic(t2));
                proof {
                    assert(actions_view(acts@) =~= seq![GossipActionView::JoinTopic(t2@)]);
                }
                Ok(acts)
            },
            GossipCmd::Publish(topic, key, value, ephemeral) => {
                let data = kv_serialize(&key, &value);
                match subscriber_of(&self.subscriptions, &topic) {
                    None => Err(DispatchError::TopicNotSubscribed),
                    Some(id) => {
                        let ghost store = if ephemeral {
                            Seq::<GossipActionView>::empty()
                        } else {
                            seq![GossipActionView::PutRecord(key@, value@)]
                        };
                        if !ephemeral {
                            acts.push(GossipAction::PutRecord(copy_bytes(&key), copy_bytes(&value)));
                        }
                        assert(actions_view(acts@) =~= store);
                        acts.push(GossipAction::Broadcast(topic, data));
                        acts.push(GossipAction::Deliver(id, key, value));
                        proof {
                            assert(actions_view(acts@) =~= store + seq![
                                GossipActionView::Broadcast(cmd_view(cmd)->Publish_0, kv_encoding(key@, value@)),
                                GossipActionView::Deliver(id, key@, value@),
                            ]);
                        }
                        Ok(acts)
                    },
                }
            },
            GossipCmd::Retrieve(key, id) => {
                let ghost es = pending_entries(self.pending@);
                let ghost before = waiting_for(self@, key@);
                let mut pending: Vec<(Vec<u8>, Vec<SubscriberId>)> = Vec::new();
                std::mem::swap(&mut pending, &mut self.pending);
                match find_key(&pending, &key) {
                    Some(j) => {
                        proof {
                            assert(es[j as int].0 == key@);
                            lemma_last_wins_at(es, j as int);
                        }
                        let (k0, mut ids) = pending.remove(j);
                        ids.push(id);
                        pending.insert(j, (k0, ids));
                        proof {
                            assert(pending_entries(pending@) =~= es.update(j as int, (key@, before.push(id))));
                            lemma_last_wins_update(es, j as int, before.push(id));
                        }
                    },
                    None => {
                        proof {
                            lemma_last_wins_dom(es, key@);
                            if exists|i: int| 0 <= i < es.len() && es[i].0 == key@ {
                                let i = choose|i: int| 0 <= i < es.len() && es[i].0 == key@;
                                assert(es[i].0 == pending@[i].0@);
                            }
                        }
                        let mut ids: Vec<SubscriberId> = Vec::new();
                        ids.push(id);
                        pending.push((copy_bytes(&key), ids));
                        proof {
                            assert(before =~= Seq::<u64>::empty());
                            assert(ids@ =~= before.push(id));
                            assert(pending_entries(pending@) =~= es.push((key@, before.push(id))));
                            lemma_last_wins_push(es, (key@, before.push(id)));
                        }
                    },
                }
                self.pending = pending;
                acts.push(GossipAction::GetRecord(key));
                proof {
                    assert(actions_view(acts@) =~= seq![GossipActionView::GetRecord(cmd_view(cmd)->Retrieve_0)]);
                }
                Ok(acts)
            },
        }
    }

    /// Hands a gossip message on `topic`, already decoded, to the topic's
    /// subscriber, following `message_spec`.
    pub fn on_decoded_message(&self, topic: &String, decoded: Option<(Vec<u8>, Vec<u8>)>) -> (r: Result<Vec<GossipAction>, DispatchError>)
        ensures
            match message_spec(
                self@,
                topic@,
                match decoded {
                    Some(p) => Some((p.0@, p.1@)),
                    None => None,
                },
            ) {
                Ok(a) => r matches Ok(acts) && actions_view(acts@) == a,
                Err(e) => r matches Err(e2) && e2 == e,
            },
    {
        proof {
            use_type_invariant(self);
        }
        match decoded {
            None => Err(DispatchError::MalformedMessage),
            Some((k, v)) => match subscriber_of(&self.subscriptions, topic) {
                None => Err(DispatchError::TopicNotSubscribed),
                Some(id) => {
                    let mut acts: Vec<GossipAction> = Vec::new();
                    acts.push(GossipAction::Deliver(id, k, v));
                    assert(actions_view(acts@) =~= seq![GossipActionView::Deliver(id, k@, v@)]);
                    Ok(acts)
                },
            },
        }
    }

    /// Handles a gossip message on `topic`: its bytes are read as a
    /// (key, value) pair, which goes to the topic's subscriber.
    pub fn on_message(&self, topic: &String, data: &Vec<u8>) -> (r: Result<Vec<GossipAction>, DispatchError>)
        ensures
            match message_spec(self@, topic@, kv_decoding(data@)) {
                Ok(a) => r matches Ok(acts) && actions_view(acts@) == a,
                Err(e) => r matches Err(e2) && e2 == e,
            },
    {
        let decoded = kv_deserialize(data);
        self.on_decoded_message(topic, decoded)
    }

    /// Handles a record found in the distributed hash table: following
    /// `record_spec`, it goes to each who asked for its key; a refused record
    /// changes nothing.
    pub fn on_record(&mut self, key: Vec<u8>, value: Vec<u8>) -> (r: Result<Vec<GossipAction>, DispatchError>)
        ensures
            match record_spec(old(self)@, key@, value@) {
                Ok((s, a)) => r matches Ok(acts) && final(self)@ == s && actions_view(acts@) == a,
                Err(e) => r matches Err(e2) && e2 == e && final(self)@ == old(self)@,
            },
    {
        proof {
            use_type_invariant(&*self);
        }
        let ghost es = pending_entries(self.pending@);
        match find_key(&self.pending, &key) {
            None => {
                proof {
                    lemma_last_wins_dom(es, key@);
                    if exists|i: int| 0 <= i < es.len() && es[i].0 == key@ {
                        let i = choose|i: int| 0 <= i < es.len() && es[i].0 == key@;
                        assert(es[i].0 == self.pending@[i].0@);
                    }
                }
                Err(DispatchError::UnknownRetrieval)
            },
            Some(j) => {
                proof {
                    assert(es[j as int].0 == key@);
                    lemma_last_wins_at(es, j as int);
                    lemma_last_wins_remove(es, j as int);
                }
                let mut pending: Vec<(Vec<u8>, Vec<SubscriberId>)> = Vec::new();
                std::mem::swap(&mut pending, &mut self.pending);
                let (_k, ids) = pending.remove(j);
                proof {
                    assert(pending_entries(pending@) =~= es.remove(j as int));
                    let r = es.remove(j as int);
                    assert forall|a: int, b: int| 0 <= a < b < r.len() implies r[a].0 != r[b].0 by {
                        if a < j {
                            if b < j {
                            } else {
                                assert(r[b] == es[b + 1]);
                            }
                        } else {
                            assert(r[a] == es[a + 1]);
                            assert(r[b] == es[b + 1]);
                        }
                    }
                }
                self.pending = pending;
                let ghost want = ids@.map_values(|id: u64| GossipActionView::Deliver(id, key@, value@));
                let mut acts: Vec<GossipAction> = Vec::new();
                let mut i: usize = 0;
                while i < ids.len()
                    invariant
                        0 <= i <= ids.len(),
                        want == ids@.map_values(|id: u64| GossipActionView::Deliver(id, key@, value@)),
                        actions_view(acts@) == want.take(i as int),
                    decreases ids.len() - i,
                {
                    let ghost before = acts@;
                    let kc = copy_bytes(&key);
                    let vc = copy_bytes(&value);
                    acts.push(GossipAction::Deliver(ids[i], kc, vc));
                    proof {
                        assert(acts@ == before.push(GossipAction::Deliver(ids@[i as int], kc, vc)));
                        assert(want[i as int] == GossipActionView::Deliver(ids@[i as int], key@, value@));
                        assert(actions_view(acts@) =~= actions_view(before).push(want[i as int]));
                        assert(want.take(i + 1) =~= want.take(i as int).push(want[i as int]));
                    }
                    i = i + 1;
                }
                proof {
                    assert(want.take(i as int) =~= want);
                }
                Ok(acts)
            },
        }
    }
}

// ---------------------------------------------------------------------------
// Laws of the dispatcher.

/// What a node publishes on a topic that it subscribed to reaches, as the same
/// (key, value) pair, its own subscriber, and the subscriber of that topic at
/// every node that receives the broadcast bytes. (The bytes read back as the
/// pair: `kv_serialize` states so of what it writes.)
pub proof fn lemma_published_pair_delivered(
    sender: DispatcherView,
    receiver: DispatcherView,
    topic: Seq<char>,
    key: Seq<u8>,
    value: Seq<u8>,
    ephemeral: bool,
)
    requires
        sender.subscriptions.contains_key(topic),
        receiver.subscriptions.contains_key(topic),
        kv_decoding(kv_encoding(key, value)) == Some((key, value)),
    ensures
        command_spec(sender, GossipCmdView::Publish(topic, key, value, ephemeral)) matches Ok((s, a))
            && s == sender
            && a.contains(GossipActionView::Broadcast(topic, kv_encoding(key, value)))
            && a.last() == GossipActionView::Deliver(sender.subscriptions[topic], key, value),
        message_spec(receiver, topic, kv_decoding(kv_encoding(key, value))) == Ok::<Seq<GossipActionView>, DispatchError>(
            seq![GossipActionView::Deliver(receiver.subscriptions[topic], key, value)],
        ),
{
    let store = if ephemeral { Seq::<GossipActionView>::empty() } else { seq![GossipActionView::PutRecord(key, value)] };
    let a = store + seq![
        GossipActionView::Broadcast(topic, kv_encoding(key, value)),
        GossipActionView::Deliver(sender.subscriptions[topic], key, value),
    ];
    assert(a[store.len() as int] == GossipActionView::Broadcast(topic, kv_encoding(key, value)));
}

/// The latest subscriber of a topic is the one that its publications reach.
pub proof fn lemma_latest_subscriber_served(
    s: DispatcherView,
    topic: Seq<char>,
    id: u64,
    key: Seq<u8>,
    value: Seq<u8>,
    ephemeral: bool,
)
    ensures
        command_spec(s, GossipCmdView::Subscribe(topic, id)) matches Ok((s1, _)) && command_spec(
            s1,
            GossipCmdView::Publish(topic, key, value, ephemeral),
        ) matches Ok((s2, a)) && s2 == s1 && a.last() == GossipActionView::Deliver(id, key, value),
{
}

/// A retrieval is answered once: the first record found for the key goes to
/// each who asked for it, the latest requester last, and a second record for
/// the same key is refused.
pub proof fn lemma_retrieval_answered_once(
    s: DispatcherView,
    key: Seq<u8>,
    id: u64,
    value: Seq<u8>,
    later_value: Seq<u8>,
)
    ensures
        command_spec(s, GossipCmdView::Retrieve(key, id)) matches Ok((s1, _)) && record_spec(s1, key, value)
            matches Ok((s2, a)) && a == waiting_for(s, key).push(id).map_values(
            |x: u64| GossipActionView::Deliver(x, key, value),
        ) && a.last() == GossipActionView::Deliver(id, key, value) && record_spec(s2, key, later_value)
            == Err::<(DispatcherView, Seq<GossipActionView>), DispatchError>(DispatchError::UnknownRetrieval),
{
    let w = waiting_for(s, key).push(id);
    let a = w.map_values(|x: u64| GossipActionView::Deliver(x, key, value));
    assert(a[a.len() - 1] == GossipActionView::Deliver(w[w.len() - 1], key, value));
}

} // verus!
