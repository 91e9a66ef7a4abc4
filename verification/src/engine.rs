//! Overlay event-loop state machine.
//!
//! The engine owns all mutable overlay state — the peer registry, the set of
//! mesh subscriptions, the digests of payloads already surfaced, and the
//! bootstrap flag — and is driven one event at a time. `handle_event` is a
//! pure state transition: for every transport or protocol event it returns
//! the routing actions the transport should perform and the events to hand
//! the application, exactly as given by `spec_step`. The surrounding
//! asynchronous loop performs the actions and feeds the next event back in;
//! it never touches the state itself.

use vstd::prelude::*;

use crate::codec::{deserialize_message, spec_deserialize};
use crate::digest::{payload_digest, spec_payload_digest};
use crate::registry::{
    clone_string, clone_string_vec, lemma_find_at, lemma_find_none, lemma_find_none_inv,
    lemma_find_valid, registry_wf, spec_find, spec_max_u64, spec_merge_addrs, PeerRegistry,
    vec_contains_string,
};
use crate::topics::{spec_broadcast_topic, spec_delivers, spec_direct_topic, subscription_topics};
use crate::types::{
    strings_view, ChatMessageView, NetworkEvent, NetworkEventView, PeerInfo, PeerInfoView,
};

verus! {

/// What the transport and the sub-protocols report into the event loop.
#[derive(Debug, Clone)]
pub enum TransportEvent {
    NewListenAddr(String),
    ConnectionEstablished { peer_id: String },
    ConnectionClosed { peer_id: String },
    IncomingConnection,
    OutgoingConnectionError { peer_id: Option<String> },
    IncomingConnectionError,
    BootstrapRoundOk,
    BootstrapRoundFailed,
    RoutingUpdated { peer_id: String },
    PingResult { peer_id: String, ok: bool },
    IdentifyReceived { peer_id: String, protocol_version: String, listen_addrs: Vec<String> },
    GossipMessage { topic: String, payload: String },
}

/// Ghost image of a `TransportEvent`.
#[verifier::ext_equal]
pub enum TransportEventView {
    NewListenAddr(Seq<char>),
    ConnectionEstablished { peer_id: Seq<char> },
    ConnectionClosed { peer_id: Seq<char> },
    IncomingConnection,
    OutgoingConnectionError { peer_id: Option<Seq<char>> },
    IncomingConnectionError,
    BootstrapRoundOk,
    BootstrapRoundFailed,
    RoutingUpdated { peer_id: Seq<char> },
    PingResult { peer_id: Seq<char>, ok: bool },
    IdentifyReceived {
        peer_id: Seq<char>,
        protocol_version: Seq<char>,
        listen_addrs: Seq<Seq<char>>,
    },
    GossipMessage { topic: Seq<char>, payload: Seq<char> },
}

impl View for TransportEvent {
    type V = TransportEventView;

    open spec fn view(&self) -> TransportEventView {
        match self {
            TransportEvent::NewListenAddr(a) => TransportEventView::NewListenAddr(a@),
            TransportEvent::ConnectionEstablished { peer_id } => {
                TransportEventView::ConnectionEstablished { peer_id: peer_id@ }
            },
            TransportEvent::ConnectionClosed { peer_id } => {
                TransportEventView::ConnectionClosed { peer_id: peer_id@ }
            },
            TransportEvent::IncomingConnection => TransportEventView::IncomingConnection,
            TransportEvent::OutgoingConnectionError { peer_id } => {
                TransportEventView::OutgoingConnectionError {
                    peer_id: match peer_id {
                        Some(p) => Some(p@),
                        None => None,
                    },
                }
            },
            TransportEvent::IncomingConnectionError => TransportEventView::IncomingConnectionError,
            TransportEvent::BootstrapRoundOk => TransportEventView::BootstrapRoundOk,
            TransportEvent::BootstrapRoundFailed => TransportEventView::BootstrapRoundFailed,
            TransportEvent::RoutingUpdated { peer_id } => TransportEventView::RoutingUpdated {
                peer_id: peer_id@,
            },
            TransportEvent::PingResult { peer_id, ok } => TransportEventView::PingResult {
                peer_id: peer_id@,
                ok: *ok,
            },
            TransportEvent::IdentifyReceived { peer_id, protocol_version, listen_addrs } => {
                TransportEventView::IdentifyReceived {
                    peer_id: peer_id@,
                    protocol_version: protocol_version@,
                    listen_addrs: strings_view(listen_addrs@),
                }
            },
            TransportEvent::GossipMessage { topic, payload } => {
                TransportEventView::GossipMessage { topic: topic@, payload: payload@ }
            },
        }
    }
}

/// What the engine asks the transport to do in response to an event.
#[derive(Debug, Clone)]
pub enum NetAction {
    AddRoutingAddress { peer_id: String, address: String },
}

/// Ghost image of a `NetAction`.
#[verifier::ext_equal]
pub enum NetActionView {
    AddRoutingAddress { peer_id: Seq<char>, address: Seq<char> },
}

impl View for NetAction {
    type V = NetActionView;

    open spec fn view(&self) -> NetActionView {
        match self {
            NetAction::AddRoutingAddress { peer_id, address } => {
                NetActionView::AddRoutingAddress { peer_id: peer_id@, address: address@ }
            },
        }
    }
}

/// The ghost images of a vector of actions.
pub open spec fn actions_view(v: Seq<NetAction>) -> Seq<NetActionView> {
    Seq::new(v.len(), |i: int| v[i]@)
}

/// The ghost images of a vector of events.
pub open spec fn events_view(v: Seq<NetworkEvent>) -> Seq<NetworkEventView> {
    Seq::new(v.len(), |i: int| v[i]@)
}

/// Ghost image of the whole engine state.
#[verifier::ext_equal]
pub struct EngineView {
    pub local_peer_id: Seq<char>,
    pub expected_protocol: Seq<char>,
    pub registry: Seq<PeerInfoView>,
    pub seen: Seq<u64>,
    pub subs: Seq<Seq<char>>,
    pub bootstrap_signaled: bool,
}

/// The engine state is well formed: no peer is registered twice and the
/// local peer never has an entry of its own.
pub open spec fn spec_wf(s: EngineView) -> bool {
    &&& registry_wf(s.registry)
    &&& spec_find(s.registry, s.local_peer_id) == -1
}

/// The transition function of the event loop: from a state and one event to
/// the next state, the routing actions to perform, and the events to hand
/// the application.
pub open spec fn spec_step(s: EngineView, e: TransportEventView, now: u64) -> (
    EngineView,
    Seq<NetActionView>,
    Seq<NetworkEventView>,
) {
    match e {
        TransportEventView::ConnectionEstablished { peer_id } => {
            // A connection report for the local peer itself is ignored: the
            // registry never holds an entry for the local peer.
            if peer_id == s.local_peer_id {
                (s, Seq::empty(), Seq::empty())
            } else {
                let reg = if spec_find(s.registry, peer_id) != -1 {
                    s.registry
                } else {
                    s.registry.push(
                        PeerInfoView { peer_id, addresses: Seq::empty(), last_seen: now },
                    )
                };
                (
                    EngineView { registry: reg, ..s },
                    Seq::empty(),
                    seq![NetworkEventView::PeerConnected(peer_id)],
                )
            }
        },
        TransportEventView::ConnectionClosed { peer_id } => {
            let k = spec_find(s.registry, peer_id);
            let reg = if k == -1 {
                s.registry
            } else {
                s.registry.remove(k)
            };
            (
                EngineView { registry: reg, ..s },
                Seq::empty(),
                seq![NetworkEventView::PeerDisconnected(peer_id)],
            )
        },
        TransportEventView::BootstrapRoundOk => {
            if s.bootstrap_signaled {
                (s, Seq::empty(), Seq::empty())
            } else {
                (
                    EngineView { bootstrap_signaled: true, ..s },
                    Seq::empty(),
                    seq![NetworkEventView::DhtBootstrapped],
                )
            }
        },
        TransportEventView::IdentifyReceived { peer_id, protocol_version, listen_addrs } => {
            if protocol_version != s.expected_protocol || peer_id == s.local_peer_id {
                (s, Seq::empty(), Seq::empty())
            } else {
                let k = spec_find(s.registry, peer_id);
                let entry = if k == -1 {
                    PeerInfoView {
                        peer_id,
                        addresses: spec_merge_addrs(Seq::empty(), listen_addrs),
                        last_seen: now,
                    }
                } else {
                    PeerInfoView {
                        peer_id,
                        addresses: spec_merge_addrs(s.registry[k].addresses, listen_addrs),
                        last_seen: spec_max_u64(s.registry[k].last_seen, now),
                    }
                };
                let reg = if k == -1 {
                    s.registry.push(entry)
                } else {
                    s.registry.update(k, entry)
                };
                let actions = Seq::new(
                    listen_addrs.len(),
                    |i: int| NetActionView::AddRoutingAddress { peer_id, address: listen_addrs[i] },
                );
                (
                    EngineView { registry: reg, ..s },
                    actions,
                    seq![NetworkEventView::PeerDiscovered(entry)],
                )
            }
        },
        TransportEventView::GossipMessage { topic, payload } => {
            if !spec_delivers(s.subs, topic) {
                (s, Seq::empty(), Seq::empty())
            } else {
                let d = spec_payload_digest(payload);
                if s.seen.contains(d) {
                    (s, Seq::empty(), Seq::empty())
                } else {
                    let s2 = EngineView { seen: s.seen.push(d), ..s };
                    match spec_deserialize(payload) {
                        Some(m) => (
                            s2,
                            Seq::empty(),
                            seq![NetworkEventView::MessageReceived(m)],
                        ),
                        None => (s2, Seq::empty(), Seq::empty()),
                    }
                }
            }
        },
        _ => (s, Seq::empty(), Seq::empty()),
    }
}

/// The engine: all mutable overlay state, driven one event at a time.
#[derive(Debug)]
pub struct OverlayEngine {
    local_peer_id: String,
    expected_protocol: String,
    registry: PeerRegistry,
    seen: Vec<u64>,
    subscriptions: Vec<String>,
    bootstrap_signaled: bool,
}

impl View for OverlayEngine {
    type V = EngineView;

    closed spec fn view(&self) -> EngineView {
        EngineView {
            local_peer_id: self.local_peer_id@,
            expected_protocol: self.expected_protocol@,
            registry: self.registry@,
            seen: self.seen@,
            subs: strings_view(self.subscriptions@),
            bootstrap_signaled: self.bootstrap_signaled,
        }
    }
}

/// Whether `x` occurs in `v`.
fn vec_contains_u64(v: &Vec<u64>, x: u64) -> (r: bool)
    ensures
        r == v@.contains(x),
{
    let n = v.len();
    let mut i: usize = 0;
    while i < n
        invariant
            n == v@.len(),
            i <= n,
            forall|j: int| 0 <= j < i ==> v@[j] != x,
        decreases n - i,
    {
        if v[i] == x {
            assert(v@[i as int] == x);
            return true;
        }
        i = i + 1;
    }
    assert(!v@.contains(x));
    false
}

impl OverlayEngine {
    /// A fresh engine for the peer with the given identifier. Nothing is
    /// registered, subscribed, seen or signaled yet; peers announcing a
    /// protocol version other than `/p2p-chat/1.0.0` will be ignored.
    pub fn new(local_peer_id: String) -> (r: OverlayEngine)
        ensures
            r@.local_peer_id == local_peer_id@,
            r@.expected_protocol == "/p2p-chat/1.0.0"@,
            r@.registry =~= Seq::<PeerInfoView>::empty(),
            r@.seen =~= Seq::<u64>::empty(),
            r@.subs =~= Seq::<Seq<char>>::empty(),
            !r@.bootstrap_signaled,
            spec_wf(r@),
    {
        let r = OverlayEngine {
            local_peer_id,
            expected_protocol: String::from_str("/p2p-chat/1.0.0"),
            registry: PeerRegistry::new(),
            seen: Vec::new(),
            subscriptions: Vec::new(),
            bootstrap_signaled: false,
        };
        proof {
            assert(r@.registry =~= Seq::<PeerInfoView>::empty());
            assert(r@.subs =~= Seq::<Seq<char>>::empty());
        }
        r
    }

    /// The identifier of the local peer.
    pub fn local_peer_id(&self) -> (r: &String)
        ensures
            r@ == self@.local_peer_id,
    {
        &self.local_peer_id
    }

    /// Subscribe to the chat topics: the shared broadcast topic and this
    /// peer's own private topic. Idempotent: the subscription set afterwards
    /// is those two topics, however often this is called. Returns the topics
    /// for the mesh layer to subscribe to.
    pub fn subscribe_to_chat(&mut self) -> (topics: Vec<String>)
        ensures
            final(self)@ == (EngineView {
                subs: seq![
                    spec_broadcast_topic(),
                    spec_direct_topic(old(self)@.local_peer_id),
                ],
                ..old(self)@
            }),
            topics@.len() == 2,
            topics@[0]@ == spec_broadcast_topic(),
            topics@[1]@ == spec_direct_topic(old(self)@.local_peer_id),
    {
        let topics = subscription_topics(&self.local_peer_id);
        self.subscriptions = clone_string_vec(&topics);
        proof {
            assert(strings_view(self.subscriptions@) =~= seq![
                spec_broadcast_topic(),
                spec_direct_topic(old(self)@.local_peer_id),
            ]);
            assert(self@ =~= (EngineView {
                subs: seq![
                    spec_broadcast_topic(),
                    spec_direct_topic(old(self)@.local_peer_id),
                ],
                ..old(self)@
            }));
        }
        topics
    }

    /// A snapshot of the peer registry, in insertion order.
    pub fn get_peer_list(&self) -> (r: Vec<PeerInfo>)
        ensures
            r@.len() == self@.registry.len(),
            forall|i: int| 0 <= i < r@.len() ==> (#[trigger] r@[i])@ == self@.registry[i],
    {
        self.registry.snapshot()
    }

    /// Drive the event loop one step: dispatch a single transport or
    /// protocol event against the state, exactly as `spec_step` says.
    pub fn handle_event(&mut self, event: TransportEvent, now: u64) -> (r: (
        Vec<NetAction>,
        Vec<NetworkEvent>,
    ))
        requires
            spec_wf(old(self)@),
        ensures
            spec_wf(final(self)@),
            final(self)@ == spec_step(old(self)@, event@, now).0,
            actions_view(r.0@) == spec_step(old(self)@, event@, now).1,
            events_view(r.1@) == spec_step(old(self)@, event@, now).2,
    {
        let mut actions: Vec<NetAction> = Vec::new();
        let mut events: Vec<NetworkEvent> = Vec::new();
        match event {
            TransportEvent::ConnectionEstablished { peer_id } => {
                if peer_id == self.local_peer_id {
                    proof {
                        assert(actions_view(actions@) =~= Seq::<NetActionView>::empty());
                        assert(events_view(events@) =~= Seq::<NetworkEventView>::empty());
                    }
                } else {
                    if !self.registry.contains(&peer_id) {
                        let empty_addrs: Vec<String> = Vec::new();
                        proof {
                            lemma_find_none_inv(old(self)@.registry, peer_id@);
                        }
                        self.registry.upsert(&peer_id, &empty_addrs, now);
                        proof {
                            assert(strings_view(Seq::<String>::empty()) =~= Seq::<
                                Seq<char>,
                            >::empty());
                            assert(self.registry@ =~= old(self)@.registry.push(
                                PeerInfoView {
                                    peer_id: peer_id@,
                                    addresses: Seq::empty(),
                                    last_seen: now,
                                },
                            ));
                            lemma_find_none_inv(old(self)@.registry, old(self)@.local_peer_id);
                            assert(peer_id@ != old(self)@.local_peer_id);
                            lemma_find_none(self.registry@, old(self)@.local_peer_id);
                        }
                    }
                    events.push(NetworkEvent::PeerConnected(peer_id));
                    proof {
                        assert(actions_view(actions@) =~= Seq::<NetActionView>::empty());
                        assert(events_view(events@) =~= seq![
                            NetworkEventView::PeerConnected(event@->ConnectionEstablished_peer_id),
                        ]);
                        assert(self@ =~= spec_step(old(self)@, event@, now).0);
                    }
                }
            },
            TransportEvent::ConnectionClosed { peer_id } => {
                proof {
                    if spec_find(old(self)@.registry, peer_id@) != -1 {
                        lemma_find_valid(old(self)@.registry, peer_id@);
                    }
                }
                self.registry.remove(&peer_id);
                proof {
                    if spec_find(old(self)@.registry, old(self)@.local_peer_id) == -1 {
                        lemma_find_none_inv(old(self)@.registry, old(self)@.local_peer_id);
                        lemma_find_none(self.registry@, old(self)@.local_peer_id);
                    }
                }
                events.push(NetworkEvent::PeerDisconnected(peer_id));
                proof {
                    assert(actions_view(actions@) =~= Seq::<NetActionView>::empty());
                    assert(events_view(events@) =~= seq![
                        NetworkEventView::PeerDisconnected(event@->ConnectionClosed_peer_id),
                    ]);
                    assert(self@ =~= spec_step(old(self)@, event@, now).0);
                }
            },
            TransportEvent::BootstrapRoundOk => {
                if !self.bootstrap_signaled {
                    self.bootstrap_signaled = true;
                    events.push(NetworkEvent::DhtBootstrapped);
                    proof {
                        assert(events_view(events@) =~= seq![NetworkEventView::DhtBootstrapped]);
                        assert(self@ =~= spec_step(old(self)@, event@, now).0);
                    }
                }
                proof {
                    assert(actions_view(actions@) =~= Seq::<NetActionView>::empty());
                    if old(self)@.bootstrap_signaled {
                        assert(events_view(events@) =~= Seq::<NetworkEventView>::empty());
                    }
                }
            },
            TransportEvent::IdentifyReceived { peer_id, protocol_version, listen_addrs } => {
                if protocol_version == self.expected_protocol && !(peer_id
                    == self.local_peer_id) {
                    proof {
                        if spec_find(old(self)@.registry, peer_id@) != -1 {
                            lemma_find_valid(old(self)@.registry, peer_id@);
                        } else {
                            lemma_find_none_inv(old(self)@.registry, peer_id@);
                        }
                    }
                    self.registry.upsert(&peer_id, &listen_addrs, now);
                    proof {
                        let k = spec_find(old(self)@.registry, peer_id@);
                        assert(strings_view(Seq::<String>::empty()) =~= Seq::<Seq<char>>::empty());
                        if k == -1 {
                            lemma_find_at(
                                self.registry@,
                                peer_id@,
                                old(self)@.registry.len() as int,
                            );
                        } else {
                            assert(forall|j: int|
                                0 <= j < self.registry@.len() ==> (
                                #[trigger] self.registry@[j]).peer_id == old(
                                    self,
                                )@.registry[j].peer_id);
                            lemma_find_at(self.registry@, peer_id@, k);
                        }
                        lemma_find_none_inv(old(self)@.registry, old(self)@.local_peer_id);
                        lemma_find_none(self.registry@, old(self)@.local_peer_id);
                    }
                    let info = self.registry.get_info(&peer_id).unwrap();
                    let n = listen_addrs.len();
                    let mut i: usize = 0;
                    while i < n
                        invariant
                            n == listen_addrs@.len(),
                            i <= n,
                            actions@.len() == i,
                            forall|j: int|
                                0 <= j < i ==> (#[trigger] actions@[j])@
                                    == (NetActionView::AddRoutingAddress {
                                    peer_id: peer_id@,
                                    address: listen_addrs@[j]@,
                                }),
                        decreases n - i,
                    {
                        actions.push(
                            NetAction::AddRoutingAddress {
                                peer_id: clone_string(&peer_id),
                                address: clone_string(&listen_addrs[i]),
                            },
                        );
                        i = i + 1;
                    }
                    events.push(NetworkEvent::PeerDiscovered(info));
                    proof {
                        let step = spec_step(old(self)@, event@, now);
                        assert(self@.registry =~= step.0.registry);
                        assert(self@ =~= step.0);
                        assert(actions_view(actions@) =~= step.1);
                        assert(events_view(events@) =~= step.2);
                    }
                } else {
                    proof {
                        assert(actions_view(actions@) =~= Seq::<NetActionView>::empty());
                        assert(events_view(events@) =~= Seq::<NetworkEventView>::empty());
                    }
                }
            },
            TransportEvent::GossipMessage { topic, payload } => {
                if vec_contains_string(&self.subscriptions, &topic) {
                    let d = payload_digest(payload.as_str());
                    if !vec_contains_u64(&self.seen, d) {
                        self.seen.push(d);
                        match deserialize_message(payload.as_str()) {
                            Some(m) => {
                                events.push(NetworkEvent::MessageReceived(m));
                                proof {
                                    assert(events_view(events@) =~= seq![
                                        NetworkEventView::MessageReceived(
                                            spec_deserialize(payload@)->Some_0,
                                        ),
                                    ]);
                                    assert(self@ =~= spec_step(old(self)@, event@, now).0);
                                }
                            },
                            None => {
                                proof {
                                    assert(events_view(events@) =~= Seq::<
                                        NetworkEventView,
                                    >::empty());
                                    assert(self@ =~= spec_step(old(self)@, event@, now).0);
                                }
                            },
                        }
                    } else {
                        proof {
                            assert(events_view(events@) =~= Seq::<NetworkEventView>::empty());
                        }
                    }
                } else {
                    proof {
                        assert(events_view(events@) =~= Seq::<NetworkEventView>::empty());
                    }
                }
                proof {
                    assert(actions_view(actions@) =~= Seq::<NetActionView>::empty());
                }
            },
            _ => {
                proof {
                    assert(actions_view(actions@) =~= Seq::<NetActionView>::empty());
                    assert(events_view(events@) =~= Seq::<NetworkEventView>::empty());
                }
            },
        }
        (actions, events)
    }
}

} // verus!
