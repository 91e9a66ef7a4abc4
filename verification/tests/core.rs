//! Tests of the chat overlay core: the wire codec, the registry, the event
//! loop, the command bridge, identity, bootstrap planning and input parsing.

use chat_core::bootstrap::{plan_bootstrap, BootstrapAction};
use chat_core::bridge::CommandAction;
use chat_core::codec::{deserialize_message, serialize_message};
use chat_core::digest::payload_digest;
use chat_core::engine::{NetAction, OverlayEngine, TransportEvent};
use chat_core::identity::{load_identity, IdentityError};
use chat_core::init;
use chat_core::input::{parse_input, InputAction};
use chat_core::registry::PeerRegistry;
use chat_core::topics::{broadcast_topic, direct_topic};
use chat_core::types::{
    ChatCommand, ChatMessage, DhtConfig, MessageType, NetworkConfig, NetworkEvent,
};

#[test]
fn test_init() {
    assert!(init().is_ok());
}

fn sample_message() -> ChatMessage {
    ChatMessage {
        id: String::from("d9428888-122b-11e1-b85c-61cd3cbb3210"),
        sender: String::from("alice"),
        content: String::from("hello, world"),
        timestamp: 1700000000,
        message_type: MessageType::Broadcast,
    }
}

#[test]
fn serialize_broadcast_exact() {
    let m = sample_message();
    let s = serialize_message(&m);
    assert_eq!(
        s,
        "{\"id\":\"d9428888-122b-11e1-b85c-61cd3cbb3210\",\"sender\":\"alice\",\
         \"content\":\"hello, world\",\"timestamp\":1700000000,\"message_type\":\"Broadcast\"}"
    );
}

#[test]
fn serialize_direct_exact() {
    let m = ChatMessage {
        id: String::from("x"),
        sender: String::from("bob"),
        content: String::from("hi"),
        timestamp: 7,
        message_type: MessageType::Direct {
            target_peer_id: String::from("peerX"),
        },
    };
    let s = serialize_message(&m);
    assert_eq!(
        s,
        "{\"id\":\"x\",\"sender\":\"bob\",\"content\":\"hi\",\"timestamp\":7,\
         \"message_type\":{\"Direct\":{\"target_peer_id\":\"peerX\"}}}"
    );
}

#[test]
fn round_trip_broadcast() {
    let m = sample_message();
    let s = serialize_message(&m);
    let back = deserialize_message(&s).expect("canonical encoding must parse");
    assert_eq!(back.id, m.id);
    assert_eq!(back.sender, m.sender);
    assert_eq!(back.content, m.content);
    assert_eq!(back.timestamp, m.timestamp);
    assert!(matches!(back.message_type, MessageType::Broadcast));
}

#[test]
fn round_trip_direct_with_escapes() {
    let m = ChatMessage {
        id: String::from("id-1"),
        sender: String::from("we\"ird\\name"),
        content: String::from("line1\nline2\ttabbed \u{1} control \u{7f} and unicode: héllo ✓"),
        timestamp: u64::MAX,
        message_type: MessageType::Direct {
            target_peer_id: String::from("12D3KooWTarget"),
        },
    };
    let s = serialize_message(&m);
    let back = deserialize_message(&s).expect("canonical encoding must parse");
    assert_eq!(back.id, m.id);
    assert_eq!(back.sender, m.sender);
    assert_eq!(back.content, m.content);
    assert_eq!(back.timestamp, m.timestamp);
    match back.message_type {
        MessageType::Direct { target_peer_id } => assert_eq!(target_peer_id, "12D3KooWTarget"),
        _ => panic!("expected a direct message"),
    }
}

#[test]
fn serialized_form_is_json_serde_agrees() {
    let m = ChatMessage {
        id: String::from("abc"),
        sender: String::from("a \"quoted\" name"),
        content: String::from("tab\there\nand newline"),
        timestamp: 42,
        message_type: MessageType::Broadcast,
    };
    let s = serialize_message(&m);
    let v: serde_json::Value = serde_json::from_str(&s).expect("output must be valid JSON");
    assert_eq!(v["id"].as_str().unwrap(), "abc");
    assert_eq!(v["sender"].as_str().unwrap(), "a \"quoted\" name");
    assert_eq!(v["content"].as_str().unwrap(), "tab\there\nand newline");
    assert_eq!(v["timestamp"].as_u64().unwrap(), 42);
    assert_eq!(v["message_type"].as_str().unwrap(), "Broadcast");
}

#[test]
fn deserialize_rejects_noise() {
    assert!(deserialize_message("").is_none());
    assert!(deserialize_message("not json at all").is_none());
    assert!(deserialize_message("{\"id\":\"a\"}").is_none());
    assert!(deserialize_message("[1,2,3]").is_none());
    // trailing garbage is refused: the encoding must be read in full
    let mut s = serialize_message(&sample_message());
    s.push(' ');
    assert!(deserialize_message(&s).is_none());
}

#[test]
fn digest_is_of_payload_bytes() {
    // FNV-1a 64-bit reference values
    assert_eq!(payload_digest(""), 0xcbf29ce484222325);
    assert_eq!(payload_digest("a"), 0xaf63dc4c8601ec8c);
    assert_eq!(payload_digest("hello"), payload_digest("hello"));
    assert_ne!(payload_digest("hello"), payload_digest("hello!"));
}

#[test]
fn registry_upsert_merge_and_order() {
    let mut reg = PeerRegistry::new();
    reg.upsert(&String::from("p1"), &vec![String::from("/ip4/1.1.1.1/tcp/1")], 10);
    reg.upsert(&String::from("p2"), &vec![String::from("/ip4/2.2.2.2/tcp/2")], 11);
    reg.upsert(
        &String::from("p1"),
        &vec![String::from("/ip4/1.1.1.1/tcp/1"), String::from("/ip4/9.9.9.9/tcp/9")],
        12,
    );
    let snap = reg.snapshot();
    assert_eq!(snap.len(), 2);
    // insertion order is kept
    assert_eq!(snap[0].peer_id, "p1");
    assert_eq!(snap[1].peer_id, "p2");
    // addresses merged without duplicates
    assert_eq!(
        snap[0].addresses,
        vec![String::from("/ip4/1.1.1.1/tcp/1"), String::from("/ip4/9.9.9.9/tcp/9")]
    );
    assert_eq!(snap[0].last_seen, 12);
}

#[test]
fn registry_last_seen_never_decreases() {
    let mut reg = PeerRegistry::new();
    reg.upsert(&String::from("p1"), &vec![], 100);
    reg.upsert(&String::from("p1"), &vec![], 50);
    let snap = reg.snapshot();
    assert_eq!(snap[0].last_seen, 100);
}

#[test]
fn registry_remove() {
    let mut reg = PeerRegistry::new();
    reg.upsert(&String::from("p1"), &vec![], 1);
    reg.upsert(&String::from("p2"), &vec![], 2);
    reg.remove(&String::from("p1"));
    assert!(!reg.contains(&String::from("p1")));
    assert!(reg.contains(&String::from("p2")));
    assert_eq!(reg.len(), 1);
    let snap = reg.snapshot();
    assert_eq!(snap.len(), 1);
    assert_eq!(snap[0].peer_id, "p2");
}

fn events_of(r: (Vec<NetAction>, Vec<NetworkEvent>)) -> Vec<NetworkEvent> {
    r.1
}

#[test]
fn engine_connect_then_disconnect_clears_registry() {
    let mut eng = OverlayEngine::new(String::from("local"));
    let evs = events_of(eng.handle_event(
        TransportEvent::ConnectionEstablished { peer_id: String::from("remote") },
        5,
    ));
    assert_eq!(evs.len(), 1);
    assert!(matches!(&evs[0], NetworkEvent::PeerConnected(p) if p == "remote"));
    assert_eq!(eng.get_peer_list().len(), 1);

    let evs = events_of(eng.handle_event(
        TransportEvent::ConnectionClosed { peer_id: String::from("remote") },
        6,
    ));
    assert_eq!(evs.len(), 1);
    assert!(matches!(&evs[0], NetworkEvent::PeerDisconnected(p) if p == "remote"));
    assert_eq!(eng.get_peer_list().len(), 0);
}

#[test]
fn engine_bootstrap_signaled_exactly_once() {
    let mut eng = OverlayEngine::new(String::from("local"));
    let evs = events_of(eng.handle_event(TransportEvent::BootstrapRoundOk, 1));
    assert_eq!(evs.len(), 1);
    assert!(matches!(evs[0], NetworkEvent::DhtBootstrapped));
    let evs = events_of(eng.handle_event(TransportEvent::BootstrapRoundOk, 2));
    assert!(evs.is_empty());
}

#[test]
fn engine_bootstrap_failure_signals_nothing() {
    let mut eng = OverlayEngine::new(String::from("local"));
    let evs = events_of(eng.handle_event(TransportEvent::BootstrapRoundFailed, 1));
    assert!(evs.is_empty());
    // the engine keeps running: further events are still handled
    let evs = events_of(eng.handle_event(TransportEvent::BootstrapRoundOk, 2));
    assert_eq!(evs.len(), 1);
}

#[test]
fn engine_identify_feeds_registry_and_routing() {
    let mut eng = OverlayEngine::new(String::from("local"));
    let (actions, evs) = eng.handle_event(
        TransportEvent::IdentifyReceived {
            peer_id: String::from("remote"),
            protocol_version: String::from("/p2p-chat/1.0.0"),
            listen_addrs: vec![
                String::from("/ip4/7.7.7.7/tcp/7"),
                String::from("/ip4/8.8.8.8/tcp/8"),
            ],
        },
        9,
    );
    assert_eq!(actions.len(), 2);
    assert!(matches!(
        &actions[0],
        NetAction::AddRoutingAddress { peer_id, address }
            if peer_id == "remote" && address == "/ip4/7.7.7.7/tcp/7"
    ));
    assert_eq!(evs.len(), 1);
    match &evs[0] {
        NetworkEvent::PeerDiscovered(info) => {
            assert_eq!(info.peer_id, "remote");
            assert_eq!(info.addresses.len(), 2);
            assert_eq!(info.last_seen, 9);
        }
        _ => panic!("expected PeerDiscovered"),
    }
    assert_eq!(eng.get_peer_list().len(), 1);
}

#[test]
fn engine_identify_rejects_incompatible_version() {
    let mut eng = OverlayEngine::new(String::from("local"));
    let (actions, evs) = eng.handle_event(
        TransportEvent::IdentifyReceived {
            peer_id: String::from("remote"),
            protocol_version: String::from("/other-protocol/9.9.9"),
            listen_addrs: vec![String::from("/ip4/7.7.7.7/tcp/7")],
        },
        9,
    );
    assert!(actions.is_empty());
    assert!(evs.is_empty());
    assert_eq!(eng.get_peer_list().len(), 0);
}

#[test]
fn engine_dedup_is_payload_based_not_id_based() {
    let mut eng = OverlayEngine::new(String::from("local"));
    eng.subscribe_to_chat();
    let chat = broadcast_topic();

    let m1 = sample_message();
    let payload = serialize_message(&m1);

    // the same payload twice: surfaced at most once
    let evs = events_of(eng.handle_event(
        TransportEvent::GossipMessage { topic: chat.clone(), payload: payload.clone() },
        1,
    ));
    assert_eq!(evs.len(), 1);
    assert!(matches!(&evs[0], NetworkEvent::MessageReceived(m) if m.content == "hello, world"));
    let evs = events_of(eng.handle_event(
        TransportEvent::GossipMessage { topic: chat.clone(), payload: payload.clone() },
        2,
    ));
    assert!(evs.is_empty());

    // a different id with identical content: not deduplicated
    let mut m2 = sample_message();
    m2.id = String::from("another-id-entirely");
    let payload2 = serialize_message(&m2);
    let evs = events_of(eng.handle_event(
        TransportEvent::GossipMessage { topic: chat.clone(), payload: payload2 },
        3,
    ));
    assert_eq!(evs.len(), 1);
    assert!(matches!(&evs[0], NetworkEvent::MessageReceived(m) if m.content == "hello, world"));
}

#[test]
fn engine_drops_malformed_payload_silently() {
    let mut eng = OverlayEngine::new(String::from("local"));
    eng.subscribe_to_chat();
    let evs = events_of(eng.handle_event(
        TransportEvent::GossipMessage {
            topic: broadcast_topic(),
            payload: String::from("{malformed"),
        },
        1,
    ));
    assert!(evs.is_empty());
    // the engine keeps working afterwards
    let payload = serialize_message(&sample_message());
    let evs = events_of(eng.handle_event(
        TransportEvent::GossipMessage { topic: broadcast_topic(), payload },
        2,
    ));
    assert_eq!(evs.len(), 1);
}

#[test]
fn engine_ignores_unsubscribed_topic() {
    let mut eng = OverlayEngine::new(String::from("local"));
    eng.subscribe_to_chat();
    let payload = serialize_message(&sample_message());
    let evs = events_of(eng.handle_event(
        TransportEvent::GossipMessage {
            topic: String::from("direct-someone-else"),
            payload,
        },
        1,
    ));
    assert!(evs.is_empty());
}

#[test]
fn bridge_broadcast_command() {
    let eng = OverlayEngine::new(String::from("local"));
    let action = eng.execute_command(
        &ChatCommand::SendBroadcast(String::from("hi")),
        &String::from("alice"),
        123,
    );
    match action {
        CommandAction::Publish { topic, payload } => {
            assert_eq!(topic, "chat");
            let m = deserialize_message(&payload).expect("published payload must round-trip");
            assert_eq!(m.sender, "alice");
            assert_eq!(m.content, "hi");
            assert_eq!(m.timestamp, 123);
            assert_eq!(m.id.len(), 36);
            assert!(matches!(m.message_type, MessageType::Broadcast));
        }
        _ => panic!("expected a publish"),
    }
}

#[test]
fn bridge_direct_command() {
    let eng = OverlayEngine::new(String::from("local"));
    let action = eng.execute_command(
        &ChatCommand::SendDirect {
            peer_id: String::from("peerB"),
            message: String::from("secret"),
        },
        &String::from("alice"),
        9,
    );
    match action {
        CommandAction::Publish { topic, payload } => {
            assert_eq!(topic, "direct-peerB");
            let m = deserialize_message(&payload).expect("published payload must round-trip");
            assert_eq!(m.content, "secret");
            match m.message_type {
                MessageType::Direct { target_peer_id } => assert_eq!(target_peer_id, "peerB"),
                _ => panic!("expected a direct message"),
            }
        }
        _ => panic!("expected a publish"),
    }
}

#[test]
fn bridge_list_peers_command() {
    let mut eng = OverlayEngine::new(String::from("local"));
    eng.handle_event(
        TransportEvent::ConnectionEstablished { peer_id: String::from("remote") },
        1,
    );
    let action = eng.execute_command(&ChatCommand::ListPeers, &String::from("alice"), 2);
    match action {
        CommandAction::EmitPeerList(ps) => {
            assert_eq!(ps.len(), 1);
            assert_eq!(ps[0].peer_id, "remote");
        }
        _ => panic!("expected a peer list"),
    }
}

/// Two nodes: A bootstraps towards B, connects, identifies, broadcasts;
/// B surfaces the message.
#[test]
fn scenario_broadcast_between_two_nodes() {
    let mut a = OverlayEngine::new(String::from("A"));
    let mut b = OverlayEngine::new(String::from("B"));
    a.subscribe_to_chat();
    b.subscribe_to_chat();

    // A observes the connection to B and B's identify info
    let evs = events_of(a.handle_event(
        TransportEvent::ConnectionEstablished { peer_id: String::from("B") },
        1,
    ));
    assert!(matches!(&evs[0], NetworkEvent::PeerConnected(p) if p == "B"));
    let (_, evs) = a.handle_event(
        TransportEvent::IdentifyReceived {
            peer_id: String::from("B"),
            protocol_version: String::from("/p2p-chat/1.0.0"),
            listen_addrs: vec![String::from("/ip4/10.0.0.2/tcp/4001")],
        },
        2,
    );
    assert!(matches!(&evs[0], NetworkEvent::PeerDiscovered(info) if info.peer_id == "B"));

    // A broadcasts; the mesh carries the payload to B
    let action = a.execute_command(
        &ChatCommand::SendBroadcast(String::from("hi")),
        &String::from("A"),
        3,
    );
    let (topic, payload) = match action {
        CommandAction::Publish { topic, payload } => (topic, payload),
        _ => panic!("expected a publish"),
    };
    assert_eq!(topic, "chat");
    let evs = events_of(b.handle_event(TransportEvent::GossipMessage { topic, payload }, 4));
    assert_eq!(evs.len(), 1);
    match &evs[0] {
        NetworkEvent::MessageReceived(m) => {
            assert_eq!(m.sender, "A");
            assert_eq!(m.content, "hi");
            assert!(matches!(m.message_type, MessageType::Broadcast));
        }
        _ => panic!("expected MessageReceived"),
    }
}

/// A direct message to B is surfaced by B and not by a third node C that
/// only holds its own subscriptions.
#[test]
fn scenario_direct_message_scoped_to_recipient() {
    let a = OverlayEngine::new(String::from("A"));
    let mut b = OverlayEngine::new(String::from("B"));
    let mut c = OverlayEngine::new(String::from("C"));
    b.subscribe_to_chat();
    c.subscribe_to_chat();

    let action = a.execute_command(
        &ChatCommand::SendDirect {
            peer_id: String::from("B"),
            message: String::from("secret"),
        },
        &String::from("A"),
        1,
    );
    let (topic, payload) = match action {
        CommandAction::Publish { topic, payload } => (topic, payload),
        _ => panic!("expected a publish"),
    };
    assert_eq!(topic, direct_topic(&String::from("B")));

    let evs = events_of(b.handle_event(
        TransportEvent::GossipMessage { topic: topic.clone(), payload: payload.clone() },
        2,
    ));
    assert_eq!(evs.len(), 1);
    match &evs[0] {
        NetworkEvent::MessageReceived(m) => {
            assert_eq!(m.content, "secret");
            match &m.message_type {
                MessageType::Direct { target_peer_id } => assert_eq!(target_peer_id, "B"),
                _ => panic!("expected a direct message"),
            }
        }
        _ => panic!("expected MessageReceived"),
    }

    let evs = events_of(c.handle_event(TransportEvent::GossipMessage { topic, payload }, 3));
    assert!(evs.is_empty());
}

#[test]
fn identity_stable_across_restarts() {
    // first start: no key file
    let (ident1, persist) = load_identity(None).expect("generation must succeed");
    let bytes = persist.expect("a fresh key must be handed back for persisting");
    assert_eq!(&bytes, ident1.key_encoding());

    // second start: the persisted bytes yield the same identifier
    let (ident2, persist2) = load_identity(Some(bytes)).expect("stored key must decode");
    assert!(persist2.is_none());
    assert_eq!(ident1.peer_id(), ident2.peer_id());

    // a fresh identity differs (with overwhelming probability)
    let (ident3, _) = load_identity(None).expect("generation must succeed");
    assert_ne!(ident1.peer_id(), ident3.peer_id());
}

#[test]
fn identity_corrupt_key_file_is_fatal() {
    let r = load_identity(Some(vec![0xde, 0xad, 0xbe, 0xef]));
    assert!(matches!(r, Err(IdentityError::CorruptKeyFile)));
}

#[test]
fn bootstrap_planning() {
    let default_cfg = DhtConfig::default();
    let mut addrs = default_cfg.bootstrap_nodes.clone();
    addrs.push(String::from("/ip4/1.2.3.4/tcp/4001"));
    addrs.push(String::from("not an address"));
    let plan = plan_bootstrap(&addrs);
    assert_eq!(plan.len(), 3);
    match &plan[0] {
        BootstrapAction::AddAndDial { peer_id, address } => {
            assert_eq!(peer_id, "12D3KooWBhv1RbRv26TNXM9sd99J3HAKM5ww2dET3EEaRMQ9HQeE");
            assert_eq!(address, &default_cfg.bootstrap_nodes[0]);
        }
        _ => panic!("the default bootstrap address embeds a peer id"),
    }
    assert!(matches!(&plan[1], BootstrapAction::DialOnly { address } if address == "/ip4/1.2.3.4/tcp/4001"));
    assert!(matches!(&plan[2], BootstrapAction::SkipInvalid { address } if address == "not an address"));
}

#[test]
fn network_config_defaults() {
    let cfg = NetworkConfig::default();
    assert_eq!(cfg.listen_port, 0);
    assert_eq!(cfg.key_file, "peer_key.dat");
    assert_eq!(cfg.dht_config.bootstrap_nodes.len(), 1);
    assert_eq!(cfg.dht_config.local_port, 0);
}

#[test]
fn topics_naming() {
    assert_eq!(broadcast_topic(), "chat");
    assert_eq!(direct_topic(&String::from("12D3KooWpeer")), "direct-12D3KooWpeer");
}

#[test]
fn input_parsing() {
    assert!(matches!(parse_input("quit"), InputAction::Quit));
    assert!(matches!(parse_input("  exit  "), InputAction::Quit));
    assert!(matches!(parse_input("/peers"), InputAction::ListPeers));
    assert!(matches!(parse_input("/list"), InputAction::ListPeers));
    match parse_input("/dm 12D3KooWpeer hello there") {
        InputAction::SendDirect { peer_id, message } => {
            assert_eq!(peer_id, "12D3KooWpeer");
            assert_eq!(message, "hello there");
        }
        _ => panic!("expected a direct send"),
    }
    assert!(matches!(parse_input("/dm lonelypeer"), InputAction::DmUsage));
    assert!(matches!(parse_input("/frobnicate"), InputAction::UnknownCommand));
    match parse_input("  just a message  ") {
        InputAction::Broadcast(text) => assert_eq!(text, "just a message"),
        _ => panic!("expected a broadcast"),
    }
    assert!(matches!(parse_input(""), InputAction::Nothing));
    assert!(matches!(parse_input("   "), InputAction::Nothing));
}
