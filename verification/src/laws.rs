//! Laws of the overlay, proved once and for all over the event-loop
//! transition function and the command bridge.

use vstd::prelude::*;

use crate::bridge::{spec_command_action, spec_message_for, CommandActionView};
use crate::codec::{lemma_serialize_deserialize, spec_deserialize, spec_serialize};
use crate::digest::spec_payload_digest;
use crate::engine::{spec_step, spec_wf, EngineView, TransportEventView};
use crate::registry::{
    lemma_entry_after_push, lemma_entry_after_remove, lemma_entry_after_update, lemma_find_at,
    lemma_find_none, lemma_find_none_inv, lemma_find_range, lemma_find_valid, registry_wf,
    spec_entry_of, spec_find,
};
use crate::topics::{
    lemma_direct_topic_not_broadcast, spec_broadcast_topic, spec_delivers, spec_direct_topic,
};
use crate::types::{ChatCommandView, ChatMessageView, MessageTypeView, NetworkEventView, PeerInfoView};

verus! {

/// Every step keeps the engine state well formed: no peer is registered
/// twice, and the local peer never gains an entry of its own.
pub proof fn lemma_step_preserves_wf(s: EngineView, e: TransportEventView, now: u64)
    requires
        spec_wf(s),
    ensures
        spec_wf(spec_step(s, e, now).0),
{
    let s2 = spec_step(s, e, now).0;
    match e {
        TransportEventView::ConnectionEstablished { peer_id } => {
            if peer_id != s.local_peer_id && spec_find(s.registry, peer_id) == -1 {
                lemma_find_none_inv(s.registry, peer_id);
                lemma_find_none_inv(s.registry, s.local_peer_id);
                assert(registry_wf(s2.registry));
                lemma_find_none(s2.registry, s.local_peer_id);
            }
        },
        TransportEventView::ConnectionClosed { peer_id } => {
            let k = spec_find(s.registry, peer_id);
            if k != -1 {
                lemma_find_valid(s.registry, peer_id);
                assert(forall|j: int|
                    0 <= j < s2.registry.len() ==> (#[trigger] s2.registry[j]) == if j < k {
                        s.registry[j]
                    } else {
                        s.registry[j + 1]
                    });
                assert(registry_wf(s2.registry));
                lemma_find_none_inv(s.registry, s.local_peer_id);
                lemma_find_none(s2.registry, s.local_peer_id);
            }
        },
        TransportEventView::IdentifyReceived { peer_id, protocol_version, listen_addrs } => {
            if protocol_version == s.expected_protocol && peer_id != s.local_peer_id {
                let k = spec_find(s.registry, peer_id);
                if k == -1 {
                    lemma_find_none_inv(s.registry, peer_id);
                    lemma_find_none_inv(s.registry, s.local_peer_id);
                    assert(registry_wf(s2.registry));
                    lemma_find_none(s2.registry, s.local_peer_id);
                } else {
                    lemma_find_valid(s.registry, peer_id);
                    assert(forall|j: int|
                        0 <= j < s2.registry.len() ==> (#[trigger] s2.registry[j]).peer_id
                            == s.registry[j].peer_id);
                    assert(registry_wf(s2.registry));
                    lemma_find_none_inv(s.registry, s.local_peer_id);
                    lemma_find_none(s2.registry, s.local_peer_id);
                }
            }
        },
        _ => {},
    }
}

/// `last_seen` only increases: whatever event the engine handles, a peer
/// whose entry survives the step never has its `last_seen` lowered.
pub proof fn lemma_last_seen_monotone(
    s: EngineView,
    e: TransportEventView,
    now: u64,
    pid: Seq<char>,
)
    requires
        spec_wf(s),
    ensures
        ({
            let s2 = spec_step(s, e, now).0;
            match (spec_entry_of(s.registry, pid), spec_entry_of(s2.registry, pid)) {
                (Some(before), Some(after)) => after.last_seen >= before.last_seen,
                _ => true,
            }
        }),
{
    let s2 = spec_step(s, e, now).0;
    match e {
        TransportEventView::ConnectionEstablished { peer_id } => {
            if peer_id != s.local_peer_id && spec_find(s.registry, peer_id) == -1 && pid
                != peer_id {
                lemma_entry_after_push(
                    s.registry,
                    PeerInfoView { peer_id, addresses: Seq::empty(), last_seen: now },
                    pid,
                );
            }
        },
        TransportEventView::ConnectionClosed { peer_id } => {
            let k = spec_find(s.registry, peer_id);
            if k != -1 {
                lemma_find_valid(s.registry, peer_id);
                if pid != peer_id {
                    lemma_entry_after_remove(s.registry, k, pid);
                } else {
                    assert(forall|t: int|
                        0 <= t < s2.registry.len() ==> (#[trigger] s2.registry[t]) == if t < k {
                            s.registry[t]
                        } else {
                            s.registry[t + 1]
                        });
                    assert(forall|t: int|
                        0 <= t < s2.registry.len() ==> (#[trigger] s2.registry[t]).peer_id != pid);
                    lemma_find_none(s2.registry, pid);
                }
            }
        },
        TransportEventView::IdentifyReceived { peer_id, protocol_version, listen_addrs } => {
            if protocol_version == s.expected_protocol && peer_id != s.local_peer_id {
                let k = spec_find(s.registry, peer_id);
                let entry = if k == -1 {
                    PeerInfoView {
                        peer_id,
                        addresses: crate::registry::spec_merge_addrs(Seq::empty(), listen_addrs),
                        last_seen: now,
                    }
                } else {
                    PeerInfoView {
                        peer_id,
                        addresses: crate::registry::spec_merge_addrs(
                            s.registry[k].addresses,
                            listen_addrs,
                        ),
                        last_seen: crate::registry::spec_max_u64(s.registry[k].last_seen, now),
                    }
                };
                if k == -1 {
                    if pid != peer_id {
                        lemma_entry_after_push(s.registry, entry, pid);
                    } else {
                        lemma_find_range(s.registry, pid);
                    }
                } else {
                    lemma_find_valid(s.registry, peer_id);
                    if pid != peer_id {
                        lemma_entry_after_update(s.registry, k, entry, pid);
                    } else {
                        assert(forall|t: int|
                            0 <= t < s2.registry.len() ==> (#[trigger] s2.registry[t]).peer_id
                                == s.registry[t].peer_id);
                        assert(forall|t: int|
                            0 <= t < k ==> (#[trigger] s2.registry[t]).peer_id != pid);
                        lemma_find_at(s2.registry, pid, k);
                        assert(s2.registry[k].last_seen >= s.registry[k].last_seen);
                    }
                }
            }
        },
        _ => {},
    }
}

/// A connection seen to close leaves no registry entry behind: after the
/// engine observes a connection to a peer being established and then
/// closed, the registry no longer holds that peer.
pub proof fn lemma_connect_then_disconnect(s: EngineView, peer_id: Seq<char>, t1: u64, t2: u64)
    requires
        spec_wf(s),
    ensures
        ({
            let s1 = spec_step(
                s,
                TransportEventView::ConnectionEstablished { peer_id },
                t1,
            ).0;
            let s2 = spec_step(s1, TransportEventView::ConnectionClosed { peer_id }, t2).0;
            spec_find(s2.registry, peer_id) == -1
        }),
{
    let s1 = spec_step(s, TransportEventView::ConnectionEstablished { peer_id }, t1).0;
    lemma_step_preserves_wf(s, TransportEventView::ConnectionEstablished { peer_id }, t1);
    let s2 = spec_step(s1, TransportEventView::ConnectionClosed { peer_id }, t2).0;
    let k = spec_find(s1.registry, peer_id);
    if k == -1 {
        assert(s2.registry == s1.registry);
    } else {
        lemma_find_valid(s1.registry, peer_id);
        assert(forall|j: int|
            0 <= j < s2.registry.len() ==> (#[trigger] s2.registry[j]) == if j < k {
                s1.registry[j]
            } else {
                s1.registry[j + 1]
            });
        assert(forall|j: int|
            0 <= j < s2.registry.len() ==> (#[trigger] s2.registry[j]).peer_id != peer_id);
        lemma_find_none(s2.registry, peer_id);
    }
}

/// A reachable bootstrap is signaled exactly once per attempt: the first
/// successful round emits `DhtBootstrapped`, a later successful round emits
/// nothing more, and a failed round emits nothing at all.
pub proof fn lemma_bootstrap_signaled_once(s: EngineView, t1: u64, t2: u64, t3: u64)
    requires
        !s.bootstrap_signaled,
    ensures
        ({
            let r1 = spec_step(s, TransportEventView::BootstrapRoundOk, t1);
            let r2 = spec_step(r1.0, TransportEventView::BootstrapRoundOk, t2);
            r1.2 =~= seq![NetworkEventView::DhtBootstrapped] && r2.2 =~= Seq::<
                NetworkEventView,
            >::empty() && r2.0 == r1.0
        }),
        spec_step(s, TransportEventView::BootstrapRoundFailed, t3).2 =~= Seq::<
            NetworkEventView,
        >::empty(),
        spec_step(s, TransportEventView::BootstrapRoundFailed, t3).0 == s,
{
}

/// `DhtBootstrapped` comes only of a successful bootstrap round: with only
/// unreachable bootstrap addresses no round succeeds, so it is never
/// emitted, while every other event is still handled as usual.
pub proof fn lemma_bootstrapped_only_on_round_ok(s: EngineView, e: TransportEventView, now: u64)
    requires
        !(e is BootstrapRoundOk),
    ensures
        forall|i: int|
            0 <= i < spec_step(s, e, now).2.len() ==> !((#[trigger] spec_step(
                s,
                e,
                now,
            ).2[i]) is DhtBootstrapped),
{
}

/// Duplicate suppression is by payload: handling the same payload a second
/// time surfaces nothing and changes nothing, whatever came of the first.
pub proof fn lemma_duplicate_payload_suppressed(
    s: EngineView,
    topic: Seq<char>,
    payload: Seq<char>,
    t1: u64,
    t2: u64,
)
    ensures
        ({
            let r1 = spec_step(s, TransportEventView::GossipMessage { topic, payload }, t1);
            let r2 = spec_step(r1.0, TransportEventView::GossipMessage { topic, payload }, t2);
            r2.2 =~= Seq::<NetworkEventView>::empty() && r2.0 == r1.0
        }),
{
    let e = TransportEventView::GossipMessage { topic, payload };
    let r1 = spec_step(s, e, t1);
    let d = spec_payload_digest(payload);
    if spec_delivers(s.subs, topic) && !s.seen.contains(d) {
        assert(r1.0.seen == s.seen.push(d));
        assert(r1.0.seen[s.seen.len() as int] == d);
        assert(r1.0.seen.contains(d));
    }
}

/// Suppression is not by the application-level `id`: two payloads with
/// different digests — as two encodings differing in their `id` field have
/// in practice — are both surfaced.
pub proof fn lemma_distinct_payloads_both_surface(
    s: EngineView,
    topic: Seq<char>,
    p1: Seq<char>,
    p2: Seq<char>,
    t1: u64,
    t2: u64,
)
    requires
        spec_delivers(s.subs, topic),
        !s.seen.contains(spec_payload_digest(p1)),
        !s.seen.contains(spec_payload_digest(p2)),
        spec_payload_digest(p1) != spec_payload_digest(p2),
        spec_deserialize(p1) is Some,
        spec_deserialize(p2) is Some,
    ensures
        ({
            let r1 = spec_step(s, TransportEventView::GossipMessage { topic, payload: p1 }, t1);
            let r2 = spec_step(
                r1.0,
                TransportEventView::GossipMessage { topic, payload: p2 },
                t2,
            );
            r1.2 =~= seq![NetworkEventView::MessageReceived(spec_deserialize(p1)->Some_0)]
                && r2.2 =~= seq![NetworkEventView::MessageReceived(spec_deserialize(p2)->Some_0)]
        }),
{
    let r1 = spec_step(s, TransportEventView::GossipMessage { topic, payload: p1 }, t1);
    assert(r1.0.seen == s.seen.push(spec_payload_digest(p1)));
    assert(!r1.0.seen.contains(spec_payload_digest(p2)));
    assert(r1.0.subs == s.subs);
}

/// Direct addressing: a message published on a peer's private topic is
/// surfaced by a node subscribed to that topic, and not by a node that only
/// subscribes to the broadcast topic.
pub proof fn lemma_direct_addressing(
    recipient: EngineView,
    bystander: EngineView,
    target: Seq<char>,
    payload: Seq<char>,
    t1: u64,
    t2: u64,
)
    requires
        recipient.subs == seq![spec_broadcast_topic(), spec_direct_topic(target)],
        bystander.subs == seq![spec_broadcast_topic()],
        !recipient.seen.contains(spec_payload_digest(payload)),
        spec_deserialize(payload) is Some,
    ensures
        ({
            let e = TransportEventView::GossipMessage {
                topic: spec_direct_topic(target),
                payload,
            };
            spec_step(recipient, e, t1).2 =~= seq![
                NetworkEventView::MessageReceived(spec_deserialize(payload)->Some_0),
            ] && spec_step(bystander, e, t2).2 =~= Seq::<NetworkEventView>::empty() && spec_step(
                bystander,
                e,
                t2,
            ).0 == bystander
        }),
{
    let topic = spec_direct_topic(target);
    assert(recipient.subs[1] == topic);
    assert(recipient.subs.contains(topic));
    lemma_direct_topic_not_broadcast(target);
    assert(forall|j: int| 0 <= j < bystander.subs.len() ==> bystander.subs[j] != topic);
    assert(!bystander.subs.contains(topic));
}

/// End to end: the payload a broadcast command publishes carries exactly the
/// message that was built, so a node that is subscribed to the broadcast
/// topic and has not seen the payload surfaces that very message — same
/// identifier, sender, content, timestamp and type.
pub proof fn lemma_broadcast_reaches_subscriber(
    content: Seq<char>,
    sender: Seq<char>,
    id: Seq<char>,
    now: u64,
    registry: Seq<crate::types::PeerInfoView>,
    receiver: EngineView,
    t: u64,
)
    requires
        receiver.subs.contains(spec_broadcast_topic()),
    ensures
        ({
            let action = spec_command_action(
                ChatCommandView::SendBroadcast(content),
                sender,
                id,
                now,
                registry,
            );
            let m = ChatMessageView {
                id,
                sender,
                content,
                timestamp: now,
                message_type: MessageTypeView::Broadcast,
            };
            action == (CommandActionView::Publish {
                topic: spec_broadcast_topic(),
                payload: spec_serialize(m),
            }) && (!receiver.seen.contains(spec_payload_digest(spec_serialize(m)))
                ==> spec_step(
                receiver,
                TransportEventView::GossipMessage {
                    topic: spec_broadcast_topic(),
                    payload: spec_serialize(m),
                },
                t,
            ).2 =~= seq![NetworkEventView::MessageReceived(m)])
        }),
{
    let m = ChatMessageView {
        id,
        sender,
        content,
        timestamp: now,
        message_type: MessageTypeView::Broadcast,
    };
    assert(spec_message_for(ChatCommandView::SendBroadcast(content), sender, id, now) =~= m);
    lemma_serialize_deserialize(m);
}

} // verus!
