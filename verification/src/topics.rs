//! Topic naming for the gossip mesh.
//!
//! Every peer subscribes to one shared broadcast topic. In addition each
//! peer subscribes to a private topic derived from its own identifier, used
//! for addressed delivery: a direct message is published there, so only the
//! addressee's application layer is expected to act on it. The private topic
//! is scoping, not secrecy — any mesh peer could subscribe to it.

use vstd::prelude::*;

verus! {

/// The shared topic every peer subscribes to.
pub open spec fn spec_broadcast_topic() -> Seq<char> {
    "chat"@
}

/// The private topic of the peer with the given identifier.
pub open spec fn spec_direct_topic(pid: Seq<char>) -> Seq<char> {
    "direct-"@ + pid
}

/// A node delivers a message to its application iff it subscribes to the
/// topic the message was published on.
pub open spec fn spec_delivers(subs: Seq<Seq<char>>, topic: Seq<char>) -> bool {
    subs.contains(topic)
}

/// The shared broadcast topic.
pub fn broadcast_topic() -> (r: String)
    ensures
        r@ == spec_broadcast_topic(),
{
    String::from_str("chat")
}

/// The private topic of the peer with identifier `peer_id`.
pub fn direct_topic(peer_id: &String) -> (r: String)
    ensures
        r@ == spec_direct_topic(peer_id@),
{
    let mut r = String::from_str("direct-");
    r.append(peer_id.as_str());
    r
}

/// The topics a node subscribes to: the broadcast topic and its own private
/// topic, in that order.
pub fn subscription_topics(local_peer_id: &String) -> (r: Vec<String>)
    ensures
        r@.len() == 2,
        r@[0]@ == spec_broadcast_topic(),
        r@[1]@ == spec_direct_topic(local_peer_id@),
{
    let mut r: Vec<String> = Vec::new();
    r.push(broadcast_topic());
    r.push(direct_topic(local_peer_id));
    r
}

/// No private topic is the broadcast topic: a direct message never reaches
/// nodes that only subscribe to the broadcast topic.
pub proof fn lemma_direct_topic_not_broadcast(pid: Seq<char>)
    ensures
        spec_direct_topic(pid) != spec_broadcast_topic(),
{
    reveal_strlit("chat");
    reveal_strlit("direct-");
    assert(spec_direct_topic(pid).len() >= 7);
    assert(spec_broadcast_topic().len() == 4);
}

/// Distinct peers have distinct private topics: a direct message addressed
/// to one peer never lands on another peer's private topic.
pub proof fn lemma_direct_topic_injective(p1: Seq<char>, p2: Seq<char>)
    requires
        spec_direct_topic(p1) == spec_direct_topic(p2),
    ensures
        p1 == p2,
{
    reveal_strlit("direct-");
    assert(("direct-"@ + p1) == ("direct-"@ + p2));
    assert(("direct-"@ + p1).len() == 7 + p1.len());
    assert(("direct-"@ + p2).len() == 7 + p2.len());
    assert(p1.len() == p2.len());
    assert forall|i: int| 0 <= i < p1.len() implies p1[i] == p2[i] by {
        assert(p1[i] == ("direct-"@ + p1)[7 + i]);
        assert(p2[i] == ("direct-"@ + p2)[7 + i]);
    }
    assert(p1 =~= p2);
}

} // verus!
