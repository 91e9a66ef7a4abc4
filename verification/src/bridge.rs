//! Command bridge: from application commands to overlay operations.
//!
//! Each inbound command becomes exactly one action: a send command becomes a
//! publish of a freshly built chat message on the right topic — the shared
//! broadcast topic, or the recipient's private topic — and a peer-list
//! request becomes an emitted snapshot of the registry. Publishing is
//! fire-and-forget: a failed publish is reported by the mesh layer and not
//! retried here.

use vstd::prelude::*;

use crate::codec::{serialize_message, spec_serialize};
use crate::engine::OverlayEngine;
use crate::registry::clone_string;
use crate::topics::{broadcast_topic, direct_topic, spec_broadcast_topic, spec_direct_topic};
use crate::types::{
    peer_infos_view, ChatCommand, ChatCommandView, ChatMessage, ChatMessageView, MessageType,
    MessageTypeView, PeerInfo, PeerInfoView,
};

verus! {

/// What a command asks the overlay to do.
#[derive(Debug)]
pub enum CommandAction {
    Publish { topic: String, payload: String },
    EmitPeerList(Vec<PeerInfo>),
}

/// Ghost image of a `CommandAction`.
#[verifier::ext_equal]
pub enum CommandActionView {
    Publish { topic: Seq<char>, payload: Seq<char> },
    EmitPeerList(Seq<PeerInfoView>),
}

impl View for CommandAction {
    type V = CommandActionView;

    open spec fn view(&self) -> CommandActionView {
        match self {
            CommandAction::Publish { topic, payload } => CommandActionView::Publish {
                topic: topic@,
                payload: payload@,
            },
            CommandAction::EmitPeerList(ps) => CommandActionView::EmitPeerList(
                peer_infos_view(ps@),
            ),
        }
    }
}

/// The message a send command constructs.
pub open spec fn spec_message_for(
    cmd: ChatCommandView,
    sender: Seq<char>,
    id: Seq<char>,
    now: u64,
) -> ChatMessageView {
    match cmd {
        ChatCommandView::SendBroadcast(content) => ChatMessageView {
            id,
            sender,
            content,
            timestamp: now,
            message_type: MessageTypeView::Broadcast,
        },
        ChatCommandView::SendDirect { peer_id, message } => ChatMessageView {
            id,
            sender,
            content: message,
            timestamp: now,
            message_type: MessageTypeView::Direct { target_peer_id: peer_id },
        },
        _ => ChatMessageView {
            id,
            sender,
            content: Seq::empty(),
            timestamp: now,
            message_type: MessageTypeView::Broadcast,
        },
    }
}

/// The action each command translates to: broadcasts publish on the shared
/// topic, direct sends publish on the recipient's private topic, and a list
/// request emits the registry snapshot.
pub open spec fn spec_command_action(
    cmd: ChatCommandView,
    sender: Seq<char>,
    id: Seq<char>,
    now: u64,
    registry: Seq<PeerInfoView>,
) -> CommandActionView {
    match cmd {
        ChatCommandView::SendBroadcast(_) => CommandActionView::Publish {
            topic: spec_broadcast_topic(),
            payload: spec_serialize(spec_message_for(cmd, sender, id, now)),
        },
        ChatCommandView::SendDirect { peer_id, message: _ } => CommandActionView::Publish {
            topic: spec_direct_topic(peer_id),
            payload: spec_serialize(spec_message_for(cmd, sender, id, now)),
        },
        ChatCommandView::ListPeers => CommandActionView::EmitPeerList(registry),
        ChatCommandView::GetPeerList => CommandActionView::EmitPeerList(registry),
    }
}

/// Relies on `uuid::Uuid::new_v4` and its hyphenated `Display` form: a fresh
/// random version-4 UUID always prints as 36 characters. Nothing further is
/// assumed of the value.
#[verifier::external_body]
fn fresh_message_id() -> (r: String)
    ensures
        r@.len() == 36,
{
    uuid::Uuid::new_v4().to_string()
}

impl OverlayEngine {
    /// Translate one application command into its action, given the sender's
    /// display name, a message identifier, and the current time.
    pub fn handle_command(
        &self,
        cmd: &ChatCommand,
        username: &String,
        message_id: String,
        now: u64,
    ) -> (r: CommandAction)
        ensures
            r@ == spec_command_action(cmd@, username@, message_id@, now, self@.registry),
    {
        match cmd {
            ChatCommand::SendBroadcast(content) => {
                let m = ChatMessage {
                    id: message_id,
                    sender: clone_string(username),
                    content: clone_string(content),
                    timestamp: now,
                    message_type: MessageType::Broadcast,
                };
                let payload = serialize_message(&m);
                proof {
                    assert(m@ =~= spec_message_for(cmd@, username@, message_id@, now));
                }
                CommandAction::Publish { topic: broadcast_topic(), payload }
            },
            ChatCommand::SendDirect { peer_id, message } => {
                let m = ChatMessage {
                    id: message_id,
                    sender: clone_string(username),
                    content: clone_string(message),
                    timestamp: now,
                    message_type: MessageType::Direct { target_peer_id: clone_string(peer_id) },
                };
                let payload = serialize_message(&m);
                proof {
                    assert(m@ =~= spec_message_for(cmd@, username@, message_id@, now));
                }
                CommandAction::Publish { topic: direct_topic(peer_id), payload }
            },
            ChatCommand::ListPeers => {
                let ps = self.get_peer_list();
                proof {
                    assert(peer_infos_view(ps@) =~= self@.registry);
                }
                CommandAction::EmitPeerList(ps)
            },
            ChatCommand::GetPeerList => {
                let ps = self.get_peer_list();
                proof {
                    assert(peer_infos_view(ps@) =~= self@.registry);
                }
                CommandAction::EmitPeerList(ps)
            },
        }
    }

    /// Translate one application command into its action, drawing a fresh
    /// message identifier and stamping the given time. Whatever identifier
    /// was drawn, the action is the one `spec_command_action` gives for it.
    pub fn execute_command(&self, cmd: &ChatCommand, username: &String, now: u64) -> (r:
        CommandAction)
        ensures
            exists|id: Seq<char>|
                id.len() == 36 && r@ == #[trigger] spec_command_action(
                    cmd@,
                    username@,
                    id,
                    now,
                    self@.registry,
                ),
    {
        let id = fresh_message_id();
        let ghost idv = id@;
        let r = self.handle_command(cmd, username, id, now);
        proof {
            assert(idv.len() == 36 && r@ == spec_command_action(
                cmd@,
                username@,
                idv,
                now,
                self@.registry,
            ));
        }
        r
    }
}

} // verus!
