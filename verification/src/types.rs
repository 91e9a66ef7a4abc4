//! Data model of the chat overlay: messages, peers, events, commands and
//! configuration, each with a mathematical view for use in contracts.

use vstd::prelude::*;

verus! {

/// How a chat message is routed: to everyone, or scoped to one recipient's
/// private topic.
#[derive(Debug, Clone)]
pub enum MessageType {
    Broadcast,
    Direct { target_peer_id: String },
}

/// Ghost image of a `MessageType`.
#[verifier::ext_equal]
pub enum MessageTypeView {
    Broadcast,
    Direct { target_peer_id: Seq<char> },
}

impl View for MessageType {
    type V = MessageTypeView;

    open spec fn view(&self) -> MessageTypeView {
        match self {
            MessageType::Broadcast => MessageTypeView::Broadcast,
            MessageType::Direct { target_peer_id } => MessageTypeView::Direct {
                target_peer_id: target_peer_id@,
            },
        }
    }
}

/// A chat message. Immutable once constructed; the `id` is unique per send and
/// serves deduplication only, never ordering.
#[derive(Debug, Clone)]
pub struct ChatMessage {
    pub id: String,
    pub sender: String,
    pub content: String,
    pub timestamp: u64,
    pub message_type: MessageType,
}

/// Ghost image of a `ChatMessage`, field for field.
#[verifier::ext_equal]
pub struct ChatMessageView {
    pub id: Seq<char>,
    pub sender: Seq<char>,
    pub content: Seq<char>,
    pub timestamp: u64,
    pub message_type: MessageTypeView,
}

impl View for ChatMessage {
    type V = ChatMessageView;

    open spec fn view(&self) -> ChatMessageView {
        ChatMessageView {
            id: self.id@,
            sender: self.sender@,
            content: self.content@,
            timestamp: self.timestamp,
            message_type: self.message_type@,
        }
    }
}

/// User information.
#[derive(Debug, Clone)]
pub struct User {
    pub id: String,
    pub name: String,
    pub public_key: Vec<u8>,
}

/// What is known about a peer: its identifier, the addresses it can be
/// dialed at, and when it was last seen (seconds since the epoch).
#[derive(Debug, Clone)]
pub struct PeerInfo {
    pub peer_id: String,
    pub addresses: Vec<String>,
    pub last_seen: u64,
}

/// The character sequences of a sequence of strings.
pub open spec fn strings_view(v: Seq<String>) -> Seq<Seq<char>> {
    Seq::new(v.len(), |i: int| v[i]@)
}

/// Ghost image of a `PeerInfo`.
#[verifier::ext_equal]
pub struct PeerInfoView {
    pub peer_id: Seq<char>,
    pub addresses: Seq<Seq<char>>,
    pub last_seen: u64,
}

impl View for PeerInfo {
    type V = PeerInfoView;

    open spec fn view(&self) -> PeerInfoView {
        PeerInfoView {
            peer_id: self.peer_id@,
            addresses: strings_view(self.addresses@),
            last_seen: self.last_seen,
        }
    }
}

/// The ghost images of a sequence of peer entries.
pub open spec fn peer_infos_view(v: Seq<PeerInfo>) -> Seq<PeerInfoView> {
    Seq::new(v.len(), |i: int| v[i]@)
}

/// Events the core reports to the application.
#[derive(Debug, Clone)]
pub enum NetworkEvent {
    PeerDiscovered(PeerInfo),
    PeerConnected(String),
    PeerDisconnected(String),
    MessageReceived(ChatMessage),
    DhtBootstrapped,
    PeerListUpdated(Vec<PeerInfo>),
}

/// Ghost image of a `NetworkEvent`.
#[verifier::ext_equal]
pub enum NetworkEventView {
    PeerDiscovered(PeerInfoView),
    PeerConnected(Seq<char>),
    PeerDisconnected(Seq<char>),
    MessageReceived(ChatMessageView),
    DhtBootstrapped,
    PeerListUpdated(Seq<PeerInfoView>),
}

impl View for NetworkEvent {
    type V = NetworkEventView;

    open spec fn view(&self) -> NetworkEventView {
        match self {
            NetworkEvent::PeerDiscovered(info) => NetworkEventView::PeerDiscovered(info@),
            NetworkEvent::PeerConnected(p) => NetworkEventView::PeerConnected(p@),
            NetworkEvent::PeerDisconnected(p) => NetworkEventView::PeerDisconnected(p@),
            NetworkEvent::MessageReceived(m) => NetworkEventView::MessageReceived(m@),
            NetworkEvent::DhtBootstrapped => NetworkEventView::DhtBootstrapped,
            NetworkEvent::PeerListUpdated(ps) => NetworkEventView::PeerListUpdated(
                peer_infos_view(ps@),
            ),
        }
    }
}

/// Commands the application sends to the chat network.
#[derive(Debug, Clone)]
pub enum ChatCommand {
    SendBroadcast(String),
    SendDirect { peer_id: String, message: String },
    ListPeers,
    GetPeerList,
}

/// Ghost image of a `ChatCommand`.
#[verifier::ext_equal]
pub enum ChatCommandView {
    SendBroadcast(Seq<char>),
    SendDirect { peer_id: Seq<char>, message: Seq<char> },
    ListPeers,
    GetPeerList,
}

impl View for ChatCommand {
    type V = ChatCommandView;

    open spec fn view(&self) -> ChatCommandView {
        match self {
            ChatCommand::SendBroadcast(s) => ChatCommandView::SendBroadcast(s@),
            ChatCommand::SendDirect { peer_id, message } => ChatCommandView::SendDirect {
                peer_id: peer_id@,
                message: message@,
            },
            ChatCommand::ListPeers => ChatCommandView::ListPeers,
            ChatCommand::GetPeerList => ChatCommandView::GetPeerList,
        }
    }
}

/// Configuration of the discovery engine: seed addresses to bootstrap the
/// routing table from, and the local listen port (0 lets the OS choose).
#[derive(Debug, Clone)]
pub struct DhtConfig {
    pub bootstrap_nodes: Vec<String>,
    pub local_port: u16,
}

impl Default for DhtConfig {
    /// The default configuration points at one well-known seed node and lets
    /// the OS choose the local port.
    fn default() -> (r: Self)
        ensures
            r.bootstrap_nodes@.len() == 1,
            r.bootstrap_nodes@[0]@
                == "/ip4/49.43.242.2/tcp/4001/p2p/12D3KooWBhv1RbRv26TNXM9sd99J3HAKM5ww2dET3EEaRMQ9HQeE"@,
            r.local_port == 0,
    {
        let bootstrap_addr: String = String::from_str(
            "/ip4/49.43.242.2/tcp/4001/p2p/12D3KooWBhv1RbRv26TNXM9sd99J3HAKM5ww2dET3EEaRMQ9HQeE",
        );
        let mut nodes: Vec<String> = Vec::new();
        nodes.push(bootstrap_addr);
        DhtConfig { bootstrap_nodes: nodes, local_port: 0 }
    }
}

/// Configuration of the whole network core, loaded once at startup.
#[derive(Debug, Clone)]
pub struct NetworkConfig {
    pub listen_port: u16,
    pub dht_config: DhtConfig,
    pub key_file: String,
}

impl Default for NetworkConfig {
    /// Listen on an OS-assigned port, seed from the default bootstrap node,
    /// and keep the identity key in `peer_key.dat`.
    fn default() -> (r: Self)
        ensures
            r.listen_port == 0,
            r.key_file@ == "peer_key.dat"@,
            r.dht_config.bootstrap_nodes@.len() == 1,
            r.dht_config.local_port == 0,
    {
        NetworkConfig {
            listen_port: 0,
            dht_config: DhtConfig::default(),
            key_file: String::from_str("peer_key.dat"),
        }
    }
}

} // verus!
