use vstd::prelude::*;

use crate::kad::{SessionHandle, StreamHandle};
use crate::keys::{RemotePublic, RemotePublicView, SessionKey, SessionKeyView};
use crate::peer::Peer;
use crate::types::{Broadcast, PeerId};

verus! {

/// What a delivery receipt is about.
#[derive(Clone, Copy, Debug, PartialEq, Eq, Structural)]
pub enum DeliveryType {
    Data,
    StableConnect,
    StableResult,
}

/// What a stream message does. Streams are reserved: nothing acts on
/// them yet.
#[derive(Clone, Copy, Debug, PartialEq, Eq)]
pub enum StreamType {
    Req(Peer),
    Res(bool),
    Data,
    Close,
}

/// Which snapshot of the network the application asks for.
#[derive(Clone, Copy, Debug, PartialEq, Eq, Structural)]
pub enum StateRequest {
    Stable,
    DHT,
    Seed,
}

/// A snapshot of the network.
#[derive(Clone, Debug, PartialEq, Eq)]
pub enum StateResponse {
    /// The stable peers, each with whether it is reached directly.
    Stable(Vec<(PeerId, bool)>),
    /// The ids of the routing hints.
    DHT(Vec<PeerId>),
    /// The bootstrap list.
    Seed(Vec<Peer>),
}

/// A `StateResponse` as plain values.
pub enum StateResponseView {
    Stable(Seq<(PeerId, bool)>),
    DHT(Seq<PeerId>),
    Seed(Seq<Peer>),
}

impl View for StateResponse {
    type V = StateResponseView;

    open spec fn view(&self) -> StateResponseView {
        match self {
            StateResponse::Stable(rows) => StateResponseView::Stable(rows@),
            StateResponse::DHT(ids) => StateResponseView::DHT(ids@),
            StateResponse::Seed(peers) => StateResponseView::Seed(peers@),
        }
    }
}

/// What the application asks of the network.
#[derive(Clone, Debug, PartialEq, Eq)]
pub enum SendMessage {
    /// Ask a peer for a stable connection: transaction id, peer, payload.
    StableConnect(u64, Peer, Vec<u8>),
    /// Answer a peer's request: transaction id, peer, whether it is
    /// granted, whether to force it, payload.
    StableResult(u64, Peer, bool, bool, Vec<u8>),
    /// End the stable connection with a peer.
    StableDisconnect(PeerId),
    /// Dial a peer as a routing hint.
    Connect(Peer),
    /// Drop whoever is connected at the peer's socket.
    DisConnect(Peer),
    /// Send a peer data: transaction id, peer, payload.
    Data(u64, PeerId, Vec<u8>),
    /// Send data to many peers.
    Broadcast(Broadcast, Vec<u8>),
    /// Reserved.
    Stream(u32, StreamType, Vec<u8>),
    /// Ask for a snapshot of the network.
    NetworkState(StateRequest),
    /// Dial the bootstrap list again.
    NetworkReboot,
}

/// A `SendMessage` as plain values.
pub enum SendView {
    StableConnect(u64, Peer, Seq<u8>),
    StableResult(u64, Peer, bool, bool, Seq<u8>),
    StableDisconnect(PeerId),
    Connect(Peer),
    DisConnect(Peer),
    Data(u64, PeerId, Seq<u8>),
    Broadcast(Broadcast, Seq<u8>),
    Stream(u32, StreamType, Seq<u8>),
    NetworkState(StateRequest),
    NetworkReboot,
}

impl View for SendMessage {
    type V = SendView;

    open spec fn view(&self) -> SendView {
        match self {
            SendMessage::StableConnect(tid, to, data) => SendView::StableConnect(*tid, *to, data@),
            SendMessage::StableResult(tid, to, is_ok, is_force, data) => SendView::StableResult(
                *tid,
                *to,
                *is_ok,
                *is_force,
                data@,
            ),
            SendMessage::StableDisconnect(id) => SendView::StableDisconnect(*id),
            SendMessage::Connect(peer) => SendView::Connect(*peer),
            SendMessage::DisConnect(peer) => SendView::DisConnect(*peer),
            SendMessage::Data(tid, to, data) => SendView::Data(*tid, *to, data@),
            SendMessage::Broadcast(kind, data) => SendView::Broadcast(*kind, data@),
            SendMessage::Stream(symbol, kind, data) => SendView::Stream(*symbol, *kind, data@),
            SendMessage::NetworkState(request) => SendView::NetworkState(*request),
            SendMessage::NetworkReboot => SendView::NetworkReboot,
        }
    }
}

/// What the network tells the application.
#[derive(Clone, Debug, PartialEq, Eq)]
pub enum ReceiveMessage {
    /// A peer asks for a stable connection.
    StableConnect(Peer, Vec<u8>),
    /// A peer answered a request for a stable connection.
    StableResult(Peer, bool, Vec<u8>),
    /// A peer answered a connect.
    ResultConnect(Peer, Vec<u8>),
    /// A stable peer left.
    StableLeave(PeerId),
    /// Data from a peer.
    Data(PeerId, Vec<u8>),
    /// Reserved.
    Stream(u32, StreamType, Vec<u8>),
    /// The receipt for a request: its kind, its transaction id, whether it
    /// went through, and the head of its payload.
    Delivery(DeliveryType, u64, bool, Vec<u8>),
    /// No peer is connected.
    NetworkLost,
}

/// A `ReceiveMessage` as plain values.
pub enum ReceiveView {
    StableConnect(Peer, Seq<u8>),
    StableResult(Peer, bool, Seq<u8>),
    ResultConnect(Peer, Seq<u8>),
    StableLeave(PeerId),
    Data(PeerId, Seq<u8>),
    Stream(u32, StreamType, Seq<u8>),
    Delivery(DeliveryType, u64, bool, Seq<u8>),
    NetworkLost,
}

impl View for ReceiveMessage {
    type V = ReceiveView;

    open spec fn view(&self) -> ReceiveView {
        match self {
            ReceiveMessage::StableConnect(peer, data) => ReceiveView::StableConnect(*peer, data@),
            ReceiveMessage::StableResult(peer, is_ok, data) => ReceiveView::StableResult(
                *peer,
                *is_ok,
                data@,
            ),
            ReceiveMessage::ResultConnect(peer, data) => ReceiveView::ResultConnect(*peer, data@),
            ReceiveMessage::StableLeave(id) => ReceiveView::StableLeave(*id),
            ReceiveMessage::Data(id, data) => ReceiveView::Data(*id, data@),
            ReceiveMessage::Stream(symbol, kind, data) => ReceiveView::Stream(
                *symbol,
                *kind,
                data@,
            ),
            ReceiveMessage::Delivery(kind, tid, ok, head) => ReceiveView::Delivery(
                *kind,
                *tid,
                *ok,
                head@,
            ),
            ReceiveMessage::NetworkLost => ReceiveView::NetworkLost,
        }
    }
}

/// What is put into a session's inbox.
#[derive(Clone, Debug, PartialEq, Eq)]
pub enum SessionMessage {
    /// Send the peer data: transaction id, payload.
    Data(u64, Vec<u8>),
    /// Ask the peer for a stable connection.
    StableConnect(u64, Vec<u8>),
    /// Answer the peer's request: transaction id, granted, forced,
    /// payload.
    StableResult(u64, bool, bool, Vec<u8>),
    /// Pass data on towards another peer: from, to, payload.
    RelayData(PeerId, PeerId, Vec<u8>),
    /// The relayed peer has dialled in directly: take over its stream.
    DirectIncoming(Peer, StreamHandle),
    /// End the session.
    Close,
}

/// A `SessionMessage` as plain values.
pub enum SessionView {
    Data(u64, Seq<u8>),
    StableConnect(u64, Seq<u8>),
    StableResult(u64, bool, bool, Seq<u8>),
    RelayData(PeerId, PeerId, Seq<u8>),
    DirectIncoming(Peer, StreamHandle),
    Close,
}

impl View for SessionMessage {
    type V = SessionView;

    open spec fn view(&self) -> SessionView {
        match self {
            SessionMessage::Data(tid, data) => SessionView::Data(*tid, data@),
            SessionMessage::StableConnect(tid, data) => SessionView::StableConnect(*tid, data@),
            SessionMessage::StableResult(tid, is_ok, is_force, data) => SessionView::StableResult(
                *tid,
                *is_ok,
                *is_force,
                data@,
            ),
            SessionMessage::RelayData(from, to, data) => SessionView::RelayData(*from, *to, data@),
            SessionMessage::DirectIncoming(peer, stream) => SessionView::DirectIncoming(
                *peer,
                *stream,
            ),
            SessionMessage::Close => SessionView::Close,
        }
    }
}

/// What is written to a transport endpoint before any encryption.
#[derive(Clone, Debug, PartialEq, Eq)]
pub enum EndpointMessage {
    /// Close the connection.
    Close,
    /// The accepting side's half of the handshake.
    Handshake(RemotePublic),
    /// Routing hints for the peer's table.
    DHT(Vec<Peer>),
}

/// An `EndpointMessage` as plain values.
pub enum EndpointView {
    Close,
    Handshake(RemotePublicView),
    DHT(Seq<Peer>),
}

impl View for EndpointMessage {
    type V = EndpointView;

    open spec fn view(&self) -> EndpointView {
        match self {
            EndpointMessage::Close => EndpointView::Close,
            EndpointMessage::Handshake(remote) => EndpointView::Handshake(remote@),
            EndpointMessage::DHT(peers) => EndpointView::DHT(peers@),
        }
    }
}

/// What the node does next. Whoever runs the node carries the actions out,
/// in order.
#[derive(Clone, Debug, PartialEq, Eq)]
pub enum Action {
    /// Hand a message to the application.
    Out(ReceiveMessage),
    /// Put a message into a session's inbox.
    Session(SessionHandle, SessionMessage),
    /// Open a connection to a peer at its socket and ask it for a stable
    /// connection: transaction id, head of the payload, peer.
    DirectStable(u64, Vec<u8>, Peer),
    /// Reach a peer through the session of a neighbour and ask it for a
    /// stable connection: transaction id, head of the payload, peer,
    /// neighbour.
    RelayStable(u64, Vec<u8>, Peer, SessionHandle),
    /// Dial a peer: make a session key and send the first half of the
    /// handshake on the peer's transport.
    Connect(Peer),
    /// Write to a transport endpoint.
    Endpoint(StreamHandle, EndpointMessage),
    /// Start the session of a newly connected peer: its inbox, its stream,
    /// the peer and the session key.
    Spawn(SessionHandle, StreamHandle, Peer, SessionKey),
    /// Answer the application's question about the network.
    State(StateResponse),
}

/// An `Action` as plain values.
pub enum ActionView {
    Out(ReceiveView),
    Session(SessionHandle, SessionView),
    DirectStable(u64, Seq<u8>, Peer),
    RelayStable(u64, Seq<u8>, Peer, SessionHandle),
    Connect(Peer),
    Endpoint(StreamHandle, EndpointView),
    Spawn(SessionHandle, StreamHandle, Peer, SessionKeyView),
    State(StateResponseView),
}

impl View for Action {
    type V = ActionView;

    open spec fn view(&self) -> ActionView {
        match self {
            Action::Out(message) => ActionView::Out(message@),
            Action::Session(session, message) => ActionView::Session(*session, message@),
            Action::DirectStable(tid, head, to) => ActionView::DirectStable(*tid, head@, *to),
            Action::RelayStable(tid, head, to, via) => ActionView::RelayStable(
                *tid,
                head@,
                *to,
                *via,
            ),
            Action::Connect(peer) => ActionView::Connect(*peer),
            Action::Endpoint(stream, message) => ActionView::Endpoint(*stream, message@),
            Action::Spawn(session, stream, peer, key) => ActionView::Spawn(
                *session,
                *stream,
                *peer,
                key@,
            ),
            Action::State(response) => ActionView::State(response@),
        }
    }
}

/// An action as plain values, as a function.
pub open spec fn action_view() -> spec_fn(Action) -> ActionView {
    |a: Action| a@
}

/// A list of actions as plain values.
pub open spec fn actions_view(actions: Seq<Action>) -> Seq<ActionView> {
    actions.map_values(action_view())
}

/// The head of a payload that a delivery receipt carries: its first
/// `length` bytes, or all of it where it is shorter.
pub open spec fn delivery_head(data: Seq<u8>, length: nat) -> Seq<u8> {
    if data.len() < length {
        data
    } else {
        data.take(length as int)
    }
}

/// Copies the head of a payload for a delivery receipt.
pub fn delivery_split(data: &Vec<u8>, length: usize) -> (head: Vec<u8>)
    ensures
        head@ == delivery_head(data@, length as nat),
{
    let n = if data.len() < length {
        data.len()
    } else {
        length
    };
    let mut head: Vec<u8> = Vec::new();
    let mut i: usize = 0;
    while i < n
        invariant
            i <= n,
            n <= data.len(),
            head@ == data@.take(i as int),
        decreases n - i,
    {
        head.push(data[i]);
        i += 1;
        assert(head@ =~= data@.take(i as int));
    }
    assert(data@.take(data@.len() as int) =~= data@);
    head
}

/// Copies a payload.
pub fn copy_bytes(data: &Vec<u8>) -> (copy: Vec<u8>)
    ensures
        copy@ == data@,
{
    let mut copy: Vec<u8> = Vec::new();
    let mut i: usize = 0;
    while i < data.len()
        invariant
            i <= data.len(),
            copy@ == data@.take(i as int),
        decreases data.len() - i,
    {
        copy.push(data[i]);
        i += 1;
        assert(copy@ =~= data@.take(i as int));
    }
    assert(data@.take(data@.len() as int) =~= data@);
    copy
}

} // verus!
