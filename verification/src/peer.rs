use vstd::prelude::*;

use crate::types::{PeerId, TransportType};

verus! {

/// An IP address as a number: 32 bits for version 4, 128 for version 6.
#[derive(Clone, Copy, Debug, PartialEq, Eq, Structural, Hash)]
pub enum IpAddress {
    V4(u32),
    V6(u128),
}

/// An IP address and a port.
#[derive(Clone, Copy, Debug, PartialEq, Eq, Structural, Hash)]
pub struct SocketAddress {
    pub ip: IpAddress,
    pub port: u16,
}

impl SocketAddress {
    /// The address that stands for "none": `0.0.0.0:0`.
    pub open spec fn spec_unspecified() -> SocketAddress {
        SocketAddress { ip: IpAddress::V4(0), port: 0 }
    }

    /// The address that stands for "none".
    #[verifier::when_used_as_spec(spec_unspecified)]
    pub fn unspecified() -> (addr: SocketAddress)
        ensures
            addr == SocketAddress::spec_unspecified(),
    {
        SocketAddress { ip: IpAddress::V4(0), port: 0 }
    }
}

/// How to reach a peer: its id, its transport and socket and, where it is
/// reached through another peer, that peer's id.
#[derive(Clone, Copy, Debug, Eq, Hash)]
pub struct Peer {
    pub id: PeerId,
    pub assist: Option<PeerId>,
    pub socket: SocketAddress,
    pub transport: TransportType,
}

/// Whether two optional ids are the same.
fn same_assist(a: &Option<PeerId>, b: &Option<PeerId>) -> (same: bool)
    ensures
        same == (*a == *b),
{
    match (a, b) {
        (Some(x), Some(y)) => *x == *y,
        (None, None) => true,
        _ => false,
    }
}

impl PartialEq for Peer {
    fn eq(&self, other: &Peer) -> (r: bool) {
        self.id == other.id && same_assist(&self.assist, &other.assist) && self.socket
            == other.socket && self.transport == other.transport
    }
}

impl vstd::std_specs::cmp::PartialEqSpecImpl for Peer {
    open spec fn obeys_eq_spec() -> bool {
        true
    }

    open spec fn eq_spec(&self, other: &Peer) -> bool {
        *self == *other
    }
}

impl Peer {
    /// A descriptor that knows only the socket: the id is learnt at the
    /// handshake.
    pub fn socket(addr: SocketAddress) -> (peer: Peer)
        ensures
            peer.id == PeerId::default_id(),
            peer.assist is None,
            peer.socket == addr,
            peer.transport == TransportType::QUIC,
    {
        Peer { id: PeerId::zero(), assist: None, socket: addr, transport: TransportType::QUIC }
    }

    /// The descriptor that knows only `id`.
    pub open spec fn id_only(id: PeerId) -> Peer {
        Peer {
            id,
            assist: None,
            socket: SocketAddress::spec_unspecified(),
            transport: TransportType::QUIC,
        }
    }

    /// A descriptor that knows only the id: the peer is reached by relay.
    pub fn peer(id: PeerId) -> (peer: Peer)
        ensures
            peer == Peer::id_only(id),
    {
        Peer {
            id,
            assist: None,
            socket: SocketAddress::unspecified(),
            transport: TransportType::QUIC,
        }
    }

    /// Whether the descriptor carries an address that can be dialled.
    pub open spec fn has_socket(&self) -> bool {
        self.socket.port != 0
    }

    /// Whether the descriptor carries an address that can be dialled.
    #[verifier::when_used_as_spec(has_socket)]
    pub fn effective_socket(&self) -> (yes: bool)
        ensures
            yes == self.has_socket(),
    {
        self.socket.port != 0
    }

    /// Whether the descriptor carries an id.
    pub open spec fn has_id(&self) -> bool {
        self.id != PeerId::default_id()
    }

    /// Whether the descriptor carries an id.
    #[verifier::when_used_as_spec(has_id)]
    pub fn effective_id(&self) -> (yes: bool)
        ensures
            yes == self.has_id(),
    {
        !(self.id == PeerId::zero())
    }

    /// Clears the port, so that a listener bound to the address gets a free
    /// one.
    pub fn zero_port(&mut self)
        ensures
            *final(self) == (Peer {
                socket: SocketAddress { ip: old(self).socket.ip, port: 0 },
                ..*old(self)
            }),
    {
        self.socket.port = 0;
    }
}

/// The descriptor a peer sent, with its socket replaced by the address its
/// connection was seen to come from.
pub open spec fn seen_from(addr: SocketAddress, peer: Peer) -> Peer {
    Peer { socket: addr, ..peer }
}

/// Replaces the socket a peer reported by the observed address.
pub fn rewrite_socket(addr: SocketAddress, peer: Peer) -> (seen: Peer)
    ensures
        seen == seen_from(addr, peer),
{
    if peer.socket == addr {
        peer
    } else {
        Peer { id: peer.id, assist: peer.assist, socket: addr, transport: peer.transport }
    }
}

} // verus!
