use vstd::prelude::*;

use crate::peer::{IpAddress, Peer};
use crate::types::PeerId;

verus! {

/// How many bytes of a payload a delivery receipt carries, unless told
/// otherwise.
pub const DELIVERY_LENGTH: usize = 8;

/// The options a node is started with.
#[derive(Clone, Debug, PartialEq, Eq)]
pub struct Config {
    /// The directory for the key and the peer list.
    pub db_dir: String,
    /// The node's own descriptor: socket and transport.
    pub peer: Peer,
    /// The peers to dial at start.
    pub allowlist: Vec<Peer>,
    /// The addresses never to let in.
    pub blocklist: Vec<IpAddress>,
    /// The ids to dial at start.
    pub allow_peer_list: Vec<PeerId>,
    /// The ids never to let in.
    pub block_peer_list: Vec<PeerId>,
    /// With permission, unknown peers cannot send data and nothing is
    /// passed on for others.
    pub permission: bool,
    /// Whether data from peers that are not stable is dropped.
    pub only_stable_data: bool,
    /// How many bytes of a payload a delivery receipt carries.
    pub delivery_length: usize,
}

impl Config {
    /// The usual options for a node with the descriptor `peer`: the
    /// current directory, empty lists, no permission, data from every
    /// peer, receipts with the usual head.
    pub fn default(peer: Peer) -> (config: Config)
        ensures
            config.db_dir@ == "./"@,
            config.peer == peer,
            config.allowlist@ == Seq::<Peer>::empty(),
            config.blocklist@ == Seq::<IpAddress>::empty(),
            config.allow_peer_list@ == Seq::<PeerId>::empty(),
            config.block_peer_list@ == Seq::<PeerId>::empty(),
            !config.permission,
            !config.only_stable_data,
            config.delivery_length == DELIVERY_LENGTH,
    {
        Config {
            db_dir: "./".to_owned(),
            peer,
            allowlist: Vec::new(),
            blocklist: Vec::new(),
            allow_peer_list: Vec::new(),
            block_peer_list: Vec::new(),
            permission: false,
            only_stable_data: false,
            delivery_length: DELIVERY_LENGTH,
        }
    }
}

} // verus!
