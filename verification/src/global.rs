use vstd::prelude::*;

use crate::buffer::{park_of, parked, parked_with, unparked, Buffer};
use crate::kad::{Category, Entry, Gone, KadValue};
use crate::keys::{RemotePublic, RemotePublicView, SessionKey};
use crate::message::{actions_view, copy_bytes, Action};
use crate::peer::{Peer, SocketAddress};
use crate::peer_list::PeerList;
use crate::actions::{nothing, part, parting};
use crate::pending::{
    cleared, lemma_cleared_waits, requests_of, requests_view, waits, waits_among,
};
use crate::types::{io_error_other, new_io_error, PeerId, TransportType};

verus! {

/// What to do to send on a transport kind.
#[derive(Clone, Copy, Debug, PartialEq, Eq)]
pub enum TransportPlan {
    /// A listener of the kind is bound: send on it.
    Send,
    /// None is bound: bind one for this descriptor, send on it, and record
    /// it with `transport_started`.
    Start(Peer),
}

/// The requests that waited for a peer: connect requests, then result
/// requests.
pub type Waiting = (Vec<(u64, Vec<u8>)>, Vec<(u64, Vec<u8>)>);

/// The node's whole state: its own descriptor and public key, the
/// transport kinds it listens on, the registry, the buffer and its
/// settings.
pub struct Global {
    pub peer: Peer,
    pub key: Vec<u8>,
    pub transports: Vec<TransportType>,
    pub peer_list: PeerList,
    pub buffer: Buffer,
    /// Whether data is passed on for others: true without permission.
    pub is_relay_data: bool,
    /// Whether sessions hand on data from peers that are not stable.
    pub recv_data: bool,
    /// How many bytes of a payload a delivery receipt carries.
    pub delivery_length: usize,
}

impl Global {
    /// No request waits for a connection to a peer that is stable.
    pub open spec fn no_stable_pending(&self) -> bool {
        forall|p: PeerId| #[trigger]
            self.peer_list.in_stable(p) ==> !waits(self.buffer.connects(), p) && !waits(
                self.buffer.results(),
                p,
            )
    }

    /// The node's invariant: those of the registry and of the buffer, the
    /// registry is the node's own, no transport kind is listed twice, and
    /// no request waits for a stable peer.
    pub open spec fn wf(&self) -> bool {
        &&& self.peer_list.wf()
        &&& self.buffer.wf()
        &&& self.peer_list.own() == self.peer.id
        &&& self.transports@.no_duplicates()
        &&& self.no_stable_pending()
    }

    /// Descriptor, key, transports and settings are those of `before`.
    pub open spec fn same_node(&self, before: &Global) -> bool {
        &&& self.peer == before.peer
        &&& self.key@ == before.key@
        &&& self.transports@ == before.transports@
        &&& self.is_relay_data == before.is_relay_data
        &&& self.recv_data == before.recv_data
        &&& self.delivery_length == before.delivery_length
    }

    /// The registry is that of `before`.
    pub open spec fn same_registry(&self, before: &Global) -> bool {
        &&& self.peer_list.entries() == before.peer_list.entries()
        &&& self.peer_list.same_setup(&before.peer_list)
    }

    /// The buffer is that of `before` but for its parked peers.
    pub open spec fn same_pending(&self, before: &Global) -> bool {
        &&& self.buffer.connects() == before.buffer.connects()
        &&& self.buffer.results() == before.buffer.results()
        &&& self.buffer.window() == before.buffer.window()
    }

    /// Whether a listener of the kind is bound.
    pub open spec fn listens_on(&self, kind: TransportType) -> bool {
        self.transports@.contains(kind)
    }

    /// The first frame this node sends on a new connection with the
    /// session key `out`.
    pub open spec fn remote_public(&self, out: Seq<u8>) -> RemotePublicView {
        RemotePublicView { key: self.key@, peer: self.peer, dh: out }
    }

    /// The rule on pending requests carries over when the stable peers
    /// grow by `risen` at most, the peers waited for by `filed` at most,
    /// and neither breaks it.
    pub proof fn lemma_rule_kept(
        &self,
        before: &Global,
        risen: Option<PeerId>,
        filed: Option<PeerId>,
    )
        requires
            before.no_stable_pending(),
            self.peer_list.stable_from(&before.peer_list, risen),
            waits_among(self.buffer.connects(), before.buffer.connects(), filed),
            waits_among(self.buffer.results(), before.buffer.results(), filed),
            risen matches Some(r) ==> !waits(self.buffer.connects(), r) && !waits(
                self.buffer.results(),
                r,
            ),
            filed matches Some(f) ==> !self.peer_list.in_stable(f),
        ensures
            self.no_stable_pending(),
    {
        assert forall|p: PeerId| #[trigger] self.peer_list.in_stable(p) implies !waits(
            self.buffer.connects(),
            p,
        ) && !waits(self.buffer.results(), p) by {
            if risen != Some(p) {
                assert(before.peer_list.in_stable(p));
            }
        }
    }

    /// The node's own id.
    pub fn peer_id(&self) -> (id: &PeerId)
        ensures
            *id == self.peer.id,
    {
        &self.peer.id
    }

    /// The first frame for a connection this node opens, from the session
    /// key the keystore made for it: the node's public key, its descriptor
    /// and the key's outgoing half.
    pub fn generate_remote(&self, session_key: SessionKey) -> (made: (SessionKey, RemotePublic))
        ensures
            made.0 == session_key,
            made.1@ == self.remote_public(session_key@.out),
    {
        let remote = RemotePublic(copy_bytes(&self.key), self.peer, session_key.out_bytes());
        (session_key, remote)
    }

    /// The answer to a peer's first frame, from what the keystore made of
    /// it: nothing where it refused the peer's half, else the completed
    /// key and this node's own first frame.
    pub fn complete_remote(&self, completed: Option<SessionKey>) -> (made: Option<
        (SessionKey, RemotePublic),
    >)
        ensures
            completed is None ==> made is None,
            completed matches Some(key) ==> made matches Some(pair) && pair.0 == key && pair.1@
                == self.remote_public(key@.out),
    {
        match completed {
            Some(session_key) => {
                let remote = RemotePublic(
                    copy_bytes(&self.key),
                    self.peer,
                    session_key.out_bytes(),
                );
                Some((session_key, remote))
            },
            None => None,
        }
    }

    /// Whether a listener of the kind is bound.
    fn is_bound(&self, kind: &TransportType) -> (bound: bool)
        ensures
            bound == self.listens_on(*kind),
    {
        let mut i: usize = 0;
        while i < self.transports.len()
            invariant
                i <= self.transports.len(),
                forall|j: int| 0 <= j < i ==> self.transports@[j] != *kind,
            decreases self.transports.len() - i,
        {
            if self.transports[i] == *kind {
                return true;
            }
            i += 1;
        }
        false
    }

    /// How to send on a transport kind: on the bound listener, or on a new
    /// one for the node's descriptor with that kind and no port.
    pub fn trans_send(&self, kind: &TransportType) -> (plan: TransportPlan)
        ensures
            self.listens_on(*kind) ==> plan == TransportPlan::Send,
            !self.listens_on(*kind) ==> plan == TransportPlan::Start(
                Peer {
                    transport: *kind,
                    socket: SocketAddress { ip: self.peer.socket.ip, port: 0 },
                    ..self.peer
                },
            ),
    {
        if self.is_bound(kind) {
            TransportPlan::Send
        } else {
            let mut new_peer = self.peer;
            new_peer.transport = *kind;
            new_peer.zero_port();
            TransportPlan::Start(new_peer)
        }
    }

    /// Records that a listener of the kind is bound. Recording a kind
    /// again changes nothing.
    pub fn transport_started(&mut self, kind: TransportType)
        requires
            old(self).wf(),
        ensures
            final(self).wf(),
            final(self).listens_on(kind),
            old(self).listens_on(kind) ==> final(self).transports@ == old(self).transports@,
            !old(self).listens_on(kind) ==> final(self).transports@ == old(self).transports@.push(
                kind,
            ),
            final(self).peer == old(self).peer,
            final(self).key@ == old(self).key@,
            final(self).is_relay_data == old(self).is_relay_data,
            final(self).recv_data == old(self).recv_data,
            final(self).delivery_length == old(self).delivery_length,
            final(self).peer_list == old(self).peer_list,
            final(self).buffer == old(self).buffer,
    {
        if !self.is_bound(&kind) {
            self.transports.push(kind);
            assert(self.transports@[self.transports@.len() - 1] == kind);
        }
    }

    /// Parks a freshly connected peer and hands back the connect requests
    /// that waited for it.
    pub fn add_tmp(&mut self, p: PeerId, k: KadValue, d: bool, now: u64) -> (stables: Vec<
        (u64, Vec<u8>),
    >)
        requires
            old(self).wf(),
        ensures
            final(self).wf(),
            final(self).same_node(old(self)),
            final(self).same_registry(old(self)),
            requests_view(stables@) == requests_of(old(self).buffer.connects(), p),
            final(self).buffer.connects() == cleared(old(self).buffer.connects(), p),
            final(self).buffer.results() == old(self).buffer.results(),
            final(self).buffer.tmps() == parked_with(old(self).buffer.tmps(), p, k, d, now),
            final(self).buffer.window() == old(self).buffer.window(),
    {
        let ghost before = *self;
        let stables = self.buffer.remove_connect(&p);
        self.buffer.add_tmp(p, k, d, now);
        proof {
            lemma_cleared_waits(before.buffer.connects(), p);
            self.lemma_rule_kept(&before, None, None);
        }
        stables
    }

    /// Parks a freshly connected peer and hands back the connect and the
    /// result requests that waited for it.
    pub fn add_all_tmp(
        &mut self,
        peer_id: PeerId,
        kv: KadValue,
        is_direct: bool,
        now: u64,
    ) -> (waiting: Waiting)
        requires
            old(self).wf(),
        ensures
            final(self).wf(),
            final(self).same_node(old(self)),
            final(self).same_registry(old(self)),
            requests_view(waiting.0@) == requests_of(old(self).buffer.connects(), peer_id),
            requests_view(waiting.1@) == requests_of(old(self).buffer.results(), peer_id),
            final(self).buffer.connects() == cleared(old(self).buffer.connects(), peer_id),
            final(self).buffer.results() == cleared(old(self).buffer.results(), peer_id),
            final(self).buffer.tmps() == parked_with(
                old(self).buffer.tmps(),
                peer_id,
                kv,
                is_direct,
                now,
            ),
            final(self).buffer.window() == old(self).buffer.window(),
    {
        let ghost before = *self;
        let connects = self.buffer.remove_connect(&peer_id);
        let results = self.buffer.remove_result(&peer_id);
        self.buffer.add_tmp(peer_id, kv, is_direct, now);
        proof {
            lemma_cleared_waits(before.buffer.connects(), peer_id);
            lemma_cleared_waits(before.buffer.results(), peer_id);
            self.lemma_rule_kept(&before, None, None);
        }
        (connects, results)
    }

    /// The registry entries after `peer_id` was upgraded: admitted as
    /// stable with its parked value where it is parked, else promoted from
    /// routing hint where it is one.
    pub open spec fn upgraded(&self, peer_id: PeerId) -> Seq<Entry> {
        let tmps = self.buffer.tmps();
        if parked(tmps, peer_id) {
            let t = tmps[park_of(tmps, peer_id)];
            self.peer_list.with_stable(peer_id, t.value, t.is_direct)
        } else {
            self.peer_list.promoted(peer_id)
        }
    }

    /// Whether an upgrade of `peer_id` succeeds: it is parked and admitted,
    /// or it is a routing hint.
    pub open spec fn can_upgrade(&self, peer_id: PeerId) -> bool {
        if parked(self.buffer.tmps(), peer_id) {
            crate::kad::holds_stable(self.upgraded(peer_id), peer_id)
        } else {
            self.peer_list.in_dht(peer_id)
        }
    }

    /// Makes a peer stable: from the parked peers where it is parked, else
    /// from the routing hints. On success hands back the requests that
    /// waited for a connection to it, which it now has.
    pub fn upgrade(&mut self, peer_id: &PeerId) -> (res: Result<Waiting, std::io::Error>)
        requires
            old(self).wf(),
        ensures
            final(self).wf(),
            final(self).same_node(old(self)),
            final(self).peer_list.same_setup(&old(self).peer_list),
            final(self).peer_list.entries() == old(self).upgraded(*peer_id),
            final(self).buffer.tmps() == unparked(old(self).buffer.tmps(), *peer_id),
            final(self).buffer.window() == old(self).buffer.window(),
            res is Ok <==> old(self).can_upgrade(*peer_id),
            res matches Ok(waiting) ==> {
                &&& requests_view(waiting.0@) == requests_of(old(self).buffer.connects(), *peer_id)
                &&& requests_view(waiting.1@) == requests_of(old(self).buffer.results(), *peer_id)
                &&& final(self).buffer.connects() == cleared(
                    old(self).buffer.connects(),
                    *peer_id,
                )
                &&& final(self).buffer.results() == cleared(old(self).buffer.results(), *peer_id)
                &&& final(self).peer_list.in_stable(*peer_id)
            },
            res matches Err(e) ==> {
                &&& final(self).same_pending(old(self))
                &&& e == if parked(old(self).buffer.tmps(), *peer_id) {
                    io_error_other("peer is not admitted."@)
                } else {
                    io_error_other("peer is not in the DHT."@)
                }
            },
    {
        let ghost before = *self;
        let v_some = self.buffer.remove_tmp(peer_id);
        let admitted = match v_some {
            Some((v, is_d)) => {
                if self.peer_list.add_stable(*peer_id, v, is_d) {
                    Ok(())
                } else {
                    Err(new_io_error("peer is not admitted."))
                }
            },
            None => self.peer_list.dht_to_stable(peer_id),
        };
        match admitted {
            Ok(()) => {
                let connects = self.buffer.remove_connect(peer_id);
                let results = self.buffer.remove_result(peer_id);
                proof {
                    lemma_cleared_waits(before.buffer.connects(), *peer_id);
                    lemma_cleared_waits(before.buffer.results(), *peer_id);
                    self.lemma_rule_kept(&before, Some(*peer_id), None);
                }
                Ok((connects, results))
            },
            Err(e) => {
                proof {
                    assert(self.peer_list.stable_from(&before.peer_list, None));
                    self.lemma_rule_kept(&before, None, None);
                }
                Err(e)
            },
        }
    }

    /// Lets a parked peer stay as a routing hint. That succeeds where the
    /// peer is parked, reached directly and admitted as a hint; else the
    /// registry stays as it is. Either way the peer is parked no more.
    pub fn tmp_to_dht(&mut self, peer_id: &PeerId) -> (res: Result<(), std::io::Error>)
        requires
            old(self).wf(),
        ensures
            final(self).wf(),
            final(self).same_node(old(self)),
            final(self).same_pending(old(self)),
            final(self).peer_list.same_setup(&old(self).peer_list),
            final(self).buffer.tmps() == unparked(old(self).buffer.tmps(), *peer_id),
            res is Ok <==> old(self).keeps_as_hint(*peer_id),
            res is Ok ==> final(self).peer_list.entries() == old(self).peer_list.entries().push(
                Entry { value: old(self).parked_value(*peer_id), category: Category::Dht },
            ),
            res matches Err(e) ==> {
                &&& e == io_error_other("missing buffer"@)
                &&& final(self).peer_list.entries() == old(self).peer_list.entries()
            },
    {
        let ghost before = *self;
        let v_some = self.buffer.remove_tmp(peer_id);
        let mut kept = false;
        if let Some((v, is_d)) = v_some {
            if is_d {
                if self.peer_list.add_dht(v) {
                    kept = true;
                }
            }
        }
        proof {
            self.lemma_rule_kept(&before, None, None);
        }
        if kept {
            Ok(())
        } else {
            Err(new_io_error("missing buffer"))
        }
    }

    /// The value of the peer parked under `peer_id`.
    pub open spec fn parked_value(&self, peer_id: PeerId) -> KadValue {
        self.buffer.tmps()[park_of(self.buffer.tmps(), peer_id)].value
    }

    /// Whether a parked peer can stay as a routing hint.
    pub open spec fn keeps_as_hint(&self, peer_id: PeerId) -> bool {
        let tmps = self.buffer.tmps();
        &&& parked(tmps, peer_id)
        &&& tmps[park_of(tmps, peer_id)].is_direct
        &&& self.peer_list.admits_dht(tmps[park_of(tmps, peer_id)].value.peer.id)
    }

    /// Ends a peer's stable standing: it is parked no more, and in the
    /// registry it goes back to the routing hints or leaves. Requests that
    /// wait for a connection to the peer go on waiting. Where the peer
    /// leaves the registry, the stable peers that were relayed through it
    /// leave too: the application is told of each, and its session is
    /// closed.
    pub fn stable_to_dht(&mut self, peer_id: &PeerId) -> (res: Result<
        Vec<Action>,
        std::io::Error,
    >)
        requires
            old(self).wf(),
        ensures
            final(self).wf(),
            final(self).same_node(old(self)),
            final(self).same_pending(old(self)),
            final(self).peer_list.same_setup(&old(self).peer_list),
            final(self).buffer.tmps() == unparked(old(self).buffer.tmps(), *peer_id),
            !final(self).peer_list.in_stable(*peer_id),
            res is Ok <==> old(self).peer_list.in_stable(*peer_id),
            res matches Ok(actions) ==> actions_view(actions@) == parting(
                old(self).peer_list.departed(*peer_id),
                Gone::Peer(*peer_id),
                false,
                false,
            ),
            res matches Err(e) ==> e == io_error_other("peer is not stable."@),
            final(self).peer_list.entries() == old(self).peer_list.demoted(*peer_id),
    {
        let ghost before = *self;
        let _ = self.buffer.remove_tmp(peer_id);
        let res = self.peer_list.stable_to_dht(peer_id);
        proof {
            self.lemma_rule_kept(&before, None, None);
        }
        match res {
            Ok(left) => {
                let mut actions = nothing();
                part(&mut actions, &left, &Gone::Peer(*peer_id), false, false);
                Ok(actions)
            },
            Err(e) => Err(e),
        }
    }
}

} // verus!
