use vstd::prelude::*;

use crate::actions::{emit, nothing};
use crate::global::Global;
use crate::kad::{Category, Entry, KadValue, SessionHandle, StreamHandle};
use crate::keys::{RemotePublic, RemotePublicView, SessionKey, SessionKeyView};
use crate::message::{
    actions_view, Action, ActionView, EndpointMessage, EndpointView, SessionMessage, SessionView,
};
use crate::peer::{Peer, SocketAddress};
use crate::peer_list::nearest_hints;
use crate::types::PeerId;

verus! {

/// What the inbound router makes of a new connection before any key is
/// completed.
#[derive(Clone, Copy, Debug, PartialEq, Eq)]
pub enum Screening {
    /// Refused: close the endpoint.
    Close,
    /// Go on with the key agreement; the descriptor carries the id derived
    /// from the peer's key and the address the connection came from.
    Proceed(Peer),
}

/// How the key agreement with a new peer ended.
#[derive(Clone, Debug, PartialEq, Eq)]
pub enum Completion {
    /// The peer's half was refused.
    Failed,
    /// This node dialled, and its half-open key is now complete.
    Initiated(SessionKey),
    /// The peer dialled; here are the new key and this node's answer.
    Accepted(SessionKey, RemotePublic),
}

/// A `Completion` as plain values.
pub enum CompletionView {
    Failed,
    Initiated(SessionKeyView),
    Accepted(SessionKeyView, RemotePublicView),
}

impl View for Completion {
    type V = CompletionView;

    open spec fn view(&self) -> CompletionView {
        match self {
            Completion::Failed => CompletionView::Failed,
            Completion::Initiated(key) => CompletionView::Initiated(key@),
            Completion::Accepted(key, remote) => CompletionView::Accepted(key@, remote@),
        }
    }
}

/// What goes to the endpoint first when a key agreement has succeeded:
/// this node's answer where the peer dialled, nothing where this node did.
pub open spec fn greeting(completion: CompletionView, stream: StreamHandle) -> Seq<ActionView> {
    match completion {
        CompletionView::Accepted(_, remote) => seq![
            ActionView::Endpoint(stream, EndpointView::Handshake(remote)),
        ],
        _ => Seq::empty(),
    }
}

/// The session key that a key agreement ended with.
pub open spec fn agreed_key(completion: CompletionView) -> SessionKeyView {
    match completion {
        CompletionView::Initiated(key) => key,
        CompletionView::Accepted(key, _) => key,
        CompletionView::Failed => arbitrary(),
    }
}

impl Global {
    /// Whether a connection is refused before any key is completed: it
    /// comes from a blocked address, from this node itself or from a
    /// blocked peer.
    pub open spec fn refuses(&self, addr: SocketAddress, remote_id: PeerId) -> bool {
        ||| self.peer_list.blocked_addrs().contains(addr.ip)
        ||| remote_id == self.peer.id
        ||| self.peer_list.is_blocked(remote_id)
    }

    /// What the first step of the inbound router makes of a connection: it
    /// is closed where it is refused; else the key agreement goes on, with
    /// the peer's descriptor under the id derived from its key and at the
    /// address it was seen to come from.
    pub open spec fn screened(
        &self,
        addr: SocketAddress,
        remote_id: PeerId,
        remote_peer: Peer,
    ) -> Screening {
        if self.refuses(addr, remote_id) {
            Screening::Close
        } else {
            Screening::Proceed(Peer { id: remote_id, socket: addr, ..remote_peer })
        }
    }

    /// The first step of the inbound router, before any key is completed.
    /// `addr` is where the connection came from, `remote_id` the id that
    /// the keystore derived from the peer's public key, `remote_peer` the
    /// descriptor the peer sent.
    pub fn screen(&self, addr: &SocketAddress, remote_id: &PeerId, remote_peer: Peer) -> (screening:
        Screening)
        ensures
            screening == self.screened(*addr, *remote_id, remote_peer),
    {
        if self.peer_list.is_block_addr(addr) {
            return Screening::Close;
        }
        let mut seen = crate::peer::rewrite_socket(*addr, remote_peer);
        seen.id = *remote_id;
        if *remote_id == self.peer.id || self.peer_list.is_block_peer(remote_id) {
            return Screening::Close;
        }
        Screening::Proceed(seen)
    }

    /// Whether the inbound router takes a peer in as a new routing hint:
    /// the key agreement succeeded, the peer is not stable through a relay,
    /// and the registry has room for it.
    pub open spec fn takes_in(&self, remote: Peer, completion: CompletionView) -> bool {
        &&& !(completion is Failed)
        &&& !self.reaches_by_relay(remote.id)
        &&& self.peer_list.admits_dht(remote.id)
    }

    /// What is done for a peer that is taken in: the answer of the key
    /// agreement where there is one, the routing hints nearest to the
    /// peer, and its session.
    pub open spec fn welcome(
        &self,
        remote: Peer,
        completion: CompletionView,
        session: SessionHandle,
        stream: StreamHandle,
        hints: Seq<Peer>,
    ) -> Seq<ActionView> {
        greeting(completion, stream) + seq![
            ActionView::Endpoint(stream, EndpointView::DHT(hints)),
            ActionView::Spawn(session, stream, remote, agreed_key(completion)),
        ]
    }

    /// What is done for a peer that is not taken in. After a failed key
    /// agreement the endpoint is closed. Else the answer of the agreement
    /// goes out where there is one; then the session of a peer that is
    /// stable through a relay is told to take the new stream over, and any
    /// other peer is closed.
    pub open spec fn turn_away(
        &self,
        remote: Peer,
        completion: CompletionView,
        stream: StreamHandle,
    ) -> Seq<ActionView> {
        if completion is Failed {
            seq![ActionView::Endpoint(stream, EndpointView::Close)]
        } else if self.reaches_by_relay(remote.id) {
            greeting(completion, stream).push(
                ActionView::Session(
                    self.peer_list.session_of(remote.id),
                    SessionView::DirectIncoming(remote, stream),
                ),
            )
        } else {
            greeting(completion, stream).push(ActionView::Endpoint(stream, EndpointView::Close))
        }
    }

    /// The rest of the inbound router, once the key agreement has ended:
    /// the peer is taken in as a routing hint, with `session` and `stream`
    /// as its handles, or it is turned away.
    pub fn incoming(
        &mut self,
        remote: Peer,
        completion: Completion,
        session: SessionHandle,
        stream: StreamHandle,
    ) -> (actions: Vec<Action>)
        requires
            old(self).wf(),
        ensures
            final(self).wf(),
            final(self).same_node(old(self)),
            final(self).buffer == old(self).buffer,
            final(self).peer_list.same_setup(&old(self).peer_list),
            final(self).peer_list.entries() == if old(self).takes_in(remote, completion@) {
                old(self).peer_list.entries().push(
                    Entry {
                        value: KadValue { session, stream, peer: remote },
                        category: Category::Dht,
                    },
                )
            } else {
                old(self).peer_list.entries()
            },
            !old(self).takes_in(remote, completion@) ==> {
                actions_view(actions@) == old(self).turn_away(remote, completion@, stream)
            },
            old(self).takes_in(remote, completion@) ==> exists|hints: Seq<Peer>|
                nearest_hints(final(self).peer_list.entries(), remote.id, hints) && actions_view(
                    actions@,
                ) == #[trigger] old(self).welcome(remote, completion@, session, stream, hints),
    {
        let ghost before = *self;
        let mut actions = nothing();
        let key = match completion {
            Completion::Failed => {
                emit(&mut actions, Action::Endpoint(stream, EndpointMessage::Close));
                assert(actions_view(actions@) =~= seq![
                    ActionView::Endpoint(stream, EndpointView::Close),
                ]);
                return actions;
            },
            Completion::Initiated(key) => key,
            Completion::Accepted(key, remote_pk) => {
                emit(&mut actions, Action::Endpoint(stream, EndpointMessage::Handshake(remote_pk)));
                key
            },
        };
        assert(actions_view(actions@) =~= greeting(completion@, stream));
        if let Some(ss) = self.peer_list.is_relay(&remote.id) {
            emit(&mut actions, Action::Session(ss, SessionMessage::DirectIncoming(remote, stream)));
            return actions;
        }
        let kv = KadValue { session, stream, peer: remote };
        let is_new = self.peer_list.add_dht(kv);
        proof {
            self.lemma_rule_kept(&before, None, None);
        }
        if !is_new {
            emit(&mut actions, Action::Endpoint(stream, EndpointMessage::Close));
            return actions;
        }
        let peers = self.peer_list.help_dht(&remote.id);
        let ghost hints = peers@;
        emit(&mut actions, Action::Endpoint(stream, EndpointMessage::DHT(peers)));
        emit(&mut actions, Action::Spawn(session, stream, remote, key));
        assert(actions_view(actions@) =~= before.welcome(
            remote,
            completion@,
            session,
            stream,
            hints,
        ));
        actions
    }

    /// Whether `id` is a stable peer that is reached through a relay.
    pub open spec fn reaches_by_relay(&self, id: PeerId) -> bool {
        self.peer_list.category_of(id) matches Some(Category::StableRelay(_))
    }
}

} // verus!
