use vstd::prelude::*;

use crate::actions::{emit, emit_receipt, nothing, part, parting, receipt};
use crate::buffer::{park_of, parked};
use crate::global::Global;
use crate::kad::{leaves, stays, Entry, Gone, SessionHandle};
use crate::message::{
    actions_view, copy_bytes, delivery_head, delivery_split, Action, ActionView, DeliveryType,
    ReceiveMessage, ReceiveView, SendMessage, SendView, SessionMessage, SessionView, StateRequest,
    StateResponse, StateResponseView,
};
use crate::peer::{Peer, SocketAddress};
use crate::peer_list::{id_of, is_admitted, is_hint, session_row, stable_row};
use crate::pending::{filed, lemma_filed_waits, waits, PendingView};
use crate::types::{Broadcast, PeerId};

verus! {

/// Sending data to an entry's session, without a transaction id.
pub open spec fn data_to(data: Seq<u8>) -> spec_fn(Entry) -> ActionView {
    |e: Entry| ActionView::Session(e.value.session, SessionView::Data(0, data))
}

/// Dialling a peer.
pub open spec fn connect_to() -> spec_fn(Peer) -> ActionView {
    |p: Peer| ActionView::Connect(p)
}

/// An entry's id and whether it is reached directly.
pub open spec fn standing_row() -> spec_fn(Entry) -> (PeerId, bool) {
    |e: Entry| (e.id(), !e.is_relay())
}

impl Global {
    /// Whether a stable request for `to` is neither refused nor handed to
    /// a session, so that it waits for a connection: `to` is another node,
    /// not registered, not parked, and some routing hint is known.
    pub open spec fn must_connect(&self, to: Peer) -> bool {
        &&& to.id != self.peer.id
        &&& self.peer_list.lookup(to.id) matches Some(found) && !found.2
        &&& !parked(self.buffer.tmps(), to.id)
    }

    /// The session of the peer parked under `id`.
    pub open spec fn tmp_session(&self, id: PeerId) -> SessionHandle {
        self.buffer.tmps()[park_of(self.buffer.tmps(), id)].value.session
    }

    /// How a connection is opened for a request that must connect: at the
    /// peer's socket where it has one, else through the nearest neighbour;
    /// not at all where one is being opened already.
    pub open spec fn opening(
        &self,
        waiting: Seq<PendingView>,
        tid: u64,
        to: Peer,
        data: Seq<u8>,
        via: SessionHandle,
    ) -> Seq<ActionView> {
        let head = delivery_head(data, self.delivery_length as nat);
        if waits(waiting, to.id) {
            Seq::empty()
        } else if to.has_socket() {
            seq![ActionView::DirectStable(tid, head, to)]
        } else {
            seq![ActionView::RelayStable(tid, head, to, via)]
        }
    }

    /// What is done with a request for a stable connection.
    ///
    /// To oneself, or with no peer known at all: a failed receipt. To a
    /// registered peer: handed to its session. To a parked peer: handed
    /// to its session. Else it waits for a connection, which is opened
    /// unless one is being opened already.
    pub open spec fn plan_stable_connect(&self, tid: u64, to: Peer, data: Seq<u8>) -> Seq<
        ActionView,
    > {
        let failed = receipt(DeliveryType::StableConnect, tid, false, data, self.delivery_length);
        let message = SessionView::StableConnect(tid, data);
        if to.id == self.peer.id {
            failed
        } else {
            match self.peer_list.lookup(to.id) {
                None => failed,
                Some((s, _, exact)) => if exact {
                    seq![ActionView::Session(s, message)]
                } else if parked(self.buffer.tmps(), to.id) {
                    seq![ActionView::Session(self.tmp_session(to.id), message)]
                } else {
                    self.opening(self.buffer.connects(), tid, to, data, s)
                },
            }
        }
    }

    /// What is done with the answer to a peer's request for a stable
    /// connection: as with the request itself, but a parked peer is looked
    /// for first.
    pub open spec fn plan_stable_result(
        &self,
        tid: u64,
        to: Peer,
        is_ok: bool,
        is_force: bool,
        data: Seq<u8>,
    ) -> Seq<ActionView> {
        let failed = receipt(DeliveryType::StableResult, tid, false, data, self.delivery_length);
        let message = SessionView::StableResult(tid, is_ok, is_force, data);
        if to.id == self.peer.id {
            failed
        } else if parked(self.buffer.tmps(), to.id) {
            seq![ActionView::Session(self.tmp_session(to.id), message)]
        } else {
            match self.peer_list.lookup(to.id) {
                None => failed,
                Some((s, _, exact)) => if exact {
                    seq![ActionView::Session(s, message)]
                } else {
                    self.opening(self.buffer.results(), tid, to, data, s)
                },
            }
        }
    }

    /// What is done with data for a peer.
    ///
    /// To oneself: a receipt of success, then the data itself. To a stable
    /// peer: handed to its session. To a peer that is not registered,
    /// where this node passes data on: handed to the nearest neighbour to
    /// pass on. Else a failed receipt.
    pub open spec fn plan_data(&self, tid: u64, to: PeerId, data: Seq<u8>) -> Seq<ActionView> {
        if to == self.peer.id {
            receipt(DeliveryType::Data, tid, true, data, self.delivery_length).push(
                ActionView::Out(ReceiveView::Data(to, data)),
            )
        } else if self.peer_list.in_stable(to) {
            seq![ActionView::Session(self.peer_list.session_of(to), SessionView::Data(tid, data))]
        } else if self.relays_to(to) {
            seq![
                ActionView::Session(
                    self.peer_list.lookup(to)->Some_0.0,
                    SessionView::RelayData(self.peer.id, to, data),
                ),
            ]
        } else {
            receipt(DeliveryType::Data, tid, false, data, self.delivery_length)
        }
    }

    /// Whether data for `to` goes to a neighbour to pass on: this node
    /// passes data on, `to` is not registered and a routing hint is known.
    pub open spec fn relays_to(&self, to: PeerId) -> bool {
        &&& self.is_relay_data
        &&& self.peer_list.lookup(to) matches Some(found) && !found.2
    }

    /// What a broadcast sends: the data, without transaction id, to every
    /// stable peer, or to every registered peer for gossip.
    pub open spec fn plan_broadcast(&self, kind: Broadcast, data: Seq<u8>) -> Seq<ActionView> {
        match kind {
            Broadcast::StableAll => self.peer_list.entries().filter(is_admitted()).map_values(
                data_to(data),
            ),
            Broadcast::Gossip => self.peer_list.entries().map_values(data_to(data)),
        }
    }

    /// The snapshot of the network that a request asks for.
    pub open spec fn snapshot(&self, request: StateRequest) -> StateResponseView {
        match request {
            StateRequest::Stable => StateResponseView::Stable(
                self.peer_list.entries().filter(is_admitted()).map_values(standing_row()),
            ),
            StateRequest::DHT => StateResponseView::DHT(
                self.peer_list.entries().filter(is_hint()).map_values(id_of()),
            ),
            StateRequest::Seed => StateResponseView::Seed(self.peer_list.seeds()),
        }
    }

    /// Handles a request for a stable connection.
    pub fn stable_connect(&mut self, tid: u64, to: Peer, data: Vec<u8>, now: u64) -> (actions: Vec<
        Action,
    >)
        requires
            old(self).wf(),
        ensures
            final(self).wf(),
            final(self).same_node(old(self)),
            final(self).same_registry(old(self)),
            actions_view(actions@) == old(self).plan_stable_connect(tid, to, data@),
            final(self).buffer.connects() == if old(self).must_connect(to) {
                filed(old(self).buffer.connects(), to.id, tid, data@, now)
            } else {
                old(self).buffer.connects()
            },
            final(self).buffer.results() == old(self).buffer.results(),
            final(self).buffer.tmps() == old(self).buffer.tmps(),
            final(self).buffer.window() == old(self).buffer.window(),
    {
        let ghost before = *self;
        let mut actions = nothing();
        if to.id == self.peer.id {
            emit_receipt(
                &mut actions,
                DeliveryType::StableConnect,
                tid,
                false,
                &data,
                self.delivery_length,
            );
            return actions;
        }
        match self.peer_list.get(&to.id) {
            None => {
                emit_receipt(
                    &mut actions,
                    DeliveryType::StableConnect,
                    tid,
                    false,
                    &data,
                    self.delivery_length,
                );
            },
            Some((s, _, is_it)) => {
                if is_it {
                    emit(
                        &mut actions,
                        Action::Session(s, SessionMessage::StableConnect(tid, data)),
                    );
                } else {
                    match self.buffer.get_tmp_session(&to.id) {
                        Some(sender) => {
                            emit(
                                &mut actions,
                                Action::Session(sender, SessionMessage::StableConnect(tid, data)),
                            );
                        },
                        None => {
                            let delivery = delivery_split(&data, self.delivery_length);
                            let ghost bytes = data@;
                            let existed = self.buffer.add_connect(to.id, tid, data, now);
                            if !existed {
                                if to.effective_socket() {
                                    emit(&mut actions, Action::DirectStable(tid, delivery, to));
                                } else {
                                    emit(&mut actions, Action::RelayStable(tid, delivery, to, s));
                                }
                            }
                            proof {
                                lemma_filed_waits(
                                    before.buffer.connects(),
                                    to.id,
                                    tid,
                                    bytes,
                                    now,
                                );
                                self.lemma_rule_kept(&before, None, Some(to.id));
                            }
                        },
                    }
                }
            },
        }
        assert(actions_view(actions@) =~= before.plan_stable_connect(tid, to, data@));
        actions
    }

    /// Handles the answer to a peer's request for a stable connection.
    pub fn stable_result(
        &mut self,
        tid: u64,
        to: Peer,
        is_ok: bool,
        is_force: bool,
        data: Vec<u8>,
        now: u64,
    ) -> (actions: Vec<Action>)
        requires
            old(self).wf(),
        ensures
            final(self).wf(),
            final(self).same_node(old(self)),
            final(self).same_registry(old(self)),
            actions_view(actions@) == old(self).plan_stable_result(tid, to, is_ok, is_force, data@),
            final(self).buffer.results() == if old(self).must_connect(to) {
                filed(old(self).buffer.results(), to.id, tid, data@, now)
            } else {
                old(self).buffer.results()
            },
            final(self).buffer.connects() == old(self).buffer.connects(),
            final(self).buffer.tmps() == old(self).buffer.tmps(),
            final(self).buffer.window() == old(self).buffer.window(),
    {
        let ghost before = *self;
        let mut actions = nothing();
        if to.id == self.peer.id {
            emit_receipt(
                &mut actions,
                DeliveryType::StableResult,
                tid,
                false,
                &data,
                self.delivery_length,
            );
            return actions;
        }
        if let Some(sender) = self.buffer.get_tmp_session(&to.id) {
            emit(
                &mut actions,
                Action::Session(sender, SessionMessage::StableResult(tid, is_ok, is_force, data)),
            );
            return actions;
        }
        match self.peer_list.get(&to.id) {
            None => {
                emit_receipt(
                    &mut actions,
                    DeliveryType::StableResult,
                    tid,
                    false,
                    &data,
                    self.delivery_length,
                );
            },
            Some((s, _, is_it)) => {
                if is_it {
                    let message = SessionMessage::StableResult(tid, is_ok, is_force, data);
                    emit(&mut actions, Action::Session(s, message));
                } else {
                    let delivery = delivery_split(&data, self.delivery_length);
                    let ghost bytes = data@;
                    let existed = self.buffer.add_result(to.id, tid, data, now);
                    if !existed {
                        if to.effective_socket() {
                            emit(&mut actions, Action::DirectStable(tid, delivery, to));
                        } else {
                            emit(&mut actions, Action::RelayStable(tid, delivery, to, s));
                        }
                    }
                    proof {
                        lemma_filed_waits(before.buffer.results(), to.id, tid, bytes, now);
                        self.lemma_rule_kept(&before, None, Some(to.id));
                    }
                }
            },
        }
        assert(actions_view(actions@) =~= before.plan_stable_result(
            tid,
            to,
            is_ok,
            is_force,
            data@,
        ));
        actions
    }

    /// Ends the stable connection with a peer: its session is closed if it
    /// is stable, and nothing is done otherwise.
    pub fn stable_disconnect(&self, id: &PeerId) -> (actions: Vec<Action>)
        requires
            self.wf(),
        ensures
            actions_view(actions@) == if self.peer_list.in_stable(*id) {
                seq![ActionView::Session(self.peer_list.session_of(*id), SessionView::Close)]
            } else {
                Seq::<ActionView>::empty()
            },
    {
        let mut actions = nothing();
        if let Some(session) = self.peer_list.stable_session(id) {
            emit(&mut actions, Action::Session(session, SessionMessage::Close));
        }
        assert(actions_view(actions@) =~= if self.peer_list.in_stable(*id) {
            seq![ActionView::Session(self.peer_list.session_of(*id), SessionView::Close)]
        } else {
            Seq::<ActionView>::empty()
        });
        actions
    }

    /// Drops whoever is connected at a socket, with the stable peers that
    /// were relayed through them: the application is told of every stable
    /// peer among them, and their sessions are closed.
    pub fn disconnect(&mut self, addr: &SocketAddress) -> (actions: Vec<Action>)
        requires
            old(self).wf(),
        ensures
            final(self).wf(),
            final(self).same_node(old(self)),
            final(self).buffer == old(self).buffer,
            final(self).peer_list.same_setup(&old(self).peer_list),
            final(self).peer_list.entries() == old(self).peer_list.entries().filter(
                stays(old(self).peer_list.entries(), Gone::Socket(*addr)),
            ),
            actions_view(actions@) == parting(
                old(self).peer_list.entries().filter(
                    leaves(old(self).peer_list.entries(), Gone::Socket(*addr)),
                ),
                Gone::Socket(*addr),
                true,
                true,
            ),
    {
        let ghost before = *self;
        let left = self.peer_list.peer_disconnect(addr);
        proof {
            self.lemma_rule_kept(&before, None, None);
        }
        let mut actions = nothing();
        part(&mut actions, &left, &Gone::Socket(*addr), true, true);
        actions
    }

    /// Handles data for a peer.
    pub fn data(&self, tid: u64, to: PeerId, data: Vec<u8>) -> (actions: Vec<Action>)
        requires
            self.wf(),
        ensures
            actions_view(actions@) == self.plan_data(tid, to, data@),
    {
        let mut actions = nothing();
        if to == self.peer.id {
            emit_receipt(&mut actions, DeliveryType::Data, tid, true, &data, self.delivery_length);
            emit(&mut actions, Action::Out(ReceiveMessage::Data(to, data)));
        } else {
            match self.peer_list.stable_session(&to) {
                Some(session) => {
                    emit(&mut actions, Action::Session(session, SessionMessage::Data(tid, data)));
                },
                None => {
                    let relay = if self.is_relay_data {
                        match self.peer_list.get(&to) {
                            Some((s, _, is_it)) => if is_it {
                                None
                            } else {
                                Some(s)
                            },
                            None => None,
                        }
                    } else {
                        None
                    };
                    match relay {
                        Some(s) => {
                            emit(
                                &mut actions,
                                Action::Session(
                                    s,
                                    SessionMessage::RelayData(self.peer.id, to, data),
                                ),
                            );
                        },
                        None => {
                            emit_receipt(
                                &mut actions,
                                DeliveryType::Data,
                                tid,
                                false,
                                &data,
                                self.delivery_length,
                            );
                        },
                    }
                },
            }
        }
        assert(actions_view(actions@) =~= self.plan_data(tid, to, data@));
        actions
    }

    /// Sends data to many peers at once, without transaction id and
    /// without receipt.
    pub fn broadcast(&self, kind: Broadcast, data: Vec<u8>) -> (actions: Vec<Action>)
        ensures
            actions_view(actions@) == self.plan_broadcast(kind, data@),
    {
        let mut actions = nothing();
        match kind {
            Broadcast::StableAll => {
                let rows = self.peer_list.stable_all();
                let ghost picked = self.peer_list.entries().filter(is_admitted());
                let mut i: usize = 0;
                while i < rows.len()
                    invariant
                        i <= rows.len(),
                        rows@ == picked.map_values(stable_row()),
                        actions_view(actions@) == picked.take(i as int).map_values(data_to(data@)),
                    decreases rows.len() - i,
                {
                    let session = rows[i].1.0;
                    emit(
                        &mut actions,
                        Action::Session(session, SessionMessage::Data(0, copy_bytes(&data))),
                    );
                    i += 1;
                    assert(actions_view(actions@) =~= picked.take(i as int).map_values(
                        data_to(data@),
                    ));
                }
                assert(picked.take(i as int) =~= picked);
            },
            Broadcast::Gossip => {
                let rows = self.peer_list.all();
                let ghost entries = self.peer_list.entries();
                let mut i: usize = 0;
                while i < rows.len()
                    invariant
                        i <= rows.len(),
                        rows@ == entries.map_values(session_row()),
                        actions_view(actions@) == entries.take(i as int).map_values(data_to(data@)),
                    decreases rows.len() - i,
                {
                    let session = rows[i].1;
                    emit(
                        &mut actions,
                        Action::Session(session, SessionMessage::Data(0, copy_bytes(&data))),
                    );
                    i += 1;
                    assert(actions_view(actions@) =~= entries.take(i as int).map_values(
                        data_to(data@),
                    ));
                }
                assert(entries.take(i as int) =~= entries);
            },
        }
        actions
    }

    /// Answers the application's question about the network.
    pub fn network_state(&self, request: StateRequest) -> (response: StateResponse)
        ensures
            response@ == self.snapshot(request),
    {
        match request {
            StateRequest::Stable => {
                let rows = self.peer_list.stable_all();
                let ghost picked = self.peer_list.entries().filter(is_admitted());
                let mut peers: Vec<(PeerId, bool)> = Vec::new();
                let mut i: usize = 0;
                while i < rows.len()
                    invariant
                        i <= rows.len(),
                        rows@ == picked.map_values(stable_row()),
                        peers@ == picked.take(i as int).map_values(standing_row()),
                    decreases rows.len() - i,
                {
                    peers.push((rows[i].0, rows[i].1.1));
                    i += 1;
                    assert(peers@ =~= picked.take(i as int).map_values(standing_row()));
                }
                assert(picked.take(i as int) =~= picked);
                StateResponse::Stable(peers)
            },
            StateRequest::DHT => StateResponse::DHT(self.peer_list.dht_keys()),
            StateRequest::Seed => {
                let seeds = self.peer_list.bootstrap();
                let mut peers: Vec<Peer> = Vec::new();
                let mut i: usize = 0;
                while i < seeds.len()
                    invariant
                        i <= seeds.len(),
                        peers@ == seeds@.take(i as int),
                    decreases seeds.len() - i,
                {
                    peers.push(seeds[i]);
                    i += 1;
                    assert(peers@ =~= seeds@.take(i as int));
                }
                assert(seeds@.take(i as int) =~= seeds@);
                StateResponse::Seed(peers)
            },
        }
    }

    /// Dials every peer of the bootstrap list, in its order.
    pub fn reboot(&self) -> (actions: Vec<Action>)
        ensures
            actions_view(actions@) == self.peer_list.seeds().map_values(connect_to()),
    {
        let seeds = self.peer_list.bootstrap();
        let mut actions = nothing();
        let mut i: usize = 0;
        while i < seeds.len()
            invariant
                i <= seeds.len(),
                seeds@ == self.peer_list.seeds(),
                actions_view(actions@) == seeds@.take(i as int).map_values(connect_to()),
            decreases seeds.len() - i,
        {
            emit(&mut actions, Action::Connect(seeds[i]));
            i += 1;
            assert(actions_view(actions@) =~= seeds@.take(i as int).map_values(connect_to()));
        }
        assert(seeds@.take(i as int) =~= seeds@);
        actions
    }

    /// What the dispatcher does with a request.
    pub open spec fn plan(&self, message: SendView) -> Seq<ActionView> {
        match message {
            SendView::StableConnect(tid, to, data) => self.plan_stable_connect(tid, to, data),
            SendView::StableResult(tid, to, is_ok, is_force, data) => self.plan_stable_result(
                tid,
                to,
                is_ok,
                is_force,
                data,
            ),
            SendView::StableDisconnect(id) => if self.peer_list.in_stable(id) {
                seq![ActionView::Session(self.peer_list.session_of(id), SessionView::Close)]
            } else {
                Seq::empty()
            },
            SendView::Connect(peer) => seq![ActionView::Connect(peer)],
            SendView::DisConnect(peer) => parting(
                self.peer_list.entries().filter(
                    leaves(self.peer_list.entries(), Gone::Socket(peer.socket)),
                ),
                Gone::Socket(peer.socket),
                true,
                true,
            ),
            SendView::Data(tid, to, data) => self.plan_data(tid, to, data),
            SendView::Broadcast(kind, data) => self.plan_broadcast(kind, data),
            SendView::Stream(_, _, _) => Seq::empty(),
            SendView::NetworkState(request) => seq![ActionView::State(self.snapshot(request))],
            SendView::NetworkReboot => self.peer_list.seeds().map_values(connect_to()),
        }
    }

    /// The connect requests in flight after a request was dispatched.
    pub open spec fn connects_after(&self, message: SendView, now: u64) -> Seq<PendingView> {
        match message {
            SendView::StableConnect(tid, to, data) => if self.must_connect(to) {
                filed(self.buffer.connects(), to.id, tid, data, now)
            } else {
                self.buffer.connects()
            },
            _ => self.buffer.connects(),
        }
    }

    /// The result requests in flight after a request was dispatched.
    pub open spec fn results_after(&self, message: SendView, now: u64) -> Seq<PendingView> {
        match message {
            SendView::StableResult(tid, to, _, _, data) => if self.must_connect(to) {
                filed(self.buffer.results(), to.id, tid, data, now)
            } else {
                self.buffer.results()
            },
            _ => self.buffer.results(),
        }
    }

    /// The registry entries after a request was dispatched.
    pub open spec fn entries_after(&self, message: SendView) -> Seq<Entry> {
        match message {
            SendView::DisConnect(peer) => self.peer_list.entries().filter(
                stays(self.peer_list.entries(), Gone::Socket(peer.socket)),
            ),
            _ => self.peer_list.entries(),
        }
    }

    /// The dispatcher: takes one request of the application at the time
    /// `now`, in seconds, and says what to do.
    pub fn dispatch(&mut self, message: SendMessage, now: u64) -> (actions: Vec<Action>)
        requires
            old(self).wf(),
        ensures
            final(self).wf(),
            final(self).same_node(old(self)),
            final(self).peer_list.same_setup(&old(self).peer_list),
            actions_view(actions@) == old(self).plan(message@),
            final(self).peer_list.entries() == old(self).entries_after(message@),
            final(self).buffer.connects() == old(self).connects_after(message@, now),
            final(self).buffer.results() == old(self).results_after(message@, now),
            final(self).buffer.tmps() == old(self).buffer.tmps(),
            final(self).buffer.window() == old(self).buffer.window(),
    {
        match message {
            SendMessage::StableConnect(tid, to, data) => self.stable_connect(tid, to, data, now),
            SendMessage::StableResult(tid, to, is_ok, is_force, data) => self.stable_result(
                tid,
                to,
                is_ok,
                is_force,
                data,
                now,
            ),
            SendMessage::StableDisconnect(id) => self.stable_disconnect(&id),
            SendMessage::Connect(peer) => {
                let mut actions = nothing();
                emit(&mut actions, Action::Connect(peer));
                assert(actions_view(actions@) =~= seq![ActionView::Connect(peer)]);
                actions
            },
            SendMessage::DisConnect(peer) => self.disconnect(&peer.socket),
            SendMessage::Data(tid, to, data) => self.data(tid, to, data),
            SendMessage::Broadcast(kind, data) => self.broadcast(kind, data),
            SendMessage::Stream(_symbol, _stream_type, _data) => nothing(),
            SendMessage::NetworkState(request) => {
                let mut actions = nothing();
                let response = self.network_state(request);
                emit(&mut actions, Action::State(response));
                assert(actions_view(actions@) =~= seq![ActionView::State(self.snapshot(request))]);
                actions
            },
            SendMessage::NetworkReboot => self.reboot(),
        }
    }
}

} // verus!
