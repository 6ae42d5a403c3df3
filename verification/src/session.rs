use vstd::prelude::*;

use crate::actions::{emit, emit_receipt, nothing, part, parting, receipt};
use crate::global::Global;
use crate::kad::{leaves, stays, Gone, SessionHandle};
use crate::message::{
    actions_view, Action, ActionView, DeliveryType, ReceiveMessage, ReceiveView, SessionMessage,
    SessionView,
};
use crate::peer::Peer;
use crate::types::PeerId;

verus! {

/// What becomes of data that arrived for another peer to be passed on.
#[derive(Clone, Debug, PartialEq, Eq)]
pub enum Relayed {
    /// It is dropped.
    Dropped,
    /// It has reached its peer, this node: the data goes to the
    /// application, from the peer that sent it.
    Arrived(PeerId, Vec<u8>),
    /// It goes on through the session, with the hops it has left: session,
    /// hops, sender, receiver, data.
    Forward(SessionHandle, u8, PeerId, PeerId, Vec<u8>),
}

/// A `Relayed` as plain values.
pub enum RelayedView {
    Dropped,
    Arrived(PeerId, Seq<u8>),
    Forward(SessionHandle, u8, PeerId, PeerId, Seq<u8>),
}

impl View for Relayed {
    type V = RelayedView;

    open spec fn view(&self) -> RelayedView {
        match self {
            Relayed::Dropped => RelayedView::Dropped,
            Relayed::Arrived(from, data) => RelayedView::Arrived(*from, data@),
            Relayed::Forward(session, hops, from, to, data) => RelayedView::Forward(
                *session,
                *hops,
                *from,
                *to,
                data@,
            ),
        }
    }
}

/// The failed receipt for a message that a session could not send: one
/// for a message with a transaction id, none for any other.
pub open spec fn failed_message(message: SessionView, length: usize) -> Seq<ActionView> {
    match message {
        SessionView::Data(tid, data) => receipt(DeliveryType::Data, tid, false, data, length),
        SessionView::StableConnect(tid, data) => receipt(
            DeliveryType::StableConnect,
            tid,
            false,
            data,
            length,
        ),
        SessionView::StableResult(tid, _, _, data) => receipt(
            DeliveryType::StableResult,
            tid,
            false,
            data,
            length,
        ),
        _ => Seq::empty(),
    }
}

/// The failed receipts for what was left in a session's inbox, in its
/// order.
pub open spec fn failed_inbox(inbox: Seq<SessionView>, length: usize) -> Seq<ActionView>
    decreases inbox.len(),
{
    if inbox.len() == 0 {
        Seq::empty()
    } else {
        failed_inbox(inbox.drop_last(), length) + failed_message(inbox.last(), length)
    }
}

/// A session message as plain values, as a function.
pub open spec fn session_view() -> spec_fn(SessionMessage) -> SessionView {
    |m: SessionMessage| m@
}

impl Global {
    /// Takes a peer whose session has ended out of the registry, with the
    /// stable peers that were relayed through it. The application is told
    /// of every stable peer that leaves, and the sessions of the relayed
    /// peers are closed.
    pub fn leave(&mut self, id: &PeerId) -> (actions: Vec<Action>)
        requires
            old(self).wf(),
        ensures
            final(self).wf(),
            final(self).same_node(old(self)),
            final(self).buffer == old(self).buffer,
            final(self).peer_list.same_setup(&old(self).peer_list),
            final(self).peer_list.entries() == old(self).peer_list.entries().filter(
                stays(old(self).peer_list.entries(), Gone::Peer(*id)),
            ),
            actions_view(actions@) == parting(
                old(self).peer_list.entries().filter(
                    leaves(old(self).peer_list.entries(), Gone::Peer(*id)),
                ),
                Gone::Peer(*id),
                true,
                false,
            ),
    {
        let ghost before = *self;
        let left = self.peer_list.remove(id);
        proof {
            self.lemma_rule_kept(&before, None, None);
        }
        let mut actions = nothing();
        part(&mut actions, &left, &Gone::Peer(*id), true, false);
        actions
    }

    /// Takes the peers of a session whose inbox is gone out of the
    /// registry, as `leave` does for one peer.
    pub fn session_lost(&mut self, session: SessionHandle) -> (actions: Vec<Action>)
        requires
            old(self).wf(),
        ensures
            final(self).wf(),
            final(self).same_node(old(self)),
            final(self).buffer == old(self).buffer,
            final(self).peer_list.same_setup(&old(self).peer_list),
            final(self).peer_list.entries() == old(self).peer_list.entries().filter(
                stays(old(self).peer_list.entries(), Gone::Session(session)),
            ),
            actions_view(actions@) == parting(
                old(self).peer_list.entries().filter(
                    leaves(old(self).peer_list.entries(), Gone::Session(session)),
                ),
                Gone::Session(session),
                true,
                false,
            ),
    {
        let ghost before = *self;
        let left = self.peer_list.remove_session(session);
        proof {
            self.lemma_rule_kept(&before, None, None);
        }
        let mut actions = nothing();
        part(&mut actions, &left, &Gone::Session(session), true, false);
        actions
    }

    /// The end of a session, on a transport error or a close: its peer
    /// leaves the registry as in `leave`, and every message left in its
    /// inbox that carries a transaction id gets its failed receipt.
    pub fn closure(&mut self, id: &PeerId, inbox: Vec<SessionMessage>) -> (actions: Vec<Action>)
        requires
            old(self).wf(),
        ensures
            final(self).wf(),
            final(self).same_node(old(self)),
            final(self).buffer == old(self).buffer,
            final(self).peer_list.same_setup(&old(self).peer_list),
            final(self).peer_list.entries() == old(self).peer_list.entries().filter(
                stays(old(self).peer_list.entries(), Gone::Peer(*id)),
            ),
            actions_view(actions@) == parting(
                old(self).peer_list.entries().filter(
                    leaves(old(self).peer_list.entries(), Gone::Peer(*id)),
                ),
                Gone::Peer(*id),
                true,
                false,
            ) + failed_inbox(inbox@.map_values(session_view()), old(self).delivery_length),
    {
        let mut actions = self.leave(id);
        let ghost left = actions_view(actions@);
        let ghost all = inbox@.map_values(session_view());
        let length = self.delivery_length;
        let mut i: usize = 0;
        assert(all.take(0) =~= Seq::<SessionView>::empty());
        assert(actions_view(actions@) =~= left + failed_inbox(all.take(0), length));
        while i < inbox.len()
            invariant
                i <= inbox.len(),
                all == inbox@.map_values(session_view()),
                actions_view(actions@) == left + failed_inbox(all.take(i as int), length),
            decreases inbox.len() - i,
        {
            let ghost so_far = actions_view(actions@);
            match &inbox[i] {
                SessionMessage::Data(tid, data) => {
                    emit_receipt(&mut actions, DeliveryType::Data, *tid, false, data, length);
                },
                SessionMessage::StableConnect(tid, data) => {
                    emit_receipt(
                        &mut actions,
                        DeliveryType::StableConnect,
                        *tid,
                        false,
                        data,
                        length,
                    );
                },
                SessionMessage::StableResult(tid, _, _, data) => {
                    emit_receipt(
                        &mut actions,
                        DeliveryType::StableResult,
                        *tid,
                        false,
                        data,
                        length,
                    );
                },
                _ => {},
            }
            proof {
                let next = all.take(i + 1);
                assert(next.drop_last() =~= all.take(i as int));
                assert(next.last() == inbox@[i as int]@);
                assert(actions_view(actions@) =~= so_far + failed_message(next.last(), length));
                assert(actions_view(actions@) =~= left + failed_inbox(next, length));
            }
            i += 1;
        }
        assert(all.take(i as int) =~= all);
        actions
    }

    /// Data that arrived from a peer: it goes to the application, unless
    /// the node takes data from stable peers only and the peer is not
    /// stable.
    pub fn inbound_data(&self, from: &PeerId, data: Vec<u8>) -> (actions: Vec<Action>)
        requires
            self.wf(),
        ensures
            actions_view(actions@) == if self.recv_data || self.peer_list.in_stable(*from) {
                seq![ActionView::Out(ReceiveView::Data(*from, data@))]
            } else {
                Seq::<ActionView>::empty()
            },
    {
        let mut actions = nothing();
        if self.recv_data || self.peer_list.stable_session(from).is_some() {
            emit(&mut actions, Action::Out(ReceiveMessage::Data(*from, data)));
            assert(actions_view(actions@) =~= seq![
                ActionView::Out(ReceiveView::Data(*from, data@)),
            ]);
        }
        actions
    }

    /// What becomes of data from `from` for `to` that arrived with `hops`
    /// hops left. A node that passes nothing on drops it. Data for this
    /// node has arrived. Other data is dropped when its hops are used up or
    /// no peer is known; else it goes on, with one hop less, through the
    /// session of `to` or of the routing hint nearest to it.
    pub open spec fn relayed(
        &self,
        from: PeerId,
        to: PeerId,
        hops: u8,
        data: Seq<u8>,
    ) -> RelayedView {
        if !self.is_relay_data {
            RelayedView::Dropped
        } else if to == self.peer.id {
            RelayedView::Arrived(from, data)
        } else if hops == 0 {
            RelayedView::Dropped
        } else {
            match self.peer_list.lookup(to) {
                Some((session, _, _)) => RelayedView::Forward(
                    session,
                    (hops - 1) as u8,
                    from,
                    to,
                    data,
                ),
                None => RelayedView::Dropped,
            }
        }
    }

    /// Decides on data that arrived for another peer to be passed on.
    pub fn relay_data(
        &self,
        from: PeerId,
        to: PeerId,
        hops: u8,
        data: Vec<u8>,
    ) -> (relayed: Relayed)
        requires
            self.wf(),
        ensures
            relayed@ == self.relayed(from, to, hops, data@),
    {
        if !self.is_relay_data {
            Relayed::Dropped
        } else if to == self.peer.id {
            Relayed::Arrived(from, data)
        } else if hops == 0 {
            Relayed::Dropped
        } else {
            match self.peer_list.get(&to) {
                Some((session, _, _)) => Relayed::Forward(session, hops - 1, from, to, data),
                None => Relayed::Dropped,
            }
        }
    }
}

} // verus!
