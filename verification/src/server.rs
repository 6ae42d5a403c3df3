use vstd::prelude::*;

use crate::actions::{emit, emit_receipt, nothing, receipt};
use crate::buffer::{Buffer, Tmp};
use crate::config::Config;
use crate::dispatcher::connect_to;
use crate::global::Global;
use crate::kad::Entry;
use crate::message::{actions_view, Action, ActionView, DeliveryType, ReceiveMessage, ReceiveView};
use crate::peer::{Peer, SocketAddress};
use crate::peer_list::PeerList;
use crate::pending::{
    fresh, lemma_filter_waits, pendings_view, requests_view, stale, Pending, PendingView,
};
use crate::types::{PeerId, TransportType};

verus! {

/// The descriptor that knows only an id, as a function.
pub open spec fn id_only() -> spec_fn(PeerId) -> Peer {
    |id: PeerId| Peer::id_only(id)
}

/// The failed receipts for a list of requests, in their order.
pub open spec fn failed_all(
    kind: DeliveryType,
    requests: Seq<(u64, Seq<u8>)>,
    length: usize,
) -> Seq<ActionView>
    decreases requests.len(),
{
    if requests.len() == 0 {
        Seq::empty()
    } else {
        failed_all(kind, requests.drop_last(), length) + receipt(
            kind,
            requests.last().0,
            false,
            requests.last().1,
            length,
        )
    }
}

/// The failed receipts for the requests of a list of peers, in their
/// order.
pub open spec fn swept_receipts(
    kind: DeliveryType,
    pendings: Seq<PendingView>,
    length: usize,
) -> Seq<ActionView>
    decreases pendings.len(),
{
    if pendings.len() == 0 {
        Seq::empty()
    } else {
        swept_receipts(kind, pendings.drop_last(), length) + failed_all(
            kind,
            pendings.last().requests,
            length,
        )
    }
}

/// Appends the failed receipts for the requests that waited for each of
/// the peers.
fn fail_all(
    actions: &mut Vec<Action>,
    kind: DeliveryType,
    pendings: &Vec<Pending>,
    length: usize,
)
    ensures
        actions_view(final(actions)@) == actions_view(old(actions)@) + swept_receipts(
            kind,
            pendings_view(pendings@),
            length,
        ),
{
    let ghost base = actions_view(actions@);
    let ghost all = pendings_view(pendings@);
    let mut i: usize = 0;
    assert(all.take(0) =~= Seq::<PendingView>::empty());
    assert(actions_view(actions@) =~= base + swept_receipts(kind, all.take(0), length));
    while i < pendings.len()
        invariant
            i <= pendings.len(),
            all == pendings_view(pendings@),
            actions_view(actions@) == base + swept_receipts(kind, all.take(i as int), length),
        decreases pendings.len() - i,
    {
        let p = &pendings[i];
        let ghost requests = requests_view(p.requests@);
        let ghost done = base + swept_receipts(kind, all.take(i as int), length);
        let mut j: usize = 0;
        assert(requests.take(0) =~= Seq::<(u64, Seq<u8>)>::empty());
        assert(actions_view(actions@) =~= done + failed_all(kind, requests.take(0), length));
        while j < p.requests.len()
            invariant
                j <= p.requests.len(),
                requests == requests_view(p.requests@),
                actions_view(actions@) == done + failed_all(kind, requests.take(j as int), length),
            decreases p.requests.len() - j,
        {
            let ghost so_far = actions_view(actions@);
            emit_receipt(actions, kind, p.requests[j].0, false, &p.requests[j].1, length);
            proof {
                let next = requests.take(j + 1);
                assert(next.drop_last() =~= requests.take(j as int));
                assert(next.last() == requests[j as int]);
                assert(actions_view(actions@) =~= done + failed_all(kind, next, length));
            }
            j += 1;
        }
        proof {
            assert(requests.take(j as int) =~= requests);
            let next = all.take(i + 1);
            assert(next.drop_last() =~= all.take(i as int));
            assert(next.last() == all[i as int]);
            assert(all[i as int].requests == requests);
            assert(actions_view(actions@) =~= base + swept_receipts(kind, next, length));
        }
        i += 1;
    }
    assert(all.take(i as int) =~= all);
}

impl Global {
    /// The health check: the application is told when no peer is
    /// registered.
    pub fn check_network(&self) -> (actions: Vec<Action>)
        ensures
            actions_view(actions@) == if self.peer_list.entries().len() == 0 {
                seq![ActionView::Out(ReceiveView::NetworkLost)]
            } else {
                Seq::<ActionView>::empty()
            },
    {
        let mut actions = nothing();
        if self.peer_list.is_empty() {
            emit(&mut actions, Action::Out(ReceiveMessage::NetworkLost));
            assert(actions_view(actions@) =~= seq![ActionView::Out(ReceiveView::NetworkLost)]);
        }
        actions
    }

    /// The buffer sweep at the time `now`, in seconds: whatever has waited
    /// for the window or longer leaves the buffer, and every request among
    /// it gets its failed receipt, the connect requests first.
    pub fn sweep(&mut self, now: u64) -> (actions: Vec<Action>)
        requires
            old(self).wf(),
        ensures
            final(self).wf(),
            final(self).same_node(old(self)),
            final(self).same_registry(old(self)),
            final(self).buffer.window() == old(self).buffer.window(),
            final(self).buffer.connects() == old(self).buffer.connects().filter(
                fresh(now, old(self).buffer.window()),
            ),
            final(self).buffer.results() == old(self).buffer.results().filter(
                fresh(now, old(self).buffer.window()),
            ),
            final(self).buffer.tmps() == old(self).buffer.tmps().filter(
                crate::buffer::fresh_tmp(now, old(self).buffer.window()),
            ),
            actions_view(actions@) == swept_receipts(
                DeliveryType::StableConnect,
                old(self).buffer.connects().filter(stale(now, old(self).buffer.window())),
                old(self).delivery_length,
            ) + swept_receipts(
                DeliveryType::StableResult,
                old(self).buffer.results().filter(stale(now, old(self).buffer.window())),
                old(self).delivery_length,
            ),
    {
        let ghost before = *self;
        let swept = self.buffer.timer_clear(now);
        proof {
            lemma_filter_waits(before.buffer.connects(), fresh(now, before.buffer.window()));
            lemma_filter_waits(before.buffer.results(), fresh(now, before.buffer.window()));
            self.lemma_rule_kept(&before, None, None);
        }
        let mut actions = nothing();
        fail_all(&mut actions, DeliveryType::StableConnect, &swept.connects, self.delivery_length);
        fail_all(&mut actions, DeliveryType::StableResult, &swept.results, self.delivery_length);
        actions
    }
}

/// Sets a node up from its options, its identity and its listener, and
/// dials the bootstrap list.
///
/// `own` and `key` are the node's id and public key, `local` the address
/// its listener is bound to, `remembered` the peers of an earlier run. The
/// bootstrap list is the allow list, then the allowed ids as descriptors
/// that know only the id, then what was remembered.
pub fn start(
    config: Config,
    own: PeerId,
    key: Vec<u8>,
    local: SocketAddress,
    remembered: Vec<Peer>,
) -> (started: (Global, Vec<Action>))
    ensures
        started.0.wf(),
        started.0.peer == (Peer { id: own, socket: local, ..config.peer }),
        started.0.key@ == key@,
        started.0.transports@ == seq![config.peer.transport],
        started.0.is_relay_data == !config.permission,
        started.0.recv_data == !config.only_stable_data,
        started.0.delivery_length == config.delivery_length,
        started.0.peer_list.own() == own,
        started.0.peer_list.entries() == Seq::<Entry>::empty(),
        started.0.peer_list.seeds() == config.allowlist@ + config.allow_peer_list@.map_values(
            id_only(),
        ) + remembered@,
        started.0.peer_list.blocked_peers() == config.block_peer_list@,
        started.0.peer_list.blocked_addrs() == config.blocklist@,
        started.0.buffer.window() == crate::buffer::SWEEP_WINDOW,
        started.0.buffer.connects() == Seq::<PendingView>::empty(),
        started.0.buffer.results() == Seq::<PendingView>::empty(),
        started.0.buffer.tmps() == Seq::<Tmp>::empty(),
        actions_view(started.1@) == started.0.peer_list.seeds().map_values(connect_to()),
{
    let ghost listed = config.allowlist@;
    let ghost ids = config.allow_peer_list@;
    let mut allowlist = config.allowlist;
    let allowed = config.allow_peer_list;
    let mut i: usize = 0;
    assert(allowlist@ =~= listed + ids.take(0).map_values(id_only()));
    while i < allowed.len()
        invariant
            i <= allowed.len(),
            ids == allowed@,
            allowlist@ == listed + ids.take(i as int).map_values(id_only()),
        decreases allowed.len() - i,
    {
        allowlist.push(Peer::peer(allowed[i]));
        i += 1;
        assert(allowlist@ =~= listed + ids.take(i as int).map_values(id_only()));
    }
    assert(ids.take(i as int) =~= ids);
    let peer_list = PeerList::load(
        own,
        remembered,
        allowlist,
        (config.block_peer_list, config.blocklist),
    );
    let mut peer = config.peer;
    peer.id = own;
    peer.socket = local;
    let mut transports: Vec<TransportType> = Vec::new();
    transports.push(peer.transport);
    assert(transports@ =~= seq![config.peer.transport]);
    let global = Global {
        peer,
        key,
        transports,
        peer_list,
        buffer: Buffer::init(),
        is_relay_data: !config.permission,
        recv_data: !config.only_stable_data,
        delivery_length: config.delivery_length,
    };
    let actions = global.reboot();
    (global, actions)
}

} // verus!
