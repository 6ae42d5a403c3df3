use vstd::prelude::*;

use crate::actions::{parting, parting_of, receipt};
use crate::dispatcher::data_to;
use crate::distance::{distance, lemma_distance_injective, prefix_value, xor_bytes};
use crate::global::Global;
use crate::hex::{lemma_hex_round_trip, parse_hex};
use crate::kad::{hits, holds, lemma_filter_members, lemma_place, place_of, Entry, Gone};
use crate::keys::{accepted_of, lemma_accepted_rising};
use crate::message::{ActionView, DeliveryType, ReceiveView, SessionView};
use crate::peer::{Peer, SocketAddress};
use crate::peer_list::{
    is_admitted, lemma_hints_determined, nearest_hints, PeerList, RegistryState,
};
use crate::pending::{filed, one_slot_each, requests_of, slot_of, waits, PendingView};
use crate::router::Screening;
use crate::server::failed_all;
use crate::session::{failed_inbox, failed_message, RelayedView};
use crate::types::{Broadcast, PeerId, TransportType};

verus! {

/// The number of registry categories that hold `id`: routing hints, stable
/// peers, blocked peers.
pub open spec fn categories_containing(list: PeerList, id: PeerId) -> nat {
    (if list.in_dht(id) {
        1nat
    } else {
        0nat
    }) + (if list.in_stable(id) {
        1nat
    } else {
        0nat
    }) + (if list.is_blocked(id) {
        1nat
    } else {
        0nat
    })
}

/// A peer id is in one registry category at most, and its state names
/// that category. Every operation on the registry keeps the invariant
/// that this rests on.
pub proof fn law_one_category(list: PeerList, id: PeerId)
    requires
        list.wf(),
    ensures
        categories_containing(list, id) <= 1,
        list.state_of(id) is Blocked <==> list.is_blocked(id),
        list.state_of(id) is Dht <==> list.in_dht(id),
        list.state_of(id) is StableDirect || list.state_of(id) is StableRelay <==> list.in_stable(
            id,
        ),
        list.state_of(id) is Unknown <==> categories_containing(list, id) == 0,
        id == list.own() ==> list.state_of(id) is Unknown || list.state_of(id) is Blocked,
{
    let entries = list.entries();
    if holds(entries, id) {
        let k = place_of(entries, id);
        assert(entries[k].id() == id);
        assert forall|i: int| 0 <= i < entries.len() && (#[trigger] entries[i]).id()
            == id implies i == k by {
            lemma_place(entries, i);
        }
    }
}

/// Writing an id as hexadecimal text and reading the text gives the id
/// back.
pub proof fn law_hex_round_trip(id: PeerId)
    ensures
        parse_hex(id.hex()) == Some(id@),
{
    lemma_hex_round_trip(id@);
}

/// An id made from the bytes of an id is that id.
pub proof fn law_bytes_round_trip(id: PeerId, back: PeerId)
    requires
        back@ == id@,
    ensures
        back == id,
{
    PeerId::lemma_view_injective(id, back);
}

/// A transport kind read from the byte it was written as is that kind, and
/// only the bytes 0 to 3 stand for a kind.
pub proof fn law_transport_byte_round_trip(kind: TransportType, b: u8)
    ensures
        TransportType::of_byte(kind.byte_of()) == Some(kind),
        TransportType::of_byte(b) is Some <==> b < 4,
        TransportType::of_byte(b) matches Some(k) ==> k.byte_of() == b,
{
}

/// A transport kind read from the name it was written as is that kind.
pub proof fn law_transport_name_round_trip(kind: TransportType)
    ensures
        TransportType::of_name(kind.name_of()) == kind,
{
    reveal_strlit("quic");
    reveal_strlit("tcp");
    reveal_strlit("rtp");
    reveal_strlit("udt");
    assert("quic"@.len() == 4 && "tcp"@.len() == 3);
    assert("tcp"@[0] == 't' && "rtp"@[0] == 'r' && "udt"@[0] == 'u');
}

/// The action sends `data` to the session of some stable peer.
pub open spec fn goes_to_stable(entries: Seq<Entry>, data: Seq<u8>, action: ActionView) -> bool {
    exists|i: int|
        0 <= i < entries.len() && (#[trigger] entries[i]).is_stable() && action == data_to(data)(
            entries[i],
        )
}

/// A broadcast to the stable peers sends the data to the session of every
/// stable peer, once for each and in the order of the registry, and
/// nothing to a peer that is only a routing hint.
pub proof fn law_stable_broadcast(g: Global, data: Seq<u8>)
    requires
        g.wf(),
    ensures
        forall|e: Entry|
            g.peer_list.entries().contains(e) && e.is_stable() ==> g.plan_broadcast(
                Broadcast::StableAll,
                data,
            ).contains(#[trigger] data_to(data)(e)),
        forall|k: int|
            0 <= k < g.plan_broadcast(Broadcast::StableAll, data).len() ==> goes_to_stable(
                g.peer_list.entries(),
                data,
                #[trigger] g.plan_broadcast(Broadcast::StableAll, data)[k],
            ),
        g.plan_broadcast(Broadcast::StableAll, data).len() == g.peer_list.entries().filter(
            is_admitted(),
        ).len(),
{
    let entries = g.peer_list.entries();
    let picked = entries.filter(is_admitted());
    let plan = g.plan_broadcast(Broadcast::StableAll, data);
    lemma_filter_members(entries, is_admitted());
    assert forall|e: Entry| entries.contains(e) && e.is_stable() implies plan.contains(
        #[trigger] data_to(data)(e),
    ) by {
        assert(picked.contains(e));
        let k = choose|k: int| 0 <= k < picked.len() && picked[k] == e;
        assert(plan[k] == data_to(data)(e));
    }
    assert forall|k: int| 0 <= k < plan.len() implies goes_to_stable(
        entries,
        data,
        #[trigger] plan[k],
    ) by {
        assert(picked.contains(picked[k]));
        assert(entries.contains(picked[k]));
        let i = choose|i: int| 0 <= i < entries.len() && entries[i] == picked[k];
        assert(entries[i].is_stable());
    }
}

/// The number of delivery receipts for the transaction `tid` among some
/// actions.
pub open spec fn receipts_for(actions: Seq<ActionView>, tid: u64) -> nat
    decreases actions.len(),
{
    if actions.len() == 0 {
        0
    } else {
        receipts_for(actions.drop_last(), tid) + match actions.last() {
            ActionView::Out(ReceiveView::Delivery(_, t, _, _)) => if t == tid {
                1nat
            } else {
                0nat
            },
            _ => 0nat,
        }
    }
}

/// The number of messages among some actions that hand the transaction
/// `tid` to a session, which then owes its receipt.
pub open spec fn handed_on(actions: Seq<ActionView>, tid: u64) -> nat
    decreases actions.len(),
{
    if actions.len() == 0 {
        0
    } else {
        handed_on(actions.drop_last(), tid) + match actions.last() {
            ActionView::Session(_, SessionView::Data(t, _)) => if t == tid {
                1nat
            } else {
                0nat
            },
            ActionView::Session(_, SessionView::StableConnect(t, _)) => if t == tid {
                1nat
            } else {
                0nat
            },
            ActionView::Session(_, SessionView::StableResult(t, _, _, _)) => if t == tid {
                1nat
            } else {
                0nat
            },
            _ => 0nat,
        }
    }
}

/// The number of requests with the transaction id `tid` in a list.
pub open spec fn requests_with(requests: Seq<(u64, Seq<u8>)>, tid: u64) -> nat
    decreases requests.len(),
{
    if requests.len() == 0 {
        0
    } else {
        requests_with(requests.drop_last(), tid) + if requests.last().0 == tid {
            1nat
        } else {
            0nat
        }
    }
}

proof fn lemma_count_one(action: ActionView, tid: u64)
    ensures
        receipts_for(seq![action], tid) == match action {
            ActionView::Out(ReceiveView::Delivery(_, t, _, _)) => if t == tid {
                1nat
            } else {
                0nat
            },
            _ => 0nat,
        },
        handed_on(seq![action], tid) == match action {
            ActionView::Session(_, SessionView::Data(t, _)) => if t == tid {
                1nat
            } else {
                0nat
            },
            ActionView::Session(_, SessionView::StableConnect(t, _)) => if t == tid {
                1nat
            } else {
                0nat
            },
            ActionView::Session(_, SessionView::StableResult(t, _, _, _)) => if t == tid {
                1nat
            } else {
                0nat
            },
            _ => 0nat,
        },
{
    let one = seq![action];
    assert(one.drop_last() =~= Seq::<ActionView>::empty());
    assert(one.last() == action);
    assert(receipts_for(one.drop_last(), tid) == 0);
    assert(handed_on(one.drop_last(), tid) == 0);
}

proof fn lemma_count_add(a: Seq<ActionView>, b: Seq<ActionView>, tid: u64)
    ensures
        receipts_for(a + b, tid) == receipts_for(a, tid) + receipts_for(b, tid),
    decreases b.len(),
{
    if b.len() == 0 {
        assert(a + b =~= a);
    } else {
        assert((a + b).drop_last() =~= a + b.drop_last());
        assert((a + b).last() == b.last());
        lemma_count_add(a, b.drop_last(), tid);
    }
}

/// A request for a stable connection with a transaction id is accounted
/// for once when it is dispatched: by one receipt, by one message that
/// hands it to a session, or by its place among the requests that wait for
/// a connection, where the sweep finds it.
pub proof fn law_connect_accounted(g: Global, tid: u64, to: Peer, data: Seq<u8>, now: u64)
    requires
        g.wf(),
        tid != 0,
    ensures
        receipts_for(g.plan_stable_connect(tid, to, data), tid) + handed_on(
            g.plan_stable_connect(tid, to, data),
            tid,
        ) + (if g.must_connect(to) {
            1nat
        } else {
            0nat
        }) == 1,
        g.must_connect(to) ==> requests_of(
            filed(g.buffer.connects(), to.id, tid, data, now),
            to.id,
        ).last() == (tid, data),
{
    let plan = g.plan_stable_connect(tid, to, data);
    if plan.len() == 1 {
        assert(plan =~= seq![plan[0]]);
        lemma_count_one(plan[0], tid);
    } else {
        assert(plan =~= Seq::<ActionView>::empty());
    }
    if g.must_connect(to) {
        lemma_filed_last(g.buffer.connects(), to.id, tid, data, now);
    }
}

/// The answer to a request for a stable connection is accounted for once
/// in the same way.
pub proof fn law_result_accounted(
    g: Global,
    tid: u64,
    to: Peer,
    is_ok: bool,
    is_force: bool,
    data: Seq<u8>,
    now: u64,
)
    requires
        g.wf(),
        tid != 0,
    ensures
        receipts_for(g.plan_stable_result(tid, to, is_ok, is_force, data), tid) + handed_on(
            g.plan_stable_result(tid, to, is_ok, is_force, data),
            tid,
        ) + (if g.must_connect(to) {
            1nat
        } else {
            0nat
        }) == 1,
        g.must_connect(to) ==> requests_of(
            filed(g.buffer.results(), to.id, tid, data, now),
            to.id,
        ).last() == (tid, data),
{
    let plan = g.plan_stable_result(tid, to, is_ok, is_force, data);
    if plan.len() == 1 {
        assert(plan =~= seq![plan[0]]);
        lemma_count_one(plan[0], tid);
    } else {
        assert(plan =~= Seq::<ActionView>::empty());
    }
    if g.must_connect(to) {
        lemma_filed_last(g.buffer.results(), to.id, tid, data, now);
    }
}

/// Data with a transaction id is accounted for once when it is dispatched,
/// by one receipt or by one message that hands it to a session, unless it
/// goes to a neighbour to pass on: that message carries no transaction id.
pub proof fn law_data_accounted(g: Global, tid: u64, to: PeerId, data: Seq<u8>)
    requires
        g.wf(),
        tid != 0,
        to == g.peer.id || g.peer_list.in_stable(to) || !g.relays_to(to),
    ensures
        receipts_for(g.plan_data(tid, to, data), tid) + handed_on(g.plan_data(tid, to, data), tid)
            == 1,
{
    let plan = g.plan_data(tid, to, data);
    if to == g.peer.id {
        let first = receipt(DeliveryType::Data, tid, true, data, g.delivery_length);
        let second = ActionView::Out(ReceiveView::Data(to, data));
        assert(plan =~= seq![first[0], second]);
        assert(plan.drop_last() =~= seq![first[0]]);
        lemma_count_one(first[0], tid);
    } else {
        assert(plan =~= seq![plan[0]]);
        lemma_count_one(plan[0], tid);
    }
}

/// A filed request is the last of the requests that wait for its peer.
proof fn lemma_filed_last(items: Seq<PendingView>, id: PeerId, tid: u64, data: Seq<u8>, now: u64)
    requires
        one_slot_each(items),
    ensures
        requests_of(filed(items, id, tid, data, now), id).last() == (tid, data),
{
    let after = filed(items, id, tid, data, now);
    let i = if waits(items, id) {
        slot_of(items, id)
    } else {
        items.len() as int
    };
    assert(after[i].id == id);
    let k = slot_of(after, id);
    assert(0 <= k < after.len() && after[k].id == id);
    if k != i {
        assert(after[k] == items[k]);
        if waits(items, id) {
            if k < i {
                assert(items[k].id != items[i].id);
            } else {
                assert(items[i].id != items[k].id);
            }
        }
    }
}

/// The sweep gives every request it takes out its one failed receipt: for
/// each transaction id but zero, as many receipts as there were requests.
pub proof fn law_sweep_receipts(
    kind: DeliveryType,
    requests: Seq<(u64, Seq<u8>)>,
    length: usize,
    tid: u64,
)
    requires
        tid != 0,
    ensures
        receipts_for(failed_all(kind, requests, length), tid) == requests_with(requests, tid),
    decreases requests.len(),
{
    if requests.len() > 0 {
        law_sweep_receipts(kind, requests.drop_last(), length, tid);
        let last = receipt(kind, requests.last().0, false, requests.last().1, length);
        lemma_count_add(failed_all(kind, requests.drop_last(), length), last, tid);
        if requests.last().0 != 0 {
            assert(last =~= seq![last[0]]);
            lemma_count_one(last[0], tid);
        } else {
            assert(last =~= Seq::<ActionView>::empty());
        }
    }
}

/// The number of messages with the transaction id `tid` in an inbox.
pub open spec fn messages_with(inbox: Seq<SessionView>, tid: u64) -> nat
    decreases inbox.len(),
{
    if inbox.len() == 0 {
        0
    } else {
        messages_with(inbox.drop_last(), tid) + match inbox.last() {
            SessionView::Data(t, _) => if t == tid {
                1nat
            } else {
                0nat
            },
            SessionView::StableConnect(t, _) => if t == tid {
                1nat
            } else {
                0nat
            },
            SessionView::StableResult(t, _, _, _) => if t == tid {
                1nat
            } else {
                0nat
            },
            _ => 0nat,
        }
    }
}

/// A session that ends gives every message left in its inbox its one
/// failed receipt: for each transaction id but zero, as many receipts as
/// there were messages.
pub proof fn law_closure_receipts(inbox: Seq<SessionView>, length: usize, tid: u64)
    requires
        tid != 0,
    ensures
        receipts_for(failed_inbox(inbox, length), tid) == messages_with(inbox, tid),
    decreases inbox.len(),
{
    if inbox.len() > 0 {
        law_closure_receipts(inbox.drop_last(), length, tid);
        let last = failed_message(inbox.last(), length);
        lemma_count_add(failed_inbox(inbox.drop_last(), length), last, tid);
        if last.len() == 1 {
            assert(last =~= seq![last[0]]);
            lemma_count_one(last[0], tid);
        } else {
            assert(last =~= Seq::<ActionView>::empty());
        }
    }
}

/// How often some actions tell the application that the stable peer `id`
/// has left.
pub open spec fn leaves_told(actions: Seq<ActionView>, id: PeerId) -> nat
    decreases actions.len(),
{
    if actions.len() == 0 {
        0
    } else {
        leaves_told(actions.drop_last(), id) + if actions.last() == ActionView::Out(
            ReceiveView::StableLeave(id),
        ) {
            1nat
        } else {
            0nat
        }
    }
}

/// The number of stable entries about `id` in a list.
pub open spec fn stable_left(left: Seq<Entry>, id: PeerId) -> nat
    decreases left.len(),
{
    if left.len() == 0 {
        0
    } else {
        stable_left(left.drop_last(), id) + if left.last().is_stable() && left.last().id() == id {
            1nat
        } else {
            0nat
        }
    }
}

proof fn lemma_told_add(a: Seq<ActionView>, b: Seq<ActionView>, id: PeerId)
    ensures
        leaves_told(a + b, id) == leaves_told(a, id) + leaves_told(b, id),
    decreases b.len(),
{
    if b.len() == 0 {
        assert(a + b =~= a);
    } else {
        assert((a + b).drop_last() =~= a + b.drop_last());
        assert((a + b).last() == b.last());
        lemma_told_add(a, b.drop_last(), id);
    }
}

proof fn lemma_told_of(e: Entry, told: bool, closed: bool, id: PeerId)
    ensures
        leaves_told(parting_of(e, told, closed), id) == if told && e.is_stable() && e.id() == id {
            1nat
        } else {
            0nat
        },
{
    let tell = seq![ActionView::Out(ReceiveView::StableLeave(e.id()))];
    let close = seq![ActionView::Session(e.value.session, SessionView::Close)];
    let none = Seq::<ActionView>::empty();
    assert(tell.drop_last() =~= none);
    assert(close.drop_last() =~= none);
    assert(leaves_told(none, id) == 0);
    assert(tell.last() == ActionView::Out(ReceiveView::StableLeave(e.id())));
    assert(close.last() == ActionView::Session(e.value.session, SessionView::Close));
    assert(leaves_told(tell, id) == if e.id() == id {
        1nat
    } else {
        0nat
    });
    assert(leaves_told(close, id) == 0);
    lemma_told_add(tell, close, id);
    lemma_told_add(tell, none, id);
    lemma_told_add(none, close, id);
    lemma_told_add(none, none, id);
}

/// When peers leave the registry because a session has ended, a peer was
/// disconnected or a relay is gone, the application is told of every
/// stable peer among them exactly once.
pub proof fn law_leave_told(left: Seq<Entry>, gone: Gone, closed_hit: bool, id: PeerId)
    ensures
        leaves_told(parting(left, gone, true, closed_hit), id) == stable_left(left, id),
    decreases left.len(),
{
    if left.len() > 0 {
        let e = left.last();
        law_leave_told(left.drop_last(), gone, closed_hit, id);
        lemma_told_of(e, true, !hits(gone, e) || closed_hit, id);
        lemma_told_add(
            parting(left.drop_last(), gone, true, closed_hit),
            parting_of(e, true, !hits(gone, e) || closed_hit),
            id,
        );
    }
}

/// A receipt carries no more of the payload than the node is set to, and
/// nothing at all where that is zero.
pub proof fn law_receipt_head(data: Seq<u8>, length: nat)
    ensures
        crate::message::delivery_head(data, length).len() <= length,
        crate::message::delivery_head(data, length).is_prefix_of(data),
        length == 0 ==> crate::message::delivery_head(data, length) == Seq::<u8>::empty(),
{
    let head = crate::message::delivery_head(data, length);
    if length == 0 {
        assert(head =~= Seq::<u8>::empty());
    }
}

/// Every stable peer that is reached through a relay has its relay in the
/// registry, as a routing hint or as a stable peer that is reached
/// directly.
pub proof fn law_relay_present(list: PeerList, id: PeerId, relay: PeerId)
    requires
        list.wf(),
        list.state_of(id) == RegistryState::StableRelay(relay),
    ensures
        list.state_of(relay) is Dht || list.state_of(relay) is StableDirect,
{
    let entries = list.entries();
    let i = place_of(entries, id);
    assert(entries[i].id() == id);
    let j = choose|j: int|
        0 <= j < entries.len() && (#[trigger] entries[j]).id() == relay && !entries[j].is_relay();
    lemma_place(entries, j);
}

/// What a newly connected peer is told of the network is determined by
/// the registry: there is one list of nearest routing hints.
pub proof fn law_hints_determined(list: PeerList, target: PeerId, a: Seq<Peer>, b: Seq<Peer>)
    requires
        list.wf(),
        nearest_hints(list.entries(), target, a),
        nearest_hints(list.entries(), target, b),
    ensures
        a == b,
{
    lemma_hints_determined(list.entries(), target, a, b);
}

/// A peer that passes the screening is known from then on under the id
/// that was derived from its public key and at the address it was seen to
/// come from, whatever its descriptor said; a blocked peer, a blocked
/// address and the node itself never pass.
pub proof fn law_observed_id(g: Global, addr: SocketAddress, derived: PeerId, told: Peer)
    ensures
        g.screened(addr, derived, told) matches Screening::Proceed(seen) ==> seen.id == derived
            && seen.socket == addr && seen.transport == told.transport && seen.assist
            == told.assist,
        g.peer_list.is_blocked(derived) || derived == g.peer.id
            || g.peer_list.blocked_addrs().contains(addr.ip) ==> g.screened(addr, derived, told)
            == Screening::Close,
{
}

/// Of the frames that arrive on a session, in whatever order and however
/// often, those that are accepted have strictly rising sequence numbers:
/// no frame is accepted twice, and none after a later one. A key whose
/// agreement is not complete accepts none.
pub proof fn law_replay_resistance(complete: bool, arrivals: Seq<u64>)
    ensures
        forall|i: int, j: int|
            0 <= i < j < accepted_of(complete, None, arrivals).len() ==> accepted_of(
                complete,
                None,
                arrivals,
            )[i] < accepted_of(complete, None, arrivals)[j],
        !complete ==> accepted_of(complete, None, arrivals).len() == 0,
{
    lemma_accepted_rising(complete, arrivals);
}

/// Data that is passed on loses a hop with every node, so that it passes
/// through no more nodes than it was given hops; a node that passes
/// nothing on hands data to no session at all.
pub proof fn law_relay_ends(g: Global, from: PeerId, to: PeerId, hops: u8, data: Seq<u8>)
    ensures
        g.relayed(from, to, hops, data) matches RelayedView::Forward(_, left, f, t, d) ==> left
            < hops && f == from && t == to && d == data && to != g.peer.id && g.is_relay_data,
        g.relayed(from, to, hops, data) matches RelayedView::Arrived(f, d) ==> to == g.peer.id
            && f == from && d == data,
{
}

/// An id is at distance zero from itself, and from no other id.
pub proof fn law_distance_identity(a: PeerId, b: PeerId)
    ensures
        distance(a, b) == 0 <==> a == b,
{
    let xa = xor_bytes(a@, a@);
    assert forall|k: nat| k <= 32 implies prefix_value(xa, k) == 0 by {
        lemma_self_prefix_zero(a, k);
    }
    if distance(a, b) == 0 {
        assert(xor_bytes(b@, b@) =~= xa) by {
            assert forall|j: int| 0 <= j < 32 implies xor_bytes(b@, b@)[j] == xa[j] by {
                let p = a@[j];
                let q = b@[j];
                assert(q ^ q == p ^ p) by (bit_vector);
            }
        }
        assert(distance(b, b) == 0);
        lemma_distance_injective(a, b, b);
    }
}

proof fn lemma_self_prefix_zero(a: PeerId, k: nat)
    requires
        k <= 32,
    ensures
        prefix_value(xor_bytes(a@, a@), k) == 0,
    decreases k,
{
    if k > 0 {
        lemma_self_prefix_zero(a, (k - 1) as nat);
        let p = a@[k - 1];
        assert(p ^ p == 0) by (bit_vector);
    }
}

/// The distance from `a` to `b` is that from `b` to `a`.
pub proof fn law_distance_symmetric(a: PeerId, b: PeerId)
    ensures
        distance(a, b) == distance(b, a),
{
    assert(xor_bytes(a@, b@) =~= xor_bytes(b@, a@)) by {
        assert forall|j: int| 0 <= j < 32 implies xor_bytes(a@, b@)[j] == xor_bytes(b@, a@)[j] by {
            let p = a@[j];
            let q = b@[j];
            assert(p ^ q == q ^ p) by (bit_vector);
        }
    }
}

/// No two ids are at the same distance from a third.
pub proof fn law_distance_tells_apart(a: PeerId, b: PeerId, target: PeerId)
    ensures
        distance(a, target) == distance(b, target) <==> a == b,
{
    if distance(a, target) == distance(b, target) {
        lemma_distance_injective(a, b, target);
    }
}

} // verus!
