use vstd::prelude::*;

use crate::distance::bucket_index;
use crate::peer::{Peer, SocketAddress};
use crate::types::PeerId;

verus! {

/// How many peers one bucket of the routing table holds, and how many
/// neighbours a routing hint names.
pub const K_BUCKET: usize = 8;

/// The name of a session's inbox. The channel itself lives with whoever
/// runs the sessions.
#[derive(Clone, Copy, Debug, PartialEq, Eq, Structural, Hash)]
pub struct SessionHandle(pub u64);

/// The name of the transport stream a peer is written to.
#[derive(Clone, Copy, Debug, PartialEq, Eq, Structural, Hash)]
pub struct StreamHandle(pub u64);

/// What is kept of a connected peer: its session, its stream and its
/// descriptor.
#[derive(Clone, Copy, Debug, PartialEq, Eq)]
pub struct KadValue {
    pub session: SessionHandle,
    pub stream: StreamHandle,
    pub peer: Peer,
}

/// The category a registered peer is in.
#[derive(Clone, Copy, Debug, PartialEq, Eq)]
pub enum Category {
    /// A routing hint.
    Dht,
    /// Admitted by the application, reached directly.
    StableDirect,
    /// Admitted by the application, reached through the named peer.
    StableRelay(PeerId),
}

/// One registered peer.
#[derive(Clone, Copy, Debug, PartialEq, Eq)]
pub struct Entry {
    pub value: KadValue,
    pub category: Category,
}

impl Entry {
    /// The peer the entry is about.
    pub open spec fn id(self) -> PeerId {
        self.value.peer.id
    }

    /// The entry is a routing hint.
    pub open spec fn is_dht(self) -> bool {
        self.category is Dht
    }

    /// The entry is a stable peer.
    pub open spec fn is_stable(self) -> bool {
        !(self.category is Dht)
    }

    /// The entry is a stable peer that is reached through a relay.
    pub open spec fn is_relay(self) -> bool {
        self.category is StableRelay
    }
}

/// Some entry is about `id`.
pub open spec fn holds(entries: Seq<Entry>, id: PeerId) -> bool {
    exists|i: int| 0 <= i < entries.len() && (#[trigger] entries[i]).id() == id
}

/// The place of the entry about `id`, where there is one.
pub open spec fn place_of(entries: Seq<Entry>, id: PeerId) -> int {
    choose|i: int| 0 <= i < entries.len() && (#[trigger] entries[i]).id() == id
}

/// Some entry is about `id` and reaches it directly.
pub open spec fn holds_direct(entries: Seq<Entry>, id: PeerId) -> bool {
    exists|i: int|
        0 <= i < entries.len() && (#[trigger] entries[i]).id() == id && !entries[i].is_relay()
}

/// Some entry is about `id` and is a routing hint.
pub open spec fn holds_hint(entries: Seq<Entry>, id: PeerId) -> bool {
    exists|i: int|
        0 <= i < entries.len() && (#[trigger] entries[i]).id() == id && entries[i].is_dht()
}

/// Some entry is about `id` and is stable.
pub open spec fn holds_stable(entries: Seq<Entry>, id: PeerId) -> bool {
    exists|i: int|
        0 <= i < entries.len() && (#[trigger] entries[i]).id() == id && entries[i].is_stable()
}

/// Every stable peer of `after` is one of `before`, or is `extra`.
pub open spec fn stable_among(
    after: Seq<Entry>,
    before: Seq<Entry>,
    extra: Option<PeerId>,
) -> bool {
    forall|p: PeerId| #[trigger]
        holds_stable(after, p) ==> holds_stable(before, p) || extra == Some(p)
}

/// No two entries are about the same peer.
pub open spec fn distinct_ids(entries: Seq<Entry>) -> bool {
    forall|i: int, j: int|
        0 <= i < j < entries.len() ==> (#[trigger] entries[i]).id() != (#[trigger] entries[j]).id()
}

/// The entry reaches its peer directly, or through a peer that is
/// registered and reached directly.
pub open spec fn leans_well(entries: Seq<Entry>, e: Entry) -> bool {
    e.category matches Category::StableRelay(r) ==> holds_direct(entries, r)
}

/// Every relayed entry leans on a peer that is registered and reached
/// directly.
pub open spec fn relays_held(entries: Seq<Entry>) -> bool {
    forall|i: int| 0 <= i < entries.len() ==> leans_well(entries, #[trigger] entries[i])
}

/// Whether an entry counts towards bucket `b` of the routing table of
/// `own`.
pub open spec fn in_bucket(entry: Entry, own: PeerId, b: nat) -> bool {
    entry.is_dht() && bucket_index(own, entry.id()) == b
}

/// The number of routing hints in bucket `b`.
pub open spec fn bucket_load(entries: Seq<Entry>, own: PeerId, b: nat) -> nat
    decreases entries.len(),
{
    if entries.len() == 0 {
        0
    } else {
        bucket_load(entries.drop_last(), own, b) + if in_bucket(entries.last(), own, b) {
            1nat
        } else {
            0nat
        }
    }
}

/// No bucket holds more than `K_BUCKET` routing hints.
pub open spec fn buckets_bounded(entries: Seq<Entry>, own: PeerId) -> bool {
    forall|b: nat| #[trigger] bucket_load(entries, own, b) <= K_BUCKET
}

/// What leaves the registry: one peer, every peer at one socket, or every
/// peer of one session.
#[derive(Clone, Copy, Debug, PartialEq, Eq)]
pub enum Gone {
    Peer(PeerId),
    Socket(SocketAddress),
    Session(SessionHandle),
}

/// Whether an entry is among what leaves.
pub open spec fn hits(gone: Gone, e: Entry) -> bool {
    match gone {
        Gone::Peer(id) => e.id() == id,
        Gone::Socket(addr) => e.value.peer.socket == addr,
        Gone::Session(session) => e.value.session == session,
    }
}

impl Gone {
    /// Whether an entry is among what leaves.
    pub fn hits_entry(&self, e: &Entry) -> (hit: bool)
        ensures
            hit == hits(*self, *e),
    {
        match self {
            Gone::Peer(id) => e.value.peer.id == *id,
            Gone::Socket(addr) => e.value.peer.socket == *addr,
            Gone::Session(session) => e.value.session == *session,
        }
    }
}

/// Some entry about `relay` reaches it directly and does not leave.
pub open spec fn survives(entries: Seq<Entry>, gone: Gone, relay: PeerId) -> bool {
    exists|j: int|
        0 <= j < entries.len() && (#[trigger] entries[j]).id() == relay && !entries[j].is_relay()
            && !hits(gone, entries[j])
}

/// Whether an entry stays when `gone` leaves: it is not hit itself and, if
/// it is relayed, its relay stays.
pub open spec fn stays(entries: Seq<Entry>, gone: Gone) -> spec_fn(Entry) -> bool {
    |e: Entry|
        !hits(gone, e) && (e.category matches Category::StableRelay(r) ==> survives(
            entries,
            gone,
            r,
        ))
}

/// Whether an entry leaves with `gone`, itself or for want of its relay.
pub open spec fn leaves(entries: Seq<Entry>, gone: Gone) -> spec_fn(Entry) -> bool {
    |e: Entry| !stays(entries, gone)(e)
}

/// None of the entries is about `own` or about a blocked peer.
pub open spec fn none_barred(entries: Seq<Entry>, own: PeerId, blocked: Seq<PeerId>) -> bool {
    forall|i: int|
        0 <= i < entries.len() ==> (#[trigger] entries[i]).id() != own && !blocked.contains(
            entries[i].id(),
        )
}

/// The registry's invariant: one entry per peer at most, none about
/// oneself or a blocked peer, bounded buckets, every relay present.
pub open spec fn wf_entries(entries: Seq<Entry>, own: PeerId, blocked: Seq<PeerId>) -> bool {
    &&& distinct_ids(entries)
    &&& none_barred(entries, own, blocked)
    &&& buckets_bounded(entries, own)
    &&& relays_held(entries)
}

pub proof fn lemma_load_push(entries: Seq<Entry>, e: Entry, own: PeerId, b: nat)
    ensures
        bucket_load(entries.push(e), own, b) == bucket_load(entries, own, b) + if in_bucket(
            e,
            own,
            b,
        ) {
            1nat
        } else {
            0nat
        },
{
    assert(entries.push(e).drop_last() =~= entries);
}

pub proof fn lemma_load_update(entries: Seq<Entry>, i: int, e: Entry, own: PeerId, b: nat)
    requires
        0 <= i < entries.len(),
    ensures
        bucket_load(entries.update(i, e), own, b) + (if in_bucket(entries[i], own, b) {
            1nat
        } else {
            0nat
        }) == bucket_load(entries, own, b) + (if in_bucket(e, own, b) {
            1nat
        } else {
            0nat
        }),
    decreases entries.len(),
{
    let updated = entries.update(i, e);
    if i == entries.len() - 1 {
        assert(updated.drop_last() =~= entries.drop_last());
    } else {
        assert(updated.drop_last() =~= entries.drop_last().update(i, e));
        lemma_load_update(entries.drop_last(), i, e, own, b);
    }
}

/// Filtering never fills a bucket.
pub proof fn lemma_load_filter(
    entries: Seq<Entry>,
    keep: spec_fn(Entry) -> bool,
    own: PeerId,
    b: nat,
)
    ensures
        bucket_load(entries.filter(keep), own, b) <= bucket_load(entries, own, b),
    decreases entries.len(),
{
    reveal(Seq::filter);
    if entries.len() > 0 {
        lemma_load_filter(entries.drop_last(), keep, own, b);
        if keep(entries.last()) {
            lemma_load_push(entries.drop_last().filter(keep), entries.last(), own, b);
        }
    }
}

/// What filtering keeps was there before, in the same order.
pub proof fn lemma_filter_distinct(entries: Seq<Entry>, keep: spec_fn(Entry) -> bool)
    requires
        distinct_ids(entries),
    ensures
        distinct_ids(entries.filter(keep)),
    decreases entries.len(),
{
    reveal(Seq::filter);
    if entries.len() > 0 {
        let front = entries.drop_last();
        lemma_filter_distinct(front, keep);
        let kept = front.filter(keep);
        if keep(entries.last()) {
            assert forall|i: int| 0 <= i < kept.len() implies (#[trigger] kept[i]).id()
                != entries.last().id() by {
                assert(kept.contains(kept[i]));
                front.lemma_filter_contains_rev(keep, kept[i]);
                let k = choose|k: int| 0 <= k < front.len() && front[k] == kept[i];
                assert(entries[k] == kept[i]);
            }
        }
    }
}

/// An entry is in the filtered list exactly if it was in the list and is
/// kept.
pub proof fn lemma_filter_members(entries: Seq<Entry>, keep: spec_fn(Entry) -> bool)
    ensures
        forall|e: Entry| #[trigger]
            entries.filter(keep).contains(e) <==> entries.contains(e) && keep(e),
{
    let kept = entries.filter(keep);
    assert forall|e: Entry| #[trigger] kept.contains(e) <==> entries.contains(e) && keep(e) by {
        if kept.contains(e) {
            let i = choose|i: int| 0 <= i < kept.len() && kept[i] == e;
            entries.lemma_filter_contains_rev(keep, e);
            entries.lemma_filter_pred(keep, i);
        }
        if entries.contains(e) && keep(e) {
            let j = choose|j: int| 0 <= j < entries.len() && entries[j] == e;
            entries.lemma_filter_contains(keep, j);
        }
    }
}

/// A new entry adds its own peer to the stable ones at most.
pub proof fn lemma_stable_push(entries: Seq<Entry>, e: Entry)
    ensures
        stable_among(entries.push(e), entries, if e.is_stable() {
            Some(e.id())
        } else {
            None
        }),
{
    let after = entries.push(e);
    assert forall|p: PeerId| #[trigger] holds_stable(after, p) implies holds_stable(entries, p) || (
    e.is_stable() && p == e.id()) by {
        let k = choose|k: int|
            0 <= k < after.len() && (#[trigger] after[k]).id() == p && after[k].is_stable();
        if k < entries.len() {
            assert(entries[k] == after[k]);
        }
    }
}

/// A replaced entry adds its own peer to the stable ones at most.
pub proof fn lemma_stable_update(entries: Seq<Entry>, i: int, e: Entry)
    requires
        0 <= i < entries.len(),
    ensures
        stable_among(entries.update(i, e), entries, if e.is_stable() {
            Some(e.id())
        } else {
            None
        }),
{
    let after = entries.update(i, e);
    assert forall|p: PeerId| #[trigger] holds_stable(after, p) implies holds_stable(entries, p) || (
    e.is_stable() && p == e.id()) by {
        let k = choose|k: int|
            0 <= k < after.len() && (#[trigger] after[k]).id() == p && after[k].is_stable();
        if k != i {
            assert(entries[k] == after[k]);
        }
    }
}

/// Filtering adds no stable peer.
pub proof fn lemma_stable_filter(entries: Seq<Entry>, keep: spec_fn(Entry) -> bool)
    ensures
        stable_among(entries.filter(keep), entries, None),
{
    let after = entries.filter(keep);
    assert forall|p: PeerId| #[trigger] holds_stable(after, p) implies holds_stable(entries, p) by {
        let k = choose|k: int|
            0 <= k < after.len() && (#[trigger] after[k]).id() == p && after[k].is_stable();
        assert(after.contains(after[k]));
        entries.lemma_filter_contains_rev(keep, after[k]);
        let m = choose|m: int| 0 <= m < entries.len() && entries[m] == after[k];
        assert(entries[m].id() == p && entries[m].is_stable());
    }
}

/// In a list of distinct ids each id has one place.
pub proof fn lemma_place(entries: Seq<Entry>, i: int)
    requires
        distinct_ids(entries),
        0 <= i < entries.len(),
    ensures
        holds(entries, entries[i].id()),
        place_of(entries, entries[i].id()) == i,
{
    let k = place_of(entries, entries[i].id());
    assert(0 <= k < entries.len() && entries[k].id() == entries[i].id());
}

/// A new entry about a new peer keeps the invariant when its bucket has
/// room and its relay, if any, is there.
pub proof fn lemma_push_wf(entries: Seq<Entry>, e: Entry, own: PeerId, blocked: Seq<PeerId>)
    requires
        wf_entries(entries, own, blocked),
        !holds(entries, e.id()),
        e.id() != own,
        !blocked.contains(e.id()),
        e.is_dht() ==> bucket_load(entries, own, bucket_index(own, e.id())) < K_BUCKET,
        e.category matches Category::StableRelay(r) ==> holds_direct(entries, r),
    ensures
        wf_entries(entries.push(e), own, blocked),
{
    let after = entries.push(e);
    assert forall|b: nat| #[trigger] bucket_load(after, own, b) <= K_BUCKET by {
        lemma_load_push(entries, e, own, b);
    }
    assert forall|i: int| 0 <= i < after.len() implies leans_well(after, #[trigger] after[i]) by {
        if let Category::StableRelay(r) = after[i].category {
            assert(holds_direct(entries, r));
            let j = choose|j: int|
                0 <= j < entries.len() && (#[trigger] entries[j]).id() == r
                    && !entries[j].is_relay();
            assert(after[j] == entries[j]);
        }
    }
}

/// Replacing an entry by one about the same peer keeps the invariant when
/// the new entry is reached directly and, if it is a routing hint that the
/// old one was not, its bucket has room.
pub proof fn lemma_update_wf(
    entries: Seq<Entry>,
    i: int,
    e: Entry,
    own: PeerId,
    blocked: Seq<PeerId>,
)
    requires
        wf_entries(entries, own, blocked),
        0 <= i < entries.len(),
        e.id() == entries[i].id(),
        !e.is_relay(),
        e.is_dht() && !entries[i].is_dht() ==> bucket_load(
            entries,
            own,
            bucket_index(own, e.id()),
        ) < K_BUCKET,
    ensures
        wf_entries(entries.update(i, e), own, blocked),
{
    let after = entries.update(i, e);
    assert forall|b: nat| #[trigger] bucket_load(after, own, b) <= K_BUCKET by {
        lemma_load_update(entries, i, e, own, b);
    }
    assert forall|k: int| 0 <= k < after.len() implies leans_well(after, #[trigger] after[k]) by {
        if let Category::StableRelay(r) = after[k].category {
            assert(after[k] == entries[k]);
            let j = choose|j: int|
                0 <= j < entries.len() && (#[trigger] entries[j]).id() == r
                    && !entries[j].is_relay();
            assert(after[j].id() == r && !after[j].is_relay());
        }
    }
}

/// What stays when something leaves still satisfies the invariant.
pub proof fn lemma_stays_wf(entries: Seq<Entry>, gone: Gone, own: PeerId, blocked: Seq<PeerId>)
    requires
        wf_entries(entries, own, blocked),
    ensures
        wf_entries(entries.filter(stays(entries, gone)), own, blocked),
{
    let keep = stays(entries, gone);
    let after = entries.filter(keep);
    lemma_filter_distinct(entries, keep);
    lemma_filter_members(entries, keep);
    assert forall|i: int| 0 <= i < after.len() implies (#[trigger] after[i]).id() != own
        && !blocked.contains(after[i].id()) by {
        assert(after.contains(after[i]));
        let k = choose|k: int| 0 <= k < entries.len() && entries[k] == after[i];
    }
    assert forall|b: nat| #[trigger] bucket_load(after, own, b) <= K_BUCKET by {
        lemma_load_filter(entries, keep, own, b);
    }
    assert forall|i: int| 0 <= i < after.len() implies leans_well(after, #[trigger] after[i]) by {
        if let Category::StableRelay(r) = after[i].category {
            assert(after.contains(after[i]));
            assert(keep(after[i]));
            assert(survives(entries, gone, r));
            let j = choose|j: int|
                0 <= j < entries.len() && (#[trigger] entries[j]).id() == r
                    && !entries[j].is_relay() && !hits(gone, entries[j]);
            assert(keep(entries[j]));
            assert(entries.contains(entries[j]));
            assert(after.contains(entries[j]));
            let m = choose|m: int| 0 <= m < after.len() && after[m] == entries[j];
            assert(after[m].id() == r && !after[m].is_relay());
        }
    }
}

} // verus!
