use vstd::prelude::*;

use crate::distance::{bucket, bucket_index, closer, distance, lemma_distance_injective};
use crate::kad::{
    bucket_load, distinct_ids, hits, holds, holds_direct, holds_hint, holds_stable, leaves,
    lemma_load_push,
    lemma_place, lemma_push_wf, lemma_stable_filter, lemma_stable_push, lemma_stable_update,
    lemma_stays_wf, lemma_update_wf, place_of, stable_among, stays, survives, wf_entries,
    Category, Entry, Gone, KadValue, SessionHandle, StreamHandle, K_BUCKET,
};
use crate::peer::{IpAddress, Peer, SocketAddress};
use crate::types::{io_error_other, new_io_error, PeerId};

verus! {

/// The state of one peer id in the registry.
#[derive(Clone, Copy, Debug, PartialEq, Eq)]
pub enum RegistryState {
    Unknown,
    Dht,
    StableDirect,
    StableRelay(PeerId),
    Blocked,
}

/// Whether an entry can serve as a routing hint towards `target`: it is a
/// routing hint, not about `target` itself, and farther from `target` than
/// `after` where that is given.
pub open spec fn eligible(e: Entry, target: PeerId, after: Option<PeerId>) -> bool {
    &&& e.is_dht()
    &&& e.id() != target
    &&& after matches Some(p) ==> distance(p, target) < distance(e.id(), target)
}

/// Entry `i` is the eligible entry nearest to `target`.
pub open spec fn is_nearest(
    entries: Seq<Entry>,
    i: int,
    target: PeerId,
    after: Option<PeerId>,
) -> bool {
    &&& 0 <= i < entries.len()
    &&& eligible(entries[i], target, after)
    &&& forall|j: int|
        0 <= j < entries.len() && eligible(#[trigger] entries[j], target, after) ==> distance(
            entries[i].id(),
            target,
        ) <= distance(entries[j].id(), target)
}

/// Some entry is eligible.
pub open spec fn any_eligible(entries: Seq<Entry>, target: PeerId, after: Option<PeerId>) -> bool {
    exists|j: int| 0 <= j < entries.len() && eligible(#[trigger] entries[j], target, after)
}

/// The place of the routing hint nearest to `target`.
pub open spec fn nearest_place(entries: Seq<Entry>, target: PeerId) -> int {
    choose|i: int| is_nearest(entries, i, target, None)
}

/// `out` names the routing hints nearest to `target`, nearest first:
/// `K_BUCKET` of them, or all where there are fewer.
pub open spec fn nearest_hints(entries: Seq<Entry>, target: PeerId, out: Seq<Peer>) -> bool {
    &&& out.len() <= K_BUCKET
    &&& forall|k: int|
        0 <= k < out.len() ==> exists|i: int|
            0 <= i < entries.len() && eligible(#[trigger] entries[i], target, None)
                && entries[i].value.peer == #[trigger] out[k]
    &&& forall|k: int, l: int|
        0 <= k < l < out.len() ==> distance((#[trigger] out[k]).id, target) < distance(
            (#[trigger] out[l]).id,
            target,
        )
    &&& forall|i: int|
        0 <= i < entries.len() && eligible(#[trigger] entries[i], target, None) && !out.contains(
            entries[i].value.peer,
        ) ==> out.len() == K_BUCKET && distance(out.last().id, target) < distance(
            entries[i].id(),
            target,
        )
}

/// Two lists of nearest hints agree below `k`.
pub open spec fn agree_below(a: Seq<Peer>, b: Seq<Peer>, k: int) -> bool {
    forall|j: int| 0 <= j < k ==> a[j] == b[j]
}

/// Where two lists of nearest hints agree below `k`, the `k`-th of the one
/// is not nearer than the `k`-th of the other.
proof fn lemma_hint_not_nearer(
    entries: Seq<Entry>,
    target: PeerId,
    a: Seq<Peer>,
    b: Seq<Peer>,
    k: int,
)
    requires
        nearest_hints(entries, target, a),
        nearest_hints(entries, target, b),
        0 <= k < a.len(),
        k < b.len(),
        agree_below(a, b, k),
    ensures
        !(distance(a[k].id, target) < distance(b[k].id, target)),
{
    if distance(a[k].id, target) < distance(b[k].id, target) {
        let i = choose|i: int|
            0 <= i < entries.len() && eligible(#[trigger] entries[i], target, None)
                && entries[i].value.peer == a[k];
        if b.contains(a[k]) {
            let m = choose|m: int| 0 <= m < b.len() && b[m] == a[k];
            if m < k {
                assert(a[m] == b[m]);
                assert(distance(a[m].id, target) < distance(a[k].id, target));
            } else if m > k {
                assert(distance(b[k].id, target) < distance(b[m].id, target));
            }
        } else {
            assert(b.len() == K_BUCKET);
            let last = b.len() - 1;
            assert(b.last() == b[last]);
            if k < last {
                assert(distance(b[k].id, target) < distance(b[last].id, target));
            }
        }
    }
}

/// Where two lists of nearest hints agree as far as the one goes, the
/// other is not longer.
proof fn lemma_hints_not_longer(entries: Seq<Entry>, target: PeerId, a: Seq<Peer>, b: Seq<Peer>)
    requires
        nearest_hints(entries, target, a),
        nearest_hints(entries, target, b),
        a.len() <= b.len(),
        agree_below(a, b, a.len() as int),
    ensures
        a.len() == b.len(),
{
    if a.len() < b.len() {
        let k = a.len() as int;
        let i = choose|i: int|
            0 <= i < entries.len() && eligible(#[trigger] entries[i], target, None)
                && entries[i].value.peer == b[k];
        if a.contains(b[k]) {
            let m = choose|m: int| 0 <= m < a.len() && a[m] == b[k];
            assert(a[m] == b[m]);
            assert(distance(b[m].id, target) < distance(b[k].id, target));
        } else {
            assert(a.len() == K_BUCKET);
        }
    }
}

/// Two lists of nearest hints agree as far as both go.
proof fn lemma_hints_agree(
    entries: Seq<Entry>,
    target: PeerId,
    a: Seq<Peer>,
    b: Seq<Peer>,
    k: int,
)
    requires
        distinct_ids(entries),
        nearest_hints(entries, target, a),
        nearest_hints(entries, target, b),
        0 <= k <= a.len(),
        k <= b.len(),
    ensures
        agree_below(a, b, k),
    decreases k,
{
    if k > 0 {
        let n = k - 1;
        lemma_hints_agree(entries, target, a, b, n);
        lemma_hint_not_nearer(entries, target, a, b, n);
        assert(agree_below(b, a, n));
        lemma_hint_not_nearer(entries, target, b, a, n);
        lemma_distance_injective(a[n].id, b[n].id, target);
        let i = choose|i: int|
            0 <= i < entries.len() && eligible(#[trigger] entries[i], target, None)
                && entries[i].value.peer == a[n];
        let j = choose|j: int|
            0 <= j < entries.len() && eligible(#[trigger] entries[j], target, None)
                && entries[j].value.peer == b[n];
        if i < j {
            assert(entries[i].id() != entries[j].id());
        } else if j < i {
            assert(entries[j].id() != entries[i].id());
        }
        assert(a[n] == b[n]);
    }
}

/// The nearest hints are determined: there is one such list.
pub proof fn lemma_hints_determined(entries: Seq<Entry>, target: PeerId, a: Seq<Peer>, b: Seq<Peer>)
    requires
        distinct_ids(entries),
        nearest_hints(entries, target, a),
        nearest_hints(entries, target, b),
    ensures
        a == b,
{
    if a.len() <= b.len() {
        lemma_hints_agree(entries, target, a, b, a.len() as int);
        lemma_hints_not_longer(entries, target, a, b);
    } else {
        lemma_hints_agree(entries, target, a, b, b.len() as int);
        assert(agree_below(b, a, b.len() as int));
        lemma_hints_not_longer(entries, target, b, a);
    }
    assert(a =~= b);
}

/// Picks the routing hints.
pub open spec fn is_hint() -> spec_fn(Entry) -> bool {
    |e: Entry| e.is_dht()
}

/// Picks the stable peers.
pub open spec fn is_admitted() -> spec_fn(Entry) -> bool {
    |e: Entry| e.is_stable()
}

/// An entry's id.
pub open spec fn id_of() -> spec_fn(Entry) -> PeerId {
    |e: Entry| e.id()
}

/// An entry's id and session.
pub open spec fn session_row() -> spec_fn(Entry) -> (PeerId, SessionHandle) {
    |e: Entry| (e.id(), e.value.session)
}

/// An entry's id, its session and whether it is reached directly.
pub open spec fn stable_row() -> spec_fn(Entry) -> (PeerId, (SessionHandle, bool)) {
    |e: Entry| (e.id(), (e.value.session, !e.is_relay()))
}

/// What is written down of an entry: its descriptor, whether it is reached
/// directly and whether it is stable.
pub open spec fn record_row() -> spec_fn(Entry) -> (Peer, bool, bool) {
    |e: Entry| (e.value.peer, !e.is_relay(), e.is_stable())
}

/// A value filed under `id`.
pub open spec fn named(id: PeerId, value: KadValue) -> KadValue {
    KadValue { peer: Peer { id, ..value.peer }, ..value }
}

/// The peer registry: routing hints and stable peers in one list, the
/// block lists and the bootstrap list.
pub struct PeerList {
    own: PeerId,
    entries: Vec<Entry>,
    block_peers: Vec<PeerId>,
    block_addrs: Vec<IpAddress>,
    allows: Vec<Peer>,
}

impl PeerList {
    /// The id of the node that keeps this registry.
    pub closed spec fn own(&self) -> PeerId {
        self.own
    }

    /// The registered peers, oldest first.
    pub closed spec fn entries(&self) -> Seq<Entry> {
        self.entries@
    }

    /// The ids that are never admitted.
    pub closed spec fn blocked_peers(&self) -> Seq<PeerId> {
        self.block_peers@
    }

    /// The addresses that are never admitted.
    pub closed spec fn blocked_addrs(&self) -> Seq<IpAddress> {
        self.block_addrs@
    }

    /// The peers to dial at start and on reboot.
    pub closed spec fn seeds(&self) -> Seq<Peer> {
        self.allows@
    }

    /// The registry's invariant.
    pub open spec fn wf(&self) -> bool {
        wf_entries(self.entries(), self.own(), self.blocked_peers())
    }

    /// Everything but the entries is the same in both.
    pub open spec fn same_setup(&self, other: &PeerList) -> bool {
        &&& self.own() == other.own()
        &&& self.blocked_peers() == other.blocked_peers()
        &&& self.blocked_addrs() == other.blocked_addrs()
        &&& self.seeds() == other.seeds()
    }

    /// The category `id` is registered in, if any.
    pub open spec fn category_of(&self, id: PeerId) -> Option<Category> {
        if holds(self.entries(), id) {
            Some(self.entries()[place_of(self.entries(), id)].category)
        } else {
            None
        }
    }

    /// `id` is registered as a routing hint.
    pub open spec fn in_dht(&self, id: PeerId) -> bool {
        holds_hint(self.entries(), id)
    }

    /// `id` is registered as a stable peer.
    pub open spec fn in_stable(&self, id: PeerId) -> bool {
        holds_stable(self.entries(), id)
    }

    /// Every stable peer was stable in `before`, or is `extra`.
    pub open spec fn stable_from(&self, before: &PeerList, extra: Option<PeerId>) -> bool {
        stable_among(self.entries(), before.entries(), extra)
    }

    pub open spec fn is_blocked(&self, id: PeerId) -> bool {
        self.blocked_peers().contains(id)
    }

    /// The one state a peer id is in.
    pub open spec fn state_of(&self, id: PeerId) -> RegistryState {
        if self.is_blocked(id) {
            RegistryState::Blocked
        } else {
            match self.category_of(id) {
                Some(Category::Dht) => RegistryState::Dht,
                Some(Category::StableDirect) => RegistryState::StableDirect,
                Some(Category::StableRelay(r)) => RegistryState::StableRelay(r),
                None => RegistryState::Unknown,
            }
        }
    }

    /// What a lookup of `id` gives: the peer's own session and stream,
    /// marked exact, where it is registered; else those of the routing hint
    /// nearest to it, marked inexact; nothing where there is no routing
    /// hint.
    pub open spec fn lookup(&self, id: PeerId) -> Option<(SessionHandle, StreamHandle, bool)> {
        if holds(self.entries(), id) {
            let e = self.entries()[place_of(self.entries(), id)];
            Some((e.value.session, e.value.stream, true))
        } else if any_eligible(self.entries(), id, None) {
            let e = self.entries()[nearest_place(self.entries(), id)];
            Some((e.value.session, e.value.stream, false))
        } else {
            None
        }
    }

    /// Whether a routing hint about `id` would be admitted.
    pub open spec fn admits_dht(&self, id: PeerId) -> bool {
        &&& id != self.own()
        &&& !self.is_blocked(id)
        &&& !holds(self.entries(), id)
        &&& bucket_load(self.entries(), self.own(), bucket_index(self.own(), id)) < K_BUCKET
    }

    /// An empty registry for the node `own`. The bootstrap list is the
    /// allow list followed by the peers remembered from an earlier run.
    pub fn load(
        own: PeerId,
        remembered: Vec<Peer>,
        allowlist: Vec<Peer>,
        blocks: (Vec<PeerId>, Vec<IpAddress>),
    ) -> (list: PeerList)
        ensures
            list.wf(),
            list.own() == own,
            list.entries() == Seq::<Entry>::empty(),
            list.seeds() == allowlist@ + remembered@,
            list.blocked_peers() == blocks.0@,
            list.blocked_addrs() == blocks.1@,
    {
        let mut allows = allowlist;
        let mut remembered = remembered;
        allows.append(&mut remembered);
        let list = PeerList {
            own,
            entries: Vec::new(),
            block_peers: blocks.0,
            block_addrs: blocks.1,
            allows,
        };
        assert(bucket_load(list.entries(), own, 0) == 0);
        assert forall|b: nat| #[trigger] bucket_load(list.entries(), own, b) <= K_BUCKET by {}
        list
    }

    /// The place of the entry about `id`.
    fn find(&self, id: &PeerId) -> (found: Option<usize>)
        ensures
            match found {
                Some(i) => i < self.entries().len() && self.entries()[i as int].id() == *id,
                None => !holds(self.entries(), *id),
            },
    {
        let mut i: usize = 0;
        while i < self.entries.len()
            invariant
                i <= self.entries.len(),
                forall|j: int| 0 <= j < i ==> (#[trigger] self.entries@[j]).id() != *id,
            decreases self.entries.len() - i,
        {
            if self.entries[i].value.peer.id == *id {
                return Some(i);
            }
            i += 1;
        }
        None
    }

    /// Whether the id is on the block list.
    pub fn is_block_peer(&self, id: &PeerId) -> (blocked: bool)
        ensures
            blocked == self.is_blocked(*id),
    {
        let mut i: usize = 0;
        while i < self.block_peers.len()
            invariant
                i <= self.block_peers.len(),
                forall|j: int| 0 <= j < i ==> self.block_peers@[j] != *id,
            decreases self.block_peers.len() - i,
        {
            if self.block_peers[i] == *id {
                return true;
            }
            i += 1;
        }
        false
    }

    /// Whether the socket's address is on the block list.
    pub fn is_block_addr(&self, addr: &SocketAddress) -> (blocked: bool)
        ensures
            blocked == self.blocked_addrs().contains(addr.ip),
    {
        let mut i: usize = 0;
        while i < self.block_addrs.len()
            invariant
                i <= self.block_addrs.len(),
                forall|j: int| 0 <= j < i ==> self.block_addrs@[j] != addr.ip,
            decreases self.block_addrs.len() - i,
        {
            if self.block_addrs[i] == addr.ip {
                return true;
            }
            i += 1;
        }
        false
    }

    /// The peers to dial at start and on reboot.
    pub fn bootstrap(&self) -> (peers: &Vec<Peer>)
        ensures
            peers@ == self.seeds(),
    {
        &self.allows
    }

    /// Whether no peer is registered.
    pub fn is_empty(&self) -> (empty: bool)
        ensures
            empty == (self.entries().len() == 0),
    {
        self.entries.len() == 0
    }

    /// The number of routing hints in bucket `b`.
    fn load_of(&self, b: usize) -> (n: usize)
        ensures
            n == bucket_load(self.entries(), self.own(), b as nat),
    {
        let mut n: usize = 0;
        let mut i: usize = 0;
        assert(self.entries@.take(0) =~= Seq::<Entry>::empty());
        while i < self.entries.len()
            invariant
                i <= self.entries.len(),
                n <= i,
                n == bucket_load(self.entries@.take(i as int), self.own, b as nat),
            decreases self.entries.len() - i,
        {
            let e = &self.entries[i];
            proof {
                assert(self.entries@.take(i + 1) =~= self.entries@.take(i as int).push(
                    self.entries@[i as int],
                ));
                lemma_load_push(
                    self.entries@.take(i as int),
                    self.entries@[i as int],
                    self.own,
                    b as nat,
                );
            }
            let counts = match e.category {
                Category::Dht => bucket(&self.own, &e.value.peer.id) == b,
                _ => false,
            };
            if counts {
                n += 1;
            }
            i += 1;
        }
        assert(self.entries@.take(i as int) =~= self.entries@);
        n
    }

    /// The eligible entry nearest to `target`.
    fn nearest(&self, target: &PeerId, after: Option<PeerId>) -> (found: Option<usize>)
        ensures
            match found {
                Some(i) => is_nearest(self.entries(), i as int, *target, after),
                None => !any_eligible(self.entries(), *target, after),
            },
    {
        let mut best: Option<usize> = None;
        let mut i: usize = 0;
        while i < self.entries.len()
            invariant
                i <= self.entries.len(),
                match best {
                    Some(b) => is_nearest(self.entries@.take(i as int), b as int, *target, after),
                    None => !any_eligible(self.entries@.take(i as int), *target, after),
                },
            decreases self.entries.len() - i,
        {
            let e = &self.entries[i];
            let ghost before = self.entries@.take(i as int);
            let ghost now = self.entries@.take(i + 1);
            assert(now =~= before.push(*e));
            let fits = match e.category {
                Category::Dht => !(e.value.peer.id == *target) && match after {
                    Some(p) => closer(&p, &e.value.peer.id, target),
                    None => true,
                },
                _ => false,
            };
            assert(fits == eligible(*e, *target, after));
            let better = fits && match best {
                Some(b) => closer(&e.value.peer.id, &self.entries[b].value.peer.id, target),
                None => true,
            };
            if better {
                proof {
                    assert forall|j: int|
                        0 <= j < now.len() && eligible(
                            #[trigger] now[j],
                            *target,
                            after,
                        ) implies distance(e.id(), *target) <= distance(now[j].id(), *target) by {
                        if j < i {
                            assert(now[j] == before[j]);
                        }
                    }
                }
                best = Some(i);
            } else {
                proof {
                    match best {
                        Some(b) => {
                            assert(now[b as int] == before[b as int]);
                            assert forall|j: int|
                                0 <= j < now.len() && eligible(
                                    #[trigger] now[j],
                                    *target,
                                    after,
                                ) implies distance(now[b as int].id(), *target) <= distance(
                                now[j].id(),
                                *target,
                            ) by {
                                if j < i {
                                    assert(now[j] == before[j]);
                                }
                            }
                        },
                        None => {
                            assert forall|j: int| 0 <= j < now.len() implies !eligible(
                                #[trigger] now[j],
                                *target,
                                after,
                            ) by {
                                if j < i {
                                    assert(now[j] == before[j]);
                                }
                            }
                        },
                    }
                }
            }
            i += 1;
        }
        assert(self.entries@.take(i as int) =~= self.entries@);
        best
    }

    /// Looks a peer up: its own session where it is registered, else the
    /// session of the routing hint nearest to it.
    pub fn get(&self, id: &PeerId) -> (found: Option<(SessionHandle, StreamHandle, bool)>)
        requires
            self.wf(),
        ensures
            found == self.lookup(*id),
    {
        match self.find(id) {
            Some(i) => {
                proof {
                    lemma_place(self.entries(), i as int);
                }
                let e = &self.entries[i];
                Some((e.value.session, e.value.stream, true))
            },
            None => {
                match self.nearest(id, None) {
                    Some(i) => {
                        proof {
                            self.lemma_nearest_unique(*id, i as int);
                        }
                        let e = &self.entries[i];
                        Some((e.value.session, e.value.stream, false))
                    },
                    None => None,
                }
            },
        }
    }

    /// There is one nearest routing hint at most.
    pub proof fn lemma_nearest_unique(&self, target: PeerId, i: int)
        requires
            self.wf(),
            is_nearest(self.entries(), i, target, None),
        ensures
            any_eligible(self.entries(), target, None),
            nearest_place(self.entries(), target) == i,
    {
        let entries = self.entries();
        let k = nearest_place(entries, target);
        assert(is_nearest(entries, k, target, None));
        assert(eligible(entries[i], target, None));
        assert(eligible(entries[k], target, None));
        lemma_distance_injective(entries[i].id(), entries[k].id(), target);
    }

    /// The session of a stable peer that is reached through a relay.
    pub fn is_relay(&self, id: &PeerId) -> (session: Option<SessionHandle>)
        requires
            self.wf(),
        ensures
            match self.category_of(*id) {
                Some(Category::StableRelay(_)) => session == Some(
                    self.entries()[place_of(self.entries(), *id)].value.session,
                ),
                _ => session is None,
            },
    {
        match self.find(id) {
            Some(i) => {
                proof {
                    lemma_place(self.entries(), i as int);
                }
                match self.entries[i].category {
                    Category::StableRelay(_) => Some(self.entries[i].value.session),
                    _ => None,
                }
            },
            None => None,
        }
    }

    /// The session of the entry about `id`, where there is one.
    pub open spec fn session_of(&self, id: PeerId) -> SessionHandle {
        self.entries()[place_of(self.entries(), id)].value.session
    }

    /// The session of a stable peer.
    pub fn stable_session(&self, id: &PeerId) -> (session: Option<SessionHandle>)
        requires
            self.wf(),
        ensures
            self.in_stable(*id) ==> session == Some(self.session_of(*id)),
            !self.in_stable(*id) ==> session is None,
    {
        match self.find(id) {
            Some(i) => {
                proof {
                    lemma_place(self.entries(), i as int);
                }
                match self.entries[i].category {
                    Category::Dht => None,
                    _ => Some(self.entries[i].value.session),
                }
            },
            None => None,
        }
    }

    /// Admits a routing hint, unless its peer is oneself, blocked or
    /// registered already, or its bucket is full.
    pub fn add_dht(&mut self, value: KadValue) -> (added: bool)
        requires
            old(self).wf(),
        ensures
            final(self).wf(),
            final(self).same_setup(old(self)),
            final(self).stable_from(old(self), None),
            added == old(self).admits_dht(value.peer.id),
            added ==> final(self).entries() == old(self).entries().push(
                Entry { value, category: Category::Dht },
            ),
            !added ==> final(self).entries() == old(self).entries(),
    {
        let id = value.peer.id;
        if id == self.own || self.is_block_peer(&id) || self.find(&id).is_some() {
            return false;
        }
        let b = bucket(&self.own, &id);
        if self.load_of(b) >= K_BUCKET {
            return false;
        }
        let entry = Entry { value, category: Category::Dht };
        proof {
            lemma_push_wf(self.entries(), entry, self.own(), self.blocked_peers());
            lemma_stable_push(self.entries(), entry);
        }
        self.entries.push(entry);
        true
    }

    /// The entries after `id` was admitted as stable with `value`.
    ///
    /// Nothing changes for oneself or a blocked peer. A routing hint is
    /// promoted and keeps its handles. A stable peer takes the new value if
    /// that is direct, and stays as it is otherwise. A new peer is added:
    /// directly, or through the relay its descriptor names, which must be
    /// registered and reached directly, else it is not added.
    pub open spec fn with_stable(&self, id: PeerId, value: KadValue, is_direct: bool) -> Seq<
        Entry,
    > {
        let entries = self.entries();
        let direct = Entry { value: named(id, value), category: Category::StableDirect };
        if id == self.own() || self.is_blocked(id) {
            entries
        } else if holds(entries, id) {
            let i = place_of(entries, id);
            if entries[i].is_dht() {
                entries.update(
                    i,
                    Entry { value: entries[i].value, category: Category::StableDirect },
                )
            } else if is_direct {
                entries.update(i, direct)
            } else {
                entries
            }
        } else if is_direct {
            entries.push(direct)
        } else {
            match value.peer.assist {
                Some(r) => if holds_direct(entries, r) {
                    entries.push(
                        Entry { value: named(id, value), category: Category::StableRelay(r) },
                    )
                } else {
                    entries
                },
                None => entries,
            }
        }
    }

    /// Whether some entry about `id` reaches it directly.
    fn has_direct(&self, id: &PeerId) -> (yes: bool)
        ensures
            yes == holds_direct(self.entries(), *id),
    {
        let mut i: usize = 0;
        while i < self.entries.len()
            invariant
                i <= self.entries.len(),
                forall|j: int|
                    0 <= j < i ==> !((#[trigger] self.entries@[j]).id() == *id
                        && !self.entries@[j].is_relay()),
            decreases self.entries.len() - i,
        {
            let e = &self.entries[i];
            let direct = match e.category {
                Category::StableRelay(_) => false,
                _ => true,
            };
            if direct && e.value.peer.id == *id {
                return true;
            }
            i += 1;
        }
        false
    }

    /// Admits a peer as stable. Says whether it is stable afterwards.
    pub fn add_stable(&mut self, id: PeerId, value: KadValue, is_direct: bool) -> (stable: bool)
        requires
            old(self).wf(),
        ensures
            final(self).wf(),
            final(self).same_setup(old(self)),
            final(self).entries() == old(self).with_stable(id, value, is_direct),
            final(self).stable_from(old(self), Some(id)),
            stable == final(self).in_stable(id),
    {
        let filed = KadValue {
            session: value.session,
            stream: value.stream,
            peer: Peer {
                id,
                assist: value.peer.assist,
                socket: value.peer.socket,
                transport: value.peer.transport,
            },
        };
        let direct = Entry { value: filed, category: Category::StableDirect };
        if id == self.own || self.is_block_peer(&id) {
            proof {
                if holds(self.entries(), id) {
                    let k = place_of(self.entries(), id);
                    assert(self.entries()[k].id() == id);
                }
            }
            return false;
        }
        match self.find(&id) {
            Some(i) => {
                proof {
                    lemma_place(self.entries(), i as int);
                }
                let was = self.entries[i];
                match was.category {
                    Category::Dht => {
                        let promoted = Entry { value: was.value, category: Category::StableDirect };
                        proof {
                            lemma_update_wf(
                                self.entries(),
                                i as int,
                                promoted,
                                self.own(),
                                self.blocked_peers(),
                            );
                            lemma_stable_update(self.entries(), i as int, promoted);
                        }
                        self.entries[i] = promoted;
                    },
                    _ => {
                        if is_direct {
                            proof {
                                lemma_update_wf(
                                    self.entries(),
                                    i as int,
                                    direct,
                                    self.own(),
                                    self.blocked_peers(),
                                );
                                lemma_stable_update(self.entries(), i as int, direct);
                            }
                            self.entries[i] = direct;
                        }
                    },
                }
                proof {
                    assert(self.entries()[i as int].id() == id);
                    assert(self.entries()[i as int].is_stable());
                }
                true
            },
            None => {
                let entry = if is_direct {
                    Some(direct)
                } else {
                    match value.peer.assist {
                        Some(r) => if self.has_direct(&r) {
                            Some(Entry { value: filed, category: Category::StableRelay(r) })
                        } else {
                            None
                        },
                        None => None,
                    }
                };
                match entry {
                    Some(e) => {
                        proof {
                            lemma_push_wf(self.entries(), e, self.own(), self.blocked_peers());
                            lemma_stable_push(self.entries(), e);
                        }
                        self.entries.push(e);
                        proof {
                            let last = self.entries().len() - 1;
                            assert(self.entries()[last].id() == id);
                            assert(self.entries()[last].is_stable());
                        }
                        true
                    },
                    None => false,
                }
            },
        }
    }

    /// The entries after the routing hint `id` was promoted to a stable
    /// peer: unchanged where `id` is no routing hint.
    pub open spec fn promoted(&self, id: PeerId) -> Seq<Entry> {
        let entries = self.entries();
        if self.in_dht(id) {
            let i = place_of(entries, id);
            entries.update(i, Entry { value: entries[i].value, category: Category::StableDirect })
        } else {
            entries
        }
    }

    /// Promotes a routing hint to a stable peer; its handles stay.
    pub fn dht_to_stable(&mut self, id: &PeerId) -> (res: Result<(), std::io::Error>)
        requires
            old(self).wf(),
        ensures
            final(self).wf(),
            final(self).same_setup(old(self)),
            final(self).stable_from(old(self), Some(*id)),
            res is Ok <==> old(self).in_dht(*id),
            res is Ok ==> final(self).in_stable(*id),
            res matches Err(e) ==> e == io_error_other("peer is not in the DHT."@),
            final(self).entries() == old(self).promoted(*id),
    {
        match self.find(id) {
            Some(i) => {
                proof {
                    lemma_place(self.entries(), i as int);
                }
                let was = self.entries[i];
                match was.category {
                    Category::Dht => {
                        let promoted = Entry { value: was.value, category: Category::StableDirect };
                        proof {
                            lemma_update_wf(
                                self.entries(),
                                i as int,
                                promoted,
                                self.own(),
                                self.blocked_peers(),
                            );
                            lemma_stable_update(self.entries(), i as int, promoted);
                        }
                        self.entries[i] = promoted;
                        proof {
                            assert(self.entries()[i as int].id() == *id);
                            assert(self.entries()[i as int].is_stable());
                        }
                        Ok(())
                    },
                    _ => Err(new_io_error("peer is not in the DHT.")),
                }
            },
            None => Err(new_io_error("peer is not in the DHT.")),
        }
    }

    /// Whether `relay` is reached directly and does not leave.
    fn relay_survives(&self, gone: &Gone, relay: &PeerId) -> (yes: bool)
        ensures
            yes == survives(self.entries(), *gone, *relay),
    {
        let mut i: usize = 0;
        while i < self.entries.len()
            invariant
                i <= self.entries.len(),
                forall|j: int|
                    0 <= j < i ==> !((#[trigger] self.entries@[j]).id() == *relay
                        && !self.entries@[j].is_relay() && !hits(*gone, self.entries@[j])),
            decreases self.entries.len() - i,
        {
            let e = &self.entries[i];
            let direct = match e.category {
                Category::StableRelay(_) => false,
                _ => true,
            };
            if direct && e.value.peer.id == *relay && !gone.hits_entry(e) {
                return true;
            }
            i += 1;
        }
        false
    }

    /// Takes out what `gone` names and every stable peer that was relayed
    /// through it. Gives back what left, in the order it was registered.
    fn evict(&mut self, gone: Gone) -> (left: Vec<Entry>)
        requires
            old(self).wf(),
        ensures
            final(self).wf(),
            final(self).same_setup(old(self)),
            final(self).stable_from(old(self), None),
            final(self).entries() == old(self).entries().filter(stays(old(self).entries(), gone)),
            left@ == old(self).entries().filter(leaves(old(self).entries(), gone)),
    {
        let ghost all = self.entries@;
        let ghost keep = stays(all, gone);
        let ghost drop = leaves(all, gone);
        let mut kept: Vec<Entry> = Vec::new();
        let mut left: Vec<Entry> = Vec::new();
        let mut i: usize = 0;
        proof {
            reveal(Seq::filter);
            assert(all.take(0) =~= Seq::<Entry>::empty());
        }
        while i < self.entries.len()
            invariant
                i <= self.entries.len(),
                all == self.entries@,
                keep == stays(all, gone),
                drop == leaves(all, gone),
                kept@ == all.take(i as int).filter(keep),
                left@ == all.take(i as int).filter(drop),
            decreases self.entries.len() - i,
        {
            let e = self.entries[i];
            let stay = !gone.hits_entry(&e) && match e.category {
                Category::StableRelay(r) => self.relay_survives(&gone, &r),
                _ => true,
            };
            proof {
                assert(all.take(i + 1) =~= all.take(i as int).push(e));
                all.take(i as int).lemma_filter_push(e, keep);
                all.take(i as int).lemma_filter_push(e, drop);
                assert(stay == keep(e));
            }
            if stay {
                kept.push(e);
            } else {
                left.push(e);
            }
            i += 1;
        }
        proof {
            assert(all.take(i as int) =~= all);
            lemma_stays_wf(all, gone, self.own(), self.blocked_peers());
            lemma_stable_filter(all, keep);
        }
        self.entries = kept;
        left
    }

    /// Takes a peer out of the registry, with every stable peer that was
    /// relayed through it. Gives back the entries that left.
    pub fn remove(&mut self, id: &PeerId) -> (left: Vec<Entry>)
        requires
            old(self).wf(),
        ensures
            final(self).wf(),
            final(self).same_setup(old(self)),
            final(self).stable_from(old(self), None),
            final(self).entries() == old(self).entries().filter(
                stays(old(self).entries(), Gone::Peer(*id)),
            ),
            left@ == old(self).entries().filter(leaves(old(self).entries(), Gone::Peer(*id))),
    {
        self.evict(Gone::Peer(*id))
    }

    /// Takes out every peer whose socket is `addr`, with every stable peer
    /// that was relayed through one of them. Gives back the entries that
    /// left.
    pub fn peer_disconnect(&mut self, addr: &SocketAddress) -> (left: Vec<Entry>)
        requires
            old(self).wf(),
        ensures
            final(self).wf(),
            final(self).same_setup(old(self)),
            final(self).stable_from(old(self), None),
            final(self).entries() == old(self).entries().filter(
                stays(old(self).entries(), Gone::Socket(*addr)),
            ),
            left@ == old(self).entries().filter(leaves(old(self).entries(), Gone::Socket(*addr))),
    {
        self.evict(Gone::Socket(*addr))
    }

    /// Takes out every peer whose session is `session`, with every stable
    /// peer that was relayed through one of them. Gives back the entries
    /// that left.
    pub fn remove_session(&mut self, session: SessionHandle) -> (left: Vec<Entry>)
        requires
            old(self).wf(),
        ensures
            final(self).wf(),
            final(self).same_setup(old(self)),
            final(self).stable_from(old(self), None),
            final(self).entries() == old(self).entries().filter(
                stays(old(self).entries(), Gone::Session(session)),
            ),
            left@ == old(self).entries().filter(
                leaves(old(self).entries(), Gone::Session(session)),
            ),
    {
        self.evict(Gone::Session(session))
    }

    /// Whether a stable peer can go back to being a routing hint: it is
    /// reached directly and its bucket has room.
    pub open spec fn can_demote(&self, id: PeerId) -> bool {
        &&& self.category_of(id) == Some(Category::StableDirect)
        &&& bucket_load(self.entries(), self.own(), bucket_index(self.own(), id)) < K_BUCKET
    }

    /// The entries after `id` has lost its stable standing: unchanged
    /// where it is not stable; with `id` as a routing hint where that can
    /// be; else without `id` and without the stable peers that were relayed
    /// through it.
    pub open spec fn demoted(&self, id: PeerId) -> Seq<Entry> {
        let entries = self.entries();
        if !self.in_stable(id) {
            entries
        } else if self.can_demote(id) {
            let i = place_of(entries, id);
            entries.update(i, Entry { value: entries[i].value, category: Category::Dht })
        } else {
            entries.filter(stays(entries, Gone::Peer(id)))
        }
    }

    /// The entries that leave the registry when `id` loses its stable
    /// standing: none where it is not stable or stays as a routing hint;
    /// else `id` itself and the stable peers that were relayed through it.
    pub open spec fn departed(&self, id: PeerId) -> Seq<Entry> {
        let entries = self.entries();
        if !self.in_stable(id) || self.can_demote(id) {
            Seq::empty()
        } else {
            entries.filter(leaves(entries, Gone::Peer(id)))
        }
    }

    /// Ends a peer's stable standing. Where it is reached directly and its
    /// bucket has room it stays as a routing hint with the same handles;
    /// else it leaves the registry, with every stable peer that was relayed
    /// through it. Gives back the entries that left.
    pub fn stable_to_dht(&mut self, id: &PeerId) -> (res: Result<Vec<Entry>, std::io::Error>)
        requires
            old(self).wf(),
        ensures
            final(self).wf(),
            final(self).same_setup(old(self)),
            final(self).stable_from(old(self), None),
            !final(self).in_stable(*id),
            res is Ok <==> old(self).in_stable(*id),
            res matches Ok(left) ==> left@ == old(self).departed(*id),
            res matches Err(e) ==> e == io_error_other("peer is not stable."@),
            final(self).entries() == old(self).demoted(*id),
    {
        match self.find(id) {
            Some(i) => {
                proof {
                    lemma_place(self.entries(), i as int);
                }
                let was = self.entries[i];
                match was.category {
                    Category::Dht => Err(new_io_error("peer is not stable.")),
                    Category::StableDirect => {
                        let b = bucket(&self.own, id);
                        if self.load_of(b) < K_BUCKET {
                            let hint = Entry { value: was.value, category: Category::Dht };
                            proof {
                                lemma_update_wf(
                                    self.entries(),
                                    i as int,
                                    hint,
                                    self.own(),
                                    self.blocked_peers(),
                                );
                                lemma_stable_update(self.entries(), i as int, hint);
                            }
                            self.entries[i] = hint;
                            Ok(Vec::new())
                        } else {
                            Ok(self.evict(Gone::Peer(*id)))
                        }
                    },
                    Category::StableRelay(_) => Ok(self.evict(Gone::Peer(*id))),
                }
            },
            None => Err(new_io_error("peer is not stable.")),
        }
    }

    /// The routing hints nearest to `id`, nearest first, without `id`
    /// itself: what a newly connected peer is told of the network.
    pub fn help_dht(&self, id: &PeerId) -> (peers: Vec<Peer>)
        requires
            self.wf(),
        ensures
            nearest_hints(self.entries(), *id, peers@),
    {
        let mut peers: Vec<Peer> = Vec::new();
        let mut after: Option<PeerId> = None;
        let mut round: usize = 0;
        let ghost entries = self.entries();
        while round < K_BUCKET
            invariant
                round <= K_BUCKET,
                self.wf(),
                entries == self.entries(),
                peers@.len() == round,
                round == 0 ==> after is None,
                round > 0 ==> after == Some(peers@.last().id),
                forall|k: int|
                    0 <= k < peers@.len() ==> exists|i: int|
                        0 <= i < entries.len() && eligible(#[trigger] entries[i], *id, None)
                            && entries[i].value.peer == #[trigger] peers@[k],
                forall|k: int, l: int|
                    0 <= k < l < peers@.len() ==> distance((#[trigger] peers@[k]).id, *id)
                        < distance((#[trigger] peers@[l]).id, *id),
                forall|i: int|
                    0 <= i < entries.len() && eligible(#[trigger] entries[i], *id, None)
                        && peers@.len() > 0 && distance(entries[i].id(), *id) <= distance(
                        peers@.last().id,
                        *id,
                    ) ==> peers@.contains(entries[i].value.peer),
            decreases K_BUCKET - round,
        {
            match self.nearest(id, after) {
                Some(m) => {
                    let next = self.entries[m].value.peer;
                    let ghost before = peers@;
                    peers.push(next);
                    proof {
                        let now = peers@;
                        assert(eligible(entries[m as int], *id, None));
                        assert forall|k: int| 0 <= k < now.len() implies exists|i: int|
                            0 <= i < entries.len() && eligible(#[trigger] entries[i], *id, None)
                                && entries[i].value.peer == #[trigger] now[k] by {
                            if k < before.len() {
                                assert(now[k] == before[k]);
                                let i = choose|i: int|
                                    0 <= i < entries.len() && eligible(
                                        #[trigger] entries[i],
                                        *id,
                                        None,
                                    ) && entries[i].value.peer == before[k];
                                assert(entries[i].value.peer == now[k]);
                            } else {
                                assert(entries[m as int].value.peer == now[k]);
                            }
                        }
                        assert forall|k: int, l: int| 0 <= k < l < now.len() implies distance(
                            (#[trigger] now[k]).id,
                            *id,
                        ) < distance((#[trigger] now[l]).id, *id) by {
                            if l < before.len() {
                                assert(now[k] == before[k] && now[l] == before[l]);
                            } else {
                                assert(now[k] == before[k]);
                                assert(before.last() == before[before.len() - 1]);
                                if k < before.len() - 1 {
                                    assert(distance(before[k].id, *id) < distance(
                                        before[before.len() - 1].id,
                                        *id,
                                    ));
                                }
                            }
                        }
                        assert forall|i: int|
                            0 <= i < entries.len() && eligible(#[trigger] entries[i], *id, None)
                                && distance(entries[i].id(), *id) <= distance(
                                now.last().id,
                                *id,
                            ) implies now.contains(entries[i].value.peer) by {
                            if before.len() > 0 && distance(entries[i].id(), *id) <= distance(
                                before.last().id,
                                *id,
                            ) {
                                assert(before.contains(entries[i].value.peer));
                                let k = choose|k: int|
                                    0 <= k < before.len() && before[k] == entries[i].value.peer;
                                assert(now[k] == entries[i].value.peer);
                            } else {
                                assert(eligible(entries[i], *id, after));
                                lemma_distance_injective(
                                    entries[i].id(),
                                    entries[m as int].id(),
                                    *id,
                                );
                                if i != m {
                                    if i < m {
                                        assert(entries[i].id() != entries[m as int].id());
                                    } else {
                                        assert(entries[m as int].id() != entries[i].id());
                                    }
                                }
                                assert(now[now.len() - 1] == entries[i].value.peer);
                            }
                        }
                    }
                    after = Some(next.id);
                },
                None => {
                    proof {
                        assert forall|i: int|
                            0 <= i < entries.len() && eligible(
                                #[trigger] entries[i],
                                *id,
                                None,
                            ) implies peers@.contains(entries[i].value.peer) by {
                            assert(!eligible(entries[i], *id, after));
                        }
                    }
                    return peers;
                },
            }
            round += 1;
        }
        peers
    }

    /// The stable peers: id, session and whether reached directly.
    pub fn stable_all(&self) -> (rows: Vec<(PeerId, (SessionHandle, bool))>)
        ensures
            rows@ == self.entries().filter(is_admitted()).map_values(stable_row()),
    {
        let mut rows: Vec<(PeerId, (SessionHandle, bool))> = Vec::new();
        let mut i: usize = 0;
        proof {
            reveal(Seq::filter);
            assert(self.entries@.take(0) =~= Seq::<Entry>::empty());
            assert(rows@ =~= self.entries@.take(0).filter(is_admitted()).map_values(stable_row()));
        }
        while i < self.entries.len()
            invariant
                i <= self.entries.len(),
                rows@ == self.entries@.take(i as int).filter(is_admitted()).map_values(
                    stable_row(),
                ),
            decreases self.entries.len() - i,
        {
            let e = &self.entries[i];
            proof {
                let front = self.entries@.take(i as int);
                assert(self.entries@.take(i + 1) =~= front.push(*e));
                front.lemma_filter_push(*e, is_admitted());
                front.filter(is_admitted()).lemma_push_map_commute(stable_row(), *e);
            }
            match e.category {
                Category::Dht => {},
                Category::StableDirect => {
                    rows.push((e.value.peer.id, (e.value.session, true)));
                },
                Category::StableRelay(_) => {
                    rows.push((e.value.peer.id, (e.value.session, false)));
                },
            }
            i += 1;
        }
        assert(self.entries@.take(i as int) =~= self.entries@);
        rows
    }

    /// Every registered peer, stable or routing hint: id and session.
    pub fn all(&self) -> (rows: Vec<(PeerId, SessionHandle)>)
        ensures
            rows@ == self.entries().map_values(session_row()),
    {
        let mut rows: Vec<(PeerId, SessionHandle)> = Vec::new();
        let mut i: usize = 0;
        while i < self.entries.len()
            invariant
                i <= self.entries.len(),
                rows@.len() == i,
                forall|j: int| 0 <= j < i ==> rows@[j] == session_row()(self.entries@[j]),
            decreases self.entries.len() - i,
        {
            let e = &self.entries[i];
            rows.push((e.value.peer.id, e.value.session));
            i += 1;
        }
        assert(rows@ =~= self.entries@.map_values(session_row()));
        rows
    }

    /// The ids of the routing hints.
    pub fn dht_keys(&self) -> (ids: Vec<PeerId>)
        ensures
            ids@ == self.entries().filter(is_hint()).map_values(id_of()),
    {
        let mut ids: Vec<PeerId> = Vec::new();
        let mut i: usize = 0;
        proof {
            reveal(Seq::filter);
            assert(self.entries@.take(0) =~= Seq::<Entry>::empty());
            assert(ids@ =~= self.entries@.take(0).filter(is_hint()).map_values(id_of()));
        }
        while i < self.entries.len()
            invariant
                i <= self.entries.len(),
                ids@ == self.entries@.take(i as int).filter(is_hint()).map_values(id_of()),
            decreases self.entries.len() - i,
        {
            let e = &self.entries[i];
            proof {
                let front = self.entries@.take(i as int);
                assert(self.entries@.take(i + 1) =~= front.push(*e));
                front.lemma_filter_push(*e, is_hint());
                front.filter(is_hint()).lemma_push_map_commute(id_of(), *e);
            }
            match e.category {
                Category::Dht => {
                    ids.push(e.value.peer.id);
                },
                _ => {},
            }
            i += 1;
        }
        assert(self.entries@.take(i as int) =~= self.entries@);
        ids
    }

    /// What is written down of the registry: for every registered peer its
    /// descriptor, whether it is reached directly and whether it is stable.
    pub fn records(&self) -> (rows: Vec<(Peer, bool, bool)>)
        ensures
            rows@ == self.entries().map_values(record_row()),
    {
        let mut rows: Vec<(Peer, bool, bool)> = Vec::new();
        let mut i: usize = 0;
        while i < self.entries.len()
            invariant
                i <= self.entries.len(),
                rows@.len() == i,
                forall|j: int| 0 <= j < i ==> rows@[j] == record_row()(self.entries@[j]),
            decreases self.entries.len() - i,
        {
            let e = &self.entries[i];
            let row = match e.category {
                Category::Dht => (e.value.peer, true, false),
                Category::StableDirect => (e.value.peer, true, true),
                Category::StableRelay(_) => (e.value.peer, false, true),
            };
            rows.push(row);
            i += 1;
        }
        assert(rows@ =~= self.entries@.map_values(record_row()));
        rows
    }
}

} // verus!
