use vstd::prelude::*;

use crate::types::PeerId;

verus! {

/// The requests that wait for a connection to one peer.
pub struct Pending {
    pub id: PeerId,
    /// When the first of them was filed, in seconds.
    pub since: u64,
    /// Transaction id and payload of each, oldest first.
    pub requests: Vec<(u64, Vec<u8>)>,
}

/// A `Pending` as plain values.
pub struct PendingView {
    pub id: PeerId,
    pub since: u64,
    pub requests: Seq<(u64, Seq<u8>)>,
}

/// A request as plain values.
pub open spec fn request_view() -> spec_fn((u64, Vec<u8>)) -> (u64, Seq<u8>) {
    |r: (u64, Vec<u8>)| (r.0, r.1@)
}

/// A list of requests as plain values.
pub open spec fn requests_view(requests: Seq<(u64, Vec<u8>)>) -> Seq<(u64, Seq<u8>)> {
    requests.map_values(request_view())
}

impl View for Pending {
    type V = PendingView;

    open spec fn view(&self) -> PendingView {
        PendingView { id: self.id, since: self.since, requests: requests_view(self.requests@) }
    }
}

/// A `Pending` as plain values, as a function.
pub open spec fn pending_view() -> spec_fn(Pending) -> PendingView {
    |p: Pending| p@
}

/// A list of `Pending` as plain values.
pub open spec fn pendings_view(items: Seq<Pending>) -> Seq<PendingView> {
    items.map_values(pending_view())
}

/// Whether something filed at `since` has waited for `window` seconds or
/// more at `now`.
pub open spec fn is_stale(since: u64, now: u64, window: u64) -> bool {
    now >= since && now - since >= window
}

/// Picks the requests that have waited too long.
pub open spec fn stale(now: u64, window: u64) -> spec_fn(PendingView) -> bool {
    |p: PendingView| is_stale(p.since, now, window)
}

/// Picks the requests that have not waited too long.
pub open spec fn fresh(now: u64, window: u64) -> spec_fn(PendingView) -> bool {
    |p: PendingView| !is_stale(p.since, now, window)
}

/// Requests wait for `id`.
pub open spec fn waits(items: Seq<PendingView>, id: PeerId) -> bool {
    exists|i: int| 0 <= i < items.len() && (#[trigger] items[i]).id == id
}

/// The place of the requests that wait for `id`.
pub open spec fn slot_of(items: Seq<PendingView>, id: PeerId) -> int {
    choose|i: int| 0 <= i < items.len() && (#[trigger] items[i]).id == id
}

/// No peer has two places.
pub open spec fn one_slot_each(items: Seq<PendingView>) -> bool {
    forall|i: int, j: int|
        0 <= i < j < items.len() ==> (#[trigger] items[i]).id != (#[trigger] items[j]).id
}

/// The list after a request for `id` was filed at `now`: appended to the
/// requests that wait for `id`, or the first in a new place at the end.
pub open spec fn filed(
    items: Seq<PendingView>,
    id: PeerId,
    tid: u64,
    data: Seq<u8>,
    now: u64,
) -> Seq<PendingView> {
    if waits(items, id) {
        let i = slot_of(items, id);
        items.update(
            i,
            PendingView {
                id: items[i].id,
                since: items[i].since,
                requests: items[i].requests.push((tid, data)),
            },
        )
    } else {
        items.push(PendingView { id, since: now, requests: seq![(tid, data)] })
    }
}

/// The list without the requests that wait for `id`.
pub open spec fn cleared(items: Seq<PendingView>, id: PeerId) -> Seq<PendingView> {
    if waits(items, id) {
        items.remove(slot_of(items, id))
    } else {
        items
    }
}

/// The requests that wait for `id`, oldest first.
pub open spec fn requests_of(items: Seq<PendingView>, id: PeerId) -> Seq<(u64, Seq<u8>)> {
    if waits(items, id) {
        items[slot_of(items, id)].requests
    } else {
        Seq::empty()
    }
}

/// Every peer that requests wait for in `after` is one of `before`, or is
/// `extra`.
pub open spec fn waits_among(
    after: Seq<PendingView>,
    before: Seq<PendingView>,
    extra: Option<PeerId>,
) -> bool {
    forall|p: PeerId| #[trigger] waits(after, p) ==> waits(before, p) || extra == Some(p)
}

/// Filing a request makes requests wait for its peer, and for no other
/// new peer.
pub proof fn lemma_filed_waits(
    items: Seq<PendingView>,
    id: PeerId,
    tid: u64,
    data: Seq<u8>,
    now: u64,
)
    ensures
        waits_among(filed(items, id, tid, data, now), items, Some(id)),
{
    let after = filed(items, id, tid, data, now);
    assert forall|p: PeerId| #[trigger] waits(after, p) implies waits(items, p) || p == id by {
        let k = choose|k: int| 0 <= k < after.len() && (#[trigger] after[k]).id == p;
        if waits(items, id) {
            let i = slot_of(items, id);
            if k != i {
                assert(items[k] == after[k]);
            }
        } else {
            if k < items.len() {
                assert(items[k] == after[k]);
            }
        }
    }
}

/// After the requests for a peer were taken out none waits for it, and
/// none waits for a new peer.
pub proof fn lemma_cleared_waits(items: Seq<PendingView>, id: PeerId)
    requires
        one_slot_each(items),
    ensures
        waits_among(cleared(items, id), items, None),
        !waits(cleared(items, id), id),
        one_slot_each(cleared(items, id)),
{
    let after = cleared(items, id);
    if waits(items, id) {
        let i = slot_of(items, id);
        assert forall|k: int| 0 <= k < after.len() implies (#[trigger] after[k]).id != id
            && waits(items, after[k].id) by {
            if k < i {
                assert(after[k] == items[k]);
            } else {
                assert(after[k] == items[k + 1]);
            }
        }
        assert forall|a: int, b: int| 0 <= a < b < after.len() implies (#[trigger] after[a]).id
            != (#[trigger] after[b]).id by {
            let a0 = if a < i { a } else { a + 1 };
            let b0 = if b < i { b } else { b + 1 };
            assert(after[a] == items[a0]);
            assert(after[b] == items[b0]);
        }
    }
}

/// Filtering makes requests wait for no new peer.
pub proof fn lemma_filter_waits(items: Seq<PendingView>, keep: spec_fn(PendingView) -> bool)
    ensures
        waits_among(items.filter(keep), items, None),
{
    let after = items.filter(keep);
    assert forall|p: PeerId| #[trigger] waits(after, p) implies waits(items, p) by {
        let k = choose|k: int| 0 <= k < after.len() && (#[trigger] after[k]).id == p;
        assert(after.contains(after[k]));
        items.lemma_filter_contains_rev(keep, after[k]);
        let m = choose|m: int| 0 <= m < items.len() && items[m] == after[k];
        assert(items[m].id == p);
    }
}

/// With one place for each peer, a peer's place is the one where it is
/// found.
pub proof fn lemma_slot(items: Seq<PendingView>, i: int)
    requires
        one_slot_each(items),
        0 <= i < items.len(),
    ensures
        waits(items, items[i].id),
        slot_of(items, items[i].id) == i,
{
    let k = slot_of(items, items[i].id);
    assert(0 <= k < items.len() && items[k].id == items[i].id);
}

/// Filtering leaves one place for each peer.
pub proof fn lemma_filter_one_slot(items: Seq<PendingView>, keep: spec_fn(PendingView) -> bool)
    requires
        one_slot_each(items),
    ensures
        one_slot_each(items.filter(keep)),
    decreases items.len(),
{
    reveal(Seq::filter);
    if items.len() > 0 {
        let front = items.drop_last();
        lemma_filter_one_slot(front, keep);
        let kept = front.filter(keep);
        if keep(items.last()) {
            assert forall|i: int| 0 <= i < kept.len() implies (#[trigger] kept[i]).id
                != items.last().id by {
                assert(kept.contains(kept[i]));
                front.lemma_filter_contains_rev(keep, kept[i]);
                let k = choose|k: int| 0 <= k < front.len() && front[k] == kept[i];
                assert(items[k] == kept[i]);
            }
        }
    }
}

/// The requests in flight of one kind, one place for each peer.
pub struct PendingList {
    items: Vec<Pending>,
}

impl View for PendingList {
    type V = Seq<PendingView>;

    closed spec fn view(&self) -> Seq<PendingView> {
        pendings_view(self.items@)
    }
}

impl PendingList {
    /// The list's invariant: one place for each peer.
    pub open spec fn wf(&self) -> bool {
        one_slot_each(self@)
    }

    /// An empty list.
    pub fn new() -> (list: PendingList)
        ensures
            list.wf(),
            list@ == Seq::<PendingView>::empty(),
    {
        let list = PendingList { items: Vec::new() };
        assert(list@ =~= Seq::<PendingView>::empty());
        list
    }

    /// The place of the requests that wait for `id`.
    fn find(&self, id: &PeerId) -> (found: Option<usize>)
        ensures
            match found {
                Some(i) => i < self@.len() && self@[i as int].id == *id && i < self.items@.len(),
                None => !waits(self@, *id),
            },
    {
        let mut i: usize = 0;
        while i < self.items.len()
            invariant
                i <= self.items.len(),
                forall|j: int| 0 <= j < i ==> (#[trigger] self@[j]).id != *id,
            decreases self.items.len() - i,
        {
            if self.items[i].id == *id {
                return Some(i);
            }
            i += 1;
        }
        None
    }

    /// Whether requests wait for `id`.
    pub fn holds(&self, id: &PeerId) -> (yes: bool)
        ensures
            yes == waits(self@, *id),
    {
        self.find(id).is_some()
    }

    /// Files a request for `id`. Says whether requests were waiting for
    /// `id` already.
    pub fn add(&mut self, id: PeerId, tid: u64, data: Vec<u8>, now: u64) -> (existed: bool)
        requires
            old(self).wf(),
        ensures
            final(self).wf(),
            existed == waits(old(self)@, id),
            final(self)@ == filed(old(self)@, id, tid, data@, now),
    {
        let ghost before = self@;
        match self.find(&id) {
            Some(i) => {
                proof {
                    lemma_slot(before, i as int);
                }
                let mut p = self.items.remove(i);
                let ghost was = p@;
                p.requests.push((tid, data));
                proof {
                    assert(p@.requests =~= was.requests.push((tid, data@)));
                }
                self.items.insert(i, p);
                proof {
                    assert(self@ =~= filed(before, id, tid, data@, now));
                }
                true
            },
            None => {
                let mut requests: Vec<(u64, Vec<u8>)> = Vec::new();
                requests.push((tid, data));
                let p = Pending { id, since: now, requests };
                proof {
                    assert(p@.requests =~= seq![(tid, data@)]);
                }
                self.items.push(p);
                proof {
                    assert(self@ =~= filed(before, id, tid, data@, now));
                }
                false
            },
        }
    }

    /// Takes out the requests that wait for `id` and gives them back,
    /// oldest first.
    pub fn remove(&mut self, id: &PeerId) -> (requests: Vec<(u64, Vec<u8>)>)
        requires
            old(self).wf(),
        ensures
            final(self).wf(),
            final(self)@ == cleared(old(self)@, *id),
            requests_view(requests@) == requests_of(old(self)@, *id),
    {
        let ghost before = self@;
        match self.find(id) {
            Some(i) => {
                proof {
                    lemma_slot(before, i as int);
                }
                let p = self.items.remove(i);
                proof {
                    assert(self@ =~= before.remove(i as int));
                }
                p.requests
            },
            None => {
                let requests: Vec<(u64, Vec<u8>)> = Vec::new();
                assert(requests_view(requests@) =~= Seq::<(u64, Seq<u8>)>::empty());
                requests
            },
        }
    }

    /// Takes out what has waited for `window` seconds or more at `now` and
    /// gives it back, oldest first.
    pub fn sweep(&mut self, now: u64, window: u64) -> (swept: Vec<Pending>)
        requires
            old(self).wf(),
        ensures
            final(self).wf(),
            final(self)@ == old(self)@.filter(fresh(now, window)),
            pendings_view(swept@) == old(self)@.filter(stale(now, window)),
    {
        let ghost before = self@;
        let mut items: Vec<Pending> = Vec::new();
        std::mem::swap(&mut items, &mut self.items);
        let ghost all = items@;
        let mut kept: Vec<Pending> = Vec::new();
        let mut swept: Vec<Pending> = Vec::new();
        proof {
            reveal(Seq::filter);
            assert(before.take(0) =~= Seq::<PendingView>::empty());
            assert(pendings_view(kept@) =~= before.take(0).filter(fresh(now, window)));
            assert(pendings_view(swept@) =~= before.take(0).filter(stale(now, window)));
        }
        for p in it: items
            invariant
                it.seq() == all,
                before == pendings_view(all),
                pendings_view(kept@) == before.take(it.index() as int).filter(fresh(now, window)),
                pendings_view(swept@) == before.take(it.index() as int).filter(
                    stale(now, window),
                ),
        {
            let ghost k = it.index() as int;
            let ghost front = before.take(k);
            proof {
                assert(before[k] == p@);
                assert(before.take(k + 1) =~= front.push(p@));
                front.lemma_filter_push(p@, fresh(now, window));
                front.lemma_filter_push(p@, stale(now, window));
            }
            let ghost kept_before = kept@;
            let ghost swept_before = swept@;
            if now >= p.since && now - p.since >= window {
                swept.push(p);
                proof {
                    assert(pendings_view(swept@) =~= pendings_view(swept_before).push(p@));
                }
            } else {
                kept.push(p);
                proof {
                    assert(pendings_view(kept@) =~= pendings_view(kept_before).push(p@));
                }
            }
        }
        proof {
            assert(before.take(all.len() as int) =~= before);
            lemma_filter_one_slot(before, fresh(now, window));
        }
        self.items = kept;
        swept
    }
}

} // verus!
