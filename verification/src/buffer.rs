use vstd::prelude::*;

use crate::kad::{KadValue, SessionHandle};
use crate::pending::{
    cleared, filed, fresh, is_stale, one_slot_each, pendings_view, requests_of, requests_view,
    stale, waits, Pending, PendingList, PendingView,
};
use crate::types::PeerId;

verus! {

/// How long a buffered entry may wait, in seconds, unless told otherwise.
pub const SWEEP_WINDOW: u64 = 60;

/// A peer whose handshake is done and whose standing the application has
/// yet to decide.
#[derive(Clone, Copy, Debug, PartialEq, Eq)]
pub struct Tmp {
    pub id: PeerId,
    /// When it was parked, in seconds.
    pub since: u64,
    pub value: KadValue,
    pub is_direct: bool,
}

/// A peer is parked under `id`.
pub open spec fn parked(tmps: Seq<Tmp>, id: PeerId) -> bool {
    exists|i: int| 0 <= i < tmps.len() && (#[trigger] tmps[i]).id == id
}

/// The place where `id` is parked.
pub open spec fn park_of(tmps: Seq<Tmp>, id: PeerId) -> int {
    choose|i: int| 0 <= i < tmps.len() && (#[trigger] tmps[i]).id == id
}

/// No peer is parked twice.
pub open spec fn parked_once(tmps: Seq<Tmp>) -> bool {
    forall|i: int, j: int|
        0 <= i < j < tmps.len() ==> (#[trigger] tmps[i]).id != (#[trigger] tmps[j]).id
}

/// Picks the parked peers that have waited too long.
pub open spec fn stale_tmp(now: u64, window: u64) -> spec_fn(Tmp) -> bool {
    |t: Tmp| is_stale(t.since, now, window)
}

/// Picks the parked peers that have not waited too long.
pub open spec fn fresh_tmp(now: u64, window: u64) -> spec_fn(Tmp) -> bool {
    |t: Tmp| !is_stale(t.since, now, window)
}

/// The parked peers after `id` was parked at `now`: in its old place if it
/// was parked already, else at the end.
pub open spec fn parked_with(
    tmps: Seq<Tmp>,
    id: PeerId,
    value: KadValue,
    is_direct: bool,
    now: u64,
) -> Seq<Tmp> {
    let t = Tmp { id, since: now, value, is_direct };
    if parked(tmps, id) {
        tmps.update(park_of(tmps, id), t)
    } else {
        tmps.push(t)
    }
}

/// The parked peers without `id`.
pub open spec fn unparked(tmps: Seq<Tmp>, id: PeerId) -> Seq<Tmp> {
    if parked(tmps, id) {
        tmps.remove(park_of(tmps, id))
    } else {
        tmps
    }
}

/// Where no peer is parked twice, a peer's place is the one where it is
/// found.
pub proof fn lemma_park(tmps: Seq<Tmp>, i: int)
    requires
        parked_once(tmps),
        0 <= i < tmps.len(),
    ensures
        parked(tmps, tmps[i].id),
        park_of(tmps, tmps[i].id) == i,
{
    let k = park_of(tmps, tmps[i].id);
    assert(0 <= k < tmps.len() && tmps[k].id == tmps[i].id);
}

/// Filtering parks no peer twice.
pub proof fn lemma_filter_parked_once(tmps: Seq<Tmp>, keep: spec_fn(Tmp) -> bool)
    requires
        parked_once(tmps),
    ensures
        parked_once(tmps.filter(keep)),
    decreases tmps.len(),
{
    reveal(Seq::filter);
    if tmps.len() > 0 {
        let front = tmps.drop_last();
        lemma_filter_parked_once(front, keep);
        let kept = front.filter(keep);
        if keep(tmps.last()) {
            assert forall|i: int| 0 <= i < kept.len() implies (#[trigger] kept[i]).id
                != tmps.last().id by {
                assert(kept.contains(kept[i]));
                front.lemma_filter_contains_rev(keep, kept[i]);
                let k = choose|k: int| 0 <= k < front.len() && front[k] == kept[i];
                assert(tmps[k] == kept[i]);
            }
        }
    }
}

/// What a sweep took out of the buffer, oldest first in each list.
pub struct Swept {
    pub connects: Vec<Pending>,
    pub results: Vec<Pending>,
    pub tmps: Vec<Tmp>,
}

/// Short-lived staging: the connect and result requests that wait for a
/// connection, and the peers that wait for the application's decision.
pub struct Buffer {
    window: u64,
    connects: PendingList,
    results: PendingList,
    tmps: Vec<Tmp>,
}

impl Buffer {
    /// How long an entry may wait, in seconds.
    pub closed spec fn window(&self) -> u64 {
        self.window
    }

    /// The connect requests in flight.
    pub closed spec fn connects(&self) -> Seq<PendingView> {
        self.connects@
    }

    /// The result requests in flight.
    pub closed spec fn results(&self) -> Seq<PendingView> {
        self.results@
    }

    /// The parked peers.
    pub closed spec fn tmps(&self) -> Seq<Tmp> {
        self.tmps@
    }

    /// The buffer's invariant: one place for each peer in each of its
    /// three lists.
    pub open spec fn wf(&self) -> bool {
        &&& one_slot_each(self.connects())
        &&& one_slot_each(self.results())
        &&& parked_once(self.tmps())
    }

    /// An empty buffer with the usual window.
    pub fn init() -> (buffer: Buffer)
        ensures
            buffer.wf(),
            buffer.window() == SWEEP_WINDOW,
            buffer.connects() == Seq::<PendingView>::empty(),
            buffer.results() == Seq::<PendingView>::empty(),
            buffer.tmps() == Seq::<Tmp>::empty(),
    {
        Buffer::with_window(SWEEP_WINDOW)
    }

    /// An empty buffer whose entries may wait for `window` seconds.
    pub fn with_window(window: u64) -> (buffer: Buffer)
        ensures
            buffer.wf(),
            buffer.window() == window,
            buffer.connects() == Seq::<PendingView>::empty(),
            buffer.results() == Seq::<PendingView>::empty(),
            buffer.tmps() == Seq::<Tmp>::empty(),
    {
        Buffer {
            window,
            connects: PendingList::new(),
            results: PendingList::new(),
            tmps: Vec::new(),
        }
    }

    /// Files a connect request for `id`. Says whether one was in flight
    /// already, in which case no new connection is due.
    pub fn add_connect(&mut self, id: PeerId, tid: u64, data: Vec<u8>, now: u64) -> (existed: bool)
        requires
            old(self).wf(),
        ensures
            final(self).wf(),
            existed == waits(old(self).connects(), id),
            final(self).connects() == filed(old(self).connects(), id, tid, data@, now),
            final(self).results() == old(self).results(),
            final(self).tmps() == old(self).tmps(),
            final(self).window() == old(self).window(),
    {
        self.connects.add(id, tid, data, now)
    }

    /// Files a result request for `id`. Says whether one was in flight
    /// already.
    pub fn add_result(&mut self, id: PeerId, tid: u64, data: Vec<u8>, now: u64) -> (existed: bool)
        requires
            old(self).wf(),
        ensures
            final(self).wf(),
            existed == waits(old(self).results(), id),
            final(self).results() == filed(old(self).results(), id, tid, data@, now),
            final(self).connects() == old(self).connects(),
            final(self).tmps() == old(self).tmps(),
            final(self).window() == old(self).window(),
    {
        self.results.add(id, tid, data, now)
    }

    /// The place where `id` is parked.
    fn find_tmp(&self, id: &PeerId) -> (found: Option<usize>)
        ensures
            match found {
                Some(i) => i < self.tmps().len() && self.tmps()[i as int].id == *id,
                None => !parked(self.tmps(), *id),
            },
    {
        let mut i: usize = 0;
        while i < self.tmps.len()
            invariant
                i <= self.tmps.len(),
                forall|j: int| 0 <= j < i ==> (#[trigger] self.tmps@[j]).id != *id,
            decreases self.tmps.len() - i,
        {
            if self.tmps[i].id == *id {
                return Some(i);
            }
            i += 1;
        }
        None
    }

    /// Parks a freshly connected peer until the application decides.
    pub fn add_tmp(&mut self, id: PeerId, value: KadValue, is_direct: bool, now: u64)
        requires
            old(self).wf(),
        ensures
            final(self).wf(),
            final(self).tmps() == parked_with(old(self).tmps(), id, value, is_direct, now),
            final(self).connects() == old(self).connects(),
            final(self).results() == old(self).results(),
            final(self).window() == old(self).window(),
    {
        let t = Tmp { id, since: now, value, is_direct };
        match self.find_tmp(&id) {
            Some(i) => {
                proof {
                    lemma_park(self.tmps(), i as int);
                }
                self.tmps[i] = t;
            },
            None => {
                self.tmps.push(t);
            },
        }
    }

    /// Takes out the connect requests that wait for `id`.
    pub fn remove_connect(&mut self, id: &PeerId) -> (requests: Vec<(u64, Vec<u8>)>)
        requires
            old(self).wf(),
        ensures
            final(self).wf(),
            final(self).connects() == cleared(old(self).connects(), *id),
            requests_view(requests@) == requests_of(old(self).connects(), *id),
            final(self).results() == old(self).results(),
            final(self).tmps() == old(self).tmps(),
            final(self).window() == old(self).window(),
    {
        self.connects.remove(id)
    }

    /// Takes out the result requests that wait for `id`.
    pub fn remove_result(&mut self, id: &PeerId) -> (requests: Vec<(u64, Vec<u8>)>)
        requires
            old(self).wf(),
        ensures
            final(self).wf(),
            final(self).results() == cleared(old(self).results(), *id),
            requests_view(requests@) == requests_of(old(self).results(), *id),
            final(self).connects() == old(self).connects(),
            final(self).tmps() == old(self).tmps(),
            final(self).window() == old(self).window(),
    {
        self.results.remove(id)
    }

    /// Takes a parked peer out: its value and whether it is reached
    /// directly.
    pub fn remove_tmp(&mut self, id: &PeerId) -> (taken: Option<(KadValue, bool)>)
        requires
            old(self).wf(),
        ensures
            final(self).wf(),
            final(self).tmps() == unparked(old(self).tmps(), *id),
            taken == if parked(old(self).tmps(), *id) {
                let t = old(self).tmps()[park_of(old(self).tmps(), *id)];
                Some((t.value, t.is_direct))
            } else {
                None
            },
            final(self).connects() == old(self).connects(),
            final(self).results() == old(self).results(),
            final(self).window() == old(self).window(),
    {
        match self.find_tmp(id) {
            Some(i) => {
                proof {
                    lemma_park(self.tmps(), i as int);
                }
                let t = self.tmps.remove(i);
                Some((t.value, t.is_direct))
            },
            None => None,
        }
    }

    /// The session of a parked peer; the peer stays parked.
    pub fn get_tmp_session(&self, id: &PeerId) -> (session: Option<SessionHandle>)
        requires
            self.wf(),
        ensures
            session == if parked(self.tmps(), *id) {
                Some(self.tmps()[park_of(self.tmps(), *id)].value.session)
            } else {
                None
            },
    {
        match self.find_tmp(id) {
            Some(i) => {
                proof {
                    lemma_park(self.tmps(), i as int);
                }
                Some(self.tmps[i].value.session)
            },
            None => None,
        }
    }

    /// Whether connect requests wait for `id`.
    pub fn has_connect(&self, id: &PeerId) -> (yes: bool)
        ensures
            yes == waits(self.connects(), *id),
    {
        self.connects.holds(id)
    }

    /// Whether result requests wait for `id`.
    pub fn has_result(&self, id: &PeerId) -> (yes: bool)
        ensures
            yes == waits(self.results(), *id),
    {
        self.results.holds(id)
    }

    /// Takes out everything that has waited for the window or longer at
    /// `now`, and gives it back.
    pub fn timer_clear(&mut self, now: u64) -> (swept: Swept)
        requires
            old(self).wf(),
        ensures
            final(self).wf(),
            final(self).window() == old(self).window(),
            final(self).connects() == old(self).connects().filter(fresh(now, old(self).window())),
            final(self).results() == old(self).results().filter(fresh(now, old(self).window())),
            final(self).tmps() == old(self).tmps().filter(fresh_tmp(now, old(self).window())),
            pendings_view(swept.connects@) == old(self).connects().filter(
                stale(now, old(self).window()),
            ),
            pendings_view(swept.results@) == old(self).results().filter(
                stale(now, old(self).window()),
            ),
            swept.tmps@ == old(self).tmps().filter(stale_tmp(now, old(self).window())),
    {
        let window = self.window;
        let connects = self.connects.sweep(now, window);
        let results = self.results.sweep(now, window);
        let ghost all = self.tmps@;
        let mut kept: Vec<Tmp> = Vec::new();
        let mut gone: Vec<Tmp> = Vec::new();
        let mut i: usize = 0;
        proof {
            reveal(Seq::filter);
            assert(all.take(0) =~= Seq::<Tmp>::empty());
        }
        while i < self.tmps.len()
            invariant
                i <= self.tmps.len(),
                all == self.tmps@,
                kept@ == all.take(i as int).filter(fresh_tmp(now, window)),
                gone@ == all.take(i as int).filter(stale_tmp(now, window)),
            decreases self.tmps.len() - i,
        {
            let t = self.tmps[i];
            proof {
                assert(all.take(i + 1) =~= all.take(i as int).push(t));
                all.take(i as int).lemma_filter_push(t, fresh_tmp(now, window));
                all.take(i as int).lemma_filter_push(t, stale_tmp(now, window));
            }
            if now >= t.since && now - t.since >= window {
                gone.push(t);
            } else {
                kept.push(t);
            }
            i += 1;
        }
        proof {
            assert(all.take(i as int) =~= all);
            lemma_filter_parked_once(all, fresh_tmp(now, window));
        }
        self.tmps = kept;
        Swept { connects, results, tmps: gone }
    }
}

} // verus!
