use vstd::prelude::*;

use crate::kad::{hits, Category, Entry, Gone};
use crate::message::{
    actions_view, delivery_head, delivery_split, Action, ActionView, DeliveryType, ReceiveMessage,
    ReceiveView, SessionMessage, SessionView,
};

verus! {

/// The receipt for a request: one delivery message, or nothing for the
/// transaction id zero.
pub open spec fn receipt(
    kind: DeliveryType,
    tid: u64,
    ok: bool,
    data: Seq<u8>,
    length: usize,
) -> Seq<ActionView> {
    if tid != 0 {
        seq![
            ActionView::Out(
                ReceiveView::Delivery(kind, tid, ok, delivery_head(data, length as nat)),
            ),
        ]
    } else {
        Seq::empty()
    }
}

/// What is done about one entry that has left the registry: the
/// application is told, if that is asked for and the entry was stable, and
/// the entry's session is closed, if that is asked for.
pub open spec fn parting_of(e: Entry, told: bool, closed: bool) -> Seq<ActionView> {
    (if told && e.is_stable() {
        seq![ActionView::Out(ReceiveView::StableLeave(e.id()))]
    } else {
        Seq::empty()
    }) + (if closed {
        seq![ActionView::Session(e.value.session, SessionView::Close)]
    } else {
        Seq::empty()
    })
}

/// What is done about the entries that have left the registry, in their
/// order. Of an entry that left because its relay did, the application is
/// told and its session is closed. Of an entry that `gone` named itself,
/// the application is told if `told_hit` says so, and its session is closed
/// if `closed_hit` says so.
pub open spec fn parting(left: Seq<Entry>, gone: Gone, told_hit: bool, closed_hit: bool) -> Seq<
    ActionView,
>
    decreases left.len(),
{
    if left.len() == 0 {
        Seq::empty()
    } else {
        let e = left.last();
        parting(left.drop_last(), gone, told_hit, closed_hit) + parting_of(
            e,
            !hits(gone, e) || told_hit,
            !hits(gone, e) || closed_hit,
        )
    }
}

/// Appends an action.
pub(crate) fn emit(actions: &mut Vec<Action>, action: Action)
    ensures
        actions_view(final(actions)@) == actions_view(old(actions)@).push(action@),
{
    actions.push(action);
    assert(actions_view(actions@) =~= actions_view(old(actions)@).push(action@));
}

/// Appends the receipt for a request.
pub(crate) fn emit_receipt(
    actions: &mut Vec<Action>,
    kind: DeliveryType,
    tid: u64,
    ok: bool,
    data: &Vec<u8>,
    length: usize,
)
    ensures
        actions_view(final(actions)@) == actions_view(old(actions)@) + receipt(
            kind,
            tid,
            ok,
            data@,
            length,
        ),
{
    if tid != 0 {
        let head = delivery_split(data, length);
        emit(actions, Action::Out(ReceiveMessage::Delivery(kind, tid, ok, head)));
    }
    assert(actions_view(actions@) =~= actions_view(old(actions)@) + receipt(
        kind,
        tid,
        ok,
        data@,
        length,
    ));
}

/// No actions.
pub(crate) fn nothing() -> (actions: Vec<Action>)
    ensures
        actions_view(actions@) == Seq::<ActionView>::empty(),
{
    let actions: Vec<Action> = Vec::new();
    assert(actions_view(actions@) =~= Seq::<ActionView>::empty());
    actions
}

/// Appends what is done about the entries that have left the registry.
pub(crate) fn part(
    actions: &mut Vec<Action>,
    left: &Vec<Entry>,
    gone: &Gone,
    told_hit: bool,
    closed_hit: bool,
)
    ensures
        actions_view(final(actions)@) == actions_view(old(actions)@) + parting(
            left@,
            *gone,
            told_hit,
            closed_hit,
        ),
{
    let ghost base = actions_view(actions@);
    let mut i: usize = 0;
    assert(left@.take(0) =~= Seq::<Entry>::empty());
    assert(actions_view(actions@) =~= base + parting(left@.take(0), *gone, told_hit, closed_hit));
    while i < left.len()
        invariant
            i <= left.len(),
            actions_view(actions@) == base + parting(
                left@.take(i as int),
                *gone,
                told_hit,
                closed_hit,
            ),
        decreases left.len() - i,
    {
        let e = &left[i];
        let ghost so_far = actions_view(actions@);
        let hit = gone.hits_entry(e);
        let stable = match e.category {
            Category::Dht => false,
            _ => true,
        };
        if stable && (!hit || told_hit) {
            emit(actions, Action::Out(ReceiveMessage::StableLeave(e.value.peer.id)));
        }
        if !hit || closed_hit {
            emit(actions, Action::Session(e.value.session, SessionMessage::Close));
        }
        proof {
            let next = left@.take(i + 1);
            assert(next.drop_last() =~= left@.take(i as int));
            assert(next.last() == *e);
            assert(actions_view(actions@) =~= so_far + parting_of(
                *e,
                !hit || told_hit,
                !hit || closed_hit,
            ));
            assert(actions_view(actions@) =~= base + parting(next, *gone, told_hit, closed_hit));
        }
        i += 1;
    }
    assert(left@.take(i as int) =~= left@);
}

} // verus!
