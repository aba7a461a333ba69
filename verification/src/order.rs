//! Putting events in the order of their dates.

use vstd::prelude::*;
use crate::event::{event_views, ActivityEvent, EventView};
use crate::timestamp::Timestamp;

verus! {

/// No event stands before an older one.
pub open spec fn ordered(events: Seq<EventView>) -> bool {
    forall|i: int, j: int|
        0 <= i < j < events.len() ==> (#[trigger] events[i]).created_at.not_after(
            (#[trigger] events[j]).created_at,
        )
}

/// Where an event of the date `date` goes into `events`: behind the last
/// event that is not younger.
pub open spec fn slot_for(events: Seq<EventView>, date: Timestamp) -> int
    decreases events.len(),
{
    if events.len() > 0 && date.before(events.last().created_at) {
        slot_for(events.drop_last(), date)
    } else {
        events.len() as int
    }
}

/// `events` with `event` put in at its place.
pub open spec fn inserted(events: Seq<EventView>, event: EventView) -> Seq<EventView> {
    events.insert(slot_for(events, event.created_at), event)
}

/// The events from the oldest to the youngest. Events of one date keep the
/// order they had.
pub open spec fn sorted_by_time(events: Seq<EventView>) -> Seq<EventView>
    decreases events.len(),
{
    if events.len() == 0 {
        events
    } else {
        inserted(sorted_by_time(events.drop_last()), events.last())
    }
}

/// What an event's place is like: it is within the sequence, every event
/// from it on is younger than the date, and the event before it is not.
pub proof fn lemma_slot_for(events: Seq<EventView>, date: Timestamp)
    ensures
        0 <= slot_for(events, date) <= events.len(),
        forall|i: int|
            slot_for(events, date) <= i < events.len() ==> date.before(
                (#[trigger] events[i]).created_at,
            ),
        slot_for(events, date) > 0 ==> !date.before(
            events[slot_for(events, date) - 1].created_at,
        ),
    decreases events.len(),
{
    if events.len() > 0 && date.before(events.last().created_at) {
        lemma_slot_for(events.drop_last(), date);
        let p = slot_for(events, date);
        assert forall|i: int| p <= i < events.len() implies date.before(
            (#[trigger] events[i]).created_at,
        ) by {
            if i < events.len() - 1 {
                assert(events.drop_last()[i] == events[i]);
            }
        }
        if p > 0 {
            assert(events.drop_last()[p - 1] == events[p - 1]);
        }
    }
}

/// Putting an event in at its place keeps the order.
pub proof fn lemma_inserted_ordered(events: Seq<EventView>, event: EventView)
    requires
        ordered(events),
    ensures
        ordered(inserted(events, event)),
        inserted(events, event).len() == events.len() + 1,
{
    let p = slot_for(events, event.created_at);
    lemma_slot_for(events, event.created_at);
    let after = inserted(events, event);
    assert forall|i: int, j: int| 0 <= i < j < after.len() implies (
    #[trigger] after[i]).created_at.not_after((#[trigger] after[j]).created_at) by {
        if j < p {
            assert(after[i] == events[i] && after[j] == events[j]);
        } else if j == p {
            assert(after[i] == events[i]);
            if p > 0 {
                let last = events[p - 1];
                if i < p - 1 {
                    assert(events[i].created_at.not_after(last.created_at));
                }
            }
        } else if i < p {
            assert(after[i] == events[i] && after[j] == events[j - 1]);
        } else if i == p {
            assert(after[j] == events[j - 1]);
        } else {
            assert(after[i] == events[i - 1] && after[j] == events[j - 1]);
        }
    }
}

/// The sorted events are in order, and there are as many as before.
pub proof fn lemma_sorted_ordered(events: Seq<EventView>)
    ensures
        ordered(sorted_by_time(events)),
        sorted_by_time(events).len() == events.len(),
    decreases events.len(),
{
    if events.len() > 0 {
        lemma_sorted_ordered(events.drop_last());
        lemma_inserted_ordered(sorted_by_time(events.drop_last()), events.last());
    }
}

/// Sorting neither loses nor invents an event.
pub proof fn lemma_sorted_same_events(events: Seq<EventView>)
    ensures
        sorted_by_time(events).to_multiset() == events.to_multiset(),
    decreases events.len(),
{
    broadcast use vstd::seq_lib::group_to_multiset_ensures;

    if events.len() > 0 {
        let front = events.drop_last();
        let sorted = sorted_by_time(front);
        lemma_sorted_same_events(front);
        lemma_slot_for(sorted, events.last().created_at);
        assert(events =~= front.push(events.last()));
    }
}

/// Whether an event is of the date `date`.
pub open spec fn dated(date: Timestamp) -> spec_fn(EventView) -> bool {
    |e: EventView| e.created_at == date
}

/// A sequence without an event of a date has none to show of that date.
proof fn lemma_none_dated(events: Seq<EventView>, date: Timestamp)
    requires
        forall|i: int| 0 <= i < events.len() ==> (#[trigger] events[i]).created_at != date,
    ensures
        events.filter(dated(date)) == Seq::<EventView>::empty(),
    decreases events.len(),
{
    reveal(Seq::filter);
    if events.len() > 0 {
        assert forall|i: int| 0 <= i < events.drop_last().len() implies (
        #[trigger] events.drop_last()[i]).created_at != date by {
            assert(events.drop_last()[i] == events[i]);
        }
        lemma_none_dated(events.drop_last(), date);
        assert(events[events.len() - 1].created_at != date);
    }
}

/// An event that is put in at its place comes behind the events of its own
/// date, and the events of other dates stay as they were among themselves.
pub proof fn lemma_inserted_stable(events: Seq<EventView>, event: EventView, date: Timestamp)
    ensures
        inserted(events, event).filter(dated(date)) == if event.created_at == date {
            events.filter(dated(date)).push(event)
        } else {
            events.filter(dated(date))
        },
{
    let p = slot_for(events, event.created_at);
    lemma_slot_for(events, event.created_at);
    let head = events.take(p);
    let tail = events.skip(p);
    let one = seq![event];
    assert(inserted(events, event) =~= head + one + tail);
    assert(events =~= head + tail);
    Seq::filter_distributes_over_add(head + one, tail, dated(date));
    Seq::filter_distributes_over_add(head, one, dated(date));
    Seq::filter_distributes_over_add(head, tail, dated(date));
    assert(one.filter(dated(date)) =~= if event.created_at == date {
        one
    } else {
        Seq::<EventView>::empty()
    }) by {
        reveal_with_fuel(Seq::filter, 2);
        assert(one.drop_last() =~= Seq::<EventView>::empty());
    }
    if event.created_at == date {
        assert forall|i: int| 0 <= i < tail.len() implies (#[trigger] tail[i]).created_at
            != date by {
            assert(tail[i] == events[p + i]);
        }
        lemma_none_dated(tail, date);
        assert(head.filter(dated(date)) + one + Seq::<EventView>::empty() =~= head.filter(
            dated(date),
        ).push(event));
        assert(head.filter(dated(date)) + Seq::<EventView>::empty() =~= head.filter(
            dated(date),
        ));
    } else {
        assert(head.filter(dated(date)) + Seq::<EventView>::empty() =~= head.filter(
            dated(date),
        ));
    }
}

/// Sorting is stable: of every date, the sorted events hold the events that
/// there were, in the order they had.
pub proof fn lemma_sorted_stable(events: Seq<EventView>, date: Timestamp)
    ensures
        sorted_by_time(events).filter(dated(date)) == events.filter(dated(date)),
    decreases events.len(),
{
    reveal(Seq::filter);
    if events.len() > 0 {
        lemma_sorted_stable(events.drop_last(), date);
        lemma_inserted_stable(sorted_by_time(events.drop_last()), events.last(), date);
    }
}

/// Sorts the events by their dates, the oldest first. Events of one date
/// keep the order they had.
pub fn sort_by_time(events: Vec<ActivityEvent>) -> (sorted: Vec<ActivityEvent>)
    ensures
        event_views(sorted@) == sorted_by_time(event_views(events@)),
        ordered(event_views(sorted@)),
        sorted@.len() == events@.len(),
{
    let mut sorted: Vec<ActivityEvent> = Vec::new();
    let ghost mut seen: Seq<ActivityEvent> = Seq::empty();
    proof {
        assert(event_views(seen) =~= Seq::<EventView>::empty());
        assert(event_views(sorted@) =~= sorted_by_time(event_views(seen)));
    }
    for event in rest: events
        invariant
            rest.seq() == events@,
            seen == rest.history(),
            event_views(sorted@) == sorted_by_time(event_views(seen)),
    {
        let ghost before = event_views(sorted@);
        let mut at = sorted.len();
        assert(before.take(at as int) =~= before);
        while at > 0 && event.created_at.is_before(&sorted[at - 1].created_at)
            invariant
                at <= sorted@.len(),
                before == event_views(sorted@),
                slot_for(before, event.created_at) == slot_for(
                    before.take(at as int),
                    event.created_at,
                ),
            decreases at,
        {
            proof {
                assert(before.take(at as int).drop_last() =~= before.take(at - 1));
                assert(before.take(at as int).last() == sorted@[at - 1]@);
            }
            at -= 1;
        }
        proof {
            if at > 0 {
                assert(before.take(at as int).last() == sorted@[at - 1]@);
            }
            assert(slot_for(before, event.created_at) == at);
            let longer = seen.push(event);
            assert(event_views(longer).drop_last() =~= event_views(seen));
            assert(event_views(longer).last() == event@);
            assert(event_views(sorted@.insert(at as int, event)) =~= before.insert(
                at as int,
                event@,
            ));
            seen = longer;
        }
        sorted.insert(at, event);
    }
    assert(seen =~= events@);
    proof {
        lemma_sorted_ordered(event_views(events@));
    }
    sorted
}

} // verus!
