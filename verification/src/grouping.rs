//! Sorting events by the repository they belong to.

use vstd::prelude::*;
use crate::event::{event_views, ActivityEvent, EventView};

verus! {

/// The events of one repository.
pub struct RepositoryEvents {
    pub name: String,
    pub events: Vec<ActivityEvent>,
}

/// The value of a [`RepositoryEvents`].
pub struct GroupView {
    pub name: Seq<char>,
    pub events: Seq<EventView>,
}

impl View for RepositoryEvents {
    type V = GroupView;

    open spec fn view(&self) -> GroupView {
        GroupView { name: self.name@, events: event_views(self.events@) }
    }
}

/// The values of a sequence of groups.
pub open spec fn group_views(groups: Seq<RepositoryEvents>) -> Seq<GroupView> {
    groups.map_values(|g: RepositoryEvents| g@)
}

/// Whether an event belongs to the repository `name`.
pub open spec fn in_repository(name: Seq<char>) -> spec_fn(EventView) -> bool {
    |e: EventView| e.repository_name == name
}

/// The names of `names`, each once, in the order in which they first occur.
pub open spec fn first_mentions(names: Seq<Seq<char>>) -> Seq<Seq<char>>
    decreases names.len(),
{
    if names.len() == 0 {
        names
    } else {
        let before = first_mentions(names.drop_last());
        if before.contains(names.last()) {
            before
        } else {
            before.push(names.last())
        }
    }
}

/// The repository names of the events, in their order.
pub open spec fn names_of(events: Seq<EventView>) -> Seq<Seq<char>> {
    events.map_values(|e: EventView| e.repository_name)
}

/// The repositories that the events belong to, in the order in which the
/// events first name them.
pub open spec fn repositories(events: Seq<EventView>) -> Seq<Seq<char>> {
    first_mentions(names_of(events))
}

/// The events of the repository `name`, in their order.
pub open spec fn events_of(events: Seq<EventView>, name: Seq<char>) -> Seq<EventView> {
    events.filter(in_repository(name))
}

/// The events by repository: one group for each repository, in the order in
/// which the events first name them, and in each group the repository's
/// events in the order they had.
pub open spec fn grouped(events: Seq<EventView>) -> Seq<GroupView> {
    repositories(events).map_values(
        |name: Seq<char>| GroupView { name, events: events_of(events, name) },
    )
}

/// The first mentions hold a name exactly if the names do, and hold none
/// twice.
pub proof fn lemma_first_mentions(names: Seq<Seq<char>>)
    ensures
        first_mentions(names).no_duplicates(),
        forall|name: Seq<char>| #[trigger]
            first_mentions(names).contains(name) <==> names.contains(name),
    decreases names.len(),
{
    if names.len() > 0 {
        let front = names.drop_last();
        let last = names.last();
        let before = first_mentions(front);
        let after = first_mentions(names);
        lemma_first_mentions(front);
        assert forall|name: Seq<char>| #[trigger]
            after.contains(name) <==> names.contains(name) by {
            if after.contains(name) {
                let i = choose|i: int| 0 <= i < after.len() && after[i] == name;
                if i < before.len() {
                    assert(before[i] == name);
                    assert(before.contains(name));
                    assert(front.contains(name));
                    let j = choose|j: int| 0 <= j < front.len() && front[j] == name;
                    assert(names[j] == name);
                } else {
                    assert(names[names.len() - 1] == name);
                }
            }
            if names.contains(name) {
                let j = choose|j: int| 0 <= j < names.len() && names[j] == name;
                if j < front.len() {
                    assert(front[j] == name);
                    assert(front.contains(name));
                    assert(before.contains(name));
                    let i = choose|i: int| 0 <= i < before.len() && before[i] == name;
                    assert(after[i] == name);
                } else if before.contains(last) {
                } else {
                    assert(after[after.len() - 1] == name);
                }
            }
        }
        if !before.contains(last) {
            assert forall|i: int, j: int|
                0 <= i < after.len() && 0 <= j < after.len() && i != j implies after[i]
                != after[j] by {
                if i == before.len() {
                    assert(before.contains(before[j]));
                } else if j == before.len() {
                    assert(before.contains(before[i]));
                }
            }
        }
    }
}

/// No two groups are of one repository, and no group is empty.
pub proof fn lemma_grouped_distinct(events: Seq<EventView>)
    ensures
        forall|i: int, j: int|
            0 <= i < j < grouped(events).len() ==> (#[trigger] grouped(events)[i]).name != (
            #[trigger] grouped(events)[j]).name,
        forall|i: int|
            0 <= i < grouped(events).len() ==> (#[trigger] grouped(events)[i]).events.len() > 0,
{
    lemma_first_mentions(names_of(events));
    let names = repositories(events);
    assert forall|i: int| 0 <= i < grouped(events).len() implies (
    #[trigger] grouped(events)[i]).events.len() > 0 by {
        let name = names[i];
        assert(names.contains(name));
        assert(names_of(events).contains(name));
        let k = choose|k: int| 0 <= k < events.len() && names_of(events)[k] == name;
        assert(in_repository(name)(events[k]));
        events.lemma_filter_contains(in_repository(name), k);
    }
}

/// A repository that no event names has no events.
pub proof fn lemma_events_of_unnamed(events: Seq<EventView>, name: Seq<char>)
    requires
        !names_of(events).contains(name),
    ensures
        events_of(events, name) == Seq::<EventView>::empty(),
    decreases events.len(),
{
    reveal(Seq::filter);
    if events.len() > 0 {
        let front = events.drop_last();
        assert(!names_of(front).contains(name)) by {
            if names_of(front).contains(name) {
                let i = choose|i: int| 0 <= i < front.len() && names_of(front)[i] == name;
                assert(names_of(events)[i] == name);
            }
        }
        lemma_events_of_unnamed(front, name);
        assert(names_of(events)[events.len() - 1] == events.last().repository_name);
    }
}

/// What one more event changes in the groups: it comes last in the group of
/// its repository, which is a new group behind the others if the repository
/// had none.
pub proof fn lemma_grouped_push(events: Seq<EventView>, event: EventView)
    ensures
        repositories(events).contains(event.repository_name) ==> ({
            let at = repositories(events).index_of(event.repository_name);
            grouped(events.push(event)) == grouped(events).update(
                at,
                GroupView {
                    name: event.repository_name,
                    events: events_of(events, event.repository_name).push(event),
                },
            )
        }),
        !repositories(events).contains(event.repository_name) ==> grouped(events.push(event))
            == grouped(events).push(
            GroupView { name: event.repository_name, events: seq![event] },
        ),
{
    reveal(Seq::filter);
    let longer = events.push(event);
    let name = event.repository_name;
    assert(longer.drop_last() =~= events);
    assert(names_of(longer).drop_last() =~= names_of(events));
    assert(names_of(longer).last() == name);
    lemma_first_mentions(names_of(events));
    let known = repositories(events);
    assert forall|other: Seq<char>| other != name implies events_of(longer, other) == events_of(
        events,
        other,
    ) by {}
    assert(events_of(longer, name) == events_of(events, name).push(event));
    if known.contains(name) {
        let at = known.index_of(name);
        assert(known[at] == name);
        assert forall|i: int| 0 <= i < known.len() && i != at implies known[i] != name by {}
        assert(grouped(longer) =~= grouped(events).update(
            at,
            GroupView { name, events: events_of(events, name).push(event) },
        ));
    } else {
        lemma_events_of_unnamed(events, name);
        assert(events_of(longer, name) =~= seq![event]);
        assert forall|i: int| 0 <= i < known.len() implies known[i] != name by {
            assert(known.contains(known[i]));
        }
        assert(grouped(longer) =~= grouped(events).push(
            GroupView { name, events: seq![event] },
        ));
    }
}

/// Where the group of the repository `name` stands.
fn find_group(groups: &Vec<RepositoryEvents>, name: &String) -> (at: Option<usize>)
    ensures
        at matches Some(i) ==> i < groups@.len() && groups@[i as int].name@ == name@,
        at is None ==> forall|i: int| 0 <= i < groups@.len() ==> groups@[i].name@ != name@,
{
    let mut i: usize = 0;
    while i < groups.len()
        invariant
            i <= groups.len(),
            forall|j: int| 0 <= j < i ==> groups@[j].name@ != name@,
        decreases groups.len() - i,
    {
        if groups[i].name == *name {
            return Some(i);
        }
        i += 1;
    }
    None
}

/// Sorts the events into groups by repository. The groups come in the order
/// in which the events first name their repositories, and the events of a
/// group in the order they had.
pub fn group_by_repos(events: Vec<ActivityEvent>) -> (groups: Vec<RepositoryEvents>)
    ensures
        group_views(groups@) == grouped(event_views(events@)),
        forall|i: int, j: int|
            0 <= i < j < groups@.len() ==> (#[trigger] groups@[i]).name@ != (
            #[trigger] groups@[j]).name@,
{
    let mut groups: Vec<RepositoryEvents> = Vec::new();
    let ghost mut seen: Seq<ActivityEvent> = Seq::empty();
    proof {
        assert(event_views(seen) =~= Seq::<EventView>::empty());
        assert(names_of(event_views(seen)) =~= Seq::<Seq<char>>::empty());
        assert(group_views(groups@) =~= grouped(event_views(seen)));
    }
    for event in rest: events
        invariant
            rest.seq() == events@,
            seen == rest.history(),
            group_views(groups@) == grouped(event_views(seen)),
    {
        let ghost before = event_views(seen);
        let ghost had = group_views(groups@);
        proof {
            let longer = seen.push(event);
            assert(event_views(longer) =~= before.push(event@));
            lemma_grouped_push(before, event@);
            lemma_first_mentions(names_of(before));
            seen = longer;
        }
        match find_group(&groups, &event.repository_name) {
            Some(at) => {
                proof {
                    let known = repositories(before);
                    assert(had[at as int] == groups@[at as int]@);
                    assert(had.len() == known.len());
                    assert(grouped(before)[at as int].name == known[at as int]);
                    assert(known[at as int] == event@.repository_name);
                    assert(known.contains(event@.repository_name));
                    let chosen = known.index_of(event@.repository_name);
                    assert(known[chosen] == event@.repository_name);
                    assert(chosen == at);
                    assert(event_views(groups@[at as int].events@.push(event))
                        =~= event_views(groups@[at as int].events@).push(event@));
                }
                groups[at].events.push(event);
                assert(group_views(groups@) =~= had.update(
                    at as int,
                    GroupView {
                        name: event@.repository_name,
                        events: events_of(before, event@.repository_name).push(event@),
                    },
                ));
            },
            None => {
                proof {
                    let known = repositories(before);
                    assert(!known.contains(event@.repository_name)) by {
                        if known.contains(event@.repository_name) {
                            let i = choose|i: int|
                                0 <= i < known.len() && known[i] == event@.repository_name;
                            assert(had.len() == known.len());
                            assert(grouped(before)[i].name == known[i]);
                            assert(had[i] == groups@[i]@);
                        }
                    }
                }
                let name = event.repository_name.clone();
                let mut members: Vec<ActivityEvent> = Vec::new();
                members.push(event);
                let group = RepositoryEvents { name, events: members };
                proof {
                    assert(event_views(members@) =~= seq![event@]);
                    assert(group_views(groups@.push(group)) =~= had.push(group@));
                }
                groups.push(group);
            },
        }
    }
    assert(seen =~= events@);
    proof {
        lemma_grouped_distinct(event_views(events@));
        assert forall|i: int, j: int| 0 <= i < j < groups@.len() implies (
        #[trigger] groups@[i]).name@ != (#[trigger] groups@[j]).name@ by {
            assert(group_views(groups@)[i] == groups@[i]@);
            assert(group_views(groups@)[j] == groups@[j]@);
        }
    }
    groups
}

} // verus!
