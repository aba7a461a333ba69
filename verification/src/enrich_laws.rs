//! What holds of the resolution of pushes, and of the report that is made
//! of resolved events.

use vstd::prelude::*;
use crate::classify::{after_push, entries_of, fresh, holds, step, Slot};
use crate::classify_laws::lemma_gathered_few;
use crate::enrich::{
    after_pull_requests, after_repository, candidate_ref, info_of, is_known, key_of,
    names_distinct, needs_lookup, owner_of, pulls_head_asked, pulls_repository_asked,
    repository_asked, resolved_event, scanned, started, BranchKey, EnrichView, KnownView, Stage,
};
use crate::failure::FailureView;
use crate::event::{EventView, PayloadView, PullRequestView, RepositoryView};
use crate::grouping::{
    events_of, first_mentions, grouped, names_of, repositories, GroupView,
};
use crate::order::{slot_for, sorted_by_time};
use crate::report::EntryKind;
use crate::summary::{
    has_entries, payloads_of, report_of, reported, reports_of, RepositoryReportView,
};

verus! {

/// The state of a pass over one event that has come to that event.
pub open spec fn at_only_event(event: EventView, known: Seq<KnownView>) -> EnrichView {
    EnrichView { events: seq![event], cursor: 0, known, checked: seq![key_of(event)] }
}

/// The first push to a branch of a fork is resolved in the repository that
/// was forked.
///
/// For a single event that is a push to another branch than the main one:
/// the pass asks for the repository by the name that the event gives; when
/// the answer is a fork, it asks for pull requests in the fork's source, by
/// the head made of the fork's owner and the branch; and when a pull request
/// is found, the pass ends with the event attributed to the source and
/// carrying the pull request.
pub proof fn lemma_fork_push_resolved(
    event: EventView,
    fork: RepositoryView,
    upstream: RepositoryView,
    pr: PullRequestView,
)
    requires
        candidate_ref(event) is Some,
        fork.source == Some(Box::new(upstream)),
    ensures
        started(seq![event]) == Stage::NeedRepository(at_only_event(event, Seq::empty())),
        repository_asked(at_only_event(event, Seq::empty())) == event.repository_name,
        after_repository(at_only_event(event, Seq::empty()), Ok(fork))
            == Stage::NeedPullRequests(
            at_only_event(event, seq![KnownView { name: event.repository_name, info: fork }]),
        ),
        pulls_repository_asked(
            at_only_event(event, seq![KnownView { name: event.repository_name, info: fork }]),
        ) == upstream.full_name,
        pulls_head_asked(
            at_only_event(event, seq![KnownView { name: event.repository_name, info: fork }]),
        ) == owner_of(fork.full_name) + ":"@ + candidate_ref(event)->0,
        after_pull_requests(
            at_only_event(event, seq![KnownView { name: event.repository_name, info: fork }]),
            Ok(seq![pr]),
        ) == Stage::Done(seq![resolved_event(event, fork, seq![pr])]),
        resolved_event(event, fork, seq![pr]).repository_name == upstream.full_name,
        resolved_event(event, fork, seq![pr]).payload == Some(
            PayloadView::Push { git_ref: candidate_ref(event)->0, resolved: Some(seq![pr]) },
        ),
{
    let nothing = Seq::<KnownView>::empty();
    let none_checked = Seq::<BranchKey>::empty();
    let first = EnrichView { events: seq![event], cursor: 0, known: nothing, checked: none_checked };
    reveal_with_fuel(scanned, 2);
    assert(first.events[0] == event);
    assert(!none_checked.contains(key_of(event)));
    assert(!is_known(nothing, event.repository_name));
    assert(none_checked.push(key_of(event)) =~= seq![key_of(event)]);
    let asked = at_only_event(event, nothing);
    assert(started(seq![event]) == Stage::NeedRepository(asked));
    let known = seq![KnownView { name: event.repository_name, info: fork }];
    assert(nothing.push(KnownView { name: event.repository_name, info: fork }) =~= known);
    let waiting = at_only_event(event, known);
    assert(known[0].name == event.repository_name);
    assert(is_known(known, event.repository_name));
    assert(info_of(known, event.repository_name) == fork);
    let resolved = resolved_event(event, fork, seq![pr]);
    let moved = EnrichView {
        events: waiting.events.update(0, resolved),
        cursor: 1,
        known,
        checked: waiting.checked,
    };
    assert(moved.events =~= seq![resolved]);
    assert(scanned(moved) == Stage::Done(seq![resolved]));
}

/// A resolved push to a fork is reported under the repository that was
/// forked, as an entry for the pull request with the action `pushed`.
pub proof fn lemma_fork_push_reported(
    login: Seq<char>,
    include_issue_comments: bool,
    event: EventView,
    fork: RepositoryView,
    upstream: RepositoryView,
    pr: PullRequestView,
)
    requires
        candidate_ref(event) is Some,
        fork.source == Some(Box::new(upstream)),
    ensures
        reported(login, include_issue_comments, seq![resolved_event(event, fork, seq![pr])])
            == seq![
            RepositoryReportView {
                repository: upstream.full_name,
                entries: seq![fresh(EntryKind::PullRequest, pr.title, pr.url, seq!["pushed"@])],
            },
        ],
{
    let resolved = resolved_event(event, fork, seq![pr]);
    let one = seq![resolved];
    let name = upstream.full_name;
    let entry = fresh(EntryKind::PullRequest, pr.title, pr.url, seq!["pushed"@]);
    // one event is in order as it is
    reveal_with_fuel(sorted_by_time, 2);
    reveal_with_fuel(slot_for, 2);
    assert(one.drop_last() =~= Seq::<EventView>::empty());
    assert(sorted_by_time(one) =~= one);
    // and makes one group
    reveal_with_fuel(first_mentions, 2);
    assert(names_of(one) =~= seq![name]);
    assert(seq![name].drop_last() =~= Seq::<Seq<char>>::empty());
    assert(!Seq::<Seq<char>>::empty().contains(name));
    assert(repositories(one) =~= seq![name]);
    reveal_with_fuel(Seq::filter, 2);
    assert(events_of(one, name) =~= one);
    assert(grouped(one) =~= seq![GroupView { name, events: one }]);
    // which says one thing
    reveal_with_fuel(Seq::filter_map, 2);
    let said = resolved.payload->0;
    assert(payloads_of(one) =~= seq![said]);
    // that amounts to one entry
    lemma_gathered_few(login, include_issue_comments, said, said);
    reveal_with_fuel(after_push, 2);
    assert(seq![pr].drop_last() =~= Seq::<PullRequestView>::empty());
    assert(!holds(Seq::<Slot>::empty(), pr.number));
    let slots = step(Seq::empty(), login, include_issue_comments, said);
    assert(slots =~= seq![Slot { number: pr.number, entry }]);
    assert(entries_of(slots) =~= seq![entry]);
    let report = RepositoryReportView { repository: name, entries: seq![entry] };
    assert(report_of(login, include_issue_comments, GroupView { name, events: one }) == report);
    let reports = reports_of(login, include_issue_comments, grouped(one));
    assert(reports =~= seq![report]);
    assert(reports.drop_last() =~= Seq::<RepositoryReportView>::empty());
    assert(reports.filter(has_entries()) =~= seq![report]);
}

/// An answer to a pass.
pub enum Answer {
    Repository(Result<RepositoryView, FailureView>),
    PullRequests(Result<Seq<PullRequestView>, FailureView>),
}

/// The stage after an answer. An answer to what was not asked changes
/// nothing, and neither does an answer to a pass that has ended.
pub open spec fn answered(stage: Stage, answer: Answer) -> Stage {
    match (stage, answer) {
        (Stage::NeedRepository(state), Answer::Repository(info)) => after_repository(state, info),
        (Stage::NeedPullRequests(state), Answer::PullRequests(found)) => after_pull_requests(
            state,
            found,
        ),
        _ => stage,
    }
}

/// The stage of a pass over `events` after a sequence of answers.
pub open spec fn run(events: Seq<EventView>, answers: Seq<Answer>) -> Stage
    decreases answers.len(),
{
    if answers.len() == 0 {
        started(events)
    } else {
        answered(run(events, answers.drop_last()), answers.last())
    }
}

/// Whether `now` are the events `given` with nothing changed but what
/// resolving changes: there are as many, each has its date and says what it
/// said, but for the pull requests of a push, and each event that is not a
/// push to another branch than the main one is as it was.
pub open spec fn resolved_from(given: Seq<EventView>, now: Seq<EventView>) -> bool {
    &&& now.len() == given.len()
    &&& forall|i: int|
        0 <= i < given.len() ==> {
            &&& (#[trigger] now[i]).created_at == given[i].created_at
            &&& candidate_ref(now[i]) == candidate_ref(given[i])
            &&& (candidate_ref(given[i]) is None ==> now[i] == given[i])
        }
}

/// The events that a stage holds.
pub open spec fn events_at(stage: Stage) -> Option<Seq<EventView>> {
    match stage {
        Stage::NeedRepository(state) => Some(state.events),
        Stage::NeedPullRequests(state) => Some(state.events),
        Stage::Done(events) => Some(events),
        Stage::Failed(failure) => None,
    }
}

/// Whether a stage that waits for an answer stands at a push to another
/// branch than the main one.
pub open spec fn waits_at_push(stage: Stage) -> bool {
    match stage {
        Stage::NeedRepository(state) => 0 <= state.cursor < state.events.len() && candidate_ref(
            state.events[state.cursor],
        ) is Some,
        Stage::NeedPullRequests(state) => 0 <= state.cursor < state.events.len()
            && candidate_ref(state.events[state.cursor]) is Some,
        _ => true,
    }
}

/// Going on from the cursor changes no event, and stops at a push to
/// another branch than the main one.
pub proof fn lemma_scanned_keeps_events(state: EnrichView)
    ensures
        events_at(scanned(state)) == Some(state.events),
        waits_at_push(scanned(state)),
    decreases state.events.len() - state.cursor,
{
    if 0 <= state.cursor < state.events.len() {
        let event = state.events[state.cursor];
        if !needs_lookup(event, state.checked) {
            lemma_scanned_keeps_events(EnrichView { cursor: state.cursor + 1, ..state });
        }
    }
}

/// Whatever the answers, a pass changes nothing but what resolving changes:
/// it neither drops nor adds an event, leaves every date as it is, and leaves
/// every event as it is that is not a push to another branch than the main
/// one.
pub proof fn lemma_run_touches_pushes_only(events: Seq<EventView>, answers: Seq<Answer>)
    ensures
        waits_at_push(run(events, answers)),
        events_at(run(events, answers)) matches Some(now) ==> resolved_from(events, now),
    decreases answers.len(),
{
    if answers.len() == 0 {
        lemma_scanned_keeps_events(
            EnrichView { events, cursor: 0, known: Seq::empty(), checked: Seq::empty() },
        );
    } else {
        let before = run(events, answers.drop_last());
        lemma_run_touches_pushes_only(events, answers.drop_last());
        match (before, answers.last()) {
            (Stage::NeedRepository(state), Answer::Repository(info)) => {},
            (Stage::NeedPullRequests(state), Answer::PullRequests(Ok(found))) => {
                let event = state.events[state.cursor];
                let info = info_of(state.known, event.repository_name);
                let changed = state.events.update(
                    state.cursor,
                    resolved_event(event, info, found),
                );
                lemma_scanned_keeps_events(
                    EnrichView { events: changed, cursor: state.cursor + 1, ..state },
                );
                assert forall|i: int| 0 <= i < events.len() implies {
                    &&& (#[trigger] changed[i]).created_at == events[i].created_at
                    &&& candidate_ref(changed[i]) == candidate_ref(events[i])
                    &&& (candidate_ref(events[i]) is None ==> changed[i] == events[i])
                } by {
                    assert(state.events[i].created_at == events[i].created_at);
                }
            },
            _ => {},
        }
    }
}

/// Whether nothing has been looked up twice in a state: no branch has been
/// come to twice, and no repository is known twice.
pub open spec fn looked_up_once(state: EnrichView) -> bool {
    state.checked.no_duplicates() && names_distinct(state.known)
}

/// Whether nothing has been looked up twice at a stage, and nothing is asked
/// for that is known.
pub open spec fn asks_anew(stage: Stage) -> bool {
    match stage {
        Stage::NeedRepository(state) => looked_up_once(state) && !is_known(
            state.known,
            repository_asked(state),
        ),
        Stage::NeedPullRequests(state) => looked_up_once(state),
        _ => true,
    }
}

/// Going on from the cursor comes to no branch a second time, and asks for
/// no repository that is known.
pub proof fn lemma_scanned_asks_anew(state: EnrichView)
    requires
        looked_up_once(state),
    ensures
        asks_anew(scanned(state)),
    decreases state.events.len() - state.cursor,
{
    if 0 <= state.cursor < state.events.len() {
        let event = state.events[state.cursor];
        if needs_lookup(event, state.checked) {
            let marked = state.checked.push(key_of(event));
            assert forall|i: int, j: int|
                0 <= i < marked.len() && 0 <= j < marked.len() && i != j implies marked[i]
                != marked[j] by {
                if i == state.checked.len() {
                    assert(state.checked.contains(state.checked[j]));
                } else if j == state.checked.len() {
                    assert(state.checked.contains(state.checked[i]));
                }
            }
        } else {
            lemma_scanned_asks_anew(EnrichView { cursor: state.cursor + 1, ..state });
        }
    }
}

/// Whatever the answers, a pass looks nothing up twice: it comes to each
/// branch once, asks for a repository only while it is not known, and so
/// holds each repository under one name once.
pub proof fn lemma_run_looks_up_once(events: Seq<EventView>, answers: Seq<Answer>)
    ensures
        asks_anew(run(events, answers)),
    decreases answers.len(),
{
    if answers.len() == 0 {
        lemma_scanned_asks_anew(
            EnrichView { events, cursor: 0, known: Seq::empty(), checked: Seq::empty() },
        );
    } else {
        let before = run(events, answers.drop_last());
        lemma_run_looks_up_once(events, answers.drop_last());
        match (before, answers.last()) {
            (Stage::NeedRepository(state), Answer::Repository(Ok(info))) => {
                let name = repository_asked(state);
                let known = state.known.push(KnownView { name, info });
                assert forall|i: int, j: int| 0 <= i < j < known.len() implies (
                #[trigger] known[i]).name != (#[trigger] known[j]).name by {
                    if j == state.known.len() {
                        assert(state.known[i].name != name);
                    } else {
                        assert(state.known[i].name != state.known[j].name);
                    }
                }
            },
            (Stage::NeedPullRequests(state), Answer::PullRequests(Ok(found))) => {
                let event = state.events[state.cursor];
                let info = info_of(state.known, event.repository_name);
                lemma_scanned_asks_anew(
                    EnrichView {
                        events: state.events.update(
                            state.cursor,
                            resolved_event(event, info, found),
                        ),
                        cursor: state.cursor + 1,
                        ..state
                    },
                );
            },
            _ => {},
        }
    }
}

} // verus!
