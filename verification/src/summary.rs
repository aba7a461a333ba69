//! From the events of a window to the report: the events are put in the
//! order of their dates and sorted by repository, and each repository's
//! events are folded into entries.

use vstd::prelude::*;
use crate::classify::{
    all_decidable, classified, classify, is_undecidable, undecidable, undecidable_failure,
};
use crate::event::{event_views, payload_views, ActivityEvent, EventPayload, EventView, PayloadView};
use crate::failure::{Failure, FailureKind};
use crate::grouping::{
    events_of, group_by_repos, group_views, grouped, in_repository, GroupView,
    RepositoryEvents,
};
use crate::order::{inserted, lemma_slot_for, sort_by_time, sorted_by_time};
use crate::report::{entry_views, Entry, EntryView};

verus! {

/// The entries of one repository.
pub struct RepositoryReport {
    pub repository: String,
    pub entries: Vec<Entry>,
}

/// The value of a [`RepositoryReport`].
pub struct RepositoryReportView {
    pub repository: Seq<char>,
    pub entries: Seq<EntryView>,
}

impl View for RepositoryReport {
    type V = RepositoryReportView;

    open spec fn view(&self) -> RepositoryReportView {
        RepositoryReportView { repository: self.repository@, entries: entry_views(self.entries@) }
    }
}

impl RepositoryReport {
    /// There is at least one entry, and no entry records an action twice.
    pub open spec fn wf(&self) -> bool {
        &&& self.entries@.len() > 0
        &&& forall|i: int| 0 <= i < self.entries@.len() ==> (#[trigger] self.entries@[i]).wf()
    }
}

/// The values of a sequence of reports.
pub open spec fn report_views(reports: Seq<RepositoryReport>) -> Seq<RepositoryReportView> {
    reports.map_values(|r: RepositoryReport| r@)
}

/// What the events say happened, for those that say it, in their order.
pub open spec fn payloads_of(events: Seq<EventView>) -> Seq<PayloadView> {
    events.filter_map(|e: EventView| e.payload)
}

/// What the events of one repository amount to.
pub open spec fn report_of(
    login: Seq<char>,
    include_issue_comments: bool,
    group: GroupView,
) -> RepositoryReportView {
    RepositoryReportView {
        repository: group.name,
        entries: classified(login, include_issue_comments, payloads_of(group.events)),
    }
}

/// Whether a repository has anything to report.
pub open spec fn has_entries() -> spec_fn(RepositoryReportView) -> bool {
    |r: RepositoryReportView| r.entries.len() > 0
}

/// What every repository's events amount to, one after the other.
pub open spec fn reports_of(
    login: Seq<char>,
    include_issue_comments: bool,
    groups: Seq<GroupView>,
) -> Seq<RepositoryReportView> {
    groups.map_values(|g: GroupView| report_of(login, include_issue_comments, g))
}

/// The report on a window's events: for each repository that has something
/// to report, in the order in which the events, oldest first, name the
/// repositories, the entries that its events amount to.
pub open spec fn reported(
    login: Seq<char>,
    include_issue_comments: bool,
    events: Seq<EventView>,
) -> Seq<RepositoryReportView> {
    reports_of(login, include_issue_comments, grouped(sorted_by_time(events))).filter(
        has_entries(),
    )
}

/// No repository is reported twice, and none without an entry.
pub proof fn lemma_reported_distinct(
    login: Seq<char>,
    include_issue_comments: bool,
    events: Seq<EventView>,
)
    ensures
        forall|i: int, j: int|
            0 <= i < j < reported(login, include_issue_comments, events).len() ==> (
            #[trigger] reported(login, include_issue_comments, events)[i]).repository != (
            #[trigger] reported(login, include_issue_comments, events)[j]).repository,
        forall|i: int|
            0 <= i < reported(login, include_issue_comments, events).len() ==> (
            #[trigger] reported(login, include_issue_comments, events)[i]).entries.len() > 0,
{
    let groups = grouped(sorted_by_time(events));
    crate::grouping::lemma_grouped_distinct(sorted_by_time(events));
    let all = reports_of(login, include_issue_comments, groups);
    assert forall|i: int, j: int| 0 <= i < j < all.len() implies (#[trigger] all[i]).repository
        != (#[trigger] all[j]).repository by {
        assert(all[i].repository == groups[i].name);
        assert(all[j].repository == groups[j].name);
    }
    lemma_kept_distinct(all);
    let kept = all.filter(has_entries());
    assert forall|i: int| 0 <= i < kept.len() implies (#[trigger] kept[i]).entries.len() > 0 by {
        all.lemma_filter_pred(has_entries(), i);
    }
}

/// Leaving out the repositories without entries brings no repository in
/// twice.
proof fn lemma_kept_distinct(reports: Seq<RepositoryReportView>)
    requires
        forall|i: int, j: int|
            0 <= i < j < reports.len() ==> (#[trigger] reports[i]).repository != (
            #[trigger] reports[j]).repository,
    ensures
        forall|i: int, j: int|
            0 <= i < j < reports.filter(has_entries()).len() ==> (#[trigger] reports.filter(
                has_entries(),
            )[i]).repository != (#[trigger] reports.filter(has_entries())[j]).repository,
        forall|i: int|
            0 <= i < reports.filter(has_entries()).len() ==> exists|k: int|
                0 <= k < reports.len() && reports[k] == #[trigger] reports.filter(
                    has_entries(),
                )[i],
    decreases reports.len(),
{
    reveal(Seq::filter);
    if reports.len() > 0 {
        let front = reports.drop_last();
        let last = reports.last();
        assert forall|i: int, j: int| 0 <= i < j < front.len() implies (
        #[trigger] front[i]).repository != (#[trigger] front[j]).repository by {
            assert(front[i] == reports[i] && front[j] == reports[j]);
        }
        lemma_kept_distinct(front);
        let kept_front = front.filter(has_entries());
        let kept = reports.filter(has_entries());
        assert forall|i: int| 0 <= i < kept.len() implies exists|k: int|
            0 <= k < reports.len() && reports[k] == #[trigger] kept[i] by {
            if i < kept_front.len() {
                let k = choose|k: int| 0 <= k < front.len() && front[k] == kept_front[i];
                assert(reports[k] == kept[i]);
            } else {
                assert(reports[reports.len() - 1] == kept[i]);
            }
        }
        assert forall|i: int, j: int| 0 <= i < j < kept.len() implies (
        #[trigger] kept[i]).repository != (#[trigger] kept[j]).repository by {
            if j < kept_front.len() {
                assert(kept[i] == kept_front[i] && kept[j] == kept_front[j]);
            } else {
                let k = choose|k: int| 0 <= k < front.len() && front[k] == kept_front[i];
                assert(reports[k].repository != reports[reports.len() - 1].repository);
            }
        }
    }
}

/// Whether an event can be classified, or says nothing that would have to
/// be.
pub open spec fn decidable_event(event: EventView) -> bool {
    match event.payload {
        Some(payload) => !undecidable(payload),
        None => true,
    }
}

/// Whether every event can be classified.
pub open spec fn decidable(events: Seq<EventView>) -> bool {
    forall|i: int| 0 <= i < events.len() ==> decidable_event(#[trigger] events[i])
}

/// Sorting keeps events classifiable.
pub proof fn lemma_sorted_decidable(events: Seq<EventView>)
    requires
        decidable(events),
    ensures
        decidable(sorted_by_time(events)),
    decreases events.len(),
{
    if events.len() > 0 {
        let front = events.drop_last();
        assert forall|i: int| 0 <= i < front.len() implies decidable_event(
            #[trigger] front[i],
        ) by {
            assert(front[i] == events[i]);
        }
        lemma_sorted_decidable(front);
        let sorted = sorted_by_time(front);
        lemma_slot_for(sorted, events.last().created_at);
        let p = crate::order::slot_for(sorted, events.last().created_at);
        let after = inserted(sorted, events.last());
        assert forall|i: int| 0 <= i < after.len() implies decidable_event(
            #[trigger] after[i],
        ) by {
            if i < p {
                assert(after[i] == sorted[i]);
            } else if i == p {
                assert(after[i] == events[events.len() - 1]);
            } else {
                assert(after[i] == sorted[i - 1]);
            }
        }
    }
}

/// The events of one repository are classifiable where all events are, and
/// so is what they say.
pub proof fn lemma_group_decidable(events: Seq<EventView>, name: Seq<char>)
    requires
        decidable(events),
    ensures
        decidable(events_of(events, name)),
        all_decidable(payloads_of(events_of(events, name))),
{
    let members = events_of(events, name);
    assert forall|i: int| 0 <= i < members.len() implies decidable_event(
        #[trigger] members[i],
    ) by {
        assert(members.contains(members[i]));
        events.lemma_filter_contains_rev(in_repository(name), members[i]);
        let j = choose|j: int| 0 <= j < events.len() && events[j] == members[i];
        assert(decidable_event(events[j]));
    }
    lemma_payloads_decidable(members);
}

/// What classifiable events say is classifiable.
pub proof fn lemma_payloads_decidable(events: Seq<EventView>)
    requires
        decidable(events),
    ensures
        all_decidable(payloads_of(events)),
    decreases events.len(),
{
    if events.len() > 0 {
        let front = events.drop_last();
        assert forall|i: int| 0 <= i < front.len() implies decidable_event(
            #[trigger] front[i],
        ) by {
            assert(front[i] == events[i]);
        }
        lemma_payloads_decidable(front);
        assert(decidable_event(events[events.len() - 1]));
        let said = payloads_of(events);
        let said_before = payloads_of(front);
        assert forall|i: int| 0 <= i < said.len() implies !undecidable(#[trigger] said[i]) by {
            if i < said_before.len() {
                assert(said[i] == said_before[i]);
            }
        }
    }
}

/// Takes what the events say.
fn take_payloads(events: Vec<ActivityEvent>) -> (said: Vec<EventPayload>)
    ensures
        payload_views(said@) == payloads_of(event_views(events@)),
{
    let mut said: Vec<EventPayload> = Vec::new();
    let ghost mut seen: Seq<ActivityEvent> = Seq::empty();
    proof {
        assert(event_views(seen) =~= Seq::<EventView>::empty());
        assert(payload_views(said@) =~= payloads_of(event_views(seen)));
    }
    for event in rest: events
        invariant
            rest.seq() == events@,
            seen == rest.history(),
            payload_views(said@) == payloads_of(event_views(seen)),
    {
        proof {
            let longer = seen.push(event);
            assert(event_views(longer).drop_last() =~= event_views(seen));
            assert(event_views(longer).last() == event@);
            seen = longer;
        }
        match event.payload {
            Some(payload) => {
                proof {
                    assert(payload_views(said@.push(payload)) =~= payload_views(said@)
                        + seq![payload@]);
                }
                said.push(payload);
            },
            None => {},
        }
    }
    assert(seen =~= events@);
    said
}

/// Whether every event can be classified.
pub fn all_classifiable(events: &Vec<ActivityEvent>) -> (fine: bool)
    ensures
        fine == decidable(event_views(events@)),
{
    let mut i: usize = 0;
    while i < events.len()
        invariant
            i <= events.len(),
            forall|j: int| 0 <= j < i ==> decidable_event(#[trigger] event_views(events@)[j]),
        decreases events.len() - i,
    {
        let stuck = match &events[i].payload {
            Some(payload) => is_undecidable(payload),
            None => false,
        };
        if stuck {
            assert(!decidable_event(event_views(events@)[i as int]));
            return false;
        }
        i += 1;
    }
    true
}

/// Makes the report on a window's events.
///
/// The events are put in the order of their dates, events of one date in the
/// order they come in, and sorted by repository. Each repository's events are
/// folded into entries, and the repositories that have entries are reported
/// in the order in which the sorted events name them. The answer is a failure
/// exactly if some event cannot be classified.
pub fn report(login: &str, include_issue_comments: bool, events: Vec<ActivityEvent>) -> (outcome:
    Result<Vec<RepositoryReport>, Failure>)
    ensures
        match outcome {
            Ok(reports) => {
                &&& decidable(event_views(events@))
                &&& report_views(reports@) == reported(
                    login@,
                    include_issue_comments,
                    event_views(events@),
                )
                &&& forall|i: int| 0 <= i < reports@.len() ==> (#[trigger] reports@[i]).wf()
                &&& forall|i: int, j: int|
                    0 <= i < j < reports@.len() ==> (#[trigger] reports@[i]).repository@ != (
                    #[trigger] reports@[j]).repository@
            },
            Err(failure) => {
                &&& !decidable(event_views(events@))
                &&& failure@ == undecidable_failure()
            },
        },
{
    if !all_classifiable(&events) {
        return Err(Failure::new(FailureKind::Decode, "url must be parsable"));
    }
    let ghost given = event_views(events@);
    let sorted = sort_by_time(events);
    let groups = group_by_repos(sorted);
    let ghost all = group_views(groups@);
    proof {
        lemma_sorted_decidable(given);
    }
    let mut reports: Vec<RepositoryReport> = Vec::new();
    let ghost mut seen: Seq<RepositoryEvents> = Seq::empty();
    proof {
        reveal(Seq::filter);
        assert(group_views(seen) =~= Seq::<GroupView>::empty());
        assert(reports_of(login@, include_issue_comments, group_views(seen))
            =~= Seq::<RepositoryReportView>::empty());
        assert(report_views(reports@) =~= reports_of(
            login@,
            include_issue_comments,
            group_views(seen),
        ).filter(has_entries()));
    }
    for group in rest: groups
        invariant
            rest.seq() == groups@,
            seen == rest.history(),
            all == group_views(groups@),
            all == grouped(sorted_by_time(given)),
            decidable(sorted_by_time(given)),
            forall|i: int| 0 <= i < reports@.len() ==> (#[trigger] reports@[i]).wf(),
            report_views(reports@) == reports_of(
                login@,
                include_issue_comments,
                group_views(seen),
            ).filter(has_entries()),
    {
        let ghost at = seen.len() as int;
        proof {
            assert(group == groups@[at]);
            assert(all[at] == group@);
            let names = crate::grouping::repositories(sorted_by_time(given));
            assert(0 <= at < all.len());
            assert(all.len() == names.len());
            assert(grouped(sorted_by_time(given))[at] == (GroupView {
                name: names[at],
                events: events_of(sorted_by_time(given), names[at]),
            }));
            assert(grouped(sorted_by_time(given))[at].events == events_of(
                sorted_by_time(given),
                group@.name,
            ));
            lemma_group_decidable(sorted_by_time(given), group@.name);
            let longer = seen.push(group);
            reveal(Seq::filter);
            let before = reports_of(login@, include_issue_comments, group_views(seen));
            let after = reports_of(login@, include_issue_comments, group_views(longer));
            assert(after.drop_last() =~= before);
            assert(after.last() == report_of(login@, include_issue_comments, group@));
            seen = longer;
        }
        let RepositoryEvents { name, events: members } = group;
        let said = take_payloads(members);
        match classify(login, include_issue_comments, said.as_slice()) {
            Ok(entries) => {
                if entries.len() > 0 {
                    let report = RepositoryReport { repository: name, entries };
                    proof {
                        assert(report_views(reports@.push(report)) =~= report_views(
                            reports@,
                        ).push(report@));
                    }
                    reports.push(report);
                }
            },
            Err(failure) => {
                proof {
                    assert(false);
                }
                return Err(failure);
            },
        }
    }
    proof {
        assert(seen =~= groups@);
        lemma_reported_distinct(login@, include_issue_comments, given);
        let said = reported(login@, include_issue_comments, given);
        assert(group_views(seen) == all);
        assert(report_views(reports@) == said);
        assert forall|i: int, j: int| 0 <= i < j < reports@.len() implies (
        #[trigger] reports@[i]).repository@ != (#[trigger] reports@[j]).repository@ by {
            assert(said[i] == reports@[i]@);
            assert(said[j] == reports@[j]@);
            assert(said[i].repository != said[j].repository);
        }
    }
    Ok(reports)
}

} // verus!
