use standup::event::{ActivityEvent, EventPayload, Issue, PullRequest};
use standup::failure::FailureKind;
use standup::grouping::group_by_repos;
use standup::order::sort_by_time;
use standup::summary::{all_classifiable, report, RepositoryReport};
use standup::timestamp::Timestamp;

fn pr_event_in(repository: &str, seconds: i64, number: u64, action: &str) -> ActivityEvent {
    ActivityEvent {
        repository_name: String::from(repository),
        created_at: Timestamp::new(seconds, 0),
        payload: Some(EventPayload::PullRequest {
            action: String::from(action),
            pull_request: PullRequest {
                number,
                url: format!("https://github.com/{}/pull/{}", repository, number),
                title: format!("Pull request {}", number),
                merged: action == "closed",
                author_login: String::from("me"),
            },
        }),
    }
}

fn silent_in(repository: &str, seconds: i64) -> ActivityEvent {
    ActivityEvent {
        repository_name: String::from(repository),
        created_at: Timestamp::new(seconds, 0),
        payload: None,
    }
}

fn made(events: Vec<ActivityEvent>) -> Vec<RepositoryReport> {
    match report("me", false, events) {
        Ok(reports) => reports,
        Err(failure) => panic!("no report: {}", failure.message),
    }
}

fn titles_and_dates(events: &[ActivityEvent]) -> Vec<(String, i64)> {
    events.iter().map(|e| (e.repository_name.clone(), e.created_at.seconds)).collect()
}

#[test]
fn sorting_puts_the_oldest_first() {
    let sorted = sort_by_time(vec![silent_in("c", 30), silent_in("a", 10), silent_in("b", 20)]);
    assert_eq!(
        titles_and_dates(&sorted),
        vec![(String::from("a"), 10), (String::from("b"), 20), (String::from("c"), 30)]
    );
}

#[test]
fn sorting_keeps_the_order_of_events_of_one_date() {
    let sorted = sort_by_time(vec![
        silent_in("first", 20),
        silent_in("early", 10),
        silent_in("second", 20),
        silent_in("third", 20),
    ]);
    assert_eq!(
        titles_and_dates(&sorted),
        vec![
            (String::from("early"), 10),
            (String::from("first"), 20),
            (String::from("second"), 20),
            (String::from("third"), 20)
        ]
    );
}

#[test]
fn sorting_goes_by_nanoseconds_within_a_second() {
    let mut late = silent_in("late", 10);
    late.created_at = Timestamp::new(10, 7);
    let mut early = silent_in("early", 10);
    early.created_at = Timestamp::new(10, 3);
    let sorted = sort_by_time(vec![late, early]);
    assert_eq!(sorted[0].repository_name, "early");
    assert_eq!(sorted[1].repository_name, "late");
}

#[test]
fn grouping_keeps_the_order_of_first_mention_and_of_events() {
    let groups = group_by_repos(vec![
        silent_in("b", 1),
        silent_in("a", 2),
        silent_in("b", 3),
        silent_in("c", 4),
        silent_in("a", 5),
    ]);
    let names: Vec<&str> = groups.iter().map(|g| g.name.as_str()).collect();
    assert_eq!(names, vec!["b", "a", "c"]);
    let dates: Vec<Vec<i64>> = groups
        .iter()
        .map(|g| g.events.iter().map(|e| e.created_at.seconds).collect())
        .collect();
    assert_eq!(dates, vec![vec![1, 3], vec![2, 5], vec![4]]);
}

#[test]
fn grouping_nothing_gives_no_group() {
    assert!(group_by_repos(Vec::new()).is_empty());
}

#[test]
fn report_classifies_each_repository_in_the_order_of_dates() {
    let reports = made(vec![
        pr_event_in("acme/tool", 30, 1, "closed"),
        pr_event_in("acme/site", 20, 1, "opened"),
        pr_event_in("acme/tool", 10, 1, "opened"),
    ]);
    assert_eq!(reports.len(), 2);
    assert_eq!(reports[0].repository, "acme/tool");
    assert_eq!(reports[0].entries.len(), 1);
    assert_eq!(
        reports[0].entries[0].actions,
        vec![String::from("opened"), String::from("merged")]
    );
    assert_eq!(reports[1].repository, "acme/site");
    assert_eq!(reports[1].entries[0].actions, vec![String::from("opened")]);
}

#[test]
fn report_gathers_numbers_by_repository() {
    let reports = made(vec![
        pr_event_in("acme/site", 20, 1, "opened"),
        pr_event_in("acme/tool", 10, 1, "opened"),
    ]);
    assert_eq!(reports.len(), 2);
    assert_eq!(reports[0].entries.len(), 1);
    assert_eq!(reports[1].entries.len(), 1);
}

#[test]
fn report_leaves_out_repositories_without_entries() {
    let mut unmerged = pr_event_in("acme/tool", 10, 1, "closed");
    if let Some(EventPayload::PullRequest { pull_request, .. }) = &mut unmerged.payload {
        pull_request.merged = false;
    }
    let reports = made(vec![unmerged, silent_in("acme/docs", 5), pr_event_in("acme/site", 20, 2, "opened")]);
    assert_eq!(reports.len(), 1);
    assert_eq!(reports[0].repository, "acme/site");
}

#[test]
fn report_on_nothing_is_empty() {
    assert!(made(Vec::new()).is_empty());
}

#[test]
fn report_fails_on_an_event_that_cannot_be_classified() {
    let stuck = ActivityEvent {
        repository_name: String::from("acme/tool"),
        created_at: Timestamp::new(10, 0),
        payload: Some(EventPayload::IssueComment {
            action: String::from("created"),
            issue: Issue {
                number: 3,
                url: String::from("nowhere"),
                title: String::from("Lost"),
                author_login: String::from("someone"),
            },
        }),
    };
    let events = vec![pr_event_in("acme/site", 20, 2, "opened"), stuck];
    assert!(!all_classifiable(&events));
    match report("me", true, events) {
        Ok(_) => panic!("a report was made of an unreadable address"),
        Err(failure) => {
            assert_eq!(failure.kind, FailureKind::Decode);
            assert_eq!(failure.message, "url must be parsable");
        }
    }
}
