use standup::classify::{classify, is_undecidable, Aggregation};
use standup::event::{EventPayload, Issue, PullRequest};
use standup::failure::FailureKind;
use standup::report::{Entry, EntryKind};

fn pr(number: u64, author: &str, merged: bool) -> PullRequest {
    PullRequest {
        number,
        url: format!("https://github.com/acme/tool/pull/{}", number),
        title: format!("Pull request {}", number),
        merged,
        author_login: String::from(author),
    }
}

fn issue(number: u64, author: &str) -> Issue {
    Issue {
        number,
        url: format!("https://github.com/acme/tool/issues/{}", number),
        title: format!("Issue {}", number),
        author_login: String::from(author),
    }
}

fn pr_event(action: &str, pull_request: PullRequest) -> EventPayload {
    EventPayload::PullRequest { action: String::from(action), pull_request }
}

fn push(prs: Option<Vec<PullRequest>>) -> EventPayload {
    EventPayload::Push { git_ref: String::from("refs/heads/feature"), resolved: prs }
}

fn classified(login: &str, include_issue_comments: bool, events: &[EventPayload]) -> Vec<Entry> {
    match classify(login, include_issue_comments, events) {
        Ok(entries) => entries,
        Err(failure) => panic!("classification failed: {}", failure.message),
    }
}

fn actions(entry: &Entry) -> Vec<&str> {
    entry.actions.iter().map(|a| a.as_str()).collect()
}

#[test]
fn no_events_make_no_entries() {
    assert!(classified("me", false, &[]).is_empty());
}

#[test]
fn opened_pull_request_makes_an_entry() {
    let entries = classified("me", false, &[pr_event("opened", pr(7, "me", false))]);
    assert_eq!(entries.len(), 1);
    assert_eq!(entries[0].kind, EntryKind::PullRequest);
    assert_eq!(entries[0].title, "Pull request 7");
    assert_eq!(entries[0].url.as_deref(), Some("https://github.com/acme/tool/pull/7"));
    assert_eq!(actions(&entries[0]), vec!["opened"]);
}

#[test]
fn duplicate_review_comment_is_counted_once() {
    let events = [
        EventPayload::ReviewComment {
            action: String::from("created"),
            pull_request: pr(3, "someone", false),
        },
        EventPayload::ReviewComment {
            action: String::from("created"),
            pull_request: pr(3, "someone", false),
        },
    ];
    let entries = classified("me", false, &events);
    assert_eq!(entries.len(), 1);
    assert_eq!(entries[0].kind, EntryKind::PullRequest);
    assert_eq!(actions(&entries[0]), vec!["reviewed"]);
}

#[test]
fn classifying_an_event_twice_is_classifying_it_once() {
    let once = classified("me", true, &[pr_event("opened", pr(5, "me", false))]);
    let twice = classified(
        "me",
        true,
        &[pr_event("opened", pr(5, "me", false)), pr_event("opened", pr(5, "me", false))],
    );
    assert_eq!(once.len(), twice.len());
    assert_eq!(actions(&once[0]), actions(&twice[0]));
}

#[test]
fn opening_after_a_push_leaves_only_opened() {
    let events = [push(Some(vec![pr(9, "me", false)])), pr_event("opened", pr(9, "me", false))];
    let entries = classified("me", false, &events);
    assert_eq!(entries.len(), 1);
    assert_eq!(actions(&entries[0]), vec!["opened"]);
}

#[test]
fn push_after_opening_adds_nothing() {
    let events = [pr_event("opened", pr(9, "me", false)), push(Some(vec![pr(9, "me", false)]))];
    let entries = classified("me", false, &events);
    assert_eq!(entries.len(), 1);
    assert_eq!(actions(&entries[0]), vec!["opened"]);
}

#[test]
fn push_with_resolved_pull_requests_makes_pushed_entries() {
    let events = [push(Some(vec![pr(1, "me", false), pr(2, "me", false), pr(1, "me", false)]))];
    let entries = classified("me", false, &events);
    assert_eq!(entries.len(), 2);
    assert_eq!(entries[0].title, "Pull request 1");
    assert_eq!(actions(&entries[0]), vec!["pushed"]);
    assert_eq!(entries[1].title, "Pull request 2");
    assert_eq!(actions(&entries[1]), vec!["pushed"]);
}

#[test]
fn push_without_resolved_pull_requests_is_ignored() {
    assert!(classified("me", false, &[push(None)]).is_empty());
}

#[test]
fn own_review_makes_no_entry() {
    let events = [EventPayload::Review {
        action: String::from("submitted"),
        pull_request: pr(4, "me", false),
    }];
    assert!(classified("me", false, &events).is_empty());
}

#[test]
fn review_of_another_authors_pull_request_is_reviewed() {
    let events = [EventPayload::Review {
        action: String::from("submitted"),
        pull_request: pr(4, "someone", false),
    }];
    let entries = classified("me", false, &events);
    assert_eq!(entries.len(), 1);
    assert_eq!(entries[0].kind, EntryKind::PullRequest);
    assert_eq!(actions(&entries[0]), vec!["reviewed"]);
}

#[test]
fn review_with_another_action_is_ignored() {
    let events = [EventPayload::Review {
        action: String::from("dismissed"),
        pull_request: pr(4, "someone", false),
    }];
    assert!(classified("me", false, &events).is_empty());
}

#[test]
fn review_does_not_change_an_existing_entry() {
    let events = [
        pr_event("opened", pr(4, "someone", false)),
        EventPayload::Review {
            action: String::from("submitted"),
            pull_request: pr(4, "someone", false),
        },
    ];
    let entries = classified("me", false, &events);
    assert_eq!(entries.len(), 1);
    assert_eq!(actions(&entries[0]), vec!["opened"]);
}

#[test]
fn closed_unmerged_pull_request_makes_no_entry() {
    assert!(classified("me", false, &[pr_event("closed", pr(6, "me", false))]).is_empty());
}

#[test]
fn closed_unmerged_pull_request_adds_no_action() {
    let events = [pr_event("opened", pr(6, "me", false)), pr_event("closed", pr(6, "me", false))];
    let entries = classified("me", false, &events);
    assert_eq!(entries.len(), 1);
    assert_eq!(actions(&entries[0]), vec!["opened"]);
}

#[test]
fn closed_merged_pull_request_is_merged() {
    let events = [pr_event("opened", pr(6, "me", false)), pr_event("closed", pr(6, "me", true))];
    let entries = classified("me", false, &events);
    assert_eq!(entries.len(), 1);
    assert_eq!(actions(&entries[0]), vec!["opened", "merged"]);
}

#[test]
fn other_pull_request_actions_are_kept_as_they_are() {
    let events =
        [pr_event("reopened", pr(6, "me", false)), pr_event("reopened", pr(6, "me", false))];
    let entries = classified("me", false, &events);
    assert_eq!(entries.len(), 1);
    assert_eq!(actions(&entries[0]), vec!["reopened"]);
}

#[test]
fn opened_issue_makes_an_issue_entry() {
    let events = [EventPayload::Issue { action: String::from("opened"), issue: issue(11, "me") }];
    let entries = classified("me", false, &events);
    assert_eq!(entries.len(), 1);
    assert_eq!(entries[0].kind, EntryKind::Issue);
    assert_eq!(entries[0].title, "Issue 11");
    assert_eq!(actions(&entries[0]), vec!["opened"]);
}

#[test]
fn closed_issue_is_ignored() {
    let events = [EventPayload::Issue { action: String::from("closed"), issue: issue(11, "me") }];
    assert!(classified("me", false, &events).is_empty());
}

#[test]
fn comment_on_a_pull_request_is_a_review_whatever_the_flag() {
    for include_issue_comments in [false, true] {
        let events = [EventPayload::IssueComment {
            action: String::from("created"),
            issue: Issue {
                number: 12,
                url: String::from("https://github.com/acme/tool/pull/12"),
                title: String::from("Add a cache"),
                author_login: String::from("someone"),
            },
        }];
        let entries = classified("me", include_issue_comments, &events);
        assert_eq!(entries.len(), 1);
        assert_eq!(entries[0].kind, EntryKind::PullRequest);
        assert_eq!(actions(&entries[0]), vec!["reviewed"]);
    }
}

#[test]
fn comment_on_ones_own_pull_request_is_ignored() {
    let events = [EventPayload::IssueComment {
        action: String::from("created"),
        issue: Issue {
            number: 12,
            url: String::from("https://github.com/acme/tool/pull/12"),
            title: String::from("Add a cache"),
            author_login: String::from("me"),
        },
    }];
    assert!(classified("me", true, &events).is_empty());
}

#[test]
fn comment_on_an_issue_counts_only_when_asked_for() {
    let comment = || EventPayload::IssueComment {
        action: String::from("created"),
        issue: issue(13, "someone"),
    };
    assert!(classified("me", false, &[comment()]).is_empty());
    let entries = classified("me", true, &[comment()]);
    assert_eq!(entries.len(), 1);
    assert_eq!(entries[0].kind, EntryKind::Issue);
    assert_eq!(actions(&entries[0]), vec!["commented"]);
}

#[test]
fn comment_on_an_issue_does_not_change_an_existing_entry() {
    let events = [
        EventPayload::Issue { action: String::from("opened"), issue: issue(13, "me") },
        EventPayload::IssueComment { action: String::from("created"), issue: issue(13, "me") },
    ];
    let entries = classified("me", true, &events);
    assert_eq!(entries.len(), 1);
    assert_eq!(actions(&entries[0]), vec!["opened"]);
}

#[test]
fn deleted_comment_is_ignored() {
    let events = [EventPayload::IssueComment {
        action: String::from("deleted"),
        issue: Issue {
            number: 14,
            url: String::from("short"),
            title: String::from("No address to speak of"),
            author_login: String::from("someone"),
        },
    }];
    assert!(classified("me", true, &events).is_empty());
}

#[test]
fn comment_with_an_address_that_tells_no_kind_is_a_failure() {
    let stuck = EventPayload::IssueComment {
        action: String::from("created"),
        issue: Issue {
            number: 14,
            url: String::from("https://github.com/acme/tool"),
            title: String::from("No address to speak of"),
            author_login: String::from("someone"),
        },
    };
    assert!(is_undecidable(&stuck));
    let events = [pr_event("opened", pr(1, "me", false)), stuck];
    match classify("me", true, &events) {
        Ok(_) => panic!("an unreadable address was classified"),
        Err(failure) => {
            assert_eq!(failure.kind, FailureKind::Decode);
            assert_eq!(failure.message, "url must be parsable");
        }
    }
}

#[test]
fn entries_come_in_the_order_in_which_numbers_first_came_up() {
    let events = [
        pr_event("opened", pr(20, "me", false)),
        EventPayload::Issue { action: String::from("opened"), issue: issue(10, "me") },
        pr_event("closed", pr(20, "me", true)),
        pr_event("opened", pr(15, "me", false)),
    ];
    let entries = classified("me", false, &events);
    let titles: Vec<&str> = entries.iter().map(|e| e.title.as_str()).collect();
    assert_eq!(titles, vec!["Pull request 20", "Issue 10", "Pull request 15"]);
    assert_eq!(actions(&entries[0]), vec!["opened", "merged"]);
}

#[test]
fn aggregation_absorbs_events_one_by_one() {
    let mut gathering = Aggregation::new();
    assert_eq!(gathering.find(2), None);
    assert!(gathering.absorb("me", false, &push(Some(vec![pr(2, "me", false)]))).is_ok());
    assert_eq!(gathering.find(2), Some(0));
    assert_eq!(gathering.find(3), None);
    assert!(gathering.absorb("me", false, &pr_event("opened", pr(3, "me", false))).is_ok());
    assert_eq!(gathering.find(3), Some(1));
    let entries = gathering.into_entries();
    assert_eq!(entries.len(), 2);
    assert_eq!(actions(&entries[0]), vec!["pushed"]);
    assert_eq!(actions(&entries[1]), vec!["opened"]);
}
