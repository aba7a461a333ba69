use standup::event::{
    clone_pull_requests, payload_kind, ActivityEvent, EventPayload, PayloadKind, PullRequest,
};
use standup::report::{Entry, EntryKind};
use standup::text::{clone_texts, join};
use standup::timestamp::Timestamp;

fn sample_pull_request() -> PullRequest {
    PullRequest {
        number: 42,
        url: String::from("https://github.com/acme/tool/pull/42"),
        title: String::from("Answer everything"),
        merged: true,
        author_login: String::from("deep-thought"),
    }
}

#[test]
fn declared_types_name_the_kinds_that_are_understood() {
    assert_eq!(payload_kind("PullRequestEvent"), Some(PayloadKind::PullRequest));
    assert_eq!(payload_kind("PullRequestReviewEvent"), Some(PayloadKind::Review));
    assert_eq!(payload_kind("PullRequestReviewCommentEvent"), Some(PayloadKind::ReviewComment));
    assert_eq!(payload_kind("IssuesEvent"), Some(PayloadKind::Issue));
    assert_eq!(payload_kind("IssueCommentEvent"), Some(PayloadKind::IssueComment));
    assert_eq!(payload_kind("PushEvent"), Some(PayloadKind::Push));
}

#[test]
fn other_declared_types_name_no_kind() {
    for declared in ["WatchEvent", "ForkEvent", "CreateEvent", "", "pushevent", "PushEvent "] {
        assert_eq!(payload_kind(declared), None);
    }
}

#[test]
fn copy_of_a_pull_request_is_the_same() {
    let copy = sample_pull_request().clone();
    assert_eq!(copy.number, 42);
    assert_eq!(copy.url, "https://github.com/acme/tool/pull/42");
    assert_eq!(copy.title, "Answer everything");
    assert!(copy.merged);
    assert_eq!(copy.author_login, "deep-thought");
    let copies = clone_pull_requests(&vec![sample_pull_request(), sample_pull_request()]);
    assert_eq!(copies.len(), 2);
    assert_eq!(copies[1].title, "Answer everything");
}

#[test]
fn copy_of_an_event_is_the_same() {
    let event = ActivityEvent {
        repository_name: String::from("acme/tool"),
        created_at: Timestamp::new(7, 9),
        payload: Some(EventPayload::Push {
            git_ref: String::from("refs/heads/feature"),
            resolved: Some(vec![sample_pull_request()]),
        }),
    };
    let copy = event.clone();
    assert_eq!(copy.repository_name, "acme/tool");
    assert_eq!(copy.created_at, Timestamp::new(7, 9));
    match copy.payload {
        Some(EventPayload::Push { git_ref, resolved: Some(found) }) => {
            assert_eq!(git_ref, "refs/heads/feature");
            assert_eq!(found.len(), 1);
            assert_eq!(found[0].number, 42);
        }
        _ => panic!("the copy says something else"),
    }
}

#[test]
fn copy_of_an_entry_is_the_same() {
    let mut entry = Entry::new(EntryKind::Issue, String::from("It breaks"), None);
    entry.add_action(String::from("opened"));
    let copy = entry.clone();
    assert_eq!(copy.kind, EntryKind::Issue);
    assert_eq!(copy.title, "It breaks");
    assert_eq!(copy.url, None);
    assert_eq!(copy.actions, vec![String::from("opened")]);
    assert_eq!(copy.render(), entry.render());
}

#[test]
fn kinds_are_tagged_as_they_are_printed() {
    assert_eq!(EntryKind::PullRequest.tag(), "PR");
    assert_eq!(EntryKind::Issue.tag(), "Issue");
    assert_eq!(EntryKind::Meeting.tag(), "Meeting");
}

#[test]
fn instants_are_ordered_by_seconds_and_then_by_nanoseconds() {
    let early = Timestamp::new(10, 999_999_999);
    let late = Timestamp::new(11, 0);
    assert!(early.is_before(&late));
    assert!(!late.is_before(&early));
    assert!(!early.is_before(&early));
    assert!(Timestamp::new(-5, 0).is_before(&Timestamp::new(-4, 0)));
    assert!(Timestamp::new(3, 1).is_before(&Timestamp::new(3, 2)));
}

#[test]
fn strings_are_joined_with_the_separator_between_them() {
    let parts = vec![String::from("a"), String::from("b"), String::from("c")];
    assert_eq!(join(&parts, ", "), "a, b, c");
    assert_eq!(join(&vec![String::from("alone")], ", "), "alone");
    assert_eq!(join(&Vec::new(), ", "), "");
    assert_eq!(clone_texts(&parts), parts);
}
