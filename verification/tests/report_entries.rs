use standup::report::{Entry, EntryKind};

fn pull_request_entry() -> Entry {
    Entry::new(
        EntryKind::PullRequest,
        String::from("Fix the parser"),
        Some(String::from("https://github.com/acme/tool/pull/7")),
    )
}

#[test]
fn entry_without_actions_renders_without_brackets() {
    let entry = pull_request_entry();
    assert_eq!(entry.render(), "[PR] Fix the parser https://github.com/acme/tool/pull/7");
}

#[test]
fn entry_with_actions_renders_them_comma_joined() {
    let mut entry = pull_request_entry();
    entry.add_action(String::from("opened"));
    entry.add_action(String::from("merged"));
    assert_eq!(
        entry.render(),
        "[PR] (opened, merged) Fix the parser https://github.com/acme/tool/pull/7"
    );
}

#[test]
fn meeting_without_url_ends_with_a_blank() {
    let entry = Entry::new(EntryKind::Meeting, String::from("Planning"), None);
    assert_eq!(entry.render(), "[Meeting] Planning ");
}

#[test]
fn an_action_is_recorded_once() {
    let mut entry = pull_request_entry();
    entry.add_action(String::from("reviewed"));
    entry.add_action(String::from("reviewed"));
    assert_eq!(entry.actions, vec![String::from("reviewed")]);
    assert!(entry.has_action("reviewed"));
    assert!(!entry.has_action("pushed"));
}

#[test]
fn dropping_an_action_keeps_the_order_of_the_others() {
    let mut entry = pull_request_entry();
    entry.add_action(String::from("pushed"));
    entry.add_action(String::from("opened"));
    entry.add_action(String::from("merged"));
    entry.drop_action("pushed");
    assert_eq!(entry.actions, vec![String::from("opened"), String::from("merged")]);
}
