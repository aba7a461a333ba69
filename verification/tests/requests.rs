use standup::request::{authorization_value, events_url, pulls_url, repository_url, to_decimal};

#[test]
fn numbers_are_written_in_decimal() {
    assert_eq!(to_decimal(0), "0");
    assert_eq!(to_decimal(7), "7");
    assert_eq!(to_decimal(10), "10");
    assert_eq!(to_decimal(1_234_567_890), "1234567890");
    assert_eq!(to_decimal(u64::MAX), "18446744073709551615");
}

#[test]
fn events_are_asked_for_by_page_a_hundred_at_a_time() {
    assert_eq!(
        events_url("octocat", 3),
        "https://api.github.com/users/octocat/events?page=3&per_page=100"
    );
}

#[test]
fn repository_is_asked_for_by_its_full_name() {
    assert_eq!(repository_url("acme/tool"), "https://api.github.com/repos/acme/tool");
}

#[test]
fn pull_requests_are_asked_for_in_every_state_by_head() {
    assert_eq!(
        pulls_url("acme/tool", "me:refs/heads/feature"),
        "https://api.github.com/repos/acme/tool/pulls?state=all&head=me:refs/heads/feature"
    );
}

#[test]
fn token_is_shown_in_the_authorization_header() {
    assert_eq!(authorization_value("abc123"), "token abc123");
}
