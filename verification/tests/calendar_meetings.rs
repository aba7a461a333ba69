use standup::calendar::{events_url, events_url_between, list_url, meetings, CalendarEvent};
use standup::config::{Config, Github, GoogleToken};
use standup::failure::{Failure, FailureKind};
use standup::report::EntryKind;
use standup::timestamp::Timestamp;

fn calendar_event(status: &str, summary: &str) -> CalendarEvent {
    CalendarEvent { status: String::from(status), summary: String::from(summary) }
}

fn config_with(token: Option<GoogleToken>) -> Config {
    Config {
        github: Github { username: String::from("me"), token: String::from("t") },
        google_client: None,
        google_token: token,
        gcal: None,
    }
}

fn tokens(expires: i64) -> GoogleToken {
    GoogleToken {
        access_token: String::from("access"),
        refresh_token: String::from("refresh"),
        experies_at: Timestamp::new(expires, 0),
    }
}

#[test]
fn confirmed_events_become_meetings() {
    let entries = meetings(&vec![
        calendar_event("confirmed", "Standup"),
        calendar_event("cancelled", "Retro"),
        calendar_event("tentative", "Lunch"),
        calendar_event("confirmed", "Planning"),
    ]);
    assert_eq!(entries.len(), 2);
    assert_eq!(entries[0].kind, EntryKind::Meeting);
    assert_eq!(entries[0].title, "Standup");
    assert_eq!(entries[0].url, None);
    assert!(entries[0].actions.is_empty());
    assert_eq!(entries[1].title, "Planning");
    assert_eq!(entries[0].render(), "[Meeting] Standup ");
}

#[test]
fn no_events_make_no_meetings() {
    assert!(meetings(&Vec::new()).is_empty());
}

#[test]
fn calendars_are_listed_with_the_access_token() {
    assert_eq!(
        list_url("abc"),
        "https://www.googleapis.com/calendar/v3/users/me/calendarList?access_token=abc"
    );
}

#[test]
fn calendar_events_are_asked_for_between_two_instants() {
    assert_eq!(
        events_url_between("team", "2019-08-01T00:00:00Z", "2019-08-02T00:00:00Z", "abc"),
        "https://www.googleapis.com/calendar/v3/calendars/team/events?singleEvents=true\
         &timeMin=2019-08-01T00:00:00Z&timeMax=2019-08-02T00:00:00Z&access_token=abc"
    );
}

#[test]
fn calendar_window_is_written_to_the_second_in_utc() {
    let since = Timestamp::new(1_564_617_600, 0);
    let until = Some(Timestamp::new(1_564_704_000, 999_999_999));
    let now = Timestamp::new(1_600_000_000, 0);
    assert_eq!(
        events_url("team", &since, &until, &now, "abc"),
        Some(String::from(
            "https://www.googleapis.com/calendar/v3/calendars/team/events?singleEvents=true\
             &timeMin=2019-08-01T00:00:00Z&timeMax=2019-08-02T00:00:00Z&access_token=abc"
        ))
    );
}

#[test]
fn calendar_window_without_until_ends_now() {
    let since = Timestamp::new(1_564_617_600, 0);
    let now = Timestamp::new(1_564_660_800, 0);
    assert_eq!(
        events_url("team", &since, &None, &now, "abc"),
        Some(String::from(
            "https://www.googleapis.com/calendar/v3/calendars/team/events?singleEvents=true\
             &timeMin=2019-08-01T00:00:00Z&timeMax=2019-08-01T12:00:00Z&access_token=abc"
        ))
    );
}

#[test]
fn calendar_window_that_cannot_be_written_gives_no_address() {
    let since = Timestamp::new(i64::MIN, 0);
    let now = Timestamp::new(0, 0);
    assert_eq!(events_url("team", &since, &None, &now, "abc"), None);
}

#[test]
fn access_token_is_taken_from_the_configuration() {
    assert_eq!(config_with(Some(tokens(100))).access_token().ok(), Some(String::from("access")));
}

#[test]
fn missing_tokens_are_a_configuration_failure() {
    match config_with(None).access_token() {
        Ok(_) => panic!("a token out of nothing"),
        Err(failure) => {
            assert_eq!(failure.kind, FailureKind::Configuration);
            assert_eq!(failure.message, "no token config");
        }
    }
    assert!(config_with(None).refresh_due(&Timestamp::new(0, 0)).is_err());
}

#[test]
fn token_is_renewed_once_it_has_expired() {
    let config = config_with(Some(tokens(100)));
    assert_eq!(config.refresh_due(&Timestamp::new(99, 0)).ok(), Some(false));
    assert_eq!(config.refresh_due(&Timestamp::new(100, 0)).ok(), Some(false));
    assert_eq!(config.refresh_due(&Timestamp::new(100, 1)).ok(), Some(true));
    assert!(tokens(100).expired(&Timestamp::new(101, 0)));
}

#[test]
fn renewal_keeps_the_refresh_token_unless_a_new_one_comes() {
    let kept = tokens(100).renewed(String::from("fresh"), None, Timestamp::new(200, 0));
    assert_eq!(kept.access_token, "fresh");
    assert_eq!(kept.refresh_token, "refresh");
    assert_eq!(kept.experies_at, Timestamp::new(200, 0));
    let replaced =
        tokens(100).renewed(String::from("fresh"), Some(String::from("new")), Timestamp::new(200, 0));
    assert_eq!(replaced.refresh_token, "new");
}

#[test]
fn failures_say_what_went_wrong() {
    let failure = Failure::transport("Google Calendar", "timed out");
    assert_eq!(failure.kind, FailureKind::Transport);
    assert_eq!(failure.message, "Request to Google Calendar failed: timed out");
    let failure = Failure::with_detail(FailureKind::Transport, "Can't refresh token: ", "denied");
    assert_eq!(failure.message, "Can't refresh token: denied");
    let copy = failure.clone();
    assert_eq!(copy.message, failure.message);
    assert_eq!(copy.kind, failure.kind);
}
