use standup::event::{ActivityEvent, EventPayload};
use standup::failure::{Failure, FailureKind};
use standup::fetcher::{is_wanted, retention_warning, warning_for, FetchStep, Fetched, Fetcher, Page};
use standup::timestamp::Timestamp;

fn at(seconds: i64) -> Timestamp {
    Timestamp::new(seconds, 0)
}

fn push_at(seconds: i64) -> ActivityEvent {
    ActivityEvent {
        repository_name: String::from("acme/tool"),
        created_at: at(seconds),
        payload: Some(EventPayload::Push {
            git_ref: String::from("refs/heads/feature"),
            resolved: None,
        }),
    }
}

fn unknown_at(seconds: i64) -> ActivityEvent {
    ActivityEvent { repository_name: String::from("acme/tool"), created_at: at(seconds), payload: None }
}

fn page(dates: &[i64], has_next: bool) -> Page {
    Page { events: dates.iter().map(|d| push_at(*d)).collect(), has_next }
}

fn dates(events: &[ActivityEvent]) -> Vec<i64> {
    events.iter().map(|e| e.created_at.seconds).collect()
}

fn done(step: FetchStep) -> Fetched {
    match step {
        FetchStep::Done(fetched) => fetched,
        FetchStep::Continue(fetcher) => panic!("page {} is asked for", fetcher.page()),
        FetchStep::Failed(failure) => panic!("the reading failed: {}", failure.message),
    }
}

fn more(step: FetchStep) -> Fetcher {
    match step {
        FetchStep::Continue(fetcher) => fetcher,
        FetchStep::Done(_) => panic!("the reading is complete"),
        FetchStep::Failed(failure) => panic!("the reading failed: {}", failure.message),
    }
}

#[test]
fn reading_starts_with_the_first_page() {
    assert_eq!(Fetcher::begin(at(100), None).page(), 1);
}

#[test]
fn reading_stops_after_the_page_that_reaches_back_beyond_since() {
    let fetcher = Fetcher::begin(at(100), None);
    let fetcher = more(fetcher.step(Ok(page(&[500, 400, 300], true))));
    assert_eq!(fetcher.page(), 2);
    let fetched = done(fetcher.step(Ok(page(&[200, 100, 50], true))));
    assert_eq!(dates(&fetched.events), vec![500, 400, 300, 200, 100]);
    assert_eq!(fetched.shortfall, None);
}

#[test]
fn reading_goes_on_while_pages_are_young_and_have_successors() {
    let fetcher = Fetcher::begin(at(100), None);
    let fetcher = more(fetcher.step(Ok(page(&[500], true))));
    let fetcher = more(fetcher.step(Ok(page(&[400], true))));
    let fetcher = more(fetcher.step(Ok(page(&[], true))));
    assert_eq!(fetcher.page(), 4);
}

#[test]
fn reading_goes_by_the_last_event_of_a_page() {
    let fetcher = Fetcher::begin(at(100), None);
    let fetcher = more(fetcher.step(Ok(page(&[500, 50, 300], true))));
    assert_eq!(fetcher.page(), 2);
    let fetched = done(fetcher.step(Ok(page(&[], false))));
    assert_eq!(dates(&fetched.events), vec![500, 300]);
}

#[test]
fn reading_stops_at_the_last_page_and_says_where_the_feed_ends() {
    let fetcher = Fetcher::begin(at(100), None);
    let fetched = done(fetcher.step(Ok(page(&[500, 400], false))));
    assert_eq!(dates(&fetched.events), vec![500, 400]);
    assert_eq!(fetched.shortfall, Some(at(400)));
}

#[test]
fn feed_that_ends_at_since_falls_not_short() {
    let fetcher = Fetcher::begin(at(100), None);
    let fetched = done(fetcher.step(Ok(page(&[500, 100], false))));
    assert_eq!(dates(&fetched.events), vec![500, 100]);
    assert_eq!(fetched.shortfall, None);
}

#[test]
fn empty_last_page_gives_no_warning() {
    let fetcher = Fetcher::begin(at(100), None);
    let fetcher = more(fetcher.step(Ok(page(&[500], true))));
    let fetched = done(fetcher.step(Ok(page(&[], false))));
    assert_eq!(dates(&fetched.events), vec![500]);
    assert_eq!(fetched.shortfall, None);
}

#[test]
fn events_from_until_on_are_left_out() {
    let fetcher = Fetcher::begin(at(100), Some(at(400)));
    let fetched = done(fetcher.step(Ok(page(&[500, 400, 399, 100, 99], true))));
    assert_eq!(dates(&fetched.events), vec![399, 100]);
}

#[test]
fn events_of_unknown_kind_are_left_out_but_count_for_the_cutoff() {
    let fetcher = Fetcher::begin(at(100), None);
    let events = vec![push_at(300), unknown_at(200), unknown_at(50)];
    let fetched = done(fetcher.step(Ok(Page { events, has_next: true })));
    assert_eq!(dates(&fetched.events), vec![300]);
}

#[test]
fn failure_ends_the_reading_without_events() {
    let fetcher = Fetcher::begin(at(100), None);
    let fetcher = more(fetcher.step(Ok(page(&[500], true))));
    let failure = Failure::status("404 Not Found");
    match fetcher.step(Err(failure)) {
        FetchStep::Failed(failure) => {
            assert_eq!(failure.kind, FailureKind::HttpStatus);
            assert_eq!(failure.message, "Incorrect response status: 404 Not Found");
        }
        _ => panic!("the reading went on after a failure"),
    }
}

#[test]
fn window_takes_since_and_leaves_until() {
    let since = at(100);
    assert!(is_wanted(&push_at(100), &since, &Some(at(200))));
    assert!(is_wanted(&push_at(199), &since, &Some(at(200))));
    assert!(!is_wanted(&push_at(200), &since, &Some(at(200))));
    assert!(!is_wanted(&push_at(99), &since, &None));
    assert!(is_wanted(&push_at(1_000_000), &since, &None));
    assert!(!is_wanted(&unknown_at(150), &since, &None));
}

#[test]
fn nanoseconds_decide_between_events_of_one_second() {
    let since = Timestamp::new(100, 500);
    let mut early = push_at(100);
    early.created_at = Timestamp::new(100, 499);
    let mut late = push_at(100);
    late.created_at = Timestamp::new(100, 500);
    assert!(!is_wanted(&early, &since, &None));
    assert!(is_wanted(&late, &since, &None));
}

#[test]
fn warning_names_the_date_of_the_last_event() {
    assert_eq!(
        warning_for("2019-08-01 12:00:00 UTC"),
        "WARNING: Events since requested date are unavailable. Last event date: 2019-08-01 12:00:00 UTC"
    );
}

#[test]
fn warning_writes_the_date_as_utc() {
    assert_eq!(
        retention_warning(&Timestamp::new(1_564_660_800, 0)),
        Some(String::from(
            "WARNING: Events since requested date are unavailable. Last event date: 2019-08-01 12:00:00 UTC"
        ))
    );
}

#[test]
fn warning_is_missing_for_a_date_out_of_range() {
    assert_eq!(retention_warning(&Timestamp::new(i64::MAX, 0)), None);
}
