//! Reading the activity feed page by page.
//!
//! The feed lists a user's events from the newest to the oldest, a page at
//! a time. A [`Fetcher`] says which page to ask for next and decides, from
//! each answer, what to keep of it and whether to go on. Asking is the
//! caller's part.

use vstd::prelude::*;
use crate::event::{event_views, ActivityEvent, EventView};
use crate::failure::{Failure, FailureView};
use crate::timestamp::{display_utc, utc_display, Timestamp};
use vstd::string::StringExecFns;

verus! {

/// One page of the feed: its events, newest first, and whether the service
/// announced a page after it.
pub struct Page {
    pub events: Vec<ActivityEvent>,
    pub has_next: bool,
}

/// The value of a [`Page`].
pub struct PageView {
    pub events: Seq<EventView>,
    pub has_next: bool,
}

impl View for Page {
    type V = PageView;

    open spec fn view(&self) -> PageView {
        PageView { events: event_views(self.events@), has_next: self.has_next }
    }
}

/// The value of an answer of the service.
pub open spec fn answer_view(answer: Result<Page, Failure>) -> Result<PageView, FailureView> {
    match answer {
        Ok(page) => Ok(page@),
        Err(failure) => Err(failure@),
    }
}

/// Whether an event belongs in the report's window: it is not older than
/// `since`, it is older than `until` where there is an `until`, and it is of
/// a kind that the report understands.
pub open spec fn wanted(since: Timestamp, until: Option<Timestamp>) -> spec_fn(EventView) -> bool {
    |e: EventView|
        {
            &&& !e.created_at.before(since)
            &&& (until matches Some(end) ==> e.created_at.before(end))
            &&& e.payload is Some
        }
}

/// What is kept of a page's events.
pub open spec fn yield_of(events: Seq<EventView>, since: Timestamp, until: Option<Timestamp>) -> Seq<
    EventView,
> {
    events.filter(wanted(since, until))
}

/// Whether a page reaches back beyond `since`: its last event is older.
pub open spec fn reaches_back(events: Seq<EventView>, since: Timestamp) -> bool {
    events.len() > 0 && events.last().created_at.before(since)
}

/// Whether no page is asked for after this one.
pub open spec fn is_last(page: PageView, since: Timestamp) -> bool {
    reaches_back(page.events, since) || !page.has_next
}

/// Where the feed ends before it reaches back to `since`: the date of the
/// last event of a page that has no successor, if that event is newer than
/// `since`.
pub open spec fn shortfall_of(page: PageView, since: Timestamp) -> Option<Timestamp> {
    if !page.has_next && page.events.len() > 0 && since.before(page.events.last().created_at) {
        Some(page.events.last().created_at)
    } else {
        None
    }
}

/// How far the reading of the feed has come.
pub enum Progress {
    /// `page` is to be asked for; `collected` was kept of the pages before.
    Asking { page: int, collected: Seq<EventView> },
    /// No more pages are asked for.
    Complete { collected: Seq<EventView>, shortfall: Option<Timestamp> },
    /// An answer was a failure. Nothing of what was collected is left.
    Failed { failure: FailureView },
}

/// The progress before the first page.
pub open spec fn start() -> Progress {
    Progress::Asking { page: 1, collected: Seq::empty() }
}

/// The progress after one more answer. Once the reading is complete or has
/// failed, answers change nothing.
pub open spec fn advance(
    progress: Progress,
    since: Timestamp,
    until: Option<Timestamp>,
    answer: Result<PageView, FailureView>,
) -> Progress {
    match progress {
        Progress::Asking { page, collected } => match answer {
            Err(failure) => Progress::Failed { failure },
            Ok(got) => {
                let collected = collected + yield_of(got.events, since, until);
                if is_last(got, since) {
                    Progress::Complete { collected, shortfall: shortfall_of(got, since) }
                } else {
                    Progress::Asking { page: page + 1, collected }
                }
            },
        },
        _ => progress,
    }
}

/// The progress after a sequence of answers, starting before the first
/// page.
pub open spec fn run(
    since: Timestamp,
    until: Option<Timestamp>,
    answers: Seq<Result<PageView, FailureView>>,
) -> Progress
    decreases answers.len(),
{
    if answers.len() == 0 {
        start()
    } else {
        advance(run(since, until, answers.drop_last()), since, until, answers.last())
    }
}

/// What a progress holds of the feed's events.
pub open spec fn collected_of(progress: Progress) -> Seq<EventView> {
    match progress {
        Progress::Asking { page, collected } => collected,
        Progress::Complete { collected, shortfall } => collected,
        Progress::Failed { failure } => Seq::empty(),
    }
}

/// Every event kept of a page belongs in the window.
pub proof fn lemma_yield_wanted(events: Seq<EventView>, since: Timestamp, until: Option<Timestamp>)
    ensures
        forall|i: int|
            0 <= i < yield_of(events, since, until).len() ==> wanted(since, until)(
                #[trigger] yield_of(events, since, until)[i],
            ),
{
    assert forall|i: int| 0 <= i < yield_of(events, since, until).len() implies wanted(
        since,
        until,
    )(#[trigger] yield_of(events, since, until)[i]) by {
        events.lemma_filter_pred(wanted(since, until), i);
    }
}

/// Whatever the answers, every event that a reading holds belongs in the
/// window: none is older than `since`, none is as young as `until`, and each
/// is of a kind that the report understands.
pub proof fn lemma_run_collects_wanted(
    since: Timestamp,
    until: Option<Timestamp>,
    answers: Seq<Result<PageView, FailureView>>,
)
    ensures
        forall|i: int|
            0 <= i < collected_of(run(since, until, answers)).len() ==> wanted(since, until)(
                #[trigger] collected_of(run(since, until, answers))[i],
            ),
    decreases answers.len(),
{
    if answers.len() > 0 {
        let before = run(since, until, answers.drop_last());
        let after = run(since, until, answers);
        lemma_run_collects_wanted(since, until, answers.drop_last());
        let had = collected_of(before);
        assert forall|i: int| 0 <= i < collected_of(after).len() implies wanted(since, until)(
            #[trigger] collected_of(after)[i],
        ) by {
            match before {
                Progress::Asking { page, collected } => {
                    match answers.last() {
                        Ok(got) => {
                            let fresh = yield_of(got.events, since, until);
                            lemma_yield_wanted(got.events, since, until);
                            assert(collected_of(after) == had + fresh);
                            if i < had.len() {
                                assert(collected_of(after)[i] == had[i]);
                            } else {
                                assert(collected_of(after)[i] == fresh[i - had.len()]);
                            }
                        },
                        Err(failure) => {},
                    }
                },
                _ => {
                    assert(collected_of(after)[i] == had[i]);
                },
            }
        }
    }
}

/// Once a reading is complete or has failed, further answers change nothing:
/// none of them is asked for.
pub proof fn lemma_run_settled(
    since: Timestamp,
    until: Option<Timestamp>,
    answers: Seq<Result<PageView, FailureView>>,
    more: Seq<Result<PageView, FailureView>>,
)
    requires
        !(run(since, until, answers) is Asking),
    ensures
        run(since, until, answers + more) == run(since, until, answers),
    decreases more.len(),
{
    if more.len() == 0 {
        assert(answers + more =~= answers);
    } else {
        lemma_run_settled(since, until, answers, more.drop_last());
        assert((answers + more).drop_last() =~= answers + more.drop_last());
        assert((answers + more).last() == more.last());
    }
}

/// Where the first page has a successor and does not reach back beyond
/// `since`, and the last event of the second page is older than `since`, the
/// reading is complete after the second page, whatever would be answered to
/// further requests. It holds what the window takes of the two pages, and so
/// no event older than `since`.
pub proof fn lemma_cutoff_at_second_page(
    since: Timestamp,
    until: Option<Timestamp>,
    first: PageView,
    second: PageView,
    more: Seq<Result<PageView, FailureView>>,
)
    requires
        first.has_next,
        !reaches_back(first.events, since),
        reaches_back(second.events, since),
    ensures
        run(since, until, seq![Ok(first), Ok(second)] + more) == (Progress::Complete {
            collected: yield_of(first.events, since, until) + yield_of(
                second.events,
                since,
                until,
            ),
            shortfall: None,
        }),
        forall|i: int|
            0 <= i < (yield_of(first.events, since, until) + yield_of(
                second.events,
                since,
                until,
            )).len() ==> !(#[trigger] (yield_of(first.events, since, until) + yield_of(
                second.events,
                since,
                until,
            ))[i]).created_at.before(since),
{
    let two = seq![Ok::<PageView, FailureView>(first), Ok::<PageView, FailureView>(second)];
    let one = seq![Ok::<PageView, FailureView>(first)];
    reveal_with_fuel(run, 3);
    assert(two.drop_last() =~= one);
    assert(one.drop_last() =~= Seq::<Result<PageView, FailureView>>::empty());
    let kept_first = yield_of(first.events, since, until);
    let kept_second = yield_of(second.events, since, until);
    assert(Seq::<EventView>::empty() + kept_first =~= kept_first);
    assert(since.before(second.events.last().created_at) ==> false);
    lemma_run_settled(since, until, two, more);
    lemma_yield_wanted(first.events, since, until);
    lemma_yield_wanted(second.events, since, until);
}

/// What a complete reading of the feed gives.
pub struct Fetched {
    /// The events of the window, in the order of the feed.
    pub events: Vec<ActivityEvent>,
    /// The date of the feed's last event, where the feed ends before it
    /// reaches back to the start of the window.
    pub shortfall: Option<Timestamp>,
}

/// The reading of the feed while there is a page to ask for.
pub struct Fetcher {
    since: Timestamp,
    until: Option<Timestamp>,
    page: u64,
    events: Vec<ActivityEvent>,
}

/// What an answer leads to.
pub enum FetchStep {
    /// Another page is to be asked for.
    Continue(Fetcher),
    /// The reading is complete.
    Done(Fetched),
    /// The answer was a failure, and so is the reading.
    Failed(Failure),
}

impl View for Fetcher {
    type V = Progress;

    closed spec fn view(&self) -> Progress {
        Progress::Asking { page: self.page as int, collected: event_views(self.events@) }
    }
}

impl View for FetchStep {
    type V = Progress;

    open spec fn view(&self) -> Progress {
        match *self {
            FetchStep::Continue(fetcher) => fetcher@,
            FetchStep::Done(fetched) => Progress::Complete {
                collected: event_views(fetched.events@),
                shortfall: fetched.shortfall,
            },
            FetchStep::Failed(failure) => Progress::Failed { failure: failure@ },
        }
    }
}

impl Fetcher {
    /// The start of the window.
    pub closed spec fn since(&self) -> Timestamp {
        self.since
    }

    /// The end of the window, if it has one.
    pub closed spec fn until(&self) -> Option<Timestamp> {
        self.until
    }

    /// The number of the page to ask for.
    pub closed spec fn spec_page(&self) -> u64 {
        self.page
    }

    /// A reading of the window from `since` to `until`, before its first
    /// page.
    pub fn begin(since: Timestamp, until: Option<Timestamp>) -> (fetcher: Fetcher)
        ensures
            fetcher@ == start(),
            fetcher.since() == since,
            fetcher.until() == until,
            fetcher.spec_page() == 1,
    {
        let fetcher = Fetcher { since, until, page: 1, events: Vec::new() };
        assert(event_views(fetcher.events@) =~= Seq::<EventView>::empty());
        fetcher
    }

    /// The number of the page to ask for.
    #[verifier::when_used_as_spec(spec_page)]
    pub fn page(&self) -> (page: u64)
        ensures
            page == self.spec_page(),
            self@ is Asking,
            self@->page == page,
    {
        self.page
    }

    /// Takes the answer to the request for the page `self.page()`.
    ///
    /// Of a page, the events of the window are kept behind those kept
    /// before. The reading is complete with a page whose last event is older
    /// than the start of the window, and with a page that has no successor;
    /// otherwise the next page is to be asked for. A failure ends the
    /// reading, and nothing is kept.
    pub fn step(self, answer: Result<Page, Failure>) -> (next: FetchStep)
        requires
            self.page() < u64::MAX,
        ensures
            next@ == advance(self@, self.since(), self.until(), answer_view(answer)),
            next is Continue <==> next@ is Asking,
            next matches FetchStep::Continue(fetcher) ==> fetcher.since() == self.since()
                && fetcher.until() == self.until() && fetcher.page() == self.page() + 1,
    {
        let got = match answer {
            Ok(got) => got,
            Err(failure) => {
                return FetchStep::Failed(failure);
            },
        };
        let Page { events: page_events, has_next } = got;
        let count = page_events.len();
        let last_date = if count > 0 {
            Some(page_events[count - 1].created_at)
        } else {
            None
        };
        assert(last_date matches Some(date) ==> date == got@.events.last().created_at);
        let mut events = self.events;
        keep_wanted(page_events, &self.since, &self.until, &mut events);
        let reaches_back = match last_date {
            Some(date) => date.is_before(&self.since),
            None => false,
        };
        if reaches_back || !has_next {
            let shortfall = match last_date {
                Some(date) => if !has_next && self.since.is_before(&date) {
                    Some(date)
                } else {
                    None
                },
                None => None,
            };
            FetchStep::Done(Fetched { events, shortfall })
        } else {
            FetchStep::Continue(
                Fetcher { since: self.since, until: self.until, page: self.page + 1, events },
            )
        }
    }
}

/// The warning that the feed ends before the window starts, for a feed whose
/// last event has the date written in `date`.
pub open spec fn warning_text(date: Seq<char>) -> Seq<char> {
    "WARNING: Events since requested date are unavailable. Last event date: "@ + date
}

/// The warning for a feed whose last event has the date written in `date`.
pub fn warning_for(date: &str) -> (message: String)
    ensures
        message@ == warning_text(date@),
{
    let mut message =
        "WARNING: Events since requested date are unavailable. Last event date: ".to_owned();
    message.append(date);
    message
}

/// The warning for a feed that ends with an event of the date `shortfall`,
/// before it reaches back to the start of the window; `None` for a date that
/// cannot be written.
pub fn retention_warning(shortfall: &Timestamp) -> (message: Option<String>)
    ensures
        crate::text::optional_text(message) == match utc_display(
            shortfall.seconds,
            shortfall.nanos,
        ) {
            Some(date) => Some(warning_text(date)),
            None => None,
        },
{
    match display_utc(shortfall.seconds, shortfall.nanos) {
        Some(date) => Some(warning_for(date.as_str())),
        None => None,
    }
}

/// Whether `event` belongs in the window from `since` to `until`.
pub fn is_wanted(event: &ActivityEvent, since: &Timestamp, until: &Option<Timestamp>) -> (keep:
    bool)
    ensures
        keep == wanted(*since, *until)(event@),
{
    if event.created_at.is_before(since) {
        return false;
    }
    match until {
        Some(end) => {
            if !event.created_at.is_before(end) {
                return false;
            }
        },
        None => {},
    }
    event.payload.is_some()
}

/// Moves the events of the window from `events` to the end of `kept`.
fn keep_wanted(
    events: Vec<ActivityEvent>,
    since: &Timestamp,
    until: &Option<Timestamp>,
    kept: &mut Vec<ActivityEvent>,
)
    ensures
        event_views(final(kept)@) == event_views(old(kept)@) + yield_of(
            event_views(events@),
            *since,
            *until,
        ),
{
    let ghost before = event_views(kept@);
    let ghost mut seen: Seq<ActivityEvent> = Seq::empty();
    proof {
        reveal(Seq::filter);
        assert(before + yield_of(event_views(Seq::<ActivityEvent>::empty()), *since, *until)
            =~= before);
    }
    for event in rest: events
        invariant
            rest.seq() == events@,
            seen == rest.history(),
            event_views(kept@) == before + yield_of(
                event_views(rest.history()),
                *since,
                *until,
            ),
    {
        proof {
            reveal(Seq::filter);
            let longer = rest.history().push(event);
            assert(event_views(longer).drop_last() =~= event_views(rest.history()));
            assert(event_views(longer).last() == event@);
            seen = longer;
        }
        if is_wanted(&event, since, until) {
            proof {
                assert(event_views(kept@.push(event)) =~= event_views(kept@).push(event@));
            }
            kept.push(event);
        }
    }
    assert(seen =~= events@);
}

} // verus!
