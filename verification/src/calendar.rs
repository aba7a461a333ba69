//! Meetings from a calendar, as entries of the report.

use vstd::prelude::*;
use vstd::string::StringExecFns;
use crate::report::{entry_views, Entry, EntryKind, EntryView};
use crate::text::{optional_text, same_text};
use crate::timestamp::{rfc3339_utc, utc_rfc3339, Timestamp};

verus! {

/// A calendar of the account, as the list of calendars shows it.
pub struct ListItem {
    pub id: String,
    pub summary: String,
}

/// An event of a calendar.
pub struct CalendarEvent {
    pub status: String,
    pub summary: String,
}

/// The value of a [`CalendarEvent`].
pub struct CalendarEventView {
    pub status: Seq<char>,
    pub summary: Seq<char>,
}

impl View for CalendarEvent {
    type V = CalendarEventView;

    open spec fn view(&self) -> CalendarEventView {
        CalendarEventView { status: self.status@, summary: self.summary@ }
    }
}

/// The values of a sequence of calendar events.
pub open spec fn calendar_views(items: Seq<CalendarEvent>) -> Seq<CalendarEventView> {
    items.map_values(|e: CalendarEvent| e@)
}

/// Whether a calendar event takes place.
pub open spec fn confirmed() -> spec_fn(CalendarEventView) -> bool {
    |e: CalendarEventView| e.status == "confirmed"@
}

/// The entry for a meeting: its title, no address and no actions.
pub open spec fn meeting(event: CalendarEventView) -> EntryView {
    EntryView {
        kind: EntryKind::Meeting,
        title: event.summary,
        url: None,
        actions: Seq::empty(),
    }
}

/// The entries for the calendar events that take place, in their order.
pub open spec fn meetings_of(items: Seq<CalendarEventView>) -> Seq<EntryView> {
    items.filter(confirmed()).map_values(|e: CalendarEventView| meeting(e))
}

/// The entries for the calendar events that are confirmed.
pub fn meetings(items: &Vec<CalendarEvent>) -> (entries: Vec<Entry>)
    ensures
        entry_views(entries@) == meetings_of(calendar_views(items@)),
        forall|i: int| 0 <= i < entries@.len() ==> (#[trigger] entries@[i]).wf(),
{
    let mut entries: Vec<Entry> = Vec::new();
    let ghost all = calendar_views(items@);
    let mut i: usize = 0;
    proof {
        reveal(Seq::filter);
        assert(entry_views(entries@) =~= meetings_of(all.take(0)));
    }
    while i < items.len()
        invariant
            i <= items.len(),
            all == calendar_views(items@),
            entry_views(entries@) == meetings_of(all.take(i as int)),
            forall|j: int| 0 <= j < entries@.len() ==> (#[trigger] entries@[j]).wf(),
        decreases items.len() - i,
    {
        proof {
            reveal(Seq::filter);
            assert(all.take(i + 1).drop_last() =~= all.take(i as int));
            assert(all.take(i + 1).last() == items@[i as int]@);
        }
        if same_text(items[i].status.as_str(), "confirmed") {
            let entry = Entry::new(EntryKind::Meeting, items[i].summary.clone(), None);
            proof {
                let kept = all.take(i as int).filter(confirmed());
                assert(kept.push(items@[i as int]@).map_values(|e: CalendarEventView| meeting(e))
                    =~= kept.map_values(|e: CalendarEventView| meeting(e)).push(entry@));
                assert(entry_views(entries@.push(entry)) =~= entry_views(entries@).push(
                    entry@,
                ));
            }
            entries.push(entry);
        }
        i += 1;
    }
    assert(all.take(items.len() as int) =~= all);
    entries
}

/// The address of Google's calendar service.
pub open spec fn calendar_root() -> Seq<char> {
    "https://www.googleapis.com/calendar/v3"@
}

/// The request for the list of calendars.
pub open spec fn list_address(access_token: Seq<char>) -> Seq<char> {
    calendar_root() + "/users/me/calendarList?access_token="@ + access_token
}

/// The request for the events of a calendar between two instants, each
/// occurrence of a recurring event by itself.
pub open spec fn events_address(
    calendar_id: Seq<char>,
    time_min: Seq<char>,
    time_max: Seq<char>,
    access_token: Seq<char>,
) -> Seq<char> {
    calendar_root() + "/calendars/"@ + calendar_id + "/events?singleEvents=true&timeMin="@
        + time_min + "&timeMax="@ + time_max + "&access_token="@ + access_token
}

/// The address to ask for the list of calendars.
pub fn list_url(access_token: &str) -> (url: String)
    ensures
        url@ == list_address(access_token@),
{
    let mut url = "https://www.googleapis.com/calendar/v3".to_owned();
    url.append("/users/me/calendarList?access_token=");
    url.append(access_token);
    url
}

/// The address to ask for the events of a calendar between the instants
/// written in `time_min` and `time_max`.
pub fn events_url_between(
    calendar_id: &str,
    time_min: &str,
    time_max: &str,
    access_token: &str,
) -> (url: String)
    ensures
        url@ == events_address(calendar_id@, time_min@, time_max@, access_token@),
{
    let mut url = "https://www.googleapis.com/calendar/v3".to_owned();
    url.append("/calendars/");
    url.append(calendar_id);
    url.append("/events?singleEvents=true&timeMin=");
    url.append(time_min);
    url.append("&timeMax=");
    url.append(time_max);
    url.append("&access_token=");
    url.append(access_token);
    url
}

/// The end of the window in which meetings are looked for: `until`, or the
/// present where there is no `until`.
pub open spec fn window_end(until: Option<Timestamp>, now: Timestamp) -> Timestamp {
    match until {
        Some(end) => end,
        None => now,
    }
}

/// The address to ask for the events of a calendar from `since` to `until`,
/// or to `now` where there is no `until`; `None` where one of the two
/// instants cannot be written.
pub fn events_url(
    calendar_id: &str,
    since: &Timestamp,
    until: &Option<Timestamp>,
    now: &Timestamp,
    access_token: &str,
) -> (url: Option<String>)
    ensures
        optional_text(url) == match (
            utc_rfc3339(since.seconds, since.nanos),
            utc_rfc3339(window_end(*until, *now).seconds, window_end(*until, *now).nanos),
        ) {
            (Some(time_min), Some(time_max)) => Some(
                events_address(calendar_id@, time_min, time_max, access_token@),
            ),
            _ => None,
        },
{
    let end = match until {
        Some(end) => *end,
        None => *now,
    };
    let time_min = match rfc3339_utc(since.seconds, since.nanos) {
        Some(text) => text,
        None => {
            return None;
        },
    };
    let time_max = match rfc3339_utc(end.seconds, end.nanos) {
        Some(text) => text,
        None => {
            return None;
        },
    };
    Some(events_url_between(calendar_id, time_min.as_str(), time_max.as_str(), access_token))
}

} // verus!
