//! The words by which the days of a report's window are named.

use vstd::prelude::*;
use crate::text::same_text;

verus! {

/// A day of the week.
#[derive(Clone, Copy, Debug, PartialEq, Eq, Structural)]
pub enum Weekday {
    Monday,
    Tuesday,
    Wednesday,
    Thursday,
    Friday,
    Saturday,
    Sunday,
}

/// A day named in relation to today.
#[derive(Clone, Copy, Debug, PartialEq, Eq, Structural)]
pub enum DayWord {
    Yesterday,
    /// The last Friday; today, if today is a Friday.
    Friday,
    Today,
}

impl Weekday {
    /// The day before.
    pub open spec fn previous(self) -> Weekday {
        match self {
            Weekday::Monday => Weekday::Sunday,
            Weekday::Tuesday => Weekday::Monday,
            Weekday::Wednesday => Weekday::Tuesday,
            Weekday::Thursday => Weekday::Wednesday,
            Weekday::Friday => Weekday::Thursday,
            Weekday::Saturday => Weekday::Friday,
            Weekday::Sunday => Weekday::Saturday,
        }
    }

    /// The day `days` days before.
    pub open spec fn before(self, days: nat) -> Weekday
        decreases days,
    {
        if days == 0 {
            self
        } else {
            self.previous().before((days - 1) as nat)
        }
    }

    /// How many days ago it last was Friday.
    pub open spec fn since_friday(self) -> nat {
        match self {
            Weekday::Friday => 0,
            Weekday::Saturday => 1,
            Weekday::Sunday => 2,
            Weekday::Monday => 3,
            Weekday::Tuesday => 4,
            Weekday::Wednesday => 5,
            Weekday::Thursday => 6,
        }
    }

    /// How many days ago it last was Friday.
    pub fn days_since_friday(self) -> (days: u8)
        ensures
            days == self.since_friday(),
    {
        match self {
            Weekday::Friday => 0,
            Weekday::Saturday => 1,
            Weekday::Sunday => 2,
            Weekday::Monday => 3,
            Weekday::Tuesday => 4,
            Weekday::Wednesday => 5,
            Weekday::Thursday => 6,
        }
    }
}

/// Going back day by day, Friday is first met after `since_friday` days.
pub proof fn lemma_since_friday(today: Weekday)
    ensures
        today.before(today.since_friday()) == Weekday::Friday,
        forall|days: nat| days < today.since_friday() ==> today.before(days) != Weekday::Friday,
{
    reveal_with_fuel(Weekday::before, 8);
    assert forall|days: nat| days < today.since_friday() implies today.before(days)
        != Weekday::Friday by {
        if days == 0 {
        } else if days == 1 {
        } else if days == 2 {
        } else if days == 3 {
        } else if days == 4 {
        } else if days == 5 {
        }
    }
}

/// The day that a word for the start of a window names: `yesterday`,
/// `friday` or `today`. Any other text is to be read as a date.
pub open spec fn since_word_of(word: Seq<char>) -> Option<DayWord> {
    if word == "yesterday"@ {
        Some(DayWord::Yesterday)
    } else if word == "friday"@ {
        Some(DayWord::Friday)
    } else if word == "today"@ {
        Some(DayWord::Today)
    } else {
        None
    }
}

/// The day that a word for the end of a window names: `today`. Any other
/// text is to be read as a date.
pub open spec fn until_word_of(word: Seq<char>) -> Option<DayWord> {
    if word == "today"@ {
        Some(DayWord::Today)
    } else {
        None
    }
}

/// The day that a word for the start of a window names.
pub fn since_word(word: &str) -> (day: Option<DayWord>)
    ensures
        day == since_word_of(word@),
{
    if same_text(word, "yesterday") {
        Some(DayWord::Yesterday)
    } else if same_text(word, "friday") {
        Some(DayWord::Friday)
    } else if same_text(word, "today") {
        Some(DayWord::Today)
    } else {
        None
    }
}

/// The day that a word for the end of a window names.
pub fn until_word(word: &str) -> (day: Option<DayWord>)
    ensures
        day == until_word_of(word@),
{
    if same_text(word, "today") {
        Some(DayWord::Today)
    } else {
        None
    }
}

/// How many days before today the named day lies.
pub open spec fn days_back_of(day: DayWord, today: Weekday) -> nat {
    match day {
        DayWord::Yesterday => 1,
        DayWord::Friday => today.since_friday(),
        DayWord::Today => 0,
    }
}

/// How many days before today the named day lies, today being a `today`.
pub fn days_back(day: DayWord, today: Weekday) -> (days: u8)
    ensures
        days == days_back_of(day, today),
{
    match day {
        DayWord::Yesterday => 1,
        DayWord::Friday => today.days_since_friday(),
        DayWord::Today => 0,
    }
}

/// A day of the calendar.
#[derive(Clone, Copy, Debug, PartialEq, Eq, Structural)]
pub struct CalendarDay {
    pub year: i32,
    pub month: u32,
    pub day: u32,
}

/// The day that chrono reads from `text` as a year, a month and a day of
/// the month with hyphens between them, such as `2019-08-01`; `None` for a
/// text that chrono does not take for such a date.
pub uninterp spec fn day_written(text: Seq<char>) -> Option<CalendarDay>;

/// Calls chrono: `NaiveDate::parse_from_str` reads the text by the format
/// `%Y-%m-%d`, and the year, the month and the day of what it returns are
/// handed on. They are a function of the text alone, and are believed to be
/// what `day_written` names.
#[verifier::external_body]
fn read_day(text: &str) -> (day: Option<CalendarDay>)
    ensures
        day == day_written(text@),
{
    match chrono::NaiveDate::parse_from_str(text, "%Y-%m-%d") {
        Ok(date) => Some(
            CalendarDay {
                year: chrono::Datelike::year(&date),
                month: chrono::Datelike::month(&date),
                day: chrono::Datelike::day(&date),
            },
        ),
        Err(_) => None,
    }
}

/// An end of a window: a day named in relation to today, or a day of the
/// calendar.
#[derive(Clone, Copy, Debug, PartialEq, Eq, Structural)]
pub enum Day {
    Named(DayWord),
    Dated(CalendarDay),
}

/// The day that a word or a date stands for: the word if there is one, else
/// the date.
pub open spec fn day_among(word: Option<DayWord>, written: Option<CalendarDay>) -> Option<Day> {
    match word {
        Some(named) => Some(Day::Named(named)),
        None => match written {
            Some(date) => Some(Day::Dated(date)),
            None => None,
        },
    }
}

/// The day that a word or a date stands for.
pub fn day_of(word: Option<DayWord>, written: Option<CalendarDay>) -> (day: Option<Day>)
    ensures
        day == day_among(word, written),
{
    match word {
        Some(named) => Some(Day::Named(named)),
        None => match written {
            Some(date) => Some(Day::Dated(date)),
            None => None,
        },
    }
}

/// The day at the start of which a window starts, as `text` gives it: one
/// of the words `yesterday`, `friday` and `today`, or a date; `None` for a
/// text that is neither.
pub fn since_day(text: &str) -> (day: Option<Day>)
    ensures
        day == day_among(since_word_of(text@), day_written(text@)),
{
    match since_word(text) {
        Some(named) => Some(Day::Named(named)),
        None => day_of(None, read_day(text)),
    }
}

/// The day at the start of which a window ends, as `text` gives it: the
/// word `today` or a date; `None` for a text that is neither.
pub fn until_day(text: &str) -> (day: Option<Day>)
    ensures
        day == day_among(until_word_of(text@), day_written(text@)),
{
    match until_word(text) {
        Some(named) => Some(Day::Named(named)),
        None => day_of(None, read_day(text)),
    }
}

} // verus!
