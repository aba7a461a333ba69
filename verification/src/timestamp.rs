//! Instants on the UTC time line.

use vstd::prelude::*;
use crate::text::optional_text;

verus! {

/// How chrono displays the instant that lies `nanos` nanoseconds behind the
/// second `seconds` of the UTC time line, such as `2019-08-01 12:00:00 UTC`;
/// `None` for an instant that chrono cannot hold.
pub uninterp spec fn utc_display(seconds: i64, nanos: u32) -> Option<Seq<char>>;

/// How chrono writes the same instant by RFC 3339, to the second and with
/// `Z` for the offset, such as `2019-08-01T12:00:00Z`; `None` for an instant
/// that chrono cannot hold.
pub uninterp spec fn utc_rfc3339(seconds: i64, nanos: u32) -> Option<Seq<char>>;

/// Calls chrono: `DateTime::<Utc>::from_timestamp` makes the instant, which
/// gives `None` outside the range of dates that chrono holds, and the
/// `Display` of `DateTime<Utc>` writes it. The text is a function of the two
/// numbers alone; it is believed to be the one that `utc_display` names.
#[verifier::external_body]
pub(crate) fn display_utc(seconds: i64, nanos: u32) -> (text: Option<String>)
    ensures
        optional_text(text) == utc_display(seconds, nanos),
{
    match chrono::DateTime::from_timestamp(seconds, nanos) {
        Some(instant) => Some(instant.to_string()),
        None => None,
    }
}

/// Calls chrono: `DateTime::<Utc>::from_timestamp` makes the instant, which
/// gives `None` outside the range of dates that chrono holds, and
/// `DateTime::to_rfc3339_opts` writes it with `SecondsFormat::Secs` and `Z`.
/// The text is a function of the two numbers alone; it is believed to be the
/// one that `utc_rfc3339` names.
#[verifier::external_body]
pub(crate) fn rfc3339_utc(seconds: i64, nanos: u32) -> (text: Option<String>)
    ensures
        optional_text(text) == utc_rfc3339(seconds, nanos),
{
    match chrono::DateTime::from_timestamp(seconds, nanos) {
        Some(instant) => Some(instant.to_rfc3339_opts(chrono::SecondsFormat::Secs, true)),
        None => None,
    }
}

/// An instant: whole seconds since 1970-01-01 00:00:00 UTC, and the
/// nanoseconds that follow them. Two instants are ordered by the seconds
/// first and by the nanoseconds second.
#[derive(Clone, Copy, Debug, PartialEq, Eq, Structural)]
pub struct Timestamp {
    pub seconds: i64,
    pub nanos: u32,
}

impl Timestamp {
    /// `self` is strictly earlier than `other`.
    pub open spec fn before(self, other: Timestamp) -> bool {
        self.seconds < other.seconds || (self.seconds == other.seconds && self.nanos
            < other.nanos)
    }

    /// `self` is `other` or earlier.
    pub open spec fn not_after(self, other: Timestamp) -> bool {
        !other.before(self)
    }

    /// The instant `nanos` nanoseconds behind the second `seconds`.
    pub fn new(seconds: i64, nanos: u32) -> (instant: Timestamp)
        ensures
            instant == (Timestamp { seconds, nanos }),
    {
        Timestamp { seconds, nanos }
    }

    /// Whether `self` is strictly earlier than `other`.
    pub fn is_before(&self, other: &Timestamp) -> (earlier: bool)
        ensures
            earlier == self.before(*other),
    {
        self.seconds < other.seconds || (self.seconds == other.seconds && self.nanos
            < other.nanos)
    }
}

/// Of two different instants exactly one is before the other.
pub proof fn lemma_before_total(a: Timestamp, b: Timestamp)
    ensures
        a.before(b) || b.before(a) || a == b,
        !(a.before(b) && b.before(a)),
        !a.before(a),
{
}

/// `before` is transitive, also through `not_after`.
pub proof fn lemma_before_transitive(a: Timestamp, b: Timestamp, c: Timestamp)
    ensures
        a.before(b) && b.before(c) ==> a.before(c),
        a.not_after(b) && b.not_after(c) ==> a.not_after(c),
        a.before(b) && b.not_after(c) ==> a.before(c),
        a.not_after(b) && b.before(c) ==> a.before(c),
{
}

} // verus!
