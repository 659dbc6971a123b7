//! Instants as seconds and nanoseconds since the Unix epoch.

use vstd::prelude::*;

verus! {

/// An instant: whole seconds since the Unix epoch and the nanoseconds
/// into that second.
#[derive(Clone, Copy, Debug, PartialEq, Eq, Structural)]
pub struct Timestamp {
    pub seconds: i64,
    pub nanos: i32,
}

impl Timestamp {
    /// The Unix epoch itself.
    pub open spec fn epoch() -> Timestamp {
        Timestamp { seconds: 0, nanos: 0 }
    }

    /// `self` is the same instant as `other` or a later one: seconds
    /// decide, nanoseconds break the tie.
    pub open spec fn not_before(self, other: Timestamp) -> bool {
        self.seconds > other.seconds || (self.seconds == other.seconds && self.nanos
            >= other.nanos)
    }

    /// Whether `self` is the same instant as `other` or a later one.
    pub fn is_not_before(&self, other: &Timestamp) -> (b: bool)
        ensures
            b == self.not_before(*other),
    {
        self.seconds > other.seconds || (self.seconds == other.seconds && self.nanos
            >= other.nanos)
    }
}

/// The instant that `text` denotes when read as an RFC 3339 date and
/// time, as seconds since the Unix epoch and nanoseconds into the second;
/// `None` where `text` is no such date and time.
pub uninterp spec fn rfc3339_instant(text: Seq<char>) -> Option<(i64, i32)>;

/// The instant that `text` denotes when read as `YYYY-MM-DD HH:MM:SS` in
/// UTC; `None` where `text` has not this form.
pub uninterp spec fn plain_instant(text: Seq<char>) -> Option<(i64, i32)>;

/// Reads `text` as an RFC 3339 date and time.
///
/// Calls `time::OffsetDateTime::parse` with the well-known format
/// `Rfc3339`, and on success `unix_timestamp` and `nanosecond` of what it
/// returned. The result depends on `text` alone and is named, not
/// described.
#[verifier::external_body]
fn parse_rfc3339(text: &str) -> (instant: Option<(i64, i32)>)
    ensures
        instant == rfc3339_instant(text@),
{
    let moment = time::OffsetDateTime::parse(
        text,
        &time::format_description::well_known::Rfc3339,
    ).ok()?;
    Some((moment.unix_timestamp(), moment.nanosecond() as i32))
}

/// Reads `text` as `YYYY-MM-DD HH:MM:SS`, taken to be in UTC.
///
/// Calls `time::PrimitiveDateTime::parse` with the format description
/// `[year]-[month]-[day] [hour]:[minute]:[second]`, then `assume_utc`,
/// `unix_timestamp` and `nanosecond`. The result depends on `text` alone
/// and is named, not described.
#[verifier::external_body]
fn parse_plain(text: &str) -> (instant: Option<(i64, i32)>)
    ensures
        instant == plain_instant(text@),
{
    let format = time::format_description::parse_borrowed::<1>(
        "[year]-[month]-[day] [hour]:[minute]:[second]",
    ).ok()?;
    let moment = time::PrimitiveDateTime::parse(text, &format).ok()?.assume_utc();
    Some((moment.unix_timestamp(), moment.nanosecond() as i32))
}

/// The timestamp of a text, given what each of the two accepted formats
/// makes of it: the RFC 3339 reading where there is one, else the plain
/// reading, else the epoch.
pub open spec fn timestamp_of(rfc3339: Option<(i64, i32)>, plain: Option<(i64, i32)>) -> Timestamp {
    match rfc3339 {
        Some((seconds, nanos)) => Timestamp { seconds, nanos },
        None => match plain {
            Some((seconds, nanos)) => Timestamp { seconds, nanos },
            None => Timestamp::epoch(),
        },
    }
}

/// The timestamp of a text, given what each of the two accepted formats
/// makes of it. An unreadable text degrades to the epoch.
pub fn timestamp_from(rfc3339: Option<(i64, i32)>, plain: Option<(i64, i32)>) -> (timestamp: Timestamp)
    ensures
        timestamp == timestamp_of(rfc3339, plain),
{
    match rfc3339 {
        Some((seconds, nanos)) => Timestamp { seconds, nanos },
        None => match plain {
            Some((seconds, nanos)) => Timestamp { seconds, nanos },
            None => Timestamp { seconds: 0, nanos: 0 },
        },
    }
}

/// Reads a stored timestamp: RFC 3339 first, `YYYY-MM-DD HH:MM:SS` as the
/// fallback, and the epoch where neither fits.
pub fn parse_timestamp(timestamp_str: &str) -> (timestamp: Timestamp)
    ensures
        timestamp == timestamp_of(rfc3339_instant(timestamp_str@), plain_instant(timestamp_str@)),
{
    match parse_rfc3339(timestamp_str) {
        Some(instant) => timestamp_from(Some(instant), None),
        None => timestamp_from(None, parse_plain(timestamp_str)),
    }
}

} // verus!
