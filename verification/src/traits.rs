//! Timestamps in milliseconds, and the seconds and dates that they stand for.

use chrono::{DateTime, NaiveDateTime};
use vstd::prelude::*;

verus! {

/// chrono's `NaiveDateTime`, a date and time without a time zone. Nothing
/// is known of what a value holds: it is made by chrono and handed on.
#[verifier::external_type_specification]
#[verifier::external_body]
pub struct ExNaiveDateTime(NaiveDateTime);

/// The date and time in UTC that chrono makes of a count of whole seconds
/// since the epoch and a count of nanoseconds into that second, or `None`
/// where chrono has no date for them.
pub uninterp spec fn utc_from_timestamp(secs: i64, nsecs: u32) -> Option<NaiveDateTime>;

/// Calls chrono's `DateTime::<Utc>::from_timestamp` and takes the date and
/// time in UTC out of what it returns. The call does not panic: it answers
/// `None` for seconds out of range or an invalid nanosecond. Its result
/// depends on the two numbers alone, which is all that is claimed here.
#[verifier::external_body]
fn utc_datetime(secs: i64, nsecs: u32) -> (found: Option<NaiveDateTime>)
    ensures
        found == utc_from_timestamp(secs, nsecs),
{
    match DateTime::from_timestamp(secs, nsecs) {
        Some(at) => Some(at.naive_utc()),
        None => None,
    }
}

/// The whole seconds in a count of milliseconds, rounded toward zero.
pub open spec fn whole_seconds(millis: int) -> int {
    if millis >= 0 {
        millis / 1000
    } else {
        -((-millis) / 1000)
    }
}

/// The milliseconds left over beyond the whole seconds. The sign is that of
/// the count.
pub open spec fn spare_millis(millis: int) -> int {
    millis - 1000 * whole_seconds(millis)
}

/// The date and time in UTC of a timestamp in milliseconds. A timestamp
/// before the epoch has one only where it falls on a whole second.
pub open spec fn calendar(millis: int) -> Option<NaiveDateTime> {
    if spare_millis(millis) < 0 {
        None
    } else {
        utc_from_timestamp(whole_seconds(millis) as i64, (spare_millis(millis) * 1_000_000) as u32)
    }
}

/// Methods of a record that carries a single timestamp.
///
/// An implementor says what its timestamp is and hands it out; the seconds
/// and the date are derived from that.
pub trait Timestamped {
    /// The timestamp: milliseconds that have elapsed since the epoch.
    spec fn millis(&self) -> int;

    /// Gets the timestamp as the number of milliseconds since the epoch.
    fn timestamp_millis(&self) -> (millis: i64)
        ensures
            millis == self.millis(),
    ;

    /// Gets the timestamp as the number of whole seconds since the epoch.
    fn timestamp_seconds(&self) -> (seconds: i64)
        ensures
            seconds == whole_seconds(self.millis()),
    {
        self.timestamp_millis() / 1_000
    }

    /// Converts the timestamp into a date and time in UTC, for a timestamp
    /// that has one.
    fn datetime(&self) -> (at: NaiveDateTime)
        requires
            calendar(self.millis()) is Some,
        ensures
            calendar(self.millis()) == Some(at),
    {
        let millis: i64 = self.timestamp_millis();
        let nanos: i64 = (millis % 1_000) * 1_000_000;
        utc_datetime(millis / 1_000, nanos as u32).unwrap()
    }

    /// Converts the timestamp into a date and time in UTC, or `None` where
    /// the timestamp has none.
    fn try_datetime(&self) -> (found: Option<NaiveDateTime>)
        ensures
            found == calendar(self.millis()),
    {
        let millis: i64 = self.timestamp_millis();
        let nanos: i64 = (millis % 1_000) * 1_000_000;
        if nanos < 0 {
            None
        } else if utc_datetime(millis / 1_000, nanos as u32).is_some() {
            Some(self.datetime())
        } else {
            None
        }
    }
}

/// Whole seconds are rounded toward zero, before the epoch as after it, and
/// the spare milliseconds make up the rest, with the sign of the timestamp.
pub proof fn law_seconds_round_toward_zero(millis: int)
    ensures
        whole_seconds(-millis) == -whole_seconds(millis),
        millis == 1000 * whole_seconds(millis) + spare_millis(millis),
        millis >= 0 ==> 0 <= spare_millis(millis) < 1000,
        millis <= 0 ==> -1000 < spare_millis(millis) <= 0,
{
}

/// From the epoch on, a timestamp's date and time are those that chrono
/// gives to its seconds and to its milliseconds as nanoseconds.
pub proof fn law_calendar_from_the_epoch(millis: int)
    requires
        0 <= millis <= i64::MAX,
    ensures
        calendar(millis) == utc_from_timestamp(
            (millis / 1000) as i64,
            ((millis % 1000) * 1_000_000) as u32,
        ),
{
}

} // verus!
