//! TDMS timestamps: whole seconds since 1904-01-01T00:00:00 UTC and a
//! fraction of a second in units of 2^-64 s.

use chrono::{NaiveDate, NaiveDateTime, TimeDelta};
use vstd::prelude::*;

verus! {

/// `chrono::NaiveDate`, a calendar date; opaque here.
#[verifier::external_type_specification]
#[verifier::external_body]
pub struct ExNaiveDate(NaiveDate);

/// `chrono::NaiveDateTime`, a calendar date with a time of day; opaque
/// here.
#[verifier::external_type_specification]
#[verifier::external_body]
pub struct ExNaiveDateTime(NaiveDateTime);

/// `chrono::TimeDelta`, a signed duration; opaque here.
#[verifier::external_type_specification]
#[verifier::external_body]
pub struct ExTimeDelta(TimeDelta);

#[derive(Clone, Copy, Debug, PartialEq, Eq, Structural)]
pub struct Timestamp {
    pub second_fractions: u64,
    pub seconds: i64,
}

/// Number of 2^-64 s fractions in a nanosecond: 2^64 / 10^9, truncated.
pub const FRACTIONS_PER_NS: u64 = 18446744073;

/// What `chrono::NaiveDate::from_ymd_opt` returns for a year, month and day.
pub uninterp spec fn calendar_date(year: i32, month: u32, day: u32) -> Option<NaiveDate>;

/// What `chrono::NaiveDate::and_hms_opt` returns for a date and a time of day.
pub uninterp spec fn date_at(date: NaiveDate, hour: u32, minute: u32, second: u32) -> Option<
    NaiveDateTime,
>;

/// What `chrono::TimeDelta::try_seconds` returns for a number of seconds.
pub uninterp spec fn seconds_delta(seconds: i64) -> Option<TimeDelta>;

/// What `chrono::TimeDelta::nanoseconds` returns for a number of nanoseconds.
pub uninterp spec fn nanoseconds_delta(nanoseconds: i64) -> TimeDelta;

/// What `chrono::NaiveDateTime::checked_add_signed` returns for a date and
/// time and a signed duration.
pub uninterp spec fn datetime_plus(datetime: NaiveDateTime, delta: TimeDelta) -> Option<
    NaiveDateTime,
>;

/// `chrono::NaiveDate::from_ymd_opt`: the calendar date, or `None` where
/// there is no such date. Nothing is claimed but that the result is
/// determined by the arguments.
#[verifier::external_body]
fn date_from_ymd(year: i32, month: u32, day: u32) -> (r: Option<NaiveDate>)
    ensures
        r == calendar_date(year, month, day),
{
    NaiveDate::from_ymd_opt(year, month, day)
}

/// `chrono::NaiveDate::and_hms_opt`: the date with a time of day, or `None`
/// for an invalid time. Nothing is claimed but that the result is determined
/// by the arguments.
#[verifier::external_body]
fn date_and_hms(date: NaiveDate, hour: u32, minute: u32, second: u32) -> (r: Option<
    NaiveDateTime,
>)
    ensures
        r == date_at(date, hour, minute, second),
{
    date.and_hms_opt(hour, minute, second)
}

/// `chrono::TimeDelta::try_seconds`: a duration of whole seconds, or `None`
/// where it is out of the bounds of the type. Nothing is claimed but that the
/// result is determined by the argument.
#[verifier::external_body]
fn delta_from_seconds(seconds: i64) -> (r: Option<TimeDelta>)
    ensures
        r == seconds_delta(seconds),
{
    TimeDelta::try_seconds(seconds)
}

/// `chrono::TimeDelta::nanoseconds`: a duration of nanoseconds; every `i64`
/// is in range. Nothing is claimed but that the result is determined by the
/// argument.
#[verifier::external_body]
fn delta_from_nanoseconds(nanoseconds: i64) -> (r: TimeDelta)
    ensures
        r == nanoseconds_delta(nanoseconds),
{
    TimeDelta::nanoseconds(nanoseconds)
}

/// `chrono::NaiveDateTime::checked_add_signed`: the date and time moved by a
/// duration, or `None` on overflow of the calendar. Nothing is claimed but
/// that the result is determined by the arguments.
#[verifier::external_body]
fn datetime_add(datetime: NaiveDateTime, delta: TimeDelta) -> (r: Option<NaiveDateTime>)
    ensures
        r == datetime_plus(datetime, delta),
{
    datetime.checked_add_signed(delta)
}

impl Timestamp {
    pub fn new(seconds: i64, second_fractions: u64) -> (r: Timestamp)
        ensures
            r.seconds == seconds,
            r.second_fractions == second_fractions,
    {
        Timestamp { seconds, second_fractions }
    }

    /// Whole nanoseconds of the fractional part, truncated.
    pub open spec fn spec_nanoseconds(self) -> int {
        self.second_fractions as int / 18446744073
    }

    /// The epoch of TDMS timestamps, midnight of 1904-01-01, if the calendar
    /// can represent it.
    pub open spec fn spec_epoch() -> Option<NaiveDateTime> {
        match calendar_date(1904, 1, 1) {
            Some(date) => date_at(date, 0, 0, 0),
            None => None,
        }
    }

    /// The UTC date and time of this timestamp: the epoch moved by the whole
    /// seconds and then by the whole nanoseconds; `None` as soon as one step
    /// leaves the range of the calendar.
    pub open spec fn spec_to_datetime(self) -> Option<NaiveDateTime> {
        match (Self::spec_epoch(), seconds_delta(self.seconds)) {
            (Some(epoch), Some(delta)) => match datetime_plus(epoch, delta) {
                Some(whole) => datetime_plus(
                    whole,
                    nanoseconds_delta(self.spec_nanoseconds() as i64),
                ),
                None => None,
            },
            _ => None,
        }
    }

    /// Whole nanoseconds of the fractional part, truncated; always below
    /// 1_000_000_001.
    pub fn nanoseconds(&self) -> (r: u64)
        ensures
            r == self.spec_nanoseconds(),
            r <= 1_000_000_000,
    {
        self.second_fractions / FRACTIONS_PER_NS
    }

    /// The UTC date and time of this timestamp, without a time zone attached.
    pub fn to_datetime(&self) -> (r: Option<NaiveDateTime>)
        ensures
            r == self.spec_to_datetime(),
    {
        let date = date_from_ymd(1904, 1, 1);
        let epoch = match date {
            Some(date) => date_and_hms(date, 0, 0, 0),
            None => None,
        };
        let seconds = delta_from_seconds(self.seconds);
        match (epoch, seconds) {
            (Some(epoch), Some(delta)) => match datetime_add(epoch, delta) {
                Some(whole) => {
                    let nanoseconds = self.nanoseconds();
                    datetime_add(whole, delta_from_nanoseconds(nanoseconds as i64))
                },
                None => None,
            },
            _ => None,
        }
    }
}

} // verus!
