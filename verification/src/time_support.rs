//! Conversions between temporal leaves and the `time` crate's datetimes.

use time::{Date, Month, OffsetDateTime, PrimitiveDateTime, Time, UtcOffset};
use vstd::prelude::*;

use crate::temporal::{
    spec_days_in_month, DateTimeParts, DateTimeValue, TemporalValue, TemporalValueError,
};
use crate::value::Value;

verus! {

/// `time::OffsetDateTime`, carried as an opaque value.
#[verifier::external_type_specification]
#[verifier::external_body]
pub struct ExOffsetDateTime(OffsetDateTime);

/// `time::PrimitiveDateTime`, carried as an opaque value.
#[verifier::external_type_specification]
#[verifier::external_body]
pub struct ExPrimitiveDateTime(PrimitiveDateTime);

/// `time::Date`, carried as an opaque value.
#[verifier::external_type_specification]
#[verifier::external_body]
pub struct ExDate(Date);

/// `time::Time`, carried as an opaque value.
#[verifier::external_type_specification]
#[verifier::external_body]
pub struct ExTime(Time);

/// `time::UtcOffset`, carried as an opaque value.
#[verifier::external_type_specification]
#[verifier::external_body]
pub struct ExUtcOffset(UtcOffset);

// ---------------------------------------------------------------------------
// Names for what `time` reads out of its values.
// ---------------------------------------------------------------------------

/// What `Date::to_calendar_date` gives for a date, the month as its number.
pub uninterp spec fn time_calendar(date: Date) -> (i32, u8, u8);

/// What `Time::as_hms_nano` gives for a time of day.
pub uninterp spec fn time_clock(time: Time) -> (u8, u8, u8, u32);

/// What `UtcOffset::whole_seconds` gives for an offset.
pub uninterp spec fn time_offset_seconds(offset: UtcOffset) -> i32;

/// What `PrimitiveDateTime::date` gives for a naive datetime.
pub uninterp spec fn time_naive_date(value: PrimitiveDateTime) -> Date;

/// What `PrimitiveDateTime::time` gives for a naive datetime.
pub uninterp spec fn time_naive_time(value: PrimitiveDateTime) -> Time;

/// What `OffsetDateTime::date` gives for an offset-aware datetime.
pub uninterp spec fn time_offset_date(value: OffsetDateTime) -> Date;

/// What `OffsetDateTime::time` gives for an offset-aware datetime.
pub uninterp spec fn time_offset_time(value: OffsetDateTime) -> Time;

/// What `OffsetDateTime::offset` gives for an offset-aware datetime.
pub uninterp spec fn time_offset_of(value: OffsetDateTime) -> UtcOffset;

/// The components of a naive `time` datetime, without an offset.
pub open spec fn primitive_datetime_parts(value: PrimitiveDateTime) -> DateTimeParts {
    let date = time_calendar(time_naive_date(value));
    let clock = time_clock(time_naive_time(value));
    DateTimeParts {
        year: date.0,
        month: date.1,
        day: date.2,
        hour: clock.0,
        minute: clock.1,
        second: clock.2,
        nanosecond: clock.3,
        offset_seconds: None,
    }
}

/// The components of an offset-aware `time` datetime: its local date and
/// time of day, and its offset.
pub open spec fn offset_datetime_parts(value: OffsetDateTime) -> DateTimeParts {
    let date = time_calendar(time_offset_date(value));
    let clock = time_clock(time_offset_time(value));
    DateTimeParts {
        year: date.0,
        month: date.1,
        day: date.2,
        hour: clock.0,
        minute: clock.1,
        second: clock.2,
        nanosecond: clock.3,
        offset_seconds: Some(time_offset_seconds(time_offset_of(value))),
    }
}

// ---------------------------------------------------------------------------
// Building `time` values.
// ---------------------------------------------------------------------------

/// `Month::try_from` then `Date::from_calendar_date`: a date exists only for
/// a month in `1..=12` and a day of that month, and exists for every such
/// day of a year in `-9999..=9999` (wider years depend on the crate's
/// `large-dates` feature and are left open); the date reads back as the
/// same year, month and day.
#[verifier::external_body]
fn calendar_date(year: i32, month: u8, day: u8) -> (r: Option<Date>)
    ensures
        r matches Some(d) ==> time_calendar(d) == (year, month, day),
        r is Some ==> 1 <= month <= 12 && 1 <= day <= spec_days_in_month(year as int, month as int),
        (-9999 <= year <= 9999 && 1 <= month <= 12 && 1 <= day <= spec_days_in_month(
            year as int,
            month as int,
        )) ==> r is Some,
{
    match Month::try_from(month) {
        Ok(month) => Date::from_calendar_date(year, month, day).ok(),
        Err(_) => None,
    }
}

/// `Time::from_hms_nano`: a time of day exists exactly for an hour below 24,
/// a minute and a second below 60 and a nanosecond below one billion, and
/// reads back as the same components.
#[verifier::external_body]
fn clock_time(hour: u8, minute: u8, second: u8, nanosecond: u32) -> (r: Option<Time>)
    ensures
        r matches Some(t) ==> time_clock(t) == (hour, minute, second, nanosecond),
        r is Some <==> (hour < 24 && minute < 60 && second < 60 && nanosecond < 1_000_000_000),
{
    Time::from_hms_nano(hour, minute, second, nanosecond).ok()
}

/// `UtcOffset::from_whole_seconds`: an offset exists exactly for at most
/// 25:59:59 either side of UTC, and reads back as the same seconds.
#[verifier::external_body]
fn utc_offset(seconds: i32) -> (r: Option<UtcOffset>)
    ensures
        r matches Some(o) ==> time_offset_seconds(o) == seconds,
        r is Some <==> -93_599 <= seconds <= 93_599,
{
    UtcOffset::from_whole_seconds(seconds).ok()
}

/// `PrimitiveDateTime::new`: a date and a time of day together, read back
/// as they were given.
#[verifier::external_body]
fn naive_datetime(date: Date, time: Time) -> (r: PrimitiveDateTime)
    ensures
        time_naive_date(r) == date,
        time_naive_time(r) == time,
{
    PrimitiveDateTime::new(date, time)
}

/// `PrimitiveDateTime::assume_offset`: a naive datetime read at an offset;
/// its local date and time of day and the offset read back as they were.
#[verifier::external_body]
fn at_offset(datetime: PrimitiveDateTime, offset: UtcOffset) -> (r: OffsetDateTime)
    ensures
        time_offset_date(r) == time_naive_date(datetime),
        time_offset_time(r) == time_naive_time(datetime),
        time_offset_of(r) == offset,
{
    datetime.assume_offset(offset)
}

// ---------------------------------------------------------------------------
// Reading `time` values.
// ---------------------------------------------------------------------------

/// `OffsetDateTime::date`.
#[verifier::external_body]
fn offset_date(value: &OffsetDateTime) -> (r: Date)
    ensures
        r == time_offset_date(*value),
{
    value.date()
}

/// `OffsetDateTime::time`.
#[verifier::external_body]
fn offset_time(value: &OffsetDateTime) -> (r: Time)
    ensures
        r == time_offset_time(*value),
{
    value.time()
}

/// `OffsetDateTime::offset`.
#[verifier::external_body]
fn offset_of(value: &OffsetDateTime) -> (r: UtcOffset)
    ensures
        r == time_offset_of(*value),
{
    value.offset()
}

/// `PrimitiveDateTime::date`.
#[verifier::external_body]
fn naive_date(value: &PrimitiveDateTime) -> (r: Date)
    ensures
        r == time_naive_date(*value),
{
    value.date()
}

/// `PrimitiveDateTime::time`.
#[verifier::external_body]
fn naive_time(value: &PrimitiveDateTime) -> (r: Time)
    ensures
        r == time_naive_time(*value),
{
    value.time()
}

/// `Date::to_calendar_date`, with the month as its number: a day of the
/// proleptic Gregorian calendar, in a year within `-999_999..=999_999`
/// whatever the crate's features.
#[verifier::external_body]
fn calendar_date_of(date: &Date) -> (r: (i32, u8, u8))
    ensures
        r == time_calendar(*date),
        -999_999 <= r.0 <= 999_999,
        1 <= r.1 <= 12,
        1 <= r.2 <= spec_days_in_month(r.0 as int, r.1 as int),
{
    let (year, month, day) = date.to_calendar_date();
    (year, u8::from(month), day)
}

/// `Time::as_hms_nano`: an hour below 24, a minute and a second below 60 and
/// a nanosecond below one billion.
#[verifier::external_body]
fn clock_of(time: &Time) -> (r: (u8, u8, u8, u32))
    ensures
        r == time_clock(*time),
        r.0 < 24 && r.1 < 60 && r.2 < 60 && r.3 < 1_000_000_000,
{
    time.as_hms_nano()
}

/// `UtcOffset::whole_seconds`: at most 25:59:59 either side of UTC.
#[verifier::external_body]
fn whole_seconds_of(offset: &UtcOffset) -> (r: i32)
    ensures
        r == time_offset_seconds(*offset),
        -93_599 <= r <= 93_599,
{
    offset.whole_seconds()
}

// ---------------------------------------------------------------------------
// Conversions.
// ---------------------------------------------------------------------------

/// The components of a temporal leaf.
pub open spec fn temporal_parts(value: TemporalValue) -> DateTimeParts {
    value->DateTime_0@
}

/// Whether the calendar date of `p` lies in the years every build of `time`
/// accepts.
pub open spec fn in_common_years(p: DateTimeParts) -> bool {
    -9999 <= p.year <= 9999
}

/// The `time` date and time of day of a temporal leaf.
fn date_and_time(parts: (i32, u8, u8, u8, u8, u8, u32)) -> (r: Result<PrimitiveDateTime, TemporalValueError>)
    requires
        1 <= parts.1 <= 12,
        1 <= parts.2 <= spec_days_in_month(parts.0 as int, parts.1 as int),
        parts.3 < 24 && parts.4 < 60 && parts.5 < 60 && parts.6 < 1_000_000_000,
    ensures
        -9999 <= parts.0 <= 9999 ==> r is Ok,
        r is Err ==> r == Err::<PrimitiveDateTime, TemporalValueError>(TemporalValueError::OutOfRange),
        r matches Ok(p) ==> time_calendar(time_naive_date(p)) == (parts.0, parts.1, parts.2)
            && time_clock(time_naive_time(p)) == (parts.3, parts.4, parts.5, parts.6),
{
    let (year, month, day, hour, minute, second, nanosecond) = parts;
    let date = match calendar_date(year, month, day) {
        Some(date) => date,
        None => return Err(TemporalValueError::OutOfRange),
    };
    let time = match clock_time(hour, minute, second, nanosecond) {
        Some(time) => time,
        None => return Err(TemporalValueError::OutOfRange),
    };
    Ok(naive_datetime(date, time))
}

/// The offset-aware `time` datetime of a temporal leaf: `MissingOffset` for
/// a naive leaf, `OutOfRange` when the `time` crate cannot hold the date,
/// which never happens for years in `-9999..=9999`.
pub fn offset_datetime_from_temporal(value: &TemporalValue) -> (r: Result<OffsetDateTime, TemporalValueError>)
    ensures
        temporal_parts(*value).offset_seconds is None ==> r == Err::<OffsetDateTime, TemporalValueError>(
            TemporalValueError::MissingOffset,
        ),
        temporal_parts(*value).offset_seconds is Some && in_common_years(temporal_parts(*value))
            ==> r is Ok,
        r is Err ==> r == Err::<OffsetDateTime, TemporalValueError>(TemporalValueError::MissingOffset)
            || r == Err::<OffsetDateTime, TemporalValueError>(TemporalValueError::OutOfRange),
        r matches Ok(o) ==> offset_datetime_parts(o) == temporal_parts(*value),
{
    let datetime = match value.as_datetime() {
        Some(datetime) => datetime,
        None => return Err(TemporalValueError::OutOfRange),
    };
    let offset_seconds = match datetime.offset_seconds() {
        Some(seconds) => seconds,
        None => return Err(TemporalValueError::MissingOffset),
    };
    let naive = date_and_time(
        (
            datetime.year(),
            datetime.month(),
            datetime.day(),
            datetime.hour(),
            datetime.minute(),
            datetime.second(),
            datetime.nanosecond(),
        ),
    )?;
    let offset = match utc_offset(offset_seconds) {
        Some(offset) => offset,
        None => return Err(TemporalValueError::OutOfRange),
    };
    Ok(at_offset(naive, offset))
}

/// The naive `time` datetime of a temporal leaf: `UnexpectedOffset` for an
/// offset-aware leaf, `OutOfRange` when the `time` crate cannot hold the
/// date, which never happens for years in `-9999..=9999`.
pub fn primitive_datetime_from_temporal(value: &TemporalValue) -> (r: Result<PrimitiveDateTime, TemporalValueError>)
    ensures
        temporal_parts(*value).offset_seconds is Some ==> r == Err::<PrimitiveDateTime, TemporalValueError>(
            TemporalValueError::UnexpectedOffset,
        ),
        temporal_parts(*value).offset_seconds is None && in_common_years(temporal_parts(*value))
            ==> r is Ok,
        r is Err ==> r == Err::<PrimitiveDateTime, TemporalValueError>(TemporalValueError::UnexpectedOffset)
            || r == Err::<PrimitiveDateTime, TemporalValueError>(TemporalValueError::OutOfRange),
        r matches Ok(p) ==> primitive_datetime_parts(p) == temporal_parts(*value),
{
    let datetime = match value.as_datetime() {
        Some(datetime) => datetime,
        None => return Err(TemporalValueError::OutOfRange),
    };
    if datetime.offset_seconds().is_some() {
        return Err(TemporalValueError::UnexpectedOffset);
    }
    date_and_time(
        (
            datetime.year(),
            datetime.month(),
            datetime.day(),
            datetime.hour(),
            datetime.minute(),
            datetime.second(),
            datetime.nanosecond(),
        ),
    )
}

/// The temporal leaf of an offset-aware `time` datetime, with its offset;
/// the only failure is an offset beyond a day either side of UTC, which
/// temporal leaves do not hold.
pub fn temporal_from_offset_datetime(value: &OffsetDateTime) -> (r: Result<TemporalValue, TemporalValueError>)
    ensures
        ({
            let seconds = time_offset_seconds(time_offset_of(*value));
            match r {
                Ok(t) => temporal_parts(t) == offset_datetime_parts(*value) && -86_399 <= seconds
                    <= 86_399,
                Err(e) => e == TemporalValueError::InvalidOffsetSeconds(seconds) && !(-86_399
                    <= seconds <= 86_399),
            }
        }),
{
    let (year, month, day) = calendar_date_of(&offset_date(value));
    let (hour, minute, second, nanosecond) = clock_of(&offset_time(value));
    let seconds = whole_seconds_of(&offset_of(value));
    TemporalValue::datetime(year, month, day, hour, minute, second, nanosecond, Some(seconds))
}

/// The temporal leaf of a naive `time` datetime, without an offset.
pub fn temporal_from_primitive_datetime(value: &PrimitiveDateTime) -> (r: TemporalValue)
    ensures
        temporal_parts(r) == primitive_datetime_parts(*value),
{
    let (year, month, day) = calendar_date_of(&naive_date(value));
    let (hour, minute, second, nanosecond) = clock_of(&naive_time(value));
    TemporalValue::DateTime(
        DateTimeValue::from_valid_parts(year, month, day, hour, minute, second, nanosecond, None),
    )
}

/// An offset-aware `time` datetime as a temporal value leaf.
pub fn to_value(value: &OffsetDateTime) -> (r: Result<Value, TemporalValueError>)
    ensures
        ({
            let seconds = time_offset_seconds(time_offset_of(*value));
            match r {
                Ok(v) => v matches Value::Temporal(t) && temporal_parts(t)
                    == offset_datetime_parts(*value) && -86_399 <= seconds <= 86_399,
                Err(e) => e == TemporalValueError::InvalidOffsetSeconds(seconds) && !(-86_399
                    <= seconds <= 86_399),
            }
        }),
{
    match temporal_from_offset_datetime(value) {
        Ok(temporal) => Ok(Value::Temporal(temporal)),
        Err(error) => Err(error),
    }
}

} // verus!
