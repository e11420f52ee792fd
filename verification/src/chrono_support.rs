//! Conversions between temporal leaves and the `chrono` crate's datetimes.

use chrono::{
    Datelike, FixedOffset, NaiveDate, NaiveDateTime, NaiveTime, Timelike,
};
use vstd::prelude::*;

use crate::temporal::{spec_days_in_month, DateTimeParts, TemporalValue, TemporalValueError};

verus! {

/// `chrono::NaiveDate`, carried as an opaque value.
#[verifier::external_type_specification]
#[verifier::external_body]
pub struct ExNaiveDate(NaiveDate);

/// `chrono::NaiveTime`, carried as an opaque value.
#[verifier::external_type_specification]
#[verifier::external_body]
pub struct ExNaiveTime(NaiveTime);

/// `chrono::NaiveDateTime`, carried as an opaque value.
#[verifier::external_type_specification]
#[verifier::external_body]
pub struct ExNaiveDateTime(NaiveDateTime);

/// `chrono::FixedOffset`, carried as an opaque value.
#[verifier::external_type_specification]
#[verifier::external_body]
pub struct ExFixedOffset(FixedOffset);


// ---------------------------------------------------------------------------
// Names for what `chrono` reads out of its values.
// ---------------------------------------------------------------------------

/// What `Datelike::year`, `month` and `day` give for a date.
pub uninterp spec fn chrono_ymd(date: NaiveDate) -> (i32, u32, u32);

/// What `Timelike::hour`, `minute`, `second` and `nanosecond` give for a
/// time of day.
pub uninterp spec fn chrono_hms_nano(time: NaiveTime) -> (u32, u32, u32, u32);

/// What `NaiveDateTime::date` gives for a naive datetime.
pub uninterp spec fn chrono_naive_date(value: NaiveDateTime) -> NaiveDate;

/// What `NaiveDateTime::time` gives for a naive datetime.
pub uninterp spec fn chrono_naive_time(value: NaiveDateTime) -> NaiveTime;

/// What `FixedOffset::local_minus_utc` gives for an offset.
pub uninterp spec fn chrono_offset_seconds(offset: FixedOffset) -> i32;

/// The calendar components of a naive `chrono` datetime: year, month, day,
/// hour, minute, second and nanosecond.
pub open spec fn chrono_local_parts(value: NaiveDateTime) -> (i32, u32, u32, u32, u32, u32, u32) {
    let date = chrono_ymd(chrono_naive_date(value));
    let time = chrono_hms_nano(chrono_naive_time(value));
    (date.0, date.1, date.2, time.0, time.1, time.2, time.3)
}

/// The components of a temporal leaf with the calendar components of a
/// naive `chrono` datetime and the given offset.
pub open spec fn chrono_leaf_parts(value: NaiveDateTime, offset_seconds: Option<i32>) -> DateTimeParts {
    let c = chrono_local_parts(value);
    DateTimeParts {
        year: c.0,
        month: c.1 as u8,
        day: c.2 as u8,
        hour: c.3 as u8,
        minute: c.4 as u8,
        second: c.5 as u8,
        nanosecond: c.6,
        offset_seconds,
    }
}

/// The calendar components of a temporal leaf, as `chrono` gives them.
pub open spec fn leaf_local_parts(p: DateTimeParts) -> (i32, u32, u32, u32, u32, u32, u32) {
    (
        p.year,
        p.month as u32,
        p.day as u32,
        p.hour as u32,
        p.minute as u32,
        p.second as u32,
        p.nanosecond,
    )
}

// ---------------------------------------------------------------------------
// Building `chrono` values.
// ---------------------------------------------------------------------------

/// `NaiveDate::from_ymd_opt`: a date exists only for a month in `1..=12` and
/// a day of that month, and exists for every such day of a year in
/// `-262_143..=262_142`; the date reads back as the same year, month and day.
#[verifier::external_body]
fn chrono_date(year: i32, month: u32, day: u32) -> (r: Option<NaiveDate>)
    ensures
        r matches Some(d) ==> chrono_ymd(d) == (year, month, day),
        r is Some ==> 1 <= month <= 12 && 1 <= day <= spec_days_in_month(year as int, month as int),
        (-262_143 <= year <= 262_142 && 1 <= month <= 12 && 1 <= day <= spec_days_in_month(
            year as int,
            month as int,
        )) ==> r is Some,
{
    NaiveDate::from_ymd_opt(year, month, day)
}

/// `NaiveTime::from_hms_nano_opt`: a time of day exists exactly for an hour
/// below 24, a minute and a second below 60 and a nanosecond below one
/// billion, or below two billion in the last second of a minute; it reads
/// back as the same components.
#[verifier::external_body]
fn chrono_time(hour: u32, minute: u32, second: u32, nanosecond: u32) -> (r: Option<NaiveTime>)
    ensures
        r matches Some(t) ==> chrono_hms_nano(t) == (hour, minute, second, nanosecond),
        r is Some <==> (hour < 24 && minute < 60 && second < 60 && (nanosecond < 1_000_000_000 || (
        second == 59 && nanosecond < 2_000_000_000))),
{
    NaiveTime::from_hms_nano_opt(hour, minute, second, nanosecond)
}

/// `FixedOffset::east_opt`: an offset exists exactly for less than a day
/// either side of UTC, and reads back as the same seconds.
#[verifier::external_body]
fn chrono_offset(seconds: i32) -> (r: Option<FixedOffset>)
    ensures
        r matches Some(o) ==> chrono_offset_seconds(o) == seconds,
        r is Some <==> -86_400 < seconds < 86_400,
{
    FixedOffset::east_opt(seconds)
}

/// `NaiveDateTime::new`: a date and a time of day together, read back as
/// they were given.
#[verifier::external_body]
fn chrono_naive(date: NaiveDate, time: NaiveTime) -> (r: NaiveDateTime)
    ensures
        chrono_naive_date(r) == date,
        chrono_naive_time(r) == time,
{
    NaiveDateTime::new(date, time)
}

// ---------------------------------------------------------------------------
// Reading `chrono` values.
// ---------------------------------------------------------------------------

/// `FixedOffset::local_minus_utc`: less than a day either side of UTC.
#[verifier::external_body]
fn local_minus_utc_of(offset: &FixedOffset) -> (r: i32)
    ensures
        r == chrono_offset_seconds(*offset),
        -86_400 < r < 86_400,
{
    offset.local_minus_utc()
}

/// `Datelike::year` of a naive datetime: the year of its date.
#[verifier::external_body]
fn chrono_year_of(value: &NaiveDateTime) -> (r: i32)
    ensures
        r == chrono_ymd(chrono_naive_date(*value)).0,
{
    value.year()
}

/// `Datelike::month` of a naive datetime: in `1..=12`.
#[verifier::external_body]
fn chrono_month_of(value: &NaiveDateTime) -> (r: u32)
    ensures
        r == chrono_ymd(chrono_naive_date(*value)).1,
        1 <= r <= 12,
{
    value.month()
}

/// `Datelike::day` of a naive datetime: a day of its month, whose dates
/// `chrono` holds only when they exist.
#[verifier::external_body]
fn chrono_day_of(value: &NaiveDateTime) -> (r: u32)
    ensures
        r == chrono_ymd(chrono_naive_date(*value)).2,
        1 <= r <= spec_days_in_month(
            chrono_ymd(chrono_naive_date(*value)).0 as int,
            chrono_ymd(chrono_naive_date(*value)).1 as int,
        ),
{
    value.day()
}

/// `Timelike::hour` of a naive datetime: below 24.
#[verifier::external_body]
fn chrono_hour_of(value: &NaiveDateTime) -> (r: u32)
    ensures
        r == chrono_hms_nano(chrono_naive_time(*value)).0,
        r < 24,
{
    value.hour()
}

/// `Timelike::minute` of a naive datetime: below 60.
#[verifier::external_body]
fn chrono_minute_of(value: &NaiveDateTime) -> (r: u32)
    ensures
        r == chrono_hms_nano(chrono_naive_time(*value)).1,
        r < 60,
{
    value.minute()
}

/// `Timelike::second` of a naive datetime: below 60.
#[verifier::external_body]
fn chrono_second_of(value: &NaiveDateTime) -> (r: u32)
    ensures
        r == chrono_hms_nano(chrono_naive_time(*value)).2,
        r < 60,
{
    value.second()
}

/// `Timelike::nanosecond` of a naive datetime: below two billion, the upper
/// billion marking a leap second.
#[verifier::external_body]
fn chrono_nanosecond_of(value: &NaiveDateTime) -> (r: u32)
    ensures
        r == chrono_hms_nano(chrono_naive_time(*value)).3,
        r < 2_000_000_000,
{
    value.nanosecond()
}

// ---------------------------------------------------------------------------
// Conversions.
// ---------------------------------------------------------------------------

/// The components of a temporal leaf.
pub open spec fn chrono_parts(value: TemporalValue) -> DateTimeParts {
    value->DateTime_0@
}

/// The `chrono` naive datetime of valid components.
fn chrono_local(parts: (i32, u8, u8, u8, u8, u8, u32)) -> (r: Result<NaiveDateTime, TemporalValueError>)
    requires
        1 <= parts.1 <= 12,
        1 <= parts.2 <= spec_days_in_month(parts.0 as int, parts.1 as int),
        parts.3 < 24 && parts.4 < 60 && parts.5 < 60 && parts.6 < 1_000_000_000,
    ensures
        -262_143 <= parts.0 <= 262_142 ==> r is Ok,
        r is Err ==> r == Err::<NaiveDateTime, TemporalValueError>(TemporalValueError::OutOfRange),
        r matches Ok(l) ==> chrono_local_parts(l) == (
            parts.0,
            parts.1 as u32,
            parts.2 as u32,
            parts.3 as u32,
            parts.4 as u32,
            parts.5 as u32,
            parts.6,
        ),
{
    let (year, month, day, hour, minute, second, nanosecond) = parts;
    let date = match chrono_date(year, month as u32, day as u32) {
        Some(date) => date,
        None => return Err(TemporalValueError::OutOfRange),
    };
    let time = match chrono_time(hour as u32, minute as u32, second as u32, nanosecond) {
        Some(time) => time,
        None => return Err(TemporalValueError::OutOfRange),
    };
    Ok(chrono_naive(date, time))
}

/// The local `chrono` datetime and the `chrono` offset of an offset-aware
/// temporal leaf, from which `DateTime::<FixedOffset>` is assembled:
/// `MissingOffset` for a naive leaf, `OutOfRange` when `chrono` cannot hold
/// the date, which never happens for years in `-262_143..=262_142`.
pub fn chrono_offset_parts_from_temporal(value: &TemporalValue) -> (r: Result<
    (NaiveDateTime, FixedOffset),
    TemporalValueError,
>)
    ensures
        chrono_parts(*value).offset_seconds is None ==> r == Err::<
            (NaiveDateTime, FixedOffset),
            TemporalValueError,
        >(TemporalValueError::MissingOffset),
        chrono_parts(*value).offset_seconds is Some && -262_143 <= chrono_parts(*value).year
            <= 262_142 ==> r is Ok,
        r is Err ==> r == Err::<(NaiveDateTime, FixedOffset), TemporalValueError>(
            TemporalValueError::MissingOffset,
        ) || r == Err::<(NaiveDateTime, FixedOffset), TemporalValueError>(
            TemporalValueError::OutOfRange,
        ),
        r matches Ok((l, o)) ==> chrono_local_parts(l) == leaf_local_parts(chrono_parts(*value))
            && Some(chrono_offset_seconds(o)) == chrono_parts(*value).offset_seconds,
{
    let datetime = match value.as_datetime() {
        Some(datetime) => datetime,
        None => return Err(TemporalValueError::OutOfRange),
    };
    let offset_seconds = match datetime.offset_seconds() {
        Some(seconds) => seconds,
        None => return Err(TemporalValueError::MissingOffset),
    };
    let local = chrono_local(
        (
            datetime.year(),
            datetime.month(),
            datetime.day(),
            datetime.hour(),
            datetime.minute(),
            datetime.second(),
            datetime.nanosecond(),
        ),
    )?;
    match chrono_offset(offset_seconds) {
        Some(offset) => Ok((local, offset)),
        None => Err(TemporalValueError::OutOfRange),
    }
}

/// The naive `chrono` datetime of a temporal leaf: `UnexpectedOffset` for an
/// offset-aware leaf, `OutOfRange` when `chrono` cannot hold the date, which
/// never happens for years in `-262_143..=262_142`.
pub fn chrono_naive_from_temporal(value: &TemporalValue) -> (r: Result<NaiveDateTime, TemporalValueError>)
    ensures
        chrono_parts(*value).offset_seconds is Some ==> r == Err::<NaiveDateTime, TemporalValueError>(
            TemporalValueError::UnexpectedOffset,
        ),
        chrono_parts(*value).offset_seconds is None && -262_143 <= chrono_parts(*value).year
            <= 262_142 ==> r is Ok,
        r is Err ==> r == Err::<NaiveDateTime, TemporalValueError>(TemporalValueError::UnexpectedOffset)
            || r == Err::<NaiveDateTime, TemporalValueError>(TemporalValueError::OutOfRange),
        r matches Ok(l) ==> chrono_local_parts(l) == leaf_local_parts(chrono_parts(*value)),
{
    let datetime = match value.as_datetime() {
        Some(datetime) => datetime,
        None => return Err(TemporalValueError::OutOfRange),
    };
    if datetime.offset_seconds().is_some() {
        return Err(TemporalValueError::UnexpectedOffset);
    }
    chrono_local(
        (
            datetime.year(),
            datetime.month(),
            datetime.day(),
            datetime.hour(),
            datetime.minute(),
            datetime.second(),
            datetime.nanosecond(),
        ),
    )
}

/// The temporal leaf of the components of a `chrono` naive datetime, with
/// the given offset; a leap second is refused as an invalid nanosecond.
fn temporal_from_chrono_local(local: &NaiveDateTime, offset_seconds: Option<i32>) -> (r: Result<
    TemporalValue,
    TemporalValueError,
>)
    requires
        offset_seconds matches Some(s) ==> -86_400 < s < 86_400,
    ensures
        ({
            let nanosecond = chrono_local_parts(*local).6;
            match r {
                Ok(t) => chrono_parts(t) == chrono_leaf_parts(*local, offset_seconds)
                    && nanosecond < 1_000_000_000,
                Err(e) => e == TemporalValueError::InvalidNanosecond(nanosecond)
                    && nanosecond >= 1_000_000_000,
            }
        }),
{
    let year = chrono_year_of(local);
    let month = chrono_month_of(local);
    let day = chrono_day_of(local);
    let hour = chrono_hour_of(local);
    let minute = chrono_minute_of(local);
    let second = chrono_second_of(local);
    let nanosecond = chrono_nanosecond_of(local);
    TemporalValue::datetime(
        year,
        month as u8,
        day as u8,
        hour as u8,
        minute as u8,
        second as u8,
        nanosecond,
        offset_seconds,
    )
}

/// The temporal leaf of a `chrono` local datetime at a `chrono` offset (the
/// parts of a `DateTime::<FixedOffset>`); a leap second is refused as an
/// invalid nanosecond.
pub fn temporal_from_chrono_offset_parts(local: &NaiveDateTime, offset: &FixedOffset) -> (r: Result<
    TemporalValue,
    TemporalValueError,
>)
    ensures
        ({
            let nanosecond = chrono_local_parts(*local).6;
            match r {
                Ok(t) => chrono_parts(t) == chrono_leaf_parts(
                    *local,
                    Some(chrono_offset_seconds(*offset)),
                ) && nanosecond < 1_000_000_000,
                Err(e) => e == TemporalValueError::InvalidNanosecond(nanosecond)
                    && nanosecond >= 1_000_000_000,
            }
        }),
{
    let seconds = local_minus_utc_of(offset);
    temporal_from_chrono_local(local, Some(seconds))
}

/// The temporal leaf of a naive `chrono` datetime; a leap second is refused
/// as an invalid nanosecond.
pub fn temporal_from_chrono_naive(value: &NaiveDateTime) -> (r: Result<TemporalValue, TemporalValueError>)
    ensures
        ({
            let nanosecond = chrono_local_parts(*value).6;
            match r {
                Ok(t) => chrono_parts(t) == chrono_leaf_parts(*value, None)
                    && nanosecond < 1_000_000_000,
                Err(e) => e == TemporalValueError::InvalidNanosecond(nanosecond)
                    && nanosecond >= 1_000_000_000,
            }
        }),
{
    temporal_from_chrono_local(value, None)
}

} // verus!
