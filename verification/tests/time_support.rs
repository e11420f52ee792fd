use qs_rust::time_support::{
    offset_datetime_from_temporal, primitive_datetime_from_temporal,
    temporal_from_offset_datetime, temporal_from_primitive_datetime, to_value,
};
use qs_rust::{TemporalValue, TemporalValueError, Value};
use time::{Date, Month, OffsetDateTime, PrimitiveDateTime, Time, UtcOffset};

#[test]
fn time_round_trips_through_core_temporal_value() {
    let aware = Date::from_calendar_date(2024, Month::January, 2)
        .unwrap()
        .with_hms(3, 4, 5)
        .unwrap()
        .assume_offset(UtcOffset::from_hms(1, 0, 0).unwrap());
    let temporal = temporal_from_offset_datetime(&aware).unwrap();
    let round_trip = offset_datetime_from_temporal(&temporal).unwrap();
    assert_eq!(round_trip, aware);

    let naive = PrimitiveDateTime::new(
        Date::from_calendar_date(2024, Month::January, 2).unwrap(),
        Time::from_hms(3, 4, 5).unwrap(),
    );
    let temporal = temporal_from_primitive_datetime(&naive);
    let round_trip = primitive_datetime_from_temporal(&temporal).unwrap();
    assert_eq!(round_trip, naive);
}

#[test]
fn time_conversions_keep_every_component() {
    let aware = Date::from_calendar_date(2024, Month::February, 29)
        .unwrap()
        .with_hms_nano(23, 59, 58, 123_456_789)
        .unwrap()
        .assume_offset(UtcOffset::from_hms(-5, -30, 0).unwrap());
    let temporal = temporal_from_offset_datetime(&aware).unwrap();
    assert_eq!(temporal.to_string(), "2024-02-29T23:59:58.123456789-05:30");
    assert_eq!(
        temporal,
        TemporalValue::datetime(2024, 2, 29, 23, 59, 58, 123_456_789, Some(-19_800)).unwrap()
    );
}

#[test]
fn time_conversions_reject_mismatched_offsets() {
    let aware = TemporalValue::datetime(2024, 1, 2, 3, 4, 5, 0, Some(3600)).unwrap();
    let naive = TemporalValue::datetime(2024, 1, 2, 3, 4, 5, 0, None).unwrap();
    assert_eq!(
        primitive_datetime_from_temporal(&aware),
        Err(TemporalValueError::UnexpectedOffset)
    );
    assert_eq!(
        offset_datetime_from_temporal(&naive),
        Err(TemporalValueError::MissingOffset)
    );
    let far = TemporalValue::datetime(20_000, 1, 2, 3, 4, 5, 0, Some(0)).unwrap();
    assert_eq!(offset_datetime_from_temporal(&far), Err(TemporalValueError::OutOfRange));
}

#[test]
fn time_values_become_temporal_leaves() {
    let timestamp = OffsetDateTime::from_unix_timestamp(42).unwrap();
    let value = to_value(&timestamp).unwrap();
    assert_eq!(
        value,
        Value::Temporal(TemporalValue::datetime(1970, 1, 1, 0, 0, 42, 0, Some(0)).unwrap())
    );
    let far_offset = timestamp.to_offset(UtcOffset::from_hms(25, 0, 0).unwrap());
    assert_eq!(
        to_value(&far_offset),
        Err(TemporalValueError::InvalidOffsetSeconds(90_000))
    );
    assert_eq!(
        temporal_from_offset_datetime(&far_offset),
        Err(TemporalValueError::InvalidOffsetSeconds(90_000))
    );
}

#[test]
fn time_aware_conversion_requires_a_temporal_offset() {
    let naive = PrimitiveDateTime::new(
        Date::from_calendar_date(2024, Month::January, 2).unwrap(),
        Time::from_hms(3, 4, 5).unwrap(),
    );
    let temporal = temporal_from_primitive_datetime(&naive);

    assert_eq!(
        offset_datetime_from_temporal(&temporal),
        Err(TemporalValueError::MissingOffset)
    );
}

#[test]
fn time_naive_conversion_rejects_offset_aware_temporals() {
    let aware = Date::from_calendar_date(2024, Month::January, 2)
        .unwrap()
        .with_hms(3, 4, 5)
        .unwrap()
        .assume_offset(UtcOffset::from_hms(1, 0, 0).unwrap());
    let temporal = temporal_from_offset_datetime(&aware).unwrap();

    assert_eq!(
        primitive_datetime_from_temporal(&temporal),
        Err(TemporalValueError::UnexpectedOffset)
    );
}

#[test]
fn time_conversions_carry_every_component_both_ways() {
    let leaf = TemporalValue::datetime(1999, 12, 31, 23, 59, 59, 999_999_999, Some(-3_600)).unwrap();
    let aware = offset_datetime_from_temporal(&leaf).unwrap();
    assert_eq!(aware.year(), 1999);
    assert_eq!(u8::from(aware.month()), 12);
    assert_eq!(aware.day(), 31);
    assert_eq!(aware.nanosecond(), 999_999_999);
    assert_eq!(aware.offset().whole_seconds(), -3_600);
    assert_eq!(temporal_from_offset_datetime(&aware), Ok(leaf));

    let far = Date::from_calendar_date(2024, Month::March, 1)
        .unwrap()
        .with_hms(0, 0, 0)
        .unwrap()
        .assume_offset(UtcOffset::from_whole_seconds(90_000).unwrap());
    assert_eq!(
        temporal_from_offset_datetime(&far),
        Err(TemporalValueError::InvalidOffsetSeconds(90_000))
    );
}
