use chrono::{DateTime, FixedOffset, NaiveDate, NaiveDateTime, TimeZone};
use qs_rust::chrono_support::{
    chrono_naive_from_temporal, chrono_offset_parts_from_temporal,
    temporal_from_chrono_naive, temporal_from_chrono_offset_parts,
};
use qs_rust::{TemporalValue, TemporalValueError};

fn aware_from_temporal(value: &TemporalValue) -> Result<DateTime<FixedOffset>, TemporalValueError> {
    let (local, offset) = chrono_offset_parts_from_temporal(value)?;
    local
        .and_local_timezone(offset)
        .single()
        .ok_or(TemporalValueError::OutOfRange)
}

fn temporal_from_aware(value: &DateTime<FixedOffset>) -> Result<TemporalValue, TemporalValueError> {
    temporal_from_chrono_offset_parts(&value.naive_local(), value.offset())
}

#[test]
fn chrono_round_trips_through_core_temporal_value() {
    let aware = FixedOffset::east_opt(3600)
        .unwrap()
        .with_ymd_and_hms(2024, 1, 2, 3, 4, 5)
        .unwrap();
    let temporal = temporal_from_aware(&aware).unwrap();
    assert_eq!(temporal.to_string(), "2024-01-02T03:04:05+01:00");
    assert_eq!(aware_from_temporal(&temporal).unwrap(), aware);

    let naive = NaiveDate::from_ymd_opt(2024, 1, 2)
        .unwrap()
        .and_hms_opt(3, 4, 5)
        .unwrap();
    let temporal = temporal_from_chrono_naive(&naive).unwrap();
    assert_eq!(temporal.to_string(), "2024-01-02T03:04:05");
    assert_eq!(chrono_naive_from_temporal(&temporal).unwrap(), naive);
}

#[test]
fn chrono_conversions_keep_every_component() {
    let aware = FixedOffset::west_opt(19_800)
        .unwrap()
        .from_local_datetime(
            &NaiveDate::from_ymd_opt(2024, 2, 29)
                .unwrap()
                .and_hms_nano_opt(23, 59, 58, 123_456_789)
                .unwrap(),
        )
        .single()
        .unwrap();
    let temporal = temporal_from_aware(&aware).unwrap();
    assert_eq!(
        temporal,
        TemporalValue::datetime(2024, 2, 29, 23, 59, 58, 123_456_789, Some(-19_800)).unwrap()
    );
    let (local, offset) = chrono_offset_parts_from_temporal(&temporal).unwrap();
    assert_eq!(local, aware.naive_local());
    assert_eq!(offset.local_minus_utc(), -19_800);
}

#[test]
fn chrono_conversions_reject_mismatched_offsets() {
    let aware = TemporalValue::datetime(2024, 1, 2, 3, 4, 5, 0, Some(3600)).unwrap();
    let naive = TemporalValue::datetime(2024, 1, 2, 3, 4, 5, 0, None).unwrap();
    assert_eq!(
        chrono_naive_from_temporal(&aware),
        Err(TemporalValueError::UnexpectedOffset)
    );
    assert_eq!(
        chrono_offset_parts_from_temporal(&naive).map(|_| ()),
        Err(TemporalValueError::MissingOffset)
    );
}

#[test]
fn chrono_conversions_refuse_years_beyond_chrono() {
    let far_naive = TemporalValue::datetime(300_000, 1, 2, 3, 4, 5, 0, None).unwrap();
    assert_eq!(
        chrono_naive_from_temporal(&far_naive),
        Err(TemporalValueError::OutOfRange)
    );
    let far_aware = TemporalValue::datetime(-300_000, 1, 2, 3, 4, 5, 0, Some(0)).unwrap();
    assert_eq!(
        chrono_offset_parts_from_temporal(&far_aware).map(|_| ()),
        Err(TemporalValueError::OutOfRange)
    );
}

#[test]
fn chrono_leap_second_is_refused_as_a_nanosecond() {
    let leap: NaiveDateTime = NaiveDate::from_ymd_opt(2016, 12, 31)
        .unwrap()
        .and_hms_nano_opt(23, 59, 59, 1_500_000_000)
        .unwrap();
    assert_eq!(
        temporal_from_chrono_naive(&leap),
        Err(TemporalValueError::InvalidNanosecond(1_500_000_000))
    );
}
