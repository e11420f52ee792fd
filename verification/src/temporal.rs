//! Core temporal value types used by the dynamic value model.

use vstd::prelude::*;
use vstd::string::StringSliceAdditionalSpecFns;

verus! {

/// Validation and parsing errors for [`TemporalValue`] and [`DateTimeValue`].
#[non_exhaustive]
#[derive(Clone, Copy, Debug, PartialEq, Eq, Structural)]
pub enum TemporalValueError {
    /// The provided month was outside `1..=12`.
    InvalidMonth(u8),
    /// The provided day was invalid for the given month and year.
    InvalidDay {
        /// The year component.
        year: i32,
        /// The month component.
        month: u8,
        /// The day component.
        day: u8,
    },
    /// The provided hour was outside `0..=23`.
    InvalidHour(u8),
    /// The provided minute was outside `0..=59`.
    InvalidMinute(u8),
    /// The provided second was outside `0..=59`.
    InvalidSecond(u8),
    /// The provided nanosecond value was outside `0..1_000_000_000`.
    InvalidNanosecond(u32),
    /// The provided UTC offset was outside the supported range.
    InvalidOffsetSeconds(i32),
    /// A string could not be parsed as a canonical datetime value.
    InvalidFormat,
    /// A conversion required an offset-aware datetime, but none was present.
    MissingOffset,
    /// A conversion required a naive datetime, but an offset was present.
    UnexpectedOffset,
    /// A temporal value could not be represented by the requested target type.
    OutOfRange,
}

/// The plain components of a datetime, as a specification value.
pub struct DateTimeParts {
    pub year: i32,
    pub month: u8,
    pub day: u8,
    pub hour: u8,
    pub minute: u8,
    pub second: u8,
    pub nanosecond: u32,
    pub offset_seconds: Option<i32>,
}

/// Gregorian leap-year rule.
pub open spec fn spec_is_leap_year(year: int) -> bool {
    (year % 4 == 0 && year % 100 != 0) || year % 400 == 0
}

/// Number of days in `month` of `year`, or 0 for a month outside `1..=12`.
pub open spec fn spec_days_in_month(year: int, month: int) -> int {
    if month == 1 || month == 3 || month == 5 || month == 7 || month == 8 || month == 10
        || month == 12 {
        31
    } else if month == 4 || month == 6 || month == 9 || month == 11 {
        30
    } else if month == 2 {
        if spec_is_leap_year(year) { 29 } else { 28 }
    } else {
        0
    }
}

impl DateTimeParts {
    /// The first component check that fails, in the order month, day, hour,
    /// minute, second, nanosecond, offset; `None` when every component is valid.
    pub open spec fn validation_error(self) -> Option<TemporalValueError> {
        if !(1 <= self.month <= 12) {
            Some(TemporalValueError::InvalidMonth(self.month))
        } else if self.day == 0 || self.day > spec_days_in_month(self.year as int, self.month as int) {
            Some(TemporalValueError::InvalidDay { year: self.year, month: self.month, day: self.day })
        } else if self.hour > 23 {
            Some(TemporalValueError::InvalidHour(self.hour))
        } else if self.minute > 59 {
            Some(TemporalValueError::InvalidMinute(self.minute))
        } else if self.second > 59 {
            Some(TemporalValueError::InvalidSecond(self.second))
        } else if self.nanosecond >= 1_000_000_000 {
            Some(TemporalValueError::InvalidNanosecond(self.nanosecond))
        } else if self.offset_seconds matches Some(off) && !(-86_399 <= off <= 86_399) {
            Some(TemporalValueError::InvalidOffsetSeconds(self.offset_seconds.unwrap()))
        } else {
            None
        }
    }

    /// Every component is within its documented range.
    pub open spec fn is_valid(self) -> bool {
        self.validation_error() is None
    }
}

/// Returns whether `year` is a leap year in the proleptic Gregorian calendar.
pub fn is_leap_year(year: i32) -> (r: bool)
    ensures
        r == spec_is_leap_year(year as int),
{
    (year % 4 == 0 && year % 100 != 0) || year % 400 == 0
}

/// Returns the number of days in `month` of `year` (0 for an invalid month).
pub fn days_in_month(year: i32, month: u8) -> (r: u8)
    ensures
        r as int == spec_days_in_month(year as int, month as int),
{
    match month {
        1 | 3 | 5 | 7 | 8 | 10 | 12 => 31,
        4 | 6 | 9 | 11 => 30,
        2 => if is_leap_year(year) { 29 } else { 28 },
        _ => 0,
    }
}


/// A validated calendar date and time with an optional UTC offset.
#[derive(Clone, Copy, Debug, PartialEq, Eq, Structural)]
pub struct DateTimeValue {
    year: i32,
    month: u8,
    day: u8,
    hour: u8,
    minute: u8,
    second: u8,
    nanosecond: u32,
    offset_seconds: Option<i32>,
}

impl View for DateTimeValue {
    type V = DateTimeParts;

    closed spec fn view(&self) -> DateTimeParts {
        DateTimeParts {
            year: self.year,
            month: self.month,
            day: self.day,
            hour: self.hour,
            minute: self.minute,
            second: self.second,
            nanosecond: self.nanosecond,
            offset_seconds: self.offset_seconds,
        }
    }
}

impl DateTimeValue {
    #[verifier::type_invariant]
    spec fn components_valid(self) -> bool {
        self@.is_valid()
    }

    /// Creates a validated datetime value.
    pub fn new(
        year: i32,
        month: u8,
        day: u8,
        hour: u8,
        minute: u8,
        second: u8,
        nanosecond: u32,
        offset_seconds: Option<i32>,
    ) -> (r: Result<Self, TemporalValueError>)
        ensures
            ({
                let parts = DateTimeParts {
                    year, month, day, hour, minute, second, nanosecond, offset_seconds,
                };
                match r {
                    Ok(v) => parts.validation_error() is None && v@ == parts,
                    Err(e) => parts.validation_error() == Some(e),
                }
            }),
    {
        validate_datetime(year, month, day, hour, minute, second, nanosecond, offset_seconds)?;
        Ok(DateTimeValue { year, month, day, hour, minute, second, nanosecond, offset_seconds })
    }

    /// A datetime from components already known to be valid.
    pub(crate) fn from_valid_parts(
        year: i32,
        month: u8,
        day: u8,
        hour: u8,
        minute: u8,
        second: u8,
        nanosecond: u32,
        offset_seconds: Option<i32>,
    ) -> (r: Self)
        requires
            (DateTimeParts {
                year, month, day, hour, minute, second, nanosecond, offset_seconds,
            }).is_valid(),
        ensures
            r@ == (DateTimeParts {
                year, month, day, hour, minute, second, nanosecond, offset_seconds,
            }),
    {
        DateTimeValue { year, month, day, hour, minute, second, nanosecond, offset_seconds }
    }

    /// Returns the year component.
    pub fn year(&self) -> (r: i32)
        ensures
            r == self@.year,
            self@.is_valid(),
    {
        proof {
            use_type_invariant(self);
        }
        self.year
    }

    /// Returns the month component.
    pub fn month(&self) -> (r: u8)
        ensures
            r == self@.month,
            self@.is_valid(),
    {
        proof {
            use_type_invariant(self);
        }
        self.month
    }

    /// Returns the day-of-month component.
    pub fn day(&self) -> (r: u8)
        ensures
            r == self@.day,
            self@.is_valid(),
    {
        proof {
            use_type_invariant(self);
        }
        self.day
    }

    /// Returns the hour component.
    pub fn hour(&self) -> (r: u8)
        ensures
            r == self@.hour,
            self@.is_valid(),
    {
        proof {
            use_type_invariant(self);
        }
        self.hour
    }

    /// Returns the minute component.
    pub fn minute(&self) -> (r: u8)
        ensures
            r == self@.minute,
            self@.is_valid(),
    {
        proof {
            use_type_invariant(self);
        }
        self.minute
    }

    /// Returns the second component.
    pub fn second(&self) -> (r: u8)
        ensures
            r == self@.second,
            self@.is_valid(),
    {
        proof {
            use_type_invariant(self);
        }
        self.second
    }

    /// Returns the fractional nanoseconds component.
    pub fn nanosecond(&self) -> (r: u32)
        ensures
            r == self@.nanosecond,
            self@.is_valid(),
    {
        proof {
            use_type_invariant(self);
        }
        self.nanosecond
    }

    /// Returns the offset from UTC in seconds, or `None` for naive datetimes.
    pub fn offset_seconds(&self) -> (r: Option<i32>)
        ensures
            r == self@.offset_seconds,
            self@.is_valid(),
    {
        proof {
            use_type_invariant(self);
        }
        self.offset_seconds
    }
}

/// Checks the components of a datetime in the order month, day, hour,
/// minute, second, nanosecond, offset, and reports the first that fails.
pub fn validate_datetime(
    year: i32,
    month: u8,
    day: u8,
    hour: u8,
    minute: u8,
    second: u8,
    nanosecond: u32,
    offset_seconds: Option<i32>,
) -> (r: Result<(), TemporalValueError>)
    ensures
        ({
            let parts = DateTimeParts {
                year, month, day, hour, minute, second, nanosecond, offset_seconds,
            };
            match r {
                Ok(_) => parts.validation_error() is None,
                Err(e) => parts.validation_error() == Some(e),
            }
        }),
{
    if !(1 <= month && month <= 12) {
        return Err(TemporalValueError::InvalidMonth(month));
    }
    let max_day = days_in_month(year, month);
    if day == 0 || day > max_day {
        return Err(TemporalValueError::InvalidDay { year, month, day });
    }
    if hour > 23 {
        return Err(TemporalValueError::InvalidHour(hour));
    }
    if minute > 59 {
        return Err(TemporalValueError::InvalidMinute(minute));
    }
    if second > 59 {
        return Err(TemporalValueError::InvalidSecond(second));
    }
    if nanosecond >= 1_000_000_000 {
        return Err(TemporalValueError::InvalidNanosecond(nanosecond));
    }
    if let Some(off) = offset_seconds {
        if !(-86_399 <= off && off <= 86_399) {
            return Err(TemporalValueError::InvalidOffsetSeconds(off));
        }
    }
    Ok(())
}

/// A temporal leaf stored inside a value tree.
#[derive(Clone, Copy, Debug, PartialEq, Eq, Structural)]
pub enum TemporalValue {
    /// A calendar date and time with an optional UTC offset.
    DateTime(DateTimeValue),
}

impl TemporalValue {
    /// Creates a validated datetime temporal value.
    pub fn datetime(
        year: i32,
        month: u8,
        day: u8,
        hour: u8,
        minute: u8,
        second: u8,
        nanosecond: u32,
        offset_seconds: Option<i32>,
    ) -> (r: Result<Self, TemporalValueError>)
        ensures
            ({
                let parts = DateTimeParts {
                    year, month, day, hour, minute, second, nanosecond, offset_seconds,
                };
                match r {
                    Ok(TemporalValue::DateTime(v)) => parts.validation_error() is None && v@ == parts,
                    Err(e) => parts.validation_error() == Some(e),
                }
            }),
    {
        let value = DateTimeValue::new(
            year, month, day, hour, minute, second, nanosecond, offset_seconds,
        )?;
        Ok(TemporalValue::DateTime(value))
    }

    /// Returns the contained datetime value when this temporal is a datetime.
    pub fn as_datetime(&self) -> (r: Option<&DateTimeValue>)
        ensures
            r == Some(&self->DateTime_0),
    {
        match self {
            TemporalValue::DateTime(value) => Some(value),
        }
    }
}


// ---------------------------------------------------------------------------
// Text model shared by the parser and the formatter.
// ---------------------------------------------------------------------------

/// An ASCII decimal digit byte.
pub open spec fn is_digit_byte(c: u8) -> bool {
    48 <= c <= 57
}

/// Every byte of `s` is an ASCII decimal digit.
pub open spec fn all_digits(s: Seq<u8>) -> bool {
    forall|i: int| 0 <= i < s.len() ==> is_digit_byte(#[trigger] s[i])
}

/// The value of a run of ASCII decimal digits, most significant first.
pub open spec fn decimal_value(s: Seq<u8>) -> nat
    decreases s.len(),
{
    if s.len() == 0 {
        0
    } else {
        decimal_value(s.drop_last()) * 10 + (s.last() - 48) as nat
    }
}

/// `10` raised to `n`.
pub open spec fn pow10(n: nat) -> nat
    decreases n,
{
    if n == 0 {
        1
    } else {
        10 * pow10((n - 1) as nat)
    }
}

/// The first position at or after `i` that does not hold a digit.
pub open spec fn digit_run_end(b: Seq<u8>, i: int) -> int
    decreases b.len() - i,
{
    if i < 0 || i >= b.len() || !is_digit_byte(b[i]) {
        i
    } else {
        digit_run_end(b, i + 1)
    }
}

/// Two digits stand at `i` and `i + 1`.
pub open spec fn two_digits_at(b: Seq<u8>, i: int) -> bool {
    0 <= i && i + 2 <= b.len() && is_digit_byte(b[i]) && is_digit_byte(b[i + 1])
}

/// The value of the two digits at `i`.
pub open spec fn two_digit_value(b: Seq<u8>, i: int) -> int {
    (b[i] - 48) * 10 + (b[i + 1] - 48)
}

/// The byte `c` stands at position `i`.
pub open spec fn byte_at(b: Seq<u8>, i: int, c: u8) -> bool {
    0 <= i < b.len() && b[i] == c
}

/// The date part `[+-]?YYYY+-MM-DD`: a signed year of at least four digits
/// that fits in `i32`, then two-digit month and day.
pub open spec fn spec_parse_date(b: Seq<u8>) -> Result<(i32, u8, u8), TemporalValueError> {
    let s: int = if byte_at(b, 0, 43) || byte_at(b, 0, 45) { 1 } else { 0 };
    let k = digit_run_end(b, s);
    let magnitude = decimal_value(b.subrange(s, k)) as int;
    let year: int = if byte_at(b, 0, 45) { -magnitude } else { magnitude };
    if b.len() == k + 6 && k - s >= 4 && byte_at(b, k, 45) && two_digits_at(b, k + 1)
        && byte_at(b, k + 3, 45) && two_digits_at(b, k + 4) && i32::MIN <= year <= i32::MAX {
        Ok((year as i32, two_digit_value(b, k + 1) as u8, two_digit_value(b, k + 4) as u8))
    } else {
        Err(TemporalValueError::InvalidFormat)
    }
}

/// An optional fraction `.D{1,9}` at `p`: its value in nanoseconds and the
/// position after it; `None` when a dot is followed by no digits or by more
/// than nine.
pub open spec fn spec_fraction(b: Seq<u8>, p: int) -> Option<(u32, int)> {
    if byte_at(b, p, 46) {
        let e = digit_run_end(b, p + 1);
        let k = e - (p + 1);
        if 1 <= k <= 9 {
            Some(((decimal_value(b.subrange(p + 1, e)) * pow10((9 - k) as nat)) as u32, e))
        } else {
            None
        }
    } else {
        Some((0, p))
    }
}

/// A signed offset `(+|-)HH:MM(:SS)?` at `i`: its value in seconds and the
/// position after it.
pub open spec fn spec_offset_at(b: Seq<u8>, i: int) -> Option<(int, int)> {
    if (byte_at(b, i, 43) || byte_at(b, i, 45)) && two_digits_at(b, i + 1) && byte_at(b, i + 3, 58)
        && two_digits_at(b, i + 4) {
        let hm = two_digit_value(b, i + 1) * 3600 + two_digit_value(b, i + 4) * 60;
        if byte_at(b, i + 6, 58) {
            if two_digits_at(b, i + 7) {
                let total = hm + two_digit_value(b, i + 7);
                Some((if b[i] == 45 { -total } else { total }, i + 9))
            } else {
                None
            }
        } else {
            Some((if b[i] == 45 { -hm } else { hm }, i + 6))
        }
    } else {
        None
    }
}

/// The end of a time part from `p`: nothing (naive), `Z`, or a signed offset.
pub open spec fn spec_offset_tail(b: Seq<u8>, p: int) -> Option<Option<i32>> {
    if p == b.len() {
        Some(None)
    } else if byte_at(b, p, 90) {
        if p + 1 == b.len() {
            Some(Some(0i32))
        } else {
            None
        }
    } else if byte_at(b, p, 43) || byte_at(b, p, 45) {
        match spec_offset_at(b, p) {
            Some((v, n)) => if n == b.len() {
                Some(Some(v as i32))
            } else {
                None
            },
            None => None,
        }
    } else {
        None
    }
}

/// The time part `HH:MM:SS(.F{1,9})?(Z|(+|-)HH:MM(:SS)?)?`.
pub open spec fn spec_parse_time(b: Seq<u8>) -> Result<(u8, u8, u8, u32, Option<i32>), TemporalValueError> {
    if two_digits_at(b, 0) && byte_at(b, 2, 58) && two_digits_at(b, 3) && byte_at(b, 5, 58)
        && two_digits_at(b, 6) {
        match spec_fraction(b, 8) {
            Some((ns, p)) => match spec_offset_tail(b, p) {
                Some(off) => Ok(
                    (
                        two_digit_value(b, 0) as u8,
                        two_digit_value(b, 3) as u8,
                        two_digit_value(b, 6) as u8,
                        ns,
                        off,
                    ),
                ),
                None => Err(TemporalValueError::InvalidFormat),
            },
            None => Err(TemporalValueError::InvalidFormat),
        }
    } else {
        Err(TemporalValueError::InvalidFormat)
    }
}

/// The position of the first `T` byte at or after `i`.
pub open spec fn find_t(b: Seq<u8>, i: int) -> Option<int>
    decreases b.len() - i,
{
    if i < 0 || i >= b.len() {
        None
    } else if b[i] == 84 {
        Some(i)
    } else {
        find_t(b, i + 1)
    }
}

/// A whole datetime: date, `T`, time, then component validation.
pub open spec fn spec_parse_datetime(b: Seq<u8>) -> Result<DateTimeParts, TemporalValueError> {
    match find_t(b, 0) {
        None => Err(TemporalValueError::InvalidFormat),
        Some(t) => match spec_parse_date(b.subrange(0, t)) {
            Err(e) => Err(e),
            Ok((year, month, day)) => match spec_parse_time(b.subrange(t + 1, b.len() as int)) {
                Err(e) => Err(e),
                Ok((hour, minute, second, nanosecond, offset_seconds)) => {
                    let parts = DateTimeParts {
                        year, month, day, hour, minute, second, nanosecond, offset_seconds,
                    };
                    match parts.validation_error() {
                        Some(e) => Err(e),
                        None => Ok(parts),
                    }
                },
            },
        },
    }
}

// ---------------------------------------------------------------------------
// Lemmas on digit runs.
// ---------------------------------------------------------------------------

/// Appending one digit multiplies the value by ten and adds the digit.
pub proof fn lemma_decimal_push(s: Seq<u8>, c: u8)
    ensures
        decimal_value(s.push(c)) == decimal_value(s) * 10 + (c - 48) as nat,
{
    assert(s.push(c).drop_last() =~= s);
}

/// A digit run of length `n` is worth less than `10^n`.
pub proof fn lemma_decimal_bound(s: Seq<u8>)
    requires
        all_digits(s),
    ensures
        decimal_value(s) < pow10(s.len()),
    decreases s.len(),
{
    if s.len() > 0 {
        let d = s.drop_last();
        assert(all_digits(d)) by {
            assert forall|i: int| 0 <= i < d.len() implies is_digit_byte(#[trigger] d[i]) by {
                assert(d[i] == s[i]);
            }
        }
        lemma_decimal_bound(d);
        assert(is_digit_byte(s[s.len() - 1]));
    }
}

/// Extending a digit run never lowers its value.
pub proof fn lemma_decimal_prefix_le(s: Seq<u8>, j: int)
    requires
        all_digits(s),
        0 <= j <= s.len(),
    ensures
        decimal_value(s.subrange(0, j)) <= decimal_value(s),
    decreases s.len() - j,
{
    if j < s.len() {
        lemma_decimal_prefix_le(s, j + 1);
        assert(s.subrange(0, j + 1) =~= s.subrange(0, j).push(s[j]));
        lemma_decimal_push(s.subrange(0, j), s[j]);
        assert(is_digit_byte(s[j]));
    } else {
        assert(s.subrange(0, j) =~= s);
    }
}

/// Two digits at `i` are worth their two-digit value.
pub proof fn lemma_two_digits(b: Seq<u8>, i: int)
    requires
        two_digits_at(b, i),
    ensures
        decimal_value(b.subrange(i, i + 2)) == two_digit_value(b, i),
        two_digit_value(b, i) <= 99,
{
    let s = b.subrange(i, i + 2);
    assert(s.drop_last().drop_last() =~= Seq::<u8>::empty());
    assert(s.drop_last() =~= seq![b[i]]);
    assert(decimal_value(s.drop_last()) == (b[i] - 48) as nat) by {
        reveal_with_fuel(decimal_value, 2);
    }
    assert(s.last() == b[i + 1]);
}

// ---------------------------------------------------------------------------
// Executable parser.
// ---------------------------------------------------------------------------

fn is_digit(c: u8) -> (r: bool)
    ensures
        r == is_digit_byte(c),
{
    48 <= c && c <= 57
}

/// The value of the digits in `bytes[start..end]` when it is at most `limit`.
fn decimal_at_most(bytes: &[u8], start: usize, end: usize, limit: u64) -> (r: Option<u64>)
    requires
        start <= end <= bytes@.len(),
        all_digits(bytes@.subrange(start as int, end as int)),
        limit <= 1_000_000_000_000_000_000,
    ensures
        match r {
            Some(v) => v == decimal_value(bytes@.subrange(start as int, end as int)) && v <= limit,
            None => decimal_value(bytes@.subrange(start as int, end as int)) > limit,
        },
{
    let ghost whole = bytes@.subrange(start as int, end as int);
    let mut acc: u64 = 0;
    let mut i = start;
    while i < end
        invariant
            start <= i <= end <= bytes@.len(),
            whole == bytes@.subrange(start as int, end as int),
            all_digits(whole),
            acc == decimal_value(bytes@.subrange(start as int, i as int)),
            acc <= limit,
            limit <= 1_000_000_000_000_000_000,
        decreases end - i,
    {
        let c = bytes[i];
        assert(is_digit_byte(c)) by {
            assert(whole[i - start] == c);
        }
        proof {
            assert(bytes@.subrange(start as int, i + 1) =~= bytes@.subrange(start as int, i as int).push(c));
            lemma_decimal_push(bytes@.subrange(start as int, i as int), c);
        }
        acc = acc * 10 + (c - 48) as u64;
        i = i + 1;
        if acc > limit {
            proof {
                assert(whole.subrange(0, i - start) =~= bytes@.subrange(start as int, i as int));
                lemma_decimal_prefix_le(whole, i - start);
            }
            return None;
        }
    }
    Some(acc)
}

/// Reads exactly `width` digits at `*index` as a `u8`.
///
/// The index moves past the digits once they are all present and are all
/// ASCII digits, even when their value does not fit in a `u8`.
pub fn parse_u8_exact(bytes: &[u8], index: &mut usize, width: usize) -> (r: Result<u8, TemporalValueError>)
    ensures
        ({
            let start = *old(index) as int;
            let end = if start + width > usize::MAX { usize::MAX as int } else { start + width };
            if end > bytes@.len() || !all_digits(bytes@.subrange(start, end)) {
                r == Err::<u8, TemporalValueError>(TemporalValueError::InvalidFormat)
                    && *final(index) == *old(index)
            } else {
                let v = decimal_value(bytes@.subrange(start, end));
                &&& *final(index) == end
                &&& if width == 0 || v > 255 {
                    r == Err::<u8, TemporalValueError>(TemporalValueError::InvalidFormat)
                } else {
                    r == Ok::<u8, TemporalValueError>(v as u8)
                }
            }
        }),
{
    let end = index.saturating_add(width);
    assert(end as int == if *index + width > usize::MAX { usize::MAX as int } else { *index + width });
    if end > bytes.len() {
        return Err(TemporalValueError::InvalidFormat);
    }
    let start = *index;
    let mut i = start;
    while i < end
        invariant
            start <= i <= end <= bytes@.len(),
            all_digits(bytes@.subrange(start as int, i as int)),
            *index == start,
            start == *old(index),
            end as int == if start + width > usize::MAX { usize::MAX as int } else { start + width },
        decreases end - i,
    {
        if !is_digit(bytes[i]) {
            assert(!is_digit_byte(bytes@.subrange(start as int, end as int)[i - start]));
            assert(!all_digits(bytes@.subrange(start as int, end as int)));
            return Err(TemporalValueError::InvalidFormat);
        }
        i = i + 1;
        assert(all_digits(bytes@.subrange(start as int, i as int))) by {
            assert forall|j: int| 0 <= j < i - start implies is_digit_byte(
                #[trigger] bytes@.subrange(start as int, i as int)[j],
            ) by {
                if j < i - 1 - start {
                    assert(bytes@.subrange(start as int, i - 1)[j] == bytes@.subrange(
                        start as int,
                        i as int,
                    )[j]);
                }
            }
        }
    }
    *index = end;
    if width == 0 {
        return Err(TemporalValueError::InvalidFormat);
    }
    match decimal_at_most(bytes, start, end, 255) {
        Some(v) => Ok(v as u8),
        None => Err(TemporalValueError::InvalidFormat),
    }
}

/// Consumes `expected` at `*index`.
pub fn expect_byte(bytes: &[u8], index: &mut usize, expected: u8) -> (r: Result<(), TemporalValueError>)
    ensures
        if byte_at(bytes@, *old(index) as int, expected) {
            r == Ok::<(), TemporalValueError>(()) && *final(index) == *old(index) + 1
        } else {
            r == Err::<(), TemporalValueError>(TemporalValueError::InvalidFormat)
                && *final(index) == *old(index)
        },
{
    if *index >= bytes.len() || bytes[*index] != expected {
        return Err(TemporalValueError::InvalidFormat);
    }
    *index = *index + 1;
    Ok(())
}


/// Two digits at `i` are exactly a two-byte all-digit window.
proof fn lemma_two_digits_window(b: Seq<u8>, i: int)
    requires
        0 <= i,
    ensures
        two_digits_at(b, i) <==> (i + 2 <= b.len() && all_digits(b.subrange(i, i + 2))),
{
    if i + 2 <= b.len() {
        let w = b.subrange(i, i + 2);
        assert(w[0] == b[i]);
        assert(w[1] == b[i + 1]);
    }
}

/// `10^n` grows with `n`.
proof fn lemma_pow10_mono(a: nat, b: nat)
    requires
        a <= b,
    ensures
        pow10(a) <= pow10(b),
    decreases b - a,
{
    if a < b {
        lemma_pow10_mono(a, (b - 1) as nat);
    }
}

/// Reads two digits at `*index`, which must all be present.
fn two_digits(bytes: &[u8], index: &mut usize) -> (r: Result<u8, TemporalValueError>)
    ensures
        if two_digits_at(bytes@, *old(index) as int) {
            r == Ok::<u8, TemporalValueError>(two_digit_value(bytes@, *old(index) as int) as u8)
                && *final(index) == *old(index) + 2
        } else {
            r == Err::<u8, TemporalValueError>(TemporalValueError::InvalidFormat)
        },
{
    if *index > bytes.len() || bytes.len() - *index < 2 {
        return Err(TemporalValueError::InvalidFormat);
    }
    proof {
        lemma_two_digits_window(bytes@, *index as int);
        if two_digits_at(bytes@, *index as int) {
            lemma_two_digits(bytes@, *index as int);
        }
    }
    parse_u8_exact(bytes, index, 2)
}

/// The end of the digit run that starts at `start`.
fn scan_digits(bytes: &[u8], start: usize) -> (end: usize)
    requires
        start <= bytes@.len(),
    ensures
        end as int == digit_run_end(bytes@, start as int),
        start <= end <= bytes@.len(),
        all_digits(bytes@.subrange(start as int, end as int)),
{
    let mut i = start;
    while i < bytes.len() && is_digit(bytes[i])
        invariant
            start <= i <= bytes@.len(),
            digit_run_end(bytes@, i as int) == digit_run_end(bytes@, start as int),
            all_digits(bytes@.subrange(start as int, i as int)),
        decreases bytes@.len() - i,
    {
        i = i + 1;
        assert(all_digits(bytes@.subrange(start as int, i as int))) by {
            assert forall|j: int| 0 <= j < i - start implies is_digit_byte(
                #[trigger] bytes@.subrange(start as int, i as int)[j],
            ) by {
                if j < i - 1 - start {
                    assert(bytes@.subrange(start as int, i - 1)[j] == bytes@.subrange(
                        start as int,
                        i as int,
                    )[j]);
                }
            }
        }
    }
    i
}

/// Reads a signed UTC offset `(+|-)HH:MM(:SS)?` at `*index`, in seconds.
pub fn parse_offset(bytes: &[u8], index: &mut usize) -> (r: Result<i32, TemporalValueError>)
    ensures
        match r {
            Ok(v) => spec_offset_at(bytes@, *old(index) as int) == Some(
                (v as int, *final(index) as int),
            ),
            Err(e) => e == TemporalValueError::InvalidFormat && spec_offset_at(
                bytes@,
                *old(index) as int,
            ) is None,
        },
{
    let ghost i0 = *index as int;
    let negative = if *index < bytes.len() && bytes[*index] == 43u8 {
        false
    } else if *index < bytes.len() && bytes[*index] == 45u8 {
        true
    } else {
        return Err(TemporalValueError::InvalidFormat);
    };
    *index = *index + 1;
    let hours = two_digits(bytes, index)?;
    expect_byte(bytes, index, 58u8)?;
    let minutes = two_digits(bytes, index)?;
    proof {
        lemma_two_digits(bytes@, i0 + 1);
        lemma_two_digits(bytes@, i0 + 4);
    }
    let seconds: i32 = if *index < bytes.len() && bytes[*index] == 58u8 {
        *index = *index + 1;
        let s = two_digits(bytes, index)?;
        proof {
            lemma_two_digits(bytes@, i0 + 7);
        }
        s as i32
    } else {
        0
    };
    let total = hours as i32 * 3_600 + minutes as i32 * 60 + seconds;
    if negative {
        Ok(-total)
    } else {
        Ok(total)
    }
}

/// Parses the date part `[+-]?YYYY+-MM-DD` of an ISO-8601 datetime.
fn parse_date_bytes(bytes: &[u8]) -> (r: Result<(i32, u8, u8), TemporalValueError>)
    ensures
        r == spec_parse_date(bytes@),
{
    let b = Ghost(bytes@);
    if bytes.len() == 0 {
        return Err(TemporalValueError::InvalidFormat);
    }
    let mut index: usize = 0;
    let negative = bytes[0] == 45u8;
    if bytes[0] == 43u8 || bytes[0] == 45u8 {
        index = 1;
    }
    let digit_start = index;
    index = scan_digits(bytes, digit_start);
    if index - digit_start < 4 {
        return Err(TemporalValueError::InvalidFormat);
    }
    if index >= bytes.len() || bytes[index] != 45u8 {
        return Err(TemporalValueError::InvalidFormat);
    }
    let ghost k = index as int;
    let magnitude = match decimal_at_most(bytes, digit_start, index, 2_147_483_648) {
        Some(m) => m,
        None => return Err(TemporalValueError::InvalidFormat),
    };
    let year: i32 = if negative {
        if magnitude == 2_147_483_648 {
            i32::MIN
        } else {
            -(magnitude as i32)
        }
    } else {
        if magnitude > 2_147_483_647 {
            return Err(TemporalValueError::InvalidFormat);
        }
        magnitude as i32
    };
    index = index + 1;
    let month = two_digits(bytes, &mut index)?;
    expect_byte(bytes, &mut index, 45u8)?;
    let day = two_digits(bytes, &mut index)?;
    if index != bytes.len() {
        return Err(TemporalValueError::InvalidFormat);
    }
    Ok((year, month, day))
}

/// Parses the date part `[+-]?YYYY+-MM-DD` of an ISO-8601 datetime.
pub fn parse_date(input: &str) -> (r: Result<(i32, u8, u8), TemporalValueError>)
    ensures
        r == spec_parse_date(input.spec_bytes()),
{
    parse_date_bytes(input.as_bytes())
}

/// Parses an optional fraction `.D{1,9}` at `*index`, in nanoseconds.
fn parse_fraction(bytes: &[u8], index: &mut usize) -> (r: Result<u32, TemporalValueError>)
    requires
        *old(index) <= bytes@.len(),
    ensures
        match spec_fraction(bytes@, *old(index) as int) {
            Some((ns, p)) => r == Ok::<u32, TemporalValueError>(ns) && *final(index) == p,
            None => r == Err::<u32, TemporalValueError>(TemporalValueError::InvalidFormat),
        },
        r is Ok ==> *final(index) <= bytes@.len(),
{
    if !(*index < bytes.len() && bytes[*index] == 46u8) {
        return Ok(0);
    }
    let start = *index + 1;
    let end = scan_digits(bytes, start);
    let count = end - start;
    if count == 0 || count > 9 {
        return Err(TemporalValueError::InvalidFormat);
    }
    proof {
        lemma_decimal_bound(bytes@.subrange(start as int, end as int));
        lemma_pow10_mono(count as nat, 9);
        assert(pow10(9) == 1_000_000_000) by {
            reveal_with_fuel(pow10, 10);
        }
    }
    let value = match decimal_at_most(bytes, start, end, 999_999_999) {
        Some(v) => v,
        None => return Err(TemporalValueError::InvalidFormat),
    };
    let mut nanosecond: u32 = value as u32;
    let mut k = count;
    assert(pow10((k - count) as nat) == 1);
    assert(value as int * 1 == value as int);
    while k < 9
        invariant
            count <= k <= 9,
            nanosecond as int == value as int * pow10((k - count) as nat),
            nanosecond < pow10(k as nat),
            value < pow10(count as nat),
        decreases 9 - k,
    {
        proof {
            lemma_pow10_mono((k + 1) as nat, 9);
            assert(pow10(9) == 1_000_000_000) by {
                reveal_with_fuel(pow10, 10);
            }
            let n = (k - count) as nat;
            assert(pow10(n + 1) == 10 * pow10(n));
            assert(value as int * pow10(n) * 10 == value as int * (10 * pow10(n))) by (nonlinear_arith);
            assert((k + 1 - count) as nat == n + 1);
        }
        nanosecond = nanosecond * 10;
        k = k + 1;
    }
    *index = end;
    Ok(nanosecond)
}

/// Parses the time part `HH:MM:SS(.F{1,9})?(Z|(+|-)HH:MM(:SS)?)?`.
fn parse_time_bytes(bytes: &[u8]) -> (r: Result<(u8, u8, u8, u32, Option<i32>), TemporalValueError>)
    ensures
        r == spec_parse_time(bytes@),
{
    let mut index: usize = 0;
    let hour = two_digits(bytes, &mut index)?;
    expect_byte(bytes, &mut index, 58u8)?;
    let minute = two_digits(bytes, &mut index)?;
    expect_byte(bytes, &mut index, 58u8)?;
    let second = two_digits(bytes, &mut index)?;
    let nanosecond = parse_fraction(bytes, &mut index)?;
    let offset_seconds = if index == bytes.len() {
        None
    } else if bytes[index] == 90u8 {
        index = index + 1;
        Some(0)
    } else if bytes[index] == 43u8 || bytes[index] == 45u8 {
        Some(parse_offset(bytes, &mut index)?)
    } else {
        return Err(TemporalValueError::InvalidFormat);
    };
    if index != bytes.len() {
        return Err(TemporalValueError::InvalidFormat);
    }
    Ok((hour, minute, second, nanosecond, offset_seconds))
}

/// Parses the time part `HH:MM:SS(.F{1,9})?(Z|(+|-)HH:MM(:SS)?)?`.
pub fn parse_time(input: &str) -> (r: Result<(u8, u8, u8, u32, Option<i32>), TemporalValueError>)
    ensures
        r == spec_parse_time(input.spec_bytes()),
{
    parse_time_bytes(input.as_bytes())
}


/// The position of the first `T` byte.
fn find_t_index(bytes: &[u8]) -> (r: Option<usize>)
    ensures
        match r {
            Some(t) => find_t(bytes@, 0) == Some(t as int) && t < bytes@.len(),
            None => find_t(bytes@, 0) is None,
        },
{
    let mut i: usize = 0;
    while i < bytes.len()
        invariant
            i <= bytes@.len(),
            find_t(bytes@, 0) == find_t(bytes@, i as int),
        decreases bytes@.len() - i,
    {
        if bytes[i] == 84u8 {
            return Some(i);
        }
        i = i + 1;
    }
    None
}

impl DateTimeValue {
    /// Parses a canonical ISO-8601 datetime string.
    pub fn parse_iso8601(input: &str) -> (r: Result<Self, TemporalValueError>)
        ensures
            match r {
                Ok(v) => spec_parse_datetime(input.spec_bytes()) == Ok::<DateTimeParts, TemporalValueError>(v@),
                Err(e) => spec_parse_datetime(input.spec_bytes()) == Err::<DateTimeParts, TemporalValueError>(e),
            },
    {
        let bytes = input.as_bytes();
        let n = bytes.len();
        let t = match find_t_index(bytes) {
            Some(t) => t,
            None => return Err(TemporalValueError::InvalidFormat),
        };
        let (year, month, day) = parse_date_bytes(&bytes[0..t])?;
        let (hour, minute, second, nanosecond, offset_seconds) = parse_time_bytes(
            &bytes[t + 1..n],
        )?;
        Self::new(year, month, day, hour, minute, second, nanosecond, offset_seconds)
    }
}

impl TemporalValue {
    /// Parses a canonical ISO-8601 datetime string into a temporal value.
    pub fn parse_iso8601(input: &str) -> (r: Result<Self, TemporalValueError>)
        ensures
            match r {
                Ok(TemporalValue::DateTime(v)) => spec_parse_datetime(input.spec_bytes()) == Ok::<DateTimeParts, TemporalValueError>(v@),
                Err(e) => spec_parse_datetime(input.spec_bytes()) == Err::<DateTimeParts, TemporalValueError>(e),
            },
    {
        let value = DateTimeValue::parse_iso8601(input)?;
        Ok(TemporalValue::DateTime(value))
    }
}

impl core::str::FromStr for DateTimeValue {
    type Err = TemporalValueError;

    /// Parses canonical ISO-8601 text, as [`DateTimeValue::parse_iso8601`].
    fn from_str(s: &str) -> (r: Result<Self, Self::Err>)
        ensures
            match r {
                Ok(v) => spec_parse_datetime(s.spec_bytes()) == Ok::<DateTimeParts, TemporalValueError>(v@),
                Err(e) => spec_parse_datetime(s.spec_bytes()) == Err::<DateTimeParts, TemporalValueError>(e),
            },
    {
        Self::parse_iso8601(s)
    }
}

impl core::str::FromStr for TemporalValue {
    type Err = TemporalValueError;

    /// Parses canonical ISO-8601 text, as [`TemporalValue::parse_iso8601`].
    fn from_str(s: &str) -> (r: Result<Self, Self::Err>)
        ensures
            match r {
                Ok(TemporalValue::DateTime(v)) => spec_parse_datetime(s.spec_bytes()) == Ok::<DateTimeParts, TemporalValueError>(v@),
                Err(e) => spec_parse_datetime(s.spec_bytes()) == Err::<DateTimeParts, TemporalValueError>(e),
            },
    {
        Self::parse_iso8601(s)
    }
}


// ---------------------------------------------------------------------------
// Canonical text of a datetime.
// ---------------------------------------------------------------------------

/// The characters of an ASCII byte sequence.
pub open spec fn ascii_chars(b: Seq<u8>) -> Seq<char> {
    b.map_values(|c: u8| c as char)
}

/// The ASCII byte of the decimal digit `d`.
pub open spec fn digit_byte(d: nat) -> u8 {
    (d + 48) as u8
}

/// The shortest decimal text of `n`.
pub open spec fn decimal_bytes(n: nat) -> Seq<u8>
    decreases n,
{
    if n < 10 {
        seq![digit_byte(n)]
    } else {
        decimal_bytes(n / 10).push(digit_byte(n % 10))
    }
}

/// `k` ASCII zeros.
pub open spec fn zero_bytes(k: nat) -> Seq<u8> {
    Seq::new(k, |i: int| 48u8)
}

/// The decimal text of `n`, left-padded with zeros to at least `width` digits.
pub open spec fn padded_bytes(n: nat, width: nat) -> Seq<u8> {
    let d = decimal_bytes(n);
    if d.len() >= width {
        d
    } else {
        zero_bytes((width - d.len()) as nat) + d
    }
}

/// The year as written in a datetime: four digits for `0..=9999`, otherwise
/// a sign and at least four (negative) or five (positive) digits.
pub open spec fn year_bytes(year: int) -> Seq<u8> {
    if 0 <= year <= 9999 {
        padded_bytes(year as nat, 4)
    } else if year < 0 {
        seq![45u8] + padded_bytes((-year) as nat, 4)
    } else {
        seq![43u8] + padded_bytes(year as nat, 5)
    }
}

/// `s` without its trailing `0` bytes.
pub open spec fn trim_zeros(s: Seq<u8>) -> Seq<u8>
    decreases s.len(),
{
    if s.len() > 0 && s.last() == 48 {
        trim_zeros(s.drop_last())
    } else {
        s
    }
}

/// The fraction of a second: nothing for zero, otherwise a dot and the
/// nine-digit nanoseconds without trailing zeros.
pub open spec fn fraction_bytes(nanosecond: nat) -> Seq<u8> {
    if nanosecond == 0 {
        seq![]
    } else {
        seq![46u8] + trim_zeros(padded_bytes(nanosecond, 9))
    }
}

/// The UTC offset: nothing for a naive datetime, `Z` for zero, otherwise a
/// sign, `HH:MM`, and `:SS` when the seconds are not zero.
pub open spec fn offset_bytes(offset_seconds: Option<i32>) -> Seq<u8> {
    match offset_seconds {
        None => seq![],
        Some(off) => if off == 0 {
            seq![90u8]
        } else {
            let a: int = if off < 0 { -off } else { off as int };
            let sign: u8 = if off < 0 { 45 } else { 43 };
            let hours = a / 3600;
            let minutes = (a % 3600) / 60;
            let seconds = a % 60;
            seq![sign] + padded_bytes(hours as nat, 2) + seq![58u8] + padded_bytes(minutes as nat, 2)
                + if seconds != 0 {
                seq![58u8] + padded_bytes(seconds as nat, 2)
            } else {
                seq![]
            }
        },
    }
}

/// The date part of the canonical text: `YYYY-MM-DD`.
pub open spec fn date_text(year: int, month: nat, day: nat) -> Seq<u8> {
    year_bytes(year) + seq![45u8] + padded_bytes(month, 2) + seq![45u8] + padded_bytes(day, 2)
}

/// The time part of the canonical text: `HH:MM:SS`, fraction, offset.
pub open spec fn time_text(hour: nat, minute: nat, second: nat, nanosecond: nat, offset_seconds: Option<i32>) -> Seq<u8> {
    padded_bytes(hour, 2) + seq![58u8] + padded_bytes(minute, 2) + seq![58u8] + padded_bytes(second, 2)
        + fraction_bytes(nanosecond) + offset_bytes(offset_seconds)
}

/// The canonical ISO-8601 text of a datetime.
pub open spec fn iso_bytes(p: DateTimeParts) -> Seq<u8> {
    date_text(p.year as int, p.month as nat, p.day as nat) + seq![84u8] + time_text(
        p.hour as nat,
        p.minute as nat,
        p.second as nat,
        p.nanosecond as nat,
        p.offset_seconds,
    )
}

/// Appends `c` to the end of `s` (`String::push`).
#[verifier::external_body]
pub(crate) fn push_char(s: &mut String, c: char)
    ensures
        final(s)@ == old(s)@.push(c),
{
    s.push(c);
}

/// Appends the characters of the ASCII bytes `b`.
pub(crate) fn push_ascii(s: &mut String, b: &Vec<u8>)
    ensures
        final(s)@ == old(s)@ + ascii_chars(b@),
{
    let mut i: usize = 0;
    while i < b.len()
        invariant
            i <= b@.len(),
            s@ == old(s)@ + ascii_chars(b@.subrange(0, i as int)),
        decreases b@.len() - i,
    {
        push_char(s, b[i] as char);
        proof {
            assert(ascii_chars(b@.subrange(0, i + 1)) =~= ascii_chars(b@.subrange(0, i as int)).push(
                b@[i as int] as char,
            ));
        }
        i = i + 1;
    }
    assert(b@.subrange(0, b@.len() as int) =~= b@);
}

/// Appends the shortest decimal digits of `n`.
pub(crate) fn push_decimal(v: &mut Vec<u8>, n: u64)
    ensures
        final(v)@ == old(v)@ + decimal_bytes(n as nat),
    decreases n,
{
    if n >= 10 {
        push_decimal(v, n / 10);
    }
    v.push((n % 10) as u8 + 48);
    proof {
        if n >= 10 {
            assert(decimal_bytes(n as nat) == decimal_bytes((n / 10) as nat).push(digit_byte((n % 10) as nat)));
        }
    }
}

/// The decimal digits of `n`, left-padded with zeros to `width` digits.
fn padded_digits(n: u64, width: usize) -> (r: Vec<u8>)
    ensures
        r@ == padded_bytes(n as nat, width as nat),
{
    let mut digits: Vec<u8> = Vec::with_capacity(10);
    push_decimal(&mut digits, n);
    assert(digits@ =~= decimal_bytes(n as nat));
    if digits.len() >= width {
        return digits;
    }
    let mut out: Vec<u8> = Vec::with_capacity(width);
    let zeros = width - digits.len();
    let mut i: usize = 0;
    while i < zeros
        invariant
            i <= zeros,
            out@ =~= zero_bytes(i as nat),
        decreases zeros - i,
    {
        out.push(48u8);
        i = i + 1;
    }
    let mut j: usize = 0;
    while j < digits.len()
        invariant
            j <= digits@.len(),
            out@ =~= zero_bytes(zeros as nat) + digits@.subrange(0, j as int),
        decreases digits@.len() - j,
    {
        out.push(digits[j]);
        j = j + 1;
    }
    out
}

/// Appends the year as written in a datetime.
fn push_year(bytes: &mut Vec<u8>, year: i32)
    ensures
        final(bytes)@ == old(bytes)@ + year_bytes(year as int),
{
    if 0 <= year && year <= 9_999 {
        let mut digits = padded_digits(year as u64, 4);
        bytes.append(&mut digits);
    } else if year < 0 {
        let absolute: u64 = (-(year as i64)) as u64;
        bytes.push(45u8);
        let mut digits = padded_digits(absolute, 4);
        bytes.append(&mut digits);
    } else {
        bytes.push(43u8);
        let mut digits = padded_digits(year as u64, 5);
        bytes.append(&mut digits);
    }
    assert(final(bytes)@ =~= old(bytes)@ + year_bytes(year as int));
}

/// Formats a year: four digits inside `0..=9999`, otherwise a sign and at
/// least four (negative) or five (positive) digits.
pub fn format_year(year: i32) -> (r: String)
    ensures
        r@ == ascii_chars(year_bytes(year as int)),
{
    let mut bytes: Vec<u8> = Vec::with_capacity(12);
    push_year(&mut bytes, year);
    assert(bytes@ =~= year_bytes(year as int));
    let mut s = String::default();
    push_ascii(&mut s, &bytes);
    s
}

/// The fraction of a second as written in a datetime.
fn fraction_digits(nanosecond: u32) -> (r: Vec<u8>)
    ensures
        r@ == fraction_bytes(nanosecond as nat),
{
    let mut out: Vec<u8> = Vec::with_capacity(10);
    if nanosecond == 0 {
        assert(out@ =~= fraction_bytes(nanosecond as nat));
        return out;
    }
    let mut digits = padded_digits(nanosecond as u64, 9);
    let ghost full = digits@;
    while digits.len() > 0 && digits[digits.len() - 1] == 48u8
        invariant
            trim_zeros(digits@) == trim_zeros(full),
        decreases digits@.len(),
    {
        let ghost before = digits@;
        digits.pop();
        assert(digits@ =~= before.drop_last());
    }
    out.push(46u8);
    out.append(&mut digits);
    assert(out@ =~= fraction_bytes(nanosecond as nat));
    out
}

/// The UTC offset as written in a datetime.
fn offset_digits(offset_seconds: Option<i32>) -> (r: Vec<u8>)
    requires
        offset_seconds matches Some(off) ==> -86_399 <= off <= 86_399,
    ensures
        r@ == offset_bytes(offset_seconds),
{
    let mut out: Vec<u8> = Vec::with_capacity(9);
    match offset_seconds {
        None => {},
        Some(off) => {
            if off == 0 {
                out.push(90u8);
            } else {
                let absolute: u32 = if off < 0 { (-off) as u32 } else { off as u32 };
                out.push(if off < 0 { 45u8 } else { 43u8 });
                let mut hours = padded_digits((absolute / 3_600) as u64, 2);
                out.append(&mut hours);
                out.push(58u8);
                let mut minutes = padded_digits(((absolute % 3_600) / 60) as u64, 2);
                out.append(&mut minutes);
                if absolute % 60 != 0 {
                    out.push(58u8);
                    let mut seconds = padded_digits((absolute % 60) as u64, 2);
                    out.append(&mut seconds);
                }
            }
        },
    }
    assert(out@ =~= offset_bytes(offset_seconds));
    out
}

impl DateTimeValue {
    /// The bytes of the canonical ISO-8601 text of this datetime.
    fn iso_digits(&self) -> (r: Vec<u8>)
        ensures
            r@ == iso_bytes(self@),
    {
        proof {
            use_type_invariant(self);
        }
        let mut out: Vec<u8> = Vec::with_capacity(40);
        push_year(&mut out, self.year);
        out.push(45u8);
        let mut month = padded_digits(self.month as u64, 2);
        out.append(&mut month);
        out.push(45u8);
        let mut day = padded_digits(self.day as u64, 2);
        out.append(&mut day);
        out.push(84u8);
        let mut hour = padded_digits(self.hour as u64, 2);
        out.append(&mut hour);
        out.push(58u8);
        let mut minute = padded_digits(self.minute as u64, 2);
        out.append(&mut minute);
        out.push(58u8);
        let mut second = padded_digits(self.second as u64, 2);
        out.append(&mut second);
        let mut fraction = fraction_digits(self.nanosecond);
        out.append(&mut fraction);
        let mut offset = offset_digits(self.offset_seconds);
        out.append(&mut offset);
        assert(out@ =~= iso_bytes(self@));
        out
    }

    /// The canonical ISO-8601 text of this datetime, such as
    /// `2024-01-02T03:04:05.1234+01:00`.
    pub fn to_string(&self) -> (r: String)
        ensures
            r@ == ascii_chars(iso_bytes(self@)),
    {
        let bytes = self.iso_digits();
        let mut s = String::new();
        push_ascii(&mut s, &bytes);
        assert(s@ =~= ascii_chars(iso_bytes(self@)));
        s
    }
}

impl TemporalValue {
    /// The canonical ISO-8601 text of this temporal value.
    pub fn to_string(&self) -> (r: String)
        ensures
            r@ == ascii_chars(iso_bytes(self->DateTime_0@)),
    {
        match self {
            TemporalValue::DateTime(value) => value.to_string(),
        }
    }
}


// ---------------------------------------------------------------------------
// The canonical text parses back to the datetime it was made from.
// ---------------------------------------------------------------------------

proof fn lemma_all_digits_push(s: Seq<u8>, c: u8)
    requires
        all_digits(s),
        is_digit_byte(c),
    ensures
        all_digits(s.push(c)),
{
    assert forall|i: int| 0 <= i < s.push(c).len() implies is_digit_byte(#[trigger] s.push(c)[i]) by {
        if i < s.len() {
            assert(s.push(c)[i] == s[i]);
        }
    }
}

proof fn lemma_all_digits_concat(a: Seq<u8>, b: Seq<u8>)
    requires
        all_digits(a),
        all_digits(b),
    ensures
        all_digits(a + b),
{
    assert forall|i: int| 0 <= i < (a + b).len() implies is_digit_byte(#[trigger] (a + b)[i]) by {
        if i < a.len() {
            assert((a + b)[i] == a[i]);
        } else {
            assert((a + b)[i] == b[i - a.len()]);
        }
    }
}

/// The shortest decimal text of `n` is a nonempty digit run worth `n`.
pub(crate) proof fn lemma_decimal_bytes(n: nat)
    ensures
        all_digits(decimal_bytes(n)),
        decimal_bytes(n).len() >= 1,
        decimal_value(decimal_bytes(n)) == n,
    decreases n,
{
    if n >= 10 {
        lemma_decimal_bytes(n / 10);
        lemma_decimal_push(decimal_bytes(n / 10), digit_byte(n % 10));
        lemma_all_digits_push(decimal_bytes(n / 10), digit_byte(n % 10));
        assert(digit_byte(n % 10) == n % 10 + 48);
        assert((n / 10) * 10 + n % 10 == n);
    } else {
        let d = decimal_bytes(n);
        assert(d.drop_last() =~= Seq::<u8>::empty());
        assert(digit_byte(n) == n + 48);
        assert(decimal_value(d) == decimal_value(d.drop_last()) * 10 + (d.last() - 48) as nat);
    }
}

/// A number below `10^k` has at most `k` digits.
proof fn lemma_decimal_bytes_len(n: nat, k: nat)
    requires
        n < pow10(k),
        k >= 1,
    ensures
        decimal_bytes(n).len() <= k,
    decreases n,
{
    if n >= 10 {
        assert(k >= 2) by {
            if k == 1 {
                assert(pow10(1) == 10) by {
                    reveal_with_fuel(pow10, 2);
                }
            }
        }
        assert(n / 10 < pow10((k - 1) as nat));
        lemma_decimal_bytes_len(n / 10, (k - 1) as nat);
    }
}

/// The value of a concatenation of digit runs.
proof fn lemma_decimal_concat(a: Seq<u8>, b: Seq<u8>)
    ensures
        decimal_value(a + b) == decimal_value(a) * pow10(b.len()) + decimal_value(b),
    decreases b.len(),
{
    if b.len() == 0 {
        assert(a + b =~= a);
        assert(pow10(0) == 1);
        assert(decimal_value(b) == 0);
        assert(decimal_value(a) * 1 == decimal_value(a));
    } else {
        let b1 = b.drop_last();
        lemma_decimal_concat(a, b1);
        assert((a + b).drop_last() =~= a + b1);
        assert((a + b).last() == b.last());
        assert(decimal_value(a + b) == decimal_value(a + b1) * 10 + (b.last() - 48) as nat);
        assert(decimal_value(b) == decimal_value(b1) * 10 + (b.last() - 48) as nat);
        let x = decimal_value(a);
        let p = pow10(b1.len());
        assert(pow10(b.len()) == 10 * p);
        assert((x * p + decimal_value(b1)) * 10 == x * (10 * p) + decimal_value(b1) * 10)
            by (nonlinear_arith);
    }
}

proof fn lemma_zero_bytes(k: nat)
    ensures
        all_digits(zero_bytes(k)),
        decimal_value(zero_bytes(k)) == 0,
    decreases k,
{
    if k > 0 {
        lemma_zero_bytes((k - 1) as nat);
        assert(zero_bytes(k).drop_last() =~= zero_bytes((k - 1) as nat));
    }
}

/// Padded decimal text is a digit run worth `n` of length `max(width, digits)`.
proof fn lemma_padded(n: nat, width: nat)
    ensures
        all_digits(padded_bytes(n, width)),
        decimal_value(padded_bytes(n, width)) == n,
        padded_bytes(n, width).len() >= width,
        padded_bytes(n, width).len() >= 1,
        n < pow10(width) && width >= 1 ==> padded_bytes(n, width).len() == width,
{
    lemma_decimal_bytes(n);
    let d = decimal_bytes(n);
    if d.len() < width {
        let z = zero_bytes((width - d.len()) as nat);
        lemma_zero_bytes((width - d.len()) as nat);
        lemma_all_digits_concat(z, d);
        lemma_decimal_concat(z, d);
    }
    if n < pow10(width) && width >= 1 {
        lemma_decimal_bytes_len(n, width);
    }
}

/// Two-digit text of a number below one hundred.
proof fn lemma_padded_two(n: nat)
    requires
        n <= 99,
    ensures
        padded_bytes(n, 2).len() == 2,
        two_digits_at(padded_bytes(n, 2), 0),
        two_digit_value(padded_bytes(n, 2), 0) == n,
{
    assert(pow10(2) == 100) by {
        reveal_with_fuel(pow10, 3);
    }
    lemma_padded(n, 2);
    let b = padded_bytes(n, 2);
    assert(is_digit_byte(b[0]) && is_digit_byte(b[1]));
    lemma_two_digits(b, 0);
    assert(b.subrange(0, 2) =~= b);
}

/// The digit run that starts at `i` ends at the first non-digit `j`.
pub proof fn lemma_digit_run_end(b: Seq<u8>, i: int, j: int)
    requires
        0 <= i <= j <= b.len(),
        forall|k: int| i <= k < j ==> is_digit_byte(#[trigger] b[k]),
        j == b.len() || !is_digit_byte(b[j]),
    ensures
        digit_run_end(b, i) == j,
    decreases j - i,
{
    if i < j {
        lemma_digit_run_end(b, i + 1, j);
    }
}

/// No `T` between `i` and `j` means the search skips straight to `j`.
pub proof fn lemma_find_t_skip(b: Seq<u8>, i: int, j: int)
    requires
        0 <= i <= j <= b.len(),
        forall|k: int| i <= k < j ==> #[trigger] b[k] != 84,
    ensures
        find_t(b, i) == find_t(b, j),
    decreases j - i,
{
    if i < j {
        lemma_find_t_skip(b, i + 1, j);
    }
}

/// Dropping trailing zeros divides the value by a power of ten.
proof fn lemma_trim_zeros(s: Seq<u8>)
    requires
        all_digits(s),
    ensures
        trim_zeros(s).len() <= s.len(),
        trim_zeros(s) == s.subrange(0, trim_zeros(s).len() as int),
        decimal_value(trim_zeros(s)) * pow10((s.len() - trim_zeros(s).len()) as nat) == decimal_value(s),
        trim_zeros(s).len() == 0 || trim_zeros(s).last() != 48,
    decreases s.len(),
{
    if s.len() > 0 && s.last() == 48 {
        let d = s.drop_last();
        assert(all_digits(d)) by {
            assert forall|i: int| 0 <= i < d.len() implies is_digit_byte(#[trigger] d[i]) by {
                assert(d[i] == s[i]);
            }
        }
        lemma_trim_zeros(d);
        let t = trim_zeros(d);
        assert(t == s.subrange(0, t.len() as int)) by {
            assert(d.subrange(0, t.len() as int) =~= s.subrange(0, t.len() as int));
        }
        let k = (d.len() - t.len()) as nat;
        assert(pow10(k + 1) == 10 * pow10(k));
        assert((s.len() - t.len()) as nat == k + 1);
        assert(decimal_value(s) == decimal_value(d) * 10) by {
            assert(s.drop_last() =~= d);
        }
        assert(decimal_value(t) * (10 * pow10(k)) == decimal_value(t) * pow10(k) * 10)
            by (nonlinear_arith);
        assert(trim_zeros(s) == t);
        assert(decimal_value(t) * pow10(k) == decimal_value(d));
    } else {
        assert(s.subrange(0, s.len() as int) =~= s);
        assert(trim_zeros(s) == s);
        assert(pow10(0) == 1);
        assert(decimal_value(s) * 1 == decimal_value(s));
    }
}


/// The date part of the canonical text parses back to its components.
proof fn lemma_date_round_trip(y: i32, m: u8, d: u8)
    requires
        m <= 99,
        d <= 99,
    ensures
        spec_parse_date(date_text(y as int, m as nat, d as nat)) == Ok::<(i32, u8, u8), TemporalValueError>((y, m, d)),
{
    let yb = year_bytes(y as int);
    let mb = padded_bytes(m as nat, 2);
    let db = padded_bytes(d as nat, 2);
    let b = yb + seq![45u8] + mb + seq![45u8] + db;
    lemma_padded_two(m as nat);
    lemma_padded_two(d as nat);
    let magnitude: nat = if y < 0 { (-y) as nat } else { y as nat };
    let width: nat = if 0 <= y <= 9999 { 4 } else if y < 0 { 4 } else { 5 };
    let s: int = if 0 <= y <= 9999 { 0 } else { 1 };
    let digits = padded_bytes(magnitude, width);
    lemma_padded(magnitude, width);
    assert(yb.subrange(s, yb.len() as int) =~= digits);
    let k = yb.len() as int;
    assert(b.len() == k + 6);
    assert forall|i: int| s <= i < k implies is_digit_byte(#[trigger] b[i]) by {
        assert(b[i] == yb[i]);
        assert(yb[i] == digits[i - s]);
    }
    assert(b[k] == 45u8);
    lemma_digit_run_end(b, s, k);
    assert(b.subrange(s, k) =~= digits);
    if s == 0 {
        assert(b[0] == digits[0]);
        assert(!byte_at(b, 0, 43) && !byte_at(b, 0, 45));
    } else {
        assert(b[0] == yb[0]);
    }
    assert(b.subrange(k + 1, k + 3) =~= mb);
    assert(b[k + 1] == mb[0] && b[k + 2] == mb[1]);
    assert(b[k + 3] == 45u8);
    assert(b[k + 4] == db[0] && b[k + 5] == db[1]);
    assert(b =~= date_text(y as int, m as nat, d as nat));
}


/// Splitting an offset of at most a day into hours, minutes and seconds.
proof fn lemma_offset_split(a: int)
    requires
        0 < a <= 86_399,
    ensures
        (a / 3600) * 3600 + ((a % 3600) / 60) * 60 + a % 60 == a,
        a / 3600 <= 23,
        (a % 3600) / 60 <= 59,
        a % 60 <= 59,
{
    assert((a / 3600) * 3600 + ((a % 3600) / 60) * 60 + a % 60 == a) by (nonlinear_arith)
        requires
            0 < a,
    ;
    assert(a / 3600 <= 23) by (nonlinear_arith)
        requires
            0 < a <= 86_399,
    ;
    assert((a % 3600) / 60 <= 59) by (nonlinear_arith)
        requires
            0 < a,
    ;
}

/// The offset text starts with a byte that is neither a digit nor a dot.
proof fn lemma_offset_first_byte(off: Option<i32>)
    ensures
        offset_bytes(off).len() > 0 ==> {
            let c = offset_bytes(off)[0];
            c == 90 || c == 43 || c == 45
        },
{
}

/// The offset text reads back as the offset, wherever it starts.
proof fn lemma_offset_round_trip(prefix: Seq<u8>, off: Option<i32>)
    requires
        off matches Some(o) ==> -86_399 <= o <= 86_399,
    ensures
        spec_offset_tail(prefix + offset_bytes(off), prefix.len() as int) == Some(off),
{
    let o_b = offset_bytes(off);
    let t = prefix + o_b;
    let p = prefix.len() as int;
    match off {
        None => {
            assert(t =~= prefix);
        },
        Some(o) => {
            if o == 0 {
                assert(t[p] == 90u8);
            } else {
                let a: int = if o < 0 { -o } else { o as int };
                lemma_offset_split(a);
                let hours = a / 3600;
                let minutes = (a % 3600) / 60;
                let seconds = a % 60;
                lemma_padded_two(hours as nat);
                lemma_padded_two(minutes as nat);
                lemma_padded_two(seconds as nat);
                let hb = padded_bytes(hours as nat, 2);
                let mb = padded_bytes(minutes as nat, 2);
                let sb = padded_bytes(seconds as nat, 2);
                assert(t[p] == (if o < 0 { 45u8 } else { 43u8 }));
                assert(t[p + 1] == hb[0] && t[p + 2] == hb[1]);
                assert(t[p + 3] == 58u8);
                assert(t[p + 4] == mb[0] && t[p + 5] == mb[1]);
                if seconds != 0 {
                    assert(t.len() == p + 9);
                    assert(t[p + 6] == 58u8);
                    assert(t[p + 7] == sb[0] && t[p + 8] == sb[1]);
                } else {
                    assert(t.len() == p + 6);
                }
            }
        },
    }
}

/// The fraction text reads back as the nanoseconds, followed by the offset.
proof fn lemma_fraction_round_trip(prefix: Seq<u8>, ns: u32, off: Option<i32>)
    requires
        ns < 1_000_000_000,
    ensures
        spec_fraction(prefix + fraction_bytes(ns as nat) + offset_bytes(off), prefix.len() as int)
            == Some((ns, (prefix.len() + fraction_bytes(ns as nat).len()) as int)),
{
    let f = fraction_bytes(ns as nat);
    let o_b = offset_bytes(off);
    let t = prefix + f + o_b;
    let p = prefix.len() as int;
    lemma_offset_first_byte(off);
    if ns == 0 {
        assert(f.len() == 0);
        if o_b.len() > 0 {
            assert(t[p] == o_b[0]);
        }
    } else {
        assert(pow10(9) == 1_000_000_000) by {
            reveal_with_fuel(pow10, 10);
        }
        lemma_padded(ns as nat, 9);
        let full = padded_bytes(ns as nat, 9);
        lemma_trim_zeros(full);
        let tz = trim_zeros(full);
        let l = tz.len() as int;
        assert(l >= 1) by {
            if l == 0 {
                assert(decimal_value(tz) == 0);
                assert(0 * pow10((9 - l) as nat) == 0);
            }
        }
        assert forall|i: int| 0 <= i < l implies is_digit_byte(#[trigger] tz[i]) by {
            assert(tz[i] == full[i]);
        }
        assert(t[p] == 46u8);
        assert forall|i: int| p + 1 <= i < p + 1 + l implies is_digit_byte(#[trigger] t[i]) by {
            assert(t[i] == tz[i - p - 1]);
        }
        if o_b.len() > 0 {
            assert(t[p + 1 + l] == o_b[0]);
        }
        lemma_digit_run_end(t, p + 1, p + 1 + l);
        assert(t.subrange(p + 1, p + 1 + l) =~= tz);
    }
}

/// The time part of the canonical text parses back to its components.
proof fn lemma_time_round_trip(h: u8, mi: u8, sec: u8, ns: u32, off: Option<i32>)
    requires
        h <= 99,
        mi <= 99,
        sec <= 99,
        ns < 1_000_000_000,
        off matches Some(o) ==> -86_399 <= o <= 86_399,
    ensures
        spec_parse_time(time_text(h as nat, mi as nat, sec as nat, ns as nat, off)) == Ok::<(u8, u8, u8, u32, Option<i32>), TemporalValueError>((h, mi, sec, ns, off)),
{
    let hb = padded_bytes(h as nat, 2);
    let mb = padded_bytes(mi as nat, 2);
    let sb = padded_bytes(sec as nat, 2);
    let head = hb + seq![58u8] + mb + seq![58u8] + sb;
    let f = fraction_bytes(ns as nat);
    let t = head + f + offset_bytes(off);
    lemma_padded_two(h as nat);
    lemma_padded_two(mi as nat);
    lemma_padded_two(sec as nat);
    assert(head.len() == 8);
    assert(t[0] == hb[0] && t[1] == hb[1] && t[2] == 58u8);
    assert(t[3] == mb[0] && t[4] == mb[1] && t[5] == 58u8);
    assert(t[6] == sb[0] && t[7] == sb[1]);
    lemma_fraction_round_trip(head, ns, off);
    assert(head + f + offset_bytes(off) =~= (head + f) + offset_bytes(off));
    lemma_offset_round_trip(head + f, off);
    assert(t =~= time_text(h as nat, mi as nat, sec as nat, ns as nat, off));
}


/// Every byte is an ASCII byte.
pub open spec fn all_ascii(s: Seq<u8>) -> bool {
    forall|i: int| 0 <= i < s.len() ==> #[trigger] s[i] < 128
}

proof fn lemma_digits_ascii(s: Seq<u8>)
    requires
        all_digits(s),
    ensures
        all_ascii(s),
        forall|i: int| 0 <= i < s.len() ==> #[trigger] s[i] != 84,
{
    assert forall|i: int| 0 <= i < s.len() implies #[trigger] s[i] < 128 && s[i] != 84 by {
        assert(is_digit_byte(s[i]));
    }
}

proof fn lemma_ascii_concat(a: Seq<u8>, b: Seq<u8>)
    requires
        all_ascii(a),
        all_ascii(b),
    ensures
        all_ascii(a + b),
{
    assert forall|i: int| 0 <= i < (a + b).len() implies #[trigger] (a + b)[i] < 128 by {
        if i < a.len() {
            assert((a + b)[i] == a[i]);
        } else {
            assert((a + b)[i] == b[i - a.len()]);
        }
    }
}

/// The date text is ASCII and holds no `T`.
proof fn lemma_date_text(y: i32, m: u8, d: u8)
    requires
        m <= 99,
        d <= 99,
    ensures
        ({
            let date = date_text(y as int, m as nat, d as nat);
            all_ascii(date) && forall|i: int| 0 <= i < date.len() ==> #[trigger] date[i] != 84
        }),
{
    lemma_padded_two(m as nat);
    lemma_padded_two(d as nat);
    let yb = year_bytes(y as int);
    let mb = padded_bytes(m as nat, 2);
    let db = padded_bytes(d as nat, 2);
    let date = yb + seq![45u8] + mb + seq![45u8] + db;
    let magnitude: nat = if y < 0 { (-y) as nat } else { y as nat };
    let width: nat = if 0 <= y <= 9999 { 4 } else if y < 0 { 4 } else { 5 };
    lemma_padded(magnitude, width);
    lemma_padded(m as nat, 2);
    lemma_padded(d as nat, 2);
    lemma_digits_ascii(padded_bytes(magnitude, width));
    lemma_digits_ascii(mb);
    lemma_digits_ascii(db);
    assert(all_ascii(yb) && forall|i: int| 0 <= i < yb.len() ==> #[trigger] yb[i] != 84) by {
        if 0 <= y <= 9999 {
        } else {
            assert forall|i: int| 0 <= i < yb.len() implies #[trigger] yb[i] < 128 && yb[i] != 84 by {
                if i > 0 {
                    assert(yb[i] == padded_bytes(magnitude, width)[i - 1]);
                }
            }
        }
    }
    assert forall|i: int| 0 <= i < date.len() implies #[trigger] date[i] < 128 && date[i] != 84 by {
        if i < yb.len() {
            assert(date[i] == yb[i]);
        } else if i == yb.len() || i == yb.len() + 3 {
        } else if i < yb.len() + 3 {
            assert(date[i] == mb[i - yb.len() - 1]);
        } else {
            assert(date[i] == db[i - yb.len() - 4]);
        }
    }
}

/// The time text is ASCII.
proof fn lemma_time_text(h: u8, mi: u8, sec: u8, ns: u32, off: Option<i32>)
    requires
        h <= 99,
        mi <= 99,
        sec <= 99,
    ensures
        all_ascii(time_text(h as nat, mi as nat, sec as nat, ns as nat, off)),
{
    lemma_padded_two(h as nat);
    lemma_padded_two(mi as nat);
    lemma_padded_two(sec as nat);
    lemma_padded(h as nat, 2);
    lemma_padded(mi as nat, 2);
    lemma_padded(sec as nat, 2);
    lemma_digits_ascii(padded_bytes(h as nat, 2));
    lemma_digits_ascii(padded_bytes(mi as nat, 2));
    lemma_digits_ascii(padded_bytes(sec as nat, 2));
    lemma_time_ascii(ns, off);
    let head = padded_bytes(h as nat, 2) + seq![58u8] + padded_bytes(mi as nat, 2) + seq![58u8]
        + padded_bytes(sec as nat, 2);
    assert forall|i: int| 0 <= i < head.len() implies #[trigger] head[i] < 128 by {
        if i < 2 {
            assert(head[i] == padded_bytes(h as nat, 2)[i]);
        } else if i == 2 || i == 5 {
        } else if i < 5 {
            assert(head[i] == padded_bytes(mi as nat, 2)[i - 3]);
        } else {
            assert(head[i] == padded_bytes(sec as nat, 2)[i - 6]);
        }
    }
    lemma_ascii_concat(head, fraction_bytes(ns as nat));
    lemma_ascii_concat(head + fraction_bytes(ns as nat), offset_bytes(off));
    assert(head + fraction_bytes(ns as nat) + offset_bytes(off) =~= time_text(
        h as nat,
        mi as nat,
        sec as nat,
        ns as nat,
        off,
    ));
}

/// A `T` after a `T`-free date part is the first `T`.
proof fn lemma_split_at_t(date: Seq<u8>, time: Seq<u8>)
    requires
        forall|i: int| 0 <= i < date.len() ==> #[trigger] date[i] != 84,
    ensures
        find_t(date + seq![84u8] + time, 0) == Some(date.len() as int),
        (date + seq![84u8] + time).subrange(0, date.len() as int) == date,
        (date + seq![84u8] + time).subrange(
            date.len() as int + 1,
            (date + seq![84u8] + time).len() as int,
        ) == time,
{
    let b = date + seq![84u8] + time;
    assert forall|k: int| 0 <= k < date.len() implies #[trigger] b[k] != 84 by {
        assert(b[k] == date[k]);
    }
    lemma_find_t_skip(b, 0, date.len() as int);
    assert(b[date.len() as int] == 84u8);
    assert(b.subrange(0, date.len() as int) =~= date);
    assert(b.subrange(date.len() as int + 1, b.len() as int) =~= time);
}

/// ASCII on both sides of a `T` makes ASCII.
proof fn lemma_ascii_around_t(date: Seq<u8>, time: Seq<u8>)
    requires
        all_ascii(date),
        all_ascii(time),
    ensures
        all_ascii(date + seq![84u8] + time),
{
    lemma_ascii_concat(date, seq![84u8]);
    lemma_ascii_concat(date + seq![84u8], time);
}

/// The canonical text of a valid datetime parses back to the same datetime.
proof fn lemma_iso_round_trip(p: DateTimeParts)
    requires
        p.is_valid(),
    ensures
        spec_parse_datetime(iso_bytes(p)) == Ok::<DateTimeParts, TemporalValueError>(p),
        all_ascii(iso_bytes(p)),
{
    let date = date_text(p.year as int, p.month as nat, p.day as nat);
    let time = time_text(
        p.hour as nat,
        p.minute as nat,
        p.second as nat,
        p.nanosecond as nat,
        p.offset_seconds,
    );
    lemma_date_round_trip(p.year, p.month, p.day);
    lemma_time_round_trip(p.hour, p.minute, p.second, p.nanosecond, p.offset_seconds);
    lemma_date_text(p.year, p.month, p.day);
    lemma_time_text(p.hour, p.minute, p.second, p.nanosecond, p.offset_seconds);
    lemma_split_at_t(date, time);
    lemma_ascii_around_t(date, time);
}

/// The fraction and offset texts are ASCII.
proof fn lemma_time_ascii(ns: u32, off: Option<i32>)
    ensures
        all_ascii(fraction_bytes(ns as nat)),
        all_ascii(offset_bytes(off)),
{
    if ns != 0 {
        lemma_padded(ns as nat, 9);
        lemma_trim_zeros(padded_bytes(ns as nat, 9));
        let tz = trim_zeros(padded_bytes(ns as nat, 9));
        assert forall|i: int| 0 <= i < tz.len() implies #[trigger] tz[i] < 128 by {
            assert(tz[i] == padded_bytes(ns as nat, 9)[i]);
            assert(is_digit_byte(padded_bytes(ns as nat, 9)[i]));
        }
        assert forall|i: int| 0 <= i < fraction_bytes(ns as nat).len() implies #[trigger] fraction_bytes(ns as nat)[i] < 128 by {
            if i > 0 {
                assert(fraction_bytes(ns as nat)[i] == tz[i - 1]);
            }
        }
    }
    if let Some(o) = off {
        if o != 0 {
            let a: int = if o < 0 { -o } else { o as int };
            let hb = padded_bytes((a / 3600) as nat, 2);
            let mb = padded_bytes(((a % 3600) / 60) as nat, 2);
            let sb = padded_bytes((a % 60) as nat, 2);
            lemma_padded((a / 3600) as nat, 2);
            lemma_padded(((a % 3600) / 60) as nat, 2);
            lemma_padded((a % 60) as nat, 2);
            lemma_digits_ascii(hb);
            lemma_digits_ascii(mb);
            lemma_digits_ascii(sb);
            let sign: u8 = if o < 0 { 45 } else { 43 };
            lemma_ascii_concat(seq![sign], hb);
            lemma_ascii_concat(seq![sign] + hb, seq![58u8]);
            lemma_ascii_concat(seq![sign] + hb + seq![58u8], mb);
            lemma_ascii_concat(seq![58u8], sb);
            let tail: Seq<u8> = if a % 60 != 0 { seq![58u8] + sb } else { seq![] };
            lemma_ascii_concat(seq![sign] + hb + seq![58u8] + mb, tail);
        }
    }
}

/// Formatting a valid datetime and parsing the text back gives the same
/// datetime: `DateTimeValue::parse_iso8601(&v.to_string())` is `Ok(v)`.
pub proof fn law_iso_text_round_trip(p: DateTimeParts)
    requires
        p.is_valid(),
    ensures
        spec_parse_datetime(vstd::utf8::encode_utf8(ascii_chars(iso_bytes(p))))
            == Ok::<DateTimeParts, TemporalValueError>(p),
{
    lemma_iso_round_trip(p);
    let b = iso_bytes(p);
    let cs = ascii_chars(b);
    assert(vstd::utf8::is_ascii_chars(cs)) by {
        assert forall|i: int| 0 <= i < cs.len() implies '\0' <= #[trigger] cs[i] <= '\u{7f}' by {
            assert(cs[i] == b[i] as char);
            assert(b[i] < 128);
        }
    }
    vstd::utf8::is_ascii_chars_encode_utf8(cs);
    assert(vstd::utf8::encode_utf8(cs) =~= b) by {
        assert forall|i: int| 0 <= i < b.len() implies #[trigger] vstd::utf8::encode_utf8(cs)[i] == b[i] by {
            assert(cs[i] as u8 == vstd::utf8::encode_utf8(cs)[i]);
            assert(cs[i] == b[i] as char);
        }
    }
}


impl From<DateTimeValue> for TemporalValue {
    fn from(value: DateTimeValue) -> (r: Self) {
        TemporalValue::DateTime(value)
    }
}

impl vstd::std_specs::convert::FromSpecImpl<DateTimeValue> for TemporalValue {
    open spec fn obeys_from_spec() -> bool {
        true
    }

    open spec fn from_spec(value: DateTimeValue) -> Self {
        TemporalValue::DateTime(value)
    }
}

} // verus!
