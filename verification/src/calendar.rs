//! Laws of the Gregorian calendar that the datetime checks rely on.

use vstd::prelude::*;

use crate::temporal::{spec_days_in_month, spec_is_leap_year};

verus! {

/// The length of every month follows the closed form
/// `28 + (m + m / 8) % 2 + 2 % m + 2 * (1 / m)`, which gives 31 days to
/// January, March, May, July, August, October and December, 30 to April,
/// June, September and November, and 28 to February, which a leap year
/// lengthens by one.
pub proof fn law_month_length_closed_form(year: int, month: int)
    requires
        1 <= month <= 12,
    ensures
        spec_days_in_month(year, month) == 28 + (month + month / 8) % 2 + 2int % month + 2 * (1int
            / month) + if month == 2 && spec_is_leap_year(year) {
            1int
        } else {
            0int
        },
{
    if month == 1 {
        assert(28 + (1int + 1int / 8) % 2 + 2int % 1int + 2 * (1int / 1int) == 31);
    } else if month == 2 {
        assert(28 + (2int + 2int / 8) % 2 + 2int % 2int + 2 * (1int / 2int) == 28);
    } else if month == 3 {
        assert(28 + (3int + 3int / 8) % 2 + 2int % 3int + 2 * (1int / 3int) == 31);
    } else if month == 4 {
        assert(28 + (4int + 4int / 8) % 2 + 2int % 4int + 2 * (1int / 4int) == 30);
    } else if month == 5 {
        assert(28 + (5int + 5int / 8) % 2 + 2int % 5int + 2 * (1int / 5int) == 31);
    } else if month == 6 {
        assert(28 + (6int + 6int / 8) % 2 + 2int % 6int + 2 * (1int / 6int) == 30);
    } else if month == 7 {
        assert(28 + (7int + 7int / 8) % 2 + 2int % 7int + 2 * (1int / 7int) == 31);
    } else if month == 8 {
        assert(28 + (8int + 8int / 8) % 2 + 2int % 8int + 2 * (1int / 8int) == 31);
    } else if month == 9 {
        assert(28 + (9int + 9int / 8) % 2 + 2int % 9int + 2 * (1int / 9int) == 30);
    } else if month == 10 {
        assert(28 + (10int + 10int / 8) % 2 + 2int % 10int + 2 * (1int / 10int) == 31);
    } else if month == 11 {
        assert(28 + (11int + 11int / 8) % 2 + 2int % 11int + 2 * (1int / 11int) == 30);
    } else {
        assert(28 + (12int + 12int / 8) % 2 + 2int % 12int + 2 * (1int / 12int) == 31);
    }
}

/// The twelve months of a year hold 365 days, or 366 in a leap year, and
/// only months `1..=12` have days.
pub proof fn law_year_length(year: int)
    ensures
        spec_days_in_month(year, 1) + spec_days_in_month(year, 2) + spec_days_in_month(year, 3)
            + spec_days_in_month(year, 4) + spec_days_in_month(year, 5) + spec_days_in_month(year, 6)
            + spec_days_in_month(year, 7) + spec_days_in_month(year, 8) + spec_days_in_month(year, 9)
            + spec_days_in_month(year, 10) + spec_days_in_month(year, 11) + spec_days_in_month(
            year,
            12,
        ) == if spec_is_leap_year(year) {
            366int
        } else {
            365int
        },
        forall|m: int| !(1 <= m <= 12) ==> spec_days_in_month(year, m) == 0,
{
}

} // verus!
