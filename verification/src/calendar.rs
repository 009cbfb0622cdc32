//! The proleptic Gregorian calendar as the day keys of the usage report
//! write it: `%Y-%m-%d` texts and the Unix day each of them names.

use crate::text::zero_padded;
use vstd::prelude::*;

verus! {

/// Whether `y` is a leap year of the Gregorian calendar.
pub open spec fn is_leap_year(y: int) -> bool {
    (y % 4 == 0 && y % 100 != 0) || y % 400 == 0
}

/// The number of days of month `m` (1 to 12) of year `y`.
pub open spec fn month_length(y: int, m: int) -> int {
    if m == 2 {
        if is_leap_year(y) {
            29
        } else {
            28
        }
    } else if m == 4 || m == 6 || m == 9 || m == 11 {
        30
    } else {
        31
    }
}

/// Whether `y`-`m`-`d` is a day of the calendar.
pub open spec fn is_calendar_date(y: int, m: int, d: int) -> bool {
    1 <= m <= 12 && 1 <= d <= month_length(y, m)
}

/// The number of days from 1970-01-01 to the calendar day `y`-`m`-`d`
/// (negative before it): whole 400-year eras of 146097 days, then the years,
/// leap days and days of the era counted from March 1st.
pub open spec fn day_number(y: int, m: int, d: int) -> int {
    let yy = if m <= 2 {
        y - 1
    } else {
        y
    };
    let era = yy / 400;
    let year_of_era = yy - era * 400;
    let shifted_month = if m > 2 {
        m - 3
    } else {
        m + 9
    };
    let day_of_year = (153 * shifted_month + 2) / 5 + d - 1;
    let day_of_era = year_of_era * 365 + year_of_era / 4 - year_of_era / 100 + day_of_year;
    era * 146097 + day_of_era - 719468
}

/// `%Y` of year `y`: four digits for years 0 to 9999, else a sign and at
/// least four digits.
pub open spec fn year_text(y: int) -> Seq<char> {
    if 0 <= y <= 9999 {
        zero_padded(y as nat, 4)
    } else if y > 9999 {
        seq!['+'] + zero_padded(y as nat, 4)
    } else {
        seq!['-'] + zero_padded((-y) as nat, 4)
    }
}

/// `%Y-%m-%d` of the calendar day `y`-`m`-`d`.
pub open spec fn date_text(y: int, m: int, d: int) -> Seq<char> {
    year_text(y) + seq!['-'] + zero_padded(m as nat, 2) + seq!['-'] + zero_padded(d as nat, 2)
}

/// `text` is the `%Y-%m-%d` text of a calendar day at most one day away from
/// the UTC day that holds Unix second `secs`, as the day of `secs` is in any
/// time zone less than a day away from UTC.
pub open spec fn local_day_text(text: Seq<char>, secs: int) -> bool {
    exists|y: int, m: int, d: int|
        is_calendar_date(y, m, d) && #[trigger] date_text(y, m, d) == text && -1 <= day_number(y, m, d)
            - secs / 86400 <= 1
}

} // verus!
