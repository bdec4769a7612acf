//! Timestamps: seconds since 1 January 1970, and the calendar dates they
//! fall on.

use crate::text::{decimal, decimal_text};
use std::time::{Duration, SystemTime, SystemTimeError, UNIX_EPOCH};
use vstd::prelude::*;
use vstd::string::*;

verus! {

/// The last timestamp whose date this module gives: the last second of
/// 29 February 2147483600, where the last 400-year cycle ends whose years all
/// fit in an `i32`.
pub const MAX_TIMESTAMP: u64 = 67_767_974_723_951_999;

/// Whether `y` is a leap year of the Gregorian calendar.
pub open spec fn is_leap_year(y: int) -> bool {
    y % 4 == 0 && (y % 100 != 0 || y % 400 == 0)
}

/// The number of days of the month `m` of the year `y`.
pub open spec fn days_in_month(y: int, m: int) -> int {
    if m == 2 {
        if is_leap_year(y) {
            29
        } else {
            28
        }
    } else if m == 4 || m == 6 || m == 9 || m == 11 {
        30
    } else {
        31
    }
}

/// Whether year, month and day name a day of the Gregorian calendar.
pub open spec fn is_date(y: int, m: int, d: int) -> bool {
    1 <= m <= 12 && 1 <= d <= days_in_month(y, m)
}

/// The number of leap years from the year 1 through the year `y`.
pub open spec fn leap_years_through(y: int) -> int {
    y / 4 - y / 100 + y / 400
}

/// The number of days from 1 January 1970 to 1 January of the year `y`.
pub open spec fn days_before_year(y: int) -> int {
    365 * (y - 1970) + leap_years_through(y - 1) - leap_years_through(1969)
}

/// The number of days from 1 January of the year `y` to the first day of its
/// month `m`.
pub open spec fn days_before_month(y: int, m: int) -> int {
    let common = if m <= 1 {
        0int
    } else if m == 2 {
        31
    } else if m == 3 {
        59
    } else if m == 4 {
        90
    } else if m == 5 {
        120
    } else if m == 6 {
        151
    } else if m == 7 {
        181
    } else if m == 8 {
        212
    } else if m == 9 {
        243
    } else if m == 10 {
        273
    } else if m == 11 {
        304
    } else {
        334
    };
    if m > 2 && is_leap_year(y) {
        common + 1
    } else {
        common
    }
}

/// The number of days from 1 January 1970 to the given day.
pub open spec fn day_number(y: int, m: int, d: int) -> int {
    days_before_year(y) + days_before_month(y, m) + d - 1
}

/// The days from 1 March of a year that is a multiple of 400 to 1 March of
/// the year `yoe` years later.
spec fn days_before_year_of_era(yoe: int) -> int {
    365 * yoe + yoe / 4 - yoe / 100
}

/// The year of a 400-year era in which its day `doe` lies, counted from
/// 1 March, is found by the division below; the day lies at most 365 days
/// into that year, and exactly 365 only where the year ends on 29 February.
proof fn lemma_year_of_era(doe: int)
    requires
        0 <= doe <= 146096,
    ensures
        ({
            let yoe = (doe - doe / 1460 + doe / 36524 - doe / 146096) / 365;
            let doy = doe - days_before_year_of_era(yoe);
            &&& 0 <= yoe <= 399
            &&& 0 <= doy <= 365
            &&& doy == 365 ==> (yoe + 1) % 4 == 0 && ((yoe + 1) % 100 != 0 || yoe == 399)
        }),
{
}

/// The year `yoe` of the era `era` begins, on its 1 March, as many days after
/// 1 March of the year 0 as the eras and the years before it hold.
proof fn lemma_era_start(era: int, yoe: int)
    requires
        0 <= era,
        0 <= yoe <= 399,
    ensures
        day_number(yoe + 400 * era, 3, 1) + 719_468 == era * 146_097 + days_before_year_of_era(yoe),
{
    let y = yoe + 400 * era;
    assert(y / 4 == 100 * era + yoe / 4);
    assert(y / 100 == 4 * era + yoe / 100);
    assert(y / 400 == era);
    assert(leap_years_through(y) == leap_years_through(y - 1) + if is_leap_year(y) {
        1int
    } else {
        0int
    });
}

/// The days from 1 January to the first day of the month `m` in a year that
/// is no leap year.
spec fn common_days_before_month(m: int) -> int {
    days_before_month(1970, m)
}

/// The month, counted from March as 0, of the day that comes `doy` days after
/// 1 March: five months hold 153 days.
spec fn month_from_march(doy: int) -> int {
    (5 * doy + 2) / 153
}

/// The month of the day that comes `doy` days after 1 March.
spec fn month_of(doy: int) -> int {
    if month_from_march(doy) < 10 {
        month_from_march(doy) + 3
    } else {
        month_from_march(doy) - 9
    }
}

/// The day of its month of the day that comes `doy` days after 1 March.
spec fn day_of_month(doy: int) -> int {
    doy - (153 * month_from_march(doy) + 2) / 5 + 1
}

/// The months from March on have 31, 30, 31, 30, 31, 31, 30, 31, 30, 31, 31
/// days, and February takes what is left of the 366.
proof fn lemma_month_of_year(doy: int)
    requires
        0 <= doy <= 365,
    ensures
        0 <= month_from_march(doy) <= 11,
        1 <= day_of_month(doy) <= 31,
        month_of(doy) != 2 ==> day_of_month(doy) <= days_in_month(1970, month_of(doy)),
        month_of(doy) == 2 ==> day_of_month(doy) <= 29 && (day_of_month(doy) == 29 <==> doy == 365),
        month_of(doy) >= 3 ==> 59 + doy == common_days_before_month(month_of(doy)) + day_of_month(
            doy,
        ) - 1,
        month_of(doy) <= 2 ==> doy - 306 == common_days_before_month(month_of(doy)) + day_of_month(
            doy,
        ) - 1,
{
    let mp = month_from_march(doy);
    assert(0 <= mp <= 11);
    if mp == 0 {
    } else if mp == 1 {
    } else if mp == 2 {
    } else if mp == 3 {
    } else if mp == 4 {
    } else if mp == 5 {
    } else if mp == 6 {
    } else if mp == 7 {
    } else if mp == 8 {
    } else if mp == 9 {
    } else if mp == 10 {
    } else {
    }
}

/// A leap year adds one to the count of leap years.
proof fn lemma_leap_step(y: int)
    requires
        0 <= y,
    ensures
        leap_years_through(y) == leap_years_through(y - 1) + if is_leap_year(y) {
            1int
        } else {
            0int
        },
{
}

/// The days before a month in any year, by those in a common year.
proof fn lemma_days_before_month(y: int, m: int)
    ensures
        days_before_month(y, m) == common_days_before_month(m) + if m > 2 && is_leap_year(y) {
            1int
        } else {
            0int
        },
        m != 2 ==> days_in_month(y, m) == days_in_month(1970, m),
{
}

/// The month and the day of the day that lies `doy` days after 1 March of
/// the year `y`.
proof fn lemma_day_of_year(y: int, doy: int)
    requires
        0 <= y,
        0 <= doy <= 365,
        doy == 365 ==> is_leap_year(y + 1),
    ensures
        ({
            let year = if month_of(doy) <= 2 {
                y + 1
            } else {
                y
            };
            &&& is_date(year, month_of(doy), day_of_month(doy))
            &&& day_number(year, month_of(doy), day_of_month(doy)) == day_number(y, 3, 1) + doy
        }),
{
    lemma_month_of_year(doy);
    lemma_leap_step(y);
    let m = month_of(doy);
    let d = day_of_month(doy);
    lemma_days_before_month(y, 3);
    if m >= 3 {
        lemma_days_before_month(y, m);
    } else {
        lemma_days_before_month(y + 1, m);
        assert(days_before_year(y + 1) == day_number(y, 3, 1) + 306);
    }
}

/// The last day whose date this module gives, counted from 1 January 1970.
pub open spec fn max_day() -> int {
    784_351_559_304
}

/// The day of its 400-year era on which the day `days` falls; the eras are
/// counted from 1 March of the year 0.
spec fn day_of_era(days: int) -> int {
    (days + 719_468) % 146_097
}

/// The year of its era in which the day `days` falls, counted from 1 March.
spec fn year_of_era(days: int) -> int {
    let doe = day_of_era(days);
    (doe - doe / 1_460 + doe / 36_524 - doe / 146_096) / 365
}

/// The day `days` counted from the last 1 March.
spec fn day_of_year(days: int) -> int {
    day_of_era(days) - days_before_year_of_era(year_of_era(days))
}

/// The date of the day `days`, by eras, years from March to February, and
/// months of 153 days to five.
spec fn date_of_day(days: int) -> (int, int, int) {
    let era = (days + 719_468) / 146_097;
    let doy = day_of_year(days);
    let year = year_of_era(days) + era * 400 + if month_of(doy) <= 2 {
        1int
    } else {
        0int
    };
    (year, month_of(doy), day_of_month(doy))
}

/// Whether a year is a leap year shows in its place in its 400-year era.
proof fn lemma_leap_in_era(era: int, yoe: int)
    requires
        0 <= era,
        0 <= yoe <= 399,
    ensures
        is_leap_year(yoe + 400 * era + 1) <==> (yoe + 1) % 4 == 0 && ((yoe + 1) % 100 != 0 || yoe
            == 399),
{
    let y = yoe + 400 * era + 1;
    assert(y % 4 == (yoe + 1) % 4);
    assert(y % 100 == (yoe + 1) % 100);
    assert(y % 400 == (yoe + 1) % 400);
}

/// A date before 1970 has a negative day number.
proof fn lemma_before_1970(y: int, m: int, d: int)
    requires
        0 <= y < 1970,
        is_date(y, m, d),
    ensures
        day_number(y, m, d) < 0,
{
    assert(days_before_month(y, m) + d - 1 <= 365);
    assert(days_before_month(y, m) + d - 1 == 365 ==> is_leap_year(y));
    assert(leap_years_through(y - 1) <= leap_years_through(1969));
    assert(is_leap_year(y) ==> y <= 1968);
    assert(y <= 1968 ==> leap_years_through(y - 1) <= leap_years_through(1967));
}

/// `date_of_day` gives the date of the day.
proof fn lemma_date_of_day(days: int)
    requires
        0 <= days <= max_day(),
    ensures
        is_date(date_of_day(days).0, date_of_day(days).1, date_of_day(days).2),
        day_number(date_of_day(days).0, date_of_day(days).1, date_of_day(days).2) == days,
        1970 <= date_of_day(days).0 <= 2_147_483_600,
{
    let era = (days + 719_468) / 146_097;
    let doe = day_of_era(days);
    let yoe = year_of_era(days);
    let doy = day_of_year(days);
    let y = yoe + 400 * era;
    lemma_year_of_era(doe);
    lemma_era_start(era, yoe);
    lemma_leap_in_era(era, yoe);
    lemma_day_of_year(y, doy);
    let date = date_of_day(days);
    assert(date.0 == y || date.0 == y + 1);
    assert(date.0 == y + 1 ==> date.1 <= 2);
    assert(era <= 5_368_708);
    if date.0 < 1970 {
        lemma_before_1970(date.0, date.1, date.2);
    }
}

/// The date of the day that lies `days` days after 1 January 1970.
fn unix_days_to_ymd(days: u64) -> (date: (i32, u32, u32))
    requires
        days <= max_day(),
    ensures
        is_date(date.0 as int, date.1 as int, date.2 as int),
        day_number(date.0 as int, date.1 as int, date.2 as int) == days,
        date.0 >= 1970,
{
    proof {
        lemma_year_of_era(day_of_era(days as int));
        lemma_month_of_year(day_of_year(days as int));
        lemma_date_of_day(days as int);
    }
    // Count from 1 March of the year 0, so that the leap day ends a year.
    let z: u64 = days + 719_468;
    let era: u64 = z / 146_097;
    let doe: u64 = z - era * 146_097;
    assert(doe == day_of_era(days as int));
    let yoe: u64 = (doe - doe / 1_460 + doe / 36_524 - doe / 146_096) / 365;
    assert(yoe == year_of_era(days as int));
    let y: u64 = yoe + era * 400;
    let doy: u64 = doe - (365 * yoe + yoe / 4 - yoe / 100);
    assert(doy == day_of_year(days as int));
    let mp: u64 = (5 * doy + 2) / 153;
    let d: u64 = doy - (153 * mp + 2) / 5 + 1;
    let m: u64 = if mp < 10 {
        mp + 3
    } else {
        mp - 9
    };
    let year: u64 = if m <= 2 {
        y + 1
    } else {
        y
    };
    assert((year as int, m as int, d as int) == date_of_day(days as int));
    (year as i32, m as u32, d as u32)
}

/// The calendar date, as year, month and day, of the day on which the
/// timestamp falls.
pub fn unix_to_ymd(ts: u64) -> (date: (i32, u32, u32))
    requires
        ts <= MAX_TIMESTAMP,
    ensures
        is_date(date.0 as int, date.1 as int, date.2 as int),
        day_number(date.0 as int, date.1 as int, date.2 as int) == ts / 86_400,
        date.0 >= 1970,
{
    unix_days_to_ymd(ts / 86_400)
}

/// `s`, filled up with zeros on the left to `width` characters; a longer `s`
/// stays as it is.
pub open spec fn zero_filled(s: Seq<char>, width: nat) -> Seq<char>
    decreases width - s.len(),
{
    if s.len() >= width {
        s
    } else {
        zero_filled(seq!['0'] + s, width)
    }
}

/// How a date is written: `YYYY-MM-DD`, the year with at least four digits.
pub open spec fn date_text(y: int, m: int, d: int) -> Seq<char> {
    zero_filled(decimal_text(y as nat), 4) + seq!['-'] + zero_filled(decimal_text(m as nat), 2)
        + seq!['-'] + zero_filled(decimal_text(d as nat), 2)
}

/// `n` in decimal, filled up with zeros on the left to `width` characters.
fn zero_filled_decimal(n: u64, width: usize) -> (text: String)
    ensures
        text@ == zero_filled(decimal_text(n as nat), width as nat),
{
    let mut text = decimal(n as u128);
    let mut len = text.as_str().unicode_len();
    proof {
        reveal_strlit("0");
    }
    while len < width
        invariant
            len == text@.len(),
            zero_filled(text@, width as nat) == zero_filled(decimal_text(n as nat), width as nat),
            "0"@ == seq!['0'],
        decreases width - len,
    {
        let mut longer = "0".to_owned();
        longer.append(text.as_str());
        assert(longer@ =~= seq!['0'] + text@);
        text = longer;
        len += 1;
    }
    text
}

/// The date on which the timestamp falls, written as `YYYY-MM-DD`.
pub fn timestamp_to_string(ts: u64) -> (text: String)
    requires
        ts <= MAX_TIMESTAMP,
    ensures
        exists|y: int, m: int, d: int|
            #![trigger day_number(y, m, d)]
            is_date(y, m, d) && day_number(y, m, d) == ts / 86_400 && text@ == date_text(y, m, d),
{
    let (year, month, day) = unix_to_ymd(ts);
    proof {
        reveal_strlit("-");
    }
    let mut text = zero_filled_decimal(year as u64, 4);
    text.append("-");
    text.append(zero_filled_decimal(month as u64, 2).as_str());
    text.append("-");
    text.append(zero_filled_decimal(day as u64, 2).as_str());
    assert(text@ =~= date_text(year as int, month as int, day as int));
    assert(day_number(year as int, month as int, day as int) == ts / 86_400);
    text
}

/// `std::time::SystemTime`: a reading of the clock of this machine.
#[verifier::external_type_specification]
#[verifier::external_body]
pub struct ExSystemTime(SystemTime);

/// `std::time::SystemTimeError`: the clock stood before the time it was
/// compared with.
#[verifier::external_type_specification]
#[verifier::external_body]
pub struct ExSystemTimeError(SystemTimeError);

/// `SystemTime::now` reads the clock, so nothing is promised of the result.
pub assume_specification[ SystemTime::now ]() -> SystemTime;

/// `Duration::as_secs` gives the whole seconds of a span. Spans are opaque
/// here, so nothing is said of the number.
pub assume_specification[ Duration::as_secs ](span: &Duration) -> u64;

/// `SystemTime::duration_since`, asked for the time that has passed since
/// `UNIX_EPOCH`: that time, or an error where the clock stands before 1970.
/// Which of the two comes back depends on the clock.
#[verifier::external_body]
fn since_epoch(time: &SystemTime) -> Result<Duration, SystemTimeError> {
    time.duration_since(UNIX_EPOCH)
}

/// The seconds that have passed since 1 January 1970 on the clock of this
/// machine; zero where that clock stands before 1970. Nothing can be promised
/// of a reading of the clock.
pub fn now_timestamp() -> u64 {
    match since_epoch(&SystemTime::now()) {
        Ok(elapsed) => elapsed.as_secs(),
        Err(_) => 0,
    }
}

/// The days before a year grow with the year.
proof fn lemma_years_ascend(y1: int, y2: int)
    requires
        0 <= y1 <= y2,
    ensures
        days_before_year(y1) + 365 * (y2 - y1) <= days_before_year(y2),
    decreases y2 - y1,
{
    if y1 < y2 {
        lemma_years_ascend(y1, y2 - 1);
        lemma_leap_step(y2 - 1);
    }
}

/// No two dates fall on the same day: a day number belongs to one date only.
pub proof fn date_is_unique(y1: int, m1: int, d1: int, y2: int, m2: int, d2: int)
    requires
        0 <= y1,
        0 <= y2,
        is_date(y1, m1, d1),
        is_date(y2, m2, d2),
        day_number(y1, m1, d1) == day_number(y2, m2, d2),
    ensures
        y1 == y2 && m1 == m2 && d1 == d2,
{
    lemma_leap_step(y1);
    lemma_leap_step(y2);
    lemma_days_before_month(y1, m1);
    lemma_days_before_month(y2, m2);
    if y1 < y2 {
        lemma_years_ascend(y1 + 1, y2);
    } else if y2 < y1 {
        lemma_years_ascend(y2 + 1, y1);
    }
}

} // verus!
