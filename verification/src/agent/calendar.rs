//! Civil dates and timestamps, from a count of seconds since the Unix epoch.

use crate::text::{
    append_padded, decimal, digit, first_smaller_at, padded, text_before,
};
use std::time::{Duration, SystemTime, SystemTimeError, UNIX_EPOCH};
use vstd::prelude::*;
use vstd::utf8::{encode_utf8, is_ascii_chars, is_ascii_chars_encode_utf8};

verus! {

/// Whether a year of the Gregorian calendar has a leap day.
pub open spec fn is_leap(year: int) -> bool {
    year % 4 == 0 && (year % 100 != 0 || year % 400 == 0)
}

/// How many days a month has.
pub open spec fn days_in_month(year: int, month: int) -> int {
    if month == 2 {
        if is_leap(year) {
            29
        } else {
            28
        }
    } else if month == 4 || month == 6 || month == 9 || month == 11 {
        30
    } else {
        31
    }
}

/// Whether a date exists in the Gregorian calendar.
pub open spec fn is_date(year: int, month: int, day: int) -> bool {
    &&& 1 <= month <= 12
    &&& 1 <= day <= days_in_month(year, month)
}

/// How many days the years from year 1 up to `year` have, `year` itself left out. Every year has
/// 365, every fourth one more, but not every hundredth, except every four hundredth.
pub open spec fn days_before_year(year: int) -> int {
    365 * (year - 1) + (year - 1) / 4 - (year - 1) / 100 + (year - 1) / 400
}

/// How many days of a year come before a month of it.
pub open spec fn days_before_month(year: int, month: int) -> int
    decreases month,
{
    if month <= 1 {
        0
    } else {
        days_before_month(year, month - 1) + days_in_month(year, month - 1)
    }
}

/// How many days a date comes after 1970-01-01.
pub open spec fn day_number(year: int, month: int, day: int) -> int {
    days_before_year(year) + days_before_month(year, month) + (day - 1) - days_before_year(1970)
}

#[verifier::spinoff_prover]
proof fn lemma_one_more_multiple_of_four(year: int)
    ensures
        year / 4 == (year - 1) / 4 + (if year % 4 == 0 {
            1int
        } else {
            0int
        }),
{
}

#[verifier::spinoff_prover]
proof fn lemma_one_more_multiple_of_a_hundred(year: int)
    ensures
        year / 100 == (year - 1) / 100 + (if year % 100 == 0 {
            1int
        } else {
            0int
        }),
{
}

#[verifier::spinoff_prover]
proof fn lemma_one_more_multiple_of_four_hundred(year: int)
    ensures
        year / 400 == (year - 1) / 400 + (if year % 400 == 0 {
            1int
        } else {
            0int
        }),
        year % 400 == 0 ==> year % 100 == 0,
        year % 100 == 0 ==> year % 4 == 0,
{
}

#[verifier::spinoff_prover]
proof fn lemma_year_length(year: int)
    ensures
        days_before_year(year + 1) == days_before_year(year) + (if is_leap(year) {
            366int
        } else {
            365int
        }),
{
    lemma_one_more_multiple_of_four(year);
    lemma_one_more_multiple_of_a_hundred(year);
    lemma_one_more_multiple_of_four_hundred(year);
}

proof fn lemma_months(year: int)
    ensures
        ({
            let l: int = if is_leap(year) {
                1
            } else {
                0
            };
            &&& days_before_month(year, 1) == 0
            &&& days_before_month(year, 2) == 31
            &&& days_before_month(year, 3) == 59 + l
            &&& days_before_month(year, 4) == 90 + l
            &&& days_before_month(year, 5) == 120 + l
            &&& days_before_month(year, 6) == 151 + l
            &&& days_before_month(year, 7) == 181 + l
            &&& days_before_month(year, 8) == 212 + l
            &&& days_before_month(year, 9) == 243 + l
            &&& days_before_month(year, 10) == 273 + l
            &&& days_before_month(year, 11) == 304 + l
            &&& days_before_month(year, 12) == 334 + l
            &&& days_before_month(year, 13) == 365 + l
        }),
{
    reveal_with_fuel(days_before_month, 13);
}

/// The year of an era that a day of it falls in. An era is four hundred years that each begin on
/// the first of March.
spec fn year_of_era(day: int) -> int {
    (day - day / 1460 + day / 36_524 - day / 146_096) / 365
}

/// How many days of an era come before a year of it.
spec fn days_before_year_of_era(year: int) -> int {
    365 * year + year / 4 - year / 100
}

#[verifier::spinoff_prover]
proof fn lemma_year_of_era(day: int)
    requires
        0 <= day <= 146_096,
    ensures
        0 <= year_of_era(day) <= 399,
        0 <= day - days_before_year_of_era(year_of_era(day)) <= 365,
        day - days_before_year_of_era(year_of_era(day)) == 365 ==> is_leap(year_of_era(day) + 1),
{
    let c = if day / 36_524 == 4 {
        3
    } else {
        day / 36_524
    };
    let in_century = day - 36_524 * c;
    let q = in_century / 1461;
    let in_cycle = in_century - 1461 * q;
    let y = if in_cycle / 365 == 4 {
        3
    } else {
        in_cycle / 365
    };
    let d = in_cycle - 365 * y;
    assert(0 <= c <= 3 && 0 <= q <= 24 && 0 <= y <= 3 && 0 <= d <= 365);
    assert(d == 365 ==> y == 3 && (q < 24 || c == 3));
    let t = 24 * c + q + 365 * y + d;
    assert(day == 1460 * (25 * c + q) + t);
    let carry: int = if t >= 1460 {
        1
    } else {
        0
    };
    assert(day / 1460 == 25 * c + q + carry);
    assert(day / 36_524 - day / 146_096 == c);
    let year = 100 * c + 4 * q + y;
    assert(day - day / 1460 + day / 36_524 - day / 146_096 == 365 * year + (d - carry));
    assert(0 <= d - carry <= 364);
    assert(year_of_era(day) == year);
    assert(year / 4 == 25 * c + q);
    assert(year / 100 == c);
    assert(day - days_before_year_of_era(year) == d);
}

/// How many days a year that begins on the first of March has before its month `m`, counted from
/// nought.
spec fn days_before_shifted_month(m: int) -> int {
    (153 * m + 2) / 5
}

/// The month that a day falls in, and the day that the month begins with, in a year that begins
/// on the first of March.
spec fn in_shifted_month(day: int, m: int, first: int, last: int) -> bool {
    (5 * day + 2) / 153 == m && days_before_shifted_month(m) == first && first <= day <= last
}

proof fn lemma_shifted_month(day: int)
    requires
        0 <= day <= 365,
    ensures
        ({
            ||| in_shifted_month(day, 0, 0, 30)
            ||| in_shifted_month(day, 1, 31, 60)
            ||| in_shifted_month(day, 2, 61, 91)
            ||| in_shifted_month(day, 3, 92, 121)
            ||| in_shifted_month(day, 4, 122, 152)
            ||| in_shifted_month(day, 5, 153, 183)
            ||| in_shifted_month(day, 6, 184, 213)
            ||| in_shifted_month(day, 7, 214, 244)
            ||| in_shifted_month(day, 8, 245, 274)
            ||| in_shifted_month(day, 9, 275, 305)
            ||| in_shifted_month(day, 10, 306, 336)
            ||| in_shifted_month(day, 11, 337, 365)
        }),
{
}

#[verifier::spinoff_prover]
proof fn lemma_years_of_eras(era: int, year: int)
    requires
        0 <= year <= 399,
    ensures
        (year + era * 400) / 4 == 100 * era + year / 4,
        (year + era * 400) / 100 == 4 * era + year / 100,
        (year + era * 400) / 400 == era,
{
}

#[verifier::spinoff_prover]
proof fn lemma_leap_years_of_eras(era: int, year: int)
    ensures
        is_leap(year + era * 400) == is_leap(year),
{
    assert((year + era * 400) % 4 == year % 4);
    assert((year + era * 400) % 100 == year % 100);
    assert((year + era * 400) % 400 == year % 400);
}

#[verifier::spinoff_prover]
proof fn lemma_era(era: int, year: int)
    requires
        0 <= year <= 399,
    ensures
        days_before_year(year + era * 400 + 1) == 146_097 * era + days_before_year_of_era(year),
        is_leap(year + era * 400 + 1) == is_leap(year + 1),
{
    lemma_years_of_eras(era, year);
    lemma_leap_years_of_eras(era, year + 1);
}

/// The civil year, month and day of a day in a year that begins on the first of March.
spec fn unshifted(y: int, day: int) -> (int, int, int) {
    let m = (5 * day + 2) / 153;
    let month = if m < 10 {
        m + 3
    } else {
        m - 9
    };
    (
        if month <= 2 {
            y + 1
        } else {
            y
        },
        month,
        day - days_before_shifted_month(m) + 1,
    )
}

#[verifier::spinoff_prover]
proof fn lemma_unshifted(y: int, day: int)
    requires
        0 <= day <= 365,
        day == 365 ==> is_leap(y + 1),
    ensures
        is_date(unshifted(y, day).0, unshifted(y, day).1, unshifted(y, day).2),
        day_number(unshifted(y, day).0, unshifted(y, day).1, unshifted(y, day).2)
            == days_before_year(y + 1) + day - 719_468,
{
    let date = unshifted(y, day);
    lemma_shifted_month(day);
    lemma_year_length(y);
    lemma_months(y);
    lemma_months(y + 1);
    assert(days_before_year(1970) == 719_162);
    if date.1 <= 2 {
        assert(days_before_month(y + 1, date.1) == days_before_shifted_month((5 * day + 2) / 153)
            - 306);
    } else {
        assert(days_before_month(y, date.1) == days_before_shifted_month((5 * day + 2) / 153) + 59
            + (if is_leap(y) {
            1int
        } else {
            0int
        }));
    }
}

/// Convert a count of days since 1970-01-01 to a civil date.
pub fn civil_from_days(days: i64) -> (r: (i64, u32, u32))
    requires
        days <= i64::MAX - 719_468,
    ensures
        is_date(r.0 as int, r.1 as int, r.2 as int),
        day_number(r.0 as int, r.1 as int, r.2 as int) == days,
{
    let z: i64 = days + 719_468;
    let era: i64 = z.checked_div_euclid(146_097).unwrap();
    let day_of_era: u64 = (z - era * 146_097) as u64;
    proof {
        lemma_year_of_era(day_of_era as int);
    }
    let year_of_era: u64 = (day_of_era - day_of_era / 1460 + day_of_era / 36_524 - day_of_era
        / 146_096) / 365;
    let year: i64 = year_of_era as i64 + era * 400;
    let day_of_year: u64 = day_of_era - (365 * year_of_era + year_of_era / 4 - year_of_era / 100);
    proof {
        lemma_shifted_month(day_of_year as int);
        lemma_era(era as int, year_of_era as int);
        lemma_unshifted(year as int, day_of_year as int);
    }
    let shifted_month: u64 = (5 * day_of_year + 2) / 153;
    let day: u32 = (day_of_year - (153 * shifted_month + 2) / 5 + 1) as u32;
    let month: u32 = if shifted_month < 10 {
        (shifted_month + 3) as u32
    } else {
        (shifted_month - 9) as u32
    };
    (if month <= 2 {
        year + 1
    } else {
        year
    }, month, day)
}

/// Whether a date comes before another: in an earlier year, or in an earlier month of the same
/// year, or on an earlier day of the same month.
pub open spec fn date_before(a: (int, int, int), b: (int, int, int)) -> bool {
    a.0 < b.0 || (a.0 == b.0 && (a.1 < b.1 || (a.1 == b.1 && a.2 < b.2)))
}

proof fn lemma_months_in_order(year: int, a: int, b: int)
    requires
        1 <= a < b,
    ensures
        days_before_month(year, a) + days_in_month(year, a) <= days_before_month(year, b),
    decreases b,
{
    if a < b - 1 {
        lemma_months_in_order(year, a, b - 1);
    }
}

proof fn lemma_day_in_year(year: int, month: int, day: int)
    requires
        is_date(year, month, day),
    ensures
        days_before_year(year) <= day_number(year, month, day) + days_before_year(1970)
            < days_before_year(year + 1),
{
    lemma_year_length(year);
    lemma_months(year);
    if month > 1 {
        lemma_months_in_order(year, 1, month);
    }
    lemma_months_in_order(year, month, 13);
}

proof fn lemma_years_in_order(a: int, b: int)
    requires
        a <= b,
    ensures
        days_before_year(a) <= days_before_year(b),
{
}

/// The days are numbered in the order of their dates.
pub proof fn law_days_are_numbered_in_order(a: (int, int, int), b: (int, int, int))
    requires
        is_date(a.0, a.1, a.2),
        is_date(b.0, b.1, b.2),
    ensures
        date_before(a, b) <==> day_number(a.0, a.1, a.2) < day_number(b.0, b.1, b.2),
        a == b <==> day_number(a.0, a.1, a.2) == day_number(b.0, b.1, b.2),
{
    lemma_earlier_date_has_smaller_number(a, b);
    lemma_earlier_date_has_smaller_number(b, a);
}

proof fn lemma_earlier_date_has_smaller_number(a: (int, int, int), b: (int, int, int))
    requires
        is_date(a.0, a.1, a.2),
        is_date(b.0, b.1, b.2),
    ensures
        date_before(a, b) ==> day_number(a.0, a.1, a.2) < day_number(b.0, b.1, b.2),
{
    if a.0 < b.0 {
        lemma_day_in_year(a.0, a.1, a.2);
        lemma_day_in_year(b.0, b.1, b.2);
        lemma_years_in_order(a.0 + 1, b.0);
    } else if a.0 == b.0 && a.1 < b.1 {
        lemma_months_in_order(a.0, a.1, b.1);
    }
}

/// The day after a date: the next of the month, or the first of the next month, or the first of
/// the next year.
pub open spec fn next_date(date: (int, int, int)) -> (int, int, int) {
    if date.2 < days_in_month(date.0, date.1) {
        (date.0, date.1, date.2 + 1)
    } else if date.1 < 12 {
        (date.0, date.1 + 1, 1)
    } else {
        (date.0 + 1, 1, 1)
    }
}

/// The day after a date is numbered one more, and 1970-01-01 is numbered nought.
pub proof fn law_days_are_numbered_one_by_one(date: (int, int, int))
    requires
        is_date(date.0, date.1, date.2),
    ensures
        is_date(next_date(date).0, next_date(date).1, next_date(date).2),
        day_number(next_date(date).0, next_date(date).1, next_date(date).2) == day_number(
            date.0,
            date.1,
            date.2,
        ) + 1,
        day_number(1970, 1, 1) == 0,
{
    lemma_year_length(date.0);
    lemma_months(date.0);
    lemma_months(date.0 + 1);
    lemma_months(1970);
}

/// The date of a day, by its number.
pub open spec fn civil_date(days: int) -> (int, int, int) {
    choose|date: (int, int, int)|
        is_date(date.0, date.1, date.2) && #[trigger] day_number(date.0, date.1, date.2) == days
}

proof fn lemma_civil_date(days: int, date: (int, int, int))
    requires
        is_date(date.0, date.1, date.2),
        day_number(date.0, date.1, date.2) == days,
    ensures
        civil_date(days) == date,
{
    law_days_are_numbered_in_order(civil_date(days), date);
}

/// The moment `seconds` after the start of 1970, as `YYYY-MM-DDThh:mm:ss` in UTC.
pub open spec fn timestamp_text(seconds: nat) -> Seq<char> {
    let date = civil_date((seconds / 86_400) as int);
    let today = seconds % 86_400;
    padded(date.0 as nat, 4) + "-"@ + padded(date.1 as nat, 2) + "-"@ + padded(date.2 as nat, 2)
        + "T"@ + padded(today / 3600, 2) + ":"@ + padded((today % 3600) / 60, 2) + ":"@ + padded(
        today % 60,
        2,
    )
}

/// The moment `seconds` after the start of 1970, in the form that the stored windows use.
///
/// Civil-time arithmetic from a day count is exact, so this needs no time zone.
pub fn timestamp(seconds: u64) -> (r: String)
    ensures
        r@ == timestamp_text(seconds as nat),
{
    let days: i64 = (seconds / 86_400) as i64;
    let (year, month, day) = civil_from_days(days);
    proof {
        lemma_civil_date(days as int, (year as int, month as int, day as int));
        lemma_day_in_year(year as int, month as int, day as int);
        if year < 1970 {
            lemma_years_in_order(year as int + 1, 1970);
        }
    }
    let today: u64 = seconds % 86_400;
    let mut r = String::new();
    append_padded(&mut r, year as u64, 4);
    r.append("-");
    append_padded(&mut r, month as u64, 2);
    r.append("-");
    append_padded(&mut r, day as u64, 2);
    r.append("T");
    append_padded(&mut r, today / 3600, 2);
    r.append(":");
    append_padded(&mut r, (today % 3600) / 60, 2);
    r.append(":");
    append_padded(&mut r, today % 60, 2);
    assert(r@ =~= timestamp_text(seconds as nat));
    r
}

/// Declares `std::time::SystemTime`, of whose insides nothing is seen.
#[verifier::external_type_specification]
#[verifier::external_body]
pub struct ExSystemTime(SystemTime);

/// Declares `std::time::SystemTimeError`, of whose insides nothing is seen.
#[verifier::external_type_specification]
#[verifier::external_body]
pub struct ExSystemTimeError(SystemTimeError);

/// How long after the Unix epoch a moment is, as `SystemTime::duration_since` has it, if it is not
/// before the epoch.
pub uninterp spec fn time_since_epoch(moment: SystemTime) -> Option<Duration>;

/// The whole seconds of a duration, as `Duration::as_secs` has them.
pub uninterp spec fn seconds_in(duration: Duration) -> nat;

/// Calls `SystemTime::now`. Nothing is claimed of what the clock says.
#[verifier::external_body]
fn clock() -> (r: SystemTime) {
    SystemTime::now()
}

/// Calls `SystemTime::duration_since` with the Unix epoch. The result depends on the moment alone,
/// and is an error where the moment is before the epoch.
#[verifier::external_body]
fn since_epoch(moment: SystemTime) -> (r: Result<Duration, SystemTimeError>)
    ensures
        match r {
            Ok(duration) => time_since_epoch(moment) == Some(duration),
            Err(_) => time_since_epoch(moment) is None,
        },
{
    moment.duration_since(UNIX_EPOCH)
}

/// Calls `Duration::as_secs`. The result depends on the duration alone.
#[verifier::external_body]
fn whole_seconds(duration: Duration) -> (r: u64)
    ensures
        r == seconds_in(duration),
{
    duration.as_secs()
}

/// How many whole seconds a moment comes after the start of 1970. One before it is read as the
/// start.
pub open spec fn seconds_at(moment: SystemTime) -> nat {
    match time_since_epoch(moment) {
        Some(duration) => seconds_in(duration),
        None => 0,
    }
}

/// A moment, in the form that the stored windows use. One before 1970 is read as the start of
/// 1970.
pub fn timestamp_of(moment: SystemTime) -> (r: String)
    ensures
        r@ == timestamp_text(seconds_at(moment)),
{
    let seconds: u64 = match since_epoch(moment) {
        Ok(duration) => whole_seconds(duration),
        Err(_) => 0,
    };
    timestamp(seconds)
}

/// The current time, in the form that the stored windows use.
pub fn current_timestamp() -> (r: String)
    ensures
        exists|moment: SystemTime| r@ == timestamp_text(#[trigger] seconds_at(moment)),
{
    timestamp_of(clock())
}

proof fn lemma_padded_to_two(n: nat)
    requires
        n < 100,
    ensures
        padded(n, 2) == seq![digit((n / 10) as int), digit((n % 10) as int)],
{
    reveal_with_fuel(decimal, 2);
    assert(padded(n, 2) =~= seq![digit((n / 10) as int), digit((n % 10) as int)]);
}

proof fn lemma_padded_to_four(n: nat)
    requires
        n < 10_000,
    ensures
        padded(n, 4) == seq![
            digit((n / 1000) as int),
            digit((n / 100 % 10) as int),
            digit((n / 10 % 10) as int),
            digit((n % 10) as int),
        ],
{
    reveal_with_fuel(decimal, 4);
    assert(n / 10 / 10 == n / 100);
    assert(n / 10 / 10 / 10 == n / 1000);
    assert(padded(n, 4) =~= seq![
        digit((n / 1000) as int),
        digit((n / 100 % 10) as int),
        digit((n / 10 % 10) as int),
        digit((n % 10) as int),
    ]);
}

/// The first second of the year 10000.
pub open spec fn end_of_four_digit_years() -> nat {
    253_402_300_800
}

#[verifier::spinoff_prover]
proof fn lemma_civil_date_exists(days: int)
    requires
        0 <= days < 2_932_897,
    ensures
        ({
            let date = civil_date(days);
            &&& is_date(date.0, date.1, date.2)
            &&& day_number(date.0, date.1, date.2) == days
            &&& 1970 <= date.0 <= 9999
        }),
{
    let z = days + 719_468;
    let era = z / 146_097;
    let day_of_era = z - era * 146_097;
    lemma_year_of_era(day_of_era);
    let in_era = year_of_era(day_of_era);
    let day = day_of_era - days_before_year_of_era(in_era);
    let y = in_era + era * 400;
    lemma_era(era, in_era);
    lemma_unshifted(y, day);
    let date = unshifted(y, day);
    lemma_civil_date(days, date);
    lemma_day_in_year(date.0, date.1, date.2);
    if date.0 < 1970 {
        lemma_years_in_order(date.0 + 1, 1970);
    }
    if date.0 > 9999 {
        lemma_years_in_order(10_000, date.0);
        assert(days_before_year(10_000) - days_before_year(1970) == 2_932_897);
    }
}

/// The digits and marks of a timestamp, one by one.
spec fn timestamp_marks(y: int, mo: int, d: int, h: int, mi: int, s: int) -> Seq<char> {
    seq![
        digit(y / 1000),
        digit(y / 100 % 10),
        digit(y / 10 % 10),
        digit(y % 10),
        '-',
        digit(mo / 10),
        digit(mo % 10),
        '-',
        digit(d / 10),
        digit(d % 10),
        'T',
        digit(h / 10),
        digit(h % 10),
        ':',
        digit(mi / 10),
        digit(mi % 10),
        ':',
        digit(s / 10),
        digit(s % 10),
    ]
}

#[verifier::spinoff_prover]
proof fn lemma_timestamp_marks(seconds: nat)
    requires
        seconds < end_of_four_digit_years(),
    ensures
        ({
            let date = civil_date((seconds / 86_400) as int);
            let today = (seconds % 86_400) as int;
            &&& timestamp_text(seconds) == timestamp_marks(
                date.0,
                date.1,
                date.2,
                today / 3600,
                today % 3600 / 60,
                today % 60,
            )
            &&& is_ascii_chars(timestamp_text(seconds))
        }),
{
    let date = civil_date((seconds / 86_400) as int);
    let today = seconds % 86_400;
    lemma_civil_date_exists((seconds / 86_400) as int);
    lemma_padded_to_four(date.0 as nat);
    lemma_padded_to_two(date.1 as nat);
    lemma_padded_to_two(date.2 as nat);
    lemma_padded_to_two(today / 3600);
    lemma_padded_to_two(today % 3600 / 60);
    lemma_padded_to_two(today % 60);
    reveal_strlit("-");
    reveal_strlit("T");
    reveal_strlit(":");
    let marks = timestamp_marks(
        date.0,
        date.1,
        date.2,
        today as int / 3600,
        today as int % 3600 / 60,
        today as int % 60,
    );
    assert(timestamp_text(seconds) =~= marks);
}

/// The places of a timestamp that hold a mark rather than a digit.
pub open spec fn is_mark_place(i: int) -> bool {
    i == 4 || i == 7 || i == 10 || i == 13 || i == 16
}

proof fn lemma_marks_are_digits(y: int, mo: int, d: int, h: int, mi: int, s: int, i: int)
    requires
        0 <= y <= 9999,
        0 <= mo < 100,
        0 <= d < 100,
        0 <= h < 100,
        0 <= mi < 100,
        0 <= s < 100,
        0 <= i < 19,
        !is_mark_place(i),
    ensures
        '0' <= timestamp_marks(y, mo, d, h, mi, s)[i] <= '9',
{
}

/// Every timestamp before the year 10000 has the same width and the same marks at the same places,
/// and digits at all the others.
#[verifier::spinoff_prover]
pub proof fn law_timestamps_are_fixed_width(seconds: nat)
    requires
        seconds < end_of_four_digit_years(),
    ensures
        timestamp_text(seconds).len() == 19,
        timestamp_text(seconds)[4] == '-',
        timestamp_text(seconds)[7] == '-',
        timestamp_text(seconds)[10] == 'T',
        timestamp_text(seconds)[13] == ':',
        timestamp_text(seconds)[16] == ':',
        forall|i: int|
            0 <= i < 19 && !is_mark_place(i) ==> '0' <= #[trigger] timestamp_text(seconds)[i] <= '9',
{
    lemma_timestamp_marks(seconds);
    let date = civil_date((seconds / 86_400) as int);
    let today = (seconds % 86_400) as int;
    assert(0 <= date.0 <= 9999 && 0 <= date.1 < 100 && 0 <= date.2 < 100) by {
        lemma_civil_date_exists((seconds / 86_400) as int);
    }
    assert forall|i: int| 0 <= i < 19 && !is_mark_place(i) implies '0'
        <= #[trigger] timestamp_text(seconds)[i] <= '9' by {
        lemma_marks_are_digits(
            date.0,
            date.1,
            date.2,
            today / 3600,
            today % 3600 / 60,
            today % 60,
            i,
        );
    }
}

proof fn lemma_two_digits_in_order(a: int, b: int)
    requires
        0 <= a < b < 100,
    ensures
        a / 10 < b / 10 || (a / 10 == b / 10 && a % 10 < b % 10),
{
}

proof fn lemma_four_digits_in_order(a: int, b: int)
    requires
        0 <= a < b < 10_000,
    ensures
        ({
            ||| a / 1000 < b / 1000
            ||| a / 1000 == b / 1000 && a / 100 % 10 < b / 100 % 10
            ||| a / 1000 == b / 1000 && a / 100 % 10 == b / 100 % 10 && a / 10 % 10 < b / 10 % 10
            ||| a / 1000 == b / 1000 && a / 100 % 10 == b / 100 % 10 && a / 10 % 10 == b / 10 % 10
                && a % 10 < b % 10
        }),
{
    assert(a / 100 % 10 == a / 100 - 10 * (a / 1000));
    assert(b / 100 % 10 == b / 100 - 10 * (b / 1000));
    assert(a / 10 % 10 == a / 10 - 10 * (a / 100));
    assert(b / 10 % 10 == b / 10 - 10 * (b / 100));
}

proof fn lemma_clock_in_order(s: int, t: int)
    requires
        0 <= s < t < 86_400,
    ensures
        date_before(
            (s / 3600, s % 3600 / 60, s % 60),
            (t / 3600, t % 3600 / 60, t % 60),
        ),
{
    assert(s == 3600 * (s / 3600) + s % 3600);
    assert(t == 3600 * (t / 3600) + t % 3600);
    assert(s % 60 == s % 3600 - 60 * (s % 3600 / 60));
    assert(t % 60 == t % 3600 - 60 * (t % 3600 / 60));
}

/// Whether two texts agree up to the place `n`, where the first has the smaller character.
spec fn smaller_mark_at(a: Seq<char>, b: Seq<char>, n: int) -> bool {
    &&& 0 <= n < a.len()
    &&& a.len() == b.len()
    &&& forall|i: int| 0 <= i < n ==> a[i] == b[i]
    &&& a[n] < b[n]
}

proof fn lemma_marks_of_dates_in_order(
    p: (int, int, int),
    s: (int, int, int),
    q: (int, int, int),
    t: (int, int, int),
) -> (n: int)
    requires
        0 <= p.0 <= 9999 && 0 <= q.0 <= 9999,
        0 <= p.1 < 100 && 0 <= q.1 < 100,
        0 <= p.2 < 100 && 0 <= q.2 < 100,
        date_before(p, q),
    ensures
        smaller_mark_at(
            timestamp_marks(p.0, p.1, p.2, s.0, s.1, s.2),
            timestamp_marks(q.0, q.1, q.2, t.0, t.1, t.2),
            n,
        ),
{
    if p.0 < q.0 {
        lemma_four_digits_in_order(p.0, q.0);
        if p.0 / 1000 < q.0 / 1000 {
            0
        } else if p.0 / 100 % 10 < q.0 / 100 % 10 {
            1
        } else if p.0 / 10 % 10 < q.0 / 10 % 10 {
            2
        } else {
            3
        }
    } else if p.1 < q.1 {
        lemma_two_digits_in_order(p.1, q.1);
        if p.1 / 10 < q.1 / 10 {
            5
        } else {
            6
        }
    } else {
        lemma_two_digits_in_order(p.2, q.2);
        if p.2 / 10 < q.2 / 10 {
            8
        } else {
            9
        }
    }
}

proof fn lemma_marks_of_clocks_in_order(
    p: (int, int, int),
    s: (int, int, int),
    t: (int, int, int),
) -> (n: int)
    requires
        0 <= s.0 < 100 && 0 <= t.0 < 100,
        0 <= s.1 < 100 && 0 <= t.1 < 100,
        0 <= s.2 < 100 && 0 <= t.2 < 100,
        date_before(s, t),
    ensures
        smaller_mark_at(
            timestamp_marks(p.0, p.1, p.2, s.0, s.1, s.2),
            timestamp_marks(p.0, p.1, p.2, t.0, t.1, t.2),
            n,
        ),
{
    if s.0 < t.0 {
        lemma_two_digits_in_order(s.0, t.0);
        if s.0 / 10 < t.0 / 10 {
            11
        } else {
            12
        }
    } else if s.1 < t.1 {
        lemma_two_digits_in_order(s.1, t.1);
        if s.1 / 10 < t.1 / 10 {
            14
        } else {
            15
        }
    } else {
        lemma_two_digits_in_order(s.2, t.2);
        if s.2 / 10 < t.2 / 10 {
            17
        } else {
            18
        }
    }
}

proof fn lemma_smaller_mark_comes_before(a: Seq<char>, b: Seq<char>, n: int)
    requires
        is_ascii_chars(a),
        is_ascii_chars(b),
        smaller_mark_at(a, b, n),
    ensures
        text_before(a, b),
{
    is_ascii_chars_encode_utf8(a);
    is_ascii_chars_encode_utf8(b);
    let x = encode_utf8(a);
    let y = encode_utf8(b);
    assert forall|i: int| 0 <= i < n implies x[i] == y[i] by {
        assert(a[i] == b[i]);
    }
    assert(a[n] as u8 == x[n] && b[n] as u8 == y[n]);
    assert(first_smaller_at(x, y, n));
}

/// Timestamps order as text in the way that the moments order in time, before the year 10000.
#[verifier::spinoff_prover]
pub proof fn law_timestamps_order_as_text(earlier: nat, later: nat)
    requires
        earlier < later < end_of_four_digit_years(),
    ensures
        text_before(timestamp_text(earlier), timestamp_text(later)),
{
    lemma_timestamp_marks(earlier);
    lemma_timestamp_marks(later);
    let p = civil_date((earlier / 86_400) as int);
    let q = civil_date((later / 86_400) as int);
    lemma_civil_date_exists((earlier / 86_400) as int);
    lemma_civil_date_exists((later / 86_400) as int);
    law_days_are_numbered_in_order(p, q);
    assert(earlier / 86_400 <= later / 86_400);
    let s = (earlier % 86_400) as int;
    let t = (later % 86_400) as int;
    let c = (s / 3600, s % 3600 / 60, s % 60);
    let d = (t / 3600, t % 3600 / 60, t % 60);
    let n = if earlier / 86_400 < later / 86_400 {
        lemma_marks_of_dates_in_order(p, c, q, d)
    } else {
        assert(p == q);
        lemma_clock_in_order(s, t);
        lemma_marks_of_clocks_in_order(p, c, d)
    };
    lemma_smaller_mark_comes_before(timestamp_text(earlier), timestamp_text(later), n);
}

/// The calendar: every fourth year has a leap day, but not every hundredth, except every four
/// hundredth; and the months have the lengths that they have.
pub proof fn law_the_gregorian_calendar(year: int, month: int, day: int)
    ensures
        year % 400 == 0 ==> is_leap(year),
        year % 100 == 0 && year % 400 != 0 ==> !is_leap(year),
        year % 4 == 0 && year % 100 != 0 ==> is_leap(year),
        year % 4 != 0 ==> !is_leap(year),
        month == 1 || month == 3 || month == 5 || month == 7 || month == 8 || month == 10 || month
            == 12 ==> (is_date(year, month, day) <==> 1 <= day <= 31),
        month == 4 || month == 6 || month == 9 || month == 11 ==> (is_date(year, month, day) <==> 1
            <= day <= 30),
        month == 2 && is_leap(year) ==> (is_date(year, month, day) <==> 1 <= day <= 29),
        month == 2 && !is_leap(year) ==> (is_date(year, month, day) <==> 1 <= day <= 28),
        month < 1 || month > 12 ==> !is_date(year, month, day),
{
}

/// The number at two places of a text.
pub open spec fn two_digits(text: Seq<char>, i: int) -> int {
    (text[i] as int - 48) * 10 + (text[i + 1] as int - 48)
}

/// The year, month and day, and the hours, minutes and seconds, that a timestamp of four-digit years
/// reads as.
pub open spec fn read_back(text: Seq<char>) -> (int, int, int, int, int, int) {
    (
        two_digits(text, 0) * 100 + two_digits(text, 2),
        two_digits(text, 5),
        two_digits(text, 8),
        two_digits(text, 11),
        two_digits(text, 14),
        two_digits(text, 17),
    )
}

/// A timestamp before the year 10000 reads back as the moment it was written for: its date is the
/// date of the day, and its hours, minutes and seconds are those of the rest.
#[verifier::spinoff_prover]
pub proof fn law_a_timestamp_reads_back(seconds: nat)
    requires
        seconds < end_of_four_digit_years(),
    ensures
        ({
            let (year, month, day, hours, minutes, rest) = read_back(timestamp_text(seconds));
            &&& is_date(year, month, day)
            &&& day_number(year, month, day) == seconds / 86_400
            &&& 0 <= hours < 24 && 0 <= minutes < 60 && 0 <= rest < 60
            &&& hours * 3600 + minutes * 60 + rest == seconds % 86_400
        }),
{
    let date = civil_date((seconds / 86_400) as int);
    let today = (seconds % 86_400) as int;
    let hours = today / 3600;
    let minutes = today % 3600 / 60;
    let rest = today % 60;
    lemma_time_of_day(today);
    assert(is_date(date.0, date.1, date.2) && day_number(date.0, date.1, date.2) == seconds / 86_400
        && 0 <= date.0 <= 9999 && 1 <= date.1 <= 12 && 1 <= date.2 <= 31) by {
        lemma_civil_date_exists((seconds / 86_400) as int);
    }
    lemma_marks_read_back(date.0, date.1, date.2, hours, minutes, rest);
    assert(timestamp_text(seconds) == timestamp_marks(
        date.0,
        date.1,
        date.2,
        hours,
        minutes,
        rest,
    )) by {
        lemma_timestamp_marks(seconds);
    }
}

#[verifier::spinoff_prover]
proof fn lemma_time_of_day(today: int)
    requires
        0 <= today < 86_400,
    ensures
        0 <= today / 3600 < 24,
        0 <= today % 3600 / 60 < 60,
        0 <= today % 60 < 60,
        today / 3600 * 3600 + today % 3600 / 60 * 60 + today % 60 == today,
{
    assert(today == 3600 * (today / 3600) + today % 3600);
    assert(today % 60 == today % 3600 - 60 * (today % 3600 / 60));
}

#[verifier::spinoff_prover]
proof fn lemma_marks_read_back(y: int, mo: int, d: int, h: int, mi: int, s: int)
    requires
        0 <= y <= 9999,
        0 <= mo < 100,
        0 <= d < 100,
        0 <= h < 100,
        0 <= mi < 100,
        0 <= s < 100,
    ensures
        read_back(timestamp_marks(y, mo, d, h, mi, s)) == (y, mo, d, h, mi, s),
{
    assert(y / 100 % 10 == y / 100 - 10 * (y / 1000));
    assert(y / 10 % 10 == y / 10 - 10 * (y / 100));
}

/// A moment at or after the epoch is that many whole seconds after it, and one before is read as the
/// epoch.
pub proof fn law_a_moment_before_the_epoch_is_the_epoch(moment: SystemTime, duration: Duration)
    ensures
        time_since_epoch(moment) == Some(duration) ==> seconds_at(moment) == seconds_in(duration),
        time_since_epoch(moment) is None ==> seconds_at(moment) == 0,
{
}

/// A timestamp is written from the date of its day and the time of day, whatever the year.
#[verifier::spinoff_prover]
pub proof fn law_a_timestamp_is_its_date_and_time(
    seconds: nat,
    date: (int, int, int),
    hours: nat,
    minutes: nat,
    rest: nat,
)
    requires
        is_date(date.0, date.1, date.2),
        day_number(date.0, date.1, date.2) == seconds / 86_400,
        minutes < 60,
        rest < 60,
        hours * 3600 + minutes * 60 + rest == seconds % 86_400,
    ensures
        timestamp_text(seconds) == padded(date.0 as nat, 4) + "-"@ + padded(date.1 as nat, 2) + "-"@
            + padded(date.2 as nat, 2) + "T"@ + padded(hours, 2) + ":"@ + padded(minutes, 2) + ":"@
            + padded(rest, 2),
{
    lemma_civil_date((seconds / 86_400) as int, date);
    let today = seconds % 86_400;
    assert(today / 3600 == hours);
    assert(today % 3600 == minutes * 60 + rest);
    assert((today % 3600) / 60 == minutes);
    assert(today % 60 == rest);
}

} // verus!
