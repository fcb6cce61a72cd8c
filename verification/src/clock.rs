//! The date and the time of day of a moment given in seconds since the
//! start of 1970, and their text for the log.

use vstd::prelude::*;

use crate::strings::string_of;
use crate::text::{decimal, push_decimal};

verus! {

/// Whether a year of the Gregorian calendar is a leap year.
pub open spec fn leap(year: int) -> bool {
    (year % 4 == 0 && year % 100 != 0) || year % 400 == 0
}

/// The number of days of a year.
pub open spec fn year_days(year: int) -> int {
    if leap(year) {
        366
    } else {
        365
    }
}

/// The number of days of a month of a year.
pub open spec fn month_days(year: int, month: int) -> int {
    if month == 2 {
        if leap(year) {
            29
        } else {
            28
        }
    } else if month == 4 || month == 6 || month == 9 || month == 11 {
        30
    } else {
        31
    }
}

/// The number of days from the start of 1970 to the start of a year.
pub open spec fn days_before_year(year: int) -> int
    decreases year,
{
    if year <= 1970 {
        0
    } else {
        days_before_year(year - 1) + year_days(year - 1)
    }
}

/// The number of days from the start of a year to the start of a month.
pub open spec fn days_before_month(year: int, month: int) -> int
    decreases month,
{
    if month <= 1 {
        0
    } else {
        days_before_month(year, month - 1) + month_days(year, month - 1)
    }
}

/// A date and a time of day.
#[derive(Clone, Copy, Debug, PartialEq, Eq, Structural)]
pub struct CivilTime {
    pub year: u64,
    pub month: u8,
    pub day: u8,
    pub hour: u8,
    pub minute: u8,
    pub second: u8,
}

/// Whether `t` is the date and the time of day of the moment `timestamp`
/// seconds after the start of 1970.
pub open spec fn is_time_of(timestamp: u64, t: CivilTime) -> bool {
    &&& 1970 <= t.year
    &&& 1 <= t.month <= 12
    &&& 1 <= t.day <= month_days(t.year as int, t.month as int)
    &&& timestamp / 86400 == days_before_year(t.year as int) + days_before_month(
        t.year as int,
        t.month as int,
    ) + t.day - 1
    &&& t.hour == (timestamp % 86400) / 3600
    &&& t.minute == (timestamp % 3600) / 60
    &&& t.second == timestamp % 60
}

/// A number in two digits or more: a value under ten gets a zero before it.
pub open spec fn padded(n: nat) -> Seq<char> {
    if n < 10 {
        seq!['0'] + decimal(n)
    } else {
        decimal(n)
    }
}

/// The text of a date and a time of day, as `YYYY-MM-DDThh:mm:ss`.
pub open spec fn time_text(t: CivilTime) -> Seq<char> {
    decimal(t.year as nat) + seq!['-'] + padded(t.month as nat) + seq!['-'] + padded(
        t.day as nat,
    ) + seq!['T'] + padded(t.hour as nat) + seq![':'] + padded(t.minute as nat) + seq![':']
        + padded(t.second as nat)
}

/// A year has as many days as its twelve months.
pub proof fn lemma_year_is_twelve_months(year: int)
    ensures
        days_before_month(year, 13) == year_days(year),
{
    reveal_with_fuel(days_before_month, 14);
}

/// Checks if a year is a leap year: it is divisible by 4 and not by 100,
/// or it is divisible by 400.
pub fn is_leap_year(year: u64) -> (r: bool)
    ensures
        r == leap(year as int),
{
    (year % 4 == 0 && year % 100 != 0) || (year % 400 == 0)
}

/// The number of days of a year.
fn days_in_year(year: u64) -> (n: u64)
    ensures
        n == year_days(year as int),
{
    if is_leap_year(year) {
        366
    } else {
        365
    }
}

/// The number of days of a month of a year.
fn days_in_month(year: u64, month: u8) -> (n: u64)
    ensures
        n == month_days(year as int, month as int),
{
    if month == 2 {
        if is_leap_year(year) {
            29
        } else {
            28
        }
    } else if month == 4 || month == 6 || month == 9 || month == 11 {
        30
    } else {
        31
    }
}

/// A month starts as many days after the month before it as that month
/// has.
pub proof fn lemma_next_month(year: int, month: int)
    requires
        1 <= month,
    ensures
        days_before_month(year, month + 1) == days_before_month(year, month) + month_days(
            year,
            month,
        ),
{
}

/// The time of day of a moment, from the seconds since midnight.
fn time_of_day(in_day: u64) -> (r: (u8, u8, u8))
    requires
        in_day < 86400,
    ensures
        r.0 == in_day / 3600,
        r.1 == (in_day % 3600) / 60,
        r.2 == in_day % 60,
{
    ((in_day / 3600) as u8, ((in_day % 3600) / 60) as u8, (in_day % 60) as u8)
}

/// Works out the date and the time of day of a moment.
pub fn civil_time(timestamp: u64) -> (t: CivilTime)
    ensures
        is_time_of(timestamp, t),
{
    let total: u64 = timestamp / 86400;
    let in_day: u64 = timestamp % 86400;
    let (hour, minute, second) = time_of_day(in_day);
    assert(timestamp % 3600 == in_day % 3600 && timestamp % 60 == in_day % 60) by {
        assert(timestamp == 86400 * (timestamp / 86400) + in_day);
        assert(86400 * (timestamp / 86400) == 3600 * (24 * (timestamp / 86400)));
        assert(86400 * (timestamp / 86400) == 60 * (1440 * (timestamp / 86400)));
    }
    let mut days: u64 = total;
    let mut year: u64 = 1970;
    while days >= days_in_year(year)
        invariant
            1970 <= year,
            year - 1970 <= total - days,
            days <= total,
            total <= u64::MAX / 86400,
            days + days_before_year(year as int) == total,
        decreases days,
    {
        days = days - days_in_year(year);
        year = year + 1;
    }
    let in_year: u64 = days;
    let mut month: u8 = 1;
    while month < 12 && days >= days_in_month(year, month)
        invariant
            1 <= month <= 12,
            days <= in_year,
            in_year < year_days(year as int),
            days + days_before_month(year as int, month as int) == in_year,
        decreases 12 - month,
    {
        proof {
            lemma_next_month(year as int, month as int);
        }
        days = days - days_in_month(year, month);
        month = month + 1;
    }
    proof {
        if month == 12 {
            lemma_year_is_twelve_months(year as int);
            lemma_next_month(year as int, 12);
        }
    }
    CivilTime { year, month, day: (days + 1) as u8, hour, minute, second }
}

/// Appends a number in two digits or more.
fn push_padded(n: u8, out: &mut Vec<char>)
    ensures
        final(out)@ == old(out)@ + padded(n as nat),
{
    if n < 10 {
        out.push('0');
    }
    push_decimal(n as u64, out);
    proof {
        if n < 10 {
            assert(out@ =~= old(out)@ + (seq!['0'] + decimal(n as nat)));
        }
    }
}

/// Writes a date and a time of day as `YYYY-MM-DDThh:mm:ss`.
pub fn military_text(t: CivilTime) -> (r: String)
    ensures
        r@ == time_text(t),
{
    let mut out: Vec<char> = Vec::new();
    push_decimal(t.year, &mut out);
    out.push('-');
    push_padded(t.month, &mut out);
    out.push('-');
    push_padded(t.day, &mut out);
    out.push('T');
    push_padded(t.hour, &mut out);
    out.push(':');
    push_padded(t.minute, &mut out);
    out.push(':');
    push_padded(t.second, &mut out);
    assert(out@ =~= time_text(t));
    string_of(out.as_slice())
}

/// Writes the date and the time of day of a moment as
/// `YYYY-MM-DDThh:mm:ss`.
pub fn format_military_time(timestamp: u64) -> (r: String)
    ensures
        exists|t: CivilTime| #[trigger] is_time_of(timestamp, t) && r@ == time_text(t),
{
    let t = civil_time(timestamp);
    military_text(t)
}

/// `SystemTime::elapsed`, asked of the start of 1970: the time that has
/// passed since then by the clock of the machine, or nothing where the
/// clock stands before it. Nothing is claimed of the value.
#[verifier::external_body]
fn since_epoch() -> (elapsed: Option<core::time::Duration>) {
    std::time::UNIX_EPOCH.elapsed().ok()
}

/// `Duration::as_secs` gives the whole seconds of a duration. Nothing is
/// claimed of the value.
pub assume_specification[ core::time::Duration::as_secs ](duration: &core::time::Duration) -> (seconds: u64)
;

/// The seconds that have passed since the start of 1970, by the clock of
/// the machine; 0 where the clock stands before that.
pub fn get_current_timestamp() -> (seconds: u64) {
    match since_epoch() {
        Some(elapsed) => elapsed.as_secs(),
        None => 0,
    }
}

/// Gets the current date and time as `YYYY-MM-DDThh:mm:ss`: the text of
/// whatever moment the clock gave.
pub fn get_current_military_time() -> (r: String)
    ensures
        exists|timestamp: u64, t: CivilTime| #[trigger]
            is_time_of(timestamp, t) && r@ == time_text(t),
{
    format_military_time(get_current_timestamp())
}

/// Later years start later.
pub proof fn lemma_days_before_year_grows(a: int, b: int)
    requires
        1970 <= a <= b,
    ensures
        days_before_year(a) + 365 * (b - a) <= days_before_year(b),
    decreases b - a,
{
    if a < b {
        lemma_days_before_year_grows(a, b - 1);
    }
}

/// Later months start later.
pub proof fn lemma_days_before_month_grows(year: int, a: int, b: int)
    requires
        1 <= a <= b,
    ensures
        days_before_month(year, a) + 28 * (b - a) <= days_before_month(year, b),
    decreases b - a,
{
    if a < b {
        lemma_days_before_month_grows(year, a, b - 1);
    }
}

/// A moment has one date and one time of day.
pub proof fn lemma_time_is_unique(timestamp: u64, a: CivilTime, b: CivilTime)
    requires
        is_time_of(timestamp, a),
        is_time_of(timestamp, b),
    ensures
        a == b,
{
    lemma_day_of_year_bound(a.year as int, a.month as int, a.day as int);
    lemma_day_of_year_bound(b.year as int, b.month as int, b.day as int);
    if a.year < b.year {
        lemma_days_before_year_grows(a.year as int + 1, b.year as int);
        assert(false);
    } else if b.year < a.year {
        lemma_days_before_year_grows(b.year as int + 1, a.year as int);
        assert(false);
    } else if a.month < b.month {
        lemma_days_before_month_grows(a.year as int, a.month as int + 1, b.month as int);
        assert(false);
    } else if b.month < a.month {
        lemma_days_before_month_grows(a.year as int, b.month as int + 1, a.month as int);
        assert(false);
    }
}

/// A day of a month lies before the next month and within the year.
proof fn lemma_day_of_year_bound(year: int, month: int, day: int)
    requires
        1970 <= year,
        1 <= month <= 12,
        1 <= day <= month_days(year, month),
    ensures
        0 <= days_before_month(year, month),
        days_before_month(year, month) + day <= days_before_month(year, month + 1),
        days_before_month(year, month + 1) <= year_days(year),
        days_before_year(year) + year_days(year) == days_before_year(year + 1),
{
    lemma_year_is_twelve_months(year);
    lemma_days_before_month_grows(year, month + 1, 13);
    lemma_days_before_month_grows(year, 1, month);
}

} // verus!
