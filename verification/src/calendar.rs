//! Calendar dates and the calls into `chrono` that read, step, format and place them
//! in the local time zone.
use chrono::{Datelike, Days, Local, NaiveDate, TimeZone, Utc};
use vstd::prelude::*;

use crate::text::{decimal, digit_char};

verus! {

/// A proleptic Gregorian calendar date.
#[derive(Clone, Copy, Debug, PartialEq, Eq, Structural)]
pub struct Date {
    pub year: i32,
    pub month: u32,
    pub day: u32,
}

/// The first year that `chrono::NaiveDate` represents.
pub open spec fn min_year() -> int {
    -262143
}

/// The last year that `chrono::NaiveDate` represents.
pub open spec fn max_year() -> int {
    262142
}

pub open spec fn is_leap_year(y: int) -> bool {
    (y % 4 == 0 && y % 100 != 0) || y % 400 == 0
}

pub open spec fn days_in_month(y: int, m: int) -> int {
    if m == 2 {
        if is_leap_year(y) {
            29
        } else {
            28
        }
    } else if m == 4 || m == 6 || m == 9 || m == 11 {
        30
    } else {
        31
    }
}

/// Whether `y-m-d` is a date that `chrono::NaiveDate` can hold.
pub open spec fn is_valid_date(y: int, m: int, d: int) -> bool {
    &&& min_year() <= y <= max_year()
    &&& 1 <= m <= 12
    &&& 1 <= d <= days_in_month(y, m)
}

impl Date {
    pub open spec fn valid(self) -> bool {
        is_valid_date(self.year as int, self.month as int, self.day as int)
    }
}

/// The day after `d`, if `chrono::NaiveDate` can hold it.
pub open spec fn next_day(d: Date) -> Option<Date> {
    if (d.day as int) < days_in_month(d.year as int, d.month as int) {
        Some(Date { year: d.year, month: d.month, day: (d.day + 1) as u32 })
    } else if d.month < 12 {
        Some(Date { year: d.year, month: (d.month + 1) as u32, day: 1 })
    } else if (d.year as int) < max_year() {
        Some(Date { year: (d.year + 1) as i32, month: 1, day: 1 })
    } else {
        None
    }
}

/// Whether `a` is an earlier date than `b`.
pub open spec fn date_before(a: Date, b: Date) -> bool {
    ||| a.year < b.year
    ||| a.year == b.year && a.month < b.month
    ||| a.year == b.year && a.month == b.month && a.day < b.day
}

/// A count of days that grows by one from each date to the next (days since 0000-03-01).
pub open spec fn day_index(d: Date) -> int {
    let y = if d.month <= 2 {
        d.year - 1
    } else {
        d.year as int
    };
    let m = if d.month <= 2 {
        d.month + 9
    } else {
        d.month - 3
    };
    365 * y + y / 4 - y / 100 + y / 400 + (153 * m + 2) / 5 + d.day - 1
}

/// A key that grows with the date (not by one per day): used to bound walks over dates.
pub open spec fn date_rank(d: Date) -> int {
    (d.year - min_year()) * 416 + d.month * 32 + d.day
}

/// Whether `a` comes before `b` in the calendar.
pub fn is_before(a: Date, b: Date) -> (r: bool)
    ensures
        r == date_before(a, b),
{
    a.year < b.year || (a.year == b.year && (a.month < b.month || (a.month == b.month && a.day
        < b.day)))
}

/// Whether `e` is one of the texts that chrono's `ParseError` displays.
pub open spec fn parse_error_text(e: Seq<char>) -> bool {
    ||| e == "input is out of range"@
    ||| e == "no possible date and time matching input"@
    ||| e == "input is not enough for unique date and time"@
    ||| e == "input contains invalid characters"@
    ||| e == "premature end of input"@
    ||| e == "trailing input"@
    ||| e == "bad or unsupported format string"@
}

/// The name of what `NaiveDate::parse_from_str(s, "%Y-%m-%d")` reads from `s`: the date,
/// or nothing where `s` is not such a date.
pub uninterp spec fn ymd_text_date(s: Seq<char>) -> Option<Date>;

/// Calls `NaiveDate::parse_from_str` with the format `%Y-%m-%d`. The result is the named
/// parse of the text; a parsed date is a valid `NaiveDate`. The text of the error is the
/// `Display` of `chrono::ParseError`, one of its seven messages; which one is not stated.
#[verifier::external_body]
pub(crate) fn parse_date(s: &str) -> (r: Result<Date, String>)
    ensures
        (match r {
            Ok(d) => Some(d),
            Err(_) => None,
        }) == ymd_text_date(s@),
        r matches Ok(d) ==> d.valid(),
        r matches Err(e) ==> parse_error_text(e@),
{
    match NaiveDate::parse_from_str(s, "%Y-%m-%d") {
        Ok(d) => Ok(Date { year: d.year(), month: d.month(), day: d.day() }),
        Err(e) => Err(e.to_string()),
    }
}

/// Calls `NaiveDate::from_ymd_opt`, which gives the date when the year is in chrono's
/// range and the month and day name a day of the proleptic Gregorian calendar.
#[verifier::external_body]
pub(crate) fn date_from_ymd(year: i32, month: u32, day: u32) -> (r: Option<Date>)
    ensures
        r == (if is_valid_date(year as int, month as int, day as int) {
            Some(Date { year, month, day })
        } else {
            None
        }),
{
    match NaiveDate::from_ymd_opt(year, month, day) {
        Some(d) => Some(Date { year: d.year(), month: d.month(), day: d.day() }),
        None => None,
    }
}

/// Calls `NaiveDate::checked_add_days` with one day: the next calendar day, or nothing
/// past `NaiveDate::MAX` (the last day of year 262142).
#[verifier::external_body]
pub(crate) fn next_date(d: Date) -> (r: Option<Date>)
    requires
        d.valid(),
    ensures
        r == next_day(d),
{
    match NaiveDate::from_ymd_opt(d.year, d.month, d.day) {
        Some(n) => match n.checked_add_days(Days::new(1)) {
            Some(x) => Some(Date { year: x.year(), month: x.month(), day: x.day() }),
            None => None,
        },
        None => None,
    }
}

/// Calls `NaiveDate::signed_duration_since` and `TimeDelta::num_days`: the number of
/// days from `first` to `last`.
#[verifier::external_body]
pub(crate) fn days_between(first: Date, last: Date) -> (r: i64)
    requires
        first.valid(),
        last.valid(),
    ensures
        r == day_index(last) - day_index(first),
{
    match (
        NaiveDate::from_ymd_opt(first.year, first.month, first.day),
        NaiveDate::from_ymd_opt(last.year, last.month, last.day),
    ) {
        (Some(a), Some(b)) => b.signed_duration_since(a).num_days(),
        _ => 0,
    }
}

/// The milliseconds since the epoch of midnight UTC at the start of `d`.
pub open spec fn utc_midnight_ms(d: Date) -> int {
    (day_index(d) - 719468) * 86_400_000
}

/// Whether `ms` is less than a day away from midnight UTC at the start of `d`: where local
/// midnight of `d` can fall in any time zone.
pub open spec fn placed_at(d: Date, ms: int) -> bool {
    utc_midnight_ms(d) - 86_400_000 < ms < utc_midnight_ms(d) + 86_400_000
}

/// Whether `d` can be the local date of the instant `ms` in some time zone: `ms` lies
/// less than a day before midnight UTC of `d`, or less than two days after it.
pub open spec fn local_date_near(d: Date, ms: int) -> bool {
    utc_midnight_ms(d) - 86_400_000 < ms < utc_midnight_ms(d) + 2 * 86_400_000
}

/// Whether `ms` lies at least a day inside the instants that chrono's `DateTime` holds
/// (from -262143-01-01 to 262142-12-31 in UTC), so that it stays inside them in any
/// time zone.
pub open spec fn within_local_range(ms: int) -> bool {
    -8_334_601_142_400_000 <= ms <= 8_210_266_790_399_999
}

/// Calls chrono to place local midnight at the start of `d` in the machine's time zone
/// (`Local.from_local_datetime`) and gives it in milliseconds since the epoch; nothing
/// where that local time does not exist or is ambiguous. Which instant it is depends on
/// the machine's time zone; what holds of every outcome is that it is the local midnight
/// less the zone's offset, and chrono's offsets are less than a day in size
/// (`FixedOffset::east_opt` refuses a day or more), so it lies less than a day from
/// midnight UTC of the same date.
#[verifier::external_body]
pub(crate) fn local_day_start(d: Date) -> (r: Option<i64>)
    requires
        d.valid(),
    ensures
        r matches Some(s) ==> placed_at(d, s as int),
{
    let naive = match NaiveDate::from_ymd_opt(d.year, d.month, d.day) {
        Some(n) => n.and_hms_opt(0, 0, 0),
        None => None,
    };
    match naive {
        Some(v) => match Local.from_local_datetime(&v).single() {
            Some(t) => Some(t.with_timezone(&Utc).timestamp_millis()),
            None => None,
        },
        None => None,
    }
}

/// The two-digit form of a number below 100, as chrono's `%m`, `%d` and `%H` write it.
pub open spec fn two_digits(n: int) -> Seq<char> {
    seq![digit_char(n / 10), digit_char(n % 10)]
}

/// The four-digit form of a year from 0 to 9999, as chrono's `%Y` writes it.
pub open spec fn four_digits(n: int) -> Seq<char> {
    seq![digit_char(n / 1000), digit_char((n / 100) % 10), digit_char((n / 10) % 10), digit_char(n % 10)]
}

/// Calls chrono to turn `ms` into a local time in the machine's time zone and formats its
/// hour as `%H:00`. The hour depends on the time zone; the text is always two digits of an
/// hour below 24 followed by `:00`.
#[verifier::external_body]
pub(crate) fn local_hour_label(ms: i64) -> (r: Option<String>)
    ensures
        r matches Some(s) ==> exists|h: int| 0 <= h < 24 && s@ == two_digits(h) + seq![':', '0', '0'],
{
    match Local.timestamp_millis_opt(ms).single() {
        Some(t) => Some(t.format("%H:00").to_string()),
        None => None,
    }
}

/// Calls chrono to turn `ms` into the local calendar date in the machine's time zone
/// (`Local.timestamp_millis_opt`, then `DateTime::date_naive`). `date_naive` panics where
/// the zone's offset pushes the local time outside chrono's range, so `ms` must lie a
/// day inside it. Inside that range `timestamp_millis_opt` gives a single time, so there is
/// always a date. The date depends on the time zone; it is a valid `NaiveDate`, and as
/// chrono's offsets are less than a day in size, `ms` lies less than a day before its
/// midnight UTC or less than two days after it.
#[verifier::external_body]
pub(crate) fn local_date_of(ms: i64) -> (r: Option<Date>)
    requires
        within_local_range(ms as int),
    ensures
        r is Some,
        r matches Some(d) ==> d.valid() && local_date_near(d, ms as int),
{
    match Local.timestamp_millis_opt(ms).single() {
        Some(t) => {
            let n = t.date_naive();
            Some(Date { year: n.year(), month: n.month(), day: n.day() })
        },
        None => None,
    }
}

/// The text chrono's `%Y` writes for a year: four digits from 0 to 9999, otherwise a
/// sign and the digits, padded with zeros to at least four.
pub open spec fn year_text(y: int) -> Seq<char> {
    if 0 <= y <= 9999 {
        four_digits(y)
    } else {
        let digits = decimal(if y < 0 { (-y) as nat } else { y as nat });
        let padded = if digits.len() < 4 {
            Seq::new((4 - digits.len()) as nat, |i: int| '0') + digits
        } else {
            digits
        };
        seq![if y < 0 { '-' } else { '+' }] + padded
    }
}

/// The text chrono's `format` writes for a date with the format `%Y/%m/%d`, `%m/%d` or
/// (any other format here) `%Y/%m`: months and days with two digits, the year as
/// `year_text` gives it.
pub open spec fn formatted_date(d: Date, fmt: Seq<char>) -> Seq<char> {
    if fmt == "%Y/%m/%d"@ {
        year_text(d.year as int) + seq!['/'] + two_digits(d.month as int) + seq!['/'] + two_digits(
            d.day as int,
        )
    } else if fmt == "%m/%d"@ {
        two_digits(d.month as int) + seq!['/'] + two_digits(d.day as int)
    } else {
        year_text(d.year as int) + seq!['/'] + two_digits(d.month as int)
    }
}

/// Calls `NaiveDate::format` with one of the formats `%Y/%m/%d`, `%m/%d` and `%Y/%m`:
/// months and days with two digits, years from 0 to 9999 with four, other years with a
/// sign and at least four digits (chrono's `write_year`).
#[verifier::external_body]
pub(crate) fn format_date(d: Date, fmt: &str) -> (r: String)
    requires
        d.valid(),
        fmt@ == "%Y/%m/%d"@ || fmt@ == "%m/%d"@ || fmt@ == "%Y/%m"@,
    ensures
        r@ == formatted_date(d, fmt@),
{
    match NaiveDate::from_ymd_opt(d.year, d.month, d.day) {
        Some(n) => n.format(fmt).to_string(),
        None => String::new(),
    }
}

/// Calls `Utc::now` and gives the current time in milliseconds since the epoch. It reads
/// the clock, so nothing is stated of it.
#[verifier::external_body]
pub fn now_ms() -> (r: i64) {
    Utc::now().timestamp_millis()
}

/// Calls `Local::now` and formats today's local date as `%Y-%m-%d`. It reads the clock
/// and the time zone, so nothing is stated of it.
#[verifier::external_body]
pub fn today() -> (r: String) {
    Local::now().format("%Y-%m-%d").to_string()
}

/// The count of days grows by exactly one from each date to the next.
pub proof fn law_day_index_steps_by_one(d: Date)
    requires
        d.valid(),
        next_day(d) is Some,
    ensures
        day_index(next_day(d).unwrap()) == day_index(d) + 1,
{
    let n = next_day(d).unwrap();
    if d.month == 2 && (d.day as int) == days_in_month(d.year as int, 2) {
        let y = d.year as int;
        assert(n.year == d.year && n.month == 3 && n.day == 1);
        assert(y / 4 - (y - 1) / 4 == if y % 4 == 0 { 1int } else { 0int });
        assert(y / 100 - (y - 1) / 100 == if y % 100 == 0 { 1int } else { 0int });
        assert(y / 400 - (y - 1) / 400 == if y % 400 == 0 { 1int } else { 0int });
    }
}

/// The date after a valid date is valid, and later.
pub proof fn lemma_next_day_valid(d: Date)
    requires
        d.valid(),
    ensures
        next_day(d) matches Some(n) ==> n.valid() && date_before(d, n) && date_rank(n) > date_rank(
            d,
        ),
{
}

} // verus!
