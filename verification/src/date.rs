//! Calendar dates of the proleptic Gregorian calendar, as chrono's
//! `NaiveDate` represents them, with the chrono operations the tools use.
//!
//! A `Date` holds the year, month and day that the logic reads. Its model
//! is the day number: January 1 of year 1 is day 1, and consecutive dates
//! have consecutive numbers. chrono's operations (construction, arithmetic,
//! comparison, weekday, parsing and formatting) are called through the
//! wrappers below, whose contracts are stated over that model.

use vstd::prelude::*;
use chrono::{Datelike, NaiveDate, NaiveDateTime, NaiveTime, ParseError, TimeDelta, Timelike};
use crate::text::{chars_to_string, padded, push_padded};

verus! {

/// A calendar date (year, month 1..=12, day 1..=31).
#[derive(Clone, Copy, Debug, PartialEq, Eq)]
pub struct Date {
    pub year: i32,
    pub month: u32,
    pub day: u32,
}

/// A date with a time of day in whole minutes.
#[derive(Clone, Copy, Debug, PartialEq, Eq)]
pub struct DateTime {
    pub date: Date,
    pub hour: u32,
    pub minute: u32,
}

// ---------------------------------------------------------------------------
// The calendar
// ---------------------------------------------------------------------------

/// The earliest year a chrono date can hold.
pub open spec fn min_year() -> int {
    -262143
}

/// The latest year a chrono date can hold.
pub open spec fn max_year() -> int {
    262142
}

pub open spec fn is_leap_year(y: int) -> bool {
    (y % 4 == 0 && y % 100 != 0) || y % 400 == 0
}

pub open spec fn days_in_month(y: int, m: int) -> int {
    if m == 2 {
        if is_leap_year(y) { 29 } else { 28 }
    } else if m == 4 || m == 6 || m == 9 || m == 11 {
        30
    } else {
        31
    }
}

/// Year, month and day name a date that chrono can represent.
pub open spec fn ymd_valid(y: int, m: int, d: int) -> bool {
    &&& min_year() <= y <= max_year()
    &&& 1 <= m <= 12
    &&& 1 <= d <= days_in_month(y, m)
}

/// Days in the years before year `y` (counted from year 1).
#[verifier::opaque]
pub open spec fn days_before_year(y: int) -> int {
    let p = y - 1;
    365 * p + p / 4 - p / 100 + p / 400
}

/// Days in the months before month `m` of year `y`.
pub open spec fn days_before_month(y: int, m: int) -> int {
    let base: int = if m == 1 { 0 }
        else if m == 2 { 31 }
        else if m == 3 { 59 }
        else if m == 4 { 90 }
        else if m == 5 { 120 }
        else if m == 6 { 151 }
        else if m == 7 { 181 }
        else if m == 8 { 212 }
        else if m == 9 { 243 }
        else if m == 10 { 273 }
        else if m == 11 { 304 }
        else { 334 };
    base + if m > 2 && is_leap_year(y) { 1int } else { 0int }
}

/// The day number of a date: January 1 of year 1 is day 1 (chrono's
/// `num_days_from_ce`).
pub open spec fn day_number(y: int, m: int, d: int) -> int {
    days_before_year(y) + days_before_month(y, m) + d
}

/// The day number of the first representable date.
pub open spec fn first_day_number() -> int {
    day_number(min_year(), 1, 1)
}

/// The day number of the last representable date.
pub open spec fn last_day_number() -> int {
    day_number(max_year(), 12, 31)
}

/// A day number chrono can represent.
pub open spec fn in_date_range(n: int) -> bool {
    first_day_number() <= n <= last_day_number()
}

/// The day of the week counted from Sunday (Sunday 0 .. Saturday 6) of
/// the date with day number `n`; day 1 was a Monday.
pub open spec fn weekday_from_sunday(n: int) -> int {
    n % 7
}

/// The day of the week counted from Monday (Monday 0 .. Sunday 6).
pub open spec fn weekday_from_monday(n: int) -> int {
    (n + 6) % 7
}

/// The month after month `m` of year `y`.
pub open spec fn next_month(y: int, m: int) -> (int, int) {
    if m == 12 { (y + 1, 1) } else { (y, m + 1) }
}

impl Date {
    pub open spec fn valid(self) -> bool {
        ymd_valid(self.year as int, self.month as int, self.day as int)
    }

    /// The day number of this date.
    pub open spec fn num(self) -> int {
        day_number(self.year as int, self.month as int, self.day as int)
    }
}

impl DateTime {
    pub open spec fn valid(self) -> bool {
        self.date.valid() && self.hour < 24 && self.minute < 60
    }

    /// Minutes since the start of day 0.
    pub open spec fn minutes(self) -> int {
        self.date.num() * 1440 + self.hour * 60 + self.minute
    }
}

// ---------------------------------------------------------------------------
// Facts about the calendar
// ---------------------------------------------------------------------------

proof fn lemma_div_step(y: int, k: int)
    requires
        k > 0,
    ensures
        y / k - (y - 1) / k == (if y % k == 0 { 1int } else { 0int }),
{
    vstd::arithmetic::div_mod::lemma_fundamental_div_mod(y, k);
    vstd::arithmetic::div_mod::lemma_fundamental_div_mod(y - 1, k);
    vstd::arithmetic::div_mod::lemma_mod_bound(y, k);
    vstd::arithmetic::div_mod::lemma_mod_bound(y - 1, k);
    let q1 = y / k;
    let q0 = (y - 1) / k;
    let r1 = y % k;
    let r0 = (y - 1) % k;
    assert(k * q1 + r1 == y);
    assert(k * q0 + r0 == y - 1);
    assert(k * (q1 - q0) == r0 - r1 + 1) by (nonlinear_arith)
        requires
            k * q1 + r1 == y,
            k * q0 + r0 == y - 1,
    ;
    if q1 - q0 >= 2 {
        assert(k * (q1 - q0) >= 2 * k) by (nonlinear_arith)
            requires
                q1 - q0 >= 2,
                k > 0,
        ;
    }
    if q1 - q0 <= -1 {
        assert(k * (q1 - q0) <= -k) by (nonlinear_arith)
            requires
                q1 - q0 <= -1,
                k > 0,
        ;
    }
    if q1 - q0 == 1 {
        assert(k * (q1 - q0) == k) by (nonlinear_arith)
            requires
                q1 - q0 == 1,
        ;
        assert(r0 - r1 + 1 == k);
    } else {
        assert(q1 - q0 == 0);
        assert(r0 + 1 == r1);
    }
}

/// The next year starts one year-length after this one.
pub proof fn lemma_year_length(y: int)
    ensures
        days_before_year(y + 1) == days_before_year(y) + 365 + (if is_leap_year(y) { 1int } else { 0int }),
{
    reveal(days_before_year);
    lemma_div_step(y, 4);
    lemma_div_step(y, 100);
    lemma_div_step(y, 400);
    if y % 400 == 0 {
        vstd::arithmetic::div_mod::lemma_fundamental_div_mod(y, 400);
        assert(y % 100 == 0 && y % 4 == 0) by {
            let q = y / 400;
            assert(y == 400 * q);
            assert(y == (4 * q) * 100) by (nonlinear_arith)
                requires y == 400 * q;
            assert(y == (100 * q) * 4) by (nonlinear_arith)
                requires y == 400 * q;
            vstd::arithmetic::div_mod::lemma_mod_multiples_basic(4 * q, 100);
            vstd::arithmetic::div_mod::lemma_mod_multiples_basic(100 * q, 4);
        }
    } else if y % 100 == 0 {
        vstd::arithmetic::div_mod::lemma_fundamental_div_mod(y, 100);
        assert(y % 4 == 0) by {
            let q = y / 100;
            assert(y == (25 * q) * 4) by (nonlinear_arith)
                requires y == 100 * q;
            vstd::arithmetic::div_mod::lemma_mod_multiples_basic(25 * q, 4);
        }
    }
}

/// The first day of the next month comes one month-length after the
/// first day of this month.
pub proof fn lemma_month_length(y: int, m: int)
    requires
        1 <= m <= 12,
    ensures
        day_number(next_month(y, m).0, next_month(y, m).1, 1) == day_number(y, m, 1) + days_in_month(y, m),
{
    if m == 12 {
        lemma_year_length(y);
    }
}

/// Year starts grow by at least 365 and at most 366 days a year.
pub proof fn lemma_year_starts(y1: int, y2: int)
    requires
        y1 <= y2,
    ensures
        days_before_year(y1) + 365 * (y2 - y1) <= days_before_year(y2),
        days_before_year(y2) <= days_before_year(y1) + 366 * (y2 - y1),
    decreases y2 - y1,
{
    if y1 < y2 {
        lemma_year_starts(y1, y2 - 1);
        lemma_year_length(y2 - 1);
    }
}

/// Every valid date has a representable day number.
pub proof fn lemma_valid_in_range(y: int, m: int, d: int)
    requires
        ymd_valid(y, m, d),
    ensures
        in_date_range(day_number(y, m, d)),
{
    lemma_year_starts(min_year(), y);
    lemma_year_starts(y, max_year());
    lemma_year_length(y);
    lemma_year_length(max_year());
}

/// The position of a valid date within its year lies between 1 and the
/// year's length.
proof fn lemma_day_of_year(y: int, m: int, d: int)
    requires
        1 <= m <= 12,
        1 <= d <= days_in_month(y, m),
    ensures
        1 <= days_before_month(y, m) + d <= 365 + (if is_leap_year(y) { 1int } else { 0int }),
{
}

/// Distinct valid dates have distinct day numbers.
pub proof fn lemma_day_number_injective(y1: int, m1: int, d1: int, y2: int, m2: int, d2: int)
    requires
        ymd_valid(y1, m1, d1),
        ymd_valid(y2, m2, d2),
        day_number(y1, m1, d1) == day_number(y2, m2, d2),
    ensures
        y1 == y2 && m1 == m2 && d1 == d2,
{
    lemma_day_of_year(y1, m1, d1);
    lemma_day_of_year(y2, m2, d2);
    lemma_year_length(y1);
    lemma_year_length(y2);
    if y1 < y2 {
        lemma_year_starts(y1 + 1, y2);
    } else if y2 < y1 {
        lemma_year_starts(y2 + 1, y1);
    } else {
        if m1 < m2 {
            lemma_months_ordered(y1, m1, m2);
        } else if m2 < m1 {
            lemma_months_ordered(y1, m2, m1);
        }
    }
}

proof fn lemma_months_ordered(y: int, m1: int, m2: int)
    requires
        1 <= m1 < m2 <= 12,
    ensures
        days_before_month(y, m1) + days_in_month(y, m1) <= days_before_month(y, m2),
{
}

/// The (year, month, day) of the valid date with day number `n`.
pub open spec fn date_of(n: int) -> (int, int, int) {
    choose|t: (int, int, int)| ymd_valid(t.0, t.1, t.2) && day_number(t.0, t.1, t.2) == n
}

/// A valid date is the date of its own day number.
pub proof fn lemma_date_of(y: int, m: int, d: int)
    requires
        ymd_valid(y, m, d),
    ensures
        date_of(day_number(y, m, d)) == (y, m, d),
{
    let n = day_number(y, m, d);
    assert(ymd_valid((y, m, d).0, (y, m, d).1, (y, m, d).2) && day_number((y, m, d).0, (y, m, d).1, (y, m, d).2) == n);
    let t = date_of(n);
    lemma_day_number_injective(t.0, t.1, t.2, y, m, d);
}

/// The (year, month, day, hour, minute) of the moment `t` minutes after
/// the start of day 0.
pub open spec fn moment_of(t: int) -> (int, int, int, int, int) {
    let (y, m, d) = date_of(t / 1440);
    (y, m, d, (t % 1440) / 60, t % 60)
}

/// A valid moment is the moment of its own minute count.
pub proof fn lemma_moment_of(t: DateTime)
    requires
        t.valid(),
    ensures
        moment_of(t.minutes()) == (t.date.year as int, t.date.month as int, t.date.day as int, t.hour as int, t.minute as int),
{
    let n = t.date.num();
    let within = t.hour * 60 + t.minute;
    vstd::arithmetic::div_mod::lemma_fundamental_div_mod_converse(t.minutes(), 1440, n, within);
    vstd::arithmetic::div_mod::lemma_fundamental_div_mod_converse(within, 60, t.hour as int, t.minute as int);
    vstd::arithmetic::div_mod::lemma_fundamental_div_mod_converse(t.minutes(), 60, n * 24 + t.hour, t.minute as int);
    lemma_date_of(t.date.year as int, t.date.month as int, t.date.day as int);
}

// ---------------------------------------------------------------------------
// chrono's operations
// ---------------------------------------------------------------------------

/// Calls `NaiveDate::from_ymd_opt`: a date exactly when the three numbers
/// name a representable date.
#[verifier::external_body]
pub(crate) fn from_ymd(year: i32, month: u32, day: u32) -> (res: Option<Date>)
    ensures
        res == (if ymd_valid(year as int, month as int, day as int) {
            Some(Date { year, month, day })
        } else {
            None
        }),
{
    match NaiveDate::from_ymd_opt(year, month, day) {
        Some(nd) => Some(Date { year: nd.year(), month: nd.month(), day: nd.day() }),
        None => None,
    }
}

/// Calls `Datelike::with_day` on chrono's date: the same year and month
/// with the given day, when that date exists.
#[verifier::external_body]
pub(crate) fn with_day(d: Date, day: u32) -> (res: Option<Date>)
    requires
        d.valid(),
    ensures
        res == (if ymd_valid(d.year as int, d.month as int, day as int) {
            Some(Date { year: d.year, month: d.month, day })
        } else {
            None
        }),
{
    let nd = NaiveDate::from_ymd_opt(d.year, d.month, d.day).unwrap();
    match nd.with_day(day) {
        Some(r) => Some(Date { year: r.year(), month: r.month(), day: r.day() }),
        None => None,
    }
}

/// Calls `NaiveDate::checked_add_signed` with a whole number of days (the
/// checked form of `date + Duration::days(n)`): the date `n` days later,
/// when it is representable.
#[verifier::external_body]
pub(crate) fn add_days(d: Date, n: i64) -> (res: Option<Date>)
    requires
        d.valid(),
        -100_000_000_000 <= n <= 100_000_000_000,
    ensures
        res is Some <==> in_date_range(d.num() + n),
        res matches Some(r) ==> r.valid() && r.num() == d.num() + n,
{
    let nd = NaiveDate::from_ymd_opt(d.year, d.month, d.day).unwrap();
    match nd.checked_add_signed(TimeDelta::days(n)) {
        Some(r) => Some(Date { year: r.year(), month: r.month(), day: r.day() }),
        None => None,
    }
}

/// Calls `NaiveDate::signed_duration_since` and counts whole days: the
/// number of days from `b` to `a`.
#[verifier::external_body]
pub(crate) fn days_between(a: Date, b: Date) -> (res: i64)
    requires
        a.valid(),
        b.valid(),
    ensures
        res == a.num() - b.num(),
{
    let na = NaiveDate::from_ymd_opt(a.year, a.month, a.day).unwrap();
    let nb = NaiveDate::from_ymd_opt(b.year, b.month, b.day).unwrap();
    na.signed_duration_since(nb).num_days()
}

/// Calls `PartialOrd::le` on chrono's dates, which are ordered in time.
#[verifier::external_body]
pub(crate) fn date_le(a: Date, b: Date) -> (res: bool)
    requires
        a.valid(),
        b.valid(),
    ensures
        res == (a.num() <= b.num()),
{
    let na = NaiveDate::from_ymd_opt(a.year, a.month, a.day).unwrap();
    let nb = NaiveDate::from_ymd_opt(b.year, b.month, b.day).unwrap();
    na <= nb
}

/// Calls `Weekday::num_days_from_sunday` on the date's weekday.
#[verifier::external_body]
pub(crate) fn days_from_sunday(d: Date) -> (res: u32)
    requires
        d.valid(),
    ensures
        res == weekday_from_sunday(d.num()),
{
    let nd = NaiveDate::from_ymd_opt(d.year, d.month, d.day).unwrap();
    nd.weekday().num_days_from_sunday()
}

/// Calls `Weekday::num_days_from_monday` on the date's weekday.
#[verifier::external_body]
pub(crate) fn days_from_monday(d: Date) -> (res: u32)
    requires
        d.valid(),
    ensures
        res == weekday_from_monday(d.num()),
{
    let nd = NaiveDate::from_ymd_opt(d.year, d.month, d.day).unwrap();
    nd.weekday().num_days_from_monday()
}

/// chrono's `ParseError`: why a text did not parse as a date (or date and
/// time). Its kind is carried to the caller as it is.
#[verifier::external_type_specification]
#[verifier::external_body]
pub struct ExParseError(chrono::ParseError);

/// What `NaiveDate::parse_from_str(s, "%Y-%m-%d")` yields for `s`, as
/// (year, month, day).
pub uninterp spec fn iso_date(s: Seq<char>) -> Option<(i32, u32, u32)>;

/// Calls `NaiveDate::parse_from_str` with the format `"%Y-%m-%d"`. The
/// contract states that the outcome is the named function of the input and
/// that a parsed date exists; chrono's parsing rules (widths, signs,
/// padding) are not restated, nor which kind of error a failure reports.
#[verifier::external_body]
pub(crate) fn parse_iso_date(s: &str) -> (res: Result<Date, ParseError>)
    ensures
        match res {
            Ok(d) => iso_date(s@) == Some((d.year, d.month, d.day)) && d.valid(),
            Err(_) => iso_date(s@) is None,
        },
{
    match NaiveDate::parse_from_str(s, "%Y-%m-%d") {
        Ok(nd) => Ok(Date { year: nd.year(), month: nd.month(), day: nd.day() }),
        Err(e) => Err(e),
    }
}

/// What `NaiveDateTime::parse_from_str(s, "%Y-%m-%d %H:%M")` yields for
/// `s`, as (year, month, day, hour, minute).
pub uninterp spec fn iso_date_minute(s: Seq<char>) -> Option<(i32, u32, u32, u32, u32)>;

/// Calls `NaiveDateTime::parse_from_str` with the format
/// `"%Y-%m-%d %H:%M"`. The contract states that the outcome is the named
/// function of the input and that a parsed value is a real date and time of
/// day; chrono's parsing rules are not restated, nor which kind of error a
/// failure reports. The format holds no seconds, so the parsed seconds are
/// zero.
#[verifier::external_body]
pub(crate) fn parse_iso_date_minute(s: &str) -> (res: Result<DateTime, ParseError>)
    ensures
        match res {
            Ok(t) => iso_date_minute(s@) == Some((t.date.year, t.date.month, t.date.day, t.hour, t.minute))
                && t.valid(),
            Err(_) => iso_date_minute(s@) is None,
        },
{
    match NaiveDateTime::parse_from_str(s, "%Y-%m-%d %H:%M") {
        Ok(t) => Ok(DateTime {
            date: Date { year: t.year(), month: t.month(), day: t.day() },
            hour: t.hour(),
            minute: t.minute(),
        }),
        Err(e) => Err(e),
    }
}

/// Calls `NaiveDateTime::checked_add_signed` with a whole number of minutes
/// (the checked form of `datetime + Duration::minutes(n)`): the moment `n`
/// minutes later, when its date is representable.
#[verifier::external_body]
pub(crate) fn add_minutes(t: DateTime, n: i64) -> (res: Option<DateTime>)
    requires
        t.valid(),
        -100_000_000_000 <= n <= 100_000_000_000,
    ensures
        res is Some <==> in_date_range((t.minutes() + n) / 1440),
        res matches Some(r) ==> r.valid() && r.minutes() == t.minutes() + n,
{
    let nd = NaiveDate::from_ymd_opt(t.date.year, t.date.month, t.date.day).unwrap();
    let nt = NaiveTime::from_hms_opt(t.hour, t.minute, 0).unwrap();
    match NaiveDateTime::new(nd, nt).checked_add_signed(TimeDelta::minutes(n)) {
        Some(r) => Some(DateTime {
            date: Date { year: r.year(), month: r.month(), day: r.day() },
            hour: r.hour(),
            minute: r.minute(),
        }),
        None => None,
    }
}

// ---------------------------------------------------------------------------
// The ISO form that chrono's `Display` writes
// ---------------------------------------------------------------------------

/// The year as chrono writes it in a date: four digits for years 0 to
/// 9999, otherwise a sign and at least four digits (`{:+05}`).
pub open spec fn year_text(y: int) -> Seq<char> {
    if 0 <= y <= 9999 {
        padded(y as nat, 4)
    } else if y < 0 {
        seq!['-'] + padded((-y) as nat, 4)
    } else {
        seq!['+'] + padded(y as nat, 4)
    }
}

/// `YYYY-MM-DD`, as `Display` for chrono's `NaiveDate` writes the date.
pub open spec fn iso_text(d: Date) -> Seq<char> {
    year_text(d.year as int) + seq!['-'] + padded(d.month as nat, 2) + seq!['-'] + padded(d.day as nat, 2)
}

/// Writes the date as `YYYY-MM-DD` (the form chrono's `Display` gives).
pub fn date_iso(d: Date) -> (res: String)
    ensures
        res@ == iso_text(d),
{
    let mut v: Vec<char> = Vec::new();
    let y: i64 = d.year as i64;
    if 0 <= y && y <= 9999 {
        push_padded(&mut v, y as u64, 4);
    } else if y < 0 {
        v.push('-');
        push_padded(&mut v, (-y) as u64, 4);
    } else {
        v.push('+');
        push_padded(&mut v, y as u64, 4);
    }
    v.push('-');
    push_padded(&mut v, d.month as u64, 2);
    v.push('-');
    push_padded(&mut v, d.day as u64, 2);
    assert(v@ =~= iso_text(d));
    chars_to_string(&v)
}

/// What `NaiveDate::format(fmt).to_string()` gives for the date
/// (year, month, day).
pub uninterp spec fn strftime_date(y: int, m: int, d: int, fmt: Seq<char>) -> Seq<char>;

/// A format string whose every `%` introduces one of the date fields
/// `Y m d B b a`, which chrono can always render for a date.
pub open spec fn date_format_ok(fmt: Seq<char>) -> bool {
    forall|i: int| 0 <= i < fmt.len() && #[trigger] fmt[i] == '%' ==> {
        &&& i + 1 < fmt.len()
        &&& (fmt[i + 1] == 'Y' || fmt[i + 1] == 'm' || fmt[i + 1] == 'd' || fmt[i + 1] == 'B'
            || fmt[i + 1] == 'b' || fmt[i + 1] == 'a')
    }
}

/// A format string whose every `%` introduces one of the fields
/// `Y m d H M S`, which chrono can always render for a date and time.
pub open spec fn date_minute_format_ok(fmt: Seq<char>) -> bool {
    forall|i: int| 0 <= i < fmt.len() && #[trigger] fmt[i] == '%' ==> {
        &&& i + 1 < fmt.len()
        &&& (fmt[i + 1] == 'Y' || fmt[i + 1] == 'm' || fmt[i + 1] == 'd' || fmt[i + 1] == 'H'
            || fmt[i + 1] == 'M' || fmt[i + 1] == 'S')
    }
}

/// Calls `NaiveDate::format` and renders it. The result is named as a
/// function of the date and the format string; chrono's strftime rules are
/// not restated.
#[verifier::external_body]
pub(crate) fn format_date(d: Date, fmt: &str) -> (res: String)
    requires
        d.valid(),
        date_format_ok(fmt@),
    ensures
        res@ == strftime_date(d.year as int, d.month as int, d.day as int, fmt@),
{
    let nd = NaiveDate::from_ymd_opt(d.year, d.month, d.day).unwrap();
    nd.format(fmt).to_string()
}

/// What `NaiveDateTime::format(fmt).to_string()` gives for the moment
/// (year, month, day, hour, minute, second 0).
pub uninterp spec fn strftime_date_minute(y: int, m: int, d: int, h: int, mi: int, fmt: Seq<char>) -> Seq<char>;

/// Calls `NaiveDateTime::format` and renders it. The result is named as a
/// function of the moment and the format string; chrono's strftime rules
/// are not restated.
#[verifier::external_body]
pub(crate) fn format_date_minute(t: DateTime, fmt: &str) -> (res: String)
    requires
        t.valid(),
        date_minute_format_ok(fmt@),
    ensures
        res@ == strftime_date_minute(
            t.date.year as int, t.date.month as int, t.date.day as int, t.hour as int, t.minute as int, fmt@),
{
    let nd = NaiveDate::from_ymd_opt(t.date.year, t.date.month, t.date.day).unwrap();
    let nt = NaiveTime::from_hms_opt(t.hour, t.minute, 0).unwrap();
    NaiveDateTime::new(nd, nt).format(fmt).to_string()
}

} // verus!
