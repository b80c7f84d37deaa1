//! The contents of the calendar sheets: a 14-week (or N-week) calendar
//! starting on a Sunday, and a gantt-style schedule whose columns are weeks
//! starting on Mondays. The workbook itself is written by the program.

use vstd::prelude::*;
use crate::date::{
    add_days, date_iso, date_le, day_number, iso_text, last_day_number, days_between, days_from_monday, days_from_sunday, first_day_number,
    format_date, from_ymd, in_date_range, iso_date, lemma_month_length, lemma_valid_in_range,
    max_year, next_month, parse_iso_date, strftime_date, weekday_from_monday, weekday_from_sunday,
    with_day, Date,
};
use crate::text::{chars_to_string, decimal, has_suffix, push_decimal, push_str};

verus! {

// ---------------------------------------------------------------------------
// Snapping to the start of a week
// ---------------------------------------------------------------------------

/// Parses a `YYYY-MM-DD` start date (chrono's `"%Y-%m-%d"`).
pub fn parse_date(s: &str) -> (res: Option<Date>)
    ensures
        match res {
            Some(d) => iso_date(s@) == Some((d.year, d.month, d.day)) && d.valid(),
            None => iso_date(s@) is None,
        },
{
    match parse_iso_date(s) {
        Ok(d) => Some(d),
        Err(_) => None,
    }
}

/// Snapping a day to the Sunday that starts its week gives a Sunday, and
/// snapping that Sunday again leaves it where it is.
pub proof fn sunday_snap_is_stable(n: int)
    ensures
        weekday_from_sunday(n - weekday_from_sunday(n)) == 0,
        weekday_from_sunday((n - weekday_from_sunday(n)) - weekday_from_sunday(n - weekday_from_sunday(n)))
            == weekday_from_sunday(n - weekday_from_sunday(n)),
        0 <= weekday_from_sunday(n) <= 6,
{
    vstd::arithmetic::div_mod::lemma_fundamental_div_mod(n, 7);
    let r = n % 7;
    let q = n / 7;
    vstd::arithmetic::div_mod::lemma_fundamental_div_mod_converse(n - r, 7, q, 0);
}

/// Snapping a day to the Monday that starts its week gives a Monday.
pub proof fn monday_snap_is_monday(n: int)
    ensures
        weekday_from_monday(n - weekday_from_monday(n)) == 0,
        0 <= weekday_from_monday(n) <= 6,
{
    vstd::arithmetic::div_mod::lemma_fundamental_div_mod(n + 6, 7);
    let r = (n + 6) % 7;
    let q = (n + 6) / 7;
    vstd::arithmetic::div_mod::lemma_fundamental_div_mod_converse(n - r + 6, 7, q, 0);
}

/// `d` itself if it is a Sunday, else the Sunday before it.
pub fn prev_sunday(d: Date) -> (res: Date)
    requires
        d.valid(),
        in_date_range(d.num() - weekday_from_sunday(d.num())),
    ensures
        res.valid(),
        res.num() == d.num() - weekday_from_sunday(d.num()),
        weekday_from_sunday(res.num()) == 0,
        d.num() - 6 <= res.num() <= d.num(),
{
    proof {
        sunday_snap_is_stable(d.num());
    }
    let back = days_from_sunday(d);
    add_days(d, -(back as i64)).unwrap()
}

/// `d` itself if it is a Monday, else the Monday before it.
pub fn prev_monday(d: Date) -> (res: Date)
    requires
        d.valid(),
        in_date_range(d.num() - weekday_from_monday(d.num())),
    ensures
        res.valid(),
        res.num() == d.num() - weekday_from_monday(d.num()),
        weekday_from_monday(res.num()) == 0,
        d.num() - 6 <= res.num() <= d.num(),
{
    proof {
        monday_snap_is_monday(d.num());
    }
    let back = days_from_monday(d);
    add_days(d, -(back as i64)).unwrap()
}

/// On a calendar that starts on a Sunday, day `i` of the grid falls on
/// weekday `i % 7` counted from Sunday: the columns under the headers
/// `Sun` .. `Sat` hold those weekdays.
pub proof fn calendar_columns_match_weekdays(start: int, i: int)
    requires
        weekday_from_sunday(start) == 0,
        i >= 0,
    ensures
        weekday_from_sunday(start + i) == i % 7,
{
    vstd::arithmetic::div_mod::lemma_add_mod_noop(start, i, 7);
    vstd::arithmetic::div_mod::lemma_mod_twice(i, 7);
}

/// On a schedule that starts on a Monday, every week column starts on a
/// Monday.
pub proof fn schedule_weeks_start_on_monday(start: int, w: int)
    requires
        weekday_from_monday(start) == 0,
        w >= 0,
    ensures
        weekday_from_monday(start + 7 * w) == 0,
{
    vstd::arithmetic::div_mod::lemma_add_mod_noop(start + 6, 7 * w, 7);
    vstd::arithmetic::div_mod::lemma_mod_multiples_basic(w, 7);
    assert(start + 7 * w + 6 == (start + 6) + 7 * w);
}

/// The Sunday that starts `d`'s week, when chrono can represent it
/// (`None` only in the first days of chrono's calendar).
pub fn prev_sunday_checked(d: Date) -> (res: Option<Date>)
    requires
        d.valid(),
    ensures
        res is Some <==> in_date_range(d.num() - weekday_from_sunday(d.num())),
        res matches Some(r) ==> r.valid() && r.num() == d.num() - weekday_from_sunday(d.num()),
{
    proof {
        sunday_snap_is_stable(d.num());
    }
    let back = days_from_sunday(d);
    add_days(d, -(back as i64))
}

/// The Monday that starts `d`'s week, when chrono can represent it.
pub fn prev_monday_checked(d: Date) -> (res: Option<Date>)
    requires
        d.valid(),
    ensures
        res is Some <==> in_date_range(d.num() - weekday_from_monday(d.num())),
        res matches Some(r) ==> r.valid() && r.num() == d.num() - weekday_from_monday(d.num()),
{
    proof {
        monday_snap_is_monday(d.num());
    }
    let back = days_from_monday(d);
    add_days(d, -(back as i64))
}

// ---------------------------------------------------------------------------
// Cell labels
// ---------------------------------------------------------------------------

/// The three-letter English name of month `m`.
pub open spec fn month_abbr(m: int) -> Seq<char> {
    if m == 1 { "Jan"@ }
    else if m == 2 { "Feb"@ }
    else if m == 3 { "Mar"@ }
    else if m == 4 { "Apr"@ }
    else if m == 5 { "May"@ }
    else if m == 6 { "Jun"@ }
    else if m == 7 { "Jul"@ }
    else if m == 8 { "Aug"@ }
    else if m == 9 { "Sep"@ }
    else if m == 10 { "Oct"@ }
    else if m == 11 { "Nov"@ }
    else { "Dec"@ }
}

fn month_abbr_str(m: u32) -> (res: &'static str)
    requires
        1 <= m <= 12,
    ensures
        res@ == month_abbr(m as int),
{
    if m == 1 { "Jan" }
    else if m == 2 { "Feb" }
    else if m == 3 { "Mar" }
    else if m == 4 { "Apr" }
    else if m == 5 { "May" }
    else if m == 6 { "Jun" }
    else if m == 7 { "Jul" }
    else if m == 8 { "Aug" }
    else if m == 9 { "Sep" }
    else if m == 10 { "Oct" }
    else if m == 11 { "Nov" }
    else { "Dec" }
}

/// The label of a calendar cell: `"Mon D"` when the month changes from the
/// previous cell (or there is none), else just `"D"`.
pub open spec fn cell_label_text(d: Date, prev: Option<Date>) -> Seq<char> {
    match prev {
        Some(p) if p.month == d.month => decimal(d.day as nat),
        _ => month_abbr(d.month as int) + " "@ + decimal(d.day as nat),
    }
}

/// Returns `"Mon D"` at a month boundary, else just `"D"`.
pub fn cell_label(d: Date, prev: Option<Date>) -> (res: String)
    requires
        d.valid(),
    ensures
        res@ == cell_label_text(d, prev),
{
    let mut v: Vec<char> = Vec::new();
    let same_month = match prev {
        Some(p) => p.month == d.month,
        None => false,
    };
    if !same_month {
        push_str(&mut v, month_abbr_str(d.month));
        push_str(&mut v, " ");
    }
    push_decimal(&mut v, d.day as u64);
    chars_to_string(&v)
}

/// The label of a schedule column: `"D Mon"`.
pub open spec fn week_label_text(d: Date) -> Seq<char> {
    decimal(d.day as nat) + " "@ + month_abbr(d.month as int)
}

/// Returns `"D Mon"`, e.g. `"31 Aug"` or `"7 Sep"`.
pub fn week_label(d: Date) -> (res: String)
    requires
        d.valid(),
    ensures
        res@ == week_label_text(d),
{
    let mut v: Vec<char> = Vec::new();
    push_decimal(&mut v, d.day as u64);
    push_str(&mut v, " ");
    push_str(&mut v, month_abbr_str(d.month));
    chars_to_string(&v)
}

/// A calendar cell shows only its day number when the previous cell is in
/// the same month, and the month's abbreviation before the day number at
/// the first cell and wherever a new month starts.
pub proof fn cell_labels_name_new_months(d: Date, prev: Option<Date>, label: Seq<char>)
    requires
        label == cell_label_text(d, prev),
    ensures
        (prev matches Some(p) && p.month == d.month) ==> label == decimal(d.day as nat),
        !(prev matches Some(p) && p.month == d.month) ==> label == month_abbr(d.month as int) + seq![' '] + decimal(d.day as nat),
        has_suffix(label, decimal(d.day as nat)),
{
    assert(" "@ =~= seq![' ']) by {
        reveal_strlit(" ");
    }
    let dd = decimal(d.day as nat);
    assert(label.subrange(label.len() - dd.len(), label.len() as int) =~= dd);
}

/// A schedule column is headed by the day number, a space and the month's
/// abbreviation.
pub proof fn week_labels_are_day_then_month(d: Date, label: Seq<char>)
    requires
        label == week_label_text(d),
    ensures
        label == decimal(d.day as nat) + seq![' '] + month_abbr(d.month as int),
{
    assert(" "@ =~= seq![' ']) by {
        reveal_strlit(" ");
    }
}

// ---------------------------------------------------------------------------
// The months a sheet covers
// ---------------------------------------------------------------------------

/// The sheet spans `weeks` weeks from `start` and ends before December of
/// the last year chrono represents (where the month after the last one
/// would not exist).
pub open spec fn span_ok(start: Date, weeks: nat) -> bool {
    &&& start.valid()
    &&& first_day_number() <= start.num() + 7 * weeks - 1
    &&& start.num() + 7 * weeks <= day_number(max_year(), 12, 1)
}

/// How many days of month `m` of year `y` fall in the day range `[s, e]`.
pub open spec fn days_in_range(y: int, m: int, s: int, e: int) -> int {
    let nx = next_month(y, m);
    let month_end = day_number(nx.0, nx.1, 1) - 1;
    let month_start = day_number(y, m, 1);
    let hi = if month_end <= e { month_end } else { e };
    let lo = if month_start <= s { s } else { month_start };
    hi - lo + 1
}

/// The months from month `m` of year `y` on, up to the month of day `e`,
/// that have at least 14 days in `[s, e]`.
pub open spec fn months_from(y: int, m: int, s: int, e: int) -> Seq<(int, int)>
    decreases e + 32 - day_number(y, m, 1),
{
    if !(1 <= m <= 12) || day_number(y, m, 1) > e {
        Seq::empty()
    } else {
        proof {
            lemma_month_length(y, m);
        }
        let nx = next_month(y, m);
        let rest = months_from(nx.0, nx.1, s, e);
        if days_in_range(y, m, s, e) >= 14 {
            seq![(y, m)] + rest
        } else {
            rest
        }
    }
}

/// The core months of a sheet of `weeks` weeks from `start`: the months
/// with 14 or more days in the range, or the month of `start` when none
/// has.
pub open spec fn core_month_list(start: Date, weeks: nat) -> Seq<(int, int)> {
    let s = start.num();
    let e = s + 7 * weeks - 1;
    let r = months_from(start.year as int, start.month as int, s, e);
    if r.len() == 0 { seq![(start.year as int, start.month as int)] } else { r }
}

/// One step of the month walk: the first day of the next month and the
/// number of days of `cur`'s month that fall between `start` and `end`.
fn month_step(cur: Date, start: Date, end: Date) -> (res: (Date, i64))
    requires
        cur.valid(),
        cur.day == 1,
        start.valid(),
        end.valid(),
        cur.num() <= end.num(),
        end.num() < day_number(max_year(), 12, 1),
    ensures
        res.0.valid(),
        res.0.day == 1,
        (res.0.year as int, res.0.month as int) == next_month(cur.year as int, cur.month as int),
        res.0.num() == cur.num() + crate::date::days_in_month(cur.year as int, cur.month as int),
        res.1 == days_in_range(cur.year as int, cur.month as int, start.num(), end.num()),
{
    let ghost y = cur.year as int;
    let ghost m = cur.month as int;
    proof {
        lemma_month_length(y, m);
        if y == max_year() && m == 12 {
            assert(cur.num() == day_number(max_year(), 12, 1));
        }
    }
    let next = if cur.month == 12 {
        from_ymd(cur.year + 1, 1, 1).unwrap()
    } else {
        from_ymd(cur.year, cur.month + 1, 1).unwrap()
    };
    proof {
        lemma_valid_in_range(next.year as int, next.month as int, 1);
        lemma_valid_in_range(cur.year as int, cur.month as int, 1);
    }
    let month_last = add_days(next, -1).unwrap();
    let range_end = if date_le(month_last, end) { month_last } else { end };
    let range_start = if date_le(cur, start) { start } else { cur };
    let count = days_between(range_end, range_start) + 1;
    (next, count)
}

/// Whether the sheet span is representable (see `span_ok`).
pub fn span_fits(start: Date, weeks: u32) -> (res: bool)
    requires
        start.valid(),
    ensures
        res == span_ok(start, weeks as nat),
{
    proof {
        lemma_valid_in_range(start.year as int, start.month as int, start.day as int);
    }
    let limit = from_ymd(262142, 12, 1).unwrap();
    match add_days(start, 7 * (weeks as i64)) {
        Some(after) => {
            let fits_end = date_le(after, limit);
            match add_days(after, -1) {
                Some(_) => fits_end,
                None => false,
            }
        }
        None => {
            proof {
                lemma_valid_in_range(max_year(), 12, 1);
            }
            false
        }
    }
}

/// The first days of the months with 14 or more days in the range of
/// `weeks` weeks from `start` (fringe months at either end are trimmed);
/// the first day of `start`'s month when no month has 14 days there.
#[verifier::spinoff_prover]
#[verifier::rlimit(40)]
pub fn core_months(start: Date, weeks: u32) -> (res: Vec<Date>)
    requires
        span_ok(start, weeks as nat),
    ensures
        res@.len() == core_month_list(start, weeks as nat).len(),
        res@.len() >= 1,
        forall|k: int| 0 <= k < res@.len() ==> {
            &&& #[trigger] res@[k].valid()
            &&& res@[k].day == 1
            &&& res@[k].year as int == core_month_list(start, weeks as nat)[k].0
            &&& res@[k].month as int == core_month_list(start, weeks as nat)[k].1
        },
{
    let ghost s = start.num();
    let ghost e = s + 7 * (weeks as int) - 1;
    proof {
        lemma_valid_in_range(start.year as int, start.month as int, start.day as int);
    }
    let after = add_days(start, 7 * (weeks as i64)).unwrap();
    let end = add_days(after, -1).unwrap();
    let mut result: Vec<Date> = Vec::new();
    let first = with_day(start, 1).unwrap();
    let mut cur = first;
    let ghost all = months_from(start.year as int, start.month as int, s, e);
    while date_le(cur, end)
        invariant
            start.valid(),
            end.valid(),
            end.num() == e,
            s == start.num(),
            e < day_number(max_year(), 12, 1),
            cur.valid(),
            cur.day == 1,
            all == months_from(start.year as int, start.month as int, s, e),
            result@.len() + months_from(cur.year as int, cur.month as int, s, e).len() == all.len(),
            forall|k: int| 0 <= k < result@.len() ==> {
                &&& #[trigger] result@[k].valid()
                &&& result@[k].day == 1
                &&& (result@[k].year as int, result@[k].month as int) == all[k]
            },
            forall|k: int| 0 <= k < months_from(cur.year as int, cur.month as int, s, e).len() ==>
                #[trigger] months_from(cur.year as int, cur.month as int, s, e)[k] == all[result@.len() + k],
        decreases e + 32 - cur.num(),
    {
        let (next, count) = month_step(cur, start, end);
        let ghost y = cur.year as int;
        let ghost m = cur.month as int;
        let ghost rest = months_from(next.year as int, next.month as int, s, e);
        let ghost mf = months_from(y, m, s, e);
        let ghost old_len: int = result@.len() as int;
        proof {
            lemma_month_length(y, m);
        }
        if count >= 14 {
            assert(mf == seq![(y, m)] + rest);
            assert(mf[0] == all[old_len + 0]);
            result.push(cur);
            assert forall|k: int| 0 <= k < rest.len() implies #[trigger] rest[k] == all[result@.len() + k] by {
                assert(rest[k] == mf[k + 1]);
                assert(mf[k + 1] == all[old_len + (k + 1)]);
            }
            assert forall|k: int| 0 <= k < result@.len() implies {
                &&& #[trigger] result@[k].valid()
                &&& result@[k].day == 1
                &&& (result@[k].year as int, result@[k].month as int) == all[k]
            } by {
                if k < old_len {
                } else {
                    assert(result@[k] == cur);
                }
            }
        } else {
            assert(mf == rest);
            assert forall|k: int| 0 <= k < rest.len() implies #[trigger] rest[k] == all[result@.len() + k] by {
                assert(rest[k] == mf[k]);
            }
        }
        cur = next;
    }
    assert(months_from(cur.year as int, cur.month as int, s, e).len() == 0);
    assert(result@.len() == all.len());
    if result.len() == 0 {
        result.push(first);
        assert(result@[0] == first);
        assert(core_month_list(start, weeks as nat) == seq![(start.year as int, start.month as int)]);
        assert(result@[0].valid());
        assert(result@.len() == 1);
        assert(first.year == start.year && first.month == start.month && first.day == 1);
        assert forall|k: int| 0 <= k < result@.len() implies {
            &&& #[trigger] result@[k].valid()
            &&& result@[k].day == 1
            &&& result@[k].year as int == core_month_list(start, weeks as nat)[k].0
            &&& result@[k].month as int == core_month_list(start, weeks as nat)[k].1
        } by {
            assert(k == 0);
        }
    } else {
        assert(core_month_list(start, weeks as nat) == all);
        assert forall|k: int| 0 <= k < result@.len() implies {
            &&& #[trigger] result@[k].valid()
            &&& result@[k].day == 1
            &&& result@[k].year as int == core_month_list(start, weeks as nat)[k].0
            &&& result@[k].month as int == core_month_list(start, weeks as nat)[k].1
        } by {
            assert(result@[k].valid());
            assert((result@[k].year as int, result@[k].month as int) == all[k]);
            assert(core_month_list(start, weeks as nat)[k] == all[k]);
        }
    }
    assert forall|k: int| 0 <= k < result@.len() implies {
        &&& #[trigger] result@[k].valid()
        &&& result@[k].day == 1
        &&& result@[k].year as int == core_month_list(start, weeks as nat)[k].0
        &&& result@[k].month as int == core_month_list(start, weeks as nat)[k].1
    } by {
    }
    result
}

/// The position of a month in the sequence of all months.
pub open spec fn month_index(ym: (int, int)) -> int {
    ym.0 * 12 + ym.1
}

proof fn lemma_months_from(y: int, m: int, s: int, e: int)
    ensures
        forall|k: int| 0 <= k < months_from(y, m, s, e).len() ==> {
            &&& days_in_range(months_from(y, m, s, e)[k].0, months_from(y, m, s, e)[k].1, s, e) >= 14
            &&& 1 <= (#[trigger] months_from(y, m, s, e)[k]).1 <= 12
            &&& month_index(months_from(y, m, s, e)[k]) >= month_index((y, m))
        },
        forall|k: int, j: int| 0 <= k < j < months_from(y, m, s, e).len() ==>
            month_index(#[trigger] months_from(y, m, s, e)[k]) < month_index(#[trigger] months_from(y, m, s, e)[j]),
    decreases e + 32 - day_number(y, m, 1),
{
    if !(1 <= m <= 12) || day_number(y, m, 1) > e {
    } else {
        lemma_month_length(y, m);
        let nx = next_month(y, m);
        lemma_months_from(nx.0, nx.1, s, e);
        let rest = months_from(nx.0, nx.1, s, e);
        let all = months_from(y, m, s, e);
        assert(month_index(nx) == month_index((y, m)) + 1);
        if days_in_range(y, m, s, e) >= 14 {
            assert(all == seq![(y, m)] + rest);
            assert forall|k: int| 0 <= k < all.len() implies {
                &&& days_in_range(all[k].0, all[k].1, s, e) >= 14
                &&& 1 <= (#[trigger] all[k]).1 <= 12
                &&& month_index(all[k]) >= month_index((y, m))
            } by {
                if k > 0 {
                    assert(all[k] == rest[k - 1]);
                }
            }
            assert forall|k: int, j: int| 0 <= k < j < all.len() implies
                month_index(#[trigger] all[k]) < month_index(#[trigger] all[j]) by {
                assert(all[j] == rest[j - 1]);
                if k > 0 {
                    assert(all[k] == rest[k - 1]);
                }
            }
        } else {
            assert(all == rest);
        }
    }
}

/// The core months of a sheet are the months with at least 14 days in
/// the sheet's range, in calendar order, each once; when no month has 14
/// days there, the only core month is the start's month.
pub proof fn core_months_have_two_weeks(start: Date, weeks: nat)
    requires
        span_ok(start, weeks),
    ensures
        ({
            let s = start.num();
            let e = s + 7 * weeks - 1;
            let list = core_month_list(start, weeks);
            let found = months_from(start.year as int, start.month as int, s, e);
            &&& found.len() > 0 ==> forall|k: int| 0 <= k < list.len() ==>
                days_in_range((#[trigger] list[k]).0, list[k].1, s, e) >= 14
            &&& found.len() == 0 ==> list == seq![(start.year as int, start.month as int)]
            &&& forall|k: int, j: int| 0 <= k < j < list.len() ==>
                month_index(#[trigger] list[k]) < month_index(#[trigger] list[j])
        }),
{
    let s = start.num();
    let e = s + 7 * weeks - 1;
    lemma_months_from(start.year as int, start.month as int, s, e);
}

/// Lemma: a month no earlier than another starts no earlier.
proof fn lemma_month_start_mono(y0: int, m0: int, y: int, m: int)
    requires
        1 <= m0 <= 12,
        1 <= m <= 12,
        month_index((y0, m0)) <= month_index((y, m)),
    ensures
        day_number(y0, m0, 1) <= day_number(y, m, 1),
    decreases month_index((y, m)) - month_index((y0, m0)),
{
    if month_index((y0, m0)) < month_index((y, m)) {
        lemma_month_length(y0, m0);
        let nx = next_month(y0, m0);
        assert(month_index(nx) == month_index((y0, m0)) + 1);
        lemma_month_start_mono(nx.0, nx.1, y, m);
    } else {
        assert(y0 == y && m0 == m) by (nonlinear_arith)
            requires y0 * 12 + m0 == y * 12 + m, 1 <= m0 <= 12, 1 <= m <= 12;
    }
}

proof fn lemma_months_from_complete(y0: int, m0: int, s: int, e: int, y: int, m: int)
    requires
        1 <= m0 <= 12,
        1 <= m <= 12,
        month_index((y0, m0)) <= month_index((y, m)),
        day_number(y, m, 1) <= e,
        days_in_range(y, m, s, e) >= 14,
    ensures
        months_from(y0, m0, s, e).contains((y, m)),
    decreases e + 32 - day_number(y0, m0, 1),
{
    lemma_month_start_mono(y0, m0, y, m);
    lemma_month_length(y0, m0);
    let nx = next_month(y0, m0);
    let rest = months_from(nx.0, nx.1, s, e);
    let all = months_from(y0, m0, s, e);
    if month_index((y0, m0)) == month_index((y, m)) {
        assert(y0 == y && m0 == m) by (nonlinear_arith)
            requires y0 * 12 + m0 == y * 12 + m, 1 <= m0 <= 12, 1 <= m <= 12;
        assert(all == seq![(y, m)] + rest);
        assert(all[0] == (y, m));
    } else {
        assert(month_index(nx) == month_index((y0, m0)) + 1);
        lemma_months_from_complete(nx.0, nx.1, s, e, y, m);
        let k = choose|k: int| 0 <= k < rest.len() && rest[k] == (y, m);
        if days_in_range(y0, m0, s, e) >= 14 {
            assert(all == seq![(y0, m0)] + rest);
            assert(all[k + 1] == (y, m));
        } else {
            assert(all == rest);
        }
    }
}

/// Every month with at least 14 days in the sheet's range, from the
/// start's month on, is a core month.
pub proof fn core_months_include_every_two_week_month(start: Date, weeks: nat, y: int, m: int)
    requires
        span_ok(start, weeks),
        1 <= m <= 12,
        month_index((start.year as int, start.month as int)) <= month_index((y, m)),
        day_number(y, m, 1) <= start.num() + 7 * weeks - 1,
        days_in_range(y, m, start.num(), start.num() + 7 * weeks - 1) >= 14,
    ensures
        core_month_list(start, weeks).contains((y, m)),
{
    let s = start.num();
    let e = s + 7 * weeks - 1;
    lemma_months_from_complete(start.year as int, start.month as int, s, e, y, m);
}

// ---------------------------------------------------------------------------
// Titles
// ---------------------------------------------------------------------------

/// The title of a sheet: the first core month in full with its year
/// (`"%B %Y"`); for several months, `"First - Last Year"` within one year
/// or `"First Year - Last Year"` across years.
pub open spec fn sheet_title_text(months: Seq<(int, int)>) -> Seq<char> {
    let (fy, fm) = months[0];
    let (ly, lm) = months.last();
    if months.len() == 1 {
        strftime_date(fy, fm, 1, "%B %Y"@)
    } else if fy == ly {
        strftime_date(fy, fm, 1, "%B"@) + " - "@ + strftime_date(ly, lm, 1, "%B"@) + " "@ + decimal_int(fy)
    } else {
        strftime_date(fy, fm, 1, "%B %Y"@) + " - "@ + strftime_date(ly, lm, 1, "%B %Y"@)
    }
}

/// The worksheet tab name: like the title with abbreviated month names
/// (`"%b"`), and `"First-Last Year"` within one year.
pub open spec fn tab_name_text(months: Seq<(int, int)>) -> Seq<char> {
    let (fy, fm) = months[0];
    let (ly, lm) = months.last();
    if months.len() == 1 {
        strftime_date(fy, fm, 1, "%b %Y"@)
    } else if fy == ly {
        strftime_date(fy, fm, 1, "%b"@) + "-"@ + strftime_date(ly, lm, 1, "%b"@) + " "@ + decimal_int(fy)
    } else {
        strftime_date(fy, fm, 1, "%b %Y"@) + " - "@ + strftime_date(ly, lm, 1, "%b %Y"@)
    }
}

/// The decimal numeral of an integer, with a leading `'-'` when negative
/// (how `{}` formats an `i32`).
pub open spec fn decimal_int(n: int) -> Seq<char> {
    if n < 0 { seq!['-'] + decimal((-n) as nat) } else { decimal(n as nat) }
}

fn push_i32(v: &mut Vec<char>, n: i32)
    ensures
        final(v)@ == old(v)@ + decimal_int(n as int),
{
    if n < 0 {
        v.push('-');
        let ghost mid = v@;
        let magnitude: u64 = (-(n as i64)) as u64;
        push_decimal(v, magnitude);
        assert(v@ == old(v)@ + decimal_int(n as int));
    } else {
        push_decimal(v, n as u64);
    }
}

fn push_string(v: &mut Vec<char>, s: &String)
    ensures
        final(v)@ == old(v)@ + s@,
{
    push_str(v, s.as_str());
}

/// The title of the sheet for `weeks` weeks from `start`.
pub fn sheet_title(start: Date, weeks: u32) -> (res: String)
    requires
        span_ok(start, weeks as nat),
    ensures
        res@ == sheet_title_text(core_month_list(start, weeks as nat)),
{
    let months = core_months(start, weeks);
    let first = months[0];
    let last = months[months.len() - 1];
    let ghost ms = core_month_list(start, weeks as nat);
    assert(months@[0].valid());
    assert(months@[months@.len() - 1].valid());
    assert(ms[0] == (first.year as int, first.month as int));
    assert(ms.last() == (last.year as int, last.month as int));
    proof {
        reveal_strlit("%B %Y");
        reveal_strlit("%B");
    }
    let mut v: Vec<char> = Vec::new();
    if months.len() == 1 {
        push_string(&mut v, &format_date(first, "%B %Y"));
    } else if first.year == last.year {
        push_string(&mut v, &format_date(first, "%B"));
        push_str(&mut v, " - ");
        push_string(&mut v, &format_date(last, "%B"));
        push_str(&mut v, " ");
        push_i32(&mut v, first.year);
    } else {
        push_string(&mut v, &format_date(first, "%B %Y"));
        push_str(&mut v, " - ");
        push_string(&mut v, &format_date(last, "%B %Y"));
    }
    chars_to_string(&v)
}

/// The worksheet tab name for `weeks` weeks from `start`, e.g.
/// `"Apr-Jun 2026"`.
pub fn tab_name(start: Date, weeks: u32) -> (res: String)
    requires
        span_ok(start, weeks as nat),
    ensures
        res@ == tab_name_text(core_month_list(start, weeks as nat)),
{
    let months = core_months(start, weeks);
    let first = months[0];
    let last = months[months.len() - 1];
    let ghost ms = core_month_list(start, weeks as nat);
    assert(months@[0].valid());
    assert(months@[months@.len() - 1].valid());
    assert(ms[0] == (first.year as int, first.month as int));
    assert(ms.last() == (last.year as int, last.month as int));
    proof {
        reveal_strlit("%b %Y");
        reveal_strlit("%b");
    }
    let mut v: Vec<char> = Vec::new();
    if months.len() == 1 {
        push_string(&mut v, &format_date(first, "%b %Y"));
    } else if first.year == last.year {
        push_string(&mut v, &format_date(first, "%b"));
        push_str(&mut v, "-");
        push_string(&mut v, &format_date(last, "%b"));
        push_str(&mut v, " ");
        push_i32(&mut v, first.year);
    } else {
        push_string(&mut v, &format_date(first, "%b %Y"));
        push_str(&mut v, " - ");
        push_string(&mut v, &format_date(last, "%b %Y"));
    }
    chars_to_string(&v)
}

/// The last day of the sheet: `weeks` weeks from `start`, less one day.
pub fn last_day(start: Date, weeks: u32) -> (res: Date)
    requires
        span_ok(start, weeks as nat),
    ensures
        res.valid(),
        res.num() == start.num() + 7 * weeks - 1,
{
    proof {
        lemma_valid_in_range(start.year as int, start.month as int, start.day as int);
        lemma_date_range_width();
    }
    let after = add_days(start, 7 * (weeks as i64)).unwrap();
    add_days(after, -1).unwrap()
}

/// The default file name of a calendar workbook:
/// `"<tab name> <start>.xlsx"`.
pub open spec fn calendar_file_text(start: Date, weeks: nat) -> Seq<char> {
    tab_name_text(core_month_list(start, weeks)) + " "@ + iso_text(start) + ".xlsx"@
}

/// The default file name of a schedule workbook:
/// `"<tab name> Schedule <start>.xlsx"`.
pub open spec fn schedule_file_text(start: Date, weeks: nat) -> Seq<char> {
    tab_name_text(core_month_list(start, weeks)) + " Schedule "@ + iso_text(start) + ".xlsx"@
}

/// The default output file of the calendar tool, e.g.
/// `"Apr-Jun 2026 2026-04-05.xlsx"`.
pub fn calendar_file_name(start: Date, weeks: u32) -> (res: String)
    requires
        span_ok(start, weeks as nat),
    ensures
        res@ == calendar_file_text(start, weeks as nat),
{
    let mut v: Vec<char> = Vec::new();
    push_string(&mut v, &tab_name(start, weeks));
    push_str(&mut v, " ");
    push_string(&mut v, &date_iso(start));
    push_str(&mut v, ".xlsx");
    chars_to_string(&v)
}

/// The default output file of the schedule tool, e.g.
/// `"Sep-Nov 2026 Schedule 2026-08-31.xlsx"`.
pub fn schedule_file_name(start: Date, weeks: u32) -> (res: String)
    requires
        span_ok(start, weeks as nat),
    ensures
        res@ == schedule_file_text(start, weeks as nat),
{
    let mut v: Vec<char> = Vec::new();
    push_string(&mut v, &tab_name(start, weeks));
    push_str(&mut v, " Schedule ");
    push_string(&mut v, &date_iso(start));
    push_str(&mut v, ".xlsx");
    chars_to_string(&v)
}

// ---------------------------------------------------------------------------
// Grid contents
// ---------------------------------------------------------------------------

/// One day of the calendar grid: its label goes at (`row`, `col`) of the
/// sheet; weekend days (Sunday and Saturday columns) are shaded.
#[derive(Clone, Debug)]
pub struct DayCell {
    pub row: u32,
    pub col: u16,
    pub date: Date,
    pub label: String,
    pub weekend: bool,
}

/// One column of the schedule: the week starting on `date`, headed by
/// `label`.
#[derive(Clone, Debug)]
pub struct WeekColumn {
    pub col: u16,
    pub date: Date,
    pub label: String,
}

/// Every representable day number lies in a window narrower than
/// 200 million days.
pub proof fn lemma_date_range_width()
    ensures
        last_day_number() < 100_000_000,
        first_day_number() > -100_000_000,
        day_number(max_year(), 12, 1) < last_day_number(),
{
    reveal(crate::date::days_before_year);
}

/// The day cells of a calendar of `weeks` weeks from `start`: cell `i`
/// is day `i` of the range; week `i / 7` occupies row `2 + 2 * (i / 7)`
/// (the row below it is left blank for notes) and day `i % 7` of the week
/// sits in column `1 + i % 7`. A cell's label names the month when the
/// month differs from the previous day's.
pub fn calendar_cells(start: Date, weeks: u32) -> (res: Vec<DayCell>)
    requires
        span_ok(start, weeks as nat),
    ensures
        res@.len() == 7 * weeks,
        forall|i: int| 0 <= i < res@.len() ==> {
            let c = #[trigger] res@[i];
            &&& c.row == 2 + 2 * (i / 7)
            &&& c.col == 1 + i % 7
            &&& c.date.valid()
            &&& c.date.num() == start.num() + i
            &&& c.weekend == (i % 7 == 0 || i % 7 == 6)
            &&& c.label@ == cell_label_text(c.date, if i > 0 { Some(res@[i - 1].date) } else { None })
        },
{
    proof {
        lemma_date_range_width();
        lemma_valid_in_range(start.year as int, start.month as int, start.day as int);
    }
    let total: u32 = weeks * 7;
    let mut cells: Vec<DayCell> = Vec::new();
    let mut idx: u32 = 0;
    while idx < total
        invariant
            span_ok(start, weeks as nat),
            total == 7 * weeks,
            total < 300_000_000,
            first_day_number() <= start.num(),
            start.num() + total <= day_number(max_year(), 12, 1),
            day_number(max_year(), 12, 1) < last_day_number(),
            idx <= total,
            cells@.len() == idx,
            forall|i: int| 0 <= i < cells@.len() ==> #[trigger] cell_ok(start, cells@, i),
        decreases total - idx,
    {
        let prev = if idx > 0 { Some(cells[(idx - 1) as usize].date) } else { None };
        let cell = make_cell(start, idx, prev);
        let ghost before = cells@;
        cells.push(cell);
        proof {
            assert forall|i: int| 0 <= i < cells@.len() implies #[trigger] cell_ok(start, cells@, i) by {
                if i < before.len() {
                    assert(cell_ok(start, before, i));
                    assert(cells@[i] == before[i]);
                    if i > 0 {
                        assert(cells@[i - 1] == before[i - 1]);
                    }
                } else {
                    if i > 0 {
                        assert(cells@[i - 1] == before[i - 1]);
                    }
                }
            }
        }
        idx = idx + 1;
    }
    assert forall|i: int| 0 <= i < cells@.len() implies {
        let c = #[trigger] cells@[i];
        &&& c.row == 2 + 2 * (i / 7)
        &&& c.col == 1 + i % 7
        &&& c.date.valid()
        &&& c.date.num() == start.num() + i
        &&& c.weekend == (i % 7 == 0 || i % 7 == 6)
        &&& c.label@ == cell_label_text(c.date, if i > 0 { Some(cells@[i - 1].date) } else { None })
    } by {
        assert(cell_ok(start, cells@, i));
    }
    cells
}

/// Cell `i` of `cells` is day `i` from `start`, placed and labelled as the
/// calendar grid places and labels it.
pub open spec fn cell_ok(start: Date, cells: Seq<DayCell>, i: int) -> bool {
    let c = cells[i];
    &&& c.row == 2 + 2 * (i / 7)
    &&& c.col == 1 + i % 7
    &&& c.date.valid()
    &&& c.date.num() == start.num() + i
    &&& c.weekend == (i % 7 == 0 || i % 7 == 6)
    &&& c.label@ == cell_label_text(c.date, if i > 0 { Some(cells[i - 1].date) } else { None })
}

fn make_cell(start: Date, idx: u32, prev: Option<Date>) -> (c: DayCell)
    requires
        start.valid(),
        idx < 300_000_000,
        first_day_number() <= start.num(),
        start.num() + idx < last_day_number(),
    ensures
        c.row == 2 + 2 * (idx / 7),
        c.col == 1 + idx % 7,
        c.date.valid(),
        c.date.num() == start.num() + idx,
        c.weekend == (idx % 7 == 0 || idx % 7 == 6),
        c.label@ == cell_label_text(c.date, prev),
{
    let week = idx / 7;
    let day_offset = idx % 7;
    let d = add_days(start, idx as i64).unwrap();
    let label = cell_label(d, prev);
    DayCell {
        row: 2 + week * 2,
        col: (1 + day_offset) as u16,
        date: d,
        label,
        weekend: day_offset == 0 || day_offset == 6,
    }
}

/// The week columns of a schedule of `weeks` weeks from `start`: column
/// `1 + w` is the week starting `7w` days after `start`, headed `"D Mon"`.
pub fn schedule_columns(start: Date, weeks: u32) -> (res: Vec<WeekColumn>)
    requires
        span_ok(start, weeks as nat),
        weeks < 65535,
    ensures
        res@.len() == weeks,
        forall|w: int| 0 <= w < weeks ==> {
            let c = #[trigger] res@[w];
            &&& c.col == 1 + w
            &&& c.date.valid()
            &&& c.date.num() == start.num() + 7 * w
            &&& c.label@ == week_label_text(c.date)
        },
{
    proof {
        lemma_date_range_width();
        lemma_valid_in_range(start.year as int, start.month as int, start.day as int);
    }
    let mut cols: Vec<WeekColumn> = Vec::new();
    let mut week: u32 = 0;
    while week < weeks
        invariant
            span_ok(start, weeks as nat),
            7 * weeks < 300_000_000,
            first_day_number() <= start.num(),
            start.num() + 7 * weeks <= day_number(max_year(), 12, 1),
            day_number(max_year(), 12, 1) < last_day_number(),
            weeks < 65535,
            week <= weeks,
            cols@.len() == week,
            forall|w: int| 0 <= w < week ==> {
                let c = #[trigger] cols@[w];
                &&& c.col == 1 + w
                &&& c.date.valid()
                &&& c.date.num() == start.num() + 7 * w
                &&& c.label@ == week_label_text(c.date)
            },
        decreases weeks - week,
    {
        let d = add_days(start, 7 * (week as i64)).unwrap();
        let label = week_label(d);
        cols.push(WeekColumn { col: (1 + week) as u16, date: d, label });
        week = week + 1;
    }
    cols
}

} // verus!
