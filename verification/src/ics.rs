//! The iCalendar document that imports a plan's milestones: one `VEVENT`
//! per milestone, timed (with an optional time zone) or all-day, whose
//! description carries the project's ID, name and URL.

use vstd::prelude::*;
use chrono::ParseError;
use crate::date::{
    add_days, add_minutes, date_of, day_number, format_date, format_date_minute, in_date_range,
    iso_date, iso_date_minute, lemma_date_of, lemma_moment_of, moment_of, parse_iso_date,
    parse_iso_date_minute, strftime_date, strftime_date_minute, Date, DateTime,
};
use crate::plan::{
    attendee_text, generate_id, ics_attendee, ics_escape_char, ics_escape_text, escape_chars, is_lower_hex,
    opt_view, parse_tz, tz_text, Milestone, Plan,
};
use crate::agenda::project_query_text;
use crate::text::{chars_to_string, decimal, extend, has_substring, has_suffix, occurs_at, push_decimal, push_str, to_chars};

verus! {

/// Why a milestone could not become an event, with chrono's reason.
#[derive(Clone, Copy, Debug)]
pub enum IcsError {
    /// `date` and `time` of milestone `index` do not parse as
    /// `YYYY-MM-DD HH:MM`.
    BadDateTime { index: usize, cause: ParseError },
    /// `date` of all-day milestone `index` does not parse as `YYYY-MM-DD`.
    BadDate { index: usize, cause: ParseError },
}

/// The milestone a failure names, and whether it was a timed one.
pub open spec fn failure_of(e: IcsError) -> (int, bool) {
    match e {
        IcsError::BadDateTime { index, .. } => (index as int, true),
        IcsError::BadDate { index, .. } => (index as int, false),
    }
}

/// The outcome of building the calendar: the document, or the first
/// milestone that failed; and the warnings emitted on the way.
#[derive(Debug)]
pub struct IcsBuild {
    pub ics: Result<String, IcsError>,
    pub warnings: Vec<String>,
}

// ---------------------------------------------------------------------------
// What a milestone becomes
// ---------------------------------------------------------------------------

/// The minutes a timed event lasts (60 unless given).
pub open spec fn duration_of(m: Milestone) -> int {
    match m.duration_mins {
        Some(d) => d as int,
        None => 60,
    }
}

/// The normalised time zone of a milestone: its own, else the project's.
pub open spec fn event_zone(m: Milestone, plan: Plan) -> Option<Seq<char>> {
    match opt_view(m.timezone) {
        Some(z) => Some(tz_text(z)),
        None => match opt_view(plan.project.timezone) {
            Some(z) => Some(tz_text(z)),
            None => None,
        },
    }
}

/// The `DTSTART`/`DTEND` lines of a timed event starting at `s` and ending
/// at `e` (both `YYYYMMDDTHHMMSS`): UTC gets a `Z`, an offset is appended,
/// another zone becomes a `TZID` parameter, and no zone leaves the times
/// floating.
pub open spec fn stamp_lines(zone: Option<Seq<char>>, s: Seq<char>, e: Seq<char>) -> (Seq<char>, Seq<char>) {
    match zone {
        Some(z) => if z == seq!['Z'] {
            ("DTSTART:"@ + s + "Z"@, "DTEND:"@ + e + "Z"@)
        } else if z.len() > 0 && (z[0] == '+' || z[0] == '-') {
            ("DTSTART:"@ + s + z, "DTEND:"@ + e + z)
        } else {
            ("DTSTART;TZID="@ + z + ":"@ + s, "DTEND;TZID="@ + z + ":"@ + e)
        },
        None => ("DTSTART:"@ + s, "DTEND:"@ + e),
    }
}

/// The text a timed milestone's date and time are parsed from.
pub open spec fn timed_source(m: Milestone, time: Seq<char>) -> Seq<char> {
    m.date@ + " "@ + time
}

/// The `DTSTART` and `DTEND` lines of a milestone, or `None` when its date
/// (and time) do not parse. A timed event ends `duration_of(m)` minutes
/// after it starts; an all-day event ends the next day and ignores any time
/// zone and duration.
pub open spec fn event_times(m: Milestone, plan: Plan) -> Option<(Seq<char>, Seq<char>)> {
    match m.time {
        Some(t) => match iso_date_minute(timed_source(m, t@)) {
            Some((y, mo, d, h, mi)) => {
                let end = moment_of(
                    day_number(y as int, mo as int, d as int) * 1440 + h * 60 + mi + duration_of(m),
                );
                let s = strftime_date_minute(y as int, mo as int, d as int, h as int, mi as int, "%Y%m%dT%H%M%S"@);
                let e = strftime_date_minute(end.0, end.1, end.2, end.3, end.4, "%Y%m%dT%H%M%S"@);
                Some(stamp_lines(event_zone(m, plan), s, e))
            },
            None => None,
        },
        None => match iso_date(m.date@) {
            Some((y, mo, d)) => {
                let next = date_of(day_number(y as int, mo as int, d as int) + 1);
                Some((
                    "DTSTART;VALUE=DATE:"@ + strftime_date(y as int, mo as int, d as int, "%Y%m%d"@),
                    "DTEND;VALUE=DATE:"@ + strftime_date(next.0, next.1, next.2, "%Y%m%d"@),
                ))
            },
            None => None,
        },
    }
}

/// The end of a milestone's event is a representable date (chrono panics
/// on `+` otherwise).
pub open spec fn milestone_fits(m: Milestone) -> bool {
    match m.time {
        Some(t) => match iso_date_minute(timed_source(m, t@)) {
            Some((y, mo, d, h, mi)) => in_date_range(
                (day_number(y as int, mo as int, d as int) * 1440 + h * 60 + mi + duration_of(m)) / 1440,
            ),
            None => true,
        },
        None => match iso_date(m.date@) {
            Some((y, mo, d)) => in_date_range(day_number(y as int, mo as int, d as int) + 1),
            None => true,
        },
    }
}

/// The failure of milestone `i` when its date does not parse: its index,
/// and whether it is timed.
pub open spec fn bad_milestone(m: Milestone, i: int) -> (int, bool) {
    (i, m.time is Some)
}

/// The description's trailer that tags the event with the project.
pub open spec fn meta_text(plan: Plan, id: Seq<char>) -> Seq<char> {
    "project-id: "@ + id + "\nproject-name: "@ + plan.project.name@ + "\nproject-url: "@ + plan.project.url@
}

/// A milestone's description: its own text, a blank line and the project
/// trailer; or the trailer alone.
pub open spec fn description_text(m: Milestone, plan: Plan, id: Seq<char>) -> Seq<char> {
    match opt_view(m.description) {
        Some(d) => d + "\n\n"@ + meta_text(plan, id),
        None => meta_text(plan, id),
    }
}

/// One `ATTENDEE` line per entry.
pub open spec fn attendee_lines(a: Seq<String>) -> Seq<char>
    decreases a.len(),
{
    if a.len() == 0 {
        Seq::empty()
    } else {
        attendee_lines(a.drop_last()) + attendee_text(a.last()@) + "\r\n"@
    }
}

pub open spec fn attendees_of(m: Milestone) -> Seq<char> {
    match m.attendees {
        Some(v) => attendee_lines(v@),
        None => Seq::empty(),
    }
}

/// The `VEVENT` of milestone `i` with random UID part `suffix` and the
/// given `DTSTART`/`DTEND` lines.
pub open spec fn event_block(
    m: Milestone,
    plan: Plan,
    id: Seq<char>,
    i: int,
    suffix: Seq<char>,
    times: (Seq<char>, Seq<char>),
) -> Seq<char> {
    "BEGIN:VEVENT\r\n"@ + "UID:"@ + id + "-"@ + decimal(i as nat) + "-"@ + suffix + "@gcal-plan\r\n"@
        + "SUMMARY:"@ + ics_escape_text(m.title@) + "\r\n"@
        + times.0 + "\r\n"@
        + times.1 + "\r\n"@
        + "DESCRIPTION:"@ + ics_escape_text(description_text(m, plan, id)) + "\r\n"@
        + "URL:"@ + plan.project.url@ + "\r\n"@
        + attendees_of(m)
        + "END:VEVENT\r\n"@
}

/// The events of the first `n` milestones, or the first milestone among
/// them whose date does not parse.
pub open spec fn events_text(plan: Plan, id: Seq<char>, suffixes: Seq<Seq<char>>, n: int) -> Result<Seq<char>, (int, bool)>
    decreases n,
{
    if n <= 0 {
        Ok(Seq::empty())
    } else {
        match events_text(plan, id, suffixes, n - 1) {
            Err(e) => Err(e),
            Ok(t) => {
                let m = plan.milestones@[n - 1];
                match event_times(m, plan) {
                    Some(tt) => Ok(t + event_block(m, plan, id, n - 1, suffixes[n - 1], tt)),
                    None => Err(bad_milestone(m, n - 1)),
                }
            },
        }
    }
}

pub open spec fn ics_header() -> Seq<char> {
    "BEGIN:VCALENDAR\r\nVERSION:2.0\r\nPRODID:-//gcal-plan//EN\r\n"@
}

pub open spec fn ics_footer() -> Seq<char> {
    "END:VCALENDAR\r\n"@
}

/// The whole document, or the first milestone that failed.
pub open spec fn ics_text(plan: Plan, id: Seq<char>, suffixes: Seq<Seq<char>>) -> Result<Seq<char>, (int, bool)> {
    match events_text(plan, id, suffixes, plan.milestones@.len() as int) {
        Ok(t) => Ok(ics_header() + t + ics_footer()),
        Err(e) => Err(e),
    }
}

/// The warnings an all-day milestone draws: a duration or a time zone is
/// ignored without a time.
pub open spec fn milestone_warnings(m: Milestone) -> Seq<Seq<char>> {
    if m.time is None {
        (if m.duration_mins is Some {
            seq!["Warning: '"@ + m.title@ + "': duration_mins ignored (no time \u{2014} all-day event)"@]
        } else {
            Seq::empty()
        }) + (if m.timezone is Some {
            seq!["Warning: '"@ + m.title@ + "': timezone ignored (no time \u{2014} all-day event)"@]
        } else {
            Seq::empty()
        })
    } else {
        Seq::empty()
    }
}

/// The warnings of the first `n` milestones, in order.
pub open spec fn warnings_upto(plan: Plan, n: int) -> Seq<Seq<char>>
    decreases n,
{
    if n <= 0 {
        Seq::empty()
    } else {
        warnings_upto(plan, n - 1) + milestone_warnings(plan.milestones@[n - 1])
    }
}

/// How many milestones are processed: all of them, or up to and including
/// the first that fails.
pub open spec fn processed(plan: Plan, r: Result<Seq<char>, (int, bool)>) -> int {
    match r {
        Ok(_) => plan.milestones@.len() as int,
        Err((index, _)) => index + 1,
    }
}

/// Every milestone reached before a failure ends at a representable date.
pub open spec fn events_fit(plan: Plan) -> bool {
    forall|k: int| 0 <= k < plan.milestones@.len() ==>
        (forall|j: int| 0 <= j < k ==> event_times(#[trigger] plan.milestones@[j], plan) is Some)
        ==> milestone_fits(#[trigger] plan.milestones@[k])
}

/// The views of a sequence of strings.
pub open spec fn views(v: Seq<String>) -> Seq<Seq<char>> {
    Seq::new(v.len(), |k: int| v[k]@)
}

/// A build matches the specification for the given UID parts.
pub open spec fn build_matches(b: IcsBuild, plan: Plan, id: Seq<char>, suffixes: Seq<Seq<char>>) -> bool {
    let r = ics_text(plan, id, suffixes);
    let w = warnings_upto(plan, processed(plan, r));
    &&& match (b.ics, r) {
        (Ok(s), Ok(t)) => s@ == t,
        (Err(e1), Err(e2)) => failure_of(e1) == e2,
        _ => false,
    }
    &&& b.warnings@.len() == w.len()
    &&& forall|k: int| 0 <= k < w.len() ==> #[trigger] b.warnings@[k]@ == w[k]
}

// ---------------------------------------------------------------------------
// Building
// ---------------------------------------------------------------------------

fn push_string(v: &mut Vec<char>, s: &String)
    ensures
        final(v)@ == old(v)@ + s@,
{
    push_str(v, s.as_str());
}

fn zone_of(m: &Milestone, plan: &Plan) -> (res: Option<String>)
    ensures
        opt_view(res) == event_zone(*m, *plan),
{
    match &m.timezone {
        Some(z) => Some(parse_tz(z.as_str())),
        None => match &plan.project.timezone {
            Some(z) => Some(parse_tz(z.as_str())),
            None => None,
        },
    }
}

fn stamps(zone: Option<String>, s: &String, e: &String) -> (res: (Vec<char>, Vec<char>))
    ensures
        (res.0@, res.1@) == stamp_lines(opt_view(zone), s@, e@),
{
    let mut a: Vec<char> = Vec::new();
    let mut b: Vec<char> = Vec::new();
    match zone {
        Some(z) => {
            let zv = to_chars(z.as_str());
            let is_z = zv.len() == 1 && zv[0] == 'Z';
            proof {
                if zv@.len() == 1 && zv@[0] == 'Z' {
                    assert(zv@ =~= seq!['Z']);
                }
            }
            if is_z {
                push_str(&mut a, "DTSTART:");
                push_string(&mut a, s);
                push_str(&mut a, "Z");
                push_str(&mut b, "DTEND:");
                push_string(&mut b, e);
                push_str(&mut b, "Z");
            } else if zv.len() > 0 && (zv[0] == '+' || zv[0] == '-') {
                push_str(&mut a, "DTSTART:");
                push_string(&mut a, s);
                extend(&mut a, &zv);
                push_str(&mut b, "DTEND:");
                push_string(&mut b, e);
                extend(&mut b, &zv);
            } else {
                push_str(&mut a, "DTSTART;TZID=");
                extend(&mut a, &zv);
                push_str(&mut a, ":");
                push_string(&mut a, s);
                push_str(&mut b, "DTEND;TZID=");
                extend(&mut b, &zv);
                push_str(&mut b, ":");
                push_string(&mut b, e);
            }
        },
        None => {
            push_str(&mut a, "DTSTART:");
            push_string(&mut a, s);
            push_str(&mut b, "DTEND:");
            push_string(&mut b, e);
        },
    }
    (a, b)
}

/// The `DTSTART`/`DTEND` lines of milestone `m`, or `None` when its date
/// (and time) do not parse.
fn event_times_exec(m: &Milestone, plan: &Plan) -> (res: Result<(Vec<char>, Vec<char>), ParseError>)
    requires
        milestone_fits(*m),
    ensures
        match res {
            Ok(t) => event_times(*m, *plan) == Some((t.0@, t.1@)),
            Err(_) => event_times(*m, *plan) is None,
        },
{
    proof {
        reveal_strlit("%Y%m%dT%H%M%S");
        reveal_strlit("%Y%m%d");
    }
    match &m.time {
        Some(t) => {
            let mut src: Vec<char> = Vec::new();
            push_string(&mut src, &m.date);
            push_str(&mut src, " ");
            push_string(&mut src, t);
            let src_s = chars_to_string(&src);
            match parse_iso_date_minute(src_s.as_str()) {
                Ok(start) => {
                    let dur: i64 = match m.duration_mins {
                        Some(d) => d as i64,
                        None => 60,
                    };
                    let end = add_minutes(start, dur).unwrap();
                    proof {
                        lemma_moment_of(end);
                    }
                    let s = format_date_minute(start, "%Y%m%dT%H%M%S");
                    let e = format_date_minute(end, "%Y%m%dT%H%M%S");
                    let zone = zone_of(m, plan);
                    Ok(stamps(zone, &s, &e))
                },
                Err(e) => Err(e),
            }
        },
        None => {
            match parse_iso_date(m.date.as_str()) {
                Ok(d) => {
                    let next = add_days(d, 1).unwrap();
                    proof {
                        lemma_date_of(next.year as int, next.month as int, next.day as int);
                    }
                    let s = format_date(d, "%Y%m%d");
                    let e = format_date(next, "%Y%m%d");
                    let mut a: Vec<char> = Vec::new();
                    push_str(&mut a, "DTSTART;VALUE=DATE:");
                    push_string(&mut a, &s);
                    let mut b: Vec<char> = Vec::new();
                    push_str(&mut b, "DTEND;VALUE=DATE:");
                    push_string(&mut b, &e);
                    Ok((a, b))
                },
                Err(e) => Err(e),
            }
        },
    }
}

/// Whether milestone `m`'s event ends at a representable date, and whether
/// its date (and time) parse.
fn milestone_check(m: &Milestone, plan: &Plan) -> (res: (bool, bool))
    ensures
        res.0 == milestone_fits(*m),
        res.1 == (event_times(*m, *plan) is Some),
{
    match &m.time {
        Some(t) => {
            let mut src: Vec<char> = Vec::new();
            push_string(&mut src, &m.date);
            push_str(&mut src, " ");
            push_string(&mut src, t);
            let src_s = chars_to_string(&src);
            match parse_iso_date_minute(src_s.as_str()) {
                Ok(start) => {
                    let dur: i64 = match m.duration_mins {
                        Some(d) => d as i64,
                        None => 60,
                    };
                    (add_minutes(start, dur).is_some(), true)
                },
                Err(_) => (true, false),
            }
        },
        None => match parse_iso_date(m.date.as_str()) {
            Ok(d) => (add_days(d, 1).is_some(), true),
            Err(_) => (true, false),
        },
    }
}

fn attendee_block(a: &Vec<String>) -> (res: Vec<char>)
    ensures
        res@ == attendee_lines(a@),
{
    let mut out: Vec<char> = Vec::new();
    let mut k: usize = 0;
    while k < a.len()
        invariant
            k <= a.len(),
            out@ == attendee_lines(a@.take(k as int)),
        decreases a.len() - k,
    {
        assert(a@.take(k + 1).drop_last() =~= a@.take(k as int));
        let line = ics_attendee(a[k].as_str());
        push_string(&mut out, &line);
        push_str(&mut out, "\r\n");
        k = k + 1;
    }
    assert(a@.take(a.len() as int) =~= a@);
    out
}

fn description_of(m: &Milestone, plan: &Plan, id: &Vec<char>) -> (res: Vec<char>)
    ensures
        res@ == description_text(*m, *plan, id@),
{
    let mut meta: Vec<char> = Vec::new();
    push_str(&mut meta, "project-id: ");
    extend(&mut meta, id);
    push_str(&mut meta, "\nproject-name: ");
    push_string(&mut meta, &plan.project.name);
    push_str(&mut meta, "\nproject-url: ");
    push_string(&mut meta, &plan.project.url);
    match &m.description {
        Some(d) => {
            let mut out: Vec<char> = Vec::new();
            push_string(&mut out, d);
            push_str(&mut out, "\n\n");
            extend(&mut out, &meta);
            out
        },
        None => meta,
    }
}

fn event_block_exec(
    m: &Milestone,
    plan: &Plan,
    id: &Vec<char>,
    i: usize,
    suffix: &String,
    times: &(Vec<char>, Vec<char>),
) -> (res: Vec<char>)
    ensures
        res@ == event_block(*m, *plan, id@, i as int, suffix@, (times.0@, times.1@)),
{
    let mut b: Vec<char> = Vec::new();
    push_str(&mut b, "BEGIN:VEVENT\r\n");
    push_str(&mut b, "UID:");
    extend(&mut b, id);
    push_str(&mut b, "-");
    push_decimal(&mut b, i as u64);
    push_str(&mut b, "-");
    push_string(&mut b, suffix);
    push_str(&mut b, "@gcal-plan\r\n");
    push_str(&mut b, "SUMMARY:");
    extend(&mut b, &escape_chars(&to_chars(m.title.as_str())));
    push_str(&mut b, "\r\n");
    extend(&mut b, &times.0);
    push_str(&mut b, "\r\n");
    extend(&mut b, &times.1);
    push_str(&mut b, "\r\n");
    push_str(&mut b, "DESCRIPTION:");
    extend(&mut b, &escape_chars(&description_of(m, plan, id)));
    push_str(&mut b, "\r\n");
    push_str(&mut b, "URL:");
    push_string(&mut b, &plan.project.url);
    push_str(&mut b, "\r\n");
    match &m.attendees {
        Some(a) => extend(&mut b, &attendee_block(a)),
        None => {},
    }
    push_str(&mut b, "END:VEVENT\r\n");
    b
}

fn push_warnings(warnings: &mut Vec<String>, m: &Milestone)
    ensures
        final(warnings)@.len() == old(warnings)@.len() + milestone_warnings(*m).len(),
        forall|k: int| 0 <= k < old(warnings)@.len() ==> #[trigger] final(warnings)@[k] == old(warnings)@[k],
        forall|k: int| 0 <= k < milestone_warnings(*m).len() ==>
            #[trigger] final(warnings)@[old(warnings)@.len() + k]@ == milestone_warnings(*m)[k],
{
    if m.time.is_none() {
        let ghost before = warnings@;
        if m.duration_mins.is_some() {
            let mut w: Vec<char> = Vec::new();
            push_str(&mut w, "Warning: '");
            push_string(&mut w, &m.title);
            push_str(&mut w, "': duration_mins ignored (no time \u{2014} all-day event)");
            warnings.push(chars_to_string(&w));
        }
        let ghost mid = warnings@;
        if m.timezone.is_some() {
            let mut w: Vec<char> = Vec::new();
            push_str(&mut w, "Warning: '");
            push_string(&mut w, &m.title);
            push_str(&mut w, "': timezone ignored (no time \u{2014} all-day event)");
            warnings.push(chars_to_string(&w));
        }
    }
}

/// Builds the iCalendar document for `plan` under `project_id`, with
/// `suffixes[i]` as the random part of milestone `i`'s UID. Stops at the
/// first milestone whose date (and time) do not parse.
pub fn build_ics_with(plan: &Plan, project_id: &str, suffixes: &Vec<String>) -> (res: IcsBuild)
    requires
        suffixes@.len() == plan.milestones@.len(),
        events_fit(*plan),
    ensures
        build_matches(res, *plan, project_id@, views(suffixes@)),
{
    let id = to_chars(project_id);
    let ghost sv = views(suffixes@);
    let ghost n = plan.milestones@.len() as int;
    let mut body: Vec<char> = Vec::new();
    let mut warnings: Vec<String> = Vec::new();
    let mut i: usize = 0;
    while i < plan.milestones.len()
        invariant
            i <= plan.milestones@.len(),
            suffixes@.len() == plan.milestones@.len(),
            events_fit(*plan),
            sv == views(suffixes@),
            id@ == project_id@,
            events_text(*plan, id@, sv, i as int) == Ok::<Seq<char>, (int, bool)>(body@),
            warnings@.len() == warnings_upto(*plan, i as int).len(),
            forall|k: int| 0 <= k < warnings@.len() ==> #[trigger] warnings@[k]@ == warnings_upto(*plan, i as int)[k],
            forall|j: int| 0 <= j < i ==> event_times(#[trigger] plan.milestones@[j], *plan) is Some,
        decreases plan.milestones@.len() - i,
    {
        let m = &plan.milestones[i];
        let ghost wb = warnings@;
        push_warnings(&mut warnings, m);
        proof {
            let w1 = warnings_upto(*plan, i + 1);
            assert(w1 == warnings_upto(*plan, i as int) + milestone_warnings(*m));
            assert forall|k: int| 0 <= k < warnings@.len() implies #[trigger] warnings@[k]@ == w1[k] by {
                if k < wb.len() {
                    assert(warnings@[k] == wb[k]);
                } else {
                    assert(warnings@[wb.len() + (k - wb.len())]@ == milestone_warnings(*m)[k - wb.len()]);
                }
            }
            assert(plan.milestones@[i as int] == *m);
            assert(milestone_fits(*m));
        }
        match event_times_exec(m, plan) {
            Ok(times) => {
                let block = event_block_exec(m, plan, &id, i, &suffixes[i], &times);
                assert(suffixes@[i as int]@ == sv[i as int]);
                extend(&mut body, &block);
            },
            Err(cause) => {
                let err = if m.time.is_some() {
                    IcsError::BadDateTime { index: i, cause }
                } else {
                    IcsError::BadDate { index: i, cause }
                };
                proof {
                    lemma_events_text_err(*plan, id@, sv, i as int + 1);
                }
                return IcsBuild { ics: Err(err), warnings };
            },
        }
        i = i + 1;
    }
    let mut doc: Vec<char> = Vec::new();
    push_str(&mut doc, "BEGIN:VCALENDAR\r\nVERSION:2.0\r\nPRODID:-//gcal-plan//EN\r\n");
    extend(&mut doc, &body);
    push_str(&mut doc, "END:VCALENDAR\r\n");
    IcsBuild { ics: Ok(chars_to_string(&doc)), warnings }
}

/// Once the events of the first `n` milestones fail, the whole document
/// fails with the same error.
proof fn lemma_events_text_err(plan: Plan, id: Seq<char>, suffixes: Seq<Seq<char>>, n: int)
    requires
        0 <= n <= plan.milestones@.len(),
        events_text(plan, id, suffixes, n) is Err,
    ensures
        events_text(plan, id, suffixes, plan.milestones@.len() as int) == events_text(plan, id, suffixes, n),
    decreases plan.milestones@.len() - n,
{
    if n < plan.milestones@.len() {
        lemma_events_text_err(plan, id, suffixes, n + 1);
    }
}

/// Whether every milestone reached before a failure ends at a
/// representable date (see `events_fit`).
pub fn plan_fits(plan: &Plan) -> (res: bool)
    ensures
        res == events_fit(*plan),
{
    let mut i: usize = 0;
    while i < plan.milestones.len()
        invariant
            i <= plan.milestones@.len(),
            forall|k: int| 0 <= k < i ==>
                (forall|j: int| 0 <= j < k ==> event_times(#[trigger] plan.milestones@[j], *plan) is Some)
                ==> milestone_fits(#[trigger] plan.milestones@[k]),
            forall|j: int| 0 <= j < i ==> event_times(#[trigger] plan.milestones@[j], *plan) is Some,
        decreases plan.milestones@.len() - i,
    {
        let (fits, parses) = milestone_check(&plan.milestones[i], plan);
        if !fits {
            return false;
        }
        if !parses {
            assert forall|k: int| 0 <= k < plan.milestones@.len() implies
                (forall|j: int| 0 <= j < k ==> event_times(#[trigger] plan.milestones@[j], *plan) is Some)
                ==> milestone_fits(#[trigger] plan.milestones@[k]) by {
                if k > i {
                    if forall|j: int| 0 <= j < k ==> event_times(#[trigger] plan.milestones@[j], *plan) is Some {
                        assert(event_times(plan.milestones@[i as int], *plan) is Some);
                    }
                }
            }
            return true;
        }
        i = i + 1;
    }
    true
}

/// Builds the iCalendar document for `plan` under `project_id`, drawing a
/// random 8-digit hex UID part for each milestone. `None` when a
/// milestone's event would end past the last date chrono can represent
/// (where adding the duration overflows).
pub fn build_ics(plan: &Plan, project_id: &str) -> (res: Option<IcsBuild>)
    ensures
        res is None <==> !events_fit(*plan),
        res matches Some(b) ==> exists|s: Seq<Seq<char>>| {
            &&& s.len() == plan.milestones@.len()
            &&& forall|k: int| 0 <= k < s.len() ==> (#[trigger] s[k]).len() == 8
                && forall|c: int| 0 <= c < 8 ==> is_lower_hex(#[trigger] s[k][c])
            &&& build_matches(b, *plan, project_id@, s)
        },
{
    if !plan_fits(plan) {
        return None;
    }
    let mut suffixes: Vec<String> = Vec::new();
    let mut i: usize = 0;
    while i < plan.milestones.len()
        invariant
            i <= plan.milestones@.len(),
            suffixes@.len() == i,
            forall|k: int| 0 <= k < i ==> (#[trigger] suffixes@[k])@.len() == 8
                && forall|c: int| 0 <= c < 8 ==> is_lower_hex(#[trigger] suffixes@[k]@[c]),
        decreases plan.milestones@.len() - i,
    {
        suffixes.push(generate_id());
        i = i + 1;
    }
    let b = build_ics_with(plan, project_id, &suffixes);
    let ghost s = views(suffixes@);
    assert forall|k: int| 0 <= k < s.len() implies (#[trigger] s[k]).len() == 8
        && forall|c: int| 0 <= c < 8 ==> is_lower_hex(#[trigger] s[k][c]) by {
        assert(s[k] == suffixes@[k]@);
    }
    Some(b)
}

// ---------------------------------------------------------------------------
// What the document promises
// ---------------------------------------------------------------------------

/// All-day events ignore time zones and durations: two all-day milestones
/// on the same date get the same `DTSTART`/`DTEND` lines, whatever zone
/// or duration either they or their plans name.
pub proof fn all_day_events_ignore_zone_and_duration(m1: Milestone, p1: Plan, m2: Milestone, p2: Plan)
    requires
        m1.time is None,
        m2.time is None,
        m1.date@ == m2.date@,
    ensures
        event_times(m1, p1) == event_times(m2, p2),
{
}

/// Every event's description ends with the project's trailer, and so
/// contains the tag `project-id: <id>` by which the project's events are
/// found again.
pub proof fn descriptions_carry_project_tag(m: Milestone, plan: Plan, id: Seq<char>)
    ensures
        has_suffix(description_text(m, plan, id), meta_text(plan, id)),
        has_substring(description_text(m, plan, id), project_query_text(id)),
{
    let d = description_text(m, plan, id);
    let t = meta_text(plan, id);
    let q = project_query_text(id);
    let off = d.len() - t.len();
    assert(d.subrange(off, d.len() as int) =~= t);
    assert(t.subrange(0, q.len() as int) =~= q);
    assert(d.subrange(off, off + q.len()) =~= q);
    assert(occurs_at(d, q, off));
}

// ---------------------------------------------------------------------------
// Titles in the document
// ---------------------------------------------------------------------------

/// Reads an iCalendar text value back: `\\`, `\;`, `\,` and `\n` stand
/// for a backslash, semicolon, comma and line break; `None` when the value
/// holds an unescaped comma, semicolon or line break, or a backslash that
/// escapes nothing of these.
pub open spec fn ics_unescape(v: Seq<char>) -> Option<Seq<char>>
    decreases v.len(),
{
    if v.len() == 0 {
        Some(Seq::empty())
    } else if v[0] == '\\' {
        if v.len() < 2 {
            None
        } else {
            let c = v[1];
            let orig = if c == 'n' { '\n' } else { c };
            if c == 'n' || c == '\\' || c == ';' || c == ',' {
                match ics_unescape(v.skip(2)) {
                    Some(r) => Some(seq![orig] + r),
                    None => None,
                }
            } else {
                None
            }
        }
    } else if v[0] == ',' || v[0] == ';' || v[0] == '\n' {
        None
    } else {
        match ics_unescape(v.skip(1)) {
            Some(r) => Some(seq![v[0]] + r),
            None => None,
        }
    }
}

proof fn lemma_escape_concat(a: Seq<char>, b: Seq<char>)
    ensures
        ics_escape_text(a + b) == ics_escape_text(a) + ics_escape_text(b),
    decreases b.len(),
{
    if b.len() == 0 {
        assert(a + b =~= a);
        assert(ics_escape_text(a) + ics_escape_text(b) =~= ics_escape_text(a));
    } else {
        lemma_escape_concat(a, b.drop_last());
        assert((a + b).drop_last() =~= a + b.drop_last());
        assert((a + b).last() == b.last());
        assert(ics_escape_text(a) + ics_escape_text(b) =~= ics_escape_text(a) + ics_escape_text(b.drop_last()) + ics_escape_char(b.last()));
    }
}

/// Escaped text reads back as the text it came from.
pub proof fn escaped_text_reads_back(s: Seq<char>)
    ensures
        ics_unescape(ics_escape_text(s)) == Some(s),
    decreases s.len(),
{
    if s.len() > 0 {
        let c = s[0];
        let rest = s.drop_first();
        escaped_text_reads_back(rest);
        assert(s =~= seq![c] + rest);
        lemma_escape_concat(seq![c], rest);
        assert(seq![c].drop_last() =~= Seq::<char>::empty());
        assert(seq![c].last() == c);
        assert(ics_escape_text(Seq::<char>::empty()) =~= Seq::<char>::empty());
        assert(ics_escape_text(seq![c]) =~= ics_escape_char(c));
        let e = ics_escape_char(c);
        let er = ics_escape_text(rest);
        let v = e + er;
        assert(ics_escape_text(s) == v);
        if c == '\\' || c == ';' || c == ',' || c == '\n' {
            assert(v.skip(2) =~= er);
            assert(v[0] == '\\');
        } else {
            assert(v.skip(1) =~= er);
            assert(v[0] == c);
        }
        assert(seq![c] + rest =~= s);
    }
}

/// Text `doc` has a `SUMMARY` line whose value reads back as `title`.
pub open spec fn has_summary(doc: Seq<char>, title: Seq<char>) -> bool {
    exists|v: Seq<char>| ics_unescape(v) == Some(title) && #[trigger] has_substring(doc, "SUMMARY:"@ + v + "\r\n"@)
}

proof fn lemma_substring_in_concat(a: Seq<char>, b: Seq<char>, c: Seq<char>, x: Seq<char>)
    requires
        has_substring(b, x),
    ensures
        has_substring(a + b + c, x),
{
    let i = choose|i: int| occurs_at(b, x, i);
    let off = a.len() + i;
    assert((a + b + c).subrange(off, off + x.len()) =~= b.subrange(i, i + x.len()));
    assert(occurs_at(a + b + c, x, off));
}

/// The lines of an event block: its UID, title, description and URL lines.
#[verifier::spinoff_prover]
proof fn lemma_block_lines(m: Milestone, plan: Plan, id: Seq<char>, k: int, suffix: Seq<char>, tt: (Seq<char>, Seq<char>))
    requires
        k >= 0,
    ensures
        ({
            let blk = event_block(m, plan, id, k, suffix, tt);
            &&& has_substring(blk, "UID:"@ + id + "-"@ + decimal(k as nat) + "-"@ + suffix + "@gcal-plan\r\n"@)
            &&& has_substring(blk, "SUMMARY:"@ + ics_escape_text(m.title@) + "\r\n"@)
            &&& has_substring(blk, "DESCRIPTION:"@ + ics_escape_text(description_text(m, plan, id)) + "\r\n"@)
            &&& has_substring(blk, "URL:"@ + plan.project.url@ + "\r\n"@)
        }),
{
    let blk = event_block(m, plan, id, k, suffix, tt);
    let begin = "BEGIN:VEVENT\r\n"@;
    let uid = "UID:"@ + id + "-"@ + decimal(k as nat) + "-"@ + suffix + "@gcal-plan\r\n"@;
    let summ = "SUMMARY:"@ + ics_escape_text(m.title@) + "\r\n"@;
    let times = tt.0 + "\r\n"@ + tt.1 + "\r\n"@;
    let desc = "DESCRIPTION:"@ + ics_escape_text(description_text(m, plan, id)) + "\r\n"@;
    let url = "URL:"@ + plan.project.url@ + "\r\n"@;
    let tail = attendees_of(m) + "END:VEVENT\r\n"@;
    assert(blk =~= begin + uid + summ + times + desc + url + tail);
    let o1 = begin.len() as int;
    assert(blk.subrange(o1, o1 + uid.len()) =~= uid);
    assert(occurs_at(blk, uid, o1));
    let o4 = o1 + uid.len();
    assert(blk.subrange(o4, o4 + summ.len()) =~= summ);
    assert(occurs_at(blk, summ, o4));
    let o2 = (begin.len() + uid.len() + summ.len() + times.len()) as int;
    assert(blk.subrange(o2, o2 + desc.len()) =~= desc);
    assert(occurs_at(blk, desc, o2));
    let o3 = o2 + desc.len();
    assert(blk.subrange(o3, o3 + url.len()) =~= url);
    assert(occurs_at(blk, url, o3));
}

/// Every milestone's event carries its title as a `SUMMARY` line whose
/// value is iCalendar text: it holds no bare comma, semicolon or line
/// break, and reads back as the title.
#[verifier::spinoff_prover]
pub proof fn summaries_are_escaped_titles(b: IcsBuild, plan: Plan, id: Seq<char>, suffixes: Seq<Seq<char>>)
    requires
        build_matches(b, plan, id, suffixes),
        b.ics is Ok,
    ensures
        forall|k: int| 0 <= k < plan.milestones@.len() ==> has_summary(b.ics->Ok_0@, (#[trigger] plan.milestones@[k]).title@),
{
    let n = plan.milestones@.len() as int;
    let t = events_text(plan, id, suffixes, n)->Ok_0;
    lemma_events_have_blocks(plan, id, suffixes, n);
    let doc = b.ics->Ok_0@;
    assert(doc == ics_header() + t + ics_footer());
    assert forall|k: int| 0 <= k < n implies has_summary(doc, (#[trigger] plan.milestones@[k]).title@) by {
        let m = plan.milestones@[k];
        let title = m.title@;
        let v = ics_escape_text(title);
        let blk = event_block(m, plan, id, k, suffixes[k], event_times(m, plan)->0);
        lemma_block_lines(m, plan, id, k, suffixes[k], event_times(m, plan)->0);
        lemma_substring_in_concat(ics_header(), t, ics_footer(), blk);
        lemma_substring_trans(doc, blk, "SUMMARY:"@ + v + "\r\n"@);
        escaped_text_reads_back(title);
        assert(ics_unescape(v) == Some(title) && has_substring(doc, "SUMMARY:"@ + v + "\r\n"@));
    }
}

proof fn lemma_substring_trans(a: Seq<char>, b: Seq<char>, c: Seq<char>)
    requires
        has_substring(a, b),
        has_substring(b, c),
    ensures
        has_substring(a, c),
{
    let i = choose|i: int| occurs_at(a, b, i);
    let j = choose|j: int| occurs_at(b, c, j);
    assert(a.subrange(i + j, i + j + c.len()) =~= b.subrange(j, j + c.len()));
    assert(occurs_at(a, c, i + j));
}

proof fn lemma_events_have_blocks(plan: Plan, id: Seq<char>, suffixes: Seq<Seq<char>>, n: int)
    requires
        0 <= n <= plan.milestones@.len(),
        events_text(plan, id, suffixes, n) is Ok,
    ensures
        forall|k: int| 0 <= k < n ==> event_times(#[trigger] plan.milestones@[k], plan) is Some
            && has_substring(events_text(plan, id, suffixes, n)->Ok_0,
                event_block(plan.milestones@[k], plan, id, k, suffixes[k], event_times(plan.milestones@[k], plan)->0)),
    decreases n,
{
    if n > 0 {
        lemma_events_have_blocks(plan, id, suffixes, n - 1);
        let prev = events_text(plan, id, suffixes, n - 1)->Ok_0;
        let m = plan.milestones@[n - 1];
        let blk = event_block(m, plan, id, n - 1, suffixes[n - 1], event_times(m, plan)->0);
        let t = events_text(plan, id, suffixes, n)->Ok_0;
        assert(t == prev + blk);
        assert forall|k: int| 0 <= k < n implies event_times(#[trigger] plan.milestones@[k], plan) is Some
            && has_substring(t, event_block(plan.milestones@[k], plan, id, k, suffixes[k], event_times(plan.milestones@[k], plan)->0)) by {
            let x = event_block(plan.milestones@[k], plan, id, k, suffixes[k], event_times(plan.milestones@[k], plan)->0);
            if k < n - 1 {
                lemma_substring_in_concat(Seq::empty(), prev, blk, x);
                assert(Seq::<char>::empty() + prev + blk =~= t);
            } else {
                assert(t.subrange(prev.len() as int, (prev.len() + blk.len()) as int) =~= blk);
                assert(occurs_at(t, blk, prev.len() as int));
            }
        }
    }
}

/// The description of milestone `m` of `plan` under `id`, as read back:
/// it ends with the lines `project-id: <id>`, `project-name: <name>` and
/// `project-url: <url>`, after the milestone's own description and a blank
/// line when it has one.
pub open spec fn describes_milestone(d: Seq<char>, m: Milestone, plan: Plan, id: Seq<char>) -> bool {
    let trailer = "project-id: "@ + id + "\nproject-name: "@ + plan.project.name@ + "\nproject-url: "@
        + plan.project.url@;
    match m.description {
        Some(x) => d == x@ + "\n\n"@ + trailer,
        None => d == trailer,
    }
}

/// The document carries milestone `k`'s UID line (project ID, position and
/// random part), a `DESCRIPTION` line whose value reads back as the
/// milestone's description followed by the project trailer, and the
/// project's URL line.
pub open spec fn event_lines_present(doc: Seq<char>, plan: Plan, id: Seq<char>, suffixes: Seq<Seq<char>>, k: int) -> bool {
    let m = plan.milestones@[k];
    &&& has_substring(doc, "UID:"@ + id + "-"@ + decimal(k as nat) + "-"@ + suffixes[k] + "@gcal-plan\r\n"@)
    &&& has_substring(doc, "URL:"@ + plan.project.url@ + "\r\n"@)
    &&& exists|v: Seq<char>| #[trigger] has_substring(doc, "DESCRIPTION:"@ + v + "\r\n"@)
        && (ics_unescape(v) matches Some(d) && describes_milestone(d, m, plan, id))
}

/// Each milestone's event carries a UID made of the project ID, the
/// milestone's position and its random part; a `DESCRIPTION` line whose
/// value reads back as the milestone's description followed by the project
/// trailer; and the project's URL.
#[verifier::spinoff_prover]
pub proof fn events_carry_uid_description_and_url(b: IcsBuild, plan: Plan, id: Seq<char>, suffixes: Seq<Seq<char>>)
    requires
        build_matches(b, plan, id, suffixes),
        b.ics is Ok,
    ensures
        forall|k: int| 0 <= k < plan.milestones@.len() ==> #[trigger] event_lines_present(b.ics->Ok_0@, plan, id, suffixes, k),
{
    let n = plan.milestones@.len() as int;
    let t = events_text(plan, id, suffixes, n)->Ok_0;
    lemma_events_have_blocks(plan, id, suffixes, n);
    let doc = b.ics->Ok_0@;
    assert(doc == ics_header() + t + ics_footer());
    assert forall|k: int| 0 <= k < n implies #[trigger] event_lines_present(doc, plan, id, suffixes, k) by {
        let m = plan.milestones@[k];
        let tt = event_times(m, plan)->0;
        let blk = event_block(m, plan, id, k, suffixes[k], tt);
        lemma_block_lines(m, plan, id, k, suffixes[k], tt);
        lemma_substring_in_concat(ics_header(), t, ics_footer(), blk);
        let dtext = description_text(m, plan, id);
        let v = ics_escape_text(dtext);
        lemma_substring_trans(doc, blk, "UID:"@ + id + "-"@ + decimal(k as nat) + "-"@ + suffixes[k] + "@gcal-plan\r\n"@);
        lemma_substring_trans(doc, blk, "DESCRIPTION:"@ + v + "\r\n"@);
        lemma_substring_trans(doc, blk, "URL:"@ + plan.project.url@ + "\r\n"@);
        escaped_text_reads_back(dtext);
        assert(describes_milestone(dtext, m, plan, id));
        assert(has_substring(doc, "DESCRIPTION:"@ + v + "\r\n"@));
        assert(m == plan.milestones@[k]);
    }
}

} // verus!
