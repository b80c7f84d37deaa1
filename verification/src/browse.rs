//! The calendar browser: what it reads from gcalcli (calendar lists and
//! agendas), the text it shows for an event, and how it reacts to keys.
//! The terminal drawing and the gcalcli calls are the program's; here is
//! the state they act on.

use vstd::prelude::*;
use vstd::string::StrSliceExecFns;
use crate::agenda::{column_is, any_field_matches, field_named, field_value, read_table, table_of, string_views};
use crate::order::{is_stable_order, key_views, stable_order};
use crate::text::{
    chars_eq, chars_to_string, contains_chars, decimal, extend, has_prefix, has_substring, is_whitespace,
    less_than, lines, lowercase, push_decimal, push_str, slice_chars, split_chars, split_lines, split_on,
    occurs_at, starts_with, text_lt, to_chars, trim, trim_chars, trim_end, trim_start, unicode_lowercase,
    unicode_uppercase, unicode_white_space, uppercase,
};
use crate::date::{format_date, iso_date, parse_iso_date, strftime_date};
use crate::plan::{find_char, find_char_exec, lemma_find_char};

verus! {

// ---------------------------------------------------------------------------
// Data shown
// ---------------------------------------------------------------------------

/// A calendar of the account: its title and the access the account has.
#[derive(Clone, Debug)]
pub struct Calendar {
    pub title: String,
    pub access: String,
}

/// An upcoming event as the agenda lists it.
#[derive(Clone, Debug)]
pub struct CalEvent {
    pub date: String,
    pub time: String,
    pub end_date: String,
    pub end_time: String,
    pub title: String,
    pub desc: String,
    pub location: String,
    pub url: String,
    pub calendar: String,
    pub email: String,
}

/// A gcalcli account: the default one (no config directory) or a named
/// one.
#[derive(Clone, Debug)]
pub struct Account {
    pub name: String,
    pub config_dir: Option<String>,
}

// ---------------------------------------------------------------------------
// Escape sequences
// ---------------------------------------------------------------------------

/// The length of a CSI sequence's body: through its first ASCII letter,
/// or the whole rest when there is none.
pub open spec fn csi_len(r: Seq<char>) -> nat
    decreases r.len(),
{
    if r.len() == 0 {
        0
    } else if is_ascii_alpha(r[0]) {
        1
    } else {
        1 + csi_len(r.drop_first())
    }
}

pub open spec fn is_ascii_alpha(c: char) -> bool {
    ('a' <= c && c <= 'z') || ('A' <= c && c <= 'Z')
}

/// `s` without its ANSI CSI sequences (`ESC [`, parameters, final
/// letter).
pub open spec fn strip_ansi_text(s: Seq<char>) -> Seq<char>
    decreases s.len(),
{
    if s.len() == 0 {
        Seq::empty()
    } else if s.len() >= 2 && s[0] == '\x1b' && s[1] == '[' {
        let rest = s.skip(2);
        proof {
            lemma_csi_len(rest);
        }
        strip_ansi_text(rest.skip(csi_len(rest) as int))
    } else {
        seq![s[0]] + strip_ansi_text(s.drop_first())
    }
}

pub proof fn lemma_csi_len(r: Seq<char>)
    ensures
        csi_len(r) <= r.len(),
    decreases r.len(),
{
    if r.len() > 0 && !is_ascii_alpha(r[0]) {
        lemma_csi_len(r.drop_first());
    }
}

fn csi_end(s: &Vec<char>, from: usize) -> (res: usize)
    requires
        from <= s.len(),
    ensures
        from <= res <= s.len(),
        res - from == csi_len(s@.skip(from as int)),
    decreases s.len() - from,
{
    if from >= s.len() {
        return from;
    }
    let c = s[from];
    if ('a' <= c && c <= 'z') || ('A' <= c && c <= 'Z') {
        from + 1
    } else {
        assert(s@.skip(from as int).drop_first() =~= s@.skip(from + 1));
        csi_end(s, from + 1)
    }
}

/// Removes ANSI CSI escape sequences (`ESC [ ... letter`) from a line.
pub fn strip_ansi(s: &str) -> (res: String)
    ensures
        res@ == strip_ansi_text(s@),
{
    let v = to_chars(s);
    let mut out: Vec<char> = Vec::new();
    let mut i: usize = 0;
    assert(v@.skip(0) =~= v@);
    while i < v.len()
        invariant
            i <= v.len(),
            out@ + strip_ansi_text(v@.skip(i as int)) == strip_ansi_text(v@),
        decreases v.len() - i,
    {
        let ghost rest = v@.skip(i as int);
        if v[i] == '\x1b' && i + 1 < v.len() && v[i + 1] == '[' {
            let e = csi_end(&v, i + 2);
            assert(rest.skip(2) =~= v@.skip(i + 2));
            assert(rest.skip(2).skip(csi_len(rest.skip(2)) as int) =~= v@.skip(e as int));
            i = e;
        } else {
            assert(rest.drop_first() =~= v@.skip(i + 1));
            out.push(v[i]);
            assert(out@ + strip_ansi_text(v@.skip(i + 1)) =~= strip_ansi_text(v@)) by {
                assert(strip_ansi_text(rest) == seq![v@[i as int]] + strip_ansi_text(rest.drop_first()));
            }
            i = i + 1;
        }
    }
    assert(strip_ansi_text(v@.skip(i as int)) == Seq::<char>::empty());
    assert(out@ + Seq::<char>::empty() =~= out@);
    chars_to_string(&out)
}

// ---------------------------------------------------------------------------
// Calendar lists
// ---------------------------------------------------------------------------

/// A line of `gcalcli list` that starts (after leading whitespace) with an
/// access level.
pub open spec fn has_access_text(s: Seq<char>) -> bool {
    let t = trim_start(s);
    has_prefix(t, "owner"@) || has_prefix(t, "writer"@) || has_prefix(t, "reader"@)
        || has_prefix(t, "freebusy"@)
}

fn trim_start_chars(s: &Vec<char>) -> (res: Vec<char>)
    ensures
        res@ == trim_start(s@),
{
    let mut i: usize = 0;
    assert(s@.skip(0) =~= s@);
    while i < s.len() && is_whitespace(s[i])
        invariant
            i <= s.len(),
            trim_start(s@) == trim_start(s@.skip(i as int)),
        decreases s.len() - i,
    {
        assert(s@.skip(i as int).drop_first() =~= s@.skip(i + 1));
        i = i + 1;
    }
    let r = slice_chars(s, i, s.len());
    assert(r@ =~= s@.skip(i as int));
    r
}

/// Whether a line of `gcalcli list` names an access level (owner, writer,
/// reader or freebusy) first.
pub fn line_has_access(s: &str) -> (res: bool)
    ensures
        res == has_access_text(s@),
{
    let t = trim_start_chars(&to_chars(s));
    starts_with(&t, &to_chars("owner")) || starts_with(&t, &to_chars("writer"))
        || starts_with(&t, &to_chars("reader")) || starts_with(&t, &to_chars("freebusy"))
}

/// The position of the first double space in `s`.
pub open spec fn double_space_at(s: Seq<char>) -> Option<int>
    decreases s.len(),
{
    if s.len() < 2 {
        None
    } else if s[0] == ' ' && s[1] == ' ' {
        Some(0)
    } else {
        match double_space_at(s.drop_first()) {
            Some(i) => Some(i + 1),
            None => None,
        }
    }
}

/// The calendar a stripped line names, if any: the line must name an
/// access level and hold a double space; the access is the trimmed text
/// before it and the title the trimmed rest, which must not be empty.
pub open spec fn calendar_of_line(line: Seq<char>) -> Option<(Seq<char>, Seq<char>)> {
    let s = trim(strip_ansi_text(line));
    if s.len() == 0 || !has_access_text(s) {
        None
    } else {
        match double_space_at(s) {
            Some(k) => {
                let title = trim(s.skip(k));
                if title.len() == 0 { None } else { Some((trim(s.take(k)), title)) }
            },
            None => None,
        }
    }
}

/// The calendars named by the first `n` lines.
pub open spec fn calendars_upto(ls: Seq<Seq<char>>, n: int) -> Seq<(Seq<char>, Seq<char>)>
    decreases n,
{
    if n <= 0 {
        Seq::empty()
    } else {
        let prev = calendars_upto(ls, n - 1);
        match calendar_of_line(ls[n - 1]) {
            Some(c) => prev.push(c),
            None => prev,
        }
    }
}

/// Why a calendar list could not be used.
#[derive(Clone, Copy, Debug, PartialEq, Eq)]
pub enum CalendarListError {
    /// No line names a calendar.
    NoCalendars,
}

pub open spec fn calendar_view(c: Calendar) -> (Seq<char>, Seq<char>) {
    (c.access@, c.title@)
}

fn double_space_exec(s: &Vec<char>) -> (res: Option<usize>)
    ensures
        match res {
            Some(k) => double_space_at(s@) == Some(k as int) && k + 2 <= s.len(),
            None => double_space_at(s@) is None,
        },
{
    let mut i: usize = 0;
    assert(s@.skip(0) =~= s@);
    while s.len() >= 2 && i < s.len() - 1
        invariant
            i <= s.len(),
            double_space_at(s@) == match double_space_at(s@.skip(i as int)) {
                Some(p) => Some(p + i),
                None => None::<int>,
            },
        decreases s.len() - i,
    {
        if s[i] == ' ' && s[i + 1] == ' ' {
            return Some(i);
        }
        assert(s@.skip(i as int).drop_first() =~= s@.skip(i + 1));
        i = i + 1;
    }
    None
}

fn calendar_line(line: &Vec<char>) -> (res: Option<Calendar>)
    ensures
        match res {
            Some(c) => calendar_of_line(line@) == Some(calendar_view(c)),
            None => calendar_of_line(line@) is None,
        },
{
    let stripped = to_chars(strip_ansi(chars_to_string(line).as_str()).as_str());
    let s = trim_chars(&stripped);
    if s.len() == 0 {
        return None;
    }
    if !line_has_access(chars_to_string(&s).as_str()) {
        return None;
    }
    match double_space_exec(&s) {
        Some(k) => {
            let title = trim_chars(&slice_chars(&s, k, s.len()));
            assert(s@.subrange(k as int, s@.len() as int) =~= s@.skip(k as int));
            if title.len() == 0 {
                return None;
            }
            let access = trim_chars(&slice_chars(&s, 0, k));
            assert(s@.subrange(0, k as int) =~= s@.take(k as int));
            Some(Calendar { title: chars_to_string(&title), access: chars_to_string(&access) })
        },
        None => None,
    }
}

/// The calendars of a `gcalcli list` output, in order; an error when no
/// line names one.
pub fn parse_calendars(out: &str) -> (res: Result<Vec<Calendar>, CalendarListError>)
    ensures
        ({
            let cs = calendars_upto(lines(out@), lines(out@).len() as int);
            match res {
                Ok(v) => cs.len() > 0 && v@.map_values(|c: Calendar| calendar_view(c)) == cs,
                Err(_) => cs.len() == 0,
            }
        }),
{
    let text = to_chars(out);
    let ls = split_lines(&text);
    let ghost sl = lines(out@);
    let mut cals: Vec<Calendar> = Vec::new();
    let mut k: usize = 0;
    while k < ls.len()
        invariant
            sl == lines(out@),
            ls@.len() == sl.len(),
            forall|j: int| 0 <= j < ls@.len() ==> #[trigger] ls@[j]@ == sl[j],
            k <= ls@.len(),
            cals@.map_values(|c: Calendar| calendar_view(c)) == calendars_upto(sl, k as int),
        decreases ls.len() - k,
    {
        let ghost before = cals@;
        match calendar_line(&ls[k]) {
            Some(c) => {
                cals.push(c);
                assert(cals@.map_values(|c: Calendar| calendar_view(c))
                    =~= before.map_values(|c: Calendar| calendar_view(c)).push(calendar_view(c)));
            },
            None => {},
        }
        k = k + 1;
    }
    if cals.len() == 0 {
        return Err(CalendarListError::NoCalendars);
    }
    Ok(cals)
}

// ---------------------------------------------------------------------------
// Agendas
// ---------------------------------------------------------------------------

pub open spec fn cal_event_view(e: CalEvent) -> Seq<Seq<char>> {
    seq![e.date@, e.time@, e.end_date@, e.end_time@, e.title@, e.desc@, e.location@, e.url@, e.calendar@, e.email@]
}

/// A line of the agenda is shown when it has all columns, a start date,
/// and (for a non-empty query) its title or description contains the
/// query, case-insensitively.
pub open spec fn agenda_line_kept(headers: Seq<Seq<char>>, fields: Seq<Seq<char>>, query_lower: Seq<char>) -> bool {
    &&& fields.len() >= headers.len()
    &&& field_named(headers, fields, "start_date"@).len() > 0
    &&& (query_lower.len() == 0
        || has_substring(unicode_lowercase(field_named(headers, fields, "title"@)), query_lower)
        || has_substring(unicode_lowercase(field_named(headers, fields, "description"@)), query_lower))
}

/// The event a kept agenda line describes (`start_time` empty means
/// `"all-day"`).
pub open spec fn agenda_event(headers: Seq<Seq<char>>, fields: Seq<Seq<char>>) -> Seq<Seq<char>> {
    let t = field_named(headers, fields, "start_time"@);
    seq![
        field_named(headers, fields, "start_date"@),
        if t.len() == 0 { "all-day"@ } else { t },
        field_named(headers, fields, "end_date"@),
        field_named(headers, fields, "end_time"@),
        field_named(headers, fields, "title"@),
        field_named(headers, fields, "description"@),
        field_named(headers, fields, "location"@),
        field_named(headers, fields, "html_link"@),
        field_named(headers, fields, "calendar"@),
        field_named(headers, fields, "email"@),
    ]
}

/// The events of the first `n` lines that are shown and start on or after
/// `today`.
pub open spec fn agenda_upto(headers: Seq<Seq<char>>, rows: Seq<Seq<Seq<char>>>, query_lower: Seq<char>, today: Seq<char>, n: int) -> Seq<Seq<Seq<char>>>
    decreases n,
{
    if n <= 0 {
        Seq::empty()
    } else {
        let prev = agenda_upto(headers, rows, query_lower, today, n - 1);
        let e = agenda_event(headers, rows[n - 1]);
        if agenda_line_kept(headers, rows[n - 1], query_lower) && !text_lt(e[0], today) {
            prev.push(e)
        } else {
            prev
        }
    }
}

/// The filter as the agenda applies it: lower-cased (an empty filter stays
/// empty and keeps every event).
pub open spec fn query_lower_text(query: Seq<char>) -> Seq<char> {
    if query.len() == 0 { Seq::empty() } else { unicode_lowercase(query) }
}

/// The agenda's events in listing order (before sorting).
pub open spec fn agenda_results(out: Seq<char>, query: Seq<char>, today: Seq<char>) -> Seq<Seq<Seq<char>>> {
    match table_of(out) {
        None => Seq::empty(),
        Some((h, rows)) => agenda_upto(h, rows, query_lower_text(query), today, rows.len() as int),
    }
}

/// The sort key of an event: date, then all-day events first, then time.
pub open spec fn agenda_key(e: Seq<Seq<char>>) -> Seq<Seq<char>> {
    seq![e[0], if e[1] == "all-day"@ { "0"@ } else { "1"@ }, e[1]]
}

pub open spec fn agenda_keys(es: Seq<Seq<Seq<char>>>) -> Seq<Seq<Seq<char>>> {
    Seq::new(es.len(), |k: int| agenda_key(es[k]))
}

fn agenda_key_exec(e: &CalEvent) -> (res: Vec<Vec<char>>)
    ensures
        crate::order::views(res@) == agenda_key(cal_event_view(*e)),
{
    proof {
        reveal_strlit("all-day");
    }
    let time = to_chars(e.time.as_str());
    let all_day = chars_eq(&time, &to_chars("all-day"));
    let mut k: Vec<Vec<char>> = Vec::new();
    k.push(to_chars(e.date.as_str()));
    k.push(to_chars(if all_day { "0" } else { "1" }));
    k.push(time);
    assert(crate::order::views(k@) =~= agenda_key(cal_event_view(*e)));
    k
}

fn agenda_line(headers: &Vec<Vec<char>>, fields: &Vec<Vec<char>>, ql: &Vec<char>, today: &Vec<char>) -> (res: Option<CalEvent>)
    ensures
        ({
            let h = crate::order::views(headers@);
            let f = crate::order::views(fields@);
            let e = agenda_event(h, f);
            match res {
                Some(ev) => agenda_line_kept(h, f, ql@) && !text_lt(e[0], today@) && cal_event_view(ev) == e,
                None => !(agenda_line_kept(h, f, ql@) && !text_lt(e[0], today@)),
            }
        }),
{
    if fields.len() < headers.len() {
        return None;
    }
    let date = field_value(headers, fields, "start_date");
    if date.len() == 0 {
        return None;
    }
    let title = field_value(headers, fields, "title");
    let desc = field_value(headers, fields, "description");
    if ql.len() > 0 {
        let lt = to_chars(lowercase(chars_to_string(&title).as_str()).as_str());
        let ld = to_chars(lowercase(chars_to_string(&desc).as_str()).as_str());
        if !contains_chars(&lt, ql) && !contains_chars(&ld, ql) {
            return None;
        }
    }
    let t = field_value(headers, fields, "start_time");
    let time = if t.len() == 0 { to_chars("all-day") } else { t };
    if less_than(&date, today) {
        return None;
    }
    let ev = CalEvent {
        date: chars_to_string(&date),
        time: chars_to_string(&time),
        end_date: chars_to_string(&field_value(headers, fields, "end_date")),
        end_time: chars_to_string(&field_value(headers, fields, "end_time")),
        title: chars_to_string(&title),
        desc: chars_to_string(&desc),
        location: chars_to_string(&field_value(headers, fields, "location")),
        url: chars_to_string(&field_value(headers, fields, "html_link")),
        calendar: chars_to_string(&field_value(headers, fields, "calendar")),
        email: chars_to_string(&field_value(headers, fields, "email")),
    };
    assert(cal_event_view(ev) =~= agenda_event(crate::order::views(headers@), crate::order::views(fields@)));
    Some(ev)
}

fn copy_event(e: &CalEvent) -> (c: CalEvent)
    ensures
        c == *e,
{
    CalEvent {
        date: e.date.clone(),
        time: e.time.clone(),
        end_date: e.end_date.clone(),
        end_time: e.end_time.clone(),
        title: e.title.clone(),
        desc: e.desc.clone(),
        location: e.location.clone(),
        url: e.url.clone(),
        calendar: e.calendar.clone(),
        email: e.email.clone(),
    }
}

/// The upcoming events of a `gcalcli agenda` TSV listing: lines with a
/// start date on or after `today` whose title or description contains
/// `query` (case-insensitively; an empty query keeps all), sorted by date,
/// then all-day events first, then start time (stably).
pub fn parse_agenda(out: &str, query: &str, today: &str) -> (res: Vec<CalEvent>)
    ensures
        crate::agenda::arranged(
            res@.map_values(|e: CalEvent| cal_event_view(e)),
            agenda_results(out@, query@, today@),
            agenda_keys(agenda_results(out@, query@, today@)),
        ),
{
    let ql = to_chars(lowercase(query).as_str());
    assert(ql@ =~= query_lower_text(query@));
    let td = to_chars(today);
    let mut found: Vec<CalEvent> = Vec::new();
    let ghost cands = agenda_results(out@, query@, today@);
    match read_table(out) {
        None => {},
        Some((headers, rows)) => {
            let ghost h = crate::order::views(headers@);
            let ghost tbl = table_of(out@).unwrap();
            let ghost srows = tbl.1;
            assert(h =~= tbl.0);
            let mut r: usize = 0;
            while r < rows.len()
                invariant
                    h == crate::order::views(headers@),
                    rows@.len() == srows.len(),
                    forall|x: int| 0 <= x < rows@.len() ==> {
                        &&& (#[trigger] rows@[x])@.len() == srows[x].len()
                        &&& forall|i: int| 0 <= i < rows@[x]@.len() ==> #[trigger] rows@[x]@[i]@ == srows[x][i]
                    },
                    ql@ == query_lower_text(query@),
                    td@ == today@,
                    r <= rows@.len(),
                    found@.map_values(|x: CalEvent| cal_event_view(x)) == agenda_upto(h, srows, ql@, today@, r as int),
                decreases rows.len() - r,
            {
                let fields = &rows[r];
                assert(crate::order::views(fields@) =~= srows[r as int]);
                let ghost before = found@;
                match agenda_line(&headers, fields, &ql, &td) {
                    Some(ev) => {
                        found.push(ev);
                        assert(found@.map_values(|x: CalEvent| cal_event_view(x))
                            =~= before.map_values(|x: CalEvent| cal_event_view(x)).push(cal_event_view(ev)));
                    },
                    None => {},
                }
                r = r + 1;
            }
            assert(cands == agenda_upto(h, srows, ql@, today@, srows.len() as int));
        },
    }
    let ghost fv = found@.map_values(|x: CalEvent| cal_event_view(x));
    assert(fv == cands);
    let mut keys: Vec<Vec<Vec<char>>> = Vec::new();
    let mut i: usize = 0;
    while i < found.len()
        invariant
            i <= found@.len(),
            keys@.len() == i,
            forall|k: int| 0 <= k < i ==> crate::order::views(#[trigger] keys@[k]@) == agenda_key(cal_event_view(found@[k])),
        decreases found.len() - i,
    {
        keys.push(agenda_key_exec(&found[i]));
        i = i + 1;
    }
    assert(key_views(keys@) =~= agenda_keys(cands)) by {
        assert forall|k: int| 0 <= k < keys@.len() implies key_views(keys@)[k] == agenda_keys(cands)[k] by {
            assert(fv[k] == cal_event_view(found@[k]));
        }
    }
    let p = stable_order(&keys);
    let mut res: Vec<CalEvent> = Vec::new();
    let mut k: usize = 0;
    while k < p.len()
        invariant
            is_stable_order(key_views(keys@), p@),
            keys@.len() == found@.len(),
            k <= p@.len(),
            res@.len() == k,
            forall|j: int| 0 <= j < k ==> #[trigger] res@[j] == found@[p@[j] as int],
        decreases p.len() - k,
    {
        assert(p@[k as int] < keys@.len());
        res.push(copy_event(&found[p[k]]));
        k = k + 1;
    }
    proof {
        let rv = res@.map_values(|x: CalEvent| cal_event_view(x));
        assert forall|j: int| 0 <= j < rv.len() implies #[trigger] rv[j] == cands[p@[j] as int] by {
            assert(rv[j] == cal_event_view(res@[j]));
            assert(fv[p@[j] as int] == cal_event_view(found@[p@[j] as int]));
        }
    }
    res
}

// ---------------------------------------------------------------------------
// Event detail
// ---------------------------------------------------------------------------

/// A time with the time zone's name, unless it is empty or `"all-day"`.
pub open spec fn fmt_time_text(t: Seq<char>, tz: Seq<char>) -> Seq<char> {
    if t.len() == 0 || t == "all-day"@ { t } else { t + " "@ + tz }
}

/// Shows a time with the time zone's name (`"14:00 CDT"`); an empty time
/// or `"all-day"` is shown as is.
pub fn fmt_time(t: &str, tz: &str) -> (res: String)
    ensures
        res@ == fmt_time_text(t@, tz@),
{
    let v = to_chars(t);
    if v.len() == 0 || chars_eq(&v, &to_chars("all-day")) {
        return chars_to_string(&v);
    }
    let mut out = v;
    push_str(&mut out, " ");
    push_str(&mut out, tz);
    chars_to_string(&out)
}

/// The "When" line of an event (fields in `cal_event_view` order).
pub open spec fn when_text(e: Seq<Seq<char>>, tz: Seq<char>) -> Seq<char> {
    let date = e[0];
    let time = e[1];
    let end_date = e[2];
    let end_time = e[3];
    if time == "all-day"@ {
        if end_date.len() > 0 && end_date != date {
            date + "  (all-day)  \u{2192}  "@ + end_date
        } else {
            date + "  (all-day)"@
        }
    } else if end_time.len() > 0 {
        date + " "@ + fmt_time_text(time, tz) + "  \u{2192}  "@ + end_date + " "@ + fmt_time_text(end_time, tz)
    } else {
        date + " "@ + fmt_time_text(time, tz)
    }
}

/// A labelled line when the value is not empty.
pub open spec fn optional_line(label: Seq<char>, value: Seq<char>) -> Seq<Seq<char>> {
    if value.len() > 0 { seq![label + value] } else { Seq::empty() }
}

/// The lines of the detail screen for event `idx` of `events`.
pub open spec fn detail_text(events: Seq<Seq<Seq<char>>>, idx: int, tz: Seq<char>) -> Seq<Seq<char>> {
    if idx < 0 || idx >= events.len() {
        seq![Seq::<char>::empty()]
    } else {
        let e = events[idx];
        seq![
            e[4] + " ("@ + decimal((idx + 1) as nat) + "/"@ + decimal(events.len()) + ")"@,
            Seq::<char>::empty(),
            "When:  "@ + when_text(e, tz),
        ]
            + optional_line("Where: "@, e[6])
            + optional_line("Calendar: "@, e[8])
            + optional_line("Organizer: "@, e[9])
            + optional_line("Link: "@, e[7])
            + (if e[5].len() > 0 {
                seq![Seq::<char>::empty(), "Description:"@] + split_on(trim_end(e[5]), '\n')
            } else {
                Seq::empty()
            })
    }
}

pub open spec fn events_view(events: Seq<CalEvent>) -> Seq<Seq<Seq<char>>> {
    Seq::new(events.len(), |k: int| cal_event_view(events[k]))
}

fn push_line(lines: &mut Vec<String>, v: &Vec<char>)
    ensures
        string_views(final(lines)@) == string_views(old(lines)@).push(v@),
{
    let ghost before = lines@;
    lines.push(chars_to_string(v));
    assert(string_views(lines@) =~= string_views(before).push(v@));
}

fn push_optional(lines: &mut Vec<String>, label: &str, value: &String)
    ensures
        string_views(final(lines)@) == string_views(old(lines)@) + optional_line(label@, value@),
{
    if value.as_str().unicode_len() > 0 {
        let mut v = to_chars(label);
        push_str(&mut v, value.as_str());
        push_line(lines, &v);
        assert(optional_line(label@, value@) =~= seq![label@ + value@]);
    } else {
        assert(string_views(lines@) + optional_line(label@, value@) =~= string_views(lines@));
    }
}

fn trim_end_chars(s: &Vec<char>) -> (res: Vec<char>)
    ensures
        res@ == trim_end(s@),
{
    let mut j: usize = s.len();
    assert(s@.take(s.len() as int) =~= s@);
    while j > 0 && is_whitespace(s[j - 1])
        invariant
            j <= s.len(),
            trim_end(s@) == trim_end(s@.take(j as int)),
        decreases j,
    {
        assert(s@.take(j as int).drop_last() =~= s@.take(j - 1));
        j = j - 1;
    }
    let r = slice_chars(s, 0, j);
    assert(r@ =~= s@.take(j as int));
    r
}

fn when_exec(e: &CalEvent, tz: &str) -> (res: Vec<char>)
    ensures
        res@ == when_text(cal_event_view(*e), tz@),
{
    let date = to_chars(e.date.as_str());
    let time = to_chars(e.time.as_str());
    let end_date = to_chars(e.end_date.as_str());
    let end_time = to_chars(e.end_time.as_str());
    let mut out: Vec<char> = Vec::new();
    if chars_eq(&time, &to_chars("all-day")) {
        extend(&mut out, &date);
        if end_date.len() > 0 && !chars_eq(&end_date, &date) {
            push_str(&mut out, "  (all-day)  \u{2192}  ");
            extend(&mut out, &end_date);
        } else {
            push_str(&mut out, "  (all-day)");
        }
    } else if end_time.len() > 0 {
        extend(&mut out, &date);
        push_str(&mut out, " ");
        push_str(&mut out, fmt_time(e.time.as_str(), tz).as_str());
        push_str(&mut out, "  \u{2192}  ");
        extend(&mut out, &end_date);
        push_str(&mut out, " ");
        push_str(&mut out, fmt_time(e.end_time.as_str(), tz).as_str());
    } else {
        extend(&mut out, &date);
        push_str(&mut out, " ");
        push_str(&mut out, fmt_time(e.time.as_str(), tz).as_str());
    }
    out
}

/// The human-readable lines of the detail screen for event `idx`: title
/// with its position, a blank line, when it happens, where, calendar,
/// organizer and link when known, then the description's lines. A single
/// empty line when there is no such event.
pub fn detail_lines(app: &App, idx: usize, tz: &str) -> (res: Vec<String>)
    ensures
        string_views(res@) == detail_text(events_view(app.events@), idx as int, tz@),
{
    let ghost ev = events_view(app.events@);
    let mut lines: Vec<String> = Vec::new();
    if idx >= app.events.len() {
        push_line(&mut lines, &Vec::new());
        assert(string_views(lines@) =~= seq![Seq::<char>::empty()]);
        return lines;
    }
    let e = &app.events[idx];
    assert(ev[idx as int] == cal_event_view(*e));
    let mut head = to_chars(e.title.as_str());
    push_str(&mut head, " (");
    push_decimal(&mut head, (idx as u64) + 1);
    push_str(&mut head, "/");
    push_decimal(&mut head, app.events.len() as u64);
    push_str(&mut head, ")");
    push_line(&mut lines, &head);
    push_line(&mut lines, &Vec::new());
    let mut when = to_chars("When:  ");
    extend(&mut when, &when_exec(e, tz));
    push_line(&mut lines, &when);
    let ghost first = string_views(lines@);
    push_optional(&mut lines, "Where: ", &e.location);
    push_optional(&mut lines, "Calendar: ", &e.calendar);
    push_optional(&mut lines, "Organizer: ", &e.email);
    push_optional(&mut lines, "Link: ", &e.url);
    let ghost mid = string_views(lines@);
    if e.desc.as_str().unicode_len() > 0 {
        push_line(&mut lines, &Vec::new());
        push_line(&mut lines, &to_chars("Description:"));
        let parts = split_chars(&trim_end_chars(&to_chars(e.desc.as_str())), '\n');
        let ghost base = string_views(lines@);
        let mut k: usize = 0;
        while k < parts.len()
            invariant
                k <= parts@.len(),
                string_views(lines@) == base + Seq::new(k as nat, |j: int| parts@[j]@),
            decreases parts.len() - k,
        {
            push_line(&mut lines, &parts[k]);
            assert(Seq::new((k + 1) as nat, |j: int| parts@[j]@) =~= Seq::new(k as nat, |j: int| parts@[j]@).push(parts@[k as int]@));
            k = k + 1;
        }
        assert(Seq::new(parts@.len(), |j: int| parts@[j]@) =~= split_on(trim_end(e.desc@), '\n'));
        assert(string_views(lines@) =~= mid + (seq![Seq::<char>::empty(), "Description:"@] + split_on(trim_end(e.desc@), '\n')));
    } else {
        assert(string_views(lines@) =~= mid + Seq::<Seq<char>>::empty());
    }
    lines
}

// ---------------------------------------------------------------------------
// The browser's state
// ---------------------------------------------------------------------------

/// The screens of the browser.
#[derive(Clone, Copy, Debug, PartialEq, Eq, Structural)]
pub enum Screen {
    Accounts,
    Calendars,
    Events,
    EventDetail,
    Help,
}

/// A key the browser reacts to (the terminal's key codes, reduced to the
/// ones that matter).
#[derive(Clone, Copy, Debug, PartialEq, Eq, Structural)]
pub enum Key {
    Char(char),
    Esc,
    Enter,
    Backspace,
    Up,
    Down,
    PageUp,
    PageDown,
    F(u8),
    Other,
}

/// A key press: the key and whether Control was held.
#[derive(Clone, Copy, Debug, PartialEq, Eq, Structural)]
pub struct KeyPress {
    pub key: Key,
    pub ctrl: bool,
}

/// What the browser does after a key.
#[derive(Clone, Copy, Debug, PartialEq, Eq, Structural)]
pub enum KeyOutcome {
    Continue,
    Quit,
}

/// The browser's state. A selection is a position in its list; `loading`
/// asks the program to (re)load the current screen's data.
#[derive(Debug)]
pub struct App {
    pub accounts: Vec<Account>,
    pub account_sel: Option<usize>,
    pub account_config: Option<String>,
    pub calendars: Vec<Calendar>,
    pub cal_sel: Option<usize>,
    pub events: Vec<CalEvent>,
    pub events_sel: Option<usize>,
    pub screen: Screen,
    pub prev_screen: Screen,
    pub selected_calendar: Option<String>,
    pub searching: bool,
    pub query: String,
    pub commanding: bool,
    pub command: String,
    pub loading: bool,
    pub error: Option<String>,
    pub detail_index: Option<usize>,
    pub detail_scroll: u16,
    pub detail_lines: Vec<String>,
    pub page_hint: u16,
}

impl App {
    /// A browser on the account list, with the first account (and the
    /// first calendar, once there are calendars) selected.
    pub fn new(accounts: Vec<Account>) -> (res: App)
        ensures
            res.accounts == accounts,
            res.account_sel == (if accounts@.len() > 0 { Some(0usize) } else { None }),
            res.account_config is None,
            res.calendars@.len() == 0,
            res.cal_sel == Some(0usize),
            res.events@.len() == 0,
            res.events_sel is None,
            res.screen == Screen::Accounts,
            res.prev_screen == Screen::Accounts,
            res.selected_calendar is None,
            !res.searching,
            res.query@.len() == 0,
            !res.commanding,
            res.command@.len() == 0,
            !res.loading,
            res.error is None,
            res.detail_index is None,
            res.detail_scroll == 0,
            res.detail_lines@.len() == 0,
            res.page_hint == 0,
    {
        let sel = if accounts.len() > 0 { Some(0) } else { None };
        App {
            accounts,
            account_sel: sel,
            account_config: None,
            calendars: Vec::new(),
            cal_sel: Some(0),
            events: Vec::new(),
            events_sel: None,
            screen: Screen::Accounts,
            prev_screen: Screen::Accounts,
            selected_calendar: None,
            searching: false,
            query: String::new(),
            commanding: false,
            command: String::new(),
            loading: false,
            error: None,
            detail_index: None,
            detail_scroll: 0,
            detail_lines: Vec::new(),
            page_hint: 0,
        }
    }
}

/// The name of the account whose configuration is in use, or `""`.
pub open spec fn account_name_text(accounts: Seq<Account>, config: Option<String>) -> Seq<char>
    decreases accounts.len(),
{
    if accounts.len() == 0 {
        Seq::empty()
    } else if opt_str_view(accounts[0].config_dir) == opt_str_view(config) {
        accounts[0].name@
    } else {
        account_name_text(accounts.drop_first(), config)
    }
}

pub open spec fn opt_str_view(s: Option<String>) -> Option<Seq<char>> {
    match s {
        Some(t) => Some(t@),
        None => None,
    }
}

fn opt_str_eq(a: &Option<String>, b: &Option<String>) -> (res: bool)
    ensures
        res == (opt_str_view(*a) == opt_str_view(*b)),
{
    match (a, b) {
        (Some(x), Some(y)) => *x == *y,
        (None, None) => true,
        _ => false,
    }
}

/// The name of the account in use (the first whose configuration
/// directory matches), or `""` when none does.
pub fn current_account_name(app: &App) -> (res: String)
    ensures
        res@ == account_name_text(app.accounts@, app.account_config),
{
    let mut i: usize = 0;
    assert(app.accounts@.skip(0) =~= app.accounts@);
    while i < app.accounts.len()
        invariant
            i <= app.accounts@.len(),
            account_name_text(app.accounts@, app.account_config)
                == account_name_text(app.accounts@.skip(i as int), app.account_config),
        decreases app.accounts.len() - i,
    {
        assert(app.accounts@.skip(i as int)[0] == app.accounts@[i as int]);
        if opt_str_eq(&app.accounts[i].config_dir, &app.account_config) {
            return app.accounts[i].name.clone();
        }
        assert(app.accounts@.skip(i as int).drop_first() =~= app.accounts@.skip(i + 1));
        i = i + 1;
    }
    String::new()
}

// ---------------------------------------------------------------------------
// What the screens show
// ---------------------------------------------------------------------------

/// The title of the frame around a screen's content.
pub open spec fn frame_title_text(s: Screen) -> Seq<char> {
    match s {
        Screen::Accounts => "Accounts"@,
        Screen::Calendars => "Calendars"@,
        Screen::Events => "Events"@,
        Screen::EventDetail => "Event Detail"@,
        Screen::Help => ""@,
    }
}

/// The title of the frame around a screen's content.
pub fn frame_title(s: Screen) -> (res: &'static str)
    ensures
        res@ == frame_title_text(s),
{
    match s {
        Screen::Accounts => "Accounts",
        Screen::Calendars => "Calendars",
        Screen::Events => "Events",
        Screen::EventDetail => "Event Detail",
        Screen::Help => "",
    }
}

/// The selected calendar's title, or `""`.
pub open spec fn calendar_name_text(app: App) -> Seq<char> {
    match app.selected_calendar {
        Some(c) => c@,
        None => Seq::empty(),
    }
}

fn calendar_name(app: &App) -> (res: String)
    ensures
        res@ == calendar_name_text(*app),
{
    match &app.selected_calendar {
        Some(c) => c.clone(),
        None => String::new(),
    }
}

/// The header's context (the screen's subject) and title.
pub open spec fn header_text(app: App) -> (Seq<char>, Seq<char>) {
    match app.screen {
        Screen::Accounts => ("accounts"@, "Select an Account"@),
        Screen::Calendars => ("calendars"@, "Select a Calendar"@),
        Screen::Events => (calendar_name_text(app), "Upcoming Events"@),
        Screen::EventDetail => (calendar_name_text(app), "Event Detail"@),
        Screen::Help => (""@, ""@),
    }
}

/// The header's context (the screen's subject: the list, or the selected
/// calendar) and title.
pub fn header_parts(app: &App) -> (res: (String, String))
    ensures
        (res.0@, res.1@) == header_text(*app),
{
    let (a, b) = match app.screen {
        Screen::Accounts => ("accounts", "Select an Account"),
        Screen::Calendars => ("calendars", "Select a Calendar"),
        Screen::Events => return (calendar_name(app), chars_to_string(&to_chars("Upcoming Events"))),
        Screen::EventDetail => return (calendar_name(app), chars_to_string(&to_chars("Event Detail"))),
        Screen::Help => ("", ""),
    };
    (chars_to_string(&to_chars(a)), chars_to_string(&to_chars(b)))
}

/// The breadcrumbs of a screen: the way down from the account list.
pub open spec fn crumbs_text(app: App) -> Seq<Seq<char>> {
    let acc = account_name_text(app.accounts@, app.account_config);
    match app.screen {
        Screen::EventDetail => seq!["accounts"@, acc, calendar_name_text(app), "detail"@],
        Screen::Events => seq!["accounts"@, acc, calendar_name_text(app)],
        Screen::Calendars => seq!["accounts"@, acc],
        _ => seq!["accounts"@],
    }
}

/// The breadcrumbs of the current screen: `accounts`, then the account,
/// the calendar and `detail` as deep as the screen is.
pub fn breadcrumbs(app: &App) -> (res: Vec<String>)
    ensures
        string_views(res@) == crumbs_text(*app),
{
    let mut v: Vec<String> = Vec::new();
    v.push(chars_to_string(&to_chars("accounts")));
    match app.screen {
        Screen::EventDetail => {
            v.push(current_account_name(app));
            v.push(calendar_name(app));
            v.push(chars_to_string(&to_chars("detail")));
        },
        Screen::Events => {
            v.push(current_account_name(app));
            v.push(calendar_name(app));
        },
        Screen::Calendars => {
            v.push(current_account_name(app));
        },
        _ => {},
    }
    assert(string_views(v@) =~= crumbs_text(*app));
    v
}

/// The breadcrumbs as shown: the non-empty ones, each marked with whether
/// a separator goes before it (every crumb but the first of the list).
pub open spec fn shown_crumbs(cs: Seq<Seq<char>>) -> Seq<(bool, Seq<char>)>
    decreases cs.len(),
{
    if cs.len() == 0 {
        Seq::empty()
    } else {
        let prev = shown_crumbs(cs.drop_last());
        if cs.last().len() > 0 {
            prev.push((cs.len() > 1, cs.last()))
        } else {
            prev
        }
    }
}

/// The breadcrumbs of the current screen as the prompt line shows them:
/// empty ones are skipped, and a separator precedes every crumb after the
/// first of the list.
pub fn shown_breadcrumbs(app: &App) -> (res: Vec<(bool, String)>)
    ensures
        res@.len() == shown_crumbs(crumbs_text(*app)).len(),
        forall|k: int| 0 <= k < res@.len() ==>
            (#[trigger] res@[k].0, res@[k].1@) == shown_crumbs(crumbs_text(*app))[k],
{
    let cs = breadcrumbs(app);
    let ghost cv = crumbs_text(*app);
    let mut out: Vec<(bool, String)> = Vec::new();
    let mut i: usize = 0;
    while i < cs.len()
        invariant
            string_views(cs@) == cv,
            i <= cs@.len(),
            out@.len() == shown_crumbs(cv.take(i as int)).len(),
            forall|k: int| 0 <= k < out@.len() ==>
                (#[trigger] out@[k].0, out@[k].1@) == shown_crumbs(cv.take(i as int))[k],
        decreases cs.len() - i,
    {
        assert(cv.take(i + 1).drop_last() =~= cv.take(i as int));
        assert(cv.take(i + 1).last() == cs@[i as int]@);
        if cs[i].as_str().unicode_len() > 0 {
            out.push((i > 0, cs[i].clone()));
        }
        i = i + 1;
    }
    assert(cv.take(cs@.len() as int) =~= cv);
    out
}

/// How a calendar's access level is shown: `writer` as `rw`, `reader` as
/// `ro`, anything else as it is.
pub open spec fn access_label_text(access: Seq<char>) -> Seq<char> {
    if access == "writer"@ {
        "rw"@
    } else if access == "reader"@ {
        "ro"@
    } else {
        access
    }
}

/// The access column of the calendar list.
pub fn access_label(access: &str) -> (res: String)
    ensures
        res@ == access_label_text(access@),
{
    let a = to_chars(access);
    if chars_eq(&a, &to_chars("writer")) {
        chars_to_string(&to_chars("rw"))
    } else if chars_eq(&a, &to_chars("reader")) {
        chars_to_string(&to_chars("ro"))
    } else {
        chars_to_string(&a)
    }
}

/// The date column of the event list: the date and its upper-cased
/// weekday abbreviation when it parses as `YYYY-MM-DD`, else the text as
/// it is.
pub open spec fn date_label_text(date: Seq<char>) -> Seq<char> {
    match iso_date(date) {
        Some((y, m, d)) => date + " "@ + unicode_uppercase(strftime_date(y as int, m as int, d as int, "%a"@)),
        None => date,
    }
}

/// The date column of the event list, e.g. `"2026-04-06 MON"`.
pub fn event_date_label(date: &str) -> (res: String)
    ensures
        res@ == date_label_text(date@),
{
    proof {
        reveal_strlit("%a");
    }
    match parse_iso_date(date) {
        Ok(d) => {
            let mut v = to_chars(date);
            push_str(&mut v, " ");
            let wd = format_date(d, "%a");
            push_str(&mut v, uppercase(wd.as_str()).as_str());
            chars_to_string(&v)
        },
        Err(_) => chars_to_string(&to_chars(date)),
    }
}

/// The first detail line shown: the scroll position, at most the last
/// line (the count taken as a `u16`, as the terminal's is).
pub open spec fn view_start(scroll: u16, n: int) -> u16 {
    let last = (if n > 0 { n - 1 } else { 0 }) % 65536;
    if scroll <= last { scroll } else { last as u16 }
}

/// Where the detail view starts for `n` lines scrolled to `scroll`.
pub fn detail_view_start(scroll: u16, n: usize) -> (res: u16)
    ensures
        res == view_start(scroll, n as int),
{
    let last: usize = (if n > 0 { n - 1 } else { 0 }) % 65536;
    let last16: u16 = last as u16;
    if scroll <= last16 { scroll } else { last16 }
}

/// The key bindings the menu line shows on a screen: (key, what it does).
pub open spec fn menu_text(s: Screen) -> Seq<(Seq<char>, Seq<char>)> {
    match s {
        Screen::EventDetail => seq![
            ("j/k"@, "scroll"@),
            ("n/p"@, "event"@),
            ("g/G"@, "top/bot"@),
            ("esc"@, "back"@),
            ("q"@, "quit"@),
        ],
        _ => seq![
            ("j/k"@, "down/up"@),
            ("enter"@, "select"@),
            ("d"@, "detail"@),
            ("/"@, "filter"@),
            (":"@, "cmd"@),
            ("g/G"@, "top/bot"@),
            ("esc"@, "back"@),
            ("ctrl-r"@, "refresh"@),
            ("q"@, "quit"@),
        ],
    }
}

/// The key bindings the menu line shows on screen `s`.
pub fn menu_items(s: Screen) -> (res: Vec<(&'static str, &'static str)>)
    ensures
        res@.len() == menu_text(s).len(),
        forall|k: int| 0 <= k < res@.len() ==> (#[trigger] res@[k].0@, res@[k].1@) == menu_text(s)[k],
{
    let v: Vec<(&'static str, &'static str)> = match s {
        Screen::EventDetail => vec![("j/k", "scroll"), ("n/p", "event"), ("g/G", "top/bot"), ("esc", "back"), ("q", "quit")],
        _ => vec![
            ("j/k", "down/up"),
            ("enter", "select"),
            ("d", "detail"),
            ("/", "filter"),
            (":", "cmd"),
            ("g/G", "top/bot"),
            ("esc", "back"),
            ("ctrl-r", "refresh"),
            ("q", "quit"),
        ],
    };
    v
}

/// A detail line split after its first colon, for styling the label
/// (`"When:"`) apart from the value; `None` when it has no colon.
pub open spec fn label_parts_text(line: Seq<char>) -> Option<(Seq<char>, Seq<char>)> {
    match find_char(line, ':') {
        Some(i) => Some((line.take(i + 1), line.skip(i + 1))),
        None => None,
    }
}

/// Splits a detail line after its first colon.
pub fn label_parts(line: &str) -> (res: Option<(String, String)>)
    ensures
        match res {
            Some((a, b)) => label_parts_text(line@) == Some((a@, b@)),
            None => label_parts_text(line@) is None,
        },
{
    let v = to_chars(line);
    proof {
        lemma_find_char(v@, ':');
    }
    match find_char_exec(&v, ':') {
        Some(i) => {
            let a = slice_chars(&v, 0, i + 1);
            let b = slice_chars(&v, i + 1, v.len());
            assert(a@ =~= line@.take(i + 1));
            assert(b@ =~= line@.skip(i + 1));
            Some((chars_to_string(&a), chars_to_string(&b)))
        },
        None => None,
    }
}

// ---------------------------------------------------------------------------
// The local time zone's name
// ---------------------------------------------------------------------------

/// The last position at or below `n` where `sep` occurs in `s`.
pub open spec fn last_occurrence(s: Seq<char>, sep: Seq<char>, n: int) -> Option<int>
    decreases n + 1,
{
    if n < 0 {
        None
    } else if occurs_at(s, sep, n) {
        Some(n)
    } else {
        last_occurrence(s, sep, n - 1)
    }
}

/// The text after the last `sep` in `s` (all of `s` when there is none):
/// the first piece `str::rsplit` yields.
pub open spec fn after_last(s: Seq<char>, sep: Seq<char>) -> Seq<char> {
    match last_occurrence(s, sep, s.len() - sep.len()) {
        Some(i) => s.subrange(i + sep.len(), s.len() as int),
        None => s,
    }
}

fn after_last_exec(s: &Vec<char>, sep: &Vec<char>) -> (res: Vec<char>)
    requires
        sep.len() > 0,
    ensures
        res@ == after_last(s@, sep@),
{
    if sep.len() > s.len() {
        return slice_chars(s, 0, s.len());
    }
    let mut i: usize = s.len() - sep.len() + 1;
    while i > 0
        invariant
            sep.len() <= s.len(),
            i <= s.len() - sep.len() + 1,
            last_occurrence(s@, sep@, s.len() - sep.len()) == last_occurrence(s@, sep@, i - 1),
        decreases i,
    {
        let j = i - 1;
        let piece = slice_chars(s, j, j + sep.len());
        if chars_eq(&piece, sep) {
            assert(occurs_at(s@, sep@, j as int));
            return slice_chars(s, j + sep.len(), s.len());
        }
        assert(!occurs_at(s@, sep@, j as int));
        i = j;
    }
    slice_chars(s, 0, s.len())
}

/// The local time zone's name: the part of the `/etc/localtime` link's
/// target after its last `/zoneinfo/`, else `$TZ` when set and not empty.
pub open spec fn zone_name_text(link: Seq<char>, tz_env: Option<Seq<char>>) -> Option<Seq<char>> {
    let name = after_last(link, "/zoneinfo/"@);
    if name.len() > 0 {
        Some(name)
    } else {
        match tz_env {
            Some(t) => if t.len() > 0 { Some(t) } else { None },
            None => None,
        }
    }
}

/// The local time zone's name from the resolved `/etc/localtime` path
/// (`""` when it could not be resolved) and the `TZ` variable.
pub fn local_zone_name(link: &str, tz_env: Option<String>) -> (res: Option<String>)
    ensures
        opt_str_view(res) == zone_name_text(link@, opt_str_view(tz_env)),
{
    proof {
        reveal_strlit("/zoneinfo/");
    }
    let name = after_last_exec(&to_chars(link), &to_chars("/zoneinfo/"));
    if name.len() > 0 {
        return Some(chars_to_string(&name));
    }
    match tz_env {
        Some(t) => if t.as_str().unicode_len() > 0 { Some(t) } else { None },
        None => None,
    }
}

// ---------------------------------------------------------------------------
// Text editing of the prompt
// ---------------------------------------------------------------------------

/// Calls `String::push`: the string gains `c` at its end.
#[verifier::external_body]
fn string_push(s: &mut String, c: char)
    ensures
        final(s)@ == old(s)@.push(c),
{
    s.push(c);
}

/// Calls `String::pop`: the string loses its last character, if any.
#[verifier::external_body]
fn string_pop(s: &mut String)
    ensures
        final(s)@ == (if old(s)@.len() > 0 { old(s)@.drop_last() } else { old(s)@ }),
{
    s.pop();
}

// ---------------------------------------------------------------------------
// Moving in lists
// ---------------------------------------------------------------------------

/// The bound below which list lengths and positions stay (far beyond any
/// real list), so that position arithmetic never overflows.
pub open spec fn position_bound() -> int {
    0x4000_0000_0000_0000
}

pub open spec fn sel_ok(s: Option<usize>) -> bool {
    s matches Some(i) ==> i < position_bound()
}

impl App {
    /// Lists and positions stay below `position_bound`.
    pub open spec fn wf(self) -> bool {
        &&& self.accounts@.len() < position_bound()
        &&& self.calendars@.len() < position_bound()
        &&& self.events@.len() < position_bound()
        &&& sel_ok(self.account_sel)
        &&& sel_ok(self.cal_sel)
        &&& sel_ok(self.events_sel)
        &&& sel_ok(self.detail_index)
    }
}

pub open spec fn clamp(x: int, lo: int, hi: int) -> int {
    if x < lo { lo } else if x > hi { hi } else { x }
}

/// The selection after moving `delta` rows in a list of `n` rows (no
/// selection counts as the first row; an empty list keeps the selection).
pub open spec fn step_sel(n: int, sel: Option<usize>, delta: int) -> Option<usize> {
    if n == 0 {
        sel
    } else {
        let i = match sel { Some(i) => i as int, None => 0 };
        Some(clamp(i + delta, 0, n - 1) as usize)
    }
}

/// The selection after moving one page (`page` rows, at least one) in
/// direction `dir`.
pub open spec fn page_sel(n: int, sel: Option<usize>, dir: int, page: int) -> Option<usize> {
    step_sel(n, sel, dir * (if page < 1 { 1 } else { page }))
}

/// The selection a list-navigation key leads to in a list of `n` rows,
/// or `None` when the key does not navigate: `j`/Down and `k`/Up (without
/// Control), Control-`n`/`p`, PageDown/Space and PageUp, `g` (first row)
/// and `G` (last row).
pub open spec fn nav_sel(k: KeyPress, n: int, sel: Option<usize>, page: int) -> Option<Option<usize>> {
    match k.key {
        Key::Down => if !k.ctrl { Some(step_sel(n, sel, 1)) } else { None },
        Key::Up => if !k.ctrl { Some(step_sel(n, sel, -1)) } else { None },
        Key::Char(c) => {
            if (c == 'j') && !k.ctrl {
                Some(step_sel(n, sel, 1))
            } else if (c == 'k') && !k.ctrl {
                Some(step_sel(n, sel, -1))
            } else if c == 'n' && k.ctrl {
                Some(step_sel(n, sel, 1))
            } else if c == 'p' && k.ctrl {
                Some(step_sel(n, sel, -1))
            } else if c == ' ' {
                Some(page_sel(n, sel, 1, page))
            } else if c == 'g' {
                Some(Some(0usize))
            } else if c == 'G' {
                Some(Some(if n > 0 { (n - 1) as usize } else { 0usize }))
            } else {
                None
            }
        },
        Key::PageDown => Some(page_sel(n, sel, 1, page)),
        Key::PageUp => Some(page_sel(n, sel, -1, page)),
        _ => None,
    }
}

fn step_list(n: usize, delta: i64, sel: Option<usize>) -> (res: Option<usize>)
    requires
        n < position_bound(),
        sel_ok(sel),
        -100_000 <= delta <= 100_000,
    ensures
        res == step_sel(n as int, sel, delta as int),
        sel_ok(res),
{
    if n == 0 {
        return sel;
    }
    let i: i64 = match sel {
        Some(i) => i as i64,
        None => 0,
    };
    let hi: i64 = (n - 1) as i64;
    let x = i + delta;
    let next = if x < 0 { 0 } else if x > hi { hi } else { x };
    Some(next as usize)
}

fn page_list(n: usize, dir: i64, page: u16, sel: Option<usize>) -> (res: Option<usize>)
    requires
        n < position_bound(),
        sel_ok(sel),
        dir == 1 || dir == -1,
    ensures
        res == page_sel(n as int, sel, dir as int, page as int),
        sel_ok(res),
{
    let p: i64 = if page < 1 { 1 } else { page as i64 };
    assert(1 <= p <= 65535);
    let delta: i64 = if dir == 1 { p } else { -p };
    assert(delta == dir * p) by (nonlinear_arith)
        requires
            dir == 1 || dir == -1,
            dir == 1 ==> delta == p,
            dir == -1 ==> delta == -p;
    step_list(n, delta, sel)
}

/// Applies a list-navigation key to a selection (see `nav_sel`).
fn nav_exec(k: KeyPress, n: usize, sel: Option<usize>, page: u16) -> (res: Option<Option<usize>>)
    requires
        n < position_bound(),
        sel_ok(sel),
    ensures
        res == nav_sel(k, n as int, sel, page as int),
        res matches Some(s) ==> sel_ok(s),
{
    match k.key {
        Key::Down => if !k.ctrl { Some(step_list(n, 1, sel)) } else { None },
        Key::Up => if !k.ctrl { Some(step_list(n, -1, sel)) } else { None },
        Key::Char(c) => {
            if c == 'j' && !k.ctrl {
                Some(step_list(n, 1, sel))
            } else if c == 'k' && !k.ctrl {
                Some(step_list(n, -1, sel))
            } else if c == 'n' && k.ctrl {
                Some(step_list(n, 1, sel))
            } else if c == 'p' && k.ctrl {
                Some(step_list(n, -1, sel))
            } else if c == ' ' {
                Some(page_list(n, 1, page, sel))
            } else if c == 'g' {
                Some(Some(0))
            } else if c == 'G' {
                Some(Some(if n > 0 { n - 1 } else { 0 }))
            } else {
                None
            }
        },
        Key::PageDown => Some(page_list(n, 1, page, sel)),
        Key::PageUp => Some(page_list(n, -1, page, sel)),
        _ => None,
    }
}

// ---------------------------------------------------------------------------
// Transitions
// ---------------------------------------------------------------------------

/// The screen one level up.
pub open spec fn parent_screen(s: Screen) -> Screen {
    match s {
        Screen::EventDetail => Screen::Events,
        Screen::Events => Screen::Calendars,
        Screen::Calendars => Screen::Accounts,
        other => other,
    }
}

/// `b` is `a` after going back one level: on reaching the calendar or
/// account list, the calendar choice and the events are dropped.
pub open spec fn went_back(a: App, b: App) -> bool {
    let s = parent_screen(a.screen);
    if s == Screen::Calendars || s == Screen::Accounts {
        b.events@.len() == 0
            && b == App { screen: s, selected_calendar: None, events: b.events, events_sel: None, ..a }
    } else {
        b == App { screen: s, ..a }
    }
}

/// `b` is `a` with the filter prompt opened, empty.
pub open spec fn started_filter(a: App, b: App) -> bool {
    b.query@.len() == 0 && b == App { searching: true, query: b.query, ..a }
}

/// `b` is `a` with the command prompt opened, empty.
pub open spec fn started_command(a: App, b: App) -> bool {
    b.command@.len() == 0 && b == App { commanding: true, command: b.command, ..a }
}

fn go_back(app: &mut App)
    ensures
        went_back(*old(app), *final(app)),
{
    app.screen = match app.screen {
        Screen::EventDetail => Screen::Events,
        Screen::Events => Screen::Calendars,
        Screen::Calendars => Screen::Accounts,
        other => other,
    };
    if app.screen == Screen::Calendars || app.screen == Screen::Accounts {
        app.selected_calendar = None;
        app.events = Vec::new();
        app.events_sel = None;
    }
}

fn start_filter(app: &mut App)
    ensures
        started_filter(*old(app), *final(app)),
{
    app.searching = true;
    app.query = String::new();
}

fn start_command(app: &mut App)
    ensures
        started_command(*old(app), *final(app)),
{
    app.commanding = true;
    app.command = String::new();
}

/// The effect of a key on the account list.
pub open spec fn accounts_key_effect(a: App, b: App, k: KeyPress) -> bool {
    match k.key {
        Key::Esc => went_back(a, b),
        Key::Enter => match a.account_sel {
            Some(i) if i < a.accounts@.len() => b.calendars@.len() == 0 && b == App {
                account_config: a.accounts@[i as int].config_dir,
                prev_screen: a.screen,
                screen: Screen::Calendars,
                calendars: b.calendars,
                cal_sel: Some(0usize),
                loading: true,
                ..a
            },
            _ => b == a,
        },
        Key::Char('/') => started_filter(a, b),
        Key::Char(':') => started_command(a, b),
        Key::Char('r') if k.ctrl => b == App { loading: true, ..a },
        _ => match nav_sel(k, a.accounts@.len() as int, a.account_sel, a.page_hint as int) {
            Some(s) => b == App { account_sel: s, ..a },
            None => b == a,
        },
    }
}

/// The effect of a key on the calendar list.
pub open spec fn calendars_key_effect(a: App, b: App, k: KeyPress) -> bool {
    match k.key {
        Key::Esc => went_back(a, b),
        Key::Enter => match a.cal_sel {
            Some(i) if i < a.calendars@.len() => b == App {
                selected_calendar: Some(a.calendars@[i as int].title),
                prev_screen: a.screen,
                screen: Screen::Events,
                loading: true,
                ..a
            },
            _ => b == a,
        },
        Key::Char('/') => started_filter(a, b),
        Key::Char(':') => started_command(a, b),
        Key::Char('r') if k.ctrl => b == App { loading: true, ..a },
        _ => match nav_sel(k, a.calendars@.len() as int, a.cal_sel, a.page_hint as int) {
            Some(s) => b == App { cal_sel: s, ..a },
            None => b == a,
        },
    }
}

/// `b` is `a` showing the detail of event `i`.
pub open spec fn opened_detail(a: App, b: App, i: usize, tz: Seq<char>) -> bool {
    &&& string_views(b.detail_lines@) == detail_text(events_view(a.events@), i as int, tz)
    &&& b == App {
        detail_index: Some(i),
        detail_scroll: 0,
        detail_lines: b.detail_lines,
        prev_screen: Screen::Events,
        screen: Screen::EventDetail,
        ..a
    }
}

/// The effect of a key on the event list.
pub open spec fn events_key_effect(a: App, b: App, k: KeyPress, tz: Seq<char>) -> bool {
    match k.key {
        Key::Esc => went_back(a, b),
        Key::Enter | Key::Char('d') => match a.events_sel {
            Some(i) if i < a.events@.len() => opened_detail(a, b, i, tz),
            _ => b == a,
        },
        Key::Char('/') => started_filter(a, b),
        Key::Char(':') => started_command(a, b),
        Key::Char('r') if k.ctrl => b == App { loading: true, ..a },
        _ => match nav_sel(k, a.events@.len() as int, a.events_sel, a.page_hint as int) {
            Some(s) => b == App { events_sel: s, ..a },
            None => b == a,
        },
    }
}

fn handle_accounts_key(key: KeyPress, app: &mut App)
    requires
        old(app).wf(),
    ensures
        accounts_key_effect(*old(app), *final(app), key),
        final(app).wf(),
{
    let n = app.accounts.len();
    match key.key {
        Key::Esc => go_back(app),
        Key::Enter => {
            match app.account_sel {
                Some(i) => {
                    if i < app.accounts.len() {
                        let cfg = match &app.accounts[i].config_dir {
                            Some(d) => Some(d.clone()),
                            None => None,
                        };
                        app.account_config = cfg;
                        app.prev_screen = app.screen;
                        app.screen = Screen::Calendars;
                        app.calendars = Vec::new();
                        app.cal_sel = Some(0);
                        app.loading = true;
                    }
                },
                None => {},
            }
        },
        Key::Char('/') => start_filter(app),
        Key::Char(':') => start_command(app),
        Key::Char('r') if key.ctrl => app.loading = true,
        _ => match nav_exec(key, n, app.account_sel, app.page_hint) {
            Some(s) => app.account_sel = s,
            None => {},
        },
    }
}

fn handle_calendars_key(key: KeyPress, app: &mut App)
    requires
        old(app).wf(),
    ensures
        calendars_key_effect(*old(app), *final(app), key),
        final(app).wf(),
{
    let n = app.calendars.len();
    match key.key {
        Key::Esc => go_back(app),
        Key::Enter => {
            match app.cal_sel {
                Some(i) => {
                    if i < app.calendars.len() {
                        app.selected_calendar = Some(app.calendars[i].title.clone());
                        app.prev_screen = app.screen;
                        app.screen = Screen::Events;
                        app.loading = true;
                    }
                },
                None => {},
            }
        },
        Key::Char('/') => start_filter(app),
        Key::Char(':') => start_command(app),
        Key::Char('r') if key.ctrl => app.loading = true,
        _ => match nav_exec(key, n, app.cal_sel, app.page_hint) {
            Some(s) => app.cal_sel = s,
            None => {},
        },
    }
}

fn handle_events_key(key: KeyPress, app: &mut App, tz: &str)
    requires
        old(app).wf(),
    ensures
        events_key_effect(*old(app), *final(app), key, tz@),
        final(app).wf(),
{
    let n = app.events.len();
    match key.key {
        Key::Esc => go_back(app),
        Key::Enter | Key::Char('d') => {
            match app.events_sel {
                Some(i) => {
                    if i < app.events.len() {
                        let lines = detail_lines(app, i, tz);
                        app.detail_index = Some(i);
                        app.detail_scroll = 0;
                        app.detail_lines = lines;
                        app.prev_screen = Screen::Events;
                        app.screen = Screen::EventDetail;
                    }
                },
                None => {},
            }
        },
        Key::Char('/') => start_filter(app),
        Key::Char(':') => start_command(app),
        Key::Char('r') if key.ctrl => app.loading = true,
        _ => match nav_exec(key, n, app.events_sel, app.page_hint) {
            Some(s) => app.events_sel = s,
            None => {},
        },
    }
}

/// The scroll position after moving `delta` lines through `n` detail
/// lines (`n` is taken as a `u16`, as the terminal's line count is).
pub open spec fn scrolled(scroll: u16, n: int, delta: int) -> u16 {
    let m = (n as u16) as int;
    let max = if m > 0 { m - 1 } else { 0 };
    clamp(scroll + delta, 0, max) as u16
}

/// `b` is `a` after moving `delta` events in the detail view: the next
/// (or previous) event is shown and selected, from its first line.
pub open spec fn detail_moved(a: App, b: App, delta: int, tz: Seq<char>) -> bool {
    match a.detail_index {
        None => b == a,
        Some(i) => if a.events@.len() == 0 {
            b == a
        } else {
            let next = clamp(i + delta, 0, a.events@.len() - 1) as usize;
            &&& string_views(b.detail_lines@) == detail_text(events_view(a.events@), next as int, tz)
            &&& b == App {
                detail_index: Some(next),
                detail_scroll: 0,
                detail_lines: b.detail_lines,
                events_sel: Some(next),
                ..a
            }
        },
    }
}

/// `b` is `a` after scrolling `delta` lines in the detail view.
pub open spec fn detail_scrolled(a: App, b: App, delta: int) -> bool {
    if a.detail_lines@.len() == 0 {
        b == a
    } else {
        b == App { detail_scroll: scrolled(a.detail_scroll, a.detail_lines@.len() as int, delta), ..a }
    }
}

/// The effect of a key in the detail view.
pub open spec fn detail_key_effect(a: App, b: App, k: KeyPress, tz: Seq<char>) -> bool {
    match k.key {
        Key::Esc | Key::Enter | Key::Backspace | Key::Char('q') => b == App {
            screen: Screen::Events,
            detail_index: None,
            detail_scroll: 0,
            ..a
        },
        Key::Char('n') => detail_moved(a, b, 1, tz),
        Key::Char('p') => detail_moved(a, b, -1, tz),
        Key::Down | Key::Char('j') => detail_scrolled(a, b, 1),
        Key::Up | Key::Char('k') => detail_scrolled(a, b, -1),
        Key::PageDown | Key::Char(' ') => detail_scrolled(a, b, 10),
        Key::PageUp => detail_scrolled(a, b, -10),
        Key::Char('g') => b == App { detail_scroll: 0, ..a },
        Key::Char('G') => if a.detail_lines@.len() > 0 {
            b == App { detail_scroll: scrolled(0, a.detail_lines@.len() as int, 0x10000), ..a }
        } else {
            b == a
        },
        _ => b == a,
    }
}

fn detail_scroll(app: &mut App, delta: i64)
    requires
        -100 <= delta <= 100,
    ensures
        detail_scrolled(*old(app), *final(app), delta as int),
{
    let n = app.detail_lines.len();
    if n == 0 {
        return;
    }
    #[verifier::truncate]
    let m: u16 = n as u16;
    let max: i64 = if m > 0 { (m - 1) as i64 } else { 0 };
    let x = app.detail_scroll as i64 + delta;
    let next = if x < 0 { 0 } else if x > max { max } else { x };
    app.detail_scroll = next as u16;
}

fn detail_next(app: &mut App, delta: i64, tz: &str)
    requires
        old(app).wf(),
        delta == 1 || delta == -1,
    ensures
        detail_moved(*old(app), *final(app), delta as int, tz@),
        final(app).wf(),
{
    let i = match app.detail_index {
        Some(i) => i,
        None => return,
    };
    let n = app.events.len();
    if n == 0 {
        return;
    }
    let x = i as i64 + delta;
    let hi = (n - 1) as i64;
    let next = (if x < 0 { 0 } else if x > hi { hi } else { x }) as usize;
    let lines = detail_lines(app, next, tz);
    app.detail_index = Some(next);
    app.detail_scroll = 0;
    app.detail_lines = lines;
    app.events_sel = Some(next);
}

fn handle_detail_key(key: KeyPress, app: &mut App, tz: &str)
    requires
        old(app).wf(),
    ensures
        detail_key_effect(*old(app), *final(app), key, tz@),
        final(app).wf(),
{
    match key.key {
        Key::Esc | Key::Enter | Key::Backspace | Key::Char('q') => {
            app.screen = Screen::Events;
            app.detail_index = None;
            app.detail_scroll = 0;
        },
        Key::Char('n') => detail_next(app, 1, tz),
        Key::Char('p') => detail_next(app, -1, tz),
        Key::Down | Key::Char('j') => detail_scroll(app, 1),
        Key::Up | Key::Char('k') => detail_scroll(app, -1),
        Key::PageDown | Key::Char(' ') => detail_scroll(app, 10),
        Key::PageUp => detail_scroll(app, -10),
        Key::Char('g') => app.detail_scroll = 0,
        Key::Char('G') => {
            let n = app.detail_lines.len();
            if n > 0 {
                #[verifier::truncate]
                let m: u16 = n as u16;
                app.detail_scroll = if m > 0 { m - 1 } else { 0 };
            }
        },
        _ => {},
    }
}

/// The effect of a key while the filter prompt is open: typing edits the
/// query; Enter applies it and Esc clears it (both close the prompt and
/// reload the events).
pub open spec fn filter_key_effect(a: App, b: App, k: KeyPress) -> bool {
    match k.key {
        Key::Char(c) => b.query@ == a.query@.push(c) && b == App { query: b.query, ..a },
        Key::Backspace => b.query@ == (if a.query@.len() > 0 { a.query@.drop_last() } else { a.query@ })
            && b == App { query: b.query, ..a },
        Key::Enter => b.events@.len() == 0 && b == App { searching: false, events: b.events, loading: true, ..a },
        Key::Esc => b.events@.len() == 0 && b.query@.len() == 0
            && b == App { searching: false, query: b.query, events: b.events, loading: true, ..a },
        _ => b == a,
    }
}

fn handle_filter_key(key: KeyPress, app: &mut App)
    requires
        old(app).wf(),
    ensures
        filter_key_effect(*old(app), *final(app), key),
        final(app).wf(),
{
    match key.key {
        Key::Char(c) => string_push(&mut app.query, c),
        Key::Backspace => string_pop(&mut app.query),
        Key::Enter => {
            app.searching = false;
            app.events = Vec::new();
            app.loading = true;
        },
        Key::Esc => {
            app.searching = false;
            app.query = String::new();
            app.events = Vec::new();
            app.loading = true;
        },
        _ => {},
    }
}

/// The command a prompt holds: trimmed and lower-cased.
pub open spec fn command_text(command: Seq<char>) -> Seq<char> {
    unicode_lowercase(trim(command))
}

/// The effect of a key while the command prompt is open: typing edits the
/// command; Enter runs it (`q`, `quit`, `exit` quit; `refresh` reloads;
/// anything else does nothing) and Esc drops it; both close the prompt.
pub open spec fn command_key_effect(a: App, b: App, k: KeyPress, out: KeyOutcome) -> bool {
    match k.key {
        Key::Char(c) => out == KeyOutcome::Continue && b.command@ == a.command@.push(c)
            && b == App { command: b.command, ..a },
        Key::Backspace => out == KeyOutcome::Continue
            && b.command@ == (if a.command@.len() > 0 { a.command@.drop_last() } else { a.command@ })
            && b == App { command: b.command, ..a },
        Key::Enter => {
            let cmd = command_text(a.command@);
            let quit = cmd == "q"@ || cmd == "quit"@ || cmd == "exit"@;
            &&& b.command@.len() == 0
            &&& out == (if quit { KeyOutcome::Quit } else { KeyOutcome::Continue })
            &&& b == App {
                commanding: false,
                command: b.command,
                loading: if !quit && cmd == "refresh"@ { true } else { a.loading },
                ..a
            }
        },
        Key::Esc => out == KeyOutcome::Continue && b.command@.len() == 0
            && b == App { commanding: false, command: b.command, ..a },
        _ => out == KeyOutcome::Continue && b == a,
    }
}

fn handle_command_key(key: KeyPress, app: &mut App) -> (res: KeyOutcome)
    requires
        old(app).wf(),
    ensures
        command_key_effect(*old(app), *final(app), key, res),
        final(app).wf(),
{
    match key.key {
        Key::Char(c) => {
            string_push(&mut app.command, c);
            KeyOutcome::Continue
        },
        Key::Backspace => {
            string_pop(&mut app.command);
            KeyOutcome::Continue
        },
        Key::Enter => {
            let trimmed = trim_chars(&to_chars(app.command.as_str()));
            let cmd = to_chars(lowercase(chars_to_string(&trimmed).as_str()).as_str());
            app.commanding = false;
            app.command = String::new();
            if chars_eq(&cmd, &to_chars("q")) || chars_eq(&cmd, &to_chars("quit")) || chars_eq(&cmd, &to_chars("exit")) {
                return KeyOutcome::Quit;
            }
            if chars_eq(&cmd, &to_chars("refresh")) {
                app.loading = true;
            }
            KeyOutcome::Continue
        },
        Key::Esc => {
            app.commanding = false;
            app.command = String::new();
            KeyOutcome::Continue
        },
        _ => KeyOutcome::Continue,
    }
}

/// A key that quits from any screen: `q`, Control-`c` or F1.
pub open spec fn is_quit_key(k: KeyPress) -> bool {
    k.key == Key::Char('q') || (k.key == Key::Char('c') && k.ctrl) || k.key == Key::F(1)
}

/// The effect of a key on the browser: an open command or filter prompt
/// takes the key first; otherwise a quit key quits, `?` toggles the help
/// screen, and the current screen handles the rest.
pub open spec fn key_effect(a: App, b: App, k: KeyPress, tz: Seq<char>, out: KeyOutcome) -> bool {
    if a.commanding {
        command_key_effect(a, b, k, out)
    } else if a.searching {
        out == KeyOutcome::Continue && filter_key_effect(a, b, k)
    } else if is_quit_key(k) {
        out == KeyOutcome::Quit && b == a
    } else if k.key == Key::Char('?') {
        out == KeyOutcome::Continue && if a.screen == Screen::Help {
            b == App { screen: a.prev_screen, ..a }
        } else {
            b == App { prev_screen: a.screen, screen: Screen::Help, ..a }
        }
    } else {
        out == KeyOutcome::Continue && match a.screen {
            Screen::Accounts => accounts_key_effect(a, b, k),
            Screen::Calendars => calendars_key_effect(a, b, k),
            Screen::Events => events_key_effect(a, b, k, tz),
            Screen::EventDetail => detail_key_effect(a, b, k, tz),
            Screen::Help => b == a,
        }
    }
}

/// Reacts to a key press; `tz` names the local time zone for the event
/// detail lines.
pub fn handle_key(key: KeyPress, app: &mut App, tz: &str) -> (res: KeyOutcome)
    requires
        old(app).wf(),
    ensures
        key_effect(*old(app), *final(app), key, tz@, res),
        final(app).wf(),
{
    if app.commanding {
        return handle_command_key(key, app);
    }
    if app.searching {
        handle_filter_key(key, app);
        return KeyOutcome::Continue;
    }
    if key.key == Key::Char('q') || (key.key == Key::Char('c') && key.ctrl) || key.key == Key::F(1) {
        return KeyOutcome::Quit;
    }
    if key.key == Key::Char('?') {
        if app.screen == Screen::Help {
            app.screen = app.prev_screen;
        } else {
            app.prev_screen = app.screen;
            app.screen = Screen::Help;
        }
        return KeyOutcome::Continue;
    }
    match app.screen {
        Screen::Accounts => handle_accounts_key(key, app),
        Screen::Calendars => handle_calendars_key(key, app),
        Screen::Events => handle_events_key(key, app, tz),
        Screen::EventDetail => handle_detail_key(key, app, tz),
        Screen::Help => {},
    }
    KeyOutcome::Continue
}

// ---------------------------------------------------------------------------
// Loading
// ---------------------------------------------------------------------------

/// What the program is to load.
#[derive(Clone, Copy, Debug, PartialEq, Eq, Structural)]
pub enum LoadRequest {
    Calendars,
    Events,
    Nothing,
}

/// What a load brought.
#[derive(Debug)]
pub enum Loaded {
    Calendars(Vec<Calendar>),
    Events(Vec<CalEvent>),
    Nothing,
}

/// Takes a pending load: clears the flag and says what the current screen
/// needs loaded.
pub fn begin_load(app: &mut App) -> (res: LoadRequest)
    ensures
        *final(app) == (App { loading: false, ..*old(app) }),
        res == (match old(app).screen {
            Screen::Calendars => LoadRequest::Calendars,
            Screen::Events => LoadRequest::Events,
            _ => LoadRequest::Nothing,
        }),
{
    app.loading = false;
    match app.screen {
        Screen::Calendars => LoadRequest::Calendars,
        Screen::Events => LoadRequest::Events,
        _ => LoadRequest::Nothing,
    }
}

/// The effect of a finished load: an error is recorded; otherwise the data
/// replaces the screen's list, the error is cleared and, on a list screen,
/// the list's first row is selected. A load on another screen (a refresh
/// there) only clears the error.
pub open spec fn load_effect(a: App, b: App, result: Result<Loaded, String>) -> bool {
    match result {
        Err(msg) => b == App { error: Some(msg), ..a },
        Ok(l) => {
            let c = match l {
                Loaded::Calendars(v) => App { calendars: v, error: None, ..a },
                Loaded::Events(v) => App { events: v, error: None, ..a },
                Loaded::Nothing => App { error: None, ..a },
            };
            match a.screen {
                Screen::Calendars => b == App { cal_sel: Some(0usize), ..c },
                Screen::Events => b == App { events_sel: Some(0usize), ..c },
                _ => b == c,
            }
        },
    }
}

/// Applies the outcome of a load (see `load_effect`).
pub fn finish_load(app: &mut App, result: Result<Loaded, String>)
    requires
        old(app).wf(),
        match result {
            Ok(Loaded::Calendars(v)) => v@.len() < position_bound(),
            Ok(Loaded::Events(v)) => v@.len() < position_bound(),
            _ => true,
        },
    ensures
        load_effect(*old(app), *final(app), result),
        final(app).wf(),
{
    match result {
        Err(msg) => {
            app.error = Some(msg);
        },
        Ok(l) => {
            match l {
                Loaded::Calendars(v) => app.calendars = v,
                Loaded::Events(v) => app.events = v,
                Loaded::Nothing => {},
            }
            app.error = None;
            match app.screen {
                Screen::Calendars => app.cal_sel = Some(0),
                Screen::Events => app.events_sel = Some(0),
                _ => {},
            }
        },
    }
}


// ---------------------------------------------------------------------------
// What the browser promises
// ---------------------------------------------------------------------------

/// Text without an escape character is shown as it is.
pub proof fn plain_text_is_kept(s: Seq<char>)
    requires
        !s.contains('\x1b'),
    ensures
        strip_ansi_text(s) == s,
    decreases s.len(),
{
    if s.len() > 0 {
        assert(s[0] != '\x1b');
        assert(!s.drop_first().contains('\x1b')) by {
            assert forall|i: int| 0 <= i < s.drop_first().len() implies s.drop_first()[i] != '\x1b' by {
                assert(s.drop_first()[i] == s[i + 1]);
            }
        }
        plain_text_is_kept(s.drop_first());
        assert(seq![s[0]] + s.drop_first() =~= s);
    }
}

/// Moving in a list that has rows always selects one of its rows.
pub proof fn navigation_stays_in_list(k: KeyPress, n: int, sel: Option<usize>, page: int)
    requires
        0 < n < position_bound(),
        nav_sel(k, n, sel, page) is Some,
    ensures
        nav_sel(k, n, sel, page) matches Some(Some(i)) && i < n,
{
}

/// Pressing `?` twice (outside the prompts) comes back to the screen it
/// was pressed on, with nothing changed but the remembered screen.
pub proof fn help_toggles_back(a: App, b: App, c: App, k: KeyPress, tz: Seq<char>, o1: KeyOutcome, o2: KeyOutcome)
    requires
        !a.commanding,
        !a.searching,
        a.screen != Screen::Help,
        k.key == Key::Char('?'),
        key_effect(a, b, k, tz, o1),
        key_effect(b, c, k, tz, o2),
    ensures
        o1 == KeyOutcome::Continue,
        o2 == KeyOutcome::Continue,
        b.screen == Screen::Help,
        c == (App { prev_screen: a.screen, ..a }),
{
}

/// Lemma: every event of the first `n` agenda lines is upcoming and comes
/// from a shown line.
proof fn lemma_agenda_upto(headers: Seq<Seq<char>>, rows: Seq<Seq<Seq<char>>>, query_lower: Seq<char>, today: Seq<char>, n: int)
    requires
        0 <= n <= rows.len(),
    ensures
        forall|k: int| 0 <= k < agenda_upto(headers, rows, query_lower, today, n).len() ==>
            shown_event(headers, rows, query_lower, today, #[trigger] agenda_upto(headers, rows, query_lower, today, n)[k]),
    decreases n,
{
    if n > 0 {
        lemma_agenda_upto(headers, rows, query_lower, today, n - 1);
        let prev = agenda_upto(headers, rows, query_lower, today, n - 1);
        let cur = agenda_upto(headers, rows, query_lower, today, n);
        assert forall|k: int| 0 <= k < cur.len() implies shown_event(headers, rows, query_lower, today, #[trigger] cur[k]) by {
            if k < prev.len() {
                assert(cur[k] == prev[k]);
            } else {
                assert(cur[k] == agenda_event(headers, rows[n - 1]));
            }
        }
    }
}

/// Event `e` is that of a shown agenda line and starts on or after
/// `today`.
pub open spec fn shown_event(headers: Seq<Seq<char>>, rows: Seq<Seq<Seq<char>>>, query_lower: Seq<char>, today: Seq<char>, e: Seq<Seq<char>>) -> bool {
    &&& !text_lt(e[0], today)
    &&& exists|r: int| 0 <= r < rows.len() && agenda_line_kept(headers, rows[r], query_lower)
        && e == #[trigger] agenda_event(headers, rows[r])
}

proof fn lemma_agenda_upto_complete(headers: Seq<Seq<char>>, rows: Seq<Seq<Seq<char>>>, query_lower: Seq<char>, today: Seq<char>, n: int)
    requires
        0 <= n <= rows.len(),
    ensures
        forall|r: int| 0 <= r < n && agenda_line_kept(headers, rows[r], query_lower)
            && !text_lt(agenda_event(headers, rows[r])[0], today)
            ==> agenda_upto(headers, rows, query_lower, today, n).contains(agenda_event(headers, #[trigger] rows[r])),
    decreases n,
{
    if n > 0 {
        lemma_agenda_upto_complete(headers, rows, query_lower, today, n - 1);
        let prev = agenda_upto(headers, rows, query_lower, today, n - 1);
        let cur = agenda_upto(headers, rows, query_lower, today, n);
        assert forall|r: int| 0 <= r < n && agenda_line_kept(headers, rows[r], query_lower)
            && !text_lt(agenda_event(headers, rows[r])[0], today)
            implies cur.contains(agenda_event(headers, #[trigger] rows[r])) by {
            let e = agenda_event(headers, rows[r]);
            if r < n - 1 {
                let k = choose|k: int| 0 <= k < prev.len() && prev[k] == e;
                assert(cur[k] == prev[k]);
            } else {
                assert(cur[prev.len() as int] == e);
            }
        }
    }
}

/// The agenda lists upcoming events only (starting on or after today),
/// each from a line whose title or description contains the filter
/// (ignoring case), in order of date and, within a date, all-day events
/// before timed ones; every such line is listed.
pub proof fn agenda_is_upcoming_in_order(out: Seq<char>, query: Seq<char>, today: Seq<char>, res: Seq<Seq<Seq<char>>>)
    requires
        crate::agenda::arranged(res, agenda_results(out, query, today), agenda_keys(agenda_results(out, query, today))),
    ensures
        forall|i: int, j: int| 0 <= i < j < res.len() ==> !text_lt((#[trigger] res[j])[0], (#[trigger] res[i])[0]),
        forall|i: int, j: int| 0 <= i < j < res.len() && (#[trigger] res[j])[0] == (#[trigger] res[i])[0]
            && res[j][1] == "all-day"@ ==> res[i][1] == "all-day"@,
        forall|k: int| 0 <= k < res.len() ==> table_of(out) is Some && shown_event(
            table_of(out).unwrap().0, table_of(out).unwrap().1, query_lower_text(query), today, #[trigger] res[k]),
        match table_of(out) {
            Some((h, t)) => forall|r: int| 0 <= r < t.len() && agenda_line_kept(h, t[r], query_lower_text(query))
                && !text_lt(agenda_event(h, t[r])[0], today) ==> res.contains(agenda_event(h, #[trigger] t[r])),
            None => true,
        },
{
    let rows = agenda_results(out, query, today);
    let keys = agenda_keys(rows);
    let p = crate::agenda::lemma_arranged(res, rows, keys);
    assert forall|i: int, j: int| 0 <= i < j < res.len() implies
        !text_lt((#[trigger] res[j])[0], (#[trigger] res[i])[0])
        && (res[j][0] == res[i][0] && res[j][1] == "all-day"@ ==> res[i][1] == "all-day"@) by {
        let kj = keys[p[j] as int];
        let ki = keys[p[i] as int];
        assert(!crate::order::key_lt(kj, ki));
        assert(kj == agenda_key(res[j]));
        assert(ki == agenda_key(res[i]));
        crate::text::lemma_text_lt_irreflexive(ki[0]);
        if kj[0] != ki[0] {
            assert(!text_lt(kj[0], ki[0]));
        } else {
            assert(kj.drop_first() =~= seq![kj[1], kj[2]]);
            assert(ki.drop_first() =~= seq![ki[1], ki[2]]);
            if res[j][1] == "all-day"@ && res[i][1] != "all-day"@ {
                reveal_strlit("0");
                reveal_strlit("1");
                assert(kj[1] == "0"@);
                assert(ki[1] == "1"@);
                assert(kj[1][0] == '0');
                assert(ki[1][0] == '1');
                assert(kj[1] != ki[1]);
                assert(text_lt(kj[1], ki[1]));
                assert(crate::order::key_lt(kj.drop_first(), ki.drop_first()));
                assert(false);
            }
        }
    }
    match table_of(out) {
        None => {},
        Some((h, t)) => {
            lemma_agenda_upto(h, t, query_lower_text(query), today, t.len() as int);
            assert forall|k: int| 0 <= k < res.len() implies shown_event(h, t, query_lower_text(query), today, #[trigger] res[k]) by {
                assert(res[k] == rows[p[k] as int]);
            }
            lemma_agenda_upto_complete(h, t, query_lower_text(query), today, t.len() as int);
            crate::agenda::lemma_arranged_covers(res, rows, keys);
            assert forall|r: int| 0 <= r < t.len() && agenda_line_kept(h, t[r], query_lower_text(query))
                && !text_lt(agenda_event(h, t[r])[0], today) implies res.contains(agenda_event(h, #[trigger] t[r])) by {
                let c = choose|c: int| 0 <= c < rows.len() && rows[c] == agenda_event(h, t[r]);
                assert(res.contains(rows[c]));
            }
        },
    }
}

/// Event `e` passes the lower-cased filter `query_lower`: an empty filter
/// passes every event; otherwise its title or description, lower-cased,
/// contains the filter.
pub open spec fn passes_filter(e: Seq<Seq<char>>, query_lower: Seq<char>) -> bool {
    query_lower.len() == 0 || has_substring(unicode_lowercase(e[4]), query_lower)
        || has_substring(unicode_lowercase(e[5]), query_lower)
}

proof fn lemma_agenda_upto_filter(headers: Seq<Seq<char>>, rows: Seq<Seq<Seq<char>>>, query_lower: Seq<char>, today: Seq<char>, n: int)
    requires
        0 <= n <= rows.len(),
    ensures
        agenda_upto(headers, rows, query_lower, today, n)
            == agenda_upto(headers, rows, Seq::empty(), today, n).filter(|e: Seq<Seq<char>>| passes_filter(e, query_lower)),
    decreases n,
{
    if n > 0 {
        lemma_agenda_upto_filter(headers, rows, query_lower, today, n - 1);
        let pred = |e: Seq<Seq<char>>| passes_filter(e, query_lower);
        let all = agenda_upto(headers, rows, Seq::empty(), today, n);
        let prev = agenda_upto(headers, rows, Seq::empty(), today, n - 1);
        let q = agenda_upto(headers, rows, query_lower, today, n);
        let qprev = agenda_upto(headers, rows, query_lower, today, n - 1);
        assert(qprev == prev.filter(pred));
        let e = agenda_event(headers, rows[n - 1]);
        assert(e[4] == field_named(headers, rows[n - 1], "title"@));
        assert(e[5] == field_named(headers, rows[n - 1], "description"@));
        let base = agenda_line_kept(headers, rows[n - 1], Seq::empty()) && !text_lt(e[0], today);
        assert(agenda_line_kept(headers, rows[n - 1], query_lower) && !text_lt(e[0], today) <==> base && pred(e));
        if base {
            assert(all == prev.push(e));
            assert(all.len() > 0);
            assert(all.drop_last() =~= prev);
            assert(all.last() == e);
            assert(all.filter(pred) == (if pred(e) { prev.filter(pred).push(e) } else { prev.filter(pred) })) by {
                reveal(Seq::filter);
            }
        } else {
            assert(all == prev);
        }
        assert(q == all.filter(pred));
    }
}

/// Before sorting, the agenda under a filter is the unfiltered agenda with
/// the events that do not pass the filter removed: the filter never adds
/// an event and keeps the listing order.
pub proof fn filter_only_removes_events(out: Seq<char>, query: Seq<char>, today: Seq<char>)
    ensures
        agenda_results(out, query, today) == agenda_results(out, Seq::empty(), today).filter(
            |e: Seq<Seq<char>>| passes_filter(e, query_lower_text(query))),
{
    match table_of(out) {
        None => {
            reveal(Seq::filter);
        },
        Some((h, t)) => {
            lemma_agenda_upto_filter(h, t, query_lower_text(query), today, t.len() as int);
        },
    }
}

/// On the account list, every key leaves the account selection inside the
/// list (or empty) and the accounts unchanged.
pub proof fn account_selection_stays_in_list(a: App, b: App, k: KeyPress, tz: Seq<char>, out: KeyOutcome)
    requires
        a.wf(),
        a.screen == Screen::Accounts,
        !a.commanding,
        !a.searching,
        a.accounts@.len() > 0,
        a.account_sel matches Some(i) ==> i < a.accounts@.len(),
        key_effect(a, b, k, tz, out),
    ensures
        b.accounts == a.accounts,
        b.account_sel matches Some(j) ==> j < b.accounts@.len(),
{
    if !is_quit_key(k) && k.key != Key::Char('?') {
        match nav_sel(k, a.accounts@.len() as int, a.account_sel, a.page_hint as int) {
            Some(_) => {
                navigation_stays_in_list(k, a.accounts@.len() as int, a.account_sel, a.page_hint as int);
            },
            None => {},
        }
    }
}

/// In the filter prompt, typing a character and erasing it leaves the
/// query as it was, the prompt open, and everything else unchanged.
pub proof fn typing_then_erasing_restores_filter(
    a: App,
    b: App,
    c: App,
    ch: char,
    ctrl: bool,
    erase_ctrl: bool,
    tz: Seq<char>,
    o1: KeyOutcome,
    o2: KeyOutcome,
)
    requires
        a.searching,
        !a.commanding,
        key_effect(a, b, KeyPress { key: Key::Char(ch), ctrl }, tz, o1),
        key_effect(b, c, KeyPress { key: Key::Backspace, ctrl: erase_ctrl }, tz, o2),
    ensures
        o1 == KeyOutcome::Continue,
        o2 == KeyOutcome::Continue,
        c.searching,
        c.query@ == a.query@,
        c == (App { query: c.query, ..a }),
{
    assert(b.query@.drop_last() =~= a.query@);
}

/// A filter only removes events from the agenda: the agenda shown under a
/// filter is the agenda shown without one (same listing, same day) with
/// the events that do not pass the filter removed, in the same order.
pub proof fn filter_only_removes_shown_events(
    out: Seq<char>,
    query: Seq<char>,
    no_query: Seq<char>,
    today: Seq<char>,
    shown: Seq<Seq<Seq<char>>>,
    shown_all: Seq<Seq<Seq<char>>>,
)
    requires
        no_query.len() == 0,
        crate::agenda::arranged(shown, agenda_results(out, query, today), agenda_keys(agenda_results(out, query, today))),
        crate::agenda::arranged(
            shown_all,
            agenda_results(out, no_query, today),
            agenda_keys(agenda_results(out, no_query, today)),
        ),
    ensures
        shown == shown_all.filter(|e: Seq<Seq<char>>| passes_filter(e, query_lower_text(query))),
{
    let pred = |e: Seq<Seq<char>>| passes_filter(e, query_lower_text(query));
    let all = agenda_results(out, no_query, today);
    assert(no_query =~= Seq::<char>::empty());
    filter_only_removes_events(out, query, today);
    assert(agenda_results(out, query, today) == all.filter(pred));
    let kf = |e: Seq<Seq<char>>| agenda_key(e);
    assert(agenda_keys(all) =~= Seq::new(all.len(), |k: int| kf(all[k])));
    crate::agenda::lemma_filter_arranged(shown_all, all, kf, pred);
    let f = all.filter(pred);
    assert(Seq::new(f.len(), |k: int| kf(f[k])) =~= agenda_keys(f));
    crate::agenda::lemma_arrangement_unique(shown, shown_all.filter(pred), f, agenda_keys(f));
}

/// On one day, timed events are listed in order of their start time: the
/// agenda is ordered by date, then all-day events, then start time.
pub proof fn timed_events_in_start_order(out: Seq<char>, query: Seq<char>, today: Seq<char>, res: Seq<Seq<Seq<char>>>)
    requires
        crate::agenda::arranged(res, agenda_results(out, query, today), agenda_keys(agenda_results(out, query, today))),
    ensures
        forall|i: int, j: int| 0 <= i < j < res.len() && (#[trigger] res[j])[0] == (#[trigger] res[i])[0]
            && res[i][1] != "all-day"@ && res[j][1] != "all-day"@ ==> !text_lt(res[j][1], res[i][1]),
{
    let rows = agenda_results(out, query, today);
    let keys = agenda_keys(rows);
    let p = crate::agenda::lemma_arranged(res, rows, keys);
    assert forall|i: int, j: int| 0 <= i < j < res.len() && (#[trigger] res[j])[0] == (#[trigger] res[i])[0]
        && res[i][1] != "all-day"@ && res[j][1] != "all-day"@ implies !text_lt(res[j][1], res[i][1]) by {
        let kj = keys[p[j] as int];
        let ki = keys[p[i] as int];
        assert(!crate::order::key_lt(kj, ki));
        assert(kj == agenda_key(res[j]));
        assert(ki == agenda_key(res[i]));
        crate::text::lemma_text_lt_irreflexive(res[i][1]);
        let dj = kj.drop_first();
        let di = ki.drop_first();
        assert(dj =~= seq![kj[1], kj[2]]);
        assert(di =~= seq![ki[1], ki[2]]);
        assert(kj[1] == ki[1]);
        assert(dj.drop_first() =~= seq![res[j][1]]);
        assert(di.drop_first() =~= seq![res[i][1]]);
        if res[j][1] != res[i][1] && text_lt(res[j][1], res[i][1]) {
            assert(crate::order::key_lt(dj.drop_first(), di.drop_first()));
            assert(crate::order::key_lt(dj, di));
            assert(crate::order::key_lt(kj, ki));
        }
    }
}

/// Enter opens the row under the selection: on the calendar list the
/// selected calendar becomes the one whose events are loaded; on the
/// account list the selected account's configuration is used for the
/// calendars loaded next; on the event list the selected event's detail is
/// shown.
pub proof fn enter_opens_the_selected_row(a: App, b: App, k: KeyPress, tz: Seq<char>, out: KeyOutcome, i: usize)
    requires
        !a.commanding,
        !a.searching,
        k.key == Key::Enter,
        key_effect(a, b, k, tz, out),
    ensures
        out == KeyOutcome::Continue,
        a.screen == Screen::Calendars && a.cal_sel == Some(i) && i < a.calendars@.len() ==> {
            &&& b.selected_calendar matches Some(t) && t@ == a.calendars@[i as int].title@
            &&& b.screen == Screen::Events
            &&& b.loading
        },
        a.screen == Screen::Accounts && a.account_sel == Some(i) && i < a.accounts@.len() ==> {
            &&& opt_str_view(b.account_config) == opt_str_view(a.accounts@[i as int].config_dir)
            &&& b.screen == Screen::Calendars
            &&& b.calendars@.len() == 0
            &&& b.loading
        },
        a.screen == Screen::Events && a.events_sel == Some(i) && i < a.events@.len() ==> {
            &&& b.detail_index == Some(i)
            &&& b.screen == Screen::EventDetail
            &&& b.detail_scroll == 0
        },
{
}

/// The detail screen of event `idx` shows its title with its position,
/// then each known detail on a labelled line: where, calendar, organizer
/// and link, in that order, the organizer right after the calendar and
/// right before the link.
pub proof fn detail_lines_show_the_event(events: Seq<CalEvent>, idx: int, tz: Seq<char>, lines: Seq<Seq<char>>)
    requires
        0 <= idx < events.len(),
        lines == detail_text(events_view(events), idx, tz),
    ensures
        lines[0] == events[idx].title@ + " ("@ + decimal((idx + 1) as nat) + "/"@ + decimal(events.len()) + ")"@,
        lines[1].len() == 0,
        events[idx].location@.len() > 0 ==> lines.contains("Where: "@ + events[idx].location@),
        events[idx].calendar@.len() > 0 ==> lines.contains("Calendar: "@ + events[idx].calendar@),
        events[idx].url@.len() > 0 ==> lines.contains("Link: "@ + events[idx].url@),
        events[idx].email@.len() > 0 ==> exists|k: int| {
            &&& 0 < k < lines.len()
            &&& #[trigger] lines[k] == "Organizer: "@ + events[idx].email@
            &&& events[idx].calendar@.len() > 0 ==> lines[k - 1] == "Calendar: "@ + events[idx].calendar@
            &&& events[idx].url@.len() > 0 ==> k + 1 < lines.len() && lines[k + 1] == "Link: "@ + events[idx].url@
        },
{
    let e = events[idx];
    let ev = events_view(events);
    assert(ev[idx] == cal_event_view(e));
    let head = seq![
        e.title@ + " ("@ + decimal((idx + 1) as nat) + "/"@ + decimal(ev.len()) + ")"@,
        Seq::<char>::empty(),
        "When:  "@ + when_text(cal_event_view(e), tz),
    ];
    let ow = optional_line("Where: "@, e.location@);
    let oc = optional_line("Calendar: "@, e.calendar@);
    let oo = optional_line("Organizer: "@, e.email@);
    let ol = optional_line("Link: "@, e.url@);
    let rest = if e.desc@.len() > 0 {
        seq![Seq::<char>::empty(), "Description:"@] + split_on(trim_end(e.desc@), '\n')
    } else {
        Seq::empty()
    };
    assert(lines == head + ow + oc + oo + ol + rest);
    let base = 3 + ow.len() as int;
    if e.location@.len() > 0 {
        assert(lines[3] == ow[0]);
    }
    if e.calendar@.len() > 0 {
        assert(lines[base] == oc[0]);
    }
    let ko = base + oc.len() as int;
    if e.email@.len() > 0 {
        assert(lines[ko] == oo[0]);
        if e.calendar@.len() > 0 {
            assert(lines[ko - 1] == oc[0]);
        }
        if e.url@.len() > 0 {
            assert(lines[ko + 1] == ol[0]);
        }
    }
    if e.url@.len() > 0 {
        assert(lines[ko + oo.len()] == ol[0]);
    }
}

/// Event `e` is made of the columns of agenda line `f`: start date, start
/// time (`"all-day"` when empty), end date, end time, title, description,
/// location, link (`html_link`), calendar and organizer (`email`).
pub open spec fn event_from_columns(headers: Seq<Seq<char>>, f: Seq<Seq<char>>, e: Seq<Seq<char>>) -> bool {
    &&& e.len() == 10
    &&& column_is(headers, f, "start_date"@, e[0])
    &&& exists|t: Seq<char>| column_is(headers, f, "start_time"@, t)
        && e[1] == (if t.len() == 0 { "all-day"@ } else { t })
    &&& column_is(headers, f, "end_date"@, e[2])
    &&& column_is(headers, f, "end_time"@, e[3])
    &&& column_is(headers, f, "title"@, e[4])
    &&& column_is(headers, f, "description"@, e[5])
    &&& column_is(headers, f, "location"@, e[6])
    &&& column_is(headers, f, "html_link"@, e[7])
    &&& column_is(headers, f, "calendar"@, e[8])
    &&& column_is(headers, f, "email"@, e[9])
}

/// Some shown line of the agenda table makes event `e`.
pub open spec fn event_from_a_line(headers: Seq<Seq<char>>, rows: Seq<Seq<Seq<char>>>, query_lower: Seq<char>, e: Seq<Seq<char>>) -> bool {
    exists|r: int| 0 <= r < rows.len() && agenda_line_kept(headers, rows[r], query_lower)
        && event_from_columns(headers, #[trigger] rows[r], e)
}

/// Each agenda event is built from the columns of its line, by header
/// name (empty where the listing has no such column).
pub proof fn agenda_events_carry_their_columns(out: Seq<char>, query: Seq<char>, today: Seq<char>, res: Seq<Seq<Seq<char>>>)
    requires
        crate::agenda::arranged(res, agenda_results(out, query, today), agenda_keys(agenda_results(out, query, today))),
    ensures
        forall|k: int| 0 <= k < res.len() ==> table_of(out) is Some && event_from_a_line(
            table_of(out).unwrap().0, table_of(out).unwrap().1, query_lower_text(query), #[trigger] res[k]),
{
    agenda_is_upcoming_in_order(out, query, today, res);
    assert forall|k: int| 0 <= k < res.len() implies table_of(out) is Some && event_from_a_line(
        table_of(out).unwrap().0, table_of(out).unwrap().1, query_lower_text(query), #[trigger] res[k]) by {
        let h = table_of(out).unwrap().0;
        let t = table_of(out).unwrap().1;
        let ql = query_lower_text(query);
        assert(shown_event(h, t, ql, today, res[k]));
        let r = choose|r: int| 0 <= r < t.len() && agenda_line_kept(h, t[r], ql) && res[k] == #[trigger] agenda_event(h, t[r]);
        let f = t[r];
        crate::agenda::lemma_field_named_column(h, f, "start_date"@);
        crate::agenda::lemma_field_named_column(h, f, "start_time"@);
        crate::agenda::lemma_field_named_column(h, f, "end_date"@);
        crate::agenda::lemma_field_named_column(h, f, "end_time"@);
        crate::agenda::lemma_field_named_column(h, f, "title"@);
        crate::agenda::lemma_field_named_column(h, f, "description"@);
        crate::agenda::lemma_field_named_column(h, f, "location"@);
        crate::agenda::lemma_field_named_column(h, f, "html_link"@);
        crate::agenda::lemma_field_named_column(h, f, "calendar"@);
        crate::agenda::lemma_field_named_column(h, f, "email"@);
        let tm = field_named(h, f, "start_time"@);
        assert(column_is(h, f, "start_time"@, tm) && res[k][1] == (if tm.len() == 0 { "all-day"@ } else { tm }));
        assert(event_from_columns(h, f, res[k]));
    }
}

/// The length of the list on screen and its selection (first row when
/// none is selected).
pub open spec fn list_position(a: App) -> (int, int) {
    let (n, sel) = match a.screen {
        Screen::Accounts => (a.accounts@.len() as int, a.account_sel),
        Screen::Calendars => (a.calendars@.len() as int, a.cal_sel),
        _ => (a.events@.len() as int, a.events_sel),
    };
    (n, match sel { Some(i) => i as int, None => 0 })
}

/// The selection of the list on screen after a key.
pub open spec fn selection_after(a: App, b: App) -> Option<usize> {
    match a.screen {
        Screen::Accounts => b.account_sel,
        Screen::Calendars => b.cal_sel,
        _ => b.events_sel,
    }
}

/// In a list (accounts, calendars, events) that has rows, outside the
/// prompts: Down/`j`/Control-`n` select the next row and Up/`k`/Control-`p`
/// the previous one (staying on the first and last row), `g` the first row,
/// `G` the last, PageDown/Space and PageUp move a page (at least one row),
/// and `q`, Control-`c` and F1 quit.
pub proof fn keys_move_in_lists(a: App, b: App, k: KeyPress, tz: Seq<char>, out: KeyOutcome)
    requires
        !a.commanding,
        !a.searching,
        a.screen == Screen::Accounts || a.screen == Screen::Calendars || a.screen == Screen::Events,
        list_position(a).0 > 0,
        0 <= list_position(a).1 < list_position(a).0,
        key_effect(a, b, k, tz, out),
    ensures
        ({
            let n = list_position(a).0;
            let i = list_position(a).1;
            let page = if a.page_hint < 1 { 1 } else { a.page_hint as int };
            &&& (k.key == Key::Down || k.key == Key::Char('j')) && !k.ctrl
                ==> selection_after(a, b) == Some((if i + 1 < n { i + 1 } else { n - 1 }) as usize)
            &&& (k.key == Key::Char('n') && k.ctrl)
                ==> selection_after(a, b) == Some((if i + 1 < n { i + 1 } else { n - 1 }) as usize)
            &&& (k.key == Key::Up || k.key == Key::Char('k')) && !k.ctrl
                ==> selection_after(a, b) == Some((if i > 0 { i - 1 } else { 0 }) as usize)
            &&& (k.key == Key::Char('p') && k.ctrl)
                ==> selection_after(a, b) == Some((if i > 0 { i - 1 } else { 0 }) as usize)
            &&& k.key == Key::Char('g') ==> selection_after(a, b) == Some(0usize)
            &&& k.key == Key::Char('G') ==> selection_after(a, b) == Some((n - 1) as usize)
            &&& (k.key == Key::PageDown || k.key == Key::Char(' '))
                ==> selection_after(a, b) == Some((if i + page < n { i + page } else { n - 1 }) as usize)
            &&& k.key == Key::PageUp
                ==> selection_after(a, b) == Some((if i - page > 0 { i - page } else { 0 }) as usize)
            &&& (k.key == Key::Char('q') || (k.key == Key::Char('c') && k.ctrl) || k.key == Key::F(1))
                ==> out == KeyOutcome::Quit && b == a
        }),
{
}

/// Esc goes back one level: from an event's detail to the event list,
/// from the event list to the calendar list (dropping the events and the
/// calendar choice), from the calendar list to the account list.
pub proof fn escape_goes_back(a: App, b: App, k: KeyPress, tz: Seq<char>, out: KeyOutcome)
    requires
        !a.commanding,
        !a.searching,
        k.key == Key::Esc,
        key_effect(a, b, k, tz, out),
    ensures
        out == KeyOutcome::Continue,
        a.screen == Screen::EventDetail ==> b.screen == Screen::Events && b.detail_index is None,
        a.screen == Screen::Events ==> b.screen == Screen::Calendars && b.events@.len() == 0
            && b.selected_calendar is None && b.events_sel is None,
        a.screen == Screen::Calendars ==> b.screen == Screen::Accounts && b.events@.len() == 0,
        a.screen == Screen::Accounts ==> b.screen == Screen::Accounts,
{
}

/// In the filter prompt, a typed character is appended to the query,
/// Backspace removes the last one, Enter applies the query and Esc clears
/// it; both close the prompt and reload the events.
pub proof fn filter_prompt_edits_the_query(a: App, b: App, k: KeyPress, tz: Seq<char>, out: KeyOutcome)
    requires
        a.searching,
        !a.commanding,
        key_effect(a, b, k, tz, out),
    ensures
        out == KeyOutcome::Continue,
        k.key matches Key::Char(c) ==> b.query@ == a.query@.push(c) && b.searching,
        k.key == Key::Backspace ==> b.query@.len() == if a.query@.len() > 0 { a.query@.len() - 1 } else { 0 }
            && b.query@ == a.query@.take(b.query@.len() as int) && b.searching,
        k.key == Key::Enter ==> !b.searching && b.loading && b.query == a.query,
        k.key == Key::Esc ==> !b.searching && b.loading && b.query@.len() == 0,
{
    if k.key == Key::Backspace && a.query@.len() > 0 {
        assert(a.query@.drop_last() =~= a.query@.take(a.query@.len() - 1));
    }
    if k.key == Key::Backspace && a.query@.len() == 0 {
        assert(a.query@ =~= a.query@.take(0));
    }
}

/// In an event's detail, `n` shows the next event and `p` the previous
/// one (staying at the ends), from its first line, and selects it in the
/// list.
pub proof fn detail_steps_through_events(a: App, b: App, k: KeyPress, tz: Seq<char>, out: KeyOutcome, i: usize)
    requires
        !a.commanding,
        !a.searching,
        a.screen == Screen::EventDetail,
        a.detail_index == Some(i),
        i < a.events@.len(),
        key_effect(a, b, k, tz, out),
    ensures
        k.key == Key::Char('n') ==> {
            let j = if i + 1 < a.events@.len() { i + 1 } else { i as int };
            &&& b.detail_index == Some(j as usize)
            &&& b.events_sel == Some(j as usize)
            &&& b.detail_scroll == 0
            &&& b.screen == Screen::EventDetail
        },
        k.key == Key::Char('p') ==> {
            let j = if i > 0 { i - 1 } else { 0 };
            &&& b.detail_index == Some(j as usize)
            &&& b.events_sel == Some(j as usize)
            &&& b.detail_scroll == 0
            &&& b.screen == Screen::EventDetail
        },
{
}

/// A finished load of calendars (events) replaces the calendar (event)
/// list, selects its first row and clears the error; a failed load keeps
/// the lists and records the message.
pub proof fn loads_replace_lists(a: App, b: App, result: Result<Loaded, String>)
    requires
        load_effect(a, b, result),
    ensures
        a.screen == Screen::Calendars ==> (result matches Ok(Loaded::Calendars(v))
            ==> b.calendars == v && b.cal_sel == Some(0usize) && b.error is None),
        a.screen == Screen::Events ==> (result matches Ok(Loaded::Events(v))
            ==> b.events == v && b.events_sel == Some(0usize) && b.error is None),
        result matches Err(msg) ==> b.error == Some(msg) && b.calendars == a.calendars && b.events == a.events
            && b.screen == a.screen,
        b.screen == a.screen,
{
}

/// A time is shown with the time zone's name after a space, except an
/// empty time or `all-day`, shown as they are.
pub proof fn times_show_their_zone(t: Seq<char>, tz: Seq<char>, shown: Seq<char>)
    requires
        shown == fmt_time_text(t, tz),
    ensures
        t.len() > 0 && t != "all-day"@ ==> shown == t + seq![' '] + tz,
        t.len() == 0 || t == "all-day"@ ==> shown == t,
{
    assert(" "@ =~= seq![' ']) by {
        reveal_strlit(" ");
    }
}

} // verus!
