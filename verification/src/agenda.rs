//! gcalcli's tab-separated listings: the header row names the columns,
//! each further line is one event. The search tools keep the events that
//! match a query (case-insensitively, in any column), sort them by time and
//! print them as TSV or CSV.

use vstd::prelude::*;
use chrono::ParseError;
use crate::date::{add_days, format_date, iso_date, lemma_date_of, date_of, day_number, in_date_range, parse_iso_date, strftime_date};
use crate::order::{is_stable_order, key_lt, key_views, stable_order};
use crate::text::{
    chars_eq, chars_to_string, contains_char, contains_chars, extend, has_substring, lines, lowercase,
    push_str, split_chars, split_lines, split_on, text_lt, to_chars, unicode_lowercase,
};

verus! {

// ---------------------------------------------------------------------------
// The table
// ---------------------------------------------------------------------------

/// The header fields and the lines' fields of a listing; `None` when the
/// listing has no line at all.
pub open spec fn table_of(out: Seq<char>) -> Option<(Seq<Seq<char>>, Seq<Seq<Seq<char>>>)> {
    let ls = lines(out);
    if ls.len() == 0 {
        None
    } else {
        Some((split_on(ls[0], '\t'), Seq::new((ls.len() - 1) as nat, |k: int| split_on(ls[k + 1], '\t'))))
    }
}

/// The position of the first header named `name`.
pub open spec fn header_pos(headers: Seq<Seq<char>>, name: Seq<char>) -> Option<int>
    decreases headers.len(),
{
    if headers.len() == 0 {
        None
    } else if headers[0] == name {
        Some(0)
    } else {
        match header_pos(headers.drop_first(), name) {
            Some(i) => Some(i + 1),
            None => None,
        }
    }
}

/// The field of the column named `name`, or the empty string when there
/// is no such column.
pub open spec fn field_named(headers: Seq<Seq<char>>, fields: Seq<Seq<char>>, name: Seq<char>) -> Seq<char> {
    match header_pos(headers, name) {
        Some(i) => if i < fields.len() { fields[i] } else { Seq::empty() },
        None => Seq::empty(),
    }
}

/// Some field contains the (lower-cased) query once lower-cased.
pub open spec fn any_field_matches(fields: Seq<Seq<char>>, query_lower: Seq<char>) -> bool {
    exists|k: int| 0 <= k < fields.len() && has_substring(unicode_lowercase(#[trigger] fields[k]), query_lower)
}

/// Splits a listing into its header and its lines' fields.
pub fn read_table(out: &str) -> (res: Option<(Vec<Vec<char>>, Vec<Vec<Vec<char>>>)>)
    ensures
        match (res, table_of(out@)) {
            (None, None) => true,
            (Some((h, rows)), Some((sh, srows))) => {
                &&& h@.len() == sh.len()
                &&& forall|i: int| 0 <= i < h@.len() ==> #[trigger] h@[i]@ == sh[i]
                &&& rows@.len() == srows.len()
                &&& forall|r: int| 0 <= r < rows@.len() ==> {
                    &&& (#[trigger] rows@[r])@.len() == srows[r].len()
                    &&& forall|i: int| 0 <= i < rows@[r]@.len() ==> #[trigger] rows@[r]@[i]@ == srows[r][i]
                }
            },
            _ => false,
        },
{
    let text = to_chars(out);
    let ls = split_lines(&text);
    if ls.len() == 0 {
        return None;
    }
    let headers = split_chars(&ls[0], '\t');
    let ghost sl = lines(out@);
    let ghost srows = Seq::new((sl.len() - 1) as nat, |k: int| split_on(sl[k + 1], '\t'));
    let mut rows: Vec<Vec<Vec<char>>> = Vec::new();
    let mut k: usize = 1;
    while k < ls.len()
        invariant
            sl == lines(out@),
            ls@.len() == sl.len(),
            forall|j: int| 0 <= j < ls@.len() ==> #[trigger] ls@[j]@ == sl[j],
            srows == Seq::new((sl.len() - 1) as nat, |k: int| split_on(sl[k + 1], '\t')),
            1 <= k <= ls@.len(),
            rows@.len() == k - 1,
            forall|r: int| 0 <= r < rows@.len() ==> {
                &&& (#[trigger] rows@[r])@.len() == srows[r].len()
                &&& forall|i: int| 0 <= i < rows@[r]@.len() ==> #[trigger] rows@[r]@[i]@ == srows[r][i]
            },
        decreases ls.len() - k,
    {
        let fields = split_chars(&ls[k], '\t');
        assert(srows[k - 1] == split_on(sl[k as int], '\t'));
        rows.push(fields);
        k = k + 1;
    }
    Some((headers, rows))
}

/// The field of the column named `name` (empty when there is none).
pub fn field_value(headers: &Vec<Vec<char>>, fields: &Vec<Vec<char>>, name: &str) -> (res: Vec<char>)
    ensures
        res@ == field_named(crate::order::views(headers@), crate::order::views(fields@), name@),
{
    let target = to_chars(name);
    let ghost hv = crate::order::views(headers@);
    let mut i: usize = 0;
    assert(hv.skip(0) =~= hv);
    while i < headers.len()
        invariant
            hv == crate::order::views(headers@),
            target@ == name@,
            i <= headers.len(),
            forall|j: int| 0 <= j < i ==> hv[j] != name@,
            header_pos(hv, name@) == match header_pos(hv.skip(i as int), name@) {
                Some(p) => Some(p + i),
                None => None::<int>,
            },
        decreases headers.len() - i,
    {
        assert(hv.skip(i as int)[0] == headers@[i as int]@);
        if chars_eq(&headers[i], &target) {
            assert(header_pos(hv.skip(i as int), name@) == Some(0int));
            if i < fields.len() {
                let mut out: Vec<char> = Vec::new();
                extend(&mut out, &fields[i]);
                return out;
            }
            return Vec::new();
        }
        assert(hv.skip(i as int).drop_first() =~= hv.skip(i + 1));
        i = i + 1;
    }
    Vec::new()
}

/// Whether some field, lower-cased, contains `query_lower`.
pub fn fields_match(fields: &Vec<Vec<char>>, query_lower: &Vec<char>) -> (res: bool)
    ensures
        res == any_field_matches(crate::order::views(fields@), query_lower@),
{
    let ghost fv = crate::order::views(fields@);
    let mut i: usize = 0;
    while i < fields.len()
        invariant
            fv == crate::order::views(fields@),
            i <= fields.len(),
            forall|j: int| 0 <= j < i ==> !has_substring(unicode_lowercase(#[trigger] fv[j]), query_lower@),
        decreases fields.len() - i,
    {
        let low = to_chars(lowercase(chars_to_string(&fields[i]).as_str()).as_str());
        assert(fv[i as int] == fields@[i as int]@);
        if contains_chars(&low, query_lower) {
            return true;
        }
        i = i + 1;
    }
    false
}

// ---------------------------------------------------------------------------
// gcal-search
// ---------------------------------------------------------------------------

/// One search result: event ID, start (`date time`), title and description.
#[derive(Clone, Debug)]
pub struct SearchRow {
    pub id: String,
    pub datetime: String,
    pub title: String,
    pub description: String,
}

/// The model of a search result: (id, datetime, title, description).
pub type RowModel = (Seq<char>, Seq<char>, Seq<char>, Seq<char>);

pub open spec fn row_model(headers: Seq<Seq<char>>, fields: Seq<Seq<char>>) -> RowModel {
    (
        field_named(headers, fields, "id"@),
        field_named(headers, fields, "start_date"@) + " "@ + field_named(headers, fields, "start_time"@),
        field_named(headers, fields, "title"@),
        field_named(headers, fields, "description"@),
    )
}

/// A line is kept when it has at least as many fields as the header and
/// some field matches the query.
pub open spec fn line_kept(headers: Seq<Seq<char>>, fields: Seq<Seq<char>>, query_lower: Seq<char>) -> bool {
    fields.len() >= headers.len() && any_field_matches(fields, query_lower)
}

/// The kept lines of the first `n` lines, as results, in listing order.
pub open spec fn search_candidates(headers: Seq<Seq<char>>, rows: Seq<Seq<Seq<char>>>, query_lower: Seq<char>, n: int) -> Seq<RowModel>
    decreases n,
{
    if n <= 0 {
        Seq::empty()
    } else {
        let prev = search_candidates(headers, rows, query_lower, n - 1);
        if line_kept(headers, rows[n - 1], query_lower) {
            prev.push(row_model(headers, rows[n - 1]))
        } else {
            prev
        }
    }
}

/// The search results of a listing for `query`, in listing order (before
/// sorting).
pub open spec fn search_results(out: Seq<char>, query: Seq<char>) -> Seq<RowModel> {
    match table_of(out) {
        None => Seq::empty(),
        Some((h, rows)) => search_candidates(h, rows, unicode_lowercase(query), rows.len() as int),
    }
}

/// The sort key of each result: its datetime.
pub open spec fn datetime_keys(rs: Seq<RowModel>) -> Seq<Seq<Seq<char>>> {
    Seq::new(rs.len(), |k: int| seq![rs[k].1])
}

pub open spec fn search_row_view(r: SearchRow) -> RowModel {
    (r.id@, r.datetime@, r.title@, r.description@)
}

/// `res` is `rows` in the stable order of `keys`.
pub open spec fn arranged<T>(res: Seq<T>, rows: Seq<T>, keys: Seq<Seq<Seq<char>>>) -> bool {
    exists|p: Seq<usize>| {
        &&& is_stable_order(keys, p)
        &&& res.len() == rows.len()
        &&& forall|k: int| 0 <= k < res.len() ==> #[trigger] res[k] == rows[p[k] as int]
    }
}

fn datetime_key(r: &SearchRow) -> (res: Vec<Vec<char>>)
    ensures
        crate::order::views(res@) == seq![r.datetime@],
{
    let mut k: Vec<Vec<char>> = Vec::new();
    k.push(to_chars(r.datetime.as_str()));
    assert(crate::order::views(k@) =~= seq![r.datetime@]);
    k
}

/// The events of a gcalcli search listing that match `query` in some
/// column (case-insensitively), sorted by start (stably).
pub fn search_rows(out: &str, query: &str) -> (res: Vec<SearchRow>)
    ensures
        arranged(
            res@.map_values(|r: SearchRow| search_row_view(r)),
            search_results(out@, query@),
            datetime_keys(search_results(out@, query@)),
        ),
{
    let ql = to_chars(lowercase(query).as_str());
    let mut found: Vec<SearchRow> = Vec::new();
    let ghost cands = search_results(out@, query@);
    match read_table(out) {
        None => {},
        Some((headers, rows)) => {
            let ghost h = crate::order::views(headers@);
            let ghost tbl = table_of(out@).unwrap();
            let ghost srows = tbl.1;
            assert(h =~= tbl.0);
            let mut r: usize = 0;
            while r < rows.len()
                invariant
                    h == crate::order::views(headers@),
                    headers@.len() == h.len(),
                    rows@.len() == srows.len(),
                    forall|x: int| 0 <= x < rows@.len() ==> {
                        &&& (#[trigger] rows@[x])@.len() == srows[x].len()
                        &&& forall|i: int| 0 <= i < rows@[x]@.len() ==> #[trigger] rows@[x]@[i]@ == srows[x][i]
                    },
                    ql@ == unicode_lowercase(query@),
                    r <= rows@.len(),
                    found@.map_values(|x: SearchRow| search_row_view(x)) == search_candidates(h, srows, ql@, r as int),
                decreases rows.len() - r,
            {
                let fields = &rows[r];
                assert(crate::order::views(fields@) =~= srows[r as int]);
                let ghost before = found@;
                if fields.len() >= headers.len() && fields_match(fields, &ql) {
                    let id = field_value(&headers, fields, "id");
                    let d = field_value(&headers, fields, "start_date");
                    let t = field_value(&headers, fields, "start_time");
                    let title = field_value(&headers, fields, "title");
                    let desc = field_value(&headers, fields, "description");
                    let mut dt: Vec<char> = Vec::new();
                    extend(&mut dt, &d);
                    push_str(&mut dt, " ");
                    extend(&mut dt, &t);
                    found.push(SearchRow {
                        id: chars_to_string(&id),
                        datetime: chars_to_string(&dt),
                        title: chars_to_string(&title),
                        description: chars_to_string(&desc),
                    });
                    assert(found@.map_values(|x: SearchRow| search_row_view(x))
                        =~= before.map_values(|x: SearchRow| search_row_view(x)).push(row_model(h, srows[r as int])));
                }
                r = r + 1;
            }
            assert(cands == search_candidates(h, srows, ql@, srows.len() as int));
        },
    }
    let ghost fv = found@.map_values(|x: SearchRow| search_row_view(x));
    assert(fv == cands);
    let mut keys: Vec<Vec<Vec<char>>> = Vec::new();
    let mut i: usize = 0;
    while i < found.len()
        invariant
            i <= found@.len(),
            keys@.len() == i,
            forall|k: int| 0 <= k < i ==> crate::order::views(#[trigger] keys@[k]@) == seq![found@[k].datetime@],
        decreases found.len() - i,
    {
        keys.push(datetime_key(&found[i]));
        i = i + 1;
    }
    assert(key_views(keys@) =~= datetime_keys(cands)) by {
        assert forall|k: int| 0 <= k < keys@.len() implies key_views(keys@)[k] == datetime_keys(cands)[k] by {
            assert(fv[k] == search_row_view(found@[k]));
        }
    }
    let p = stable_order(&keys);
    let mut res: Vec<SearchRow> = Vec::new();
    let mut k: usize = 0;
    while k < p.len()
        invariant
            is_stable_order(key_views(keys@), p@),
            keys@.len() == found@.len(),
            k <= p@.len(),
            res@.len() == k,
            forall|j: int| 0 <= j < k ==> #[trigger] res@[j] == found@[p@[j] as int],
        decreases p.len() - k,
    {
        assert(p@[k as int] < keys@.len());
        res.push(copy_row(&found[p[k]]));
        k = k + 1;
    }
    proof {
        let rv = res@.map_values(|x: SearchRow| search_row_view(x));
        assert forall|j: int| 0 <= j < rv.len() implies #[trigger] rv[j] == cands[p@[j] as int] by {
            assert(rv[j] == search_row_view(res@[j]));
            assert(fv[p@[j] as int] == search_row_view(found@[p@[j] as int]));
        }
    }
    res
}

// ---------------------------------------------------------------------------
// Printing results
// ---------------------------------------------------------------------------

/// How results are printed.
#[derive(Clone, Copy, Debug, PartialEq, Eq)]
pub enum OutputFormat {
    Tsv,
    Csv,
}

/// `s` holds a comma, a double quote or a newline.
pub open spec fn csv_needs_quotes(s: Seq<char>) -> bool {
    s.contains(',') || s.contains('"') || s.contains('\n')
}

/// `s` with every double quote doubled.
pub open spec fn double_quotes(s: Seq<char>) -> Seq<char>
    decreases s.len(),
{
    if s.len() == 0 {
        Seq::empty()
    } else {
        double_quotes(s.drop_last()) + (if s.last() == '"' { seq!['"', '"'] } else { seq![s.last()] })
    }
}

/// A CSV field: quoted (with inner quotes doubled) when it holds a comma,
/// a quote or a newline, else unchanged.
pub open spec fn csv_text(s: Seq<char>) -> Seq<char> {
    if csv_needs_quotes(s) {
        seq!['"'] + double_quotes(s) + seq!['"']
    } else {
        s
    }
}

fn csv_chars(s: &Vec<char>) -> (res: Vec<char>)
    ensures
        res@ == csv_text(s@),
{
    if contains_char(s, ',') || contains_char(s, '"') || contains_char(s, '\n') {
        let mut out: Vec<char> = Vec::new();
        out.push('"');
        let mut i: usize = 0;
        while i < s.len()
            invariant
                i <= s.len(),
                out@ == seq!['"'] + double_quotes(s@.take(i as int)),
            decreases s.len() - i,
        {
            assert(s@.take(i + 1).drop_last() =~= s@.take(i as int));
            if s[i] == '"' {
                out.push('"');
                out.push('"');
            } else {
                out.push(s[i]);
            }
            assert(out@ =~= seq!['"'] + double_quotes(s@.take(i + 1)));
            i = i + 1;
        }
        assert(s@.take(s.len() as int) =~= s@);
        out.push('"');
        out
    } else {
        let mut out: Vec<char> = Vec::new();
        extend(&mut out, s);
        out
    }
}

/// Quotes a CSV field when it holds a comma, a double quote or a newline
/// (doubling inner quotes); returns it unchanged otherwise.
pub fn csv_quote(s: &str) -> (res: String)
    ensures
        res@ == csv_text(s@),
{
    chars_to_string(&csv_chars(&to_chars(s)))
}

/// The first `n` characters of `s` (all of it when shorter).
pub open spec fn first_chars(s: Seq<char>, n: int) -> Seq<char> {
    if s.len() <= n { s } else { s.take(n) }
}

/// The printed line of a result: id, start, title and the description's
/// first 50 characters, tab-separated or as CSV fields.
pub open spec fn search_line_text(r: RowModel, f: OutputFormat) -> Seq<char> {
    match f {
        OutputFormat::Tsv => r.0 + "\t"@ + r.1 + "\t"@ + r.2 + "\t"@ + first_chars(r.3, 50),
        OutputFormat::Csv => csv_text(r.0) + ","@ + csv_text(r.1) + ","@ + csv_text(r.2) + ","@
            + csv_text(first_chars(r.3, 50)),
    }
}

/// Formats one search result for printing.
pub fn search_line(r: &SearchRow, f: OutputFormat) -> (res: String)
    ensures
        res@ == search_line_text(search_row_view(*r), f),
{
    let desc = to_chars(r.description.as_str());
    let cut: usize = if desc.len() <= 50 { desc.len() } else { 50 };
    let short = crate::text::slice_chars(&desc, 0, cut);
    assert(short@ =~= first_chars(r.description@, 50));
    let id = to_chars(r.id.as_str());
    let dt = to_chars(r.datetime.as_str());
    let title = to_chars(r.title.as_str());
    let mut out: Vec<char> = Vec::new();
    match f {
        OutputFormat::Tsv => {
            extend(&mut out, &id);
            push_str(&mut out, "\t");
            extend(&mut out, &dt);
            push_str(&mut out, "\t");
            extend(&mut out, &title);
            push_str(&mut out, "\t");
            extend(&mut out, &short);
        },
        OutputFormat::Csv => {
            extend(&mut out, &csv_chars(&id));
            push_str(&mut out, ",");
            extend(&mut out, &csv_chars(&dt));
            push_str(&mut out, ",");
            extend(&mut out, &csv_chars(&title));
            push_str(&mut out, ",");
            extend(&mut out, &csv_chars(&short));
        },
    }
    chars_to_string(&out)
}

// ---------------------------------------------------------------------------
// gcal-plan: a project's events
// ---------------------------------------------------------------------------

/// A project event found in the calendar: its start date and title.
#[derive(Clone, Debug)]
pub struct ProjectEvent {
    pub date: String,
    pub title: String,
}

/// The query that finds a project's events.
pub open spec fn project_query_text(id: Seq<char>) -> Seq<char> {
    "project-id: "@ + id
}

/// The search string for a project's events: `"project-id: <id>"`.
pub fn project_query(project_id: &str) -> (res: String)
    ensures
        res@ == project_query_text(project_id@),
{
    let mut v: Vec<char> = Vec::new();
    push_str(&mut v, "project-id: ");
    push_str(&mut v, project_id);
    chars_to_string(&v)
}

/// The kept lines of the first `n` lines as (start date, title).
pub open spec fn project_candidates(headers: Seq<Seq<char>>, rows: Seq<Seq<Seq<char>>>, query_lower: Seq<char>, n: int) -> Seq<(Seq<char>, Seq<char>)>
    decreases n,
{
    if n <= 0 {
        Seq::empty()
    } else {
        let prev = project_candidates(headers, rows, query_lower, n - 1);
        if line_kept(headers, rows[n - 1], query_lower) {
            prev.push((field_named(headers, rows[n - 1], "start_date"@), field_named(headers, rows[n - 1], "title"@)))
        } else {
            prev
        }
    }
}

/// The events of a project in a gcalcli search listing for its query, in
/// listing order (before sorting).
pub open spec fn project_results(out: Seq<char>, project_id: Seq<char>) -> Seq<(Seq<char>, Seq<char>)> {
    match table_of(out) {
        None => Seq::empty(),
        Some((h, rows)) => project_candidates(h, rows, unicode_lowercase(project_query_text(project_id)), rows.len() as int),
    }
}

pub open spec fn date_keys(rs: Seq<(Seq<char>, Seq<char>)>) -> Seq<Seq<Seq<char>>> {
    Seq::new(rs.len(), |k: int| seq![rs[k].0])
}

pub open spec fn project_event_view(e: ProjectEvent) -> (Seq<char>, Seq<char>) {
    (e.date@, e.title@)
}

/// The events of a gcalcli search listing for `project_id`'s query that
/// match it in some column, sorted by date (stably).
pub fn project_events(out: &str, project_id: &str) -> (res: Vec<ProjectEvent>)
    ensures
        arranged(
            res@.map_values(|e: ProjectEvent| project_event_view(e)),
            project_results(out@, project_id@),
            date_keys(project_results(out@, project_id@)),
        ),
{
    let q = project_query(project_id);
    let ql = to_chars(lowercase(q.as_str()).as_str());
    let mut found: Vec<ProjectEvent> = Vec::new();
    let ghost cands = project_results(out@, project_id@);
    match read_table(out) {
        None => {},
        Some((headers, rows)) => {
            let ghost h = crate::order::views(headers@);
            let ghost tbl = table_of(out@).unwrap();
            let ghost srows = tbl.1;
            assert(h =~= tbl.0);
            let mut r: usize = 0;
            while r < rows.len()
                invariant
                    h == crate::order::views(headers@),
                    headers@.len() == h.len(),
                    rows@.len() == srows.len(),
                    forall|x: int| 0 <= x < rows@.len() ==> {
                        &&& (#[trigger] rows@[x])@.len() == srows[x].len()
                        &&& forall|i: int| 0 <= i < rows@[x]@.len() ==> #[trigger] rows@[x]@[i]@ == srows[x][i]
                    },
                    ql@ == unicode_lowercase(project_query_text(project_id@)),
                    r <= rows@.len(),
                    found@.map_values(|x: ProjectEvent| project_event_view(x)) == project_candidates(h, srows, ql@, r as int),
                decreases rows.len() - r,
            {
                let fields = &rows[r];
                assert(crate::order::views(fields@) =~= srows[r as int]);
                let ghost before = found@;
                if fields.len() >= headers.len() && fields_match(fields, &ql) {
                    let d = field_value(&headers, fields, "start_date");
                    let title = field_value(&headers, fields, "title");
                    found.push(ProjectEvent { date: chars_to_string(&d), title: chars_to_string(&title) });
                    assert(found@.map_values(|x: ProjectEvent| project_event_view(x))
                        =~= before.map_values(|x: ProjectEvent| project_event_view(x)).push(
                            (field_named(h, srows[r as int], "start_date"@), field_named(h, srows[r as int], "title"@))));
                }
                r = r + 1;
            }
            assert(cands == project_candidates(h, srows, ql@, srows.len() as int));
        },
    }
    let ghost fv = found@.map_values(|x: ProjectEvent| project_event_view(x));
    assert(fv == cands);
    let mut keys: Vec<Vec<Vec<char>>> = Vec::new();
    let mut i: usize = 0;
    while i < found.len()
        invariant
            i <= found@.len(),
            keys@.len() == i,
            forall|k: int| 0 <= k < i ==> crate::order::views(#[trigger] keys@[k]@) == seq![found@[k].date@],
        decreases found.len() - i,
    {
        let mut k1: Vec<Vec<char>> = Vec::new();
        k1.push(to_chars(found[i].date.as_str()));
        assert(crate::order::views(k1@) =~= seq![found@[i as int].date@]);
        keys.push(k1);
        i = i + 1;
    }
    assert(key_views(keys@) =~= date_keys(cands)) by {
        assert forall|k: int| 0 <= k < keys@.len() implies key_views(keys@)[k] == date_keys(cands)[k] by {
            assert(fv[k] == project_event_view(found@[k]));
        }
    }
    let p = stable_order(&keys);
    let mut res: Vec<ProjectEvent> = Vec::new();
    let mut k: usize = 0;
    while k < p.len()
        invariant
            is_stable_order(key_views(keys@), p@),
            keys@.len() == found@.len(),
            k <= p@.len(),
            res@.len() == k,
            forall|j: int| 0 <= j < k ==> #[trigger] res@[j] == found@[p@[j] as int],
        decreases p.len() - k,
    {
        assert(p@[k as int] < keys@.len());
        let e = &found[p[k]];
        res.push(ProjectEvent { date: e.date.clone(), title: e.title.clone() });
        k = k + 1;
    }
    proof {
        let rv = res@.map_values(|x: ProjectEvent| project_event_view(x));
        assert forall|j: int| 0 <= j < rv.len() implies #[trigger] rv[j] == cands[p@[j] as int] by {
            assert(rv[j] == project_event_view(res@[j]));
            assert(fv[p@[j] as int] == project_event_view(found@[p@[j] as int]));
        }
    }
    res
}

/// The dates of `events`, in order.
pub open spec fn event_dates(events: Seq<ProjectEvent>) -> Seq<Seq<char>> {
    Seq::new(events.len(), |k: int| events[k].date@)
}

/// The views of a list of strings.
pub open spec fn string_views(v: Seq<String>) -> Seq<Seq<char>> {
    Seq::new(v.len(), |k: int| v[k]@)
}

/// `res` lists the dates of `events` where they first appear, in that
/// order (`src` gives the positions).
pub open spec fn first_appearances(events: Seq<ProjectEvent>, res: Seq<String>, src: Seq<int>) -> bool {
    &&& src.len() == res.len()
    &&& forall|i: int, j: int| 0 <= i < j < src.len() ==> #[trigger] src[i] < #[trigger] src[j]
    &&& forall|i: int| 0 <= i < src.len() ==> {
        &&& 0 <= #[trigger] src[i] < events.len()
        &&& res[i]@ == events[src[i]].date@
        &&& forall|x: int| 0 <= x < src[i] ==> events[x].date@ != res[i]@
    }
}

/// The distinct dates of `events`, each once, in order of first
/// appearance.
pub fn distinct_dates(events: &Vec<ProjectEvent>) -> (res: Vec<String>)
    ensures
        forall|i: int, j: int| 0 <= i < j < res@.len() ==> res@[i]@ != res@[j]@,
        forall|i: int| 0 <= i < res@.len() ==> event_dates(events@).contains(#[trigger] res@[i]@),
        forall|k: int| 0 <= k < events@.len() ==> string_views(res@).contains(#[trigger] events@[k].date@),
        exists|src: Seq<int>| first_appearances(events@, res@, src),
{
    let mut out: Vec<String> = Vec::new();
    let ghost mut src: Seq<int> = Seq::empty();
    let ghost mut pos: Seq<int> = Seq::empty();
    let mut k: usize = 0;
    while k < events.len()
        invariant
            k <= events@.len(),
            forall|i: int, j: int| 0 <= i < j < out@.len() ==> out@[i]@ != out@[j]@,
            src.len() == out@.len(),
            forall|i: int| 0 <= i < out@.len() ==> 0 <= #[trigger] src[i] < k && out@[i]@ == events@[src[i]].date@,
            forall|i: int, j: int| 0 <= i < j < src.len() ==> #[trigger] src[i] < #[trigger] src[j],
            forall|i: int, x: int| #![trigger events@[x], out@[i]] 0 <= i < out@.len() && 0 <= x < src[i] ==> events@[x].date@ != out@[i]@,
            pos.len() == k,
            forall|x: int| 0 <= x < k ==> 0 <= #[trigger] pos[x] < out@.len() && out@[pos[x]]@ == events@[x].date@,
        decreases events.len() - k,
    {
        let d = &events[k].date;
        let mut found: Option<usize> = None;
        let mut i: usize = 0;
        while i < out.len()
            invariant
                i <= out@.len(),
                match found {
                    Some(j) => j < out@.len() && out@[j as int]@ == d@,
                    None => forall|j: int| 0 <= j < i ==> out@[j]@ != d@,
                },
            decreases out.len() - i,
        {
            if out[i] == *d {
                found = Some(i);
            }
            i = i + 1;
        }
        match found {
            Some(j) => {
                proof {
                    pos = pos.push(j as int);
                }
            },
            None => {
                let ghost before = out@;
                out.push(d.clone());
                proof {
                    assert forall|x: int| 0 <= x < k implies events@[x].date@ != d@ by {
                        assert(out@[pos[x]]@ == events@[x].date@);
                        assert(before[pos[x]] == out@[pos[x]]);
                    }
                    src = src.push(k as int);
                    pos = pos.push((out@.len() - 1) as int);
                    assert forall|i: int, x: int| #![trigger events@[x], out@[i]] 0 <= i < out@.len() && 0 <= x < src[i]
                        implies events@[x].date@ != out@[i]@ by {
                        if i < before.len() {
                            assert(out@[i] == before[i]);
                        }
                    }
                }
            },
        }
        k = k + 1;
    }
    assert forall|i: int| 0 <= i < out@.len() implies event_dates(events@).contains(#[trigger] out@[i]@) by {
        assert(event_dates(events@)[src[i]] == out@[i]@);
    }
    assert forall|x: int| 0 <= x < events@.len() implies string_views(out@).contains(#[trigger] events@[x].date@) by {
        assert(string_views(out@)[pos[x]] == events@[x].date@);
    }
    assert(first_appearances(events@, out@, src));
    out
}

/// Why no deletion window could be formed for a date.
#[derive(Clone, Copy, Debug)]
pub enum WindowError {
    /// The date does not parse as `YYYY-MM-DD`; chrono's reason is kept.
    InvalidDate(ParseError),
    /// The date is the last date chrono represents; the next day does not
    /// exist.
    OutOfRange,
}

/// The day window `[date, next day)` that `gcalcli delete` is given, both
/// ends formatted `YYYY-MM-DD`.
pub fn delete_window(date: &str) -> (res: Result<(String, String), WindowError>)
    ensures
        match iso_date(date@) {
            None => res matches Err(WindowError::InvalidDate(_)),
            Some((y, m, d)) => {
                let n = day_number(y as int, m as int, d as int) + 1;
                if in_date_range(n) {
                    let nd = date_of(n);
                    res matches Ok((a, b)) && a@ == strftime_date(y as int, m as int, d as int, "%Y-%m-%d"@)
                        && b@ == strftime_date(nd.0, nd.1, nd.2, "%Y-%m-%d"@)
                } else {
                    res matches Err(WindowError::OutOfRange)
                }
            },
        },
{
    proof {
        reveal_strlit("%Y-%m-%d");
    }
    match parse_iso_date(date) {
        Err(e) => Err(WindowError::InvalidDate(e)),
        Ok(d) => match add_days(d, 1) {
            None => Err(WindowError::OutOfRange),
            Some(next) => {
                proof {
                    lemma_date_of(next.year as int, next.month as int, next.day as int);
                }
                Ok((format_date(d, "%Y-%m-%d"), format_date(next, "%Y-%m-%d")))
            },
        },
    }
}

fn copy_row(r: &SearchRow) -> (c: SearchRow)
    ensures
        c == *r,
{
    SearchRow {
        id: r.id.clone(),
        datetime: r.datetime.clone(),
        title: r.title.clone(),
        description: r.description.clone(),
    }
}

// ---------------------------------------------------------------------------
// What the listings promise
// ---------------------------------------------------------------------------

/// Each row of an arrangement is one of the arranged rows, and its key is
/// that row's key; the keys never decrease along the arrangement.
pub proof fn lemma_arranged<T>(res: Seq<T>, rows: Seq<T>, keys: Seq<Seq<Seq<char>>>) -> (p: Seq<usize>)
    requires
        arranged(res, rows, keys),
        keys.len() == rows.len(),
    ensures
        p.len() == res.len(),
        res.len() == rows.len(),
        crate::order::is_permutation_of_positions(p, rows.len() as int),
        is_stable_order(keys, p),
        forall|k: int| 0 <= k < res.len() ==> #[trigger] p[k] < rows.len() && res[k] == rows[p[k] as int],
        forall|i: int, j: int| 0 <= i < j < res.len() ==> !key_lt(keys[#[trigger] p[j] as int], keys[#[trigger] p[i] as int]),
{
    choose|p: Seq<usize>| {
        &&& is_stable_order(keys, p)
        &&& res.len() == rows.len()
        &&& forall|k: int| 0 <= k < res.len() ==> #[trigger] res[k] == rows[p[k] as int]
    }
}

/// Every arranged row appears in the arrangement.
pub proof fn lemma_arranged_covers<T>(res: Seq<T>, rows: Seq<T>, keys: Seq<Seq<Seq<char>>>)
    requires
        arranged(res, rows, keys),
        keys.len() == rows.len(),
    ensures
        forall|c: int| 0 <= c < rows.len() ==> res.contains(#[trigger] rows[c]),
{
    let p = lemma_arranged(res, rows, keys);
    assert forall|c: int| 0 <= c < rows.len() implies res.contains(#[trigger] rows[c]) by {
        crate::order::lemma_permutation_covers(p, rows.len() as int, c);
        let k = choose|k: int| 0 <= k < rows.len() && p[k] as int == c;
        assert(res[k] == rows[p[k] as int]);
    }
}

// ---------------------------------------------------------------------------
// Arrangements and filters
// ---------------------------------------------------------------------------

/// How many elements before position `i` of `s` pass `pred`: the position
/// that element `i` (if it passes) takes in `s.filter(pred)`.
pub open spec fn kept_before<T>(s: Seq<T>, pred: spec_fn(T) -> bool, i: int) -> nat {
    s.take(i).filter(pred).len()
}

proof fn lemma_filter_step<T>(s: Seq<T>, pred: spec_fn(T) -> bool, i: int)
    requires
        0 <= i < s.len(),
    ensures
        s.take(i + 1).filter(pred) == (if pred(s[i]) {
            s.take(i).filter(pred).push(s[i])
        } else {
            s.take(i).filter(pred)
        }),
{
    reveal(Seq::filter);
    assert(s.take(i + 1).drop_last() =~= s.take(i));
    assert(s.take(i + 1).last() == s[i]);
}

proof fn lemma_filter_prefix<T>(s: Seq<T>, pred: spec_fn(T) -> bool, i: int, j: int)
    requires
        0 <= i <= j <= s.len(),
    ensures
        s.take(i).filter(pred).len() <= s.take(j).filter(pred).len(),
        forall|k: int| 0 <= k < s.take(i).filter(pred).len() ==> #[trigger] s.take(i).filter(pred)[k] == s.take(j).filter(pred)[k],
    decreases j - i,
{
    if i < j {
        lemma_filter_prefix(s, pred, i, j - 1);
        lemma_filter_step(s, pred, j - 1);
    }
}

/// An element that passes sits at position `kept_before` of the filtered
/// sequence.
proof fn lemma_filter_at<T>(s: Seq<T>, pred: spec_fn(T) -> bool, i: int)
    requires
        0 <= i < s.len(),
        pred(s[i]),
    ensures
        kept_before(s, pred, i) < s.filter(pred).len(),
        s.filter(pred)[kept_before(s, pred, i) as int] == s[i],
{
    lemma_filter_step(s, pred, i);
    lemma_filter_prefix(s, pred, i + 1, s.len() as int);
    assert(s.take(s.len() as int) =~= s);
    let k = kept_before(s, pred, i) as int;
    assert(s.take(i + 1).filter(pred)[k] == s[i]);
    assert(s.take(i + 1).filter(pred)[k] == s.take(s.len() as int).filter(pred)[k]);
}

/// Later passing elements take later positions.
proof fn lemma_filter_mono<T>(s: Seq<T>, pred: spec_fn(T) -> bool, i1: int, i2: int)
    requires
        0 <= i1 < i2 <= s.len(),
        pred(s[i1]),
    ensures
        kept_before(s, pred, i1) < kept_before(s, pred, i2),
{
    lemma_filter_step(s, pred, i1);
    lemma_filter_prefix(s, pred, i1 + 1, i2);
}

/// Position `j` of the filtered first `n` elements is taken by a passing
/// element.
pub open spec fn kept_at<T>(s: Seq<T>, pred: spec_fn(T) -> bool, n: int, j: int) -> bool {
    exists|i: int| 0 <= i < n && pred(s[i]) && #[trigger] kept_before(s, pred, i) == j
}

/// Every position of the filtered prefix is taken by a passing element.
proof fn lemma_filter_onto<T>(s: Seq<T>, pred: spec_fn(T) -> bool, n: int)
    requires
        0 <= n <= s.len(),
    ensures
        forall|j: int| 0 <= j < kept_before(s, pred, n) ==> #[trigger] kept_at(s, pred, n, j),
    decreases n,
{
    if n > 0 {
        lemma_filter_onto(s, pred, n - 1);
        lemma_filter_step(s, pred, n - 1);
        assert forall|j: int| 0 <= j < kept_before(s, pred, n) implies #[trigger] kept_at(s, pred, n, j) by {
            if j < kept_before(s, pred, n - 1) {
                assert(kept_at(s, pred, n - 1, j));
                let i = choose|i: int| 0 <= i < n - 1 && pred(s[i]) && #[trigger] kept_before(s, pred, i) == j;
                assert(0 <= i < n && pred(s[i]) && kept_before(s, pred, i) == j);
            } else {
                assert(pred(s[n - 1]) && kept_before(s, pred, n - 1) == j);
            }
        }
    }
}

/// The position in `s` of the `m`-th element that passes `pred`.
pub open spec fn kth_kept<T>(s: Seq<T>, pred: spec_fn(T) -> bool, m: int) -> int {
    choose|i: int| 0 <= i < s.len() && pred(s[i]) && kept_before(s, pred, i) == m
}

proof fn lemma_kth_kept<T>(s: Seq<T>, pred: spec_fn(T) -> bool, m: int)
    requires
        0 <= m < s.filter(pred).len(),
    ensures
        0 <= kth_kept(s, pred, m) < s.len(),
        pred(s[kth_kept(s, pred, m)]),
        kept_before(s, pred, kth_kept(s, pred, m)) == m,
        s.filter(pred)[m] == s[kth_kept(s, pred, m)],
{
    assert(s.take(s.len() as int) =~= s);
    lemma_filter_onto(s, pred, s.len() as int);
    assert(kept_at(s, pred, s.len() as int, m));
    let i = choose|i: int| 0 <= i < s.len() && pred(s[i]) && #[trigger] kept_before(s, pred, i) == m;
    assert(0 <= i < s.len() && pred(s[i]) && kept_before(s, pred, i) == m);
    lemma_filter_at(s, pred, kth_kept(s, pred, m));
}

/// Filtering an arrangement arranges the filtered rows: keep the rows
/// that pass, sort them stably, or sort all rows stably and keep those
/// that pass; the results agree.
pub proof fn lemma_filter_arranged<T>(res: Seq<T>, rows: Seq<T>, kf: spec_fn(T) -> Seq<Seq<char>>, pred: spec_fn(T) -> bool)
    requires
        arranged(res, rows, Seq::new(rows.len(), |k: int| kf(rows[k]))),
    ensures
        arranged(res.filter(pred), rows.filter(pred), Seq::new(rows.filter(pred).len(), |k: int| kf(rows.filter(pred)[k]))),
{
    let keys = Seq::new(rows.len(), |k: int| kf(rows[k]));
    let p = lemma_arranged(res, rows, keys);
    let n = rows.len() as int;
    let rf = res.filter(pred);
    let ff = rows.filter(pred);
    let fkeys = Seq::new(ff.len(), |k: int| kf(ff[k]));
    let ll = rf.len() as int;
    let mm = ff.len() as int;
    let q = Seq::new(ll as nat, |m: int| kept_before(rows, pred, p[kth_kept(res, pred, m)] as int) as usize);
    assert forall|m: int| 0 <= m < ll implies {
        let i = kth_kept(res, pred, m);
        &&& 0 <= i < n
        &&& pred(rows[p[i] as int])
        &&& (#[trigger] q[m]) < mm
        &&& ff[q[m] as int] == rows[p[i] as int]
        &&& rf[m] == ff[q[m] as int]
        &&& fkeys[q[m] as int] == keys[p[i] as int]
    } by {
        lemma_kth_kept(res, pred, m);
        let i = kth_kept(res, pred, m);
        assert(res[i] == rows[p[i] as int]);
        lemma_filter_at(rows, pred, p[i] as int);
    }
    // positions of different kept elements differ, in order
    assert forall|m1: int, m2: int| 0 <= m1 < m2 < ll implies
        kth_kept(res, pred, m1) < kth_kept(res, pred, m2) by {
        lemma_kth_kept(res, pred, m1);
        lemma_kth_kept(res, pred, m2);
        let i1 = kth_kept(res, pred, m1);
        let i2 = kth_kept(res, pred, m2);
        if i2 < i1 {
            lemma_filter_mono(res, pred, i2, i1);
        }
    }
    assert forall|m1: int, m2: int| 0 <= m1 < m2 < ll implies #[trigger] q[m1] != #[trigger] q[m2] by {
        lemma_kth_kept(res, pred, m1);
        lemma_kth_kept(res, pred, m2);
        let i1 = kth_kept(res, pred, m1);
        let i2 = kth_kept(res, pred, m2);
        assert(i1 < i2);
        assert(p[i1] != p[i2]);
        assert(res[i1] == rows[p[i1] as int]);
        assert(res[i2] == rows[p[i2] as int]);
        if p[i1] < p[i2] {
            lemma_filter_mono(rows, pred, p[i1] as int, p[i2] as int);
        } else {
            lemma_filter_mono(rows, pred, p[i2] as int, p[i1] as int);
        }
    }
    // as many kept in res as in rows
    let qs = q.map_values(|x: usize| x as int);
    assert(qs.no_duplicates()) by {
        assert forall|i: int, j: int| 0 <= i < qs.len() && 0 <= j < qs.len() && i != j implies qs[i] != qs[j] by {
            if i < j { assert(q[i] != q[j]); } else { assert(q[j] != q[i]); }
        }
    }
    qs.unique_seq_to_set();
    let range = vstd::set_lib::set_int_range(0, mm);
    vstd::set_lib::lemma_int_range(0, mm);
    assert(qs.to_set().subset_of(range)) by {
        assert forall|x: int| qs.to_set().contains(x) implies range.contains(x) by {
            let k = choose|k: int| 0 <= k < qs.len() && qs[k] == x;
            assert(q[k] < mm);
        }
    }
    vstd::set_lib::lemma_len_subset(qs.to_set(), range);
    assert(range.subset_of(qs.to_set())) by {
        assert(rows.take(n) =~= rows);
        lemma_filter_onto(rows, pred, n);
        assert forall|j: int| range.contains(j) implies qs.to_set().contains(j) by {
            assert(kept_at(rows, pred, n, j));
            let c = choose|c: int| 0 <= c < n && pred(rows[c]) && #[trigger] kept_before(rows, pred, c) == j;
            crate::order::lemma_permutation_covers(p, n, c);
            let k = choose|k: int| 0 <= k < n && p[k] as int == c;
            assert(res[k] == rows[c]);
            lemma_filter_at(res, pred, k);
            let m = kept_before(res, pred, k) as int;
            lemma_kth_kept(res, pred, m);
            let i = kth_kept(res, pred, m);
            if i < k {
                lemma_filter_mono(res, pred, i, k);
            } else if k < i {
                lemma_filter_mono(res, pred, k, i);
            }
            assert(i == k);
            assert(qs[m] == j);
        }
    }
    vstd::set_lib::lemma_len_subset(range, qs.to_set());
    assert(ll == mm);
    // q is a stable order of the filtered keys
    assert forall|m1: int, m2: int| 0 <= m1 < m2 < q.len() implies
        !key_lt(fkeys[q[m2] as int], fkeys[#[trigger] q[m1] as int])
        && (fkeys[q[m1] as int] == fkeys[#[trigger] q[m2] as int] ==> q[m1] < q[m2]) by {
        lemma_kth_kept(res, pred, m1);
        lemma_kth_kept(res, pred, m2);
        let i1 = kth_kept(res, pred, m1);
        let i2 = kth_kept(res, pred, m2);
        assert(i1 < i2);
        assert(!key_lt(keys[p[i2] as int], keys[p[i1] as int]));
        if keys[p[i1] as int] == keys[p[i2] as int] {
            assert(p[i1] < p[i2]);
            lemma_filter_mono(rows, pred, p[i1] as int, p[i2] as int);
        }
    }
    assert(is_stable_order(fkeys, q));
    assert(forall|k: int| 0 <= k < rf.len() ==> #[trigger] rf[k] == ff[q[k] as int]);
}

/// A stable order is unique: two of them for the same keys agree.
proof fn lemma_stable_order_unique(keys: Seq<Seq<Seq<char>>>, p1: Seq<usize>, p2: Seq<usize>, i: int)
    requires
        is_stable_order(keys, p1),
        is_stable_order(keys, p2),
        0 <= i <= keys.len(),
    ensures
        forall|k: int| 0 <= k < i ==> p1[k] == p2[k],
    decreases i,
{
    if i > 0 {
        lemma_stable_order_unique(keys, p1, p2, i - 1);
        let n = keys.len() as int;
        let t = i - 1;
        let x = p1[t];
        let y = p2[t];
        crate::order::lemma_permutation_covers(p2, n, x as int);
        crate::order::lemma_permutation_covers(p1, n, y as int);
        let jx = choose|k: int| 0 <= k < n && p2[k] as int == x as int;
        let jy = choose|k: int| 0 <= k < n && p1[k] as int == y as int;
        if jx < t {
            assert(p1[jx] == p2[jx]);
        }
        if jy < t {
            assert(p1[jy] == p2[jy]);
        }
        if x != y {
            assert(jx > t && jy > t);
            crate::order::lemma_key_lt_total(keys[x as int], keys[y as int]);
            assert(!key_lt(keys[p2[jx] as int], keys[p2[t] as int]));
            assert(!key_lt(keys[p1[jy] as int], keys[p1[t] as int]));
        }
    }
}

/// Two arrangements of the same rows by the same keys are the same.
pub proof fn lemma_arrangement_unique<T>(a: Seq<T>, b: Seq<T>, rows: Seq<T>, keys: Seq<Seq<Seq<char>>>)
    requires
        arranged(a, rows, keys),
        arranged(b, rows, keys),
        keys.len() == rows.len(),
    ensures
        a == b,
{
    let pa = lemma_arranged(a, rows, keys);
    let pb = lemma_arranged(b, rows, keys);
    lemma_stable_order_unique(keys, pa, pb, keys.len() as int);
    assert(a =~= b) by {
        assert forall|k: int| 0 <= k < a.len() implies a[k] == b[k] by {
            assert(pa[k] == pb[k]);
        }
    }
}

/// A one-component key orders as its text does.
proof fn lemma_single_key(a: Seq<char>, b: Seq<char>)
    requires
        !key_lt(seq![b], seq![a]),
    ensures
        !text_lt(b, a),
{
    crate::text::lemma_text_lt_irreflexive(a);
    if b != a {
        assert(seq![b][0] != seq![a][0]);
    }
}

/// Result `m` is made from a line of the table, with all its columns, some
/// field of which contains `query_lower`.
pub open spec fn from_matching_line(headers: Seq<Seq<char>>, rows: Seq<Seq<Seq<char>>>, query_lower: Seq<char>, m: RowModel) -> bool {
    exists|r: int| 0 <= r < rows.len() && line_kept(headers, rows[r], query_lower) && m == #[trigger] row_model(headers, rows[r])
}

proof fn lemma_search_candidates(headers: Seq<Seq<char>>, rows: Seq<Seq<Seq<char>>>, query_lower: Seq<char>, n: int)
    requires
        0 <= n <= rows.len(),
    ensures
        forall|k: int| 0 <= k < search_candidates(headers, rows, query_lower, n).len()
            ==> from_matching_line(headers, rows, query_lower, #[trigger] search_candidates(headers, rows, query_lower, n)[k]),
    decreases n,
{
    if n > 0 {
        lemma_search_candidates(headers, rows, query_lower, n - 1);
        let prev = search_candidates(headers, rows, query_lower, n - 1);
        let cur = search_candidates(headers, rows, query_lower, n);
        assert forall|k: int| 0 <= k < cur.len() implies from_matching_line(headers, rows, query_lower, #[trigger] cur[k]) by {
            if k < prev.len() {
                assert(cur[k] == prev[k]);
            } else {
                assert(cur[k] == row_model(headers, rows[n - 1]));
            }
        }
    }
}

proof fn lemma_search_candidates_complete(headers: Seq<Seq<char>>, rows: Seq<Seq<Seq<char>>>, query_lower: Seq<char>, n: int)
    requires
        0 <= n <= rows.len(),
    ensures
        forall|r: int| 0 <= r < n && line_kept(headers, rows[r], query_lower)
            ==> search_candidates(headers, rows, query_lower, n).contains(row_model(headers, #[trigger] rows[r])),
    decreases n,
{
    if n > 0 {
        lemma_search_candidates_complete(headers, rows, query_lower, n - 1);
        let prev = search_candidates(headers, rows, query_lower, n - 1);
        let cur = search_candidates(headers, rows, query_lower, n);
        assert forall|r: int| 0 <= r < n && line_kept(headers, rows[r], query_lower)
            implies cur.contains(row_model(headers, #[trigger] rows[r])) by {
            if r < n - 1 {
                let k = choose|k: int| 0 <= k < prev.len() && prev[k] == row_model(headers, rows[r]);
                assert(cur[k] == prev[k]);
            } else {
                assert(cur[prev.len() as int] == row_model(headers, rows[r]));
            }
        }
    }
}

/// The results of a search are in chronological order (by their start
/// text); each comes from a line of the listing, with all its columns,
/// some field of which contains the query, ignoring case; and every such
/// line gives a result.
pub proof fn search_results_are_sorted_matches(out: Seq<char>, query: Seq<char>, res: Seq<RowModel>)
    requires
        arranged(res, search_results(out, query), datetime_keys(search_results(out, query))),
    ensures
        forall|i: int, j: int| 0 <= i < j < res.len() ==> !text_lt((#[trigger] res[j]).1, (#[trigger] res[i]).1),
        forall|k: int| 0 <= k < res.len() ==> table_of(out) is Some && from_matching_line(
            table_of(out).unwrap().0, table_of(out).unwrap().1, unicode_lowercase(query), #[trigger] res[k]),
        match table_of(out) {
            Some((h, t)) => forall|r: int| 0 <= r < t.len() && line_kept(h, t[r], unicode_lowercase(query))
                ==> res.contains(row_model(h, #[trigger] t[r])),
            None => true,
        },
{
    let rows = search_results(out, query);
    let keys = datetime_keys(rows);
    let p = lemma_arranged(res, rows, keys);
    assert forall|i: int, j: int| 0 <= i < j < res.len() implies !text_lt((#[trigger] res[j]).1, (#[trigger] res[i]).1) by {
        assert(!key_lt(keys[p[j] as int], keys[p[i] as int]));
        lemma_single_key(res[i].1, res[j].1);
    }
    match table_of(out) {
        None => {},
        Some((h, t)) => {
            lemma_search_candidates(h, t, unicode_lowercase(query), t.len() as int);
            assert forall|k: int| 0 <= k < res.len() implies from_matching_line(h, t, unicode_lowercase(query), #[trigger] res[k]) by {
                assert(res[k] == rows[p[k] as int]);
            }
            lemma_search_candidates_complete(h, t, unicode_lowercase(query), t.len() as int);
            lemma_arranged_covers(res, rows, keys);
            assert forall|r: int| 0 <= r < t.len() && line_kept(h, t[r], unicode_lowercase(query))
                implies res.contains(row_model(h, #[trigger] t[r])) by {
                let c = choose|c: int| 0 <= c < rows.len() && rows[c] == row_model(h, t[r]);
                assert(res.contains(rows[c]));
            }
        },
    }
}

/// Project event `e` (start date, title) is that of a line of the table,
/// with all its columns, some field of which contains `query_lower`.
pub open spec fn event_from_matching_line(headers: Seq<Seq<char>>, rows: Seq<Seq<Seq<char>>>, query_lower: Seq<char>, e: (Seq<char>, Seq<char>)) -> bool {
    exists|r: int| 0 <= r < rows.len() && line_kept(headers, rows[r], query_lower)
        && e == (field_named(headers, #[trigger] rows[r], "start_date"@), field_named(headers, rows[r], "title"@))
}

proof fn lemma_project_candidates(headers: Seq<Seq<char>>, rows: Seq<Seq<Seq<char>>>, query_lower: Seq<char>, n: int)
    requires
        0 <= n <= rows.len(),
    ensures
        forall|k: int| 0 <= k < project_candidates(headers, rows, query_lower, n).len()
            ==> event_from_matching_line(headers, rows, query_lower, #[trigger] project_candidates(headers, rows, query_lower, n)[k]),
    decreases n,
{
    if n > 0 {
        lemma_project_candidates(headers, rows, query_lower, n - 1);
        let prev = project_candidates(headers, rows, query_lower, n - 1);
        let cur = project_candidates(headers, rows, query_lower, n);
        assert forall|k: int| 0 <= k < cur.len() implies event_from_matching_line(headers, rows, query_lower, #[trigger] cur[k]) by {
            if k < prev.len() {
                assert(cur[k] == prev[k]);
            } else {
                assert(cur[k] == (field_named(headers, rows[n - 1], "start_date"@), field_named(headers, rows[n - 1], "title"@)));
            }
        }
    }
}

proof fn lemma_project_candidates_complete(headers: Seq<Seq<char>>, rows: Seq<Seq<Seq<char>>>, query_lower: Seq<char>, n: int)
    requires
        0 <= n <= rows.len(),
    ensures
        forall|r: int| 0 <= r < n && line_kept(headers, rows[r], query_lower)
            ==> project_candidates(headers, rows, query_lower, n).contains(
                (field_named(headers, #[trigger] rows[r], "start_date"@), field_named(headers, rows[r], "title"@))),
    decreases n,
{
    if n > 0 {
        lemma_project_candidates_complete(headers, rows, query_lower, n - 1);
        let prev = project_candidates(headers, rows, query_lower, n - 1);
        let cur = project_candidates(headers, rows, query_lower, n);
        assert forall|r: int| 0 <= r < n && line_kept(headers, rows[r], query_lower)
            implies cur.contains((field_named(headers, #[trigger] rows[r], "start_date"@), field_named(headers, rows[r], "title"@))) by {
            let e = (field_named(headers, rows[r], "start_date"@), field_named(headers, rows[r], "title"@));
            if r < n - 1 {
                let k = choose|k: int| 0 <= k < prev.len() && prev[k] == e;
                assert(cur[k] == prev[k]);
            } else {
                assert(cur[prev.len() as int] == e);
            }
        }
    }
}

/// A project's events are listed in date order; each is the start date and
/// title of a line of the listing, with all its columns, some field of which
/// contains the project's tag `project-id: <id>`, ignoring case; and every
/// such line is listed.
pub proof fn project_events_are_sorted_matches(out: Seq<char>, project_id: Seq<char>, res: Seq<(Seq<char>, Seq<char>)>)
    requires
        arranged(res, project_results(out, project_id), date_keys(project_results(out, project_id))),
    ensures
        forall|i: int, j: int| 0 <= i < j < res.len() ==> !text_lt((#[trigger] res[j]).0, (#[trigger] res[i]).0),
        forall|k: int| 0 <= k < res.len() ==> table_of(out) is Some && event_from_matching_line(
            table_of(out).unwrap().0, table_of(out).unwrap().1, unicode_lowercase(project_query_text(project_id)),
            #[trigger] res[k]),
        match table_of(out) {
            Some((h, t)) => forall|r: int| 0 <= r < t.len() && line_kept(h, t[r], unicode_lowercase(project_query_text(project_id)))
                ==> res.contains((field_named(h, #[trigger] t[r], "start_date"@), field_named(h, t[r], "title"@))),
            None => true,
        },
{
    let rows = project_results(out, project_id);
    let keys = date_keys(rows);
    let p = lemma_arranged(res, rows, keys);
    assert forall|i: int, j: int| 0 <= i < j < res.len() implies !text_lt((#[trigger] res[j]).0, (#[trigger] res[i]).0) by {
        assert(!key_lt(keys[p[j] as int], keys[p[i] as int]));
        lemma_single_key(res[i].0, res[j].0);
    }
    match table_of(out) {
        None => {},
        Some((h, t)) => {
            let ql = unicode_lowercase(project_query_text(project_id));
            lemma_project_candidates(h, t, ql, t.len() as int);
            assert forall|k: int| 0 <= k < res.len() implies event_from_matching_line(h, t, ql, #[trigger] res[k]) by {
                assert(res[k] == rows[p[k] as int]);
            }
            lemma_project_candidates_complete(h, t, ql, t.len() as int);
            lemma_arranged_covers(res, rows, keys);
            assert forall|r: int| 0 <= r < t.len() && line_kept(h, t[r], ql)
                implies res.contains((field_named(h, #[trigger] t[r], "start_date"@), field_named(h, t[r], "title"@))) by {
                let e = (field_named(h, t[r], "start_date"@), field_named(h, t[r], "title"@));
                let c = choose|c: int| 0 <= c < rows.len() && rows[c] == e;
                assert(res.contains(rows[c]));
            }
        },
    }
}

// ---------------------------------------------------------------------------
// Columns by name
// ---------------------------------------------------------------------------

/// `v` is what line `f` holds in the column headed `name`: the field under
/// the first such header, or the empty text when no header is `name`.
pub open spec fn column_is(headers: Seq<Seq<char>>, f: Seq<Seq<char>>, name: Seq<char>, v: Seq<char>) -> bool {
    ||| exists|c: int| {
        &&& 0 <= c < headers.len()
        &&& c < f.len()
        &&& #[trigger] headers[c] == name
        &&& (forall|d: int| 0 <= d < c ==> #[trigger] headers[d] != name)
        &&& v == f[c]
    }
    ||| (forall|c: int| 0 <= c < headers.len() ==> #[trigger] headers[c] != name) && v.len() == 0
}

proof fn lemma_header_pos(headers: Seq<Seq<char>>, name: Seq<char>)
    ensures
        match header_pos(headers, name) {
            Some(c) => 0 <= c < headers.len() && headers[c] == name
                && forall|d: int| 0 <= d < c ==> #[trigger] headers[d] != name,
            None => forall|c: int| 0 <= c < headers.len() ==> #[trigger] headers[c] != name,
        },
    decreases headers.len(),
{
    if headers.len() > 0 && headers[0] != name {
        let t = headers.drop_first();
        lemma_header_pos(t, name);
        assert forall|d: int| 0 < d < headers.len() implies headers[d] == t[d - 1] by {}
    }
}

/// The field looked up by name is the field of the first column with that
/// header.
pub proof fn lemma_field_named_column(headers: Seq<Seq<char>>, f: Seq<Seq<char>>, name: Seq<char>)
    requires
        f.len() >= headers.len(),
    ensures
        column_is(headers, f, name, field_named(headers, f, name)),
{
    lemma_header_pos(headers, name);
    match header_pos(headers, name) {
        Some(c) => {
            assert(headers[c] == name);
        },
        None => {},
    }
}

/// Result `m` (id, start, title, description) is made of the columns of
/// line `f` headed `id`, `start_date` and `start_time` (joined by a space),
/// `title` and `description`.
pub open spec fn row_from_columns(headers: Seq<Seq<char>>, f: Seq<Seq<char>>, m: RowModel) -> bool {
    &&& column_is(headers, f, "id"@, m.0)
    &&& column_is(headers, f, "title"@, m.2)
    &&& column_is(headers, f, "description"@, m.3)
    &&& exists|d: Seq<char>, t: Seq<char>| {
        &&& column_is(headers, f, "start_date"@, d)
        &&& column_is(headers, f, "start_time"@, t)
        &&& m.1 == d + " "@ + t
    }
}

/// Result `m` is built from the columns of a line of the table that has
/// all its columns and some field of which contains `query_lower`.
pub open spec fn built_from_a_line(headers: Seq<Seq<char>>, rows: Seq<Seq<Seq<char>>>, query_lower: Seq<char>, m: RowModel) -> bool {
    exists|r: int| 0 <= r < rows.len() && line_kept(headers, rows[r], query_lower)
        && row_from_columns(headers, #[trigger] rows[r], m)
}

/// Each search result is built from the columns of its line: its ID, start
/// (`start_date start_time`), title and description are the fields under
/// the headers `id`, `start_date`, `start_time`, `title` and `description`
/// (empty where the listing has no such column).
pub proof fn search_results_carry_their_columns(out: Seq<char>, query: Seq<char>, res: Seq<RowModel>)
    requires
        arranged(res, search_results(out, query), datetime_keys(search_results(out, query))),
    ensures
        forall|k: int| 0 <= k < res.len() ==> table_of(out) is Some && built_from_a_line(
            table_of(out).unwrap().0, table_of(out).unwrap().1, unicode_lowercase(query), #[trigger] res[k]),
{
    search_results_are_sorted_matches(out, query, res);
    assert forall|k: int| 0 <= k < res.len() implies table_of(out) is Some && built_from_a_line(
        table_of(out).unwrap().0, table_of(out).unwrap().1, unicode_lowercase(query), #[trigger] res[k]) by {
        let h = table_of(out).unwrap().0;
        let t = table_of(out).unwrap().1;
        let ql = unicode_lowercase(query);
        assert(from_matching_line(h, t, ql, res[k]));
        let r = choose|r: int| 0 <= r < t.len() && line_kept(h, t[r], ql) && res[k] == #[trigger] row_model(h, t[r]);
        let f = t[r];
        lemma_field_named_column(h, f, "id"@);
        lemma_field_named_column(h, f, "title"@);
        lemma_field_named_column(h, f, "description"@);
        lemma_field_named_column(h, f, "start_date"@);
        lemma_field_named_column(h, f, "start_time"@);
        let d = field_named(h, f, "start_date"@);
        let tm = field_named(h, f, "start_time"@);
        assert(column_is(h, f, "start_date"@, d) && column_is(h, f, "start_time"@, tm) && res[k].1 == d + " "@ + tm);
        assert(row_from_columns(h, f, res[k]));
    }
}

/// Project event `e` (start date, title) is made of the `start_date` and
/// `title` columns of a line that has all its columns and some field of
/// which contains `query_lower`.
pub open spec fn project_event_from_a_line(headers: Seq<Seq<char>>, rows: Seq<Seq<Seq<char>>>, query_lower: Seq<char>, e: (Seq<char>, Seq<char>)) -> bool {
    exists|r: int| 0 <= r < rows.len() && line_kept(headers, rows[r], query_lower)
        && column_is(headers, #[trigger] rows[r], "start_date"@, e.0) && column_is(headers, rows[r], "title"@, e.1)
}

/// Each listed project event is the start date and title, by column name,
/// of a line of the listing that carries the project's tag.
pub proof fn project_events_carry_their_columns(out: Seq<char>, project_id: Seq<char>, res: Seq<(Seq<char>, Seq<char>)>)
    requires
        arranged(res, project_results(out, project_id), date_keys(project_results(out, project_id))),
    ensures
        forall|k: int| 0 <= k < res.len() ==> table_of(out) is Some && project_event_from_a_line(
            table_of(out).unwrap().0, table_of(out).unwrap().1, unicode_lowercase(project_query_text(project_id)),
            #[trigger] res[k]),
{
    project_events_are_sorted_matches(out, project_id, res);
    assert forall|k: int| 0 <= k < res.len() implies table_of(out) is Some && project_event_from_a_line(
        table_of(out).unwrap().0, table_of(out).unwrap().1, unicode_lowercase(project_query_text(project_id)),
        #[trigger] res[k]) by {
        let h = table_of(out).unwrap().0;
        let t = table_of(out).unwrap().1;
        let ql = unicode_lowercase(project_query_text(project_id));
        assert(event_from_matching_line(h, t, ql, res[k]));
        let r = choose|r: int| 0 <= r < t.len() && line_kept(h, t[r], ql)
            && res[k] == (field_named(h, #[trigger] t[r], "start_date"@), field_named(h, t[r], "title"@));
        lemma_field_named_column(h, t[r], "start_date"@);
        lemma_field_named_column(h, t[r], "title"@);
    }
}

/// The content of a quoted CSV field: `""` stands for a double quote;
/// `None` when a quote stands alone.
pub open spec fn csv_undouble(x: Seq<char>) -> Option<Seq<char>>
    decreases x.len(),
{
    if x.len() == 0 {
        Some(Seq::empty())
    } else if x[0] == '"' {
        if x.len() >= 2 && x[1] == '"' {
            match csv_undouble(x.skip(2)) {
                Some(r) => Some(seq!['"'] + r),
                None => None,
            }
        } else {
            None
        }
    } else {
        match csv_undouble(x.skip(1)) {
            Some(r) => Some(seq![x[0]] + r),
            None => None,
        }
    }
}

/// Reads a CSV field back: a field in double quotes holds its content with
/// doubled quotes; an unquoted field must hold no comma, quote or line
/// break and is itself.
pub open spec fn csv_read_field(v: Seq<char>) -> Option<Seq<char>> {
    if v.len() >= 2 && v[0] == '"' && v.last() == '"' {
        csv_undouble(v.subrange(1, v.len() - 1))
    } else if v.contains(',') || v.contains('"') || v.contains('\n') {
        None
    } else {
        Some(v)
    }
}

proof fn lemma_double_quotes_concat(a: Seq<char>, b: Seq<char>)
    ensures
        double_quotes(a + b) == double_quotes(a) + double_quotes(b),
    decreases b.len(),
{
    if b.len() == 0 {
        assert(a + b =~= a);
        assert(double_quotes(a) + double_quotes(b) =~= double_quotes(a));
    } else {
        lemma_double_quotes_concat(a, b.drop_last());
        assert((a + b).drop_last() =~= a + b.drop_last());
        assert((a + b).last() == b.last());
        let t = if b.last() == '"' { seq!['"', '"'] } else { seq![b.last()] };
        assert(double_quotes(a) + double_quotes(b) =~= double_quotes(a) + double_quotes(b.drop_last()) + t);
    }
}

proof fn lemma_undouble(s: Seq<char>)
    ensures
        csv_undouble(double_quotes(s)) == Some(s),
    decreases s.len(),
{
    if s.len() > 0 {
        let c = s[0];
        let rest = s.drop_first();
        lemma_undouble(rest);
        assert(s =~= seq![c] + rest);
        lemma_double_quotes_concat(seq![c], rest);
        assert(seq![c].drop_last() =~= Seq::<char>::empty());
        assert(seq![c].last() == c);
        assert(double_quotes(Seq::<char>::empty()) =~= Seq::<char>::empty());
        let d = if c == '"' { seq!['"', '"'] } else { seq![c] };
        assert(double_quotes(seq![c]) =~= d);
        let v = d + double_quotes(rest);
        assert(double_quotes(s) == v);
        if c == '"' {
            assert(v.skip(2) =~= double_quotes(rest));
        } else {
            assert(v.skip(1) =~= double_quotes(rest));
        }
        assert(seq![c] + rest =~= s);
    }
}

/// A field quoted for CSV reads back as the text it came from.
pub proof fn csv_fields_read_back(s: Seq<char>)
    ensures
        csv_read_field(csv_text(s)) == Some(s),
{
    if csv_needs_quotes(s) {
        let v = seq!['"'] + double_quotes(s) + seq!['"'];
        assert(v.subrange(1, v.len() - 1) =~= double_quotes(s));
        lemma_undouble(s);
    }
}

/// A TSV result line is the ID, start, title and the description's first
/// 50 characters (all of it when shorter), separated by tabs.
pub proof fn tsv_lines_cut_descriptions(r: RowModel, line: Seq<char>)
    requires
        line == search_line_text(r, OutputFormat::Tsv),
    ensures
        line == r.0 + seq!['\t'] + r.1 + seq!['\t'] + r.2 + seq!['\t']
            + r.3.take(if r.3.len() < 50 { r.3.len() as int } else { 50 }),
{
    assert("\t"@ =~= seq!['\t']) by {
        reveal_strlit("\t");
    }
    if r.3.len() <= 50 {
        assert(r.3.take(r.3.len() as int) =~= r.3);
    }
}

/// A CSV result line is the four fields of the TSV line, each quoted for
/// CSV where needed, separated by commas; each reads back as its field.
pub proof fn csv_lines_quote_fields(r: RowModel, line: Seq<char>)
    requires
        line == search_line_text(r, OutputFormat::Csv),
    ensures
        ({
            let d = r.3.take(if r.3.len() < 50 { r.3.len() as int } else { 50 });
            &&& line == csv_text(r.0) + seq![','] + csv_text(r.1) + seq![','] + csv_text(r.2) + seq![','] + csv_text(d)
            &&& csv_read_field(csv_text(r.0)) == Some(r.0)
            &&& csv_read_field(csv_text(d)) == Some(d)
        }),
{
    assert(","@ =~= seq![',']) by {
        reveal_strlit(",");
    }
    if r.3.len() <= 50 {
        assert(r.3.take(r.3.len() as int) =~= r.3);
    }
    csv_fields_read_back(r.0);
    csv_fields_read_back(r.3.take(if r.3.len() < 50 { r.3.len() as int } else { 50 }));
}

} // verus!
