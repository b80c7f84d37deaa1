//! Project plans: milestones that become calendar events tagged with a
//! project ID, and the small text rules the plan tool applies (time zone
//! normalisation, attendee lines, iCalendar escaping, project resolution
//! and the count of events gcalcli reports as added).

use vstd::prelude::*;
use rand::RngCore;
use crate::text::{
    chars_to_string, has_prefix, is_ascii_digit, is_whitespace, push_str, slice_chars,
    starts_with, to_chars, trim, trim_chars, unicode_white_space, digit_value, extend,
    lines, split_lines,
};

verus! {

// ---------------------------------------------------------------------------
// The plan
// ---------------------------------------------------------------------------

/// The `[project]` table of a plan file.
#[derive(Clone, Debug)]
pub struct Project {
    pub id: Option<String>,
    pub name: String,
    pub url: String,
    pub calendar: String,
    pub timezone: Option<String>,
}

/// One `[[milestones]]` entry of a plan file.
#[derive(Clone, Debug)]
pub struct Milestone {
    pub title: String,
    pub date: String,
    pub time: Option<String>,
    pub duration_mins: Option<u32>,
    pub description: Option<String>,
    pub attendees: Option<Vec<String>>,
    pub timezone: Option<String>,
}

/// A plan file: the project and its milestones.
#[derive(Clone, Debug)]
pub struct Plan {
    pub project: Project,
    pub milestones: Vec<Milestone>,
}

/// The view of an optional string.
pub open spec fn opt_view(s: Option<String>) -> Option<Seq<char>> {
    match s {
        Some(t) => Some(t@),
        None => None,
    }
}

// ---------------------------------------------------------------------------
// Time zones
// ---------------------------------------------------------------------------

/// `s` equals `"utc"` ignoring ASCII case (`eq_ignore_ascii_case`).
pub open spec fn is_utc(s: Seq<char>) -> bool {
    &&& s.len() == 3
    &&& (s[0] == 'u' || s[0] == 'U')
    &&& (s[1] == 't' || s[1] == 'T')
    &&& (s[2] == 'c' || s[2] == 'C')
}

/// The ASCII digits of `s`, in order.
pub open spec fn ascii_digits(s: Seq<char>) -> Seq<char>
    decreases s.len(),
{
    if s.len() == 0 {
        Seq::empty()
    } else if is_ascii_digit(s.last()) {
        ascii_digits(s.drop_last()).push(s.last())
    } else {
        ascii_digits(s.drop_last())
    }
}

/// The normalised time zone: `"Z"` for UTC (any ASCII case); for a UTC
/// offset, its sign followed by its digits (a two-digit hour gains
/// `"00"`, so `-06`, `-0600` and `-06:00` all become `-0600`); otherwise
/// the trimmed name (an IANA zone).
pub open spec fn tz_text(raw: Seq<char>) -> Seq<char> {
    let s = trim(raw);
    if is_utc(s) {
        seq!['Z']
    } else if s.len() > 0 && (s[0] == '+' || s[0] == '-') {
        let d = ascii_digits(s.drop_first());
        seq![s[0]] + (if d.len() == 2 { d + seq!['0', '0'] } else { d })
    } else {
        s
    }
}

fn is_ascii_digit_exec(c: char) -> (res: bool)
    ensures
        res == is_ascii_digit(c),
{
    '0' <= c && c <= '9'
}

/// Normalises a time zone as the plan file accepts it: `UTC` (any case)
/// becomes `"Z"`; a UTC offset (`-0600`, `-06:00`, `-06`) becomes its sign
/// and four digits; anything else (an IANA name) is returned trimmed.
pub fn parse_tz(s: &str) -> (res: String)
    ensures
        res@ == tz_text(s@),
{
    let raw = to_chars(s);
    let t = trim_chars(&raw);
    let utc = t.len() == 3 && (t[0] == 'u' || t[0] == 'U') && (t[1] == 't' || t[1] == 'T')
        && (t[2] == 'c' || t[2] == 'C');
    if utc {
        let mut z: Vec<char> = Vec::new();
        z.push('Z');
        return chars_to_string(&z);
    }
    if t.len() > 0 && (t[0] == '+' || t[0] == '-') {
        let mut digits: Vec<char> = Vec::new();
        let mut i: usize = 1;
        while i < t.len()
            invariant
                1 <= i <= t.len(),
                t@.len() > 0,
                digits@ == ascii_digits(t@.subrange(1, i as int)),
            decreases t.len() - i,
        {
            assert(t@.subrange(1, i + 1).drop_last() =~= t@.subrange(1, i as int));
            if is_ascii_digit_exec(t[i]) {
                digits.push(t[i]);
            }
            i = i + 1;
        }
        assert(t@.subrange(1, t@.len() as int) =~= t@.drop_first());
        let mut out: Vec<char> = Vec::new();
        out.push(t[0]);
        let two = digits.len() == 2;
        extend(&mut out, &digits);
        if two {
            out.push('0');
            out.push('0');
        }
        proof {
            let d = ascii_digits(t@.drop_first());
            if two {
                assert(out@ =~= seq![t@[0]] + (d + seq!['0', '0']));
            } else {
                assert(out@ =~= seq![t@[0]] + d);
            }
        }
        return chars_to_string(&out);
    }
    chars_to_string(&t)
}

// ---------------------------------------------------------------------------
// Attendees and escaping
// ---------------------------------------------------------------------------

/// The position of the first `c` in `s`, if any.
pub open spec fn find_char(s: Seq<char>, c: char) -> Option<int>
    decreases s.len(),
{
    if s.len() == 0 {
        None
    } else if s[0] == c {
        Some(0)
    } else {
        match find_char(s.drop_first(), c) {
            Some(i) => Some(i + 1),
            None => None,
        }
    }
}

pub(crate) proof fn lemma_find_char(s: Seq<char>, c: char)
    ensures
        match find_char(s, c) {
            Some(i) => 0 <= i < s.len() && s[i] == c && forall|j: int| 0 <= j < i ==> s[j] != c,
            None => forall|j: int| 0 <= j < s.len() ==> s[j] != c,
        },
    decreases s.len(),
{
    if s.len() > 0 {
        lemma_find_char(s.drop_first(), c);
        if s[0] != c {
            assert forall|j: int| 0 < j < s.len() implies s[j] == s.drop_first()[j - 1] by {}
        }
    }
}

pub(crate) fn find_char_exec(s: &Vec<char>, c: char) -> (res: Option<usize>)
    ensures
        match res {
            Some(i) => find_char(s@, c) == Some(i as int),
            None => find_char(s@, c) is None,
        },
{
    let mut i: usize = 0;
    while i < s.len()
        invariant
            i <= s.len(),
            forall|j: int| 0 <= j < i ==> s@[j] != c,
        decreases s.len() - i,
    {
        if s[i] == c {
            proof {
                lemma_find_char(s@, c);
                match find_char(s@, c) {
                    Some(k) => {
                        if k < i { } else if k > i { assert(s@[i as int] == c); }
                    },
                    None => { assert(s@[i as int] == c); },
                }
            }
            return Some(i);
        }
        i = i + 1;
    }
    proof {
        lemma_find_char(s@, c);
    }
    None
}

/// The attendee line for an entry `"Name <email>"` (name and email
/// trimmed) or a bare `"email"` (trimmed).
pub open spec fn attendee_text(s: Seq<char>) -> Seq<char> {
    if s.len() > 0 && s.last() == '>' && find_char(s.drop_last(), '<') is Some {
        let rest = s.drop_last();
        let k = find_char(rest, '<')->0;
        "ATTENDEE;CN="@ + trim(rest.subrange(0, k)) + ":mailto:"@ + trim(rest.subrange(k + 1, rest.len() as int))
    } else {
        "ATTENDEE:mailto:"@ + trim(s)
    }
}

/// Builds the iCalendar `ATTENDEE` line for `"Name <email>"` or a bare
/// `"email"`.
pub fn ics_attendee(s: &str) -> (res: String)
    ensures
        res@ == attendee_text(s@),
{
    let v = to_chars(s);
    if v.len() > 0 && v[v.len() - 1] == '>' {
        let rest = slice_chars(&v, 0, v.len() - 1);
        assert(rest@ =~= v@.drop_last());
        match find_char_exec(&rest, '<') {
            Some(k) => {
                proof {
                    lemma_find_char(rest@, '<');
                }
                let name = trim_chars(&slice_chars(&rest, 0, k));
                let email = trim_chars(&slice_chars(&rest, k + 1, rest.len()));
                let mut out: Vec<char> = Vec::new();
                push_str(&mut out, "ATTENDEE;CN=");
                extend(&mut out, &name);
                push_str(&mut out, ":mailto:");
                extend(&mut out, &email);
                return chars_to_string(&out);
            },
            None => {},
        }
    }
    let mut out: Vec<char> = Vec::new();
    push_str(&mut out, "ATTENDEE:mailto:");
    extend(&mut out, &trim_chars(&v));
    chars_to_string(&out)
}

/// How iCalendar text escapes one character.
pub open spec fn ics_escape_char(c: char) -> Seq<char> {
    if c == '\\' {
        seq!['\\', '\\']
    } else if c == ';' {
        seq!['\\', ';']
    } else if c == ',' {
        seq!['\\', ',']
    } else if c == '\n' {
        seq!['\\', 'n']
    } else {
        seq![c]
    }
}

/// `s` with backslash, semicolon, comma and newline escaped for an
/// iCalendar text value.
pub open spec fn ics_escape_text(s: Seq<char>) -> Seq<char>
    decreases s.len(),
{
    if s.len() == 0 {
        Seq::empty()
    } else {
        ics_escape_text(s.drop_last()) + ics_escape_char(s.last())
    }
}

/// Escapes text for an iCalendar value: `\` becomes `\\`, `;` becomes
/// `\;`, `,` becomes `\,` and a newline becomes `\n`.
pub fn ics_escape(s: &str) -> (res: String)
    ensures
        res@ == ics_escape_text(s@),
{
    let v = to_chars(s);
    let out = escape_chars(&v);
    chars_to_string(&out)
}

/// The escaped form of `v` (see `ics_escape`).
pub fn escape_chars(v: &Vec<char>) -> (out: Vec<char>)
    ensures
        out@ == ics_escape_text(v@),
{
    let mut out: Vec<char> = Vec::new();
    let mut i: usize = 0;
    while i < v.len()
        invariant
            i <= v.len(),
            out@ == ics_escape_text(v@.take(i as int)),
        decreases v.len() - i,
    {
        let c = v[i];
        assert(v@.take(i + 1).drop_last() =~= v@.take(i as int));
        let ghost before = out@;
        if c == '\\' {
            out.push('\\');
            out.push('\\');
        } else if c == ';' {
            out.push('\\');
            out.push(';');
        } else if c == ',' {
            out.push('\\');
            out.push(',');
        } else if c == '\n' {
            out.push('\\');
            out.push('n');
        } else {
            out.push(c);
        }
        assert(out@ =~= before + ics_escape_char(c));
        i = i + 1;
    }
    assert(v@.take(v.len() as int) =~= v@);
    out
}

// ---------------------------------------------------------------------------
// gcalcli's import report
// ---------------------------------------------------------------------------

/// `s` without leading whitespace, counting how many characters go.
pub open spec fn leading_ws(s: Seq<char>) -> nat
    decreases s.len(),
{
    if s.len() > 0 && unicode_white_space(s[0]) { 1 + leading_ws(s.drop_first()) } else { 0 }
}

/// The length of the run of non-whitespace characters that starts `s`.
pub open spec fn word_len(s: Seq<char>) -> nat
    decreases s.len(),
{
    if s.len() > 0 && !unicode_white_space(s[0]) { 1 + word_len(s.drop_first()) } else { 0 }
}

/// The first whitespace-separated word of `s`, if it has one
/// (`split_whitespace().next()`).
pub open spec fn first_word(s: Seq<char>) -> Option<Seq<char>> {
    let t = s.skip(leading_ws(s) as int);
    if t.len() == 0 { None } else { Some(t.take(word_len(t) as int)) }
}

/// The value of a string of ASCII digits.
pub open spec fn digits_value(d: Seq<char>) -> nat
    decreases d.len(),
{
    if d.len() == 0 {
        0
    } else {
        10 * digits_value(d.drop_last()) + match digit_value(d.last()) { Some(v) => v, None => 0 }
    }
}

/// All characters of `d` are ASCII digits.
pub open spec fn all_digits(d: Seq<char>) -> bool {
    forall|i: int| 0 <= i < d.len() ==> is_ascii_digit(#[trigger] d[i])
}

/// How `usize::from_str` reads `w`: an optional `+`, then one or more
/// ASCII digits whose value fits in a `usize`.
pub open spec fn parse_usize_text(w: Seq<char>) -> Option<nat> {
    let d = if w.len() > 0 && w[0] == '+' { w.drop_first() } else { w };
    if d.len() > 0 && all_digits(d) && digits_value(d) <= usize::MAX {
        Some(digits_value(d))
    } else {
        None
    }
}

/// The count a line reports: a line starting `"Added "` whose next word
/// is a number.
pub open spec fn added_in_line(line: Seq<char>) -> Option<nat> {
    if has_prefix(line, "Added "@) {
        match first_word(line.skip(6)) {
            Some(w) => parse_usize_text(w),
            None => None,
        }
    } else {
        None
    }
}

/// The count of the first line that reports one, else 0.
pub open spec fn first_added(ls: Seq<Seq<char>>) -> nat
    decreases ls.len(),
{
    if ls.len() == 0 {
        0
    } else {
        match added_in_line(ls[0]) {
            Some(n) => n,
            None => first_added(ls.drop_first()),
        }
    }
}

fn skip_ws(s: &Vec<char>, from: usize) -> (res: usize)
    requires
        from <= s.len(),
    ensures
        from <= res <= s.len(),
        res - from == leading_ws(s@.skip(from as int)),
    decreases s.len() - from,
{
    if from < s.len() && is_whitespace(s[from]) {
        assert(s@.skip(from as int).drop_first() =~= s@.skip(from + 1));
        skip_ws(s, from + 1)
    } else {
        from
    }
}

fn word_end(s: &Vec<char>, from: usize) -> (res: usize)
    requires
        from <= s.len(),
    ensures
        from <= res <= s.len(),
        res - from == word_len(s@.skip(from as int)),
    decreases s.len() - from,
{
    if from < s.len() && !is_whitespace(s[from]) {
        assert(s@.skip(from as int).drop_first() =~= s@.skip(from + 1));
        word_end(s, from + 1)
    } else {
        from
    }
}

/// Reads a `usize` as `str::parse` does.
pub fn parse_usize(w: &Vec<char>) -> (res: Option<usize>)
    ensures
        match res {
            Some(n) => parse_usize_text(w@) == Some(n as nat),
            None => parse_usize_text(w@) is None,
        },
{
    let start: usize = if w.len() > 0 && w[0] == '+' { 1 } else { 0 };
    let ghost d = if w@.len() > 0 && w@[0] == '+' { w@.drop_first() } else { w@ };
    assert(d =~= w@.subrange(start as int, w@.len() as int));
    assert(parse_usize_text(w@) == (if d.len() > 0 && all_digits(d) && digits_value(d) <= usize::MAX {
        Some(digits_value(d))
    } else {
        None::<nat>
    }));
    if start >= w.len() {
        return None;
    }
    let mut value: usize = 0;
    let mut i: usize = start;
    while i < w.len()
        invariant
            start <= i <= w.len(),
            d =~= w@.subrange(start as int, w@.len() as int),
            parse_usize_text(w@) == (if d.len() > 0 && all_digits(d) && digits_value(d) <= usize::MAX {
                Some(digits_value(d))
            } else {
                None::<nat>
            }),
            all_digits(w@.subrange(start as int, i as int)),
            value == digits_value(w@.subrange(start as int, i as int)),
        decreases w.len() - i,
    {
        let c = w[i];
        let ghost pre = w@.subrange(start as int, i as int);
        let ghost next = w@.subrange(start as int, i + 1);
        assert(next.drop_last() =~= pre);
        if !is_ascii_digit_exec(c) {
            assert(d[i - start] == c);
            assert(!all_digits(d));
            assert(parse_usize_text(w@) is None);
            return None;
        }
        let dv: usize = if c == '0' { 0 } else if c == '1' { 1 } else if c == '2' { 2 }
            else if c == '3' { 3 } else if c == '4' { 4 } else if c == '5' { 5 }
            else if c == '6' { 6 } else if c == '7' { 7 } else if c == '8' { 8 } else { 9 };
        assert(digit_value(c) == Some(dv as nat));
        assert(next.last() == c);
        assert(digits_value(next) == 10 * value + dv);
        assert(d.take(i + 1 - start) =~= next);
        match value.checked_mul(10) {
            Some(t) => {
                match t.checked_add(dv) {
                    Some(u) => { value = u; },
                    None => {
                        proof { lemma_digits_value_grows(d, i + 1 - start); }
                        assert(parse_usize_text(w@) is None);
                        return None;
                    },
                }
            },
            None => {
                proof { lemma_digits_value_grows(d, i + 1 - start); }
                assert(parse_usize_text(w@) is None);
                return None;
            },
        }
        i = i + 1;
    }
    assert(w@.subrange(start as int, w@.len() as int) =~= d);
    Some(value)
}

/// The value of a digit string is at least the value of each prefix.
proof fn lemma_digits_value_grows(d: Seq<char>, k: int)
    requires
        0 <= k <= d.len(),
    ensures
        digits_value(d.take(k)) <= digits_value(d),
    decreases d.len() - k,
{
    if k < d.len() {
        lemma_digits_value_grows(d, k + 1);
        assert(d.take(k + 1).drop_last() =~= d.take(k));
    } else {
        assert(d.take(k) =~= d);
    }
}

/// The count reported by one line, if it reports one.
fn added_in(line: &Vec<char>, prefix: &Vec<char>) -> (res: Option<usize>)
    requires
        prefix@ == "Added "@,
        prefix@.len() == 6,
    ensures
        match res {
            Some(n) => added_in_line(line@) == Some(n as nat),
            None => added_in_line(line@) is None,
        },
{
    if !starts_with(line, prefix) {
        return None;
    }
    let after = slice_chars(line, 6, line.len());
    assert(after@ =~= line@.skip(6));
    let b = skip_ws(&after, 0);
    assert(after@.skip(0) =~= after@);
    if b >= after.len() {
        assert(after@.skip(b as int).len() == 0);
        return None;
    }
    let e = word_end(&after, b);
    let word = slice_chars(&after, b, e);
    assert(word@ =~= after@.skip(b as int).take((e - b) as int));
    assert(first_word(after@) == Some(word@));
    parse_usize(&word)
}

/// The number gcalcli reports on its first `"Added N ..."` line, or 0 if
/// no line reports one.
pub fn parse_added_count(output: &str) -> (res: usize)
    ensures
        res == first_added(lines(output@)),
{
    let text = to_chars(output);
    let ls = split_lines(&text);
    let prefix = to_chars("Added ");
    proof {
        reveal_strlit("Added ");
    }
    let ghost all = lines(output@);
    assert(all == lines(output@));
    assert(all.skip(0) =~= all);
    let mut k: usize = 0;
    while k < ls.len()
        invariant
            ls@.len() == all.len(),
            forall|j: int| 0 <= j < ls@.len() ==> #[trigger] ls@[j]@ == all[j],
            prefix@ == "Added "@,
            prefix@.len() == 6,
            all == lines(output@),
            k <= ls.len(),
            first_added(all) == first_added(all.skip(k as int)),
        decreases ls.len() - k,
    {
        let line = &ls[k];
        let ghost rest = all.skip(k as int);
        assert(rest[0] == line@);
        assert(rest.drop_first() =~= all.skip(k + 1));
        assert(rest.len() > 0);
        match added_in(line, &prefix) {
            Some(n) => {
                assert(first_added(rest) == n);
                assert(first_added(all) == n);
                assert(first_added(lines(output@)) == n);
                return n;
            },
            None => {},
        }
        k = k + 1;
    }
    0
}

// ---------------------------------------------------------------------------
// Project identity
// ---------------------------------------------------------------------------

/// Where a project's events are searched: the ID and, from a plan file, its
/// calendar.
#[derive(Clone, Debug, PartialEq, Eq)]
pub enum PlanError {
    /// The plan file names no project ID yet (run `gcal-plan add` first).
    MissingProjectId,
}

/// Resolves the argument of `list` and `remove`: when it names a plan file
/// (`plan` holds that file's contents), the plan's ID and calendar, or an
/// error if the plan has no ID yet; otherwise the argument itself is the
/// project ID, with no calendar.
pub fn resolve_project(arg: &str, plan: Option<&Plan>) -> (res: Result<(String, Option<String>), PlanError>)
    ensures
        match plan {
            None => res matches Ok((id, cal)) && id@ == arg@ && cal is None,
            Some(p) => match p.project.id {
                Some(pid) => res matches Ok((id, cal)) && id@ == pid@ && (cal matches Some(c) && c@ == p.project.calendar@),
                None => res == Err::<(String, Option<String>), PlanError>(PlanError::MissingProjectId),
            },
        },
{
    match plan {
        Some(p) => match &p.project.id {
            Some(id) => Ok((id.clone(), Some(p.project.calendar.clone()))),
            None => Err(PlanError::MissingProjectId),
        },
        None => Ok((chars_to_string(&to_chars(arg)), None)),
    }
}

/// The two lower-case hex digits of a byte (`{:02x}`).
pub open spec fn hex_digit(n: nat) -> char {
    if n < 10 { crate::text::digit_char(n) }
    else if n == 10 { 'a' }
    else if n == 11 { 'b' }
    else if n == 12 { 'c' }
    else if n == 13 { 'd' }
    else if n == 14 { 'e' }
    else { 'f' }
}

/// Lower-case hex of bytes, two digits each.
pub open spec fn hex_text(bytes: Seq<u8>) -> Seq<char>
    decreases bytes.len(),
{
    if bytes.len() == 0 {
        Seq::empty()
    } else {
        hex_text(bytes.drop_last()) + seq![hex_digit((bytes.last() / 16) as nat), hex_digit((bytes.last() % 16) as nat)]
    }
}

/// `c` is a lower-case hex digit.
pub open spec fn is_lower_hex(c: char) -> bool {
    ('0' <= c && c <= '9') || ('a' <= c && c <= 'f')
}

proof fn lemma_hex_text(bytes: Seq<u8>)
    ensures
        hex_text(bytes).len() == 2 * bytes.len(),
        forall|i: int| 0 <= i < hex_text(bytes).len() ==> is_lower_hex(#[trigger] hex_text(bytes)[i]),
    decreases bytes.len(),
{
    if bytes.len() > 0 {
        lemma_hex_text(bytes.drop_last());
        let h = hex_text(bytes.drop_last());
        let t = seq![hex_digit((bytes.last() / 16) as nat), hex_digit((bytes.last() % 16) as nat)];
        assert forall|i: int| 0 <= i < hex_text(bytes).len() implies is_lower_hex(#[trigger] hex_text(bytes)[i]) by {
            if i < h.len() {
                assert(hex_text(bytes)[i] == h[i]);
            } else {
                assert(hex_text(bytes)[i] == t[i - h.len()]);
            }
        }
    }
}

fn hex_digit_exec(n: u8) -> (c: char)
    requires
        n < 16,
    ensures
        c == hex_digit(n as nat),
{
    if n < 10 {
        if n == 0 { '0' } else if n == 1 { '1' } else if n == 2 { '2' } else if n == 3 { '3' }
        else if n == 4 { '4' } else if n == 5 { '5' } else if n == 6 { '6' } else if n == 7 { '7' }
        else if n == 8 { '8' } else { '9' }
    } else if n == 10 { 'a' } else if n == 11 { 'b' } else if n == 12 { 'c' } else if n == 13 { 'd' }
    else if n == 14 { 'e' } else { 'f' }
}

/// The lower-case hex form of `bytes`, two digits per byte.
pub fn hex_lower(bytes: &[u8]) -> (res: String)
    ensures
        res@ == hex_text(bytes@),
{
    let mut out: Vec<char> = Vec::new();
    let mut i: usize = 0;
    while i < bytes.len()
        invariant
            i <= bytes@.len(),
            out@ == hex_text(bytes@.take(i as int)),
        decreases bytes.len() - i,
    {
        let b = bytes[i];
        assert(bytes@.take(i + 1).drop_last() =~= bytes@.take(i as int));
        out.push(hex_digit_exec(b / 16));
        out.push(hex_digit_exec(b % 16));
        assert(out@ =~= hex_text(bytes@.take(i + 1)));
        i = i + 1;
    }
    assert(bytes@.take(bytes@.len() as int) =~= bytes@);
    chars_to_string(&out)
}

/// Draws four bytes from `rand::thread_rng()` (`RngCore::fill_bytes`).
/// Nothing is stated of their values: they are random.
#[verifier::external_body]
fn random_bytes() -> (res: [u8; 4]) {
    let mut bytes = [0u8; 4];
    rand::thread_rng().fill_bytes(&mut bytes);
    bytes
}

/// A fresh random identifier: 8 lower-case hex digits (4 random bytes).
pub fn generate_id() -> (res: String)
    ensures
        res@.len() == 8,
        forall|i: int| 0 <= i < 8 ==> is_lower_hex(#[trigger] res@[i]),
        exists|b: Seq<u8>| b.len() == 4 && res@ == hex_text(b),
{
    let bytes = random_bytes();
    let res = hex_lower(&bytes);
    proof {
        lemma_hex_text(bytes@);
    }
    res
}

/// Gives the plan a project ID if it has none: an existing ID is kept and
/// returned (`false`: nothing generated); otherwise a fresh 8-digit hex ID
/// is stored in the plan and returned (`true`: the plan file should be
/// written back).
pub fn ensure_id(plan: &mut Plan) -> (res: (String, bool))
    ensures
        match old(plan).project.id {
            Some(id) => res.0@ == id@ && !res.1 && *final(plan) == *old(plan),
            None => {
                &&& res.1
                &&& res.0@.len() == 8
                &&& forall|i: int| 0 <= i < 8 ==> is_lower_hex(#[trigger] res.0@[i])
                &&& final(plan).project.id matches Some(id) && id@ == res.0@
                &&& final(plan).milestones == old(plan).milestones
                &&& final(plan).project.name == old(plan).project.name
                &&& final(plan).project.url == old(plan).project.url
                &&& final(plan).project.calendar == old(plan).project.calendar
                &&& final(plan).project.timezone == old(plan).project.timezone
            },
        },
{
    match &plan.project.id {
        Some(id) => {
            let r = id.clone();
            (r, false)
        },
        None => {
            let id = generate_id();
            plan.project.id = Some(id.clone());
            (id, true)
        },
    }
}

// ---------------------------------------------------------------------------
// What the rules promise
// ---------------------------------------------------------------------------

/// The three accepted spellings of a whole-hour UTC offset, `-06`, `-0600`
/// and `-06:00` (with either sign, any surrounding whitespace), all
/// normalise to the same four-digit offset.
pub proof fn offset_spellings_agree(raw1: Seq<char>, raw2: Seq<char>, raw3: Seq<char>, sign: char, h1: char, h2: char)
    requires
        sign == '+' || sign == '-',
        is_ascii_digit(h1),
        is_ascii_digit(h2),
        trim(raw1) == seq![sign, h1, h2],
        trim(raw2) == seq![sign, h1, h2, '0', '0'],
        trim(raw3) == seq![sign, h1, h2, ':', '0', '0'],
    ensures
        tz_text(raw1) == seq![sign, h1, h2, '0', '0'],
        tz_text(raw2) == seq![sign, h1, h2, '0', '0'],
        tz_text(raw3) == seq![sign, h1, h2, '0', '0'],
{
    let a = seq![h1, h2];
    let b = seq![h1, h2, '0', '0'];
    let c = seq![h1, h2, ':', '0', '0'];
    assert(seq![sign, h1, h2].drop_first() =~= a);
    assert(seq![sign, h1, h2, '0', '0'].drop_first() =~= b);
    assert(seq![sign, h1, h2, ':', '0', '0'].drop_first() =~= c);
    assert(a.drop_last() =~= seq![h1]);
    assert(seq![h1].drop_last() =~= Seq::<char>::empty());
    assert(ascii_digits(Seq::<char>::empty()) =~= Seq::<char>::empty());
    assert(seq![h1].last() == h1);
    assert(ascii_digits(seq![h1]) =~= seq![h1]);
    assert(a.last() == h2);
    assert(ascii_digits(a) =~= a);
    assert(b.drop_last() =~= seq![h1, h2, '0']);
    assert(seq![h1, h2, '0'].drop_last() =~= a);
    assert(seq![h1, h2, '0'].last() == '0');
    assert(is_ascii_digit('0'));
    assert(ascii_digits(seq![h1, h2, '0']) =~= seq![h1, h2, '0']);
    assert(b.last() == '0');
    assert(ascii_digits(b) =~= b);
    assert(c.drop_last() =~= seq![h1, h2, ':', '0']);
    assert(seq![h1, h2, ':', '0'].drop_last() =~= seq![h1, h2, ':']);
    assert(seq![h1, h2, ':'].drop_last() =~= a);
    assert(seq![h1, h2, ':'].last() == ':');
    assert(!is_ascii_digit(':'));
    assert(ascii_digits(seq![h1, h2, ':']) =~= a);
    assert(seq![h1, h2, ':', '0'].last() == '0');
    assert(c.last() == '0');
    assert(ascii_digits(seq![h1, h2, ':', '0']) =~= seq![h1, h2, '0']);
    assert(ascii_digits(c) =~= b);
    assert(seq![sign] + (a + seq!['0', '0']) =~= seq![sign, h1, h2, '0', '0']);
    assert(seq![sign] + b =~= seq![sign, h1, h2, '0', '0']);
}

/// Escaped iCalendar text never holds a line break: a value stays on its
/// content line.
pub proof fn escaped_text_is_one_line(s: Seq<char>)
    ensures
        !ics_escape_text(s).contains('\n'),
    decreases s.len(),
{
    if s.len() > 0 {
        escaped_text_is_one_line(s.drop_last());
        let e = ics_escape_text(s.drop_last());
        let t = ics_escape_char(s.last());
        assert(!t.contains('\n'));
        assert forall|i: int| 0 <= i < e.len() + t.len() implies (e + t)[i] != '\n' by {
            if i < e.len() {
                assert((e + t)[i] == e[i]);
            } else {
                assert((e + t)[i] == t[i - e.len()]);
            }
        }
    }
}

/// `UTC` in any letter case, with any surrounding whitespace, is the zone
/// `Z`; any other trimmed text that does not start with a sign is kept as a
/// zone name.
pub proof fn utc_and_zone_names(raw: Seq<char>)
    ensures
        trim(raw).len() == 3 && (trim(raw)[0] == 'u' || trim(raw)[0] == 'U') && (trim(raw)[1] == 't' || trim(raw)[1] == 'T')
            && (trim(raw)[2] == 'c' || trim(raw)[2] == 'C') ==> tz_text(raw) == seq!['Z'],
        !is_utc(trim(raw)) && (trim(raw).len() == 0 || (trim(raw)[0] != '+' && trim(raw)[0] != '-'))
            ==> tz_text(raw) == trim(raw),
{
}

// ---------------------------------------------------------------------------
// A starter plan
// ---------------------------------------------------------------------------

/// The text of the starter plan file for project `id`: a `[project]` table
/// with placeholder values and two example milestones, with the optional
/// keys shown as comments.
pub open spec fn skeleton_text(id: Seq<char>) -> Seq<char> {
    "[project]\nid = \""@ + id
        + "\"\nname = \"My Project\"\nurl = \"https://github.com/org/repo/issues/1\"\ncalendar = \"Calendar Name\"\n# timezone = \"US/Central\"     # default for all timed milestones; also accepts -0600, -06:00, -06, UTC\n\n[[milestones]]\ntitle = \"Kickoff\"\ndate = \"2026-06-01\"\n# description = \"Optional description\"\n\n[[milestones]]\ntitle = \"Design Complete\"\ndate = \"2026-07-01\"\n# time = \"14:00\"       # makes this a timed event\n# duration_mins = 60   # default: 60 when time is set\n# timezone = \"US/Central\"  # overrides project-level timezone for this milestone\n# attendees = [\"user@example.com\", \"Name <user@example.com>\"]\n"@
}

/// The starter plan file that `gcal-plan init` writes, for project `id`.
pub fn plan_skeleton(id: &str) -> (res: String)
    ensures
        res@ == skeleton_text(id@),
{
    let mut v: Vec<char> = Vec::new();
    push_str(&mut v, "[project]\nid = \"");
    push_str(&mut v, id);
    push_str(&mut v, "\"\nname = \"My Project\"\nurl = \"https://github.com/org/repo/issues/1\"\ncalendar = \"Calendar Name\"\n# timezone = \"US/Central\"     # default for all timed milestones; also accepts -0600, -06:00, -06, UTC\n\n[[milestones]]\ntitle = \"Kickoff\"\ndate = \"2026-06-01\"\n# description = \"Optional description\"\n\n[[milestones]]\ntitle = \"Design Complete\"\ndate = \"2026-07-01\"\n# time = \"14:00\"       # makes this a timed event\n# duration_mins = 60   # default: 60 when time is set\n# timezone = \"US/Central\"  # overrides project-level timezone for this milestone\n# attendees = [\"user@example.com\", \"Name <user@example.com>\"]\n");
    chars_to_string(&v)
}

} // verus!
