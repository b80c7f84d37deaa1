use calendar::agenda::{
    csv_quote, delete_window, distinct_dates, project_events, project_query, read_table, search_line, search_rows,
    OutputFormat, ProjectEvent, SearchRow, WindowError,
};

const HEADER: &str = "id\tstart_date\tstart_time\ttitle\tdescription";

fn listing(lines: &[&str]) -> String {
    let mut s = HEADER.to_string();
    for l in lines {
        s.push('\n');
        s.push_str(l);
    }
    s.push('\n');
    s
}

fn row(id: &str, datetime: &str, title: &str, description: &str) -> SearchRow {
    SearchRow {
        id: id.to_string(),
        datetime: datetime.to_string(),
        title: title.to_string(),
        description: description.to_string(),
    }
}

#[test]
fn search_keeps_matching_rows_in_time_order() {
    let out = listing(&[
        "e3\t2026-06-15\t14:00\tDesign Review\tproject-id: deadbeef",
        "e1\t2026-06-01\t\tKickoff\tPROJECT-ID: DEADBEEF",
        "e2\t2026-05-01\t09:00\tLunch\tnothing",
        "e4\t2026-06-01\t08:00\tStandup\tproject-id: deadbeef",
    ]);
    let rows = search_rows(&out, "project-id: deadbeef");
    let ids: Vec<&str> = rows.iter().map(|r| r.id.as_str()).collect();
    assert_eq!(ids, vec!["e1", "e4", "e3"]);
    assert_eq!(rows[0].datetime, "2026-06-01 ");
    assert_eq!(rows[1].datetime, "2026-06-01 08:00");
    assert_eq!(rows[2].title, "Design Review");
}

#[test]
fn search_matches_any_field_ignoring_case() {
    let out = listing(&["x1\t2026-01-01\t10:00\tSTANDUP\t", "x2\t2026-01-02\t10:00\tother\t"]);
    let rows = search_rows(&out, "standup");
    assert_eq!(rows.len(), 1);
    assert_eq!(rows[0].id, "x1");
    assert_eq!(search_rows(&out, "X2").len(), 1);
}

#[test]
fn search_skips_short_lines_and_keeps_ties_in_order() {
    let out = listing(&["a\t2026-01-01\t10:00\tq\t", "short\tq", "b\t2026-01-01\t10:00\tq\t"]);
    let rows = search_rows(&out, "q");
    let ids: Vec<&str> = rows.iter().map(|r| r.id.as_str()).collect();
    assert_eq!(ids, vec!["a", "b"]);
}

#[test]
fn search_of_empty_output_is_empty() {
    assert!(search_rows("", "q").is_empty());
    assert!(search_rows(HEADER, "q").is_empty());
    assert!(read_table("").is_none());
}

#[test]
fn search_reads_columns_by_name() {
    let out = "title\tid\tstart_time\tstart_date\n T \tID\t09:15\t2026-03-04\n";
    let rows = search_rows(out, "t");
    assert_eq!(rows.len(), 1);
    assert_eq!(rows[0].id, "ID");
    assert_eq!(rows[0].datetime, "2026-03-04 09:15");
    assert_eq!(rows[0].title, " T ");
    assert_eq!(rows[0].description, "");
}

#[test]
fn csv_quote_quotes_when_needed() {
    assert_eq!(csv_quote("plain"), "plain");
    assert_eq!(csv_quote("a,b"), "\"a,b\"");
    assert_eq!(csv_quote("say \"hi\""), "\"say \"\"hi\"\"\"");
    assert_eq!(csv_quote("two\nlines"), "\"two\nlines\"");
    assert_eq!(csv_quote(""), "");
}

#[test]
fn search_line_as_tsv_truncates_description() {
    let long = "x".repeat(60);
    let r = row("id1", "2026-06-01 10:00", "Title", &long);
    assert_eq!(search_line(&r, OutputFormat::Tsv), format!("id1\t2026-06-01 10:00\tTitle\t{}", "x".repeat(50)));
    let short = row("id1", "2026-06-01 10:00", "Title", "short");
    assert_eq!(search_line(&short, OutputFormat::Tsv), "id1\t2026-06-01 10:00\tTitle\tshort");
}

#[test]
fn search_line_truncates_by_characters() {
    let long: String = "é".repeat(55);
    let r = row("i", "d", "t", &long);
    assert_eq!(search_line(&r, OutputFormat::Tsv), format!("i\td\tt\t{}", "é".repeat(50)));
}

#[test]
fn search_line_as_csv_quotes_fields() {
    let r = row("id1", "2026-06-01 10:00", "Review, final", "He said \"go\"");
    assert_eq!(
        search_line(&r, OutputFormat::Csv),
        "id1,2026-06-01 10:00,\"Review, final\",\"He said \"\"go\"\"\""
    );
}

#[test]
fn project_query_tags_the_id() {
    assert_eq!(project_query("deadbeef"), "project-id: deadbeef");
}

#[test]
fn project_events_are_in_date_order() {
    let out = listing(&[
        "e3\t2026-06-15\t14:00\tDesign Review\tproject-id: deadbeef",
        "e1\t2026-06-01\t\tKickoff\tproject-id: deadbeef",
        "e9\t2026-05-01\t\tOther\tproject-id: cafe0000",
    ]);
    let events = project_events(&out, "deadbeef");
    let got: Vec<(&str, &str)> = events.iter().map(|e| (e.date.as_str(), e.title.as_str())).collect();
    assert_eq!(got, vec![("2026-06-01", "Kickoff"), ("2026-06-15", "Design Review")]);
    assert!(project_events(&out, "00000000").is_empty());
}

#[test]
fn distinct_dates_keep_first_appearance() {
    let events: Vec<ProjectEvent> = ["2026-06-01", "2026-06-15", "2026-06-01", "2026-07-01", "2026-06-15"]
        .iter()
        .map(|d| ProjectEvent { date: d.to_string(), title: "t".to_string() })
        .collect();
    assert_eq!(distinct_dates(&events), vec!["2026-06-01", "2026-06-15", "2026-07-01"]);
    assert!(distinct_dates(&vec![]).is_empty());
}

#[test]
fn delete_window_spans_one_day() {
    assert_eq!(delete_window("2026-06-30").unwrap(), ("2026-06-30".to_string(), "2026-07-01".to_string()));
    assert_eq!(delete_window("2026-12-31").unwrap(), ("2026-12-31".to_string(), "2027-01-01".to_string()));
}

#[test]
fn delete_window_rejects_bad_dates() {
    match delete_window("June 30") {
        Err(WindowError::InvalidDate(e)) => {
            assert_eq!(e, chrono::NaiveDate::parse_from_str("June 30", "%Y-%m-%d").unwrap_err());
        }
        other => panic!("unexpected outcome: {other:?}"),
    }
    assert!(matches!(delete_window("+262142-12-31"), Err(WindowError::OutOfRange)));
}
