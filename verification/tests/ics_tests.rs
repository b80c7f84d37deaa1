use calendar::ics::{build_ics, build_ics_with, plan_fits, IcsError};
use calendar::plan::{Milestone, Plan, Project};
use chrono::{NaiveDate, NaiveDateTime};

fn project(timezone: Option<&str>) -> Project {
    Project {
        id: Some("deadbeef".to_string()),
        name: "Q2 Migration".to_string(),
        url: "https://github.com/org/repo/issues/42".to_string(),
        calendar: "Datum Engineering".to_string(),
        timezone: timezone.map(|s| s.to_string()),
    }
}

fn all_day(title: &str, date: &str) -> Milestone {
    Milestone {
        title: title.to_string(),
        date: date.to_string(),
        time: None,
        duration_mins: None,
        description: None,
        attendees: None,
        timezone: None,
    }
}

fn timed(title: &str, date: &str, time: &str) -> Milestone {
    Milestone { time: Some(time.to_string()), ..all_day(title, date) }
}

fn suffixes(n: usize) -> Vec<String> {
    (0..n).map(|i| format!("{:08x}", 0xa0a0_0000u32 + i as u32)).collect()
}

const TRAILER: &str = "project-id: deadbeef\\nproject-name: Q2 Migration\\nproject-url: https://github.com/org/repo/issues/42";

#[test]
fn build_ics_writes_the_whole_document() {
    let mut kickoff = all_day("Kickoff", "2026-06-01");
    kickoff.description = Some("Initial planning session".to_string());
    let mut review = timed("Design Review", "2026-06-15", "14:00");
    review.duration_mins = Some(90);
    review.timezone = Some("US/Eastern".to_string());
    review.attendees = Some(vec!["jsmith@datum.net".to_string(), "Jane Doe <jdoe@datum.net>".to_string()]);
    let plan = Plan { project: project(Some("US/Central")), milestones: vec![kickoff, review] };
    let b = build_ics_with(&plan, "deadbeef", &vec!["0000aaaa".to_string(), "1111bbbb".to_string()]);
    let expected = format!(
        "BEGIN:VCALENDAR\r\nVERSION:2.0\r\nPRODID:-//gcal-plan//EN\r\n\
         BEGIN:VEVENT\r\nUID:deadbeef-0-0000aaaa@gcal-plan\r\nSUMMARY:Kickoff\r\n\
         DTSTART;VALUE=DATE:20260601\r\nDTEND;VALUE=DATE:20260602\r\n\
         DESCRIPTION:Initial planning session\\n\\n{TRAILER}\r\n\
         URL:https://github.com/org/repo/issues/42\r\nEND:VEVENT\r\n\
         BEGIN:VEVENT\r\nUID:deadbeef-1-1111bbbb@gcal-plan\r\nSUMMARY:Design Review\r\n\
         DTSTART;TZID=US/Eastern:20260615T140000\r\nDTEND;TZID=US/Eastern:20260615T153000\r\n\
         DESCRIPTION:{TRAILER}\r\n\
         URL:https://github.com/org/repo/issues/42\r\n\
         ATTENDEE:mailto:jsmith@datum.net\r\nATTENDEE;CN=Jane Doe:mailto:jdoe@datum.net\r\n\
         END:VEVENT\r\nEND:VCALENDAR\r\n"
    );
    assert_eq!(b.ics.unwrap(), expected);
    assert!(b.warnings.is_empty());
}

#[test]
fn timed_events_take_the_project_zone() {
    let plan = Plan { project: project(Some("US/Central")), milestones: vec![timed("Sync", "2026-06-15", "09:30")] };
    let doc = build_ics_with(&plan, "deadbeef", &suffixes(1)).ics.unwrap();
    assert!(doc.contains("DTSTART;TZID=US/Central:20260615T093000\r\n"));
    assert!(doc.contains("DTEND;TZID=US/Central:20260615T103000\r\n"));
}

#[test]
fn timed_events_in_utc_and_offsets() {
    let mut utc = timed("A", "2026-06-15", "14:00");
    utc.timezone = Some("utc".to_string());
    let mut off = timed("B", "2026-06-15", "23:30");
    off.timezone = Some("-06".to_string());
    off.duration_mins = Some(45);
    let plan = Plan { project: project(None), milestones: vec![utc, off] };
    let doc = build_ics_with(&plan, "deadbeef", &suffixes(2)).ics.unwrap();
    assert!(doc.contains("DTSTART:20260615T140000Z\r\nDTEND:20260615T150000Z\r\n"));
    assert!(doc.contains("DTSTART:20260615T233000-0600\r\nDTEND:20260616T001500-0600\r\n"));
}

#[test]
fn timed_events_without_zone_float() {
    let plan = Plan { project: project(None), milestones: vec![timed("A", "2026-12-31", "23:00")] };
    let doc = build_ics_with(&plan, "deadbeef", &suffixes(1)).ics.unwrap();
    assert!(doc.contains("DTSTART:20261231T230000\r\nDTEND:20270101T000000\r\n"));
}

#[test]
fn all_day_events_ignore_zone_and_duration() {
    let mut m = all_day("Launch", "2026-06-30");
    m.timezone = Some("US/Eastern".to_string());
    m.duration_mins = Some(30);
    let plan = Plan { project: project(Some("UTC")), milestones: vec![m] };
    let b = build_ics_with(&plan, "deadbeef", &suffixes(1));
    let doc = b.ics.unwrap();
    assert!(doc.contains("DTSTART;VALUE=DATE:20260630\r\nDTEND;VALUE=DATE:20260701\r\n"));
    let plain = Plan { project: project(None), milestones: vec![all_day("Launch", "2026-06-30")] };
    assert_eq!(build_ics_with(&plain, "deadbeef", &suffixes(1)).ics.unwrap(), doc);
    assert_eq!(
        b.warnings,
        vec![
            "Warning: 'Launch': duration_mins ignored (no time \u{2014} all-day event)".to_string(),
            "Warning: 'Launch': timezone ignored (no time \u{2014} all-day event)".to_string(),
        ]
    );
}

#[test]
fn every_description_carries_the_project_tag() {
    let mut with_desc = all_day("A", "2026-06-01");
    with_desc.description = Some("notes, more; notes".to_string());
    let plan = Plan { project: project(None), milestones: vec![with_desc, timed("B", "2026-06-02", "10:00")] };
    let doc = build_ics_with(&plan, "deadbeef", &suffixes(2)).ics.unwrap();
    let descs: Vec<&str> = doc.split("\r\n").filter(|l| l.starts_with("DESCRIPTION:")).collect();
    assert_eq!(descs.len(), 2);
    for d in descs {
        assert!(d.ends_with(TRAILER));
        assert!(d.contains("project-id: deadbeef"));
    }
}

#[test]
fn bad_all_day_date_is_reported() {
    let plan = Plan {
        project: project(None),
        milestones: vec![all_day("A", "2026-06-01"), all_day("B", "2026-13-01"), all_day("C", "nope")],
    };
    let b = build_ics_with(&plan, "deadbeef", &suffixes(3));
    let chrono_error = NaiveDate::parse_from_str("2026-13-01", "%Y-%m-%d").unwrap_err();
    match b.ics {
        Err(IcsError::BadDate { index, cause }) => {
            assert_eq!(index, 1);
            assert_eq!(cause, chrono_error);
        }
        other => panic!("unexpected outcome: {other:?}"),
    }
}

#[test]
fn bad_timed_date_is_reported() {
    let plan = Plan { project: project(None), milestones: vec![timed("A", "2026-06-01", "25:00")] };
    let b = build_ics_with(&plan, "deadbeef", &suffixes(1));
    let chrono_error = NaiveDateTime::parse_from_str("2026-06-01 25:00", "%Y-%m-%d %H:%M").unwrap_err();
    match b.ics {
        Err(IcsError::BadDateTime { index, cause }) => {
            assert_eq!(index, 0);
            assert_eq!(cause, chrono_error);
        }
        other => panic!("unexpected outcome: {other:?}"),
    }
}

#[test]
fn warnings_stop_at_the_failing_milestone() {
    let mut first = all_day("First", "bad");
    first.duration_mins = Some(10);
    let mut second = all_day("Second", "2026-06-01");
    second.timezone = Some("UTC".to_string());
    let plan = Plan { project: project(None), milestones: vec![first, second] };
    let b = build_ics_with(&plan, "deadbeef", &suffixes(2));
    assert!(matches!(b.ics, Err(IcsError::BadDate { index: 0, .. })));
    assert_eq!(b.warnings, vec!["Warning: 'First': duration_mins ignored (no time \u{2014} all-day event)".to_string()]);
}

#[test]
fn build_ics_draws_hex_uids() {
    let plan = Plan {
        project: project(None),
        milestones: vec![all_day("A", "2026-06-01"), timed("B", "2026-06-02", "08:00")],
    };
    let b = build_ics(&plan, "deadbeef").unwrap();
    let doc = b.ics.unwrap();
    let uids: Vec<&str> = doc.split("\r\n").filter(|l| l.starts_with("UID:")).collect();
    assert_eq!(uids.len(), 2);
    for (i, u) in uids.iter().enumerate() {
        let prefix = format!("UID:deadbeef-{i}-");
        assert!(u.starts_with(&prefix));
        assert!(u.ends_with("@gcal-plan"));
        let suffix = &u[prefix.len()..u.len() - "@gcal-plan".len()];
        assert_eq!(suffix.len(), 8);
        assert!(suffix.chars().all(|c| c.is_ascii_digit() || ('a'..='f').contains(&c)));
    }
}

#[test]
fn build_ics_refuses_dates_past_chrono_range() {
    let plan = Plan { project: project(None), milestones: vec![all_day("End", "+262142-12-31")] };
    assert!(!plan_fits(&plan));
    assert!(build_ics(&plan, "deadbeef").is_none());
    let ok = Plan { project: project(None), milestones: vec![all_day("End", "+262142-12-30")] };
    assert!(plan_fits(&ok));
    assert!(build_ics(&ok, "deadbeef").is_some());
}
