use calendar::plan::{
    ensure_id, generate_id, hex_lower, ics_attendee, ics_escape, parse_added_count, parse_tz, plan_skeleton,
    resolve_project, Milestone, Plan, PlanError, Project,
};

fn project(id: Option<&str>) -> Project {
    Project {
        id: id.map(|s| s.to_string()),
        name: "Q2 Migration".to_string(),
        url: "https://github.com/org/repo/issues/42".to_string(),
        calendar: "Datum Engineering".to_string(),
        timezone: Some("US/Central".to_string()),
    }
}

fn milestone(title: &str, date: &str) -> Milestone {
    Milestone {
        title: title.to_string(),
        date: date.to_string(),
        time: None,
        duration_mins: None,
        description: None,
        attendees: None,
        timezone: None,
    }
}

fn is_lower_hex(s: &str) -> bool {
    s.chars().all(|c| c.is_ascii_digit() || ('a'..='f').contains(&c))
}

#[test]
fn parse_tz_reads_utc_in_any_case() {
    assert_eq!(parse_tz("UTC"), "Z");
    assert_eq!(parse_tz("utc"), "Z");
    assert_eq!(parse_tz(" Utc "), "Z");
}

#[test]
fn parse_tz_normalises_offsets() {
    assert_eq!(parse_tz("-06"), "-0600");
    assert_eq!(parse_tz("-0600"), "-0600");
    assert_eq!(parse_tz("-06:00"), "-0600");
    assert_eq!(parse_tz("+05:30"), "+0530");
    assert_eq!(parse_tz(" +09 "), "+0900");
}

#[test]
fn offset_spellings_give_one_offset() {
    for (a, b, c) in [("-06", "-0600", "-06:00"), ("+11", "+1100", "+11:00"), ("  -03\t", "-0300 ", " -03:00")] {
        assert_eq!(parse_tz(a), parse_tz(b));
        assert_eq!(parse_tz(b), parse_tz(c));
    }
}

#[test]
fn parse_tz_keeps_zone_names() {
    assert_eq!(parse_tz("US/Central"), "US/Central");
    assert_eq!(parse_tz("  America/New_York "), "America/New_York");
}

#[test]
fn ics_attendee_bare_email() {
    assert_eq!(ics_attendee("jsmith@datum.net"), "ATTENDEE:mailto:jsmith@datum.net");
    assert_eq!(ics_attendee("  jsmith@datum.net "), "ATTENDEE:mailto:jsmith@datum.net");
}

#[test]
fn ics_attendee_named_email() {
    assert_eq!(ics_attendee("Jane Doe <jdoe@datum.net>"), "ATTENDEE;CN=Jane Doe:mailto:jdoe@datum.net");
    assert_eq!(ics_attendee("Jane Doe < jdoe@datum.net >"), "ATTENDEE;CN=Jane Doe:mailto:jdoe@datum.net");
}

#[test]
fn ics_attendee_without_opening_bracket() {
    assert_eq!(ics_attendee("odd>"), "ATTENDEE:mailto:odd>");
}

#[test]
fn ics_escape_escapes_special_characters() {
    assert_eq!(ics_escape("a,b;c\\d\ne"), "a\\,b\\;c\\\\d\\ne");
    assert_eq!(ics_escape("plain text"), "plain text");
    assert_eq!(ics_escape(""), "");
}

#[test]
fn escaped_text_stays_on_one_line() {
    for s in ["one\ntwo\nthree", "\n", "a\r\nb", "x,y;z"] {
        assert!(!ics_escape(s).contains('\n'));
    }
}

#[test]
fn parse_added_count_reads_first_added_line() {
    assert_eq!(parse_added_count("Added 3 events\n"), 3);
    assert_eq!(parse_added_count("Importing...\nAdded 12 of 12\nAdded 4\n"), 12);
    assert_eq!(parse_added_count("Added  7 events"), 7);
}

#[test]
fn parse_added_count_skips_unreadable_lines() {
    assert_eq!(parse_added_count("Added x events\nAdded 5"), 5);
    assert_eq!(parse_added_count("  Added 3"), 0);
    assert_eq!(parse_added_count("nothing here"), 0);
    assert_eq!(parse_added_count(""), 0);
}

#[test]
fn resolve_project_takes_a_bare_id() {
    let r = resolve_project("deadbeef", None);
    assert_eq!(r, Ok(("deadbeef".to_string(), None)));
}

#[test]
fn resolve_project_reads_a_plan() {
    let plan = Plan { project: project(Some("cafe0123")), milestones: vec![] };
    let r = resolve_project("plan.toml", Some(&plan));
    assert_eq!(r, Ok(("cafe0123".to_string(), Some("Datum Engineering".to_string()))));
}

#[test]
fn resolve_project_needs_an_id_in_the_plan() {
    let plan = Plan { project: project(None), milestones: vec![] };
    assert_eq!(resolve_project("plan.toml", Some(&plan)), Err(PlanError::MissingProjectId));
}

#[test]
fn hex_lower_writes_two_digits_per_byte() {
    assert_eq!(hex_lower(&[0xde, 0xad, 0xbe, 0xef]), "deadbeef");
    assert_eq!(hex_lower(&[0, 15, 16, 255]), "000f10ff");
    assert_eq!(hex_lower(&[]), "");
}

#[test]
fn generate_id_is_eight_hex_digits() {
    for _ in 0..20 {
        let id = generate_id();
        assert_eq!(id.len(), 8);
        assert!(is_lower_hex(&id));
    }
}

#[test]
fn ensure_id_keeps_an_existing_id() {
    let mut plan = Plan { project: project(Some("deadbeef")), milestones: vec![milestone("Kickoff", "2026-06-01")] };
    let (id, generated) = ensure_id(&mut plan);
    assert_eq!(id, "deadbeef");
    assert!(!generated);
    assert_eq!(plan.project.id.as_deref(), Some("deadbeef"));
}

#[test]
fn ensure_id_generates_a_missing_id() {
    let mut plan = Plan { project: project(None), milestones: vec![milestone("Kickoff", "2026-06-01")] };
    let (id, generated) = ensure_id(&mut plan);
    assert!(generated);
    assert_eq!(id.len(), 8);
    assert!(is_lower_hex(&id));
    assert_eq!(plan.project.id.as_deref(), Some(id.as_str()));
    assert_eq!(plan.project.name, "Q2 Migration");
    assert_eq!(plan.milestones.len(), 1);
}

#[test]
fn plan_skeleton_is_the_starter_file() {
    let expected = r#"[project]
id = "deadbeef"
name = "My Project"
url = "https://github.com/org/repo/issues/1"
calendar = "Calendar Name"
# timezone = "US/Central"     # default for all timed milestones; also accepts -0600, -06:00, -06, UTC

[[milestones]]
title = "Kickoff"
date = "2026-06-01"
# description = "Optional description"

[[milestones]]
title = "Design Complete"
date = "2026-07-01"
# time = "14:00"       # makes this a timed event
# duration_mins = 60   # default: 60 when time is set
# timezone = "US/Central"  # overrides project-level timezone for this milestone
# attendees = ["user@example.com", "Name <user@example.com>"]
"#;
    assert_eq!(plan_skeleton("deadbeef"), expected);
}

#[test]
fn plan_skeleton_parses_as_a_plan() {
    let text = plan_skeleton("0badf00d");
    let value: toml::Value = toml::from_str(&text).unwrap();
    assert_eq!(value["project"]["id"].as_str(), Some("0badf00d"));
    assert_eq!(value["milestones"].as_array().map(|a| a.len()), Some(2));
}
