use calendar::browse::{
    access_label, begin_load, breadcrumbs, current_account_name, detail_lines, detail_view_start, event_date_label,
    finish_load, fmt_time, frame_title, handle_key, header_parts, label_parts, line_has_access, local_zone_name,
    menu_items, parse_agenda,
    parse_calendars, shown_breadcrumbs, strip_ansi, Account, App, CalEvent, Calendar, CalendarListError, Key, KeyOutcome, KeyPress,
    LoadRequest, Loaded, Screen,
};

fn key(k: Key) -> KeyPress {
    KeyPress { key: k, ctrl: false }
}

fn ch(c: char) -> KeyPress {
    key(Key::Char(c))
}

fn ctrl(c: char) -> KeyPress {
    KeyPress { key: Key::Char(c), ctrl: true }
}

fn accounts() -> Vec<Account> {
    vec![
        Account { name: "Default".to_string(), config_dir: None },
        Account { name: "work".to_string(), config_dir: Some("/home/u/.config/gcalcli/accounts/work".to_string()) },
    ]
}

fn event(date: &str, time: &str, title: &str) -> CalEvent {
    CalEvent {
        date: date.to_string(),
        time: time.to_string(),
        end_date: String::new(),
        end_time: String::new(),
        title: title.to_string(),
        desc: String::new(),
        location: String::new(),
        url: String::new(),
        calendar: String::new(),
        email: String::new(),
    }
}

fn calendars() -> Vec<Calendar> {
    vec![
        Calendar { title: "Work".to_string(), access: "owner".to_string() },
        Calendar { title: "Holidays".to_string(), access: "reader".to_string() },
    ]
}

/// A browser showing the events of the "Work" calendar of the "work" account.
fn app_on_events(events: Vec<CalEvent>) -> App {
    let mut app = App::new(accounts());
    assert_eq!(handle_key(key(Key::Down), &mut app, "CDT"), KeyOutcome::Continue);
    handle_key(key(Key::Enter), &mut app, "CDT");
    assert_eq!(begin_load(&mut app), LoadRequest::Calendars);
    finish_load(&mut app, Ok(Loaded::Calendars(calendars())));
    handle_key(key(Key::Enter), &mut app, "CDT");
    assert_eq!(begin_load(&mut app), LoadRequest::Events);
    finish_load(&mut app, Ok(Loaded::Events(events)));
    app
}

#[test]
fn strip_ansi_removes_color_codes() {
    assert_eq!(strip_ansi("\x1b[1;32mowner\x1b[0m  Work"), "owner  Work");
    assert_eq!(strip_ansi("plain text"), "plain text");
    assert_eq!(strip_ansi("\x1b[31"), "");
    assert_eq!(strip_ansi("a\x1bb"), "a\x1bb");
}

#[test]
fn line_has_access_checks_the_first_word() {
    assert!(line_has_access("  owner  Work"));
    assert!(line_has_access("writer  Team"));
    assert!(line_has_access("reader  Holidays"));
    assert!(line_has_access("freebusy  Room"));
    assert!(!line_has_access(" Access  Title"));
    assert!(!line_has_access(""));
}

#[test]
fn parse_calendars_reads_gcalcli_list() {
    let out = "\n Access  Title\n ------  -----\n \x1b[32mowner\x1b[0m  Work\n reader  Holidays in United States\n owner\n";
    let cals = parse_calendars(out).unwrap();
    let got: Vec<(&str, &str)> = cals.iter().map(|c| (c.access.as_str(), c.title.as_str())).collect();
    assert_eq!(got, vec![("owner", "Work"), ("reader", "Holidays in United States")]);
}

#[test]
fn parse_calendars_without_calendars_is_an_error() {
    assert_eq!(parse_calendars("").err(), Some(CalendarListError::NoCalendars));
    assert_eq!(parse_calendars(" Access  Title\n").err(), Some(CalendarListError::NoCalendars));
}

const AGENDA_HEADER: &str =
    "start_date\tstart_time\tend_date\tend_time\thtml_link\ttitle\tlocation\tdescription\tcalendar\temail";

#[test]
fn parse_agenda_sorts_upcoming_events() {
    let out = format!(
        "{AGENDA_HEADER}\n\
         2026-06-02\t09:00\t2026-06-02\t10:00\thttp://x\tStandup\tRoom 1\tdaily\tWork\ta@b.c\n\
         2026-06-01\t14:00\t2026-06-01\t15:00\t\tReview\t\t\tWork\t\n\
         2026-06-01\t\t2026-06-02\t\t\tHoliday\t\t\tWork\t\n\
         2026-05-01\t10:00\t2026-05-01\t11:00\t\tPast\t\t\tWork\t\n\
         \t10:00\t\t\t\tNo date\t\t\tWork\t\n"
    );
    let events = parse_agenda(&out, "", "2026-06-01");
    let got: Vec<(&str, &str, &str)> =
        events.iter().map(|e| (e.date.as_str(), e.time.as_str(), e.title.as_str())).collect();
    assert_eq!(
        got,
        vec![("2026-06-01", "all-day", "Holiday"), ("2026-06-01", "14:00", "Review"), ("2026-06-02", "09:00", "Standup")]
    );
    assert_eq!(events[2].location, "Room 1");
    assert_eq!(events[2].url, "http://x");
    assert_eq!(events[2].email, "a@b.c");
}

#[test]
fn parse_agenda_filters_title_and_description() {
    let out = format!(
        "{AGENDA_HEADER}\n\
         2026-06-02\t09:00\t\t\t\tStandup\t\tdaily sync\tWork\t\n\
         2026-06-03\t09:00\t\t\t\tReview\t\tDESIGN\tWork\t\n\
         2026-06-04\t09:00\t\t\t\tLunch\tDesign Cafe\t\tWork\t\n"
    );
    let titles: Vec<String> = parse_agenda(&out, "design", "2026-01-01").into_iter().map(|e| e.title).collect();
    assert_eq!(titles, vec!["Review".to_string()]);
    assert_eq!(parse_agenda(&out, "SYNC", "2026-01-01").len(), 1);
    assert!(parse_agenda("", "", "2026-01-01").is_empty());
}

#[test]
fn fmt_time_adds_the_zone() {
    assert_eq!(fmt_time("14:00", "CDT"), "14:00 CDT");
    assert_eq!(fmt_time("all-day", "CDT"), "all-day");
    assert_eq!(fmt_time("", "CDT"), "");
}

#[test]
fn detail_lines_describe_the_event() {
    let mut e = event("2026-06-01", "14:00", "Review");
    e.end_date = "2026-06-01".to_string();
    e.end_time = "15:00".to_string();
    e.location = "Room 1".to_string();
    e.calendar = "Work".to_string();
    e.url = "http://x".to_string();
    e.desc = "line one\nline two\n\n".to_string();
    let app = app_on_events(vec![event("2026-05-31", "all-day", "Other"), e]);
    assert_eq!(
        detail_lines(&app, 1, "CDT"),
        vec![
            "Review (2/2)",
            "",
            "When:  2026-06-01 14:00 CDT  \u{2192}  2026-06-01 15:00 CDT",
            "Where: Room 1",
            "Calendar: Work",
            "Link: http://x",
            "",
            "Description:",
            "line one",
            "line two",
        ]
    );
}

#[test]
fn detail_lines_for_all_day_events() {
    let mut multi = event("2026-06-01", "all-day", "Trip");
    multi.end_date = "2026-06-04".to_string();
    let mut single = event("2026-06-05", "all-day", "Day off");
    single.end_date = "2026-06-05".to_string();
    let app = app_on_events(vec![multi, single, event("2026-06-06", "10:00", "Call")]);
    assert_eq!(detail_lines(&app, 0, "CDT")[2], "When:  2026-06-01  (all-day)  \u{2192}  2026-06-04");
    assert_eq!(detail_lines(&app, 1, "CDT")[2], "When:  2026-06-05  (all-day)");
    assert_eq!(detail_lines(&app, 2, "CDT"), vec!["Call (3/3)", "", "When:  2026-06-06 10:00 CDT"]);
    assert_eq!(detail_lines(&app, 3, "CDT"), vec![""]);
}

#[test]
fn new_browser_starts_on_accounts() {
    let app = App::new(accounts());
    assert_eq!(app.screen, Screen::Accounts);
    assert_eq!(app.account_sel, Some(0));
    assert_eq!(App::new(vec![]).account_sel, None);
    assert_eq!(current_account_name(&app), "Default");
}

#[test]
fn choosing_account_and_calendar_loads_lists() {
    let app = app_on_events(vec![event("2026-06-01", "10:00", "A"), event("2026-06-02", "10:00", "B")]);
    assert_eq!(app.screen, Screen::Events);
    assert_eq!(app.account_config.as_deref(), Some("/home/u/.config/gcalcli/accounts/work"));
    assert_eq!(current_account_name(&app), "work");
    assert_eq!(app.selected_calendar.as_deref(), Some("Work"));
    assert_eq!(app.events_sel, Some(0));
    assert!(!app.loading);
    assert_eq!(breadcrumbs(&app), vec!["accounts", "work", "Work"]);
}

#[test]
fn list_navigation_stays_in_the_list() {
    let mut app = app_on_events(vec![event("2026-06-01", "10:00", "A"), event("2026-06-02", "10:00", "B"), event("2026-06-03", "10:00", "C")]);
    handle_key(ch('j'), &mut app, "CDT");
    assert_eq!(app.events_sel, Some(1));
    handle_key(key(Key::Down), &mut app, "CDT");
    handle_key(key(Key::Down), &mut app, "CDT");
    assert_eq!(app.events_sel, Some(2));
    handle_key(ch('g'), &mut app, "CDT");
    assert_eq!(app.events_sel, Some(0));
    handle_key(key(Key::Up), &mut app, "CDT");
    assert_eq!(app.events_sel, Some(0));
    handle_key(ch('G'), &mut app, "CDT");
    assert_eq!(app.events_sel, Some(2));
    handle_key(ctrl('p'), &mut app, "CDT");
    assert_eq!(app.events_sel, Some(1));
    handle_key(ctrl('n'), &mut app, "CDT");
    assert_eq!(app.events_sel, Some(2));
    app.page_hint = 10;
    handle_key(key(Key::PageUp), &mut app, "CDT");
    assert_eq!(app.events_sel, Some(0));
    handle_key(ch(' '), &mut app, "CDT");
    assert_eq!(app.events_sel, Some(2));
}

#[test]
fn detail_view_moves_and_scrolls() {
    let mut long = event("2026-06-01", "10:00", "A");
    long.desc = "1\n2\n3\n4\n5".to_string();
    let mut app = app_on_events(vec![long, event("2026-06-02", "10:00", "B")]);
    handle_key(ch('d'), &mut app, "CDT");
    assert_eq!(app.screen, Screen::EventDetail);
    assert_eq!(app.detail_index, Some(0));
    assert_eq!(app.detail_lines[0], "A (1/2)");
    handle_key(ch('j'), &mut app, "CDT");
    assert_eq!(app.detail_scroll, 1);
    handle_key(ch('G'), &mut app, "CDT");
    assert_eq!(app.detail_scroll as usize, app.detail_lines.len() - 1);
    handle_key(key(Key::PageDown), &mut app, "CDT");
    assert_eq!(app.detail_scroll as usize, app.detail_lines.len() - 1);
    handle_key(ch('n'), &mut app, "CDT");
    assert_eq!(app.detail_index, Some(1));
    assert_eq!(app.detail_scroll, 0);
    assert_eq!(app.events_sel, Some(1));
    assert_eq!(app.detail_lines[0], "B (2/2)");
    handle_key(ch('n'), &mut app, "CDT");
    assert_eq!(app.detail_index, Some(1));
    handle_key(ch('p'), &mut app, "CDT");
    assert_eq!(app.detail_index, Some(0));
    handle_key(key(Key::Esc), &mut app, "CDT");
    assert_eq!(app.screen, Screen::Events);
    assert_eq!(app.detail_index, None);
}

#[test]
fn going_back_drops_the_events() {
    let mut app = app_on_events(vec![event("2026-06-01", "10:00", "A")]);
    handle_key(key(Key::Esc), &mut app, "CDT");
    assert_eq!(app.screen, Screen::Calendars);
    assert!(app.events.is_empty());
    assert_eq!(app.selected_calendar, None);
    assert_eq!(app.events_sel, None);
    handle_key(key(Key::Esc), &mut app, "CDT");
    assert_eq!(app.screen, Screen::Accounts);
    handle_key(key(Key::Esc), &mut app, "CDT");
    assert_eq!(app.screen, Screen::Accounts);
}

#[test]
fn help_toggles_from_any_screen() {
    let mut app = app_on_events(vec![event("2026-06-01", "10:00", "A")]);
    handle_key(ch('?'), &mut app, "CDT");
    assert_eq!(app.screen, Screen::Help);
    handle_key(ch('j'), &mut app, "CDT");
    assert_eq!(app.screen, Screen::Help);
    handle_key(ch('?'), &mut app, "CDT");
    assert_eq!(app.screen, Screen::Events);
    assert_eq!(app.prev_screen, Screen::Events);
}

#[test]
fn quit_keys_quit() {
    let mut app = App::new(accounts());
    assert_eq!(handle_key(ch('q'), &mut app, "CDT"), KeyOutcome::Quit);
    assert_eq!(handle_key(ctrl('c'), &mut app, "CDT"), KeyOutcome::Quit);
    assert_eq!(handle_key(key(Key::F(1)), &mut app, "CDT"), KeyOutcome::Quit);
    assert_eq!(handle_key(ch('c'), &mut app, "CDT"), KeyOutcome::Continue);
}

#[test]
fn command_prompt_runs_commands() {
    let mut app = App::new(accounts());
    handle_key(ch(':'), &mut app, "CDT");
    assert!(app.commanding);
    for c in " Quit".chars() {
        assert_eq!(handle_key(ch(c), &mut app, "CDT"), KeyOutcome::Continue);
    }
    assert_eq!(app.command, " Quit");
    assert_eq!(handle_key(key(Key::Enter), &mut app, "CDT"), KeyOutcome::Quit);
    assert!(!app.commanding);
    assert_eq!(app.command, "");

    handle_key(ch(':'), &mut app, "CDT");
    for c in "refreshx".chars() {
        handle_key(ch(c), &mut app, "CDT");
    }
    handle_key(key(Key::Backspace), &mut app, "CDT");
    assert_eq!(handle_key(key(Key::Enter), &mut app, "CDT"), KeyOutcome::Continue);
    assert!(app.loading);

    handle_key(ch(':'), &mut app, "CDT");
    handle_key(ch('q'), &mut app, "CDT");
    assert_eq!(handle_key(key(Key::Esc), &mut app, "CDT"), KeyOutcome::Continue);
    assert!(!app.commanding);
}

#[test]
fn filter_prompt_edits_the_query() {
    let mut app = app_on_events(vec![event("2026-06-01", "10:00", "A")]);
    handle_key(ch('/'), &mut app, "CDT");
    assert!(app.searching);
    for c in "revq".chars() {
        handle_key(ch(c), &mut app, "CDT");
    }
    handle_key(key(Key::Backspace), &mut app, "CDT");
    assert_eq!(app.query, "rev");
    handle_key(key(Key::Enter), &mut app, "CDT");
    assert!(!app.searching);
    assert!(app.loading);
    assert!(app.events.is_empty());
    assert_eq!(app.query, "rev");
    handle_key(ch('/'), &mut app, "CDT");
    handle_key(ch('x'), &mut app, "CDT");
    handle_key(key(Key::Esc), &mut app, "CDT");
    assert_eq!(app.query, "");
}

#[test]
fn failed_load_shows_the_error() {
    let mut app = App::new(accounts());
    handle_key(key(Key::Enter), &mut app, "CDT");
    begin_load(&mut app);
    finish_load(&mut app, Err("gcalcli list failed: boom".to_string()));
    assert_eq!(app.screen, Screen::Calendars);
    assert_eq!(app.error.as_deref(), Some("gcalcli list failed: boom"));
    handle_key(ctrl('r'), &mut app, "CDT");
    assert!(app.loading);
    begin_load(&mut app);
    finish_load(&mut app, Ok(Loaded::Calendars(calendars())));
    assert_eq!(app.error, None);
    assert_eq!(app.calendars.len(), 2);
}

#[test]
fn refresh_on_other_screens_keeps_browsing() {
    for screen in [Screen::Accounts, Screen::EventDetail, Screen::Help] {
        let mut app = App::new(accounts());
        app.screen = screen;
        app.error = Some("old".to_string());
        app.loading = true;
        assert_eq!(begin_load(&mut app), LoadRequest::Nothing);
        assert!(!app.loading);
        finish_load(&mut app, Ok(Loaded::Nothing));
        assert_eq!(app.screen, screen);
        assert_eq!(app.error, None);
        assert_eq!(handle_key(ch('j'), &mut app, "CDT"), KeyOutcome::Continue);
    }
    let mut app = App::new(accounts());
    handle_key(ctrl('r'), &mut app, "CDT");
    assert!(app.loading);
    assert_eq!(begin_load(&mut app), LoadRequest::Nothing);
    finish_load(&mut app, Ok(Loaded::Nothing));
    assert_eq!(app.screen, Screen::Accounts);
    assert_eq!(app.account_sel, Some(0));
}

#[test]
fn screen_titles_and_header() {
    assert_eq!(frame_title(Screen::EventDetail), "Event Detail");
    assert_eq!(frame_title(Screen::Help), "");
    let app = App::new(accounts());
    assert_eq!(header_parts(&app), ("accounts".to_string(), "Select an Account".to_string()));
    assert_eq!(breadcrumbs(&app), vec!["accounts"]);
    let events = app_on_events(vec![]);
    assert_eq!(header_parts(&events), ("Work".to_string(), "Upcoming Events".to_string()));
}

#[test]
fn access_labels_are_short() {
    assert_eq!(access_label("owner"), "owner");
    assert_eq!(access_label("writer"), "rw");
    assert_eq!(access_label("reader"), "ro");
    assert_eq!(access_label("freebusy"), "freebusy");
}

#[test]
fn event_date_label_adds_the_weekday() {
    assert_eq!(event_date_label("2026-04-06"), "2026-04-06 MON");
    assert_eq!(event_date_label("2026-04-05"), "2026-04-05 SUN");
    assert_eq!(event_date_label("soon"), "soon");
}

#[test]
fn detail_view_start_stays_on_the_text() {
    assert_eq!(detail_view_start(5, 3), 2);
    assert_eq!(detail_view_start(1, 3), 1);
    assert_eq!(detail_view_start(4, 0), 0);
}

#[test]
fn local_zone_name_from_link_or_env() {
    assert_eq!(
        local_zone_name("/usr/share/zoneinfo/America/Chicago", None),
        Some("America/Chicago".to_string())
    );
    assert_eq!(
        local_zone_name("/a/zoneinfo/b/zoneinfo/US/Central", Some("UTC".to_string())),
        Some("US/Central".to_string())
    );
    assert_eq!(local_zone_name("", Some("Europe/Paris".to_string())), Some("Europe/Paris".to_string()));
    assert_eq!(local_zone_name("", Some(String::new())), None);
    assert_eq!(local_zone_name("/usr/share/zoneinfo/", None), None);
    assert_eq!(local_zone_name("/etc/localtime", None), Some("/etc/localtime".to_string()));
}

#[test]
fn menu_items_follow_the_screen() {
    assert_eq!(menu_items(Screen::EventDetail), vec![("j/k", "scroll"), ("n/p", "event"), ("g/G", "top/bot"), ("esc", "back"), ("q", "quit")]);
    let list = menu_items(Screen::Events);
    assert_eq!(list.len(), 9);
    assert_eq!(list[0], ("j/k", "down/up"));
    assert_eq!(list[7], ("ctrl-r", "refresh"));
    assert_eq!(menu_items(Screen::Accounts), list);
}

#[test]
fn label_parts_split_after_the_first_colon() {
    assert_eq!(label_parts("When:  2026-06-01"), Some(("When:".to_string(), "  2026-06-01".to_string())));
    assert_eq!(label_parts("Link: http://x"), Some(("Link:".to_string(), " http://x".to_string())));
    assert_eq!(label_parts("no label"), None);
    assert_eq!(label_parts(":"), Some((":".to_string(), String::new())));
}

#[test]
fn shown_breadcrumbs_skip_empty_ones() {
    let mut app = App::new(accounts());
    app.account_config = Some("/nowhere".to_string());
    app.screen = Screen::EventDetail;
    app.selected_calendar = Some("Work".to_string());
    assert_eq!(
        shown_breadcrumbs(&app),
        vec![(false, "accounts".to_string()), (true, "Work".to_string()), (true, "detail".to_string())]
    );
    let events = app_on_events(vec![]);
    assert_eq!(
        shown_breadcrumbs(&events),
        vec![(false, "accounts".to_string()), (true, "work".to_string()), (true, "Work".to_string())]
    );
}

#[test]
fn account_keys_keep_the_selection_in_the_list() {
    let keys = [
        key(Key::Down), key(Key::Up), key(Key::PageDown), key(Key::PageUp), ch('j'), ch('k'), ch('g'), ch('G'),
        ch(' '), ctrl('n'), ctrl('p'), ch('x'), key(Key::Esc), ctrl('r'),
    ];
    for k in keys {
        let mut app = App::new(accounts());
        app.page_hint = 7;
        for _ in 0..3 {
            handle_key(k, &mut app, "CDT");
            let sel = app.account_sel.unwrap();
            assert!(sel < app.accounts.len());
            assert_eq!(app.accounts.len(), 2);
        }
    }
}

#[test]
fn typing_then_erasing_restores_the_filter() {
    let mut app = app_on_events(vec![event("2026-06-01", "10:00", "A")]);
    handle_key(ch('/'), &mut app, "CDT");
    handle_key(ch('a'), &mut app, "CDT");
    for c in ['z', 'é', ' ', 'q'] {
        let before = app.query.clone();
        handle_key(ch(c), &mut app, "CDT");
        handle_key(key(Key::Backspace), &mut app, "CDT");
        assert_eq!(app.query, before);
        assert!(app.searching);
        assert_eq!(app.screen, Screen::Events);
    }
}

#[test]
fn a_filter_only_removes_events() {
    let out = format!(
        "{AGENDA_HEADER}\n\
         2026-06-03\t09:00\t\t\t\tReview\t\tdesign\tWork\t\n\
         2026-06-02\t\t\t\t\tDesign day\t\t\tWork\t\n\
         2026-06-02\t08:00\t\t\t\tStandup\t\t\tWork\t\n\
         2026-06-01\t10:00\t\t\t\tDESIGN sync\t\t\tWork\t\n"
    );
    let all = parse_agenda(&out, "", "2026-01-01");
    for q in ["design", "DESIGN", "sync", "nothing"] {
        let filtered = parse_agenda(&out, q, "2026-01-01");
        let lower = q.to_lowercase();
        let expected: Vec<&str> = all
            .iter()
            .filter(|e| e.title.to_lowercase().contains(&lower) || e.desc.to_lowercase().contains(&lower))
            .map(|e| e.title.as_str())
            .collect();
        let got: Vec<&str> = filtered.iter().map(|e| e.title.as_str()).collect();
        assert_eq!(got, expected);
    }
}
