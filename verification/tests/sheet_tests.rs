use calendar::date::{date_iso, Date};
use calendar::sheet::{
    calendar_cells, calendar_file_name, cell_label, core_months, last_day, parse_date, prev_monday,
    prev_sunday, prev_sunday_checked, prev_monday_checked, schedule_columns, schedule_file_name, sheet_title, span_fits, tab_name, week_label,
};
use chrono::{Datelike, NaiveDate};

fn ymd(year: i32, month: u32, day: u32) -> Date {
    Date { year, month, day }
}

fn chrono_date(d: Date) -> NaiveDate {
    NaiveDate::from_ymd_opt(d.year, d.month, d.day).unwrap()
}

#[test]
fn parse_date_reads_iso_dates() {
    assert_eq!(parse_date("2026-04-05"), Some(ymd(2026, 4, 5)));
    assert_eq!(parse_date("2024-02-29"), Some(ymd(2024, 2, 29)));
}

#[test]
fn parse_date_rejects_other_text() {
    assert_eq!(parse_date("2026/04/05"), None);
    assert_eq!(parse_date("2026-02-30"), None);
    assert_eq!(parse_date("2025-02-29"), None);
    assert_eq!(parse_date("April 5"), None);
    assert_eq!(parse_date(""), None);
}

#[test]
fn prev_sunday_snaps_back_to_sunday() {
    assert_eq!(prev_sunday(ymd(2026, 4, 8)), ymd(2026, 4, 5));
    assert_eq!(prev_sunday(ymd(2026, 4, 11)), ymd(2026, 4, 5));
    assert_eq!(prev_sunday(ymd(2026, 4, 1)), ymd(2026, 3, 29));
}

#[test]
fn prev_sunday_keeps_a_sunday() {
    assert_eq!(prev_sunday(ymd(2026, 4, 5)), ymd(2026, 4, 5));
    let once = prev_sunday(ymd(2026, 1, 1));
    assert_eq!(prev_sunday(once), once);
    assert_eq!(chrono_date(once).weekday().num_days_from_sunday(), 0);
}

#[test]
fn prev_monday_snaps_back_to_monday() {
    assert_eq!(prev_monday(ymd(2026, 9, 1)), ymd(2026, 8, 31));
    assert_eq!(prev_monday(ymd(2026, 8, 31)), ymd(2026, 8, 31));
    assert_eq!(prev_monday(ymd(2026, 9, 6)), ymd(2026, 8, 31));
}

#[test]
fn cell_label_names_the_month_at_a_boundary() {
    assert_eq!(cell_label(ymd(2026, 4, 5), None), "Apr 5");
    assert_eq!(cell_label(ymd(2026, 4, 6), Some(ymd(2026, 4, 5))), "6");
    assert_eq!(cell_label(ymd(2026, 5, 1), Some(ymd(2026, 4, 30))), "May 1");
    assert_eq!(cell_label(ymd(2027, 1, 1), Some(ymd(2026, 12, 31))), "Jan 1");
}

#[test]
fn week_label_is_day_then_month() {
    assert_eq!(week_label(ymd(2026, 8, 31)), "31 Aug");
    assert_eq!(week_label(ymd(2026, 9, 7)), "7 Sep");
    assert_eq!(week_label(ymd(2026, 12, 28)), "28 Dec");
}

#[test]
fn core_months_trim_fringe_months() {
    let months = core_months(ymd(2026, 4, 5), 14);
    assert_eq!(months, vec![ymd(2026, 4, 1), ymd(2026, 5, 1), ymd(2026, 6, 1)]);
}

#[test]
fn core_months_fall_back_to_the_start_month() {
    assert_eq!(core_months(ymd(2026, 4, 26), 1), vec![ymd(2026, 4, 1)]);
    assert_eq!(core_months(ymd(2026, 4, 26), 0), vec![ymd(2026, 4, 1)]);
}

#[test]
fn each_core_month_has_two_weeks_in_range() {
    let start = ymd(2025, 11, 30);
    let weeks = 14;
    let first = chrono_date(start);
    let end = first + chrono::Duration::weeks(weeks as i64) - chrono::Duration::days(1);
    for m in core_months(start, weeks) {
        let mut days = 0;
        let mut d = chrono_date(m);
        while d.month() == m.month {
            if d >= first && d <= end {
                days += 1;
            }
            d = d.succ_opt().unwrap();
        }
        assert!(days >= 14);
    }
}

#[test]
fn tab_name_and_title_for_one_year() {
    assert_eq!(tab_name(ymd(2026, 4, 5), 14), "Apr-Jun 2026");
    assert_eq!(sheet_title(ymd(2026, 4, 5), 14), "April - June 2026");
}

#[test]
fn tab_name_and_title_across_years() {
    assert_eq!(tab_name(ymd(2025, 11, 30), 14), "Dec 2025 - Feb 2026");
    assert_eq!(sheet_title(ymd(2025, 11, 30), 14), "December 2025 - February 2026");
}

#[test]
fn tab_name_and_title_for_one_month() {
    assert_eq!(tab_name(ymd(2026, 2, 1), 2), "Feb 2026");
    assert_eq!(sheet_title(ymd(2026, 2, 1), 2), "February 2026");
    assert_eq!(tab_name(ymd(2026, 4, 26), 1), "Apr 2026");
}

#[test]
fn calendar_file_name_matches_the_readme() {
    assert_eq!(calendar_file_name(ymd(2026, 4, 5), 14), "Apr-Jun 2026 2026-04-05.xlsx");
}

#[test]
fn schedule_file_name_names_the_schedule() {
    assert_eq!(schedule_file_name(ymd(2026, 8, 31), 12), "Sep-Nov 2026 Schedule 2026-08-31.xlsx");
}

#[test]
fn last_day_is_the_day_before_the_next_week() {
    assert_eq!(last_day(ymd(2026, 4, 5), 14), ymd(2026, 7, 11));
    assert_eq!(last_day(ymd(2026, 4, 5), 1), ymd(2026, 4, 11));
}

#[test]
fn date_iso_writes_as_chrono_displays() {
    assert_eq!(date_iso(ymd(2026, 4, 5)), "2026-04-05");
    assert_eq!(date_iso(ymd(7, 1, 9)), "0007-01-09");
    assert_eq!(date_iso(ymd(12345, 6, 7)), "+12345-06-07");
    assert_eq!(date_iso(ymd(-1, 1, 1)), "-0001-01-01");
    for d in [ymd(2026, 4, 5), ymd(7, 1, 9), ymd(12345, 6, 7), ymd(-1, 1, 1)] {
        assert_eq!(date_iso(d), chrono_date(d).to_string());
    }
}

#[test]
fn span_fits_inside_chrono_range() {
    assert!(span_fits(ymd(2026, 4, 5), 14));
    assert!(!span_fits(ymd(262142, 12, 20), 1));
    assert!(!span_fits(ymd(262142, 11, 20), 2));
    assert!(span_fits(ymd(262142, 11, 20), 1));
}

#[test]
fn calendar_cells_fill_the_grid() {
    let cells = calendar_cells(ymd(2026, 4, 5), 14);
    assert_eq!(cells.len(), 98);
    assert_eq!((cells[0].row, cells[0].col), (2, 1));
    assert_eq!(cells[0].label, "Apr 5");
    assert!(cells[0].weekend);
    assert_eq!(cells[1].label, "6");
    assert!(!cells[1].weekend);
    assert!(cells[6].weekend);
    assert_eq!((cells[7].row, cells[7].col), (4, 1));
    assert_eq!(cells[26].date, ymd(2026, 5, 1));
    assert_eq!(cells[26].label, "May 1");
    assert_eq!(cells[97].date, ymd(2026, 7, 11));
}

#[test]
fn calendar_columns_hold_their_weekdays() {
    let cells = calendar_cells(prev_sunday(ymd(2026, 4, 8)), 3);
    for (i, c) in cells.iter().enumerate() {
        assert_eq!(chrono_date(c.date).weekday().num_days_from_sunday() as usize, i % 7);
        assert_eq!(c.col as usize, 1 + i % 7);
    }
}

#[test]
fn schedule_columns_are_weeks_from_monday() {
    let cols = schedule_columns(prev_monday(ymd(2026, 9, 1)), 3);
    assert_eq!(cols.len(), 3);
    assert_eq!((cols[0].col, cols[0].label.as_str()), (1, "31 Aug"));
    assert_eq!((cols[1].col, cols[1].label.as_str()), (2, "7 Sep"));
    assert_eq!((cols[2].col, cols[2].label.as_str()), (3, "14 Sep"));
    for c in &cols {
        assert_eq!(chrono_date(c.date).weekday().num_days_from_monday(), 0);
    }
}

#[test]
fn checked_snaps_stop_at_the_start_of_chrono_range() {
    assert_eq!(prev_sunday_checked(ymd(2026, 4, 8)), Some(ymd(2026, 4, 5)));
    assert_eq!(prev_monday_checked(ymd(2026, 9, 1)), Some(ymd(2026, 8, 31)));
    let first = NaiveDate::MIN;
    let d = ymd(first.year(), first.month(), first.day());
    let back = first.weekday().num_days_from_sunday();
    assert_eq!(prev_sunday_checked(d).is_none(), back > 0);
    assert_eq!(prev_sunday_checked(ymd(2026, 4, 5)), Some(ymd(2026, 4, 5)));
}
