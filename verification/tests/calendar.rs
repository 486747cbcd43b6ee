use work_logr::chronology::sort_entries_by_date;
use work_logr::cli::{day_end_text, day_start_text, period_bounds, validate, CliError};
use work_logr::dates::{get_week_ranges, is_in_range, parse_date, parse_utc_day, CalendarDate, WeekRange};
use work_logr::model::TimesheetEntry;
use work_logr::report::{repo_display_label, repo_filename_label, week_output_file_name};
use work_logr::weeks::split_entries_by_week;

fn day(y: i32, m: u32, d: u32) -> CalendarDate {
    CalendarDate::from_ymd(y, m, d).expect("valid date")
}

fn entry(title: &str, date: &str) -> TimesheetEntry {
    TimesheetEntry {
        entry_type: "Commit".to_string(),
        number: String::new(),
        title: title.to_string(),
        status: "committed".to_string(),
        closed_at: String::new(),
        created_at: String::new(),
        updated_at: String::new(),
        assignees: String::new(),
        author: String::new(),
        url: title.to_string(),
        date: date.to_string(),
    }
}

#[test]
fn weeks_end_on_sundays_and_cover_the_period() {
    // 2026-04-26 is a Sunday; 2026-05-18 a Monday.
    let weeks = get_week_ranges(day(2026, 4, 26), day(2026, 5, 18));
    assert_eq!(weeks.len(), 5);
    assert_eq!(weeks[0], WeekRange { start: day(2026, 4, 26), end: day(2026, 4, 26) });
    assert_eq!(weeks[1], WeekRange { start: day(2026, 4, 27), end: day(2026, 5, 3) });
    assert_eq!(weeks[3], WeekRange { start: day(2026, 5, 11), end: day(2026, 5, 17) });
    assert_eq!(weeks[4], WeekRange { start: day(2026, 5, 18), end: day(2026, 5, 18) });
    assert!(get_week_ranges(day(2026, 5, 18), day(2026, 5, 17)).is_empty());
}

#[test]
fn entries_go_to_the_week_of_their_utc_day() {
    let weeks = get_week_ranges(day(2026, 5, 14), day(2026, 5, 20));
    let entries = vec![
        entry("thursday", "2026-05-14T10:00:00Z"),
        entry("late sunday", "2026-05-17T23:30:00-02:00"),
        entry("tuesday", "2026-05-19T10:00:00Z"),
        entry("broken", "not a date"),
    ];

    let split = split_entries_by_week(entries, &weeks);

    assert_eq!(split.len(), 2);
    assert_eq!(split[0].len(), 1);
    assert_eq!(split[0][0].title, "thursday");
    assert_eq!(split[1].len(), 2);
    assert_eq!(split[1][0].title, "late sunday");
}

#[test]
fn dates_parse_and_compare() {
    let start = parse_date("2026-05-18T00:00:00Z").expect("valid");
    let end = parse_date("2026-05-18T23:59:59Z").expect("valid");
    assert!(is_in_range(Some("2026-05-18T12:00:00+02:00"), start, end));
    assert!(!is_in_range(Some("2026-05-19T00:00:00Z"), start, end));
    assert!(!is_in_range(Some("garbage"), start, end));
    assert!(!is_in_range(None, start, end));
    assert_eq!(parse_utc_day("2026-05-18T23:30:00-01:00"), Some(day(2026, 5, 19)));
    assert_eq!(day(2026, 5, 18).iso_text(), "2026-05-18");
    assert_eq!(day(2026, 5, 18).month_name(), "May");
    assert_eq!(day(2026, 5, 17).weekday_from_sunday(), 0);
    assert_eq!(day(2026, 5, 23).weekday_from_sunday(), 6);
    assert!(CalendarDate::from_ymd(2026, 2, 29).is_none());
}

#[test]
fn period_bounds_cover_whole_days() {
    assert_eq!(day_start_text("2026-05-18"), "2026-05-18T00:00:00Z");
    assert_eq!(day_end_text("2026-05-24"), "2026-05-24T23:59:59Z");
    let (a, b) = period_bounds("2026-05-18", "2026-05-24").expect("valid dates");
    assert_eq!(b.seconds - a.seconds, 7 * 86400 - 1);
    assert!(period_bounds("2026-5-x", "2026-05-24").is_none());
}

#[test]
fn rejects_non_positive_or_non_finite_hours_per_day() {
    for hours in [0.0, -1.0, f64::NAN, f64::INFINITY] {
        let positive_finite = hours.is_finite() && hours > 0.0;
        let error = validate("template.xlsx", positive_finite, "2026-06-01", "2026-06-07");
        assert!(matches!(error, Err(CliError::InvalidHours)), "unexpected validation result for {hours}");
    }
}

#[test]
fn run_options_are_checked_in_order() {
    assert!(validate("t.xlsx", true, "2026-06-01", "2026-06-07").is_ok());
    assert!(matches!(validate("", false, "x", "y"), Err(CliError::MissingTemplate)));
    assert!(matches!(validate("t.xlsx", true, "2026-13-01", "y"), Err(CliError::InvalidStartDate(_))));
    assert!(matches!(validate("t.xlsx", true, "2026-06-01", "06/07/2026"), Err(CliError::InvalidEndDate(_))));
}

#[test]
fn entries_sort_by_date_keeping_ties_in_order() {
    let sorted = sort_entries_by_date(vec![
        entry("c", "2026-05-19T10:00:00Z"),
        entry("a", "2026-05-18T10:00:00Z"),
        entry("d", "2026-05-19T10:00:00Z"),
        entry("b", "2026-05-18T10:00:00Z"),
        entry("e", ""),
    ]);
    let titles: Vec<&str> = sorted.iter().map(|e| e.title.as_str()).collect();
    assert_eq!(titles, vec!["e", "a", "b", "c", "d"]);
}

#[test]
fn workbook_labels_and_file_names() {
    let repos = vec!["org/api".to_string(), "web".to_string()];
    assert_eq!(repo_display_label(&repos), "org/api, web");
    assert_eq!(repo_filename_label(&repos), "ORG-API_WEB");
    let week = WeekRange { start: day(2026, 5, 18), end: day(2026, 5, 24) };
    assert_eq!(
        week_output_file_name("ORG-API_WEB", "iamkabelomoobi", 1, &week),
        "ORG-API_WEB_iamkabelomoobi_Week_2_2026-05-18_to_2026-05-24.xlsx"
    );
}
