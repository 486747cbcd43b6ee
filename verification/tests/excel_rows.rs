use work_logr::dates::{CalendarDate, WeekRange};
use work_logr::excel::rows::build_timesheet_rows;
use work_logr::excel::shared_strings::SharedStrings;
use work_logr::model::TimesheetEntry;

const EMPTY_TABLE: &str =
    r#"<sst xmlns="http://schemas.openxmlformats.org/spreadsheetml/2006/main" count="0" uniqueCount="0"></sst>"#;

fn test_week() -> WeekRange {
    WeekRange {
        start: CalendarDate::from_ymd(2026, 5, 18).expect("valid test date"),
        end: CalendarDate::from_ymd(2026, 5, 24).expect("valid test date"),
    }
}

fn timesheet_entry(entry_type: &str, number: &str, title: &str) -> TimesheetEntry {
    timesheet_entry_on(entry_type, number, title, "2026-05-18T11:00:00Z")
}

fn timesheet_entry_on(entry_type: &str, number: &str, title: &str, date: &str) -> TimesheetEntry {
    TimesheetEntry {
        entry_type: entry_type.to_string(),
        number: number.to_string(),
        title: title.to_string(),
        status: "closed".to_string(),
        closed_at: String::new(),
        created_at: "2026-05-18T09:00:00Z".to_string(),
        updated_at: "2026-05-18T11:00:00Z".to_string(),
        assignees: "iamkabelomoobi".to_string(),
        author: "iamkabelomoobi".to_string(),
        url: format!("https://github.com/example/repo/{entry_type}/{number}"),
        date: date.to_string(),
    }
}

#[test]
fn writes_same_day_commits_and_pull_requests_to_separate_rows() {
    let week = test_week();
    let entries = [
        timesheet_entry("Commit", "", "Add profile support"),
        timesheet_entry("Commit", "", "Make hours configurable"),
        timesheet_entry("Pull Request", "980", "Ship config profiles"),
        timesheet_entry("Pull Request", "976", "Improve Excel formatting"),
    ];
    let mut strings = SharedStrings::new(EMPTY_TABLE.to_string()).expect("shared strings should parse");

    let rows = build_timesheet_rows(&entries, &week, 8.0, 0.0, &mut strings).expect("timesheet rows should build");

    assert_eq!(rows.len(), 10);
    assert!(rows[..4].iter().all(|row| row.date_serial == rows[0].date_serial));
    assert_eq!(strings.values()[rows[0].task_idx], "Commit: Add profile support");
    assert_eq!(strings.values()[rows[1].task_idx], "Commit: Make hours configurable");
    assert_eq!(strings.values()[rows[2].task_idx], "Pull Request #980: Ship config profiles");
    assert_eq!(strings.values()[rows[3].task_idx], "Pull Request #976: Improve Excel formatting");
    assert!(rows[..4].iter().all(|row| row.hours == 8.0));
    assert_eq!(strings.values()[rows[4].task_idx], "");
    assert_eq!(rows[4].hours, 0.0);
}

#[test]
fn writes_each_weekend_activity_to_a_zero_hour_row() {
    let week = test_week();
    let entries = [
        timesheet_entry_on("Commit", "", "Fix Saturday deploy", "2026-05-24T09:00:00Z"),
        timesheet_entry_on("Pull Request", "42", "Review weekend release", "2026-05-24T11:00:00Z"),
    ];
    let mut strings = SharedStrings::new(EMPTY_TABLE.to_string()).expect("shared strings should parse");

    let rows = build_timesheet_rows(&entries, &week, 8.0, 0.0, &mut strings).expect("timesheet rows should build");

    assert_eq!(rows.len(), 8);
    assert_eq!(rows[6].date_serial, rows[7].date_serial);
    assert_eq!(strings.values()[rows[6].day_type_idx], "Weekend");
    assert_eq!(strings.values()[rows[7].day_type_idx], "Weekend");
    assert_eq!(rows[6].hours, 0.0);
    assert_eq!(rows[7].hours, 0.0);
    assert_eq!(strings.values()[rows[7].task_idx], "Pull Request #42: Review weekend release");
}

#[test]
fn uses_custom_hours_only_for_workdays_with_activity() {
    let week = test_week();
    let entries = vec![timesheet_entry("Issue", "42", "Populate Excel template")];
    let mut strings = SharedStrings::new(EMPTY_TABLE.to_string()).expect("shared strings should parse");

    let rows = build_timesheet_rows(&entries, &week, 7.5, 0.0, &mut strings).expect("timesheet rows should build");

    assert_eq!(rows[0].hours, 7.5);
    assert_eq!(rows[1].hours, 0.0);
    assert_eq!(rows[5].hours, 0.0);
}

#[test]
fn serial_days_count_from_the_excel_epoch() {
    let week = test_week();
    let mut strings = SharedStrings::new(EMPTY_TABLE.to_string()).expect("shared strings should parse");

    let rows = build_timesheet_rows::<f64>(&[], &week, 8.0, 0.0, &mut strings).expect("timesheet rows should build");

    // 2026-05-18 is Excel serial day 46160.
    assert_eq!(rows.len(), 7);
    assert_eq!(rows[0].date_serial, 46160);
    assert_eq!(rows[6].date_serial, 46166);
    assert_eq!(strings.values()[rows[0].day_type_idx], "Work Day");
    assert_eq!(strings.values()[rows[5].day_type_idx], "Weekend");
    assert_eq!(strings.values()[rows[6].day_type_idx], "Weekend");
    assert_eq!(strings.values()[rows[0].status_idx], "");
    assert_eq!(strings.values()[rows[0].comment_idx], "");
    assert_eq!(strings.unique_count, 28);
    assert_eq!(strings.count, 28);
}

#[test]
fn status_text_marks_closed_and_committed_work_completed() {
    let week = WeekRange { start: test_week().start, end: test_week().start };
    let mut open = timesheet_entry("Issue", "7", "Investigate");
    open.status = "open".to_string();
    let mut committed = timesheet_entry("Commit", "", "Tune");
    committed.status = "committed".to_string();
    let entries = [timesheet_entry("Issue", "8", "Done"), open, committed];
    let mut strings = SharedStrings::new(EMPTY_TABLE.to_string()).expect("shared strings should parse");

    let rows = build_timesheet_rows(&entries, &week, 8.0, 0.0, &mut strings).expect("timesheet rows should build");

    assert_eq!(rows.len(), 3);
    assert_eq!(strings.values()[rows[0].status_idx], "Completed");
    assert_eq!(strings.values()[rows[1].status_idx], "In progress");
    assert_eq!(strings.values()[rows[2].status_idx], "Completed");
}

#[test]
fn rejects_an_entry_with_an_unreadable_date() {
    let week = test_week();
    let entries = [
        timesheet_entry("Commit", "", "Fine"),
        timesheet_entry_on("Commit", "", "Broken", "yesterday"),
    ];
    let mut strings = SharedStrings::new(EMPTY_TABLE.to_string()).expect("shared strings should parse");

    let result = build_timesheet_rows(&entries, &week, 8.0, 0.0, &mut strings);

    assert!(matches!(result, Err(work_logr::excel::error::ExcelError::InvalidEntryDate(ref d)) if d == "yesterday"));
    assert_eq!(strings.values().len(), 0);
    assert_eq!(strings.unique_count, 0);
}

#[test]
fn ignores_entries_outside_the_week() {
    let week = test_week();
    let entries = [timesheet_entry_on("Commit", "", "Earlier", "2026-05-01T09:00:00Z")];
    let mut strings = SharedStrings::new(EMPTY_TABLE.to_string()).expect("shared strings should parse");

    let rows = build_timesheet_rows(&entries, &week, 8.0, 0.0, &mut strings).expect("timesheet rows should build");

    assert_eq!(rows.len(), 7);
    assert!(rows.iter().all(|row| row.hours == 0.0));
}
