use work_logr::dates::{week_ranges_fit, CalendarDate, MAX_DAY};
use work_logr::excel::error::ExcelError;
use work_logr::excel::rows::{build_rows_for_days, entry_days, excel_date_serial};
use work_logr::excel::shared_strings::SharedStrings;
use work_logr::mapper::starts_like_merge;
use work_logr::model::TimesheetEntry;
use work_logr::report::{
    centered_padding, classify_part, file_name_for, selected_repos, terminal_width, PackagePart,
};
use work_logr::weeks::parsed_in_week;
use work_logr::dates::WeekRange;

fn day(y: i32, m: u32, d: u32) -> CalendarDate {
    CalendarDate::from_ymd(y, m, d).expect("valid date")
}

#[test]
fn excel_serial_days_count_from_the_end_of_1899() {
    assert_eq!(excel_date_serial(day(1899, 12, 30)), 0);
    assert_eq!(excel_date_serial(day(1900, 1, 1)), 2);
    assert_eq!(excel_date_serial(day(2026, 5, 18)), 46160);
    assert_eq!(day(1, 1, 1).day, 1);
    assert_eq!(day(1899, 12, 30).day, 693594);
}

#[test]
fn weeks_fit_unless_they_reach_past_the_last_date() {
    assert!(week_ranges_fit(day(2026, 5, 18), day(2026, 5, 24)));
    assert!(week_ranges_fit(day(2026, 5, 24), day(2026, 5, 18)));
    let last = CalendarDate { day: MAX_DAY };
    assert!(!week_ranges_fit(day(2026, 5, 18), last));
}

#[test]
fn error_messages_name_what_is_wrong() {
    assert_eq!(ExcelError::MissingRow(12).message(), "Template worksheet is missing row 12");
    assert_eq!(
        ExcelError::TooFewRows { available: 3, needed: 4 }.message(),
        "Template has 3 timesheet row(s), but this week needs 4 activity/day row(s)"
    );
    assert_eq!(
        ExcelError::MissingAttribute("count".to_string()).message(),
        "sharedStrings.xml is missing count attribute"
    );
}

fn entry(title: &str, date: &str) -> TimesheetEntry {
    TimesheetEntry {
        entry_type: "Commit".to_string(),
        number: String::new(),
        title: title.to_string(),
        status: "committed".to_string(),
        closed_at: String::new(),
        created_at: String::new(),
        updated_at: String::new(),
        assignees: String::new(),
        author: String::new(),
        url: String::new(),
        date: date.to_string(),
    }
}

#[test]
fn entry_days_read_utc_dates() {
    let entries = [entry("a", "2026-05-18T23:30:00-02:00"), entry("b", "2026-05-18T10:00:00Z")];
    assert_eq!(entry_days(&entries).expect("dates parse"), vec![day(2026, 5, 19).day, day(2026, 5, 18).day]);
    let broken = [entry("a", "2026-05-18")];
    assert!(matches!(entry_days(&broken), Err(ExcelError::InvalidEntryDate(ref d)) if d == "2026-05-18"));
}

#[test]
fn rows_follow_the_given_days() {
    let week = WeekRange { start: day(2026, 5, 22), end: day(2026, 5, 23) };
    let entries = [entry("late", "ignored"), entry("early", "ignored")];
    let days = [day(2026, 5, 23).day, day(2026, 5, 22).day];
    let mut strings = SharedStrings::new(r#"<sst count="0" uniqueCount="0"></sst>"#.to_string()).expect("valid table");

    let rows = build_rows_for_days(&entries, &days, &week, 8u8, 0u8, &mut strings).expect("rows build");

    assert_eq!(rows.len(), 2);
    assert_eq!(strings.values()[rows[0].task_idx], "Commit: early");
    assert_eq!(rows[0].hours, 8);
    assert_eq!(strings.values()[rows[1].task_idx], "Commit: late");
    assert_eq!(strings.values()[rows[1].day_type_idx], "Weekend");
    assert_eq!(rows[1].hours, 0);
}

#[test]
fn the_last_representable_week_overflows() {
    let last = CalendarDate { day: MAX_DAY };
    let week = WeekRange { start: last, end: last };
    let mut strings = SharedStrings::new(r#"<sst count="0" uniqueCount="0"></sst>"#.to_string()).expect("valid table");

    let result = build_rows_for_days::<u8>(&[], &[], &week, 8, 0, &mut strings);

    assert!(matches!(result, Err(ExcelError::DateOverflow)));
    assert_eq!(strings.values().len(), 4);
}

#[test]
fn program_helpers() {
    assert!(starts_like_merge("merge: release"));
    assert!(starts_like_merge("merged feature"));
    assert!(!starts_like_merge("mergeable fix"));
    assert_eq!(file_name_for("R", "u", 0, "2026-05-18", "2026-05-24"), "R_u_Week_1_2026-05-18_to_2026-05-24.xlsx");
    assert!(parsed_in_week(Some(day(2026, 5, 20)), &WeekRange { start: day(2026, 5, 18), end: day(2026, 5, 24) }));
    assert!(!parsed_in_week(None, &WeekRange { start: day(2026, 5, 18), end: day(2026, 5, 24) }));
    assert_eq!(terminal_width(Some("80")), 80);
    assert_eq!(terminal_width(Some("wide")), 100);
    assert_eq!(terminal_width(None), 100);
    assert_eq!(centered_padding(100, 60), 20);
    assert_eq!(centered_padding(10, 60), 0);
    assert_eq!(classify_part("xl/sharedStrings.xml"), PackagePart::SharedStrings);
    assert_eq!(classify_part("xl/worksheets/sheet1.xml"), PackagePart::Worksheet);
    assert_eq!(classify_part("xl/styles.xml"), PackagePart::Other);
    assert_eq!(selected_repos(&vec![], &"main".to_string()), vec!["main".to_string()]);
    assert_eq!(selected_repos(&vec!["a".to_string(), "b".to_string()], &"main".to_string()), vec!["a", "b"]);
}
