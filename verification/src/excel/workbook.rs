//! Filling a workbook template with one week of timesheet entries.
use vstd::prelude::*;
use crate::dates::{WeekRange, iso_date_text, month_name_text};
use crate::model::{EntryView, TimesheetEntry, entry_views};
use crate::text::{append_chars, chars_of, string_of, to_uppercase, uppercase_text};
use super::error::{ExcelError, Failure};
use super::layout::{LayoutView, TemplateLayout, discover_layout};
use super::rows::{
    DatedEntry, DayLine, TimesheetRow, build_rows_for_days, dated, entry_days, excel_epoch, is_weekend, lines_texts,
    lemma_undated_from, row_matches, rows_match, undated_from, utc_dated, week_lines, week_overflows,
};
use super::sheet::{replace_worksheet_data, replacement_views, run_steps, worksheet_steps};
use super::shared_strings::{
    SharedStrings, StringsView, attr_failure, nth_index, pushed_all, shared_string_values, usize_attr, with_attr,
};

verus! {

/// What a template gives once read: its shared-string table and its layout, or why it
/// cannot be used (an empty part, an unreadable count, or a label the layout needs).
pub open spec fn template_parts(shared: Seq<char>, ws: Seq<char>) -> Result<(StringsView, LayoutView), Failure> {
    if shared.len() == 0 {
        Err(Failure::MissingSharedStrings)
    } else if ws.len() == 0 {
        Err(Failure::MissingWorksheet)
    } else {
        match usize_attr(shared, "count"@) {
            None => Err(attr_failure(shared, "count"@)),
            Some(c) => match usize_attr(shared, "uniqueCount"@) {
                None => Err(attr_failure(shared, "uniqueCount"@)),
                Some(u) => {
                    let strings = StringsView {
                        xml: shared,
                        count: c as usize,
                        unique_count: u as usize,
                        values: shared_string_values(shared),
                    };
                    match discover_layout(ws, strings.values) {
                        Ok(layout) => Ok((strings, layout)),
                        Err(e) => Err(e),
                    }
                },
            },
        }
    }
}

/// Reads a template's shared-string table and finds its layout. `shared_strings` and
/// `worksheet` are the texts of `xl/sharedStrings.xml` and `xl/worksheets/sheet1.xml`, empty
/// where the template lacks them.
pub fn prepare_template(shared_strings: String, worksheet: String) -> (r: Result<(SharedStrings, Vec<char>, TemplateLayout), ExcelError>)
    ensures
        match r {
            Ok((s, w, l)) => template_parts(shared_strings@, worksheet@) == Ok::<(StringsView, LayoutView), Failure>((s@, l@))
                && w@ == worksheet@,
            Err(e) => template_parts(shared_strings@, worksheet@) == Err::<(StringsView, LayoutView), Failure>(e@),
        },
{
    if shared_strings.as_str().is_empty() {
        return Err(ExcelError::MissingSharedStrings);
    }
    if worksheet.as_str().is_empty() {
        return Err(ExcelError::MissingWorksheet);
    }
    let strings = match SharedStrings::new(shared_strings) {
        Ok(s) => s,
        Err(e) => return Err(e),
    };
    let ws = chars_of(worksheet.as_str());
    let layout = match TemplateLayout::discover(&ws, strings.values()) {
        Ok(l) => l,
        Err(e) => return Err(e),
    };
    Ok((strings, ws, layout))
}

/// The four header texts: the month of the week's start, the user, the repository in upper
/// case, and the week as `start - end`.
pub open spec fn header_texts(week: WeekRange, repo: Seq<char>, user: Seq<char>) -> Seq<Seq<char>> {
    seq![
        month_name_text(week.start.day as int),
        user,
        uppercase_text(repo),
        iso_date_text(week.start.day as int) + " - "@ + iso_date_text(week.end.day as int),
    ]
}

/// The header fields, each with the index of its stored text.
pub open spec fn header_replacements(first: usize) -> Seq<(Seq<char>, usize)> {
    seq![
        ("month"@, first),
        ("employeename"@, nth_index(first, 1)),
        ("projectname"@, nth_index(first, 2)),
        ("weeklyperiod"@, nth_index(first, 3)),
    ]
}

/// The row of `line` when it is row `k` of a table whose first text went to index `first`.
pub open spec fn line_row<H>(line: DayLine, first: usize, k: int, hours: H, idle: H) -> TimesheetRow<H> {
    TimesheetRow {
        date_serial: (line.day - excel_epoch()) as i32,
        day_type_idx: nth_index(first, 4 * k),
        task_idx: nth_index(first, 4 * k + 1),
        status_idx: nth_index(first, 4 * k + 2),
        hours: if line.active && !is_weekend(line.day) {
            hours
        } else {
            idle
        },
        comment_idx: nth_index(first, 4 * k + 3),
    }
}

/// The rows of `lines`.
pub open spec fn line_rows<H>(lines: Seq<DayLine>, first: usize, hours: H, idle: H) -> Seq<TimesheetRow<H>> {
    Seq::new(lines.len(), |k: int| line_row(lines[k], first, k, hours, idle))
}

proof fn lemma_rows_are_line_rows<H>(rows: Seq<TimesheetRow<H>>, lines: Seq<DayLine>, first: usize, hours: H, idle: H)
    requires
        rows_match(rows, lines, first, hours, idle),
    ensures
        rows == line_rows(lines, first, hours, idle),
{
    assert forall|k: int| 0 <= k < rows.len() implies rows[k] == line_rows(lines, first, hours, idle)[k] by {
        assert(row_matches(rows[k], lines[k], first, k, hours, idle));
    }
    assert(rows =~= line_rows(lines, first, hours, idle));
}

/// The hours written on a row without work on a workday.
pub open spec fn idle_hours_text() -> &'static str {
    "0"
}

/// The filled shared-string XML and worksheet XML for entries placed on their days: the four
/// header texts `heads` and the week's rows are stored as shared strings, the worksheet gets
/// the header fields and the table, and the table's counts are brought up to date.
pub open spec fn filled_with(
    strings: StringsView,
    ws: Seq<char>,
    layout: LayoutView,
    entries: Seq<DatedEntry>,
    heads: Seq<Seq<char>>,
    week: WeekRange,
    hours: &str,
) -> Result<(Seq<char>, Seq<char>), Failure> {
    let headed = pushed_all(strings, heads);
    let lines = week_lines(entries, week.start.day as int, week.end.day as int);
    if week_overflows(week) {
        Err(Failure::DateOverflow)
    } else {
        let rows = line_rows(lines, headed.unique_count, hours, idle_hours_text());
        let done = pushed_all(headed, lines_texts(lines));
        match run_steps(ws, worksheet_steps(layout, header_replacements(strings.unique_count), rows)) {
            Ok(w) => Ok((with_attr(with_attr(done.xml, "count"@, done.count as nat), "uniqueCount"@, done.unique_count as nat), w)),
            Err(e) => Err(e),
        }
    }
}

/// The filled shared-string XML and worksheet XML (`export_to_excel` once the template is
/// read): the entries are placed on the UTC days of their dates, and the header shows the
/// month, the user, the repository in upper case and the week.
pub open spec fn filled_parts(
    strings: StringsView,
    ws: Seq<char>,
    layout: LayoutView,
    entries: Seq<EntryView>,
    repo: Seq<char>,
    user: Seq<char>,
    week: WeekRange,
    hours: &str,
) -> Result<(Seq<char>, Seq<char>), Failure> {
    match undated_from(entries, 0) {
        Some(i) => Err(Failure::InvalidEntryDate(entries[i].date)),
        None => filled_with(strings, ws, layout, utc_dated(entries), header_texts(week, repo, user), week, hours),
    }
}

/// Fills a read template with entries dated on `days` (the day number of each entry): gives
/// the new shared-string XML and the new worksheet XML. The header fields get `month`,
/// `user`, `project` and `period`; `hours_text` is how the hours of a worked day are written.
pub fn fill_template_with(
    strings: SharedStrings,
    worksheet: &[char],
    layout: &TemplateLayout,
    entries: &[TimesheetEntry],
    days: &[i32],
    month: &str,
    user: &str,
    project: &str,
    period: &str,
    week: &WeekRange,
    hours_text: &str,
) -> (r: Result<(String, String), ExcelError>)
    requires
        strings.wf(),
        week.start.wf(),
        week.end.wf(),
        days@.len() == entries@.len(),
    ensures
        match r {
            Ok((x, w)) => filled_with(
                strings@,
                worksheet@,
                layout@,
                dated(entry_views(entries@), days@),
                seq![month@, user@, project@, period@],
                *week,
                hours_text,
            ) == Ok::<(Seq<char>, Seq<char>), Failure>((x@, w@)),
            Err(e) => filled_with(
                strings@,
                worksheet@,
                layout@,
                dated(entry_views(entries@), days@),
                seq![month@, user@, project@, period@],
                *week,
                hours_text,
            ) == Err::<(Seq<char>, Seq<char>), Failure>(e@),
        },
{
    let ghost s0 = strings@;
    let ghost heads = seq![month@, user@, project@, period@];
    let mut strings = strings;
    let month_idx = strings.push(month);
    let user_idx = strings.push(user);
    let project_idx = strings.push(project);
    let period_idx = strings.push(period);
    proof {
        assert(heads.take(1).drop_last() =~= Seq::<Seq<char>>::empty());
        assert(heads.take(2).drop_last() =~= heads.take(1));
        assert(heads.take(3).drop_last() =~= heads.take(2));
        assert(heads.drop_last() =~= heads.take(3));
        assert(pushed_all(s0, heads.take(1).drop_last()) == s0);
        assert(pushed_all(s0, heads.take(1)) == super::shared_strings::pushed(s0, heads[0]));
        super::shared_strings::lemma_pushed_all(s0, heads.take(1));
        super::shared_strings::lemma_pushed_all(s0, heads.take(2));
        super::shared_strings::lemma_pushed_all(s0, heads.take(3));
        assert(strings@ == pushed_all(s0, heads));
    }
    let idle: &str = "0";
    let rows = match build_rows_for_days(entries, days, week, hours_text, idle, &mut strings) {
        Ok(rows) => rows,
        Err(e) => return Err(e),
    };
    proof {
        lemma_rows_are_line_rows(
            rows@,
            week_lines(dated(entry_views(entries@), days@), week.start.day as int, week.end.day as int),
            pushed_all(s0, heads).unique_count,
            hours_text,
            idle,
        );
    }
    let replacements: Vec<(&str, usize)> = vec![
        ("month", month_idx),
        ("employeename", user_idx),
        ("projectname", project_idx),
        ("weeklyperiod", period_idx),
    ];
    proof {
        assert(replacement_views(replacements@) =~= header_replacements(s0.unique_count));
    }
    let filled = match replace_worksheet_data(worksheet, layout, &replacements, &rows) {
        Ok(w) => w,
        Err(e) => return Err(e),
    };
    Ok((strings.into_xml(), string_of(&filled)))
}

/// Fills a read template with the week's entries (`export_to_excel` once the template is
/// read): gives the new shared-string XML and the new worksheet XML. `hours_text` is how the
/// hours of a worked day are written.
pub fn fill_template(
    strings: SharedStrings,
    worksheet: &[char],
    layout: &TemplateLayout,
    entries: &[TimesheetEntry],
    repo: &str,
    user: &str,
    week: &WeekRange,
    hours_text: &str,
) -> (r: Result<(String, String), ExcelError>)
    requires
        strings.wf(),
        week.start.wf(),
        week.end.wf(),
    ensures
        match r {
            Ok((x, w)) => filled_parts(strings@, worksheet@, layout@, entry_views(entries@), repo@, user@, *week, hours_text)
                == Ok::<(Seq<char>, Seq<char>), Failure>((x@, w@)),
            Err(e) => filled_parts(strings@, worksheet@, layout@, entry_views(entries@), repo@, user@, *week, hours_text)
                == Err::<(Seq<char>, Seq<char>), Failure>(e@),
        },
{
    let month = week.start.month_name();
    let mut period = chars_of(week.start.iso_text().as_str());
    append_chars(&mut period, &chars_of(" - "));
    append_chars(&mut period, &chars_of(week.end.iso_text().as_str()));
    let period = string_of(&period);
    let project = to_uppercase(repo);
    proof {
        lemma_undated_from(entry_views(entries@), 0);
    }
    let days = match entry_days(entries) {
        Ok(d) => d,
        Err(e) => return Err(e),
    };
    proof {
        assert(dated(entry_views(entries@), days@) =~= utc_dated(entry_views(entries@)));
        assert(seq![month@, user@, project@, period@] =~= header_texts(*week, repo@, user@));
    }
    fill_template_with(strings, worksheet, layout, entries, &days, month.as_str(), user, project.as_str(), period.as_str(), week, hours_text)
}

} // verus!
