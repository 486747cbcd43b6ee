//! The rows of one week's timesheet.
use vstd::prelude::*;
use crate::dates::{CalendarDate, MAX_DAY, WeekRange, parse_utc_day, rfc3339_day, valid_day, valid_ymd, weekday, ymd_day};
use crate::mapper::{build_task_description, task_description};
use crate::model::{EntryView, TimesheetEntry, entry_views};
use crate::text::text_eq;
use super::error::{ExcelError, Failure};
use super::shared_strings::{SharedStrings, StringsView, lemma_nth_index_add, lemma_pushed_all, lemma_pushed_all_append, nth_index, pushed_all};

verus! {

/// One line of the timesheet table: its date as an Excel serial day number, the shared-string
/// indexes of its texts, and its hours.
pub struct TimesheetRow<H> {
    pub date_serial: i32,
    pub day_type_idx: usize,
    pub task_idx: usize,
    pub status_idx: usize,
    pub hours: H,
    pub comment_idx: usize,
}

/// The status column text of an entry status: closed and committed work is completed.
pub open spec fn status_label(status: Seq<char>) -> Seq<char> {
    if status == "closed"@ || status == "committed"@ {
        "Completed"@
    } else {
        "In progress"@
    }
}

/// The status column text of an entry (`status_text`).
pub fn status_text(entry: &TimesheetEntry) -> (r: &'static str)
    ensures
        r@ == status_label(entry.status@),
{
    if text_eq(entry.status.as_str(), "closed") || text_eq(entry.status.as_str(), "committed") {
        "Completed"
    } else {
        "In progress"
    }
}

/// The day number of 1899-12-30, from which Excel counts its serial days.
pub open spec fn excel_epoch() -> int {
    ymd_day(1899, 12, 30)
}

/// 1899-12-30 is day 693594.
pub proof fn lemma_excel_epoch()
    ensures
        excel_epoch() == 693594,
{
    reveal_with_fuel(crate::dates::days_before_month, 12);
    assert(crate::dates::days_before_year(1899) == 693230);
}

/// The Excel serial day number of a date (`excel_date_serial`): its days since 1899-12-30.
pub fn excel_date_serial(date: CalendarDate) -> (r: i32)
    requires
        date.wf(),
    ensures
        r as int == date.day - excel_epoch(),
        r as int == date.day - 693594,
{
    proof {
        assert(valid_ymd(1899, 12, 30));
        lemma_excel_epoch();
    }
    let base = CalendarDate::from_ymd(1899, 12, 30).unwrap();
    date.day - base.day
}

/// The day falls on a Saturday or a Sunday.
pub open spec fn is_weekend(day: int) -> bool {
    weekday(day) == 0 || weekday(day) == 6
}

/// The type-of-day text of a day.
pub open spec fn day_type_text(day: int) -> Seq<char> {
    if is_weekend(day) {
        "Weekend"@
    } else {
        "Work Day"@
    }
}

/// A table line before its texts are stored: its day, its task and status texts, and whether
/// an entry gave it (a day without entries gets one blank line).
pub struct DayLine {
    pub day: int,
    pub task: Seq<char>,
    pub status: Seq<char>,
    pub active: bool,
}

/// An entry with the day number of its date.
pub struct DatedEntry {
    pub entry: EntryView,
    pub day: int,
}

/// The entries, each with the day given for it in `days`.
pub open spec fn dated(entries: Seq<EntryView>, days: Seq<i32>) -> Seq<DatedEntry> {
    Seq::new(entries.len(), |i: int| DatedEntry { entry: entries[i], day: days[i] as int })
}

/// The entries, each with the UTC day of its RFC 3339 date (0 where the date does not parse).
pub open spec fn utc_dated(entries: Seq<EntryView>) -> Seq<DatedEntry> {
    entries.map_values(
        |e: EntryView|
            DatedEntry {
                entry: e,
                day: match rfc3339_day(e.date) {
                    Some(d) => d,
                    None => 0,
                },
            },
    )
}

/// Entries dated on `day`.
pub open spec fn on_day(day: int) -> spec_fn(DatedEntry) -> bool {
    |e: DatedEntry| e.day == day
}

/// The line an entry dated on `day` gives.
pub open spec fn entry_line(day: int) -> spec_fn(DatedEntry) -> DayLine {
    |e: DatedEntry| DayLine { day, task: task_description(e.entry), status: status_label(e.entry.status), active: true }
}

/// The blank line of a day without entries.
pub open spec fn blank_line(day: int) -> DayLine {
    DayLine { day, task: Seq::empty(), status: Seq::empty(), active: false }
}

/// The lines of one day: one per entry of that day, in input order, or one blank line.
pub open spec fn day_lines(entries: Seq<DatedEntry>, day: int) -> Seq<DayLine> {
    let es = entries.filter(on_day(day));
    if es.len() == 0 {
        seq![blank_line(day)]
    } else {
        es.map_values(entry_line(day))
    }
}

/// The lines of the days `first..=last`, day by day.
pub open spec fn week_lines(entries: Seq<DatedEntry>, first: int, last: int) -> Seq<DayLine>
    decreases last - first + 1,
{
    if last < first {
        Seq::empty()
    } else {
        week_lines(entries, first, last - 1) + day_lines(entries, last)
    }
}

/// The four texts stored for a line: type of day, task, status and an empty comment.
pub open spec fn line_texts(line: DayLine) -> Seq<Seq<char>> {
    seq![day_type_text(line.day), line.task, line.status, Seq::empty()]
}

/// The texts stored for the lines, in order.
pub open spec fn lines_texts(lines: Seq<DayLine>) -> Seq<Seq<char>>
    decreases lines.len(),
{
    if lines.len() == 0 {
        Seq::empty()
    } else {
        lines_texts(lines.drop_last()) + line_texts(lines.last())
    }
}

/// Row `k` of a table whose first text went to shared-string index `first` is the row of
/// `line`: entries on workdays get `hours`, everything else `idle`.
pub open spec fn row_matches<H>(row: TimesheetRow<H>, line: DayLine, first: usize, k: int, hours: H, idle: H) -> bool {
    &&& row.date_serial as int == line.day - excel_epoch()
    &&& row.day_type_idx == nth_index(first, 4 * k)
    &&& row.task_idx == nth_index(first, 4 * k + 1)
    &&& row.status_idx == nth_index(first, 4 * k + 2)
    &&& row.comment_idx == nth_index(first, 4 * k + 3)
    &&& row.hours == if line.active && !is_weekend(line.day) {
        hours
    } else {
        idle
    }
}

/// The rows are the rows of the lines.
pub open spec fn rows_match<H>(rows: Seq<TimesheetRow<H>>, lines: Seq<DayLine>, first: usize, hours: H, idle: H) -> bool {
    &&& rows.len() == lines.len()
    &&& forall|k: int| 0 <= k < rows.len() ==> row_matches(#[trigger] rows[k], lines[k], first, k, hours, idle)
}

proof fn lemma_lines_texts_len(lines: Seq<DayLine>)
    ensures
        lines_texts(lines).len() == 4 * lines.len(),
    decreases lines.len(),
{
    if lines.len() > 0 {
        lemma_lines_texts_len(lines.drop_last());
    }
}

/// Stores the four texts of a row and gives the row (`timesheet_row`).
fn timesheet_row<H: Copy>(
    date_serial: i32,
    day_type: &str,
    task: &str,
    status: &str,
    hours: H,
    strings: &mut SharedStrings,
) -> (r: TimesheetRow<H>)
    requires
        old(strings).wf(),
    ensures
        final(strings).wf(),
        final(strings)@ == pushed_all(old(strings)@, seq![day_type@, task@, status@, Seq::empty()]),
        r.date_serial == date_serial,
        r.hours == hours,
        r.day_type_idx == old(strings)@.unique_count,
        r.task_idx == nth_index(old(strings)@.unique_count, 1),
        r.status_idx == nth_index(old(strings)@.unique_count, 2),
        r.comment_idx == nth_index(old(strings)@.unique_count, 3),
{
    let ghost s0 = strings@;
    let ghost texts = seq![day_type@, task@, status@, Seq::<char>::empty()];
    let day_type_idx = strings.push(day_type);
    proof {
        assert(texts.take(1).drop_last() =~= Seq::<Seq<char>>::empty());
        assert(pushed_all(s0, texts.take(1).drop_last()) == s0);
        assert(texts.take(1).last() == day_type@);
        assert(pushed_all(s0, texts.take(1)) == strings@);
    }
    let task_idx = strings.push(task);
    proof {
        assert(texts.take(2).drop_last() =~= texts.take(1));
        assert(pushed_all(s0, texts.take(2)) == strings@);
    }
    let status_idx = strings.push(status);
    proof {
        assert(texts.take(3).drop_last() =~= texts.take(2));
        assert(pushed_all(s0, texts.take(3)) == strings@);
    }
    let comment_idx = strings.push("");
    proof {
        reveal_strlit("");
        assert(""@ =~= Seq::<char>::empty());
        assert(texts.last() == ""@);
        assert(texts.drop_last() =~= texts.take(3));
        assert(pushed_all(s0, texts) == strings@);
        lemma_pushed_all(s0, texts.take(1));
        lemma_pushed_all(s0, texts.take(2));
        lemma_pushed_all(s0, texts.take(3));
    }
    TimesheetRow { date_serial, day_type_idx, task_idx, status_idx, hours, comment_idx }
}

proof fn lemma_row_pushed<H>(
    rows: Seq<TimesheetRow<H>>,
    lines: Seq<DayLine>,
    row: TimesheetRow<H>,
    line: DayLine,
    s0: StringsView,
    before: StringsView,
    hours: H,
    idle: H,
)
    requires
        rows_match(rows, lines, s0.unique_count, hours, idle),
        before == pushed_all(s0, lines_texts(lines)),
        row.date_serial as int == line.day - excel_epoch(),
        row.day_type_idx == before.unique_count,
        row.task_idx == nth_index(before.unique_count, 1),
        row.status_idx == nth_index(before.unique_count, 2),
        row.comment_idx == nth_index(before.unique_count, 3),
        row.hours == if line.active && !is_weekend(line.day) {
            hours
        } else {
            idle
        },
    ensures
        rows_match(rows.push(row), lines.push(line), s0.unique_count, hours, idle),
        pushed_all(before, line_texts(line)) == pushed_all(s0, lines_texts(lines.push(line))),
{
    let k = lines.len() as int;
    lemma_pushed_all(s0, lines_texts(lines));
    lemma_lines_texts_len(lines);
    lemma_nth_index_add(s0.unique_count, 4 * k, 1);
    lemma_nth_index_add(s0.unique_count, 4 * k, 2);
    lemma_nth_index_add(s0.unique_count, 4 * k, 3);
    lemma_pushed_all_append(s0, lines_texts(lines), line_texts(line));
    assert(lines.push(line).drop_last() =~= lines);
    assert(row_matches(row, line, s0.unique_count, k, hours, idle));
    assert forall|j: int| 0 <= j < rows.push(row).len() implies row_matches(
        #[trigger] rows.push(row)[j],
        lines.push(line)[j],
        s0.unique_count,
        j,
        hours,
        idle,
    ) by {
        if j < k {
            assert(rows.push(row)[j] == rows[j]);
            assert(row_matches(rows[j], lines[j], s0.unique_count, j, hours, idle));
        }
    }
}

/// The first entry from `i` on whose date is not an RFC 3339 timestamp.
pub open spec fn undated_from(entries: Seq<EntryView>, i: int) -> Option<int>
    decreases entries.len() - i,
{
    if i < 0 || i >= entries.len() {
        None
    } else if rfc3339_day(entries[i].date) is None {
        Some(i)
    } else {
        undated_from(entries, i + 1)
    }
}

/// A first undated entry lies within the list and has an unreadable date; where there is
/// none, every date reads.
pub proof fn lemma_undated_from(entries: Seq<EntryView>, i: int)
    requires
        0 <= i,
    ensures
        undated_from(entries, i) matches Some(k) ==> i <= k < entries.len() && rfc3339_day(entries[k].date) is None,
        undated_from(entries, i) is None ==> forall|k: int| i <= k < entries.len() ==> rfc3339_day(#[trigger] entries[k].date) is Some,
    decreases entries.len() - i,
{
    if i < entries.len() && rfc3339_day(entries[i].date) is Some {
        lemma_undated_from(entries, i + 1);
    }
}

/// The UTC day number of each entry's RFC 3339 date, or the error for the first entry whose
/// date does not parse.
pub fn entry_days(entries: &[TimesheetEntry]) -> (r: Result<Vec<i32>, ExcelError>)
    ensures
        match r {
            Ok(days) => undated_from(entry_views(entries@), 0) is None && days@.len() == entries@.len()
                && forall|i: int| 0 <= i < days@.len() ==> rfc3339_day(entries@[i].date@) == Some(#[trigger] days@[i] as int)
                    && valid_day(days@[i] as int),
            Err(e) => undated_from(entry_views(entries@), 0) matches Some(i) && e@ == Failure::InvalidEntryDate(entries@[i].date@),
        },
{
    let ghost views = entry_views(entries@);
    let mut days: Vec<i32> = Vec::new();
    let mut i: usize = 0;
    while i < entries.len()
        invariant
            i <= entries@.len(),
            views == entry_views(entries@),
            days@.len() == i,
            forall|k: int| 0 <= k < i ==> rfc3339_day(entries@[k].date@) == Some(#[trigger] days@[k] as int) && valid_day(days@[k] as int),
            undated_from(views, 0) == undated_from(views, i as int),
        decreases entries.len() - i,
    {
        assert(views[i as int] == entries@[i as int]@);
        match parse_utc_day(entries[i].date.as_str()) {
            Some(c) => {
                days.push(c.day);
            },
            None => {
                return Err(ExcelError::InvalidEntryDate(entries[i].date.clone()));
            },
        }
        i += 1;
    }
    Ok(days)
}

/// The week's last day is the last day chrono represents, so the day after it overflows.
pub open spec fn week_overflows(week: WeekRange) -> bool {
    week.start.day <= week.end.day && week.end.day == MAX_DAY
}

/// The table rows of the week for entries dated on `days` (the day number of each entry):
/// day by day from the week's start to its end, one row per entry dated on that day (in input
/// order), or one blank row for a day without entries. Each row stores its type-of-day, task,
/// status and comment texts in `strings`; entries on workdays get `hours_per_day`, every
/// other row `idle_hours`. Where the week ends on the last day chrono represents, the day after
/// it does not exist and the rows are refused, once stored.
pub fn build_rows_for_days<H: Copy>(
    entries: &[TimesheetEntry],
    days: &[i32],
    week: &WeekRange,
    hours_per_day: H,
    idle_hours: H,
    strings: &mut SharedStrings,
) -> (r: Result<Vec<TimesheetRow<H>>, ExcelError>)
    requires
        old(strings).wf() || week.start.day > week.end.day,
        week.start.wf(),
        week.end.wf(),
        days@.len() == entries@.len(),
    ensures
        final(strings).wf() || week.start.day > week.end.day,
        final(strings)@ == pushed_all(
            old(strings)@,
            lines_texts(week_lines(dated(entry_views(entries@), days@), week.start.day as int, week.end.day as int)),
        ),
        match r {
            Ok(rows) => !week_overflows(*week) && rows_match(
                rows@,
                week_lines(dated(entry_views(entries@), days@), week.start.day as int, week.end.day as int),
                old(strings)@.unique_count,
                hours_per_day,
                idle_hours,
            ),
            Err(e) => week_overflows(*week) && e@ == Failure::DateOverflow,
        },
{
    let ghost views = dated(entry_views(entries@), days@);
    let ghost s0 = strings@;
    let ghost first = s0.unique_count;
    let ghost start = week.start.day as int;
    let mut rows: Vec<TimesheetRow<H>> = Vec::new();
    let mut day: i32 = week.start.day;
    proof {
        assert(week_lines(views, start, start - 1) =~= Seq::<DayLine>::empty());
        assert(lines_texts(Seq::<DayLine>::empty()) =~= Seq::<Seq<char>>::empty());
        assert(pushed_all(s0, Seq::<Seq<char>>::empty()) == s0);
    }
    while day <= week.end.day
        invariant
            week.start.wf(),
            week.end.wf(),
            start == week.start.day,
            start <= day,
            day <= week.end.day + 1 || day == start,
            views == dated(entry_views(entries@), days@),
            days@.len() == entries@.len(),
            strings.wf() || week.start.day > week.end.day,
            rows_match(rows@, week_lines(views, start, day - 1), first, hours_per_day, idle_hours),
            strings@ == pushed_all(s0, lines_texts(week_lines(views, start, day - 1))),
            s0.unique_count == first,
        decreases week.end.day + 1 - day,
    {
        let weekday_number = CalendarDate { day }.weekday_from_sunday();
        let weekend = weekday_number == 0 || weekday_number == 6;
        let day_type = if weekend { "Weekend" } else { "Work Day" };
        assert(day_type@ == day_type_text(day as int));
        let serial = excel_date_serial(CalendarDate { day });
        let ghost before = week_lines(views, start, day - 1);
        let ghost p = on_day(day as int);
        let ghost f = entry_line(day as int);
        let mut found = false;
        let mut i: usize = 0;
        assert(views.take(0) =~= Seq::<DatedEntry>::empty());
        assert(before + Seq::<DatedEntry>::empty().filter(p).map_values(f) =~= before);
        while i < entries.len()
            invariant
                i <= entries@.len(),
                views == dated(entry_views(entries@), days@),
                days@.len() == entries@.len(),
                p == on_day(day as int),
                f == entry_line(day as int),
                serial == day - excel_epoch(),
                weekend == is_weekend(day as int),
                day_type@ == day_type_text(day as int),
                found == (views.take(i as int).filter(p).len() > 0),
                strings.wf(),
                rows_match(rows@, before + views.take(i as int).filter(p).map_values(f), first, hours_per_day, idle_hours),
                strings@ == pushed_all(s0, lines_texts(before + views.take(i as int).filter(p).map_values(f))),
                s0.unique_count == first,
            decreases entries.len() - i,
        {
            let ghost done = views.take(i as int).filter(p);
            let ghost lines = before + done.map_values(f);
            proof {
                reveal_with_fuel(Seq::<_>::filter, 1);
                assert(views.take(i + 1).drop_last() =~= views.take(i as int));
                assert(views.take(i + 1).last() == views[i as int]);
                assert(views[i as int] == DatedEntry { entry: entries@[i as int]@, day: days@[i as int] as int });
            }
            if days[i] == day {
                let task = build_task_description(&entries[i]);
                let status = status_text(&entries[i]);
                let hours = if weekend { idle_hours } else { hours_per_day };
                let ghost line = f(views[i as int]);
                let ghost strings_before = strings@;
                let row = timesheet_row(serial, day_type, task.as_str(), status, hours, strings);
                proof {
                    assert(line_texts(line) =~= seq![day_type@, task@, status@, Seq::<char>::empty()]);
                    lemma_row_pushed(rows@, lines, row, line, s0, strings_before, hours_per_day, idle_hours);
                    assert(done.push(views[i as int]).map_values(f) =~= done.map_values(f).push(line));
                    assert(lines.push(line) =~= before + views.take(i + 1).filter(p).map_values(f));
                }
                rows.push(row);
                found = true;
            } else {
                assert(views.take(i + 1).filter(p) == done);
            }
            i += 1;
        }
        assert(views.take(entries.len() as int) =~= views);
        if !found {
            let ghost lines = before + views.filter(p).map_values(f);
            let ghost line = blank_line(day as int);
            let ghost strings_before = strings@;
            let row = timesheet_row(serial, day_type, "", "", idle_hours, strings);
            proof {
                reveal_strlit("");
                assert(""@ =~= Seq::<char>::empty());
                assert(lines =~= before);
                assert(line_texts(line) =~= seq![day_type@, ""@, ""@, Seq::<char>::empty()]);
                lemma_row_pushed(rows@, lines, row, line, s0, strings_before, hours_per_day, idle_hours);
                assert(day_lines(views, day as int) == seq![line]);
                assert(lines.push(line) =~= before + day_lines(views, day as int));
            }
            rows.push(row);
        }
        proof {
            assert(week_lines(views, start, day as int) == before + day_lines(views, day as int));
        }
        day += 1;
    }
    proof {
        if week.start.day > week.end.day {
            assert(week_lines(views, start, week.end.day as int) =~= Seq::<DayLine>::empty());
        }
    }
    if week.start.day <= week.end.day && week.end.day == MAX_DAY {
        return Err(ExcelError::DateOverflow);
    }
    Ok(rows)
}

/// The table rows of the week (`build_timesheet_rows`): the entries' dates are read as
/// RFC 3339 timestamps and each entry is placed on its UTC day, as `build_rows_for_days`
/// places them. An entry whose date does not parse stops it before anything is stored.
pub fn build_timesheet_rows<H: Copy>(
    entries: &[TimesheetEntry],
    week: &WeekRange,
    hours_per_day: H,
    idle_hours: H,
    strings: &mut SharedStrings,
) -> (r: Result<Vec<TimesheetRow<H>>, ExcelError>)
    requires
        old(strings).wf() || week.start.day > week.end.day,
        week.start.wf(),
        week.end.wf(),
    ensures
        final(strings).wf() || week.start.day > week.end.day,
        match r {
            Ok(rows) => undated_from(entry_views(entries@), 0) is None && !week_overflows(*week)
                && rows_match(
                    rows@,
                    week_lines(utc_dated(entry_views(entries@)), week.start.day as int, week.end.day as int),
                    old(strings)@.unique_count,
                    hours_per_day,
                    idle_hours,
                )
                && final(strings)@ == pushed_all(
                    old(strings)@,
                    lines_texts(week_lines(utc_dated(entry_views(entries@)), week.start.day as int, week.end.day as int)),
                ),
            Err(e) => match undated_from(entry_views(entries@), 0) {
                Some(i) => e@ == Failure::InvalidEntryDate(entry_views(entries@)[i].date) && final(strings)@ == old(strings)@,
                None => week_overflows(*week) && e@ == Failure::DateOverflow && final(strings)@ == pushed_all(
                    old(strings)@,
                    lines_texts(week_lines(utc_dated(entry_views(entries@)), week.start.day as int, week.end.day as int)),
                ),
            },
        },
{
    proof {
        lemma_undated_from(entry_views(entries@), 0);
    }
    let days = match entry_days(entries) {
        Ok(d) => d,
        Err(e) => {
            return Err(e);
        },
    };
    proof {
        assert(dated(entry_views(entries@), days@) =~= utc_dated(entry_views(entries@)));
    }
    build_rows_for_days(entries, &days, week, hours_per_day, idle_hours, strings)
}

/// Lines that belong to day `day`.
pub open spec fn line_on(day: int) -> spec_fn(DayLine) -> bool {
    |l: DayLine| l.day == day
}

proof fn lemma_day_lines_days(entries: Seq<DatedEntry>, day: int)
    ensures
        forall|k: int| 0 <= k < day_lines(entries, day).len() ==> (#[trigger] day_lines(entries, day)[k]).day == day,
        day_lines(entries, day).len() >= 1,
{
}

proof fn lemma_week_lines_days(entries: Seq<DatedEntry>, first: int, last: int)
    ensures
        forall|k: int| 0 <= k < week_lines(entries, first, last).len() ==> first <= (#[trigger] week_lines(entries, first, last)[k]).day <= last,
    decreases last - first + 1,
{
    if last >= first {
        lemma_week_lines_days(entries, first, last - 1);
        lemma_day_lines_days(entries, last);
        let before = week_lines(entries, first, last - 1);
        let today = day_lines(entries, last);
        assert forall|k: int| 0 <= k < week_lines(entries, first, last).len() implies first <= (#[trigger] week_lines(entries, first, last)[k]).day <= last by {
            if k < before.len() {
                assert(week_lines(entries, first, last)[k] == before[k]);
            } else {
                assert(week_lines(entries, first, last)[k] == today[k - before.len()]);
            }
        }
    }
}

proof fn lemma_filter_all_or_none(lines: Seq<DayLine>, p: spec_fn(DayLine) -> bool, keep: bool)
    requires
        forall|k: int| 0 <= k < lines.len() ==> p(#[trigger] lines[k]) == keep,
    ensures
        lines.filter(p) == if keep { lines } else { Seq::<DayLine>::empty() },
    decreases lines.len(),
{
    reveal_with_fuel(Seq::<_>::filter, 1);
    if lines.len() > 0 {
        lemma_filter_all_or_none(lines.drop_last(), p, keep);
        assert(p(lines[lines.len() - 1]) == keep);
        if keep {
            assert(lines.drop_last().push(lines.last()) =~= lines);
        }
    } else {
        assert(lines.filter(p) =~= Seq::<DayLine>::empty());
    }
}

/// Every day of the week has its own lines in the table, and they are that day's lines: one
/// per entry dated on it, in input order, or one blank line where there is none.
pub proof fn law_rows_of_a_day(entries: Seq<DatedEntry>, first: int, last: int, day: int)
    requires
        first <= day <= last,
    ensures
        week_lines(entries, first, last).filter(line_on(day)) == day_lines(entries, day),
        day_lines(entries, day).len() == if entries.filter(on_day(day)).len() == 0 {
            1
        } else {
            entries.filter(on_day(day)).len()
        },
    decreases last - first + 1,
{
    let before = week_lines(entries, first, last - 1);
    let today = day_lines(entries, last);
    lemma_day_lines_days(entries, last);
    lemma_week_lines_days(entries, first, last - 1);
    vstd::seq::Seq::filter_distributes_over_add(before, today, line_on(day));
    if day == last {
        lemma_filter_all_or_none(before, line_on(day), false);
        lemma_filter_all_or_none(today, line_on(day), true);
        assert(Seq::<DayLine>::empty() + today =~= today);
    } else {
        law_rows_of_a_day(entries, first, last - 1, day);
        lemma_filter_all_or_none(today, line_on(day), false);
        assert(day_lines(entries, day) + Seq::<DayLine>::empty() =~= day_lines(entries, day));
    }
}

proof fn lemma_lines_texts_index(lines: Seq<DayLine>, k: int, j: int)
    requires
        0 <= k < lines.len(),
        0 <= j < 4,
    ensures
        lines_texts(lines).len() == 4 * lines.len(),
        lines_texts(lines)[4 * k + j] == line_texts(lines[k])[j],
    decreases lines.len(),
{
    lemma_lines_texts_len(lines);
    lemma_lines_texts_len(lines.drop_last());
    if k < lines.len() - 1 {
        lemma_lines_texts_index(lines.drop_last(), k, j);
        assert(lines_texts(lines)[4 * k + j] == lines_texts(lines.drop_last())[4 * k + j]);
    }
}

/// After the rows are built, looking up a row's indexes in the table gives the row's texts:
/// its type of day, its task, its status and an empty comment, where the table's
/// `uniqueCount` matched its items and the new items fit below the top of `usize`.
pub proof fn law_row_texts_lookup<H>(
    rows: Seq<TimesheetRow<H>>,
    lines: Seq<DayLine>,
    before: StringsView,
    after: StringsView,
    hours: H,
    idle: H,
    k: int,
)
    requires
        rows_match(rows, lines, before.unique_count, hours, idle),
        after == pushed_all(before, lines_texts(lines)),
        before.unique_count == before.values.len(),
        before.values.len() + 4 * lines.len() <= usize::MAX,
        0 <= k < rows.len(),
    ensures
        after.values[rows[k].day_type_idx as int] == day_type_text(lines[k].day),
        after.values[rows[k].task_idx as int] == lines[k].task,
        after.values[rows[k].status_idx as int] == lines[k].status,
        after.values[rows[k].comment_idx as int] == Seq::<char>::empty(),
{
    assert(row_matches(rows[k], lines[k], before.unique_count, k, hours, idle));
    lemma_pushed_all(before, lines_texts(lines));
    let u = before.unique_count as int;
    let m = (usize::MAX + 1) as nat;
    assert(after.values == before.values + lines_texts(lines));
    lemma_lines_texts_index(lines, k, 0);
    lemma_lines_texts_index(lines, k, 1);
    lemma_lines_texts_index(lines, k, 2);
    lemma_lines_texts_index(lines, k, 3);
    vstd::arithmetic::div_mod::lemma_small_mod((u + 4 * k) as nat, m);
    vstd::arithmetic::div_mod::lemma_small_mod((u + 4 * k + 1) as nat, m);
    vstd::arithmetic::div_mod::lemma_small_mod((u + 4 * k + 2) as nat, m);
    vstd::arithmetic::div_mod::lemma_small_mod((u + 4 * k + 3) as nat, m);
    assert(after.values[u + 4 * k] == lines_texts(lines)[4 * k]);
    assert(after.values[u + 4 * k + 1] == lines_texts(lines)[4 * k + 1]);
    assert(after.values[u + 4 * k + 2] == lines_texts(lines)[4 * k + 2]);
    assert(after.values[u + 4 * k + 3] == lines_texts(lines)[4 * k + 3]);
}

} // verus!
