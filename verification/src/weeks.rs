//! Grouping entries into the weeks of the reporting period.
use vstd::prelude::*;
use crate::dates::{CalendarDate, WeekRange, is_week_split, parse_utc_day, rfc3339_day};
use crate::model::TimesheetEntry;

verus! {

/// The entry's date parses, and its UTC day lies within the week.
pub open spec fn entry_in_week(e: TimesheetEntry, w: WeekRange) -> bool {
    match rfc3339_day(e.date@) {
        Some(d) => w.start.day <= d <= w.end.day,
        None => false,
    }
}

/// The entries that fall within the week, in order.
pub open spec fn entries_in_week(entries: Seq<TimesheetEntry>, w: WeekRange) -> Seq<TimesheetEntry>
    decreases entries.len(),
{
    if entries.len() == 0 {
        Seq::empty()
    } else {
        let prev = entries_in_week(entries.drop_last(), w);
        if entry_in_week(entries.last(), w) {
            prev.push(entries.last())
        } else {
            prev
        }
    }
}

/// Whether an entry whose date parsed to `day` (or did not parse) falls within the week.
pub fn parsed_in_week(day: Option<CalendarDate>, week: &WeekRange) -> (r: bool)
    ensures
        r == match day {
            Some(d) => week.start.day <= d.day <= week.end.day,
            None => false,
        },
{
    match day {
        Some(d) => week.start.day <= d.day && d.day <= week.end.day,
        None => false,
    }
}

fn entries_for_week(entries: &Vec<TimesheetEntry>, week: &WeekRange) -> (r: Vec<TimesheetEntry>)
    ensures
        r@ == entries_in_week(entries@, *week),
{
    let mut r: Vec<TimesheetEntry> = Vec::new();
    let mut i: usize = 0;
    while i < entries.len()
        invariant
            i <= entries@.len(),
            r@ == entries_in_week(entries@.take(i as int), *week),
        decreases entries.len() - i,
    {
        assert(entries@.take(i + 1).drop_last() == entries@.take(i as int));
        assert(entries@.take(i + 1).last() == entries@[i as int]);
        let inside = parsed_in_week(parse_utc_day(entries[i].date.as_str()), week);
        if inside {
            r.push(entries[i].duplicate());
        }
        i += 1;
    }
    assert(entries@.take(entries@.len() as int) == entries@);
    r
}

/// For each week, the entries whose date falls within it, in their input order.
pub fn split_entries_by_week(entries: Vec<TimesheetEntry>, weeks: &[WeekRange]) -> (r: Vec<Vec<TimesheetEntry>>)
    ensures
        r@.len() == weeks@.len(),
        forall|i: int| 0 <= i < weeks@.len() ==> (#[trigger] r@[i])@ == entries_in_week(entries@, weeks@[i]),
{
    let mut r: Vec<Vec<TimesheetEntry>> = Vec::new();
    let mut i: usize = 0;
    while i < weeks.len()
        invariant
            i <= weeks@.len(),
            r@.len() == i,
            forall|k: int| 0 <= k < i ==> (#[trigger] r@[k])@ == entries_in_week(entries@, weeks@[k]),
        decreases weeks.len() - i,
    {
        r.push(entries_for_week(&entries, &weeks[i]));
        i += 1;
    }
    r
}

/// The week contains day `d`.
pub open spec fn week_has_day(w: WeekRange, d: int) -> bool {
    w.start.day <= d <= w.end.day
}

proof fn lemma_weeks_ordered(weeks: Seq<WeekRange>, start: int, end: int, i: int, j: int)
    requires
        is_week_split(weeks, start, end),
        0 <= i < j < weeks.len(),
    ensures
        weeks[i].end.day < weeks[j].start.day,
    decreases j - i,
{
    let k = j - 1;
    assert(weeks[k + 1].start.day == weeks[k].end.day + 1);
    if i < j - 1 {
        lemma_weeks_ordered(weeks, start, end, i, j - 1);
        assert(weeks[j - 1].start.day <= weeks[j - 1].end.day);
    }
}

proof fn lemma_weeks_cover(weeks: Seq<WeekRange>, start: int, end: int, d: int, k: int)
    requires
        is_week_split(weeks, start, end),
        0 <= k < weeks.len(),
        weeks[k].start.day <= d <= end,
    ensures
        exists|i: int| k <= i < weeks.len() && week_has_day(#[trigger] weeks[i], d),
    decreases weeks.len() - k,
{
    if d <= weeks[k].end.day {
        assert(week_has_day(weeks[k], d));
    } else {
        if k == weeks.len() - 1 {
            assert(weeks.last() == weeks[k]);
        } else {
            assert(weeks[k + 1].start.day == weeks[k].end.day + 1);
            lemma_weeks_cover(weeks, start, end, d, k + 1);
        }
    }
}

/// Each day of the period lies in exactly one of the weeks that split it.
pub proof fn law_day_in_exactly_one_week(weeks: Seq<WeekRange>, start: int, end: int, d: int)
    requires
        is_week_split(weeks, start, end),
        start <= d <= end,
    ensures
        exists|i: int| 0 <= i < weeks.len() && week_has_day(#[trigger] weeks[i], d),
        forall|i: int, j: int|
            0 <= i < weeks.len() && 0 <= j < weeks.len() && week_has_day(#[trigger] weeks[i], d) && week_has_day(
                #[trigger] weeks[j],
                d,
            ) ==> i == j,
{
    lemma_weeks_cover(weeks, start, end, d, 0);
    assert forall|i: int, j: int|
        0 <= i < weeks.len() && 0 <= j < weeks.len() && week_has_day(#[trigger] weeks[i], d) && week_has_day(
            #[trigger] weeks[j],
            d,
        ) implies i == j by {
        if i < j {
            lemma_weeks_ordered(weeks, start, end, i, j);
        } else if j < i {
            lemma_weeks_ordered(weeks, start, end, j, i);
        }
    }
}

/// An entry dated within the period belongs to exactly one of the weeks that split it.
pub proof fn law_entry_in_exactly_one_week(weeks: Seq<WeekRange>, start: int, end: int, e: TimesheetEntry)
    requires
        is_week_split(weeks, start, end),
        rfc3339_day(e.date@) matches Some(d) && start <= d <= end,
    ensures
        exists|i: int| 0 <= i < weeks.len() && entry_in_week(e, #[trigger] weeks[i]),
        forall|i: int, j: int|
            0 <= i < weeks.len() && 0 <= j < weeks.len() && entry_in_week(e, #[trigger] weeks[i]) && entry_in_week(
                e,
                #[trigger] weeks[j],
            ) ==> i == j,
{
    let d = rfc3339_day(e.date@)->0;
    law_day_in_exactly_one_week(weeks, start, end, d);
    let i = choose|i: int| 0 <= i < weeks.len() && week_has_day(#[trigger] weeks[i], d);
    assert(entry_in_week(e, weeks[i]));
    assert forall|a: int, b: int|
        0 <= a < weeks.len() && 0 <= b < weeks.len() && entry_in_week(e, #[trigger] weeks[a]) && entry_in_week(
            e,
            #[trigger] weeks[b],
        ) implies a == b by {
        assert(week_has_day(weeks[a], d) && week_has_day(weeks[b], d));
    }
}

} // verus!
