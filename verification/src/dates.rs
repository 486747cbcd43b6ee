//! Calendar dates, instants and weekly ranges, with chrono doing the calendar work.
use vstd::prelude::*;
use crate::decimal::decimal_text;

verus! {

/// The day number of the earliest date chrono represents (January 1, 262144 BCE).
pub const MIN_DAY: i32 = -95746129;

/// The day number of the latest date chrono represents (December 31, 262142 CE).
pub const MAX_DAY: i32 = 95745399;

/// `d` is the day number of a date that chrono can represent.
pub open spec fn valid_day(d: int) -> bool {
    MIN_DAY <= d <= MAX_DAY
}

/// A calendar date, held as its day number in the proleptic Gregorian calendar, counting
/// January 1 of year 1 as day 1 (chrono's `num_days_from_ce`).
#[derive(Clone, Copy, Debug, PartialEq, Eq, Structural)]
pub struct CalendarDate {
    pub day: i32,
}

impl CalendarDate {
    /// The date is one that chrono represents.
    pub open spec fn wf(self) -> bool {
        valid_day(self.day as int)
    }
}

/// A point in time: whole seconds since the Unix epoch in UTC, and the nanoseconds past them.
#[derive(Clone, Copy, Debug, PartialEq, Eq, Structural)]
pub struct Instant {
    pub seconds: i64,
    pub nanos: u32,
}

/// `a` is not later than `b`.
pub open spec fn instant_le(a: Instant, b: Instant) -> bool {
    a.seconds < b.seconds || (a.seconds == b.seconds && a.nanos <= b.nanos)
}

/// Is `a` not later than `b`?
pub fn instant_le_exec(a: Instant, b: Instant) -> (r: bool)
    ensures
        r == instant_le(a, b),
{
    a.seconds < b.seconds || (a.seconds == b.seconds && a.nanos <= b.nanos)
}

/// The first and last day of one generated week.
#[derive(Clone, Copy, Debug, PartialEq, Eq, Structural)]
pub struct WeekRange {
    pub start: CalendarDate,
    pub end: CalendarDate,
}

/// chrono's error for a date text that does not parse.
#[verifier::external_type_specification]
#[verifier::external_body]
pub struct ExChronoParseError(chrono::format::ParseError);

/// What `DateTime::parse_from_rfc3339` gives for `s`: the instant's Unix seconds, its
/// sub-second nanoseconds, and the day number of its date in UTC; `None` where it fails.
pub uninterp spec fn rfc3339_fields(s: Seq<char>) -> Option<(i64, u32, i32)>;

/// The day number that `NaiveDate::parse_from_str(s, "%Y-%m-%d")` gives, `None` where it fails.
pub uninterp spec fn ymd_text_day(s: Seq<char>) -> Option<int>;

/// The instant a parse result stands for.
pub open spec fn fields_instant(f: Option<(i64, u32, i32)>) -> Option<Instant> {
    match f {
        Some((s, n, _)) => Some(Instant { seconds: s, nanos: n }),
        None => None,
    }
}

/// The UTC date of an RFC 3339 text, `None` where the text does not parse.
pub open spec fn rfc3339_day(s: Seq<char>) -> Option<int> {
    match rfc3339_fields(s) {
        Some((_, _, d)) => Some(d as int),
        None => None,
    }
}

/// `DateTime::parse_from_rfc3339` followed by the instant's `timestamp`,
/// `timestamp_subsec_nanos` and the UTC date's `num_days_from_ce`. The result is named; of it
/// only this is stated: the date is one that chrono represents.
#[verifier::external_body]
fn chrono_parse_rfc3339(s: &str) -> (r: Option<(i64, u32, i32)>)
    ensures
        r == rfc3339_fields(s@),
        r matches Some((_, _, d)) ==> valid_day(d as int),
{
    match chrono::DateTime::parse_from_rfc3339(s) {
        Ok(dt) => Some((dt.timestamp(), dt.timestamp_subsec_nanos(), chrono::Datelike::num_days_from_ce(&dt.naive_utc().date()))),
        Err(_) => None,
    }
}

/// `NaiveDate::parse_from_str(s, "%Y-%m-%d")` and the date's `num_days_from_ce`. The day is
/// named; the contract states that it succeeds exactly where the name is defined, and that the
/// date is one chrono represents.
#[verifier::external_body]
fn chrono_parse_ymd(s: &str) -> (r: Result<i32, chrono::format::ParseError>)
    ensures
        r is Ok <==> ymd_text_day(s@) is Some,
        r matches Ok(d) ==> ymd_text_day(s@) == Some(d as int) && valid_day(d as int),
{
    chrono::NaiveDate::parse_from_str(s, "%Y-%m-%d").map(|d| chrono::Datelike::num_days_from_ce(&d))
}

/// `y` is a leap year of the proleptic Gregorian calendar.
pub open spec fn is_leap_year(y: int) -> bool {
    (y % 4 == 0 && y % 100 != 0) || y % 400 == 0
}

/// The number of days in month `m` of year `y`.
pub open spec fn days_in_month(y: int, m: int) -> int {
    if m == 2 {
        if is_leap_year(y) { 29 } else { 28 }
    } else if m == 4 || m == 6 || m == 9 || m == 11 {
        30
    } else {
        31
    }
}

/// The number of days in the months before month `m` of year `y`.
pub open spec fn days_before_month(y: int, m: int) -> int
    decreases m,
{
    if m <= 1 {
        0
    } else {
        days_before_month(y, m - 1) + days_in_month(y, m - 1)
    }
}

/// The number of days from January 1 of year 1 to January 1 of year `y` (negative before it).
pub open spec fn days_before_year(y: int) -> int {
    365 * (y - 1) + (y - 1) / 4 - (y - 1) / 100 + (y - 1) / 400
}

/// The day number of `y`-`m`-`d` in the proleptic Gregorian calendar, January 1 of year 1
/// being day 1 (`num_days_from_ce`).
pub open spec fn ymd_day(y: int, m: int, d: int) -> int {
    days_before_year(y) + days_before_month(y, m) + d
}

/// The year, month and day of day number `day`.
pub open spec fn date_of(day: int) -> (int, int, int) {
    choose|t: (int, int, int)| valid_ymd(t.0, t.1, t.2) && ymd_day(t.0, t.1, t.2) == day
}

/// `n` in decimal, with zeros in front up to `width` digits.
pub open spec fn zero_padded(n: nat, width: nat) -> Seq<char> {
    let digits = decimal_text(n as int);
    if digits.len() < width {
        Seq::new((width - digits.len()) as nat, |i: int| '0') + digits
    } else {
        digits
    }
}

/// A year as `%Y` writes it: four digits at least, with a sign outside years 0 to 9999.
pub open spec fn year_text(y: int) -> Seq<char> {
    if y < 0 {
        seq!['-'] + zero_padded((-y) as nat, 4)
    } else if y > 9999 {
        seq!['+'] + zero_padded(y as nat, 4)
    } else {
        zero_padded(y as nat, 4)
    }
}

/// The date with day number `day` as `%Y-%m-%d`.
pub open spec fn iso_date_text(day: int) -> Seq<char> {
    let (y, m, d) = date_of(day);
    year_text(y) + "-"@ + zero_padded(m as nat, 2) + "-"@ + zero_padded(d as nat, 2)
}

/// The English name of month `m` (1 to 12).
pub open spec fn month_name(m: int) -> Seq<char> {
    seq![
        "January"@,
        "February"@,
        "March"@,
        "April"@,
        "May"@,
        "June"@,
        "July"@,
        "August"@,
        "September"@,
        "October"@,
        "November"@,
        "December"@,
    ][m - 1]
}

/// The full English name of the month of day number `day`, as `%B` writes it.
pub open spec fn month_name_text(day: int) -> Seq<char> {
    month_name(date_of(day).1)
}

/// The first and last dates chrono represents have the day numbers `MIN_DAY` and `MAX_DAY`.
pub proof fn lemma_day_bounds()
    ensures
        ymd_day(-262143, 1, 1) == MIN_DAY,
        ymd_day(262142, 12, 31) == MAX_DAY,
{
    reveal_with_fuel(days_before_month, 12);
    assert(days_before_year(-262143) == -95746130);
    assert(days_before_year(262142) == 95745034);
}

/// `y`-`m`-`d` is a date that chrono represents.
pub open spec fn valid_ymd(y: int, m: int, d: int) -> bool {
    -262143 <= y <= 262142 && 1 <= m <= 12 && 1 <= d <= days_in_month(y, m)
}

/// `NaiveDate::from_ymd_opt` and the date's `num_days_from_ce`: defined exactly on valid
/// calendar dates within chrono's years, where it gives the date's day number.
#[verifier::external_body]
fn chrono_ymd_day(y: i32, m: u32, d: u32) -> (r: Option<i32>)
    ensures
        r is Some <==> valid_ymd(y as int, m as int, d as int),
        r matches Some(k) ==> k == ymd_day(y as int, m as int, d as int) && valid_day(k as int),
{
    chrono::NaiveDate::from_ymd_opt(y, m, d).map(|x| chrono::Datelike::num_days_from_ce(&x))
}

/// `weekday().num_days_from_sunday()` of the date with day number `day`: day 1
/// (January 1 of year 1) is a Monday, and the week repeats every seven days.
#[verifier::external_body]
fn chrono_weekday_from_sunday(day: i32) -> (r: u32)
    requires
        valid_day(day as int),
    ensures
        r as int == (day as int) % 7,
{
    chrono::Datelike::weekday(&chrono::NaiveDate::from_num_days_from_ce_opt(day).unwrap()).num_days_from_sunday()
}

/// `date.format("%Y-%m-%d").to_string()`: the year (at least four digits, signed outside
/// 0 to 9999), month and day, zero-padded and joined with `-`.
#[verifier::external_body]
fn chrono_iso_date(day: i32) -> (r: String)
    requires
        valid_day(day as int),
    ensures
        r@ == iso_date_text(day as int),
{
    chrono::NaiveDate::from_num_days_from_ce_opt(day).unwrap().format("%Y-%m-%d").to_string()
}

/// `date.format("%B").to_string()`: the English name of the date's month.
#[verifier::external_body]
fn chrono_month_name(day: i32) -> (r: String)
    requires
        valid_day(day as int),
    ensures
        r@ == month_name_text(day as int),
{
    chrono::NaiveDate::from_num_days_from_ce_opt(day).unwrap().format("%B").to_string()
}

impl CalendarDate {
    /// The date `year`-`month`-`day`, where it exists.
    pub fn from_ymd(year: i32, month: u32, day: u32) -> (r: Option<CalendarDate>)
        ensures
            r is Some <==> valid_ymd(year as int, month as int, day as int),
            r matches Some(c) ==> c.wf() && c.day == ymd_day(year as int, month as int, day as int),
    {
        match chrono_ymd_day(year, month, day) {
            Some(k) => Some(CalendarDate { day: k }),
            None => None,
        }
    }

    /// Reads a `YYYY-MM-DD` date.
    pub fn parse_ymd(text: &str) -> (r: Result<CalendarDate, chrono::format::ParseError>)
        ensures
            r is Ok <==> ymd_text_day(text@) is Some,
            r matches Ok(c) ==> c.wf() && ymd_text_day(text@) == Some(c.day as int),
    {
        match chrono_parse_ymd(text) {
            Ok(k) => Ok(CalendarDate { day: k }),
            Err(e) => Err(e),
        }
    }

    /// The date's day of the week, counting Sunday as 0 and Saturday as 6.
    pub fn weekday_from_sunday(&self) -> (r: u32)
        requires
            self.wf(),
        ensures
            r as int == weekday(self.day as int),
    {
        chrono_weekday_from_sunday(self.day)
    }

    /// The date as `YYYY-MM-DD`.
    pub fn iso_text(&self) -> (r: String)
        requires
            self.wf(),
        ensures
            r@ == iso_date_text(self.day as int),
    {
        chrono_iso_date(self.day)
    }

    /// The full English name of the date's month.
    pub fn month_name(&self) -> (r: String)
        requires
            self.wf(),
        ensures
            r@ == month_name_text(self.day as int),
    {
        chrono_month_name(self.day)
    }
}

/// The day of the week of day number `d`, Sunday being 0.
pub open spec fn weekday(d: int) -> int {
    d % 7
}

/// The day number of the first Sunday on or after day `d`.
pub open spec fn sunday_on_or_after(d: int) -> int {
    if weekday(d) == 0 { d } else { d + (7 - weekday(d)) }
}

/// The UTC instant of an RFC 3339 timestamp (`parse_date`), `None` where it does not parse.
pub fn parse_date(date_str: &str) -> (r: Option<Instant>)
    ensures
        r == fields_instant(rfc3339_fields(date_str@)),
{
    match chrono_parse_rfc3339(date_str) {
        Some((s, n, _)) => Some(Instant { seconds: s, nanos: n }),
        None => None,
    }
}

/// The UTC date of an RFC 3339 timestamp, `None` where it does not parse.
pub fn parse_utc_day(date_str: &str) -> (r: Option<CalendarDate>)
    ensures
        match r {
            Some(c) => rfc3339_day(date_str@) == Some(c.day as int) && c.wf(),
            None => rfc3339_day(date_str@) is None,
        },
{
    match chrono_parse_rfc3339(date_str) {
        Some((_, _, d)) => Some(CalendarDate { day: d }),
        None => None,
    }
}

/// A parsed instant lies within `[start, end]`; an unparsed one does not.
pub open spec fn instant_in_range(parsed: Option<Instant>, start: Instant, end: Instant) -> bool {
    match parsed {
        Some(t) => instant_le(start, t) && instant_le(t, end),
        None => false,
    }
}

/// Is the (already parsed) instant within `[start, end]`?
pub fn parsed_in_range(parsed: Option<Instant>, start: Instant, end: Instant) -> (r: bool)
    ensures
        r == instant_in_range(parsed, start, end),
{
    match parsed {
        Some(t) => instant_le_exec(start, t) && instant_le_exec(t, end),
        None => false,
    }
}

/// The optional RFC 3339 text `date` names an instant within `[start, end]`.
pub open spec fn text_in_range(date: Option<Seq<char>>, start: Instant, end: Instant) -> bool {
    match date {
        Some(s) => instant_in_range(fields_instant(rfc3339_fields(s)), start, end),
        None => false,
    }
}

/// Is `date` present, a valid RFC 3339 timestamp, and within `[start, end]`?
pub fn is_in_range(date: Option<&str>, start: Instant, end: Instant) -> (r: bool)
    ensures
        r == text_in_range(
            match date {
                Some(s) => Some(s@),
                None => None,
            },
            start,
            end,
        ),
{
    match date {
        Some(date_str) => parsed_in_range(parse_date(date_str), start, end),
        None => false,
    }
}

/// `weeks` splits `[start, end]` into consecutive ranges, each ending on the first Sunday
/// on or after its start, or at `end`.
pub open spec fn is_week_split(weeks: Seq<WeekRange>, start: int, end: int) -> bool {
    &&& (weeks.len() == 0 <==> start > end)
    &&& weeks.len() > 0 ==> weeks[0].start.day == start
    &&& weeks.len() > 0 ==> weeks.last().end.day == end
    &&& forall|i: int| 0 <= i < weeks.len() ==> {
        let w = #[trigger] weeks[i];
        &&& w.start.day <= w.end.day
        &&& w.end.day as int == if sunday_on_or_after(w.start.day as int) <= end {
            sunday_on_or_after(w.start.day as int)
        } else {
            end
        }
    }
    &&& forall|i: int| 0 <= i < weeks.len() - 1 ==> #[trigger] weeks[i + 1].start.day == weeks[i].end.day + 1
}

/// The weeks from `start` to `end` can be formed: every day they reach, and the day after the
/// last one, is a date chrono represents.
pub fn week_ranges_fit(start: CalendarDate, end: CalendarDate) -> (r: bool)
    requires
        end.wf(),
    ensures
        r == (start.day <= end.day ==> end.day < MAX_DAY && sunday_on_or_after(end.day as int) <= MAX_DAY),
{
    if start.day > end.day {
        return true;
    }
    if end.day >= MAX_DAY {
        return false;
    }
    let w = end.weekday_from_sunday();
    let sunday: i64 = if w == 0 { end.day as i64 } else { end.day as i64 + (7 - w) as i64 };
    sunday <= MAX_DAY as i64
}

/// The ranges from `start` to `end` that each end on a Sunday, or at `end` (`get_week_ranges`).
pub fn get_week_ranges(start: CalendarDate, end: CalendarDate) -> (weeks: Vec<WeekRange>)
    requires
        start.wf(),
        end.wf(),
        start.day <= end.day ==> end.day < MAX_DAY && sunday_on_or_after(end.day as int)
            <= MAX_DAY,
    ensures
        is_week_split(weeks@, start.day as int, end.day as int),
        forall|i: int| 0 <= i < weeks@.len() ==> (#[trigger] weeks@[i]).start.wf() && weeks@[i].end.wf(),
{
    let mut weeks: Vec<WeekRange> = Vec::new();
    let mut current = start;
    while current.day <= end.day
        invariant
            current.wf(),
            start.wf(),
            end.wf(),
            start.day <= end.day ==> end.day < MAX_DAY && sunday_on_or_after(end.day as int) <= MAX_DAY,
            weeks@.len() > 0 ==> current.day <= end.day + 1,
            weeks@.len() == 0 ==> current.day == start.day,
            weeks@.len() > 0 ==> weeks@[0].start.day == start.day,
            weeks@.len() > 0 ==> weeks@.last().end.day + 1 == current.day,
            forall|i: int| 0 <= i < weeks@.len() ==> {
                let w = #[trigger] weeks@[i];
                &&& w.start.wf() && w.end.wf()
                &&& w.start.day <= w.end.day
                &&& w.end.day as int == if sunday_on_or_after(w.start.day as int) <= end.day {
                    sunday_on_or_after(w.start.day as int)
                } else {
                    end.day as int
                }
            },
            forall|i: int| 0 <= i < weeks@.len() - 1 ==> #[trigger] weeks@[i + 1].start.day == weeks@[i].end.day + 1,
        decreases end.day + 1 - current.day,
    {
        let w = current.weekday_from_sunday();
        proof {
            // the Sunday closing this week is no later than the one closing the last week
            assert(sunday_on_or_after(current.day as int) <= sunday_on_or_after(end.day as int));
        }
        let sunday = if w == 0 { current.day } else { current.day + (7 - w) as i32 };
        let week_end = if sunday > end.day { end } else { CalendarDate { day: sunday } };
        let ghost prev = weeks@;
        weeks.push(WeekRange { start: current, end: week_end });
        assert forall|i: int| 0 <= i < weeks@.len() - 1 implies #[trigger] weeks@[i + 1].start.day == weeks@[i].end.day + 1 by {
            if i < prev.len() - 1 {
                assert(weeks@[i + 1] == prev[i + 1]);
            }
        }
        current = CalendarDate { day: week_end.day + 1 };
    }
    weeks
}

} // verus!
