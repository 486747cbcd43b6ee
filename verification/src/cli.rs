//! Checking the run options, and the period they describe.
use vstd::prelude::*;
use crate::dates::{CalendarDate, Instant, fields_instant, parse_date, rfc3339_fields, ymd_text_day};
use crate::text::{append_chars, chars_of, string_of};

verus! {

/// Why the run options were refused.
#[derive(Debug)]
pub enum CliError {
    /// "Template file path is required"
    MissingTemplate,
    /// "Hours per day must be a positive number"
    InvalidHours,
    /// "Invalid start date format: ..."
    InvalidStartDate(chrono::format::ParseError),
    /// "Invalid end date format: ..."
    InvalidEndDate(chrono::format::ParseError),
}

/// Checks the run options in order: a template path is given, the hours per day are a
/// positive finite number (`hours_positive_finite`, decided by the caller on the float), and
/// both dates read as `YYYY-MM-DD`.
pub fn validate(file: &str, hours_positive_finite: bool, start: &str, end: &str) -> (r: Result<(), CliError>)
    ensures
        file@.len() == 0 ==> r matches Err(CliError::MissingTemplate),
        file@.len() > 0 && !hours_positive_finite ==> r matches Err(CliError::InvalidHours),
        file@.len() > 0 && hours_positive_finite && ymd_text_day(start@) is None ==> r matches Err(CliError::InvalidStartDate(_)),
        file@.len() > 0 && hours_positive_finite && ymd_text_day(start@) is Some && ymd_text_day(end@) is None
            ==> r matches Err(CliError::InvalidEndDate(_)),
        r is Ok <==> file@.len() > 0 && hours_positive_finite && ymd_text_day(start@) is Some && ymd_text_day(end@) is Some,
{
    if file.unicode_len() == 0 {
        return Err(CliError::MissingTemplate);
    }
    if !hours_positive_finite {
        return Err(CliError::InvalidHours);
    }
    match CalendarDate::parse_ymd(start) {
        Ok(_) => {},
        Err(e) => return Err(CliError::InvalidStartDate(e)),
    }
    match CalendarDate::parse_ymd(end) {
        Ok(_) => {},
        Err(e) => return Err(CliError::InvalidEndDate(e)),
    }
    Ok(())
}

/// The RFC 3339 text of the first second of day `date` (a `YYYY-MM-DD` text), in UTC.
pub fn day_start_text(date: &str) -> (r: String)
    ensures
        r@ == date@ + "T00:00:00Z"@,
{
    let mut out = chars_of(date);
    append_chars(&mut out, &chars_of("T00:00:00Z"));
    string_of(&out)
}

/// The RFC 3339 text of the last second of day `date` (a `YYYY-MM-DD` text), in UTC.
pub fn day_end_text(date: &str) -> (r: String)
    ensures
        r@ == date@ + "T23:59:59Z"@,
{
    let mut out = chars_of(date);
    append_chars(&mut out, &chars_of("T23:59:59Z"));
    string_of(&out)
}

/// The instants at which the reporting period from `start` to `end` begins and ends.
pub fn period_bounds(start: &str, end: &str) -> (r: Option<(Instant, Instant)>)
    ensures
        match r {
            Some((a, b)) => fields_instant(rfc3339_fields(start@ + "T00:00:00Z"@)) == Some(a)
                && fields_instant(rfc3339_fields(end@ + "T23:59:59Z"@)) == Some(b),
            None => fields_instant(rfc3339_fields(start@ + "T00:00:00Z"@)) is None
                || fields_instant(rfc3339_fields(end@ + "T23:59:59Z"@)) is None,
        },
{
    let a = parse_date(day_start_text(start).as_str());
    let b = parse_date(day_end_text(end).as_str());
    match (a, b) {
        (Some(a), Some(b)) => Some((a, b)),
        _ => None,
    }
}

} // verus!
