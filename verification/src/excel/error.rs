//! Why a workbook could not be filled.
use vstd::prelude::*;
use crate::decimal::{decimal_text, u64_text};
use crate::text::{append_chars, chars_of, string_of};

verus! {

/// Why a workbook could not be filled.
#[derive(Debug)]
pub enum ExcelError {
    /// The template has no `xl/sharedStrings.xml` (or it is empty).
    MissingSharedStrings,
    /// The template has no `xl/worksheets/sheet1.xml` (or it is empty).
    MissingWorksheet,
    /// `sharedStrings.xml` has no `attr="` attribute.
    MissingAttribute(String),
    /// `sharedStrings.xml` has an `attr="` with no closing quote.
    MalformedAttribute(String),
    /// `sharedStrings.xml` has an `attr` whose value is not a number.
    InvalidAttribute(String),
    /// An entry's date is not an RFC 3339 timestamp.
    InvalidEntryDate(String),
    /// The day after the week's last day does not exist.
    DateOverflow,
    /// The worksheet has no row with this number.
    MissingRow(u32),
    /// The row with this number has no `</row>` after it.
    MalformedRow(u32),
    /// A cell reference carries no valid row number.
    InvalidCellReference(String),
    /// No cell holds the label of this header field (template discovery).
    MissingHeaderLabel(String),
    /// The layout has no target for this header field (filling the header).
    MissingHeaderTarget(String),
    /// No cell holds the header of this timesheet column.
    MissingColumnHeader(String),
    /// The layout knows no column for this field.
    MissingColumn(String),
    /// The layout knows no style for this field's column.
    MissingColumnStyle(String),
    /// No cell carries the "Date" header of the timesheet table.
    MissingHeaderRow,
    /// No row lies below the timesheet header.
    NoDataRows,
    /// The week needs more rows than the template has.
    TooFewRows { available: usize, needed: usize },
}

/// An [`ExcelError`] with its texts as character sequences.
pub enum Failure {
    MissingSharedStrings,
    MissingWorksheet,
    MissingAttribute(Seq<char>),
    MalformedAttribute(Seq<char>),
    InvalidAttribute(Seq<char>),
    InvalidEntryDate(Seq<char>),
    DateOverflow,
    MissingRow(u32),
    MalformedRow(u32),
    InvalidCellReference(Seq<char>),
    MissingHeaderLabel(Seq<char>),
    MissingHeaderTarget(Seq<char>),
    MissingColumnHeader(Seq<char>),
    MissingColumn(Seq<char>),
    MissingColumnStyle(Seq<char>),
    MissingHeaderRow,
    NoDataRows,
    TooFewRows { available: usize, needed: usize },
}

impl View for ExcelError {
    type V = Failure;

    open spec fn view(&self) -> Failure {
        match self {
            ExcelError::MissingSharedStrings => Failure::MissingSharedStrings,
            ExcelError::MissingWorksheet => Failure::MissingWorksheet,
            ExcelError::MissingAttribute(s) => Failure::MissingAttribute(s@),
            ExcelError::MalformedAttribute(s) => Failure::MalformedAttribute(s@),
            ExcelError::InvalidAttribute(s) => Failure::InvalidAttribute(s@),
            ExcelError::InvalidEntryDate(s) => Failure::InvalidEntryDate(s@),
            ExcelError::DateOverflow => Failure::DateOverflow,
            ExcelError::MissingRow(n) => Failure::MissingRow(*n),
            ExcelError::MalformedRow(n) => Failure::MalformedRow(*n),
            ExcelError::InvalidCellReference(s) => Failure::InvalidCellReference(s@),
            ExcelError::MissingHeaderLabel(s) => Failure::MissingHeaderLabel(s@),
            ExcelError::MissingHeaderTarget(s) => Failure::MissingHeaderTarget(s@),
            ExcelError::MissingColumnHeader(s) => Failure::MissingColumnHeader(s@),
            ExcelError::MissingColumn(s) => Failure::MissingColumn(s@),
            ExcelError::MissingColumnStyle(s) => Failure::MissingColumnStyle(s@),
            ExcelError::MissingHeaderRow => Failure::MissingHeaderRow,
            ExcelError::NoDataRows => Failure::NoDataRows,
            ExcelError::TooFewRows { available, needed } => Failure::TooFewRows {
                available: *available,
                needed: *needed,
            },
        }
    }
}

/// The outcome of a step that yields a value or fails.
pub open spec fn outcome<T>(r: Result<T, ExcelError>) -> Result<T, Failure> {
    match r {
        Ok(v) => Ok(v),
        Err(e) => Err(e@),
    }
}

/// The message of an error.
pub open spec fn failure_text(f: Failure) -> Seq<char> {
    match f {
        Failure::MissingSharedStrings => "Template is missing xl/sharedStrings.xml"@,
        Failure::MissingWorksheet => "Template is missing xl/worksheets/sheet1.xml"@,
        Failure::MissingAttribute(a) => "sharedStrings.xml is missing "@ + a + " attribute"@,
        Failure::MalformedAttribute(a) => "sharedStrings.xml has a malformed "@ + a + " attribute"@,
        Failure::InvalidAttribute(a) => "sharedStrings.xml has an invalid "@ + a + " attribute"@,
        Failure::InvalidEntryDate(d) => "Invalid entry date: "@ + d,
        Failure::DateOverflow => "Date overflow while building weekly worksheet"@,
        Failure::MissingRow(n) => "Template worksheet is missing row "@ + decimal_text(n as int),
        Failure::MalformedRow(n) => "Template worksheet row "@ + decimal_text(n as int) + " is malformed"@,
        Failure::InvalidCellReference(r) => "Invalid cell reference: "@ + r,
        Failure::MissingHeaderLabel(f) => "Template is missing header label: "@ + f,
        Failure::MissingHeaderTarget(f) => "Template is missing header label for "@ + f,
        Failure::MissingColumnHeader(f) => "Template is missing timesheet column header: "@ + f,
        Failure::MissingColumn(f) => "Template is missing timesheet column "@ + f,
        Failure::MissingColumnStyle(f) => "Template is missing style for timesheet column "@ + f,
        Failure::MissingHeaderRow => "Template is missing a timesheet header row"@,
        Failure::NoDataRows => "Template does not have any existing rows below the timesheet header"@,
        Failure::TooFewRows { available, needed } => "Template has "@ + decimal_text(available as int)
            + " timesheet row(s), but this week needs "@ + decimal_text(needed as int) + " activity/day row(s)"@,
    }
}

impl ExcelError {
    /// The error's message.
    pub fn message(&self) -> (r: String)
        ensures
            r@ == failure_text(self@),
    {
        let mut out: Vec<char> = Vec::new();
        match self {
            ExcelError::MissingSharedStrings => append_chars(&mut out, &chars_of("Template is missing xl/sharedStrings.xml")),
            ExcelError::MissingWorksheet => append_chars(&mut out, &chars_of("Template is missing xl/worksheets/sheet1.xml")),
            ExcelError::MissingAttribute(a) => {
                append_chars(&mut out, &chars_of("sharedStrings.xml is missing "));
                append_chars(&mut out, &chars_of(a.as_str()));
                append_chars(&mut out, &chars_of(" attribute"));
            },
            ExcelError::MalformedAttribute(a) => {
                append_chars(&mut out, &chars_of("sharedStrings.xml has a malformed "));
                append_chars(&mut out, &chars_of(a.as_str()));
                append_chars(&mut out, &chars_of(" attribute"));
            },
            ExcelError::InvalidAttribute(a) => {
                append_chars(&mut out, &chars_of("sharedStrings.xml has an invalid "));
                append_chars(&mut out, &chars_of(a.as_str()));
                append_chars(&mut out, &chars_of(" attribute"));
            },
            ExcelError::InvalidEntryDate(d) => {
                append_chars(&mut out, &chars_of("Invalid entry date: "));
                append_chars(&mut out, &chars_of(d.as_str()));
            },
            ExcelError::DateOverflow => append_chars(&mut out, &chars_of("Date overflow while building weekly worksheet")),
            ExcelError::MissingRow(n) => {
                append_chars(&mut out, &chars_of("Template worksheet is missing row "));
                append_chars(&mut out, &u64_text(*n as u64));
            },
            ExcelError::MalformedRow(n) => {
                append_chars(&mut out, &chars_of("Template worksheet row "));
                append_chars(&mut out, &u64_text(*n as u64));
                append_chars(&mut out, &chars_of(" is malformed"));
            },
            ExcelError::InvalidCellReference(r) => {
                append_chars(&mut out, &chars_of("Invalid cell reference: "));
                append_chars(&mut out, &chars_of(r.as_str()));
            },
            ExcelError::MissingHeaderLabel(f) => {
                append_chars(&mut out, &chars_of("Template is missing header label: "));
                append_chars(&mut out, &chars_of(f.as_str()));
            },
            ExcelError::MissingHeaderTarget(f) => {
                append_chars(&mut out, &chars_of("Template is missing header label for "));
                append_chars(&mut out, &chars_of(f.as_str()));
            },
            ExcelError::MissingColumnHeader(f) => {
                append_chars(&mut out, &chars_of("Template is missing timesheet column header: "));
                append_chars(&mut out, &chars_of(f.as_str()));
            },
            ExcelError::MissingColumn(f) => {
                append_chars(&mut out, &chars_of("Template is missing timesheet column "));
                append_chars(&mut out, &chars_of(f.as_str()));
            },
            ExcelError::MissingColumnStyle(f) => {
                append_chars(&mut out, &chars_of("Template is missing style for timesheet column "));
                append_chars(&mut out, &chars_of(f.as_str()));
            },
            ExcelError::MissingHeaderRow => append_chars(&mut out, &chars_of("Template is missing a timesheet header row")),
            ExcelError::NoDataRows => append_chars(
                &mut out,
                &chars_of("Template does not have any existing rows below the timesheet header"),
            ),
            ExcelError::TooFewRows { available, needed } => {
                append_chars(&mut out, &chars_of("Template has "));
                append_chars(&mut out, &u64_text(*available as u64));
                append_chars(&mut out, &chars_of(" timesheet row(s), but this week needs "));
                append_chars(&mut out, &u64_text(*needed as u64));
                append_chars(&mut out, &chars_of(" activity/day row(s)"));
            },
        }
        string_of(&out)
    }
}

} // verus!
