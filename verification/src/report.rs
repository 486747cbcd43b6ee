//! Labels and file names of the generated workbooks.
use vstd::prelude::*;
use crate::dates::{WeekRange, iso_date_text};
use crate::decimal::{decimal_text, parse_unsigned, parse_unsigned_exec, u64_text};
use crate::text::{append_chars, chars_of, join, join_strings, string_of, text_eq, texts_of, to_uppercase, uppercase_text};

verus! {

/// `s` with every `from` replaced by `to`.
pub open spec fn replace_char(s: Seq<char>, from: char, to: char) -> Seq<char> {
    s.map_values(|c: char| if c == from { to } else { c })
}

/// The repository names as the workbook header shows them: joined with ", ".
pub fn repo_display_label(repos: &Vec<String>) -> (r: String)
    ensures
        r@ == join(texts_of(repos@), ", "@),
{
    let sep = chars_of(", ");
    string_of(&join_strings(repos, &sep))
}

/// The repository part of a file name, before upper-casing.
pub open spec fn filename_parts(repos: Seq<String>) -> Seq<Seq<char>> {
    repos.map_values(|r: String| replace_char(r@, '/', '-'))
}

/// The repository names as file names use them: '/' made '-', joined with '_', upper-cased.
pub fn repo_filename_label(repos: &Vec<String>) -> (r: String)
    ensures
        r@ == uppercase_text(join(filename_parts(repos@), "_"@)),
{
    let mut parts: Vec<String> = Vec::new();
    let mut i: usize = 0;
    while i < repos.len()
        invariant
            i <= repos@.len(),
            parts@.len() == i,
            texts_of(parts@) == filename_parts(repos@).take(i as int),
        decreases repos.len() - i,
    {
        let name = chars_of(repos[i].as_str());
        let mut replaced: Vec<char> = Vec::new();
        let mut k: usize = 0;
        while k < name.len()
            invariant
                k <= name@.len(),
                replaced@ == replace_char(name@, '/', '-').take(k as int),
            decreases name.len() - k,
        {
            let c = if name[k] == '/' { '-' } else { name[k] };
            replaced.push(c);
            assert(replaced@ =~= replace_char(name@, '/', '-').take(k + 1));
            k += 1;
        }
        assert(replace_char(name@, '/', '-').take(name@.len() as int) == replace_char(name@, '/', '-'));
        let ghost before = parts@;
        parts.push(string_of(&replaced));
        assert(texts_of(parts@) =~= filename_parts(repos@).take(i + 1)) by {
            assert forall|j: int| 0 <= j < i + 1 implies #[trigger] texts_of(parts@)[j] == filename_parts(repos@).take(i + 1)[j] by {
                if j < i {
                    assert(parts@[j] == before[j]);
                    assert(texts_of(before)[j] == filename_parts(repos@).take(i as int)[j]);
                }
            }
        }
        i += 1;
    }
    assert(filename_parts(repos@).take(repos@.len() as int) == filename_parts(repos@));
    let sep = chars_of("_");
    let joined = string_of(&join_strings(&parts, &sep));
    to_uppercase(joined.as_str())
}

/// `<repos>_<user>_Week_<n>_<start>_to_<end>.xlsx` with the week's dates as given.
pub open spec fn file_name_text(repo_label: Seq<char>, user: Seq<char>, index: int, start: Seq<char>, end: Seq<char>) -> Seq<char> {
    repo_label + "_"@ + user + "_"@ + "Week"@ + "_"@ + decimal_text(index + 1) + "_"@ + start + "_to_"@ + end + ".xlsx"@
}

/// The file name of the workbook for the week at `index` (counting from 0).
pub open spec fn week_file_name(repo_label: Seq<char>, user: Seq<char>, index: int, week: WeekRange) -> Seq<char> {
    file_name_text(repo_label, user, index, iso_date_text(week.start.day as int), iso_date_text(week.end.day as int))
}

/// `<repos>_<user>_Week_<n>_<start>_to_<end>.xlsx` for the week at `index` (counting from 0)
/// whose first and last days read `start` and `end`.
pub fn file_name_for(repo_label: &str, user: &str, index: u32, start: &str, end: &str) -> (r: String)
    ensures
        r@ == file_name_text(repo_label@, user@, index as int, start@, end@),
{
    let mut out: Vec<char> = Vec::new();
    append_chars(&mut out, &chars_of(repo_label));
    append_chars(&mut out, &chars_of("_"));
    append_chars(&mut out, &chars_of(user));
    append_chars(&mut out, &chars_of("_"));
    append_chars(&mut out, &chars_of("Week"));
    append_chars(&mut out, &chars_of("_"));
    append_chars(&mut out, &u64_text(index as u64 + 1));
    append_chars(&mut out, &chars_of("_"));
    append_chars(&mut out, &chars_of(start));
    append_chars(&mut out, &chars_of("_to_"));
    append_chars(&mut out, &chars_of(end));
    append_chars(&mut out, &chars_of(".xlsx"));
    string_of(&out)
}

/// `<repos>_<user>_Week_<n>_<start>_to_<end>.xlsx`, numbering weeks from 1.
pub fn week_output_file_name(repo_label: &str, user: &str, index: u32, week: &WeekRange) -> (r: String)
    requires
        week.start.wf(),
        week.end.wf(),
    ensures
        r@ == week_file_name(repo_label@, user@, index as int, *week),
{
    let start = week.start.iso_text();
    let end = week.end.iso_text();
    file_name_for(repo_label, user, index, start.as_str(), end.as_str())
}

/// The repositories to report on: those named on the command line, else the configured one.
pub fn selected_repos(cli_repos: &Vec<String>, configured: &String) -> (r: Vec<String>)
    ensures
        cli_repos@.len() == 0 ==> r@.len() == 1 && r@[0]@ == configured@,
        cli_repos@.len() > 0 ==> texts_of(r@) == texts_of(cli_repos@),
{
    if cli_repos.len() == 0 {
        let mut r: Vec<String> = Vec::new();
        r.push(configured.clone());
        r
    } else {
        let mut r: Vec<String> = Vec::new();
        let mut i: usize = 0;
        while i < cli_repos.len()
            invariant
                i <= cli_repos@.len(),
                r@.len() == i,
                texts_of(r@) == texts_of(cli_repos@).take(i as int),
            decreases cli_repos.len() - i,
        {
            let ghost before = r@;
            r.push(cli_repos[i].clone());
            assert(texts_of(r@) =~= texts_of(cli_repos@).take(i + 1)) by {
                assert forall|j: int| 0 <= j < i + 1 implies #[trigger] texts_of(r@)[j] == texts_of(cli_repos@).take(i + 1)[j] by {
                    if j < i {
                        assert(r@[j] == before[j]);
                        assert(texts_of(before)[j] == texts_of(cli_repos@).take(i as int)[j]);
                    }
                }
            }
            i += 1;
        }
        assert(texts_of(cli_repos@).take(cli_repos@.len() as int) == texts_of(cli_repos@));
        r
    }
}

/// The package part holding the shared-string table.
pub const SHARED_STRINGS_PATH: &'static str = "xl/sharedStrings.xml";

/// The package part holding the worksheet that is filled.
pub const WORKSHEET_PATH: &'static str = "xl/worksheets/sheet1.xml";

/// What a part of the workbook package is to the export.
#[derive(Clone, Copy, Debug, PartialEq, Eq, Structural)]
pub enum PackagePart {
    /// `xl/sharedStrings.xml`: read, and written back extended.
    SharedStrings,
    /// `xl/worksheets/sheet1.xml`: read, and written back filled.
    Worksheet,
    /// Any other part: copied byte for byte.
    Other,
}

/// Which part of the package `name` is.
pub fn classify_part(name: &str) -> (r: PackagePart)
    ensures
        r == (if name@ == SHARED_STRINGS_PATH@ {
            PackagePart::SharedStrings
        } else if name@ == WORKSHEET_PATH@ {
            PackagePart::Worksheet
        } else {
            PackagePart::Other
        }),
{
    if text_eq(name, SHARED_STRINGS_PATH) {
        PackagePart::SharedStrings
    } else if text_eq(name, WORKSHEET_PATH) {
        PackagePart::Worksheet
    } else {
        PackagePart::Other
    }
}

/// The terminal width the banner centers on: `COLUMNS` read as a number, else 100.
pub fn terminal_width(columns: Option<&str>) -> (r: usize)
    ensures
        r == match columns {
            Some(c) => match parse_unsigned(c@, usize::MAX as nat) {
                Some(n) => n as usize,
                None => 100,
            },
            None => 100,
        },
{
    match columns {
        Some(c) => match parse_unsigned_exec(&chars_of(c), usize::MAX as u64) {
            Some(n) => n as usize,
            None => 100,
        },
        None => 100,
    }
}

/// The spaces that center a line of `len` characters in `width` columns: half of what is
/// left, none where the line is wider.
pub fn centered_padding(width: usize, len: usize) -> (r: usize)
    ensures
        r == if len <= width { (width - len) / 2 } else { 0 },
{
    width.saturating_sub(len) / 2
}

} // verus!
