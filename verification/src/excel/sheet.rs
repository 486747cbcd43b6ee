//! Writing cells into worksheet XML, and filling the header fields and table rows.
use vstd::prelude::*;
use crate::decimal::{decimal_text, i64_text, is_digit, law_parse_decimal_roundtrip, lemma_decimal_digits_are_digits, u64_text};
use crate::text::is_ascii_alpha;
use crate::text::{
    chars_of, find_first, find_from, lemma_find_from, lemma_find_from_agree, lemma_find_from_at, lemma_find_from_shift,
    matches_at, slice_chars, splice, splice_exec,
};
use super::cells::opt_chars;
use super::error::{ExcelError, Failure};
use super::layout::{FillView, HeaderView, LayoutView, TemplateLayout, column_named};
use super::refs::{ref_column, ref_row_number, row_number_from_cell_ref};
use super::rows::TimesheetRow;
use super::xml::{
    build_cell_xml, cell_end, cell_insert_offset, cell_marker, cell_range, lemma_cell_end, cell_xml, find_cell_range, find_row_range,
    insert_offset, insert_offset_from, lemma_cell_range, lemma_row_range, row_marker, row_range, value_of,
};

verus! {

/// The text of an optional character slice.
pub open spec fn opt_view(o: Option<&[char]>) -> Option<Seq<char>> {
    match o {
        Some(v) => Some(v@),
        None => None,
    }
}

/// Where the XML of cell `cell_ref` goes in `ws`: the span of the cell's existing XML, or else
/// the empty span in the cell's row before the first cell to its right, or else just before
/// `</row>`.
pub open spec fn put_span(ws: Seq<char>, cell_ref: Seq<char>) -> Result<(int, int), Failure> {
    match cell_range(ws, cell_ref) {
        Some((s, e)) => Ok((s, e)),
        None => match ref_row_number(cell_ref) {
            None => Err(Failure::InvalidCellReference(cell_ref)),
            Some(n) => match row_range(ws, n) {
                Some((rs, re)) => {
                    let at = match insert_offset(ws.subrange(rs, re), cell_ref) {
                        Some(k) => rs + k,
                        None => re - 6,
                    };
                    Ok((at, at))
                },
                None => if find_first(ws, row_marker(n)) is None {
                    Err(Failure::MissingRow(n as u32))
                } else {
                    Err(Failure::MalformedRow(n as u32))
                },
            },
        },
    }
}

/// Puts the XML `cell` of `cell_ref` into `ws`, in place of the text in its `put_span`.
pub open spec fn put_cell(ws: Seq<char>, cell_ref: Seq<char>, cell: Seq<char>) -> Result<Seq<char>, Failure> {
    match put_span(ws, cell_ref) {
        Ok((s, e)) => Ok(splice(ws, s, e, cell)),
        Err(f) => Err(f),
    }
}

/// `ws` with the cell `cell_ref` set to the given style, type and value (`set_cell`).
pub open spec fn cell_set(
    ws: Seq<char>,
    cell_ref: Seq<char>,
    style: Seq<char>,
    cell_type: Option<Seq<char>>,
    value: Option<Seq<char>>,
) -> Result<Seq<char>, Failure> {
    put_cell(ws, cell_ref, cell_xml(cell_ref, style, cell_type, value))
}

/// Writes the cell `cell_ref` of `ws` with the given style, type and value (`set_cell`).
pub fn set_cell(
    ws: &[char],
    cell_ref: &[char],
    style: &[char],
    cell_type: Option<&[char]>,
    value: Option<&[char]>,
) -> (r: Result<Vec<char>, ExcelError>)
    ensures
        match r {
            Ok(w) => cell_set(ws@, cell_ref@, style@, opt_view(cell_type), opt_view(value)) == Ok::<Seq<char>, Failure>(w@),
            Err(e) => cell_set(ws@, cell_ref@, style@, opt_view(cell_type), opt_view(value)) == Err::<Seq<char>, Failure>(e@),
        },
{
    let cell = build_cell_xml(cell_ref, style, cell_type, value);
    proof {
        lemma_cell_range(ws@, cell_ref@);
    }
    match find_cell_range(ws, cell_ref) {
        Some((s, e)) => {
            return Ok(splice_exec(ws, s, e, &cell));
        },
        None => {},
    }
    let row_number = match row_number_from_cell_ref(cell_ref) {
        Ok(n) => n,
        Err(e) => return Err(e),
    };
    let (row_start, row_end) = match find_row_range(ws, row_number) {
        Ok(p) => p,
        Err(e) => return Err(e),
    };
    proof {
        lemma_row_range(ws@, row_number as nat);
    }
    let row = slice_chars(ws, row_start, row_end);
    let at = match cell_insert_offset(&row, cell_ref) {
        Some(k) => row_start + k,
        None => row_end - 6,
    };
    Ok(splice_exec(ws, at, at, &cell))
}

/// One write into the worksheet.
pub enum Step {
    /// Set a cell.
    Write { cell_ref: Seq<char>, style: Seq<char>, cell_type: Option<Seq<char>>, value: Option<Seq<char>> },
    /// Empty a cell with the given style and type, where the worksheet has it.
    Clear { cell_ref: Seq<char>, style: Seq<char>, cell_type: Option<Seq<char>> },
    /// Stop with an error.
    Fail(Failure),
}

/// The worksheet after one step.
pub open spec fn run_step(ws: Seq<char>, step: Step) -> Result<Seq<char>, Failure> {
    match step {
        Step::Write { cell_ref, style, cell_type, value } => cell_set(ws, cell_ref, style, cell_type, value),
        Step::Clear { cell_ref, style, cell_type } => if cell_range(ws, cell_ref) is Some {
            cell_set(ws, cell_ref, style, cell_type, None)
        } else {
            Ok(ws)
        },
        Step::Fail(f) => Err(f),
    }
}

/// The worksheet after the steps in order, or the first error.
pub open spec fn run_steps(ws: Seq<char>, steps: Seq<Step>) -> Result<Seq<char>, Failure>
    decreases steps.len(),
{
    if steps.len() == 0 {
        Ok(ws)
    } else {
        match run_step(ws, steps[0]) {
            Ok(w) => run_steps(w, steps.drop_first()),
            Err(e) => Err(e),
        }
    }
}

/// Continues from a result with more steps.
pub open spec fn then_steps(r: Result<Seq<char>, Failure>, steps: Seq<Step>) -> Result<Seq<char>, Failure> {
    match r {
        Ok(w) => run_steps(w, steps),
        Err(e) => Err(e),
    }
}

proof fn lemma_run_steps_append(ws: Seq<char>, a: Seq<Step>, b: Seq<Step>)
    ensures
        run_steps(ws, a + b) == then_steps(run_steps(ws, a), b),
    decreases a.len(),
{
    if a.len() == 0 {
        assert(a + b =~= b);
    } else {
        assert((a + b)[0] == a[0]);
        assert((a + b).drop_first() =~= a.drop_first() + b);
        match run_step(ws, a[0]) {
            Ok(w) => lemma_run_steps_append(w, a.drop_first(), b),
            Err(_) => {},
        }
    }
}

/// The cell reference of a column in a row.
pub open spec fn column_cell(c: FillView, row: u32) -> Seq<char> {
    c.column + decimal_text(row as int)
}

/// Emptying the fill columns of row `row`.
pub open spec fn clear_row_steps(columns: Seq<FillView>, row: u32) -> Seq<Step> {
    columns.map_values(|c: FillView| Step::Clear { cell_ref: column_cell(c, row), style: c.style, cell_type: c.cell_type })
}

/// Emptying the fill columns of each of `rows`.
pub open spec fn clear_steps(columns: Seq<FillView>, rows: Seq<u32>) -> Seq<Step>
    decreases rows.len(),
{
    if rows.len() == 0 {
        Seq::empty()
    } else {
        clear_row_steps(columns, rows[0]) + clear_steps(columns, rows.drop_first())
    }
}

/// Empties each fill column of row `row_number` that the worksheet has a cell for, keeping the
/// column's style and type (`clear_timesheet_row_values`).
pub fn clear_timesheet_row_values(ws: &[char], layout: &TemplateLayout, row_number: u32) -> (r: Vec<char>)
    ensures
        run_steps(ws@, clear_row_steps(layout@.columns, row_number)) == Ok::<Seq<char>, Failure>(r@),
{
    let ghost steps = clear_row_steps(layout@.columns, row_number);
    let mut updated = slice_chars(ws, 0, ws.len());
    assert(updated@ =~= ws@);
    let mut i: usize = 0;
    assert(steps.skip(0) =~= steps);
    while i < layout.columns.len()
        invariant
            i <= layout.columns@.len(),
            steps == clear_row_steps(layout@.columns, row_number),
            steps.len() == layout.columns@.len(),
            run_steps(ws@, steps) == run_steps(updated@, steps.skip(i as int)),
        decreases layout.columns.len() - i,
    {
        let column = &layout.columns[i];
        assert(steps.skip(i as int)[0] == steps[i as int]);
        assert(steps.skip(i as int).drop_first() =~= steps.skip(i + 1));
        let mut cell_ref = slice_chars(&column.column, 0, column.column.len());
        append_row(&mut cell_ref, row_number);
        assert(cell_ref@ == column_cell(layout@.columns[i as int], row_number)) by {
            assert(column.column@.subrange(0, column.column@.len() as int) =~= column.column@);
        }
        if find_cell_range(&updated, &cell_ref).is_some() {
            let cell_type: Option<&[char]> = match &column.cell_type {
                Some(t) => Some(t.as_slice()),
                None => None,
            };
            match set_cell(&updated, &cell_ref, &column.style, cell_type, None) {
                Ok(w) => {
                    updated = w;
                },
                Err(_) => {
                    assert(false);
                },
            }
        }
        i += 1;
    }
    assert(steps.skip(i as int) =~= Seq::<Step>::empty());
    updated
}

fn append_row(v: &mut Vec<char>, row: u32)
    ensures
        final(v)@ == old(v)@ + decimal_text(row as int),
{
    crate::text::append_chars(v, &u64_text(row as u64));
}

/// The first header target for `field`.
pub open spec fn header_named(targets: Seq<HeaderView>, field: Seq<char>) -> Option<HeaderView>
    decreases targets.len(),
{
    if targets.len() == 0 {
        None
    } else if targets[0].field == field {
        Some(targets[0])
    } else {
        header_named(targets.drop_first(), field)
    }
}

/// Writing shared string `index` into the target of header field `field`.
pub open spec fn header_step(targets: Seq<HeaderView>, field: Seq<char>, index: usize) -> Step {
    match header_named(targets, field) {
        Some(t) => Step::Write {
            cell_ref: t.cell_ref,
            style: t.style,
            cell_type: Some("s"@),
            value: Some(decimal_text(index as int)),
        },
        None => Step::Fail(Failure::MissingHeaderTarget(field)),
    }
}

/// The texts of the header replacements.
pub open spec fn replacement_views(repl: Seq<(&str, usize)>) -> Seq<(Seq<char>, usize)> {
    repl.map_values(|p: (&str, usize)| (p.0@, p.1))
}

/// Writing each header replacement in order.
pub open spec fn header_steps(targets: Seq<HeaderView>, repl: Seq<(Seq<char>, usize)>) -> Seq<Step> {
    repl.map_values(|p: (Seq<char>, usize)| header_step(targets, p.0, p.1))
}

/// Writing `value` with type `cell_type` into `field`'s column in row `row`.
pub open spec fn field_step(columns: Seq<FillView>, field: Seq<char>, row: u32, cell_type: Option<Seq<char>>, value: Seq<char>) -> Step {
    match column_named(columns, field) {
        Some(c) => Step::Write { cell_ref: column_cell(c, row), style: c.style, cell_type, value: Some(value) },
        None => Step::Fail(Failure::MissingColumn(field)),
    }
}

/// The fields of a table row with the type and text written into each, in writing order.
pub open spec fn row_plan(row: TimesheetRow<&str>) -> Seq<(Seq<char>, Option<Seq<char>>, Seq<char>)> {
    seq![
        ("date"@, None, decimal_text(row.date_serial as int)),
        ("typeofday"@, Some("s"@), decimal_text(row.day_type_idx as int)),
        ("performedprojecttasks"@, Some("s"@), decimal_text(row.task_idx as int)),
        ("taskstatus"@, Some("s"@), decimal_text(row.status_idx as int)),
        ("totalhours"@, None, row.hours@),
        ("employeecomment"@, Some("s"@), decimal_text(row.comment_idx as int)),
    ]
}

/// Writing a table row into worksheet row `n`.
pub open spec fn row_steps(columns: Seq<FillView>, row: TimesheetRow<&str>, n: u32) -> Seq<Step> {
    row_plan(row).map_values(|p: (Seq<char>, Option<Seq<char>>, Seq<char>)| field_step(columns, p.0, n, p.1, p.2))
}

/// Writing the table rows into the fill rows, pairing them in order.
pub open spec fn table_steps(columns: Seq<FillView>, rows: Seq<TimesheetRow<&str>>, data_rows: Seq<u32>) -> Seq<Step>
    decreases rows.len(),
{
    if rows.len() == 0 || data_rows.len() == 0 {
        Seq::empty()
    } else {
        row_steps(columns, rows[0], data_rows[0]) + table_steps(columns, rows.drop_first(), data_rows.drop_first())
    }
}

/// Filling the worksheet (`replace_worksheet_data`): the header values, then, where the
/// template has rows enough, emptying the fill columns of every fill row and writing the
/// table rows into them.
pub open spec fn worksheet_steps(layout: LayoutView, repl: Seq<(Seq<char>, usize)>, rows: Seq<TimesheetRow<&str>>) -> Seq<Step> {
    header_steps(layout.header_fields, repl) + if rows.len() > layout.data_rows.len() {
        seq![Step::Fail(Failure::TooFewRows { available: layout.data_rows.len() as usize, needed: rows.len() as usize })]
    } else {
        clear_steps(layout.columns, layout.data_rows) + table_steps(layout.columns, rows, layout.data_rows)
    }
}

fn header_target_index(layout: &TemplateLayout, field: &str) -> (r: Option<usize>)
    ensures
        match r {
            Some(k) => k < layout.header_fields@.len() && header_named(layout@.header_fields, field@) == Some(layout@.header_fields[k as int]),
            None => header_named(layout@.header_fields, field@) is None,
        },
{
    let ghost targets = layout@.header_fields;
    let wanted = chars_of(field);
    let mut i: usize = 0;
    assert(targets.skip(0) =~= targets);
    while i < layout.header_fields.len()
        invariant
            i <= layout.header_fields@.len(),
            targets == layout@.header_fields,
            targets.len() == layout.header_fields@.len(),
            wanted@ == field@,
            header_named(targets, field@) == header_named(targets.skip(i as int), field@),
        decreases layout.header_fields.len() - i,
    {
        assert(targets.skip(i as int)[0] == targets[i as int]);
        assert(targets.skip(i as int).drop_first() =~= targets.skip(i + 1));
        if crate::text::chars_eq(&layout.header_fields[i].field, &wanted) {
            return Some(i);
        }
        i += 1;
    }
    None
}

fn write_header_field(ws: &[char], layout: &TemplateLayout, field: &str, index: usize) -> (r: Result<Vec<char>, ExcelError>)
    ensures
        match r {
            Ok(w) => run_step(ws@, header_step(layout@.header_fields, field@, index)) == Ok::<Seq<char>, Failure>(w@),
            Err(e) => run_step(ws@, header_step(layout@.header_fields, field@, index)) == Err::<Seq<char>, Failure>(e@),
        },
{
    match header_target_index(layout, field) {
        Some(k) => {
            let target = &layout.header_fields[k];
            let shared = chars_of("s");
            let value = u64_text(index as u64);
            set_cell(ws, &target.cell_ref, &target.style, Some(shared.as_slice()), Some(value.as_slice()))
        },
        None => Err(ExcelError::MissingHeaderTarget(String::from_str(field))),
    }
}

fn write_field(ws: &[char], layout: &TemplateLayout, field: &[char], row: u32, cell_type: Option<&[char]>, value: &[char]) -> (r: Result<Vec<char>, ExcelError>)
    ensures
        match r {
            Ok(w) => run_step(ws@, field_step(layout@.columns, field@, row, opt_view(cell_type), value@)) == Ok::<Seq<char>, Failure>(w@),
            Err(e) => run_step(ws@, field_step(layout@.columns, field@, row, opt_view(cell_type), value@)) == Err::<Seq<char>, Failure>(e@),
        },
{
    let cell_ref = match layout.cell_ref(field, row) {
        Ok(c) => c,
        Err(e) => return Err(e),
    };
    let style = match layout.style(field) {
        Ok(s) => s,
        Err(e) => return Err(e),
    };
    set_cell(ws, &cell_ref, style, cell_type, Some(value))
}

/// The texts of a row plan.
pub open spec fn plan_view(p: Seq<(Vec<char>, Option<Vec<char>>, Vec<char>)>) -> Seq<(Seq<char>, Option<Seq<char>>, Seq<char>)> {
    p.map_values(|t: (Vec<char>, Option<Vec<char>>, Vec<char>)| (t.0@, opt_chars(t.1), t.2@))
}

fn shared_type() -> (r: Option<Vec<char>>)
    ensures
        opt_chars(r) == Some("s"@),
{
    Some(chars_of("s"))
}

fn row_plan_exec(row: &TimesheetRow<&str>) -> (r: Vec<(Vec<char>, Option<Vec<char>>, Vec<char>)>)
    ensures
        plan_view(r@) == row_plan(*row),
{
    let mut r: Vec<(Vec<char>, Option<Vec<char>>, Vec<char>)> = Vec::new();
    r.push((chars_of("date"), None, i64_text(row.date_serial as i64)));
    r.push((chars_of("typeofday"), shared_type(), u64_text(row.day_type_idx as u64)));
    r.push((chars_of("performedprojecttasks"), shared_type(), u64_text(row.task_idx as u64)));
    r.push((chars_of("taskstatus"), shared_type(), u64_text(row.status_idx as u64)));
    r.push((chars_of("totalhours"), None, chars_of(row.hours)));
    r.push((chars_of("employeecomment"), shared_type(), u64_text(row.comment_idx as u64)));
    assert(plan_view(r@) =~= row_plan(*row));
    r
}

fn write_table_row(ws: &[char], layout: &TemplateLayout, row: &TimesheetRow<&str>, n: u32) -> (r: Result<Vec<char>, ExcelError>)
    ensures
        match r {
            Ok(w) => run_steps(ws@, row_steps(layout@.columns, *row, n)) == Ok::<Seq<char>, Failure>(w@),
            Err(e) => run_steps(ws@, row_steps(layout@.columns, *row, n)) == Err::<Seq<char>, Failure>(e@),
        },
{
    let plan = row_plan_exec(row);
    let ghost steps = row_steps(layout@.columns, *row, n);
    let mut updated = slice_chars(ws, 0, ws.len());
    assert(updated@ =~= ws@);
    assert(steps.skip(0) =~= steps);
    let mut i: usize = 0;
    while i < plan.len()
        invariant
            i <= plan@.len(),
            plan_view(plan@) == row_plan(*row),
            steps == row_steps(layout@.columns, *row, n),
            steps.len() == plan@.len(),
            run_steps(ws@, steps) == run_steps(updated@, steps.skip(i as int)),
        decreases plan.len() - i,
    {
        assert(steps.skip(i as int)[0] == steps[i as int]);
        assert(steps.skip(i as int).drop_first() =~= steps.skip(i + 1));
        let (field, cell_type, value) = &plan[i];
        let t: Option<&[char]> = match cell_type {
            Some(t) => Some(t.as_slice()),
            None => None,
        };
        match write_field(&updated, layout, field, n, t, value) {
            Ok(w) => {
                updated = w;
            },
            Err(e) => {
                return Err(e);
            },
        }
        i += 1;
    }
    assert(steps.skip(i as int) =~= Seq::<Step>::empty());
    Ok(updated)
}

proof fn lemma_table_steps_unfold(columns: Seq<FillView>, rows: Seq<TimesheetRow<&str>>, data_rows: Seq<u32>, k: int)
    requires
        0 <= k < rows.len(),
        rows.len() <= data_rows.len(),
    ensures
        table_steps(columns, rows.skip(k), data_rows.skip(k)) == row_steps(columns, rows[k], data_rows[k])
            + table_steps(columns, rows.skip(k + 1), data_rows.skip(k + 1)),
{
    assert(rows.skip(k).drop_first() =~= rows.skip(k + 1));
    assert(data_rows.skip(k).drop_first() =~= data_rows.skip(k + 1));
    assert(rows.skip(k)[0] == rows[k]);
    assert(data_rows.skip(k)[0] == data_rows[k]);
}

/// Fills the worksheet: the header fields with the given shared-string indexes, then the table
/// rows into the template's fill rows (`replace_worksheet_data`).
pub fn replace_worksheet_data(
    ws: &[char],
    layout: &TemplateLayout,
    shared_string_replacements: &[(&str, usize)],
    rows: &[TimesheetRow<&str>],
) -> (r: Result<Vec<char>, ExcelError>)
    ensures
        match r {
            Ok(w) => run_steps(ws@, worksheet_steps(layout@, replacement_views(shared_string_replacements@), rows@))
                == Ok::<Seq<char>, Failure>(w@),
            Err(e) => run_steps(ws@, worksheet_steps(layout@, replacement_views(shared_string_replacements@), rows@))
                == Err::<Seq<char>, Failure>(e@),
        },
{
    let ghost repl = replacement_views(shared_string_replacements@);
    let ghost heads = header_steps(layout@.header_fields, repl);
    let ghost tail = if rows@.len() > layout@.data_rows.len() {
        seq![Step::Fail(Failure::TooFewRows { available: layout@.data_rows.len() as usize, needed: rows@.len() as usize })]
    } else {
        clear_steps(layout@.columns, layout@.data_rows) + table_steps(layout@.columns, rows@, layout@.data_rows)
    };
    let ghost all = worksheet_steps(layout@, repl, rows@);
    let mut updated = slice_chars(ws, 0, ws.len());
    assert(updated@ =~= ws@);
    assert(heads.skip(0) + tail =~= all);
    let mut i: usize = 0;
    while i < shared_string_replacements.len()
        invariant
            i <= shared_string_replacements@.len(),
            repl == replacement_views(shared_string_replacements@),
            heads == header_steps(layout@.header_fields, repl),
            heads.len() == shared_string_replacements@.len(),
            all == worksheet_steps(layout@, repl, rows@),
            run_steps(ws@, all) == run_steps(updated@, heads.skip(i as int) + tail),
        decreases shared_string_replacements.len() - i,
    {
        assert((heads.skip(i as int) + tail)[0] == heads[i as int]);
        assert((heads.skip(i as int) + tail).drop_first() =~= heads.skip(i + 1) + tail);
        let (field, index) = shared_string_replacements[i];
        match write_header_field(&updated, layout, field, index) {
            Ok(w) => {
                updated = w;
            },
            Err(e) => {
                return Err(e);
            },
        }
        i += 1;
    }
    assert(heads.skip(i as int) + tail =~= tail);
    if rows.len() > layout.data_rows.len() {
        return Err(ExcelError::TooFewRows { available: layout.data_rows.len(), needed: rows.len() });
    }
    let ghost table = table_steps(layout@.columns, rows@, layout@.data_rows);
    let cleared = clear_rows(&updated, layout);
    proof {
        lemma_run_steps_append(updated@, clear_steps(layout@.columns, layout@.data_rows), table);
    }
    write_table(&cleared, layout, rows)
}

fn clear_rows(ws: &[char], layout: &TemplateLayout) -> (r: Vec<char>)
    ensures
        run_steps(ws@, clear_steps(layout@.columns, layout@.data_rows)) == Ok::<Seq<char>, Failure>(r@),
{
    let ghost data_rows = layout@.data_rows;
    let mut updated = slice_chars(ws, 0, ws.len());
    assert(updated@ =~= ws@);
    let mut j: usize = 0;
    assert(data_rows.skip(0) =~= data_rows);
    while j < layout.data_rows.len()
        invariant
            j <= layout.data_rows@.len(),
            data_rows == layout@.data_rows,
            run_steps(ws@, clear_steps(layout@.columns, data_rows)) == run_steps(updated@, clear_steps(layout@.columns, data_rows.skip(j as int))),
        decreases layout.data_rows.len() - j,
    {
        let n = layout.data_rows[j];
        assert(data_rows.skip(j as int).drop_first() =~= data_rows.skip(j + 1));
        assert(data_rows.skip(j as int)[0] == n);
        proof {
            lemma_run_steps_append(updated@, clear_row_steps(layout@.columns, n), clear_steps(layout@.columns, data_rows.skip(j + 1)));
        }
        updated = clear_timesheet_row_values(&updated, layout, n);
        j += 1;
    }
    assert(data_rows.skip(j as int) =~= Seq::<u32>::empty());
    updated
}

fn write_table(ws: &[char], layout: &TemplateLayout, rows: &[TimesheetRow<&str>]) -> (r: Result<Vec<char>, ExcelError>)
    requires
        rows@.len() <= layout@.data_rows.len(),
    ensures
        match r {
            Ok(w) => run_steps(ws@, table_steps(layout@.columns, rows@, layout@.data_rows)) == Ok::<Seq<char>, Failure>(w@),
            Err(e) => run_steps(ws@, table_steps(layout@.columns, rows@, layout@.data_rows)) == Err::<Seq<char>, Failure>(e@),
        },
{
    let ghost data_rows = layout@.data_rows;
    let ghost columns = layout@.columns;
    let mut updated = slice_chars(ws, 0, ws.len());
    assert(updated@ =~= ws@);
    let mut k: usize = 0;
    assert(rows@.skip(0) =~= rows@);
    assert(data_rows.skip(0) =~= data_rows);
    while k < rows.len()
        invariant
            k <= rows@.len(),
            rows@.len() <= data_rows.len(),
            data_rows == layout@.data_rows,
            columns == layout@.columns,
            run_steps(ws@, table_steps(columns, rows@, data_rows)) == run_steps(updated@, table_steps(columns, rows@.skip(k as int), data_rows.skip(k as int))),
        decreases rows.len() - k,
    {
        let ghost rest = table_steps(columns, rows@.skip(k + 1), data_rows.skip(k + 1));
        proof {
            lemma_table_steps_unfold(columns, rows@, data_rows, k as int);
            lemma_run_steps_append(updated@, row_steps(columns, rows@[k as int], data_rows[k as int]), rest);
        }
        match write_table_row(&updated, layout, &rows[k], layout.data_rows[k]) {
            Ok(w) => {
                updated = w;
            },
            Err(e) => {
                return Err(e);
            },
        }
        k += 1;
    }
    assert(rows@.skip(k as int).len() == 0);
    Ok(updated)
}

/// `s` holds no `<`.
pub open spec fn lt_free(s: Seq<char>) -> bool {
    forall|i: int| 0 <= i < s.len() ==> s[i] != '<'
}

proof fn lemma_lt_free_add(a: Seq<char>, b: Seq<char>)
    requires
        lt_free(a),
        lt_free(b),
    ensures
        lt_free(a + b),
{
    assert forall|i: int| 0 <= i < (a + b).len() implies (a + b)[i] != '<' by {
        if i < a.len() {
            assert((a + b)[i] == a[i]);
        } else {
            assert((a + b)[i] == b[i - a.len()]);
        }
    }
}

proof fn lemma_mismatch(s: Seq<char>, p: Seq<char>, k: int, j: int)
    requires
        0 <= j < p.len(),
        0 <= k,
        k + j < s.len(),
        s[k + j] != p[j],
    ensures
        !matches_at(s, p, k),
{
    if matches_at(s, p, k) {
        assert(s.subrange(k, k + p.len())[j] == s[k + j]);
    }
}

/// `s` holds neither `<` nor `>`: text that cannot open or close a tag.
pub open spec fn tag_free(s: Seq<char>) -> bool {
    forall|i: int| 0 <= i < s.len() ==> s[i] != '<' && s[i] != '>'
}

/// `s` holds no `"`.
pub open spec fn quote_free(s: Seq<char>) -> bool {
    forall|i: int| 0 <= i < s.len() ==> s[i] != '"'
}

/// Nowhere in `s` is an `a` directly followed by a `b`.
pub open spec fn no_pair(s: Seq<char>, a: char, b: char) -> bool {
    forall|k: int| 0 <= k && k + 1 < s.len() ==> !(#[trigger] s[k] == a && s[k + 1] == b)
}

proof fn lemma_no_pair_add(x: Seq<char>, y: Seq<char>, a: char, b: char)
    requires
        no_pair(x, a, b),
        no_pair(y, a, b),
        x.len() == 0 || y.len() == 0 || !(x[x.len() - 1] == a && y[0] == b),
    ensures
        no_pair(x + y, a, b),
{
    let z = x + y;
    assert forall|k: int| 0 <= k && k + 1 < z.len() implies !(#[trigger] z[k] == a && z[k + 1] == b) by {
        if k + 1 < x.len() {
            assert(z[k] == x[k] && z[k + 1] == x[k + 1]);
        } else if k + 1 == x.len() {
            assert(z[k] == x[x.len() - 1] && z[k + 1] == y[0]);
        } else {
            assert(z[k] == y[k - x.len()] && z[k + 1] == y[k + 1 - x.len()]);
        }
    }
}

proof fn lemma_no_pair_free(s: Seq<char>, a: char, b: char)
    requires
        (forall|i: int| 0 <= i < s.len() ==> s[i] != a) || (forall|i: int| 0 <= i < s.len() ==> s[i] != b),
    ensures
        no_pair(s, a, b),
{
    assert forall|k: int| 0 <= k && k + 1 < s.len() implies !(#[trigger] s[k] == a && s[k + 1] == b) by {
        assert(s[k] != a || s[k + 1] != b);
    }
}

/// What the XML of a written cell is made of, where its texts hold no `<` or `>`: it starts
/// with the cell's marker and ends with `>`, holds no `/>` but (where it has no value) at its
/// end, and no `<c` but at its start.
#[verifier::spinoff_prover]
#[verifier::rlimit(40)]
proof fn lemma_cell_text(cell_ref: Seq<char>, style: Seq<char>, cell_type: Option<Seq<char>>, value: Option<Seq<char>>)
    requires
        tag_free(cell_ref),
        tag_free(style),
        cell_type matches Some(t) ==> tag_free(t),
        value matches Some(v) ==> tag_free(v),
    ensures
        ({
            let cell = cell_xml(cell_ref, style, cell_type, value);
            let m = cell_marker(cell_ref);
            &&& m.len() + 2 <= cell.len()
            &&& cell.subrange(0, m.len() as int) == m
            &&& cell[0] == '<'
            &&& cell[1] == 'c'
            &&& cell[cell.len() - 1] == '>'
            &&& no_pair(cell.drop_first(), '<', 'c')
            &&& no_pair(cell.drop_last(), '/', '>')
            &&& value is Some ==> cell[cell.len() - 2] != '/'
        }),
{
    reveal_strlit("<c r=\"");
    reveal_strlit("c r=\"");
    reveal_strlit("\" s=\"");
    reveal_strlit("\"");
    reveal_strlit(" s=\"");
    reveal_strlit(" t=\"");
    reveal_strlit("><v>");
    reveal_strlit("</v></c>");
    reveal_strlit("/>");
    let cell = cell_xml(cell_ref, style, cell_type, value);
    let m = cell_marker(cell_ref);
    let type_attr = match cell_type {
        Some(t) => " t=\""@ + t + "\""@,
        None => Seq::<char>::empty(),
    };
    let p0 = "<c r=\""@;
    let p2 = "\" s=\""@;
    let q = "\""@;
    let head = p0 + cell_ref + p2 + style + q + type_attr;
    let tail = match value {
        Some(v) => "><v>"@ + v + "</v></c>"@,
        None => "/>"@,
    };
    assert(cell =~= head + tail);
    assert(head =~= m + (" s=\""@ + style + q + type_attr)) by {
        assert(p2 =~= q + " s=\""@);
    }
    assert(cell.subrange(0, m.len() as int) =~= m);
    assert(tail.len() >= 2);
    assert(cell[0] == '<' && cell[1] == 'c');

    // No `<c` after the first character.
    let c0 = "c r=\""@;
    lemma_no_pair_free(c0, '<', 'c');
    lemma_no_pair_free(cell_ref, '<', 'c');
    lemma_no_pair_free(p2, '<', 'c');
    lemma_no_pair_free(style, '<', 'c');
    lemma_no_pair_free(q, '<', 'c');
    lemma_no_pair_add(c0, cell_ref, '<', 'c');
    lemma_no_pair_add(c0 + cell_ref, p2, '<', 'c');
    lemma_no_pair_add(c0 + cell_ref + p2, style, '<', 'c');
    lemma_no_pair_add(c0 + cell_ref + p2 + style, q, '<', 'c');
    let h1 = c0 + cell_ref + p2 + style + q;
    assert(h1[h1.len() - 1] == '"');
    assert(no_pair(type_attr, '<', 'c')) by {
        if let Some(t) = cell_type {
            lemma_no_pair_free(" t=\""@, '<', 'c');
            lemma_no_pair_free(t, '<', 'c');
            lemma_no_pair_add(" t=\""@, t, '<', 'c');
            lemma_no_pair_add(" t=\""@ + t, q, '<', 'c');
        } else {
            lemma_no_pair_free(type_attr, '<', 'c');
        }
    }
    lemma_no_pair_add(h1, type_attr, '<', 'c');
    let h2 = h1 + type_attr;
    assert(h2[h2.len() - 1] == '"') by {
        if type_attr.len() > 0 {
            assert(h2[h2.len() - 1] == type_attr[type_attr.len() - 1]);
        }
    }
    assert(cell.drop_first() =~= h2 + tail);
    match value {
        Some(v) => {
            let t0 = "><v>"@;
            let t2 = "</v></c>"@;
            assert(no_pair(t0, '<', 'c')) by {
                assert forall|k: int| 0 <= k && k + 1 < t0.len() implies !(#[trigger] t0[k] == '<' && t0[k + 1] == 'c') by {}
            }
            assert(no_pair(t2, '<', 'c')) by {
                assert forall|k: int| 0 <= k && k + 1 < t2.len() implies !(#[trigger] t2[k] == '<' && t2[k + 1] == 'c') by {}
            }
            lemma_no_pair_free(v, '<', 'c');
            lemma_no_pair_add(t0, v, '<', 'c');
            lemma_no_pair_add(t0 + v, t2, '<', 'c');
            lemma_no_pair_add(h2, tail, '<', 'c');
        },
        None => {
            lemma_no_pair_free(tail, '<', 'c');
            lemma_no_pair_add(h2, tail, '<', 'c');
        },
    }

    // No `/>` before the last character.
    let h0 = p0 + cell_ref + p2 + style + q;
    lemma_no_pair_free(p0, '/', '>');
    lemma_no_pair_free(cell_ref, '/', '>');
    lemma_no_pair_free(p2, '/', '>');
    lemma_no_pair_free(style, '/', '>');
    lemma_no_pair_free(q, '/', '>');
    lemma_no_pair_add(p0, cell_ref, '/', '>');
    lemma_no_pair_add(p0 + cell_ref, p2, '/', '>');
    lemma_no_pair_add(p0 + cell_ref + p2, style, '/', '>');
    lemma_no_pair_add(p0 + cell_ref + p2 + style, q, '/', '>');
    assert(no_pair(type_attr, '/', '>')) by {
        if let Some(t) = cell_type {
            lemma_no_pair_free(" t=\""@, '/', '>');
            lemma_no_pair_free(t, '/', '>');
            lemma_no_pair_add(" t=\""@, t, '/', '>');
            lemma_no_pair_add(" t=\""@ + t, q, '/', '>');
        } else {
            lemma_no_pair_free(type_attr, '/', '>');
        }
    }
    lemma_no_pair_add(h0, type_attr, '/', '>');
    assert(head =~= h0 + type_attr);
    assert(head[head.len() - 1] == '"') by {
        if type_attr.len() > 0 {
            assert(head[head.len() - 1] == type_attr[type_attr.len() - 1]);
        } else {
            assert(head[head.len() - 1] == h0[h0.len() - 1]);
        }
    }
    match value {
        Some(v) => {
            let t0 = "><v>"@;
            let t2 = "</v></c>"@;
            assert(no_pair(t0, '/', '>')) by {
                assert forall|k: int| 0 <= k && k + 1 < t0.len() implies !(#[trigger] t0[k] == '/' && t0[k + 1] == '>') by {}
            }
            assert(no_pair(t2.drop_last(), '/', '>')) by {
                assert forall|k: int| 0 <= k && k + 1 < t2.drop_last().len() implies !(#[trigger] t2.drop_last()[k] == '/' && t2.drop_last()[k + 1] == '>') by {}
            }
            lemma_no_pair_free(v, '/', '>');
            lemma_no_pair_add(t0, v, '/', '>');
            lemma_no_pair_add(t0 + v, t2.drop_last(), '/', '>');
            assert(tail.drop_last() =~= t0 + v + t2.drop_last());
            lemma_no_pair_add(head, tail.drop_last(), '/', '>');
            assert(cell.drop_last() =~= head + tail.drop_last());
            assert(cell[cell.len() - 2] == t2[6]);
        },
        None => {
            assert(tail.drop_last() =~= seq!['/']);
            lemma_no_pair_free(tail.drop_last(), '/', '>');
            lemma_no_pair_add(head, tail.drop_last(), '/', '>');
            assert(cell.drop_last() =~= head + tail.drop_last());
        },
    }
}

/// The value held in the XML of cell `cell_ref`, where there is one.
pub open spec fn cell_value(ws: Seq<char>, cell_ref: Seq<char>) -> Option<Seq<char>> {
    match cell_range(ws, cell_ref) {
        Some((s, e)) => value_of(ws.subrange(s, e)),
        None => None,
    }
}

/// The attributes between a cell's reference and its `>`: style and optional type.
pub open spec fn cell_attrs(style: Seq<char>, cell_type: Option<Seq<char>>) -> Seq<char> {
    " s=\""@ + style + "\""@ + match cell_type {
        Some(t) => " t=\""@ + t + "\""@,
        None => Seq::empty(),
    } + ">"@
}

proof fn lemma_cell_layout(cell_ref: Seq<char>, style: Seq<char>, cell_type: Option<Seq<char>>, value: Seq<char>)
    requires
        lt_free(cell_ref),
        lt_free(style),
        cell_type matches Some(t) ==> lt_free(t),
        lt_free(value),
    ensures
        ({
            let cell = cell_xml(cell_ref, style, cell_type, Some(value));
            let m = cell_marker(cell_ref);
            let q = (m.len() + cell_attrs(style, cell_type).len()) as int;
            let r = q + 3 + value.len();
            &&& cell.len() == r + 8
            &&& cell.subrange(0, m.len() as int) == m
            &&& m[0] == '<'
            &&& forall|k: int| 1 <= k < m.len() ==> m[k] != '<'
            &&& cell[1] == 'c'
            &&& cell[q] == '<' && cell[q + 1] == 'v'
            &&& forall|k: int| 0 < k < q ==> cell[k] != '<'
            &&& forall|k: int| q + 3 <= k < r ==> cell[k] != '<'
            &&& cell.subrange(q, q + 3) == "<v>"@
            &&& cell.subrange(q + 3, r) == value
            &&& cell.subrange(r, r + 4) == "</v>"@
            &&& cell.subrange(r + 4, r + 8) == "</c>"@
            &&& cell[r + 1] == '/' && cell[r + 2] == 'v' && cell[r + 3] == '>'
        }),
{
    reveal_strlit("<c r=\"");
    reveal_strlit("c r=\"");
    reveal_strlit("\"");
    reveal_strlit("\" s=\"");
    reveal_strlit(" s=\"");
    reveal_strlit(" t=\"");
    reveal_strlit(">");
    reveal_strlit("><v>");
    reveal_strlit("<v>");
    reveal_strlit("</v></c>");
    reveal_strlit("</v>");
    reveal_strlit("</c>");
    let m = cell_marker(cell_ref);
    let attrs = cell_attrs(style, cell_type);
    let type_attr = match cell_type {
        Some(t) => " t=\""@ + t + "\""@,
        None => Seq::<char>::empty(),
    };
    let cell = cell_xml(cell_ref, style, cell_type, Some(value));
    let tail = "c r=\""@ + cell_ref + "\""@;
    assert(m =~= seq!['<'] + tail);
    assert(lt_free("c r=\""@));
    assert(lt_free("\""@));
    lemma_lt_free_add("c r=\""@, cell_ref);
    lemma_lt_free_add("c r=\""@ + cell_ref, "\""@);
    assert(lt_free(" s=\""@));
    assert(lt_free(">"@));
    lemma_lt_free_add(" s=\""@, style);
    lemma_lt_free_add(" s=\""@ + style, "\""@);
    assert(lt_free(type_attr)) by {
        if let Some(t) = cell_type {
            assert(lt_free(" t=\""@));
            lemma_lt_free_add(" t=\""@, t);
            lemma_lt_free_add(" t=\""@ + t, "\""@);
        }
    }
    lemma_lt_free_add(" s=\""@ + style + "\""@, type_attr);
    lemma_lt_free_add(" s=\""@ + style + "\""@ + type_attr, ">"@);
    assert(attrs =~= " s=\""@ + style + "\""@ + type_attr + ">"@);
    assert(cell =~= m + attrs + "<v>"@ + value + "</v></c>"@);
    let q = (m.len() + attrs.len()) as int;
    let r = q + 3 + value.len();
    assert(cell.subrange(0, m.len() as int) =~= m);
    assert forall|k: int| 1 <= k < m.len() implies m[k] != '<' by {
        assert(m[k] == tail[k - 1]);
    }
    assert forall|k: int| 0 < k < q implies cell[k] != '<' by {
        if k < m.len() {
            assert(cell[k] == m[k]);
        } else {
            assert(cell[k] == attrs[k - m.len()]);
        }
    }
    assert forall|k: int| q + 3 <= k < r implies cell[k] != '<' by {
        assert(cell[k] == value[k - q - 3]);
    }
    assert(cell.subrange(q, q + 3) =~= "<v>"@);
    assert(cell.subrange(q + 3, r) =~= value);
    assert(cell.subrange(r, r + 4) =~= "</v>"@);
    assert(cell.subrange(r + 4, r + 8) =~= "</c>"@);
}

/// What the layout lemma gives of a cell's XML: `<` only at the start, at `<v>` (from `q`),
/// and at `</v></c>` (from `r`).
pub open spec fn cell_shape(cell: Seq<char>, q: int, r: int, value: Seq<char>) -> bool {
    &&& 1 < q
    &&& q + 3 <= r
    &&& cell.len() == r + 8
    &&& cell[0] == '<'
    &&& cell[1] == 'c'
    &&& cell[q] == '<' && cell[q + 1] == 'v'
    &&& forall|k: int| 0 < k < q ==> cell[k] != '<'
    &&& forall|k: int| q + 3 <= k < r ==> cell[k] != '<'
    &&& cell.subrange(q, q + 3) == "<v>"@
    &&& cell.subrange(q + 3, r) == value
    &&& cell.subrange(r, r + 4) == "</v>"@
    &&& cell.subrange(r + 4, r + 8) == "</c>"@
    &&& cell[r + 1] == '/' && cell[r + 2] == 'v' && cell[r + 3] == '>'
}

proof fn lemma_marker_first(ws: Seq<char>, new: Seq<char>, at: int, m: Seq<char>)
    requires
        0 <= at <= ws.len(),
        at + m.len() <= new.len(),
        m.len() >= 1,
        new.subrange(at, at + m.len()) == m,
        m[0] == '<',
        forall|k: int| 1 <= k < m.len() ==> m[k] != '<',
        forall|k: int| 0 <= k < at ==> new[k] == ws[k],
        forall|j: int| 0 <= j < at ==> !matches_at(ws, m, j),
    ensures
        find_first(new, m) == Some(at),
{
    assert(new[at] == new.subrange(at, at + m.len())[0]);
    assert forall|k: int| 0 <= k < at implies !matches_at(new, m, k) by {
        if k + m.len() <= at {
            if matches_at(new, m, k) {
                assert(ws.subrange(k, k + m.len()) =~= m) by {
                    assert forall|i: int| 0 <= i < m.len() implies ws.subrange(k, k + m.len())[i] == m[i] by {
                        assert(new.subrange(k, k + m.len())[i] == new[k + i]);
                    }
                }
                assert(matches_at(ws, m, k));
            }
        } else {
            lemma_mismatch(new, m, k, at - k);
        }
    }
    lemma_find_from_at(new, m, 0, at);
}

proof fn lemma_close_after(new: Seq<char>, at: int, cell: Seq<char>, q: int, r: int, value: Seq<char>)
    requires
        0 <= at,
        at + cell.len() <= new.len(),
        new.subrange(at, at + cell.len()) == cell,
        cell_shape(cell, q, r, value),
    ensures
        find_from(new, "</c>"@, at) == Some(at + r + 4),
{
    reveal_strlit("</c>");
    reveal_strlit("<v>");
    let close = "</c>"@;
    assert forall|k: int| at <= k < at + r + 4 implies !matches_at(new, close, k) by {
        let i = k - at;
        assert(new.subrange(at, at + cell.len())[i] == new[k]);
        assert(new.subrange(at, at + cell.len())[i + 1] == new[k + 1]);
        assert(new.subrange(at, at + cell.len())[i + 2] == new[k + 2]);
        if i == 0 || i == q {
            lemma_mismatch(new, close, k, 1);
        } else if i == q + 1 || i == q + 2 {
            assert(cell[i] == cell.subrange(q, q + 3)[i - q]);
            lemma_mismatch(new, close, k, 0);
        } else if i == r {
            lemma_mismatch(new, close, k, 2);
        } else {
            lemma_mismatch(new, close, k, 0);
        }
    }
    assert(new.subrange(at + r + 4, at + r + 8) =~= close) by {
        assert forall|k: int| 0 <= k < 4 implies new.subrange(at + r + 4, at + r + 8)[k] == close[k] by {
            assert(cell.subrange(r + 4, r + 8)[k] == cell[r + 4 + k]);
        }
    }
    lemma_find_from_at(new, close, at, at + r + 4);
}

proof fn lemma_value_of_shape(cell: Seq<char>, q: int, r: int, value: Seq<char>)
    requires
        cell_shape(cell, q, r, value),
    ensures
        value_of(cell) == Some(value),
{
    reveal_strlit("<v>");
    reveal_strlit("</v>");
    let open = "<v>"@;
    assert forall|k: int| 0 <= k < q implies !matches_at(cell, open, k) by {
        if k == 0 {
            lemma_mismatch(cell, open, 0, 1);
        } else {
            lemma_mismatch(cell, open, k, 0);
        }
    }
    lemma_find_from_at(cell, open, 0, q);
    let vclose = "</v>"@;
    assert forall|k: int| q + 3 <= k < r implies !matches_at(cell, vclose, k) by {
        lemma_mismatch(cell, vclose, k, 0);
    }
    lemma_find_from_at(cell, vclose, q + 3, r);
}

/// A cell holding no `/>` placed at `at`: searching for `/>` from `at` finds none before its
/// last character.
proof fn lemma_no_empty_end_within(new: Seq<char>, at: int, cell: Seq<char>)
    requires
        0 <= at,
        2 <= cell.len(),
        at + cell.len() <= new.len(),
        new.subrange(at, at + cell.len()) == cell,
        no_pair(cell.drop_last(), '/', '>'),
        cell[cell.len() - 2] != '/',
    ensures
        find_from(new, "/>"@, at) matches Some(f) ==> f >= at + cell.len() - 1,
{
    reveal_strlit("/>");
    let len = cell.len() as int;
    assert forall|j: int| at <= j < at + len - 1 implies !matches_at(new, "/>"@, j) by {
        if matches_at(new, "/>"@, j) {
            assert(new.subrange(j, j + 2)[0] == new[j]);
            assert(new.subrange(j, j + 2)[1] == new[j + 1]);
            let k = j - at;
            assert(new.subrange(at, at + len)[k] == new[j]);
            assert(new.subrange(at, at + len)[k + 1] == new[j + 1]);
            if k + 1 < len - 1 {
                assert(cell.drop_last()[k] == cell[k]);
                assert(cell.drop_last()[k + 1] == cell[k + 1]);
            }
        }
    }
    lemma_find_from(new, "/>"@, at);
}

#[verifier::spinoff_prover]
#[verifier::rlimit(40)]
proof fn lemma_spliced_cell_reads_back(
    ws: Seq<char>,
    at: int,
    b: int,
    cell_ref: Seq<char>,
    style: Seq<char>,
    cell_type: Option<Seq<char>>,
    value: Seq<char>,
)
    requires
        0 <= at <= b <= ws.len(),
        forall|j: int| 0 <= j < at ==> !matches_at(ws, cell_marker(cell_ref), j),
        tag_free(cell_ref),
        tag_free(style),
        cell_type matches Some(t) ==> tag_free(t),
        tag_free(value),
    ensures
        cell_value(splice(ws, at, b, cell_xml(cell_ref, style, cell_type, Some(value))), cell_ref) == Some(value),
{
    lemma_cell_layout(cell_ref, style, cell_type, value);
    let cell = cell_xml(cell_ref, style, cell_type, Some(value));
    let m = cell_marker(cell_ref);
    let q = (m.len() + cell_attrs(style, cell_type).len()) as int;
    let r = q + 3 + value.len();
    let new = splice(ws, at, b, cell);
    assert(new.subrange(at, at + cell.len()) =~= cell);
    assert forall|k: int| 0 <= k < at implies new[k] == ws[k] by {
        assert(new[k] == (ws.take(at) + cell)[k]);
    }
    assert(new.subrange(at, at + m.len()) =~= m) by {
        assert forall|k: int| 0 <= k < m.len() implies new.subrange(at, at + m.len())[k] == m[k] by {
            assert(cell.subrange(0, m.len() as int)[k] == cell[k]);
            assert(new.subrange(at, at + cell.len())[k] == cell[k]);
        }
    }
    reveal_strlit("<c r=\"");
    assert(m.len() >= 1);
    lemma_marker_first(ws, new, at, m);
    assert(cell_shape(cell, q, r, value));
    lemma_close_after(new, at, cell, q, r, value);
    lemma_cell_text(cell_ref, style, cell_type, Some(value));
    lemma_no_empty_end_within(new, at, cell);
    assert(cell_range(new, cell_ref) == Some((at, at + r + 8)));
    lemma_value_of_shape(cell, q, r, value);
}

proof fn lemma_insert_offset_from(row: Seq<char>, target: nat, off: int)
    ensures
        insert_offset_from(row, target, off) matches Some(k) ==> 0 <= k < row.len(),
    decreases row.len() + 1 - off,
{
    if 0 <= off <= row.len() {
        lemma_find_from(row, "<c "@, off);
        if let Some(cs) = find_from(row, "<c "@, off) {
            lemma_find_from(row, "r=\""@, cs);
            if let Some(m) = find_from(row, "r=\""@, cs) {
                reveal_strlit("r=\"");
                reveal_strlit("<c ");
                lemma_find_from(row, "\""@, m + 3);
                if let Some(re) = find_from(row, "\""@, m + 3) {
                    lemma_insert_offset_from(row, target, re);
                }
            }
        }
    }
}

/// Writing a value into a cell and reading the cell back gives the value, where the cell's
/// reference, style, type and value hold no `<` or `>`, and the worksheet either has the cell's XML
/// or no cell with its reference at all.
pub proof fn law_set_cell_then_read(
    ws: Seq<char>,
    cell_ref: Seq<char>,
    style: Seq<char>,
    cell_type: Option<Seq<char>>,
    value: Seq<char>,
)
    requires
        tag_free(cell_ref),
        tag_free(style),
        cell_type matches Some(t) ==> tag_free(t),
        tag_free(value),
        cell_range(ws, cell_ref) is Some || find_first(ws, cell_marker(cell_ref)) is None,
    ensures
        cell_set(ws, cell_ref, style, cell_type, Some(value)) matches Ok(w) ==> cell_value(w, cell_ref) == Some(value),
{
    let m = cell_marker(cell_ref);
    lemma_cell_range(ws, cell_ref);
    lemma_find_from(ws, m, 0);
    match cell_range(ws, cell_ref) {
        Some((s, e)) => {
            lemma_spliced_cell_reads_back(ws, s, e, cell_ref, style, cell_type, value);
        },
        None => {
            if let Some(n) = ref_row_number(cell_ref) {
                lemma_row_range(ws, n);
                if let Some((rs, re)) = row_range(ws, n) {
                    let row = ws.subrange(rs, re);
                    if ref_column(cell_ref) != 0 {
                        lemma_insert_offset_from(row, ref_column(cell_ref), 0);
                    }
                    let at = match insert_offset(row, cell_ref) {
                        Some(k) => rs + k,
                        None => re - 6,
                    };
                    lemma_spliced_cell_reads_back(ws, at, at, cell_ref, style, cell_type, value);
                }
            }
        },
    }
}


proof fn lemma_take_matches(a: Seq<char>, b: Seq<char>, t: int, p: Seq<char>)
    requires
        0 <= t <= a.len(),
        t <= b.len(),
        a.take(t) == b.take(t),
    ensures
        forall|j: int| 0 <= j && j + p.len() <= t ==> #[trigger] matches_at(a, p, j) == matches_at(b, p, j),
{
    assert forall|j: int| 0 <= j && j + p.len() <= t implies #[trigger] matches_at(a, p, j) == matches_at(b, p, j) by {
        assert(a.subrange(j, j + p.len()) =~= b.subrange(j, j + p.len())) by {
            assert forall|i: int| 0 <= i < p.len() implies #[trigger] a.subrange(j, j + p.len())[i] == b.subrange(j, j + p.len())[i] by {
                assert(a[j + i] == a.take(t)[j + i]);
                assert(b[j + i] == b.take(t)[j + i]);
            }
        }
    }
}

proof fn lemma_skip_matches(a: Seq<char>, b: Seq<char>, x: int, y: int, d: int, p: Seq<char>)
    requires
        0 <= x <= a.len(),
        0 <= y <= b.len(),
        d == y - x,
        a.skip(x) == b.skip(y),
    ensures
        forall|j: int| x <= j ==> #[trigger] matches_at(a, p, j) == matches_at(b, p, j + d),
{
    assert(a.skip(x).len() == a.len() - x);
    assert(b.skip(y).len() == b.len() - y);
    assert forall|j: int| x <= j implies #[trigger] matches_at(a, p, j) == matches_at(b, p, j + d) by {
        if j + p.len() <= a.len() {
            assert(a.subrange(j, j + p.len()) =~= b.subrange(j + d, j + d + p.len())) by {
                assert forall|i: int| 0 <= i < p.len() implies #[trigger] a.subrange(j, j + p.len())[i] == b.subrange(j + d, j + d + p.len())[i] by {
                    assert(a[j + i] == a.skip(x)[j + i - x]);
                    assert(b[j + d + i] == b.skip(y)[j + i - x]);
                }
            }
        }
    }
}

proof fn lemma_cell_end_shift(a: Seq<char>, b: Seq<char>, st: int, d: int)
    requires
        0 <= st,
        0 <= st + d,
        forall|j: int| st <= j ==> #[trigger] matches_at(a, "</c>"@, j) == matches_at(b, "</c>"@, j + d),
        forall|j: int| st <= j ==> #[trigger] matches_at(a, "/>"@, j) == matches_at(b, "/>"@, j + d),
    ensures
        cell_end(b, st + d) == match cell_end(a, st) {
            Some(e) => Some(e + d),
            None => None::<int>,
        },
{
    lemma_find_from_shift(a, b, "</c>"@, st, d);
    lemma_find_from_shift(a, b, "/>"@, st, d);
}

proof fn lemma_cell_end_prefix(a: Seq<char>, b: Seq<char>, st: int, t: int)
    requires
        0 <= st,
        0 <= t <= a.len(),
        t <= b.len(),
        a.take(t) == b.take(t),
        cell_end(a, st) matches Some(e2) && e2 <= t,
    ensures
        cell_end(b, st) == cell_end(a, st),
{
    reveal_strlit("</c>");
    reveal_strlit("/>");
    lemma_take_matches(a, b, t, "</c>"@);
    lemma_take_matches(a, b, t, "/>"@);
    lemma_find_from_agree(a, b, "</c>"@, st, t);
    lemma_find_from_agree(a, b, "/>"@, st, t);
}

/// The shape of a cell's marker `<c r="REF"`.
proof fn lemma_marker_shape(r: Seq<char>)
    requires
        tag_free(r),
    ensures
        ({
            let m = cell_marker(r);
            &&& m.len() == r.len() + 7
            &&& m[0] == '<'
            &&& m[1] == 'c'
            &&& forall|k: int| 1 <= k < m.len() ==> m[k] != '<'
            &&& forall|k: int| 0 <= k < m.len() ==> m[k] != '>'
            &&& forall|i: int| 0 <= i < r.len() ==> m[6 + i] == r[i]
            &&& m[6 + r.len() as int] == '"'
        }),
{
    reveal_strlit("<c r=\"");
    reveal_strlit("\"");
    let m = cell_marker(r);
    assert forall|k: int| 1 <= k < m.len() implies m[k] != '<' by {
        if 6 <= k < 6 + r.len() {
            assert(m[k] == r[k - 6]);
        }
    }
    assert forall|k: int| 0 <= k < m.len() implies m[k] != '>' by {
        if 6 <= k < 6 + r.len() {
            assert(m[k] == r[k - 6]);
        }
    }
}

/// A cell's end lies past its whole marker.
#[verifier::spinoff_prover]
#[verifier::rlimit(40)]
proof fn lemma_cell_end_past_marker(ws: Seq<char>, s2: int, other: Seq<char>)
    requires
        tag_free(other),
        0 <= s2,
        matches_at(ws, cell_marker(other), s2),
    ensures
        cell_end(ws, s2) matches Some(e2) ==> e2 >= s2 + cell_marker(other).len(),
{
    reveal_strlit("</c>");
    reveal_strlit("/>");
    let m = cell_marker(other);
    lemma_marker_shape(other);
    assert forall|i: int| 0 <= i < m.len() implies ws[s2 + i] == m[i] by {
        assert(ws.subrange(s2, s2 + m.len())[i] == ws[s2 + i]);
    }
    assert forall|j: int| s2 <= j < s2 + m.len() implies !matches_at(ws, "</c>"@, j) by {
        if j == s2 {
            assert(ws[j + 1] == m[1]);
            lemma_mismatch(ws, "</c>"@, j, 1);
        } else {
            assert(ws[j] == m[j - s2]);
            lemma_mismatch(ws, "</c>"@, j, 0);
        }
    }
    assert forall|j: int| s2 <= j < s2 + m.len() - 1 implies !matches_at(ws, "/>"@, j) by {
        assert(ws[j + 1] == m[j + 1 - s2]);
        lemma_mismatch(ws, "/>"@, j, 1);
    }
    lemma_find_from(ws, "</c>"@, s2);
    lemma_find_from(ws, "/>"@, s2);
}

/// In `w`, the worksheet with `cell` spliced in at `s`, no marker of another cell starts
/// within or across the new cell.
#[verifier::spinoff_prover]
#[verifier::rlimit(40)]
proof fn lemma_no_marker_near(ws: Seq<char>, s: int, e: int, cell: Seq<char>, cell_ref: Seq<char>, other: Seq<char>)
    requires
        0 <= s <= e <= ws.len(),
        tag_free(cell_ref),
        quote_free(cell_ref),
        tag_free(other),
        quote_free(other),
        other != cell_ref,
        cell_marker(cell_ref).len() <= cell.len(),
        cell.subrange(0, cell_marker(cell_ref).len() as int) == cell_marker(cell_ref),
        cell[cell.len() - 1] == '>',
        no_pair(cell.drop_first(), '<', 'c'),
    ensures
        forall|j: int| s - cell_marker(other).len() < j < s + cell.len()
            ==> !#[trigger] matches_at(splice(ws, s, e, cell), cell_marker(other), j),
{
    let w = splice(ws, s, e, cell);
    let m1 = cell_marker(cell_ref);
    let m2 = cell_marker(other);
    let len = cell.len() as int;
    lemma_marker_shape(cell_ref);
    lemma_marker_shape(other);
    assert forall|i: int| 0 <= i < len implies w[s + i] == cell[i] by {
        assert(w[s + i] == (ws.take(s) + cell)[s + i]);
    }
    assert forall|j: int| s - m2.len() < j < s + len implies !#[trigger] matches_at(w, m2, j) by {
        if matches_at(w, m2, j) {
            assert forall|i: int| 0 <= i < m2.len() implies w[j + i] == m2[i] by {
                assert(w.subrange(j, j + m2.len())[i] == w[j + i]);
            }
            if j < s {
                assert(w[s] == m2[s - j]);
                assert(cell[0] == m1[0]);
            } else if j == s {
                assert forall|i: int| 0 <= i < m1.len() implies w[s + i] == m1[i] by {
                    assert(cell.subrange(0, m1.len() as int)[i] == cell[i]);
                }
                if other.len() == cell_ref.len() {
                    assert(other =~= cell_ref) by {
                        assert forall|i: int| 0 <= i < other.len() implies other[i] == cell_ref[i] by {
                            assert(w[s + 6 + i] == m2[6 + i]);
                            assert(w[s + 6 + i] == m1[6 + i]);
                        }
                    }
                } else if cell_ref.len() < other.len() {
                    let t: int = 6 + cell_ref.len() as int;
                    assert(w[s + t] == m1[t]);
                    assert(w[s + t] == m2[t]);
                    assert(m2[t] == other[cell_ref.len() as int]);
                } else {
                    let t: int = 6 + other.len() as int;
                    assert(w[s + t] == m2[t]);
                    assert(w[s + t] == m1[t]);
                    assert(m1[t] == cell_ref[other.len() as int]);
                }
            } else {
                let k = j - s;
                assert(w[j] == cell[k]);
                if k + 1 < len {
                    assert(w[j + 1] == cell[k + 1]);
                    assert(cell.drop_first()[k - 1] == cell[k]);
                    assert(cell.drop_first()[k] == cell[k + 1]);
                }
            }
        }
    }
}

/// The first cell `other` of `ws` lies wholly before `s`, or starts at or after `e`.
pub open spec fn cell_apart(ws: Seq<char>, other: Seq<char>, s: int, e: int) -> bool {
    match find_first(ws, cell_marker(other)) {
        None => true,
        Some(s2) => s2 >= e || (cell_end(ws, s2) matches Some(e2) && e2 <= s),
    }
}

#[verifier::spinoff_prover]
#[verifier::rlimit(40)]
proof fn lemma_splice_keeps_other_cell(ws: Seq<char>, s: int, e: int, cell: Seq<char>, cell_ref: Seq<char>, other: Seq<char>)
    requires
        0 <= s <= e <= ws.len(),
        tag_free(cell_ref),
        quote_free(cell_ref),
        tag_free(other),
        quote_free(other),
        other != cell_ref,
        cell_marker(cell_ref).len() <= cell.len(),
        cell.subrange(0, cell_marker(cell_ref).len() as int) == cell_marker(cell_ref),
        cell[cell.len() - 1] == '>',
        no_pair(cell.drop_first(), '<', 'c'),
        cell_apart(ws, other, s, e),
    ensures
        cell_value(splice(ws, s, e, cell), other) == cell_value(ws, other),
{
    let w = splice(ws, s, e, cell);
    let m2 = cell_marker(other);
    let len = cell.len() as int;
    let d = s + len - e;
    lemma_marker_shape(other);
    lemma_no_marker_near(ws, s, e, cell, cell_ref, other);
    assert(w.take(s) =~= ws.take(s));
    assert(w.skip(s + len) =~= ws.skip(e));
    lemma_take_matches(ws, w, s, m2);
    lemma_skip_matches(ws, w, e, s + len, d, m2);
    lemma_find_from(ws, m2, 0);
    match find_first(ws, m2) {
        None => {
            assert forall|j: int| 0 <= j implies !matches_at(w, m2, j) by {
                if j + m2.len() <= s {
                    assert(!matches_at(ws, m2, j));
                } else if j < s + len {
                } else {
                    assert(!matches_at(ws, m2, j - d));
                }
            }
            lemma_find_from(w, m2, 0);
        },
        Some(s2) => {
            if s2 >= e {
                assert forall|j: int| 0 <= j < s2 + d implies !matches_at(w, m2, j) by {
                    if j + m2.len() <= s {
                        assert(!matches_at(ws, m2, j));
                    } else if j < s + len {
                    } else {
                        assert(!matches_at(ws, m2, j - d));
                    }
                }
                assert(matches_at(ws, m2, s2));
                lemma_find_from_at(w, m2, 0, s2 + d);
                lemma_skip_matches(ws, w, e, s + len, d, "</c>"@);
                lemma_skip_matches(ws, w, e, s + len, d, "/>"@);
                lemma_cell_end_shift(ws, w, s2, d);
                lemma_cell_end(ws, s2);
                if let Some(e2) = cell_end(ws, s2) {
                    assert(w.subrange(s2 + d, e2 + d) =~= ws.subrange(s2, e2)) by {
                        assert forall|i: int| 0 <= i < e2 - s2 implies #[trigger] w.subrange(s2 + d, e2 + d)[i] == ws.subrange(s2, e2)[i] by {
                            assert(w[s2 + d + i] == w.skip(s + len)[s2 + i - e]);
                            assert(ws[s2 + i] == ws.skip(e)[s2 + i - e]);
                        }
                    }
                }
            } else {
                lemma_cell_end_past_marker(ws, s2, other);
                let e2 = cell_end(ws, s2)->0;
                assert forall|j: int| 0 <= j < s2 implies !matches_at(w, m2, j) by {
                    assert(!matches_at(ws, m2, j));
                }
                assert(matches_at(ws, m2, s2));
                lemma_find_from_at(w, m2, 0, s2);
                lemma_cell_end_prefix(ws, w, s2, s);
                assert(w.subrange(s2, e2) =~= ws.subrange(s2, e2)) by {
                    assert forall|i: int| 0 <= i < e2 - s2 implies #[trigger] w.subrange(s2, e2)[i] == ws.subrange(s2, e2)[i] by {
                        assert(w[s2 + i] == w.take(s)[s2 + i]);
                        assert(ws[s2 + i] == ws.take(s)[s2 + i]);
                    }
                }
            }
        },
    }
}

/// Writing a cell changes only that cell's element: the result is the old text with the span
/// of the cell's old element (or, where the cell had none, the empty span at its place in its
/// row) replaced by the new element; all text before and after it is kept.
pub proof fn law_set_cell_changes_only_its_element(
    ws: Seq<char>,
    cell_ref: Seq<char>,
    style: Seq<char>,
    cell_type: Option<Seq<char>>,
    value: Option<Seq<char>>,
)
    ensures
        cell_set(ws, cell_ref, style, cell_type, value) matches Ok(w) ==> (put_span(ws, cell_ref) matches Ok((s, e))
            && 0 <= s <= e <= ws.len()
            && w == ws.take(s) + cell_xml(cell_ref, style, cell_type, value) + ws.skip(e)
            && (cell_range(ws, cell_ref) matches Some(p) ==> p == (s, e))
            && (cell_range(ws, cell_ref) is None ==> s == e)),
{
    lemma_cell_range(ws, cell_ref);
    if cell_range(ws, cell_ref) is None {
        if let Some(n) = ref_row_number(cell_ref) {
            lemma_row_range(ws, n);
            if let Some((rs, re)) = row_range(ws, n) {
                if ref_column(cell_ref) != 0 {
                    lemma_insert_offset_from(ws.subrange(rs, re), ref_column(cell_ref), 0);
                }
            }
        }
    }
}

/// Writing one cell leaves every other cell reading as before: where the cells' texts hold no
/// `<`, `>` (and the references no `"`), and the other cell's element lies outside the span
/// the written cell takes, the other cell's value is unchanged.
pub proof fn law_set_cell_keeps_other_cells(
    ws: Seq<char>,
    cell_ref: Seq<char>,
    style: Seq<char>,
    cell_type: Option<Seq<char>>,
    value: Option<Seq<char>>,
    other: Seq<char>,
)
    requires
        tag_free(cell_ref),
        quote_free(cell_ref),
        tag_free(style),
        cell_type matches Some(t) ==> tag_free(t),
        value matches Some(v) ==> tag_free(v),
        tag_free(other),
        quote_free(other),
        other != cell_ref,
        put_span(ws, cell_ref) matches Ok((s, e)) ==> cell_apart(ws, other, s, e),
    ensures
        cell_set(ws, cell_ref, style, cell_type, value) matches Ok(w) ==> cell_value(w, other) == cell_value(ws, other),
{
    law_set_cell_changes_only_its_element(ws, cell_ref, style, cell_type, value);
    if let Ok((s, e)) = put_span(ws, cell_ref) {
        lemma_cell_text(cell_ref, style, cell_type, value);
        let cell = cell_xml(cell_ref, style, cell_type, value);
        assert(cell.drop_first().len() == cell.len() - 1);
        lemma_splice_keeps_other_cell(ws, s, e, cell, cell_ref, other);
    }
}

/// The step writes a value or an empty cell into `x`.
pub open spec fn writes_cell(step: Step, x: Seq<char>) -> bool {
    match step {
        Step::Write { cell_ref, .. } => cell_ref == x,
        _ => false,
    }
}

proof fn lemma_clear_steps_at(columns: Seq<FillView>, rows: Seq<u32>, k: int, c: int)
    requires
        0 <= k < rows.len(),
        0 <= c < columns.len(),
    ensures
        clear_steps(columns, rows).len() == rows.len() * columns.len(),
        clear_steps(columns, rows)[k * columns.len() + c] == (Step::Clear {
            cell_ref: column_cell(columns[c], rows[k]),
            style: columns[c].style,
            cell_type: columns[c].cell_type,
        }),
        forall|u: int| 0 <= u < clear_steps(columns, rows).len() ==> !writes_cell(#[trigger] clear_steps(columns, rows)[u], columns[c].column),
    decreases rows.len(),
{
    let n = columns.len() as int;
    let first = clear_row_steps(columns, rows[0]);
    let rest = clear_steps(columns, rows.drop_first());
    assert(clear_steps(columns, rows) == first + rest);
    if rows.len() > 1 {
        let kk = if k > 0 { k - 1 } else { 0 };
        lemma_clear_steps_at(columns, rows.drop_first(), kk, c);
        assert(rows.drop_first()[kk] == rows[kk + 1]);
    } else {
        assert(rows.drop_first().len() == 0);
        assert(rest.len() == 0);
    }
    assert(rows.len() * n == n + (rows.len() - 1) * n) by (nonlinear_arith);
    if k > 0 {
        assert(k * n == n + (k - 1) * n) by (nonlinear_arith);
        assert((k - 1) * n + c < (rows.len() - 1) * n) by (nonlinear_arith)
            requires
                k - 1 < rows.len() - 1,
                0 <= c < n,
                0 <= k - 1;
    }
    assert forall|u: int| 0 <= u < clear_steps(columns, rows).len()
        implies !writes_cell(#[trigger] clear_steps(columns, rows)[u], columns[c].column) by {
        if u < n {
            assert(clear_steps(columns, rows)[u] == first[u]);
        } else {
            assert(clear_steps(columns, rows)[u] == rest[u - n]);
        }
    }
}

proof fn lemma_clear_steps_write_nothing(columns: Seq<FillView>, rows: Seq<u32>, x: Seq<char>)
    ensures
        forall|u: int| 0 <= u < clear_steps(columns, rows).len() ==> !writes_cell(#[trigger] clear_steps(columns, rows)[u], x),
    decreases rows.len(),
{
    if rows.len() > 0 {
        let first = clear_row_steps(columns, rows[0]);
        let rest = clear_steps(columns, rows.drop_first());
        lemma_clear_steps_write_nothing(columns, rows.drop_first(), x);
        assert forall|u: int| 0 <= u < clear_steps(columns, rows).len()
            implies !writes_cell(#[trigger] clear_steps(columns, rows)[u], x) by {
            if u < first.len() {
                assert(clear_steps(columns, rows)[u] == first[u]);
            } else {
                assert(clear_steps(columns, rows)[u] == rest[u - first.len()]);
            }
        }
    }
}

proof fn lemma_column_named_in(columns: Seq<FillView>, field: Seq<char>)
    ensures
        column_named(columns, field) matches Some(c) ==> exists|i: int| 0 <= i < columns.len() && #[trigger] columns[i] == c,
    decreases columns.len(),
{
    if columns.len() > 0 {
        if columns[0].field == field {
            assert(columns[0] == columns[0]);
        } else {
            lemma_column_named_in(columns.drop_first(), field);
            if let Some(c) = column_named(columns.drop_first(), field) {
                let i = choose|i: int| 0 <= i < columns.drop_first().len() && #[trigger] columns.drop_first()[i] == c;
                assert(columns[i + 1] == c);
            }
        }
    }
}

proof fn lemma_table_steps_miss(columns: Seq<FillView>, rows: Seq<TimesheetRow<&str>>, data_rows: Seq<u32>, x: Seq<char>)
    requires
        forall|i: int, ci: int| 0 <= i < rows.len() && i < data_rows.len() && 0 <= ci < columns.len()
            ==> column_cell(#[trigger] columns[ci], #[trigger] data_rows[i]) != x,
    ensures
        forall|u: int| 0 <= u < table_steps(columns, rows, data_rows).len()
            ==> !writes_cell(#[trigger] table_steps(columns, rows, data_rows)[u], x),
    decreases rows.len(),
{
    if rows.len() > 0 && data_rows.len() > 0 {
        let first = row_steps(columns, rows[0], data_rows[0]);
        let rest = table_steps(columns, rows.drop_first(), data_rows.drop_first());
        assert forall|i: int, ci: int| 0 <= i < rows.drop_first().len() && i < data_rows.drop_first().len() && 0 <= ci < columns.len()
            implies column_cell(#[trigger] columns[ci], #[trigger] data_rows.drop_first()[i]) != x by {
            assert(data_rows.drop_first()[i] == data_rows[i + 1]);
        }
        lemma_table_steps_miss(columns, rows.drop_first(), data_rows.drop_first(), x);
        assert forall|u: int| 0 <= u < first.len() implies !writes_cell(#[trigger] first[u], x) by {
            let p = row_plan(rows[0])[u];
            assert(first[u] == field_step(columns, p.0, data_rows[0], p.1, p.2));
            lemma_column_named_in(columns, p.0);
            if let Some(c) = column_named(columns, p.0) {
                let ci = choose|ci: int| 0 <= ci < columns.len() && #[trigger] columns[ci] == c;
                assert(column_cell(columns[ci], data_rows[0]) != x);
            }
        }
        assert forall|u: int| 0 <= u < table_steps(columns, rows, data_rows).len()
            implies !writes_cell(#[trigger] table_steps(columns, rows, data_rows)[u], x) by {
            if u < first.len() {
                assert(table_steps(columns, rows, data_rows)[u] == first[u]);
            } else {
                assert(table_steps(columns, rows, data_rows)[u] == rest[u - first.len()]);
            }
        }
    }
}

/// Cells of different rows have different references, where column letters are letters.
#[verifier::spinoff_prover]
#[verifier::rlimit(40)]
proof fn lemma_column_cell_distinct(a: FillView, b: FillView, ra: u32, rb: u32)
    requires
        ra != rb,
        forall|t: int| 0 <= t < a.column.len() ==> is_ascii_alpha(#[trigger] a.column[t]),
        forall|t: int| 0 <= t < b.column.len() ==> is_ascii_alpha(#[trigger] b.column[t]),
    ensures
        column_cell(a, ra) != column_cell(b, rb),
{
    let da = decimal_text(ra as int);
    let db = decimal_text(rb as int);
    lemma_decimal_digits_are_digits(ra as nat);
    lemma_decimal_digits_are_digits(rb as nat);
    law_parse_decimal_roundtrip(ra as nat, u32::MAX as nat);
    law_parse_decimal_roundtrip(rb as nat, u32::MAX as nat);
    let sa = a.column + da;
    let sb = b.column + db;
    if sa == sb {
        let la = a.column.len() as int;
        let lb = b.column.len() as int;
        if la < lb {
            assert(sa[la] == da[0]);
            assert(sb[la] == b.column[la]);
            assert(is_digit(da[0]));
        } else if lb < la {
            assert(sb[lb] == db[0]);
            assert(sa[lb] == a.column[lb]);
            assert(is_digit(db[0]));
        } else {
            assert(sa.len() == la + da.len());
            assert(sb.len() == lb + db.len());
            assert(da =~= db) by {
                assert forall|i: int| 0 <= i < da.len() implies da[i] == db[i] by {
                    assert(sa[la + i] == da[i]);
                    assert(sb[la + i] == db[i]);
                }
            }
        }
    }
}

/// Filling the worksheet empties every fill cell of each fill row that receives no table row:
/// where the template has fill rows enough for the table, the steps clear that cell (keeping
/// its column's style and type), and no later step writes it. This holds where that row's
/// number is none of the rows the table goes into and column letters are letters; a clear
/// leaves the cell without a value (`law_clear_leaves_no_value`).
#[verifier::spinoff_prover]
#[verifier::rlimit(40)]
pub proof fn law_fill_clears_unused_rows(
    layout: LayoutView,
    repl: Seq<(Seq<char>, usize)>,
    rows: Seq<TimesheetRow<&str>>,
    k: int,
    c: int,
)
    requires
        rows.len() <= k < layout.data_rows.len(),
        0 <= c < layout.columns.len(),
        forall|i: int| 0 <= i < rows.len() ==> layout.data_rows[i] != layout.data_rows[k],
        forall|i: int, t: int| 0 <= i < layout.columns.len() && 0 <= t < layout.columns[i].column.len()
            ==> is_ascii_alpha(#[trigger] layout.columns[i].column[t]),
    ensures
        ({
            let steps = worksheet_steps(layout, repl, rows);
            let x = column_cell(layout.columns[c], layout.data_rows[k]);
            exists|t: int| 0 <= t < steps.len()
                && #[trigger] steps[t] == (Step::Clear {
                    cell_ref: x,
                    style: layout.columns[c].style,
                    cell_type: layout.columns[c].cell_type,
                })
                && forall|u: int| t < u < steps.len() ==> !writes_cell(#[trigger] steps[u], x)
        }),
{
    let columns = layout.columns;
    let data_rows = layout.data_rows;
    let n = columns.len() as int;
    let x = column_cell(columns[c], data_rows[k]);
    let heads = header_steps(layout.header_fields, repl);
    let clears = clear_steps(columns, data_rows);
    let table = table_steps(columns, rows, data_rows);
    let steps = worksheet_steps(layout, repl, rows);
    assert(steps == heads + (clears + table));
    lemma_clear_steps_at(columns, data_rows, k, c);
    lemma_clear_steps_write_nothing(columns, data_rows, x);
    assert forall|i: int, ci: int| 0 <= i < rows.len() && i < data_rows.len() && 0 <= ci < columns.len()
        implies column_cell(#[trigger] columns[ci], #[trigger] data_rows[i]) != x by {
        lemma_column_cell_distinct(columns[ci], columns[c], data_rows[i], data_rows[k]);
    }
    lemma_table_steps_miss(columns, rows, data_rows, x);
    assert(0 <= k * n + c < data_rows.len() * n) by (nonlinear_arith)
        requires
            0 <= k < data_rows.len(),
            0 <= c < n;
    let t = heads.len() + k * n + c;
    assert(steps[t] == clears[k * n + c]);
    assert forall|u: int| t < u < steps.len() implies !writes_cell(#[trigger] steps[u], x) by {
        if u < heads.len() + clears.len() {
            assert(steps[u] == clears[u - heads.len()]);
        } else {
            assert(steps[u] == table[u - heads.len() - clears.len()]);
        }
    }
}

/// The XML of an emptied cell holds `<` only at its start and ends with `/>`.
#[verifier::spinoff_prover]
#[verifier::rlimit(40)]
proof fn lemma_empty_cell_text(cell_ref: Seq<char>, style: Seq<char>, cell_type: Option<Seq<char>>)
    requires
        tag_free(cell_ref),
        tag_free(style),
        cell_type matches Some(t) ==> tag_free(t),
    ensures
        ({
            let cell = cell_xml(cell_ref, style, cell_type, None);
            &&& 2 <= cell.len()
            &&& forall|k: int| 1 <= k < cell.len() ==> cell[k] != '<'
            &&& cell[cell.len() - 2] == '/'
            &&& cell[cell.len() - 1] == '>'
        }),
{
    reveal_strlit("<c r=\"");
    reveal_strlit("c r=\"");
    reveal_strlit("\" s=\"");
    reveal_strlit("\"");
    reveal_strlit(" t=\"");
    reveal_strlit("/>");
    let cell = cell_xml(cell_ref, style, cell_type, None);
    let type_attr = match cell_type {
        Some(t) => " t=\""@ + t + "\""@,
        None => Seq::<char>::empty(),
    };
    let rest = "c r=\""@ + cell_ref + "\" s=\""@ + style + "\""@ + type_attr + "/>"@;
    assert(cell =~= seq!['<'] + rest);
    assert(lt_free("c r=\""@));
    assert(lt_free("\" s=\""@));
    assert(lt_free("\""@));
    assert(lt_free("/>"@));
    lemma_lt_free_add("c r=\""@, cell_ref);
    lemma_lt_free_add("c r=\""@ + cell_ref, "\" s=\""@);
    lemma_lt_free_add("c r=\""@ + cell_ref + "\" s=\""@, style);
    lemma_lt_free_add("c r=\""@ + cell_ref + "\" s=\""@ + style, "\""@);
    assert(lt_free(type_attr)) by {
        if let Some(t) = cell_type {
            assert(lt_free(" t=\""@));
            lemma_lt_free_add(" t=\""@, t);
            lemma_lt_free_add(" t=\""@ + t, "\""@);
        }
    }
    lemma_lt_free_add("c r=\""@ + cell_ref + "\" s=\""@ + style + "\""@, type_attr);
    lemma_lt_free_add("c r=\""@ + cell_ref + "\" s=\""@ + style + "\""@ + type_attr, "/>"@);
    assert forall|k: int| 1 <= k < cell.len() implies cell[k] != '<' by {
        assert(cell[k] == rest[k - 1]);
    }
}

proof fn lemma_empty_cell_end(w: Seq<char>, s: int, cell: Seq<char>)
    requires
        0 <= s,
        2 <= cell.len(),
        s + cell.len() <= w.len(),
        w.subrange(s, s + cell.len()) == cell,
        forall|k: int| 1 <= k < cell.len() ==> cell[k] != '<',
        cell[1] == 'c',
        cell[cell.len() - 2] == '/',
        cell[cell.len() - 1] == '>',
        no_pair(cell.drop_last(), '/', '>'),
    ensures
        cell_end(w, s) == Some(s + cell.len()),
{
    reveal_strlit("/>");
    reveal_strlit("</c>");
    let len = cell.len() as int;
    assert forall|i: int| 0 <= i < len implies w[s + i] == cell[i] by {
        assert(w.subrange(s, s + len)[i] == w[s + i]);
    }
    assert(matches_at(w, "/>"@, s + len - 2)) by {
        assert(w.subrange(s + len - 2, s + len) =~= "/>"@);
    }
    assert forall|j: int| s <= j < s + len - 2 implies !matches_at(w, "/>"@, j) by {
        let k = j - s;
        assert(cell.drop_last()[k] == cell[k]);
        assert(cell.drop_last()[k + 1] == cell[k + 1]);
        if matches_at(w, "/>"@, j) {
            assert(w.subrange(j, j + 2)[0] == w[j]);
            assert(w.subrange(j, j + 2)[1] == w[j + 1]);
        }
    }
    lemma_find_from_at(w, "/>"@, s, s + len - 2);
    assert forall|j: int| s <= j < s + len implies !matches_at(w, "</c>"@, j) by {
        if j == s {
            assert(w[s + 1] == cell[1]);
            lemma_mismatch(w, "</c>"@, j, 1);
        } else {
            assert(w[s + (j - s)] == cell[j - s]);
            lemma_mismatch(w, "</c>"@, j, 0);
        }
    }
    lemma_find_from(w, "</c>"@, s);
}

proof fn lemma_empty_cell_no_value(cell: Seq<char>)
    requires
        2 <= cell.len(),
        forall|k: int| 1 <= k < cell.len() ==> cell[k] != '<',
        cell[1] == 'c',
    ensures
        value_of(cell) is None,
{
    reveal_strlit("<v>");
    assert forall|k: int| 0 <= k implies !matches_at(cell, "<v>"@, k) by {
        if k == 0 {
            lemma_mismatch(cell, "<v>"@, k, 1);
        } else if k < cell.len() {
            lemma_mismatch(cell, "<v>"@, k, 0);
        }
    }
    lemma_find_from(cell, "<v>"@, 0);
}

/// Clearing a cell leaves it without a value: after the clear step, reading the cell gives
/// none, where its reference, style and type hold no `<` or `>`.
#[verifier::spinoff_prover]
#[verifier::rlimit(40)]
pub proof fn law_clear_leaves_no_value(ws: Seq<char>, cell_ref: Seq<char>, style: Seq<char>, cell_type: Option<Seq<char>>)
    requires
        tag_free(cell_ref),
        tag_free(style),
        cell_type matches Some(t) ==> tag_free(t),
    ensures
        run_step(ws, Step::Clear { cell_ref, style, cell_type }) matches Ok(w) ==> cell_value(w, cell_ref) is None,
{
    lemma_cell_range(ws, cell_ref);
    if let Some((s, e)) = cell_range(ws, cell_ref) {
        let cell = cell_xml(cell_ref, style, cell_type, None);
        let m = cell_marker(cell_ref);
        let len = cell.len() as int;
        let w = splice(ws, s, e, cell);
        lemma_cell_text(cell_ref, style, cell_type, None);
        lemma_empty_cell_text(cell_ref, style, cell_type);
        lemma_marker_shape(cell_ref);
        assert(w.subrange(s, s + len) =~= cell);
        assert forall|k: int| 0 <= k < s implies w[k] == ws[k] by {
            assert(w[k] == (ws.take(s) + cell)[k]);
        }
        assert(w.subrange(s, s + m.len()) =~= m) by {
            assert forall|i: int| 0 <= i < m.len() implies w.subrange(s, s + m.len())[i] == m[i] by {
                assert(cell.subrange(0, m.len() as int)[i] == cell[i]);
            }
        }
        lemma_find_from(ws, m, 0);
        lemma_marker_first(ws, w, s, m);
        lemma_empty_cell_end(w, s, cell);
        lemma_empty_cell_no_value(cell);
    }
}

/// The texts a step writes hold no `<` or `>`, and the cell reference no `"`.
pub open spec fn step_text_plain(step: Step) -> bool {
    match step {
        Step::Write { cell_ref, style, cell_type, value } => tag_free(cell_ref) && quote_free(cell_ref) && tag_free(style)
            && (cell_type matches Some(t) ==> tag_free(t)) && (value matches Some(v) ==> tag_free(v)),
        Step::Clear { cell_ref, style, cell_type } => tag_free(cell_ref) && quote_free(cell_ref) && tag_free(style)
            && (cell_type matches Some(t) ==> tag_free(t)),
        Step::Fail(_) => true,
    }
}

/// The step, run on `ws`, targets `x` itself or leaves the first cell `x` wholly outside the
/// span it replaces.
pub open spec fn step_keeps_apart(ws: Seq<char>, step: Step, x: Seq<char>) -> bool {
    match step {
        Step::Write { cell_ref, .. } => cell_ref == x
            || (put_span(ws, cell_ref) matches Ok((s, e)) ==> cell_apart(ws, x, s, e)),
        Step::Clear { cell_ref, .. } => cell_ref == x
            || (put_span(ws, cell_ref) matches Ok((s, e)) ==> cell_apart(ws, x, s, e)),
        Step::Fail(_) => true,
    }
}

proof fn lemma_run_steps_take(ws: Seq<char>, w1: Seq<char>, steps: Seq<Step>, u: int)
    requires
        1 <= u <= steps.len(),
        run_step(ws, steps[0]) == Ok::<Seq<char>, Failure>(w1),
    ensures
        run_steps(ws, steps.take(u)) == run_steps(w1, steps.drop_first().take(u - 1)),
{
    assert(steps.take(u)[0] == steps[0]);
    assert(steps.take(u).drop_first() =~= steps.drop_first().take(u - 1));
}

proof fn lemma_run_keeps_no_value(w: Seq<char>, steps: Seq<Step>, x: Seq<char>)
    requires
        cell_value(w, x) is None,
        tag_free(x),
        quote_free(x),
        forall|u: int| 0 <= u < steps.len() ==> !writes_cell(#[trigger] steps[u], x),
        forall|u: int| 0 <= u < steps.len() ==> step_text_plain(#[trigger] steps[u]),
        forall|u: int| 0 <= u < steps.len() ==> (#[trigger] run_steps(w, steps.take(u)) matches Ok(wu)
            ==> step_keeps_apart(wu, steps[u], x)),
    ensures
        run_steps(w, steps) matches Ok(r) ==> cell_value(r, x) is None,
    decreases steps.len(),
{
    if steps.len() > 0 {
        assert(!writes_cell(steps[0], x));
        assert(step_text_plain(steps[0]));
        assert(steps.take(0) =~= Seq::<Step>::empty());
        assert(run_steps(w, steps.take(0)) == Ok::<Seq<char>, Failure>(w));
        match run_step(w, steps[0]) {
            Ok(w1) => {
                match steps[0] {
                    Step::Write { cell_ref, style, cell_type, value } => {
                        law_set_cell_keeps_other_cells(w, cell_ref, style, cell_type, value, x);
                    },
                    Step::Clear { cell_ref, style, cell_type } => {
                        if cell_ref == x {
                            law_clear_leaves_no_value(w, cell_ref, style, cell_type);
                        } else if cell_range(w, cell_ref) is Some {
                            law_set_cell_keeps_other_cells(w, cell_ref, style, cell_type, None, x);
                        }
                    },
                    Step::Fail(_) => {},
                }
                let rest = steps.drop_first();
                assert forall|u: int| 0 <= u < rest.len() implies !writes_cell(#[trigger] rest[u], x) by {
                    assert(rest[u] == steps[u + 1]);
                }
                assert forall|u: int| 0 <= u < rest.len() implies step_text_plain(#[trigger] rest[u]) by {
                    assert(rest[u] == steps[u + 1]);
                }
                assert forall|u: int| 0 <= u < rest.len() implies (#[trigger] run_steps(w1, rest.take(u)) matches Ok(wu)
                    ==> step_keeps_apart(wu, rest[u], x)) by {
                    assert(rest[u] == steps[u + 1]);
                    lemma_run_steps_take(w, w1, steps, u + 1);
                    assert(run_steps(w, steps.take(u + 1)) matches Ok(wv) ==> step_keeps_apart(wv, steps[u + 1], x));
                }
                lemma_run_keeps_no_value(w1, rest, x);
            },
            Err(_) => {},
        }
    }
}

/// A cleared cell stays empty: where step `t` clears `x` and no later step writes it, the
/// worksheet after all the steps holds no value in `x`. This holds where the steps' texts hold
/// no `<` or `>` (references no `"`), and each later step, on the worksheet it runs on, leaves
/// the first cell `x` outside the span it replaces.
pub proof fn law_cleared_cell_stays_empty(ws: Seq<char>, steps: Seq<Step>, t: int, x: Seq<char>)
    requires
        0 <= t < steps.len(),
        steps[t] matches Step::Clear { cell_ref, .. } && cell_ref == x,
        forall|u: int| t < u < steps.len() ==> !writes_cell(#[trigger] steps[u], x),
        forall|u: int| 0 <= u < steps.len() ==> step_text_plain(#[trigger] steps[u]),
        forall|u: int| t < u < steps.len() ==> (#[trigger] run_steps(ws, steps.take(u)) matches Ok(wu)
            ==> step_keeps_apart(wu, steps[u], x)),
    ensures
        run_steps(ws, steps) matches Ok(r) ==> cell_value(r, x) is None,
    decreases t,
{
    assert(step_text_plain(steps[0]));
    match run_step(ws, steps[0]) {
        Ok(w1) => {
            let rest = steps.drop_first();
            assert forall|u: int| 0 <= u < rest.len() implies step_text_plain(#[trigger] rest[u]) by {
                assert(rest[u] == steps[u + 1]);
            }
            if t == 0 {
                if let Step::Clear { cell_ref, style, cell_type } = steps[0] {
                    law_clear_leaves_no_value(ws, cell_ref, style, cell_type);
                }
                assert forall|u: int| 0 <= u < rest.len() implies !writes_cell(#[trigger] rest[u], x) by {
                    assert(rest[u] == steps[u + 1]);
                }
                assert forall|u: int| 0 <= u < rest.len() implies (#[trigger] run_steps(w1, rest.take(u)) matches Ok(wu)
                    ==> step_keeps_apart(wu, rest[u], x)) by {
                    assert(rest[u] == steps[u + 1]);
                    lemma_run_steps_take(ws, w1, steps, u + 1);
                    assert(run_steps(ws, steps.take(u + 1)) matches Ok(wv) ==> step_keeps_apart(wv, steps[u + 1], x));
                }
                lemma_run_keeps_no_value(w1, rest, x);
            } else {
                assert(rest[t - 1] == steps[t]);
                assert forall|u: int| t - 1 < u < rest.len() implies !writes_cell(#[trigger] rest[u], x) by {
                    assert(rest[u] == steps[u + 1]);
                }
                assert forall|u: int| t - 1 < u < rest.len() implies (#[trigger] run_steps(w1, rest.take(u)) matches Ok(wu)
                    ==> step_keeps_apart(wu, rest[u], x)) by {
                    assert(rest[u] == steps[u + 1]);
                    lemma_run_steps_take(ws, w1, steps, u + 1);
                    assert(run_steps(ws, steps.take(u + 1)) matches Ok(wv) ==> step_keeps_apart(wv, steps[u + 1], x));
                }
                law_cleared_cell_stays_empty(w1, rest, t - 1, x);
            }
        },
        Err(_) => {},
    }
}

/// After filling the worksheet, each fill cell of a fill row that received no table row holds
/// no value (the result of `replace_worksheet_data` is this run of steps). This holds where
/// that row's number is none of the rows the table goes into, column letters are letters, the
/// steps' texts hold no `<` or `>` (references no `"`), and each step, on the worksheet it runs
/// on, leaves the first such cell outside the span it replaces.
pub proof fn law_fill_empties_unused_rows(
    ws: Seq<char>,
    layout: LayoutView,
    repl: Seq<(Seq<char>, usize)>,
    rows: Seq<TimesheetRow<&str>>,
    k: int,
    c: int,
)
    requires
        rows.len() <= k < layout.data_rows.len(),
        0 <= c < layout.columns.len(),
        forall|i: int| 0 <= i < rows.len() ==> layout.data_rows[i] != layout.data_rows[k],
        forall|i: int, t: int| 0 <= i < layout.columns.len() && 0 <= t < layout.columns[i].column.len()
            ==> is_ascii_alpha(#[trigger] layout.columns[i].column[t]),
        forall|u: int| 0 <= u < worksheet_steps(layout, repl, rows).len()
            ==> step_text_plain(#[trigger] worksheet_steps(layout, repl, rows)[u]),
        forall|u: int| 0 <= u < worksheet_steps(layout, repl, rows).len()
            ==> (#[trigger] run_steps(ws, worksheet_steps(layout, repl, rows).take(u)) matches Ok(wu)
            ==> step_keeps_apart(wu, worksheet_steps(layout, repl, rows)[u], column_cell(layout.columns[c], layout.data_rows[k]))),
    ensures
        run_steps(ws, worksheet_steps(layout, repl, rows)) matches Ok(r)
            ==> cell_value(r, column_cell(layout.columns[c], layout.data_rows[k])) is None,
{
    let steps = worksheet_steps(layout, repl, rows);
    let x = column_cell(layout.columns[c], layout.data_rows[k]);
    law_fill_clears_unused_rows(layout, repl, rows, k, c);
    let t = choose|t: int| 0 <= t < steps.len()
        && #[trigger] steps[t] == (Step::Clear {
            cell_ref: x,
            style: layout.columns[c].style,
            cell_type: layout.columns[c].cell_type,
        })
        && forall|u: int| t < u < steps.len() ==> !writes_cell(#[trigger] steps[u], x);
    law_cleared_cell_stays_empty(ws, steps, t, x);
}

} // verus!
