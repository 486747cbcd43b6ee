//! Finding where a template wants its values: header fields, table columns and fill rows.
use vstd::prelude::*;
use vstd::relations::{sorted_by, total_ordering};
use vstd::seq_lib::{group_to_multiset_ensures, lemma_multiset_commutative, lemma_sorted_unique};
use vstd::multiset::group_multiset_axioms;
use crate::decimal::{decimal_text, u64_text};
use crate::text::{append_chars, chars_eq, chars_of, slice_chars, string_of, texts_of};
use super::cells::{CellInfo, CellView, cell_views, opt_chars, parse_cells, parse_row_numbers, row_numbers_from, worksheet_cells};
use super::error::{ExcelError, Failure};
use super::refs::{cell_col_index, column_letters, column_name, normalize_label, normalized_label, ref_column};

verus! {

/// Where one timesheet column is filled: its letters, and the style and type of its first
/// data cell.
pub struct FillColumn {
    pub field: Vec<char>,
    pub column: Vec<char>,
    pub style: Vec<char>,
    pub cell_type: Option<Vec<char>>,
}

/// The text of a [`FillColumn`].
pub struct FillView {
    pub field: Seq<char>,
    pub column: Seq<char>,
    pub style: Seq<char>,
    pub cell_type: Option<Seq<char>>,
}

impl View for FillColumn {
    type V = FillView;

    open spec fn view(&self) -> FillView {
        FillView { field: self.field@, column: self.column@, style: self.style@, cell_type: opt_chars(self.cell_type) }
    }
}

/// The cell that receives one header value.
pub struct HeaderFieldTarget {
    pub field: Vec<char>,
    pub cell_ref: Vec<char>,
    pub style: Vec<char>,
}

/// The text of a [`HeaderFieldTarget`].
pub struct HeaderView {
    pub field: Seq<char>,
    pub cell_ref: Seq<char>,
    pub style: Seq<char>,
}

impl View for HeaderFieldTarget {
    type V = HeaderView;

    open spec fn view(&self) -> HeaderView {
        HeaderView { field: self.field@, cell_ref: self.cell_ref@, style: self.style@ }
    }
}

/// Where a template takes its header values, its table columns, and its fill rows.
pub struct TemplateLayout {
    pub header_fields: Vec<HeaderFieldTarget>,
    pub columns: Vec<FillColumn>,
    pub data_rows: Vec<u32>,
}

/// The text of a [`TemplateLayout`].
pub struct LayoutView {
    pub header_fields: Seq<HeaderView>,
    pub columns: Seq<FillView>,
    pub data_rows: Seq<u32>,
}

impl View for TemplateLayout {
    type V = LayoutView;

    open spec fn view(&self) -> LayoutView {
        LayoutView {
            header_fields: self.header_fields@.map_values(|h: HeaderFieldTarget| h@),
            columns: self.columns@.map_values(|c: FillColumn| c@),
            data_rows: self.data_rows@,
        }
    }
}

/// The first index from `i` on whose cell satisfies `pred`.
pub open spec fn first_index(cells: Seq<CellView>, pred: spec_fn(CellView) -> bool, i: int) -> Option<int>
    decreases cells.len() - i,
{
    if i < 0 || i >= cells.len() {
        None
    } else if pred(cells[i]) {
        Some(i)
    } else {
        first_index(cells, pred, i + 1)
    }
}

proof fn lemma_first_index(cells: Seq<CellView>, pred: spec_fn(CellView) -> bool, i: int)
    requires
        0 <= i,
    ensures
        match first_index(cells, pred, i) {
            Some(k) => i <= k < cells.len() && pred(cells[k]) && forall|j: int| i <= j < k ==> !pred(#[trigger] cells[j]),
            None => forall|j: int| i <= j < cells.len() ==> !pred(#[trigger] cells[j]),
        },
    decreases cells.len() - i,
{
    if i < cells.len() && !pred(cells[i]) {
        lemma_first_index(cells, pred, i + 1);
    }
}

/// A cell whose normalized text is one of `aliases`.
pub open spec fn labelled(aliases: Seq<Seq<char>>) -> spec_fn(CellView) -> bool {
    |c: CellView| aliases.contains(normalized_label(c.value))
}

/// A cell in `column` below row `row`.
pub open spec fn below_in(column: Seq<char>, row: u32) -> spec_fn(CellView) -> bool {
    |c: CellView| c.row > row && c.column == column
}

/// A cell whose normalized text is `label`.
pub open spec fn reads(label: Seq<char>) -> spec_fn(CellView) -> bool {
    |c: CellView| normalized_label(c.value) == label
}

/// The timesheet columns with the header texts that name them.
pub open spec fn column_headers() -> Seq<(Seq<char>, Seq<Seq<char>>)> {
    seq![
        ("date"@, seq!["date"@]),
        ("typeofday"@, seq!["typeofdayworkdayweekendetc"@, "typeofday"@]),
        ("performedprojecttasks"@, seq!["performedprojecttasks"@]),
        ("taskstatus"@, seq!["taskstatus"@]),
        ("totalhours"@, seq!["totalhours"@]),
        ("employeecomment"@, seq!["employeecomment"@]),
    ]
}

/// The header fields with the label texts that name them.
pub open spec fn header_labels() -> Seq<(Seq<char>, Seq<Seq<char>>)> {
    seq![
        ("month"@, seq!["month"@]),
        ("employeename"@, seq!["employeename"@]),
        ("projectname"@, seq!["projectname"@]),
        ("weeklyperiod"@, seq!["weeklyperiod"@]),
    ]
}

/// The fill column for `field`: the first cell labelled by one of `aliases` is the header and
/// gives the column letters; the first cell of that column below the header's row gives style
/// and type, falling back to the header's own.
pub open spec fn fill_column(cells: Seq<CellView>, field: Seq<char>, aliases: Seq<Seq<char>>) -> Option<FillView> {
    match first_index(cells, labelled(aliases), 0) {
        None => None,
        Some(h) => {
            let header = cells[h];
            match first_index(cells, below_in(header.column, header.row), 0) {
                Some(d) => Some(FillView { field, column: header.column, style: cells[d].style, cell_type: cells[d].cell_type }),
                None => Some(FillView { field, column: header.column, style: header.style, cell_type: header.cell_type }),
            }
        },
    }
}

/// The fill columns of all `fields`, or the first field without a header.
pub open spec fn fill_columns(cells: Seq<CellView>, fields: Seq<(Seq<char>, Seq<Seq<char>>)>) -> Result<Seq<FillView>, Failure>
    decreases fields.len(),
{
    if fields.len() == 0 {
        Ok(Seq::empty())
    } else {
        match fill_column(cells, fields[0].0, fields[0].1) {
            None => Err(Failure::MissingColumnHeader(fields[0].0)),
            Some(c) => match fill_columns(cells, fields.drop_first()) {
                Ok(rest) => Ok(seq![c] + rest),
                Err(e) => Err(e),
            },
        }
    }
}

/// A cell in row `row` to the right of column `col`.
pub open spec fn right_of(c: CellView, row: u32, col: nat) -> bool {
    c.row == row && ref_column(c.cell_ref) > col
}

/// Cell `t` is the leftmost cell right of `col` in `row`, the first such where several tie.
pub open spec fn first_min_right(cells: Seq<CellView>, row: u32, col: nat, t: int) -> bool {
    &&& 0 <= t < cells.len()
    &&& right_of(cells[t], row, col)
    &&& forall|j: int| 0 <= j < cells.len() && #[trigger] right_of(cells[j], row, col) ==> ref_column(cells[t].cell_ref)
        < ref_column(cells[j].cell_ref) || (ref_column(cells[t].cell_ref) == ref_column(cells[j].cell_ref) && t <= j)
}

/// The leftmost cell right of `col` in `row`, where there is one.
pub open spec fn min_right(cells: Seq<CellView>, row: u32, col: nat) -> Option<int> {
    if exists|t: int| first_min_right(cells, row, col, t) {
        Some(choose|t: int| first_min_right(cells, row, col, t))
    } else {
        None
    }
}

proof fn lemma_first_min_right_unique(cells: Seq<CellView>, row: u32, col: nat, a: int, b: int)
    requires
        first_min_right(cells, row, col, a),
        first_min_right(cells, row, col, b),
    ensures
        a == b,
{
    assert(right_of(cells[a], row, col));
    assert(right_of(cells[b], row, col));
}

/// `x + 1` in `u32`, wrapping as release builds do.
pub open spec fn wrapping_succ32(x: nat) -> nat {
    if x >= u32::MAX { 0 } else { x + 1 }
}

/// The header target for `field`: the first cell labelled by one of `aliases`, and the
/// leftmost cell to its right in its row, or else the cell just right of the label.
pub open spec fn header_target(cells: Seq<CellView>, field: Seq<char>, aliases: Seq<Seq<char>>) -> Option<HeaderView> {
    match first_index(cells, labelled(aliases), 0) {
        None => None,
        Some(l) => {
            let label = cells[l];
            let lc = ref_column(label.cell_ref);
            match min_right(cells, label.row, lc) {
                Some(t) => Some(HeaderView { field, cell_ref: cells[t].cell_ref, style: cells[t].style }),
                None => Some(HeaderView {
                    field,
                    cell_ref: column_letters(wrapping_succ32(lc)) + decimal_text(label.row as int),
                    style: label.style,
                }),
            }
        },
    }
}

/// The header targets of all `fields`, or the first field without a label.
pub open spec fn header_targets(cells: Seq<CellView>, fields: Seq<(Seq<char>, Seq<Seq<char>>)>) -> Result<Seq<HeaderView>, Failure>
    decreases fields.len(),
{
    if fields.len() == 0 {
        Ok(Seq::empty())
    } else {
        match header_target(cells, fields[0].0, fields[0].1) {
            None => Err(Failure::MissingHeaderLabel(fields[0].0)),
            Some(h) => match header_targets(cells, fields.drop_first()) {
                Ok(rest) => Ok(seq![h] + rest),
                Err(e) => Err(e),
            },
        }
    }
}

/// Rows in ascending order of their numbers.
pub open spec fn row_order() -> spec_fn(u32, u32) -> bool {
    |a: u32, b: u32| a <= b
}

/// Row numbers greater than `row`.
pub open spec fn above(row: u32) -> spec_fn(u32) -> bool {
    |r: u32| r > row
}

/// The worksheet's row numbers below `header_row`, in ascending order; none is an error.
pub open spec fn data_rows(ws: Seq<char>, header_row: u32) -> Result<Seq<u32>, Failure> {
    let rows = row_numbers_from(ws, 0).filter(above(header_row)).sort_by(row_order());
    if rows.len() == 0 {
        Err(Failure::NoDataRows)
    } else {
        Ok(rows)
    }
}

/// The layout of a template (`TemplateLayout::discover`): its fill columns, the rows below the
/// table header (the first cell reading "date"), and its header targets, failing in that order.
pub open spec fn discover_layout(ws: Seq<char>, strings: Seq<Seq<char>>) -> Result<LayoutView, Failure> {
    let cells = worksheet_cells(ws, strings);
    match fill_columns(cells, column_headers()) {
        Err(e) => Err(e),
        Ok(columns) => match first_index(cells, reads("date"@), 0) {
            None => Err(Failure::MissingHeaderRow),
            Some(h) => match data_rows(ws, cells[h].row) {
                Err(e) => Err(e),
                Ok(rows) => match header_targets(cells, header_labels()) {
                    Err(e) => Err(e),
                    Ok(targets) => Ok(LayoutView { header_fields: targets, columns, data_rows: rows }),
                },
            },
        },
    }
}

proof fn lemma_first_index_found(cells: Seq<CellView>, pred: spec_fn(CellView) -> bool, k: int)
    requires
        0 <= k < cells.len(),
        pred(cells[k]),
        forall|j: int| 0 <= j < k ==> !pred(#[trigger] cells[j]),
    ensures
        first_index(cells, pred, 0) == Some(k),
{
    lemma_first_index(cells, pred, 0);
    match first_index(cells, pred, 0) {
        Some(m) => {
            if m < k {
                assert(!pred(cells[m]));
            } else if m > k {
                assert(!pred(cells[k]));
            }
        },
        None => {
            assert(!pred(cells[k]));
        },
    }
}

proof fn lemma_first_index_absent(cells: Seq<CellView>, pred: spec_fn(CellView) -> bool)
    requires
        forall|j: int| 0 <= j < cells.len() ==> !pred(#[trigger] cells[j]),
    ensures
        first_index(cells, pred, 0) is None,
{
    lemma_first_index(cells, pred, 0);
}

/// The texts of a list of aliases.
pub open spec fn alias_views(aliases: Seq<Vec<char>>) -> Seq<Seq<char>> {
    aliases.map_values(|a: Vec<char>| a@)
}

fn is_alias(label: &Vec<char>, aliases: &Vec<Vec<char>>) -> (r: bool)
    ensures
        r == alias_views(aliases@).contains(label@),
{
    let mut i: usize = 0;
    while i < aliases.len()
        invariant
            i <= aliases@.len(),
            forall|j: int| 0 <= j < i ==> (#[trigger] aliases@[j])@ != label@,
        decreases aliases.len() - i,
    {
        if chars_eq(&aliases[i], label) {
            assert(alias_views(aliases@)[i as int] == label@);
            return true;
        }
        i += 1;
    }
    proof {
        if alias_views(aliases@).contains(label@) {
            let j = choose|j: int| 0 <= j < alias_views(aliases@).len() && alias_views(aliases@)[j] == label@;
            assert(aliases@[j]@ == label@);
        }
    }
    false
}

/// The index as a mathematical integer.
pub open spec fn index_of(r: Option<usize>) -> Option<int> {
    match r {
        Some(k) => Some(k as int),
        None => None,
    }
}

fn find_labelled(cells: &Vec<CellInfo>, aliases: &Vec<Vec<char>>) -> (r: Option<usize>)
    ensures
        index_of(r) == first_index(cell_views(cells@), labelled(alias_views(aliases@)), 0),
        r matches Some(k) ==> k < cells@.len(),
{
    let ghost views = cell_views(cells@);
    let ghost pred = labelled(alias_views(aliases@));
    let mut i: usize = 0;
    while i < cells.len()
        invariant
            i <= cells@.len(),
            views == cell_views(cells@),
            pred == labelled(alias_views(aliases@)),
            forall|j: int| 0 <= j < i ==> !pred(#[trigger] views[j]),
        decreases cells.len() - i,
    {
        let label = normalize_label(&cells[i].value);
        if is_alias(&label, aliases) {
            proof { lemma_first_index_found(views, pred, i as int); }
            return Some(i);
        }
        assert(!pred(views[i as int]));
        i += 1;
    }
    proof { lemma_first_index_absent(views, pred); }
    None
}

fn find_below(cells: &Vec<CellInfo>, column: &Vec<char>, row: u32) -> (r: Option<usize>)
    ensures
        index_of(r) == first_index(cell_views(cells@), below_in(column@, row), 0),
        r matches Some(k) ==> k < cells@.len(),
{
    let ghost views = cell_views(cells@);
    let ghost pred = below_in(column@, row);
    let mut i: usize = 0;
    while i < cells.len()
        invariant
            i <= cells@.len(),
            views == cell_views(cells@),
            pred == below_in(column@, row),
            forall|j: int| 0 <= j < i ==> !pred(#[trigger] views[j]),
        decreases cells.len() - i,
    {
        if cells[i].row > row && chars_eq(&cells[i].column, column) {
            proof { lemma_first_index_found(views, pred, i as int); }
            return Some(i);
        }
        assert(!pred(views[i as int]));
        i += 1;
    }
    proof { lemma_first_index_absent(views, pred); }
    None
}

fn find_reading(cells: &Vec<CellInfo>, label: &Vec<char>) -> (r: Option<usize>)
    ensures
        index_of(r) == first_index(cell_views(cells@), reads(label@), 0),
        r matches Some(k) ==> k < cells@.len(),
{
    let ghost views = cell_views(cells@);
    let ghost pred = reads(label@);
    let mut i: usize = 0;
    while i < cells.len()
        invariant
            i <= cells@.len(),
            views == cell_views(cells@),
            pred == reads(label@),
            forall|j: int| 0 <= j < i ==> !pred(#[trigger] views[j]),
        decreases cells.len() - i,
    {
        if chars_eq(&normalize_label(&cells[i].value), label) {
            proof { lemma_first_index_found(views, pred, i as int); }
            return Some(i);
        }
        assert(!pred(views[i as int]));
        i += 1;
    }
    proof { lemma_first_index_absent(views, pred); }
    None
}

fn copy_chars(v: &Vec<char>) -> (r: Vec<char>)
    ensures
        r@ == v@,
{
    let r = slice_chars(v, 0, v.len());
    assert(r@ =~= v@);
    r
}

fn copy_opt_chars(o: &Option<Vec<char>>) -> (r: Option<Vec<char>>)
    ensures
        opt_chars(r) == opt_chars(*o),
{
    match o {
        Some(v) => Some(copy_chars(v)),
        None => None,
    }
}

fn discover_fill_column(cells: &Vec<CellInfo>, field: &Vec<char>, aliases: &Vec<Vec<char>>) -> (r: Option<FillColumn>)
    ensures
        match r {
            Some(c) => fill_column(cell_views(cells@), field@, alias_views(aliases@)) == Some(c@),
            None => fill_column(cell_views(cells@), field@, alias_views(aliases@)) is None,
        },
{
    let h = match find_labelled(cells, aliases) {
        Some(h) => h,
        None => return None,
    };
    let header = &cells[h];
    match find_below(cells, &header.column, header.row) {
        Some(d) => Some(FillColumn {
            field: copy_chars(field),
            column: copy_chars(&header.column),
            style: copy_chars(&cells[d].style),
            cell_type: copy_opt_chars(&cells[d].cell_type),
        }),
        None => Some(FillColumn {
            field: copy_chars(field),
            column: copy_chars(&header.column),
            style: copy_chars(&header.style),
            cell_type: copy_opt_chars(&header.cell_type),
        }),
    }
}

fn find_min_right(cells: &Vec<CellInfo>, row: u32, col: u32) -> (r: Option<usize>)
    ensures
        index_of(r) == min_right(cell_views(cells@), row, col as nat),
        r matches Some(k) ==> k < cells@.len(),
{
    let ghost views = cell_views(cells@);
    let ghost c0 = col as nat;
    let mut best: Option<usize> = None;
    let mut best_col: u32 = 0;
    let mut i: usize = 0;
    while i < cells.len()
        invariant
            i <= cells@.len(),
            views == cell_views(cells@),
            c0 == col as nat,
            match best {
                Some(t) => t < i && right_of(views[t as int], row, c0) && best_col as nat == ref_column(views[t as int].cell_ref)
                    && forall|j: int| 0 <= j < i && #[trigger] right_of(views[j], row, c0) ==> best_col < ref_column(views[j].cell_ref)
                        || (best_col == ref_column(views[j].cell_ref) && t <= j),
                None => forall|j: int| 0 <= j < i ==> !#[trigger] right_of(views[j], row, c0),
            },
        decreases cells.len() - i,
    {
        if cells[i].row == row {
            let c = cell_col_index(&cells[i].cell_ref);
            if c > col {
                match best {
                    Some(_) => {
                        if c < best_col {
                            best = Some(i);
                            best_col = c;
                        }
                    },
                    None => {
                        best = Some(i);
                        best_col = c;
                    },
                }
            }
        }
        i += 1;
    }
    proof {
        match best {
            Some(t) => {
                assert(first_min_right(views, row, c0, t as int));
                let u = choose|u: int| first_min_right(views, row, c0, u);
                lemma_first_min_right_unique(views, row, c0, t as int, u);
            },
            None => {
                assert forall|t: int| !first_min_right(views, row, c0, t) by {
                    if 0 <= t < views.len() {
                        assert(!right_of(views[t], row, c0));
                    }
                }
            },
        }
    }
    best
}

fn discover_header_target(cells: &Vec<CellInfo>, field: &Vec<char>, aliases: &Vec<Vec<char>>) -> (r: Option<HeaderFieldTarget>)
    ensures
        match r {
            Some(h) => header_target(cell_views(cells@), field@, alias_views(aliases@)) == Some(h@),
            None => header_target(cell_views(cells@), field@, alias_views(aliases@)) is None,
        },
{
    let l = match find_labelled(cells, aliases) {
        Some(l) => l,
        None => return None,
    };
    let label = &cells[l];
    let lc = cell_col_index(&label.cell_ref);
    match find_min_right(cells, label.row, lc) {
        Some(t) => Some(HeaderFieldTarget {
            field: copy_chars(field),
            cell_ref: copy_chars(&cells[t].cell_ref),
            style: copy_chars(&cells[t].style),
        }),
        None => {
            let next: u32 = if lc == u32::MAX { 0 } else { lc + 1 };
            let mut cell_ref = column_name(next);
            append_chars(&mut cell_ref, &u64_text(label.row as u64));
            Some(HeaderFieldTarget { field: copy_chars(field), cell_ref, style: copy_chars(&label.style) })
        },
    }
}

/// The texts of a table of fields and their aliases.
pub open spec fn table_view(t: Seq<(Vec<char>, Vec<Vec<char>>)>) -> Seq<(Seq<char>, Seq<Seq<char>>)> {
    t.map_values(|p: (Vec<char>, Vec<Vec<char>>)| (p.0@, alias_views(p.1@)))
}

fn one_alias(a: &str) -> (r: Vec<Vec<char>>)
    ensures
        alias_views(r@) == seq![a@],
{
    let mut r: Vec<Vec<char>> = Vec::new();
    r.push(chars_of(a));
    assert(alias_views(r@) =~= seq![a@]);
    r
}

fn column_header_table() -> (r: Vec<(Vec<char>, Vec<Vec<char>>)>)
    ensures
        table_view(r@) == column_headers(),
{
    let mut day_aliases: Vec<Vec<char>> = Vec::new();
    let long_label = chars_of("typeofdayworkdayweekendetc");
    let short_label = chars_of("typeofday");
    day_aliases.push(long_label);
    day_aliases.push(short_label);
    assert(alias_views(day_aliases@) =~= seq!["typeofdayworkdayweekendetc"@, "typeofday"@]);
    let mut r: Vec<(Vec<char>, Vec<Vec<char>>)> = Vec::new();
    r.push((chars_of("date"), one_alias("date")));
    r.push((chars_of("typeofday"), day_aliases));
    r.push((chars_of("performedprojecttasks"), one_alias("performedprojecttasks")));
    r.push((chars_of("taskstatus"), one_alias("taskstatus")));
    r.push((chars_of("totalhours"), one_alias("totalhours")));
    r.push((chars_of("employeecomment"), one_alias("employeecomment")));
    assert(table_view(r@) =~= column_headers());
    r
}

fn header_label_table() -> (r: Vec<(Vec<char>, Vec<Vec<char>>)>)
    ensures
        table_view(r@) == header_labels(),
{
    let mut r: Vec<(Vec<char>, Vec<Vec<char>>)> = Vec::new();
    r.push((chars_of("month"), one_alias("month")));
    r.push((chars_of("employeename"), one_alias("employeename")));
    r.push((chars_of("projectname"), one_alias("projectname")));
    r.push((chars_of("weeklyperiod"), one_alias("weeklyperiod")));
    assert(table_view(r@) =~= header_labels());
    r
}

/// The views of a list of fill columns.
pub open spec fn fill_views(cs: Seq<FillColumn>) -> Seq<FillView> {
    cs.map_values(|c: FillColumn| c@)
}

/// The views of a list of header targets.
pub open spec fn header_views(hs: Seq<HeaderFieldTarget>) -> Seq<HeaderView> {
    hs.map_values(|h: HeaderFieldTarget| h@)
}

fn discover_fill_columns(cells: &Vec<CellInfo>) -> (r: Result<Vec<FillColumn>, ExcelError>)
    ensures
        match r {
            Ok(cs) => fill_columns(cell_views(cells@), column_headers()) == Ok::<Seq<FillView>, Failure>(fill_views(cs@)),
            Err(e) => fill_columns(cell_views(cells@), column_headers()) == Err::<Seq<FillView>, Failure>(e@),
        },
{
    let ghost views = cell_views(cells@);
    let table = column_header_table();
    let ghost tv = table_view(table@);
    let mut columns: Vec<FillColumn> = Vec::new();
    let mut i: usize = 0;
    assert(tv.skip(0) =~= tv);
    while i < table.len()
        invariant
            i <= table@.len(),
            views == cell_views(cells@),
            tv == table_view(table@),
            tv == column_headers(),
            fill_columns(views, tv) == match fill_columns(views, tv.skip(i as int)) {
                Ok(rest) => Ok(fill_views(columns@) + rest),
                Err(e) => Err(e),
            },
        decreases table.len() - i,
    {
        assert(tv.skip(i as int).drop_first() =~= tv.skip(i + 1));
        assert(tv.skip(i as int)[0] == tv[i as int]);
        match discover_fill_column(cells, &table[i].0, &table[i].1) {
            Some(c) => {
                let ghost before = fill_views(columns@);
                columns.push(c);
                assert(fill_views(columns@) =~= before.push(c@));
                proof {
                    match fill_columns(views, tv.skip(i + 1)) {
                        Ok(rest) => {
                            assert(before + (seq![c@] + rest) =~= before.push(c@) + rest);
                        },
                        Err(_) => {},
                    }
                }
            },
            None => {
                return Err(ExcelError::MissingColumnHeader(string_of(&table[i].0)));
            },
        }
        i += 1;
    }
    assert(fill_views(columns@) + Seq::<FillView>::empty() =~= fill_views(columns@));
    Ok(columns)
}

fn discover_header_fields(cells: &Vec<CellInfo>) -> (r: Result<Vec<HeaderFieldTarget>, ExcelError>)
    ensures
        match r {
            Ok(hs) => header_targets(cell_views(cells@), header_labels()) == Ok::<Seq<HeaderView>, Failure>(header_views(hs@)),
            Err(e) => header_targets(cell_views(cells@), header_labels()) == Err::<Seq<HeaderView>, Failure>(e@),
        },
{
    let ghost views = cell_views(cells@);
    let table = header_label_table();
    let ghost tv = table_view(table@);
    let mut targets: Vec<HeaderFieldTarget> = Vec::new();
    let mut i: usize = 0;
    assert(tv.skip(0) =~= tv);
    while i < table.len()
        invariant
            i <= table@.len(),
            views == cell_views(cells@),
            tv == table_view(table@),
            tv == header_labels(),
            header_targets(views, tv) == match header_targets(views, tv.skip(i as int)) {
                Ok(rest) => Ok(header_views(targets@) + rest),
                Err(e) => Err(e),
            },
        decreases table.len() - i,
    {
        assert(tv.skip(i as int).drop_first() =~= tv.skip(i + 1));
        assert(tv.skip(i as int)[0] == tv[i as int]);
        match discover_header_target(cells, &table[i].0, &table[i].1) {
            Some(h) => {
                let ghost before = header_views(targets@);
                targets.push(h);
                assert(header_views(targets@) =~= before.push(h@));
                proof {
                    match header_targets(views, tv.skip(i + 1)) {
                        Ok(rest) => {
                            assert(before + (seq![h@] + rest) =~= before.push(h@) + rest);
                        },
                        Err(_) => {},
                    }
                }
            },
            None => {
                return Err(ExcelError::MissingHeaderLabel(string_of(&table[i].0)));
            },
        }
        i += 1;
    }
    assert(header_views(targets@) + Seq::<HeaderView>::empty() =~= header_views(targets@));
    Ok(targets)
}

proof fn lemma_row_order_total()
    ensures
        total_ordering(row_order()),
{
}

fn insertion_point(v: &Vec<u32>, x: u32) -> (p: usize)
    requires
        sorted_by(v@, row_order()),
    ensures
        p <= v@.len(),
        forall|j: int| 0 <= j < p ==> v@[j] <= x,
        forall|j: int| p <= j < v@.len() ==> v@[j] > x,
{
    let mut p: usize = 0;
    while p < v.len() && v[p] <= x
        invariant
            p <= v@.len(),
            forall|j: int| 0 <= j < p ==> v@[j] <= x,
        decreases v.len() - p,
    {
        p += 1;
    }
    proof {
        if p < v@.len() {
            assert forall|j: int| p <= j < v@.len() implies v@[j] > x by {
                if j > p {
                    assert((row_order())(v@[p as int], v@[j]));
                }
            }
        }
    }
    p
}

fn sort_rows(v: &Vec<u32>) -> (r: Vec<u32>)
    ensures
        r@ == v@.sort_by(row_order()),
{
    broadcast use group_to_multiset_ensures, group_multiset_axioms;
    let mut out: Vec<u32> = Vec::new();
    let mut i: usize = 0;
    assert(v@.take(0) =~= Seq::<u32>::empty());
    while i < v.len()
        invariant
            i <= v@.len(),
            sorted_by(out@, row_order()),
            out@.to_multiset() == v@.take(i as int).to_multiset(),
        decreases v.len() - i,
    {
        let x = v[i];
        let p = insertion_point(&out, x);
        let ghost before = out@;
        out.insert(p, x);
        proof {
            let head = before.subrange(0, p as int);
            let tail = before.subrange(p as int, before.len() as int);
            assert(out@ == head.push(x) + tail);
            lemma_multiset_commutative(head.push(x), tail);
            lemma_multiset_commutative(head, tail);
            assert(before =~= head + tail);
            assert(v@.take(i + 1) =~= v@.take(i as int).push(x));
            head.to_multiset_ensures();
            v@.take(i as int).to_multiset_ensures();
            assert(head.push(x).to_multiset() =~= head.to_multiset().insert(x));
            assert(v@.take(i + 1).to_multiset() =~= before.to_multiset().insert(x));
            assert(out@.to_multiset() =~= head.to_multiset().insert(x).add(tail.to_multiset()));
            assert(before.to_multiset() =~= head.to_multiset().add(tail.to_multiset()));
            assert(out@.to_multiset() =~= v@.take(i + 1).to_multiset());
            assert forall|a: int, b: int| 0 <= a < b < out@.len() implies (row_order())(out@[a], out@[b]) by {
                if b < p {
                    assert((row_order())(before[a], before[b]));
                } else if a > p {
                    assert((row_order())(before[a - 1], before[b - 1]));
                } else if a < p {
                    assert(before[a] <= x);
                }
            }
        }
        i += 1;
    }
    proof {
        assert(v@.take(v@.len() as int) =~= v@);
        lemma_row_order_total();
        v@.lemma_sort_by_ensures(row_order());
        lemma_sorted_unique(out@, v@.sort_by(row_order()), row_order());
    }
    out
}

fn discover_data_rows(ws: &[char], header_row: u32) -> (r: Result<Vec<u32>, ExcelError>)
    ensures
        match r {
            Ok(v) => data_rows(ws@, header_row) == Ok::<Seq<u32>, Failure>(v@),
            Err(e) => data_rows(ws@, header_row) == Err::<Seq<u32>, Failure>(e@),
        },
{
    let rows = parse_row_numbers(ws);
    let mut kept: Vec<u32> = Vec::new();
    let mut i: usize = 0;
    while i < rows.len()
        invariant
            i <= rows@.len(),
            kept@ == rows@.take(i as int).filter(above(header_row)),
        decreases rows.len() - i,
    {
        proof {
            reveal_with_fuel(Seq::<_>::filter, 1);
            assert(rows@.take(i + 1).drop_last() == rows@.take(i as int));
        }
        if rows[i] > header_row {
            kept.push(rows[i]);
        }
        i += 1;
    }
    assert(rows@.take(rows@.len() as int) == rows@);
    let sorted = sort_rows(&kept);
    if sorted.len() == 0 {
        return Err(ExcelError::NoDataRows);
    }
    Ok(sorted)
}

impl TemplateLayout {
    /// Finds where `worksheet` takes its values (`discover`): the fill columns, the rows below
    /// the table header, and the header targets, reporting the first that is missing.
    pub fn discover(worksheet: &[char], shared_strings: &[String]) -> (r: Result<TemplateLayout, ExcelError>)
        ensures
            match r {
                Ok(l) => discover_layout(worksheet@, texts_of(shared_strings@)) == Ok::<LayoutView, Failure>(l@),
                Err(e) => discover_layout(worksheet@, texts_of(shared_strings@)) == Err::<LayoutView, Failure>(e@),
            },
    {
        let cells = parse_cells(worksheet, shared_strings);
        let columns = match discover_fill_columns(&cells) {
            Ok(c) => c,
            Err(e) => return Err(e),
        };
        let header_row = match find_reading(&cells, &chars_of("date")) {
            Some(k) => cells[k].row,
            None => return Err(ExcelError::MissingHeaderRow),
        };
        let data_rows = match discover_data_rows(worksheet, header_row) {
            Ok(rows) => rows,
            Err(e) => return Err(e),
        };
        let header_fields = match discover_header_fields(&cells) {
            Ok(h) => h,
            Err(e) => return Err(e),
        };
        let r = TemplateLayout { header_fields, columns, data_rows };
        assert(r@.header_fields == header_views(r.header_fields@));
        assert(r@.columns == fill_views(r.columns@));
        Ok(r)
    }
}

/// The first fill column for `field`.
pub open spec fn column_named(columns: Seq<FillView>, field: Seq<char>) -> Option<FillView>
    decreases columns.len(),
{
    if columns.len() == 0 {
        None
    } else if columns[0].field == field {
        Some(columns[0])
    } else {
        column_named(columns.drop_first(), field)
    }
}

/// The cell reference of `field`'s column in row `row` (`cell_ref`).
pub open spec fn field_cell_ref(columns: Seq<FillView>, field: Seq<char>, row: u32) -> Option<Seq<char>> {
    match column_named(columns, field) {
        Some(c) => Some(c.column + decimal_text(row as int)),
        None => None,
    }
}

impl TemplateLayout {
    fn column_index(&self, field: &[char]) -> (r: Option<usize>)
        ensures
            match r {
                Some(k) => k < self.columns@.len() && column_named(self@.columns, field@) == Some(self@.columns[k as int]),
                None => column_named(self@.columns, field@) is None,
            },
    {
        let ghost cols = self@.columns;
        let mut i: usize = 0;
        assert(cols.skip(0) =~= cols);
        while i < self.columns.len()
            invariant
                i <= self.columns@.len(),
                cols == self@.columns,
                cols.len() == self.columns@.len(),
                column_named(cols, field@) == column_named(cols.skip(i as int), field@),
            decreases self.columns.len() - i,
        {
            assert(cols.skip(i as int)[0] == cols[i as int]);
            assert(cols.skip(i as int).drop_first() =~= cols.skip(i + 1));
            if chars_eq(&self.columns[i].field, field) {
                return Some(i);
            }
            i += 1;
        }
        None
    }

    /// The reference of the cell of `field`'s column in row `row_number` (`cell_ref`).
    pub fn cell_ref(&self, field: &[char], row_number: u32) -> (r: Result<Vec<char>, ExcelError>)
        ensures
            match r {
                Ok(c) => field_cell_ref(self@.columns, field@, row_number) == Some(c@),
                Err(e) => field_cell_ref(self@.columns, field@, row_number) is None && e@ == Failure::MissingColumn(field@),
            },
    {
        match self.column_index(field) {
            Some(k) => {
                let mut c = copy_chars(&self.columns[k].column);
                append_chars(&mut c, &u64_text(row_number as u64));
                Ok(c)
            },
            None => Err(ExcelError::MissingColumn(string_of(field))),
        }
    }

    /// The style of `field`'s column (`style`).
    pub fn style(&self, field: &[char]) -> (r: Result<&Vec<char>, ExcelError>)
        ensures
            match r {
                Ok(s) => column_named(self@.columns, field@) matches Some(c) && c.style == s@,
                Err(e) => column_named(self@.columns, field@) is None && e@ == Failure::MissingColumnStyle(field@),
            },
    {
        match self.column_index(field) {
            Some(k) => Ok(&self.columns[k].style),
            None => Err(ExcelError::MissingColumnStyle(string_of(field))),
        }
    }
}

} // verus!
