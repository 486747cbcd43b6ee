//! Reading the cells and rows of worksheet XML.
use vstd::prelude::*;
use crate::decimal::{parse_unsigned, parse_unsigned_exec};
use crate::text::{chars_of, find_from, find_from_exec, lemma_find_from, slice_chars, texts_of};
use super::refs::{cell_col_index, column_letters, column_name, ref_column, ref_row_number, row_number_from_cell_ref};
use super::xml::{attr_of, attr_value, cell_end, find_cell_end, lemma_cell_end, value_of, value_text};

verus! {

/// A cell of the worksheet, with its shared-string value resolved.
pub struct CellInfo {
    pub cell_ref: Vec<char>,
    pub row: u32,
    pub column: Vec<char>,
    pub style: Vec<char>,
    pub cell_type: Option<Vec<char>>,
    pub value: Vec<char>,
}

/// The text of a [`CellInfo`].
pub struct CellView {
    pub cell_ref: Seq<char>,
    pub row: u32,
    pub column: Seq<char>,
    pub style: Seq<char>,
    pub cell_type: Option<Seq<char>>,
    pub value: Seq<char>,
}

/// The text of an optional character vector.
pub open spec fn opt_chars(o: Option<Vec<char>>) -> Option<Seq<char>> {
    match o {
        Some(v) => Some(v@),
        None => None,
    }
}

impl View for CellInfo {
    type V = CellView;

    open spec fn view(&self) -> CellView {
        CellView {
            cell_ref: self.cell_ref@,
            row: self.row,
            column: self.column@,
            style: self.style@,
            cell_type: opt_chars(self.cell_type),
            value: self.value@,
        }
    }
}

/// The views of a list of cells.
pub open spec fn cell_views(cells: Seq<CellInfo>) -> Seq<CellView> {
    cells.map_values(|c: CellInfo| c@)
}

/// The value a cell shows: for a shared-string cell (`t="s"`) the string its `<v>` index
/// names (empty where there is none), otherwise the `<v>` text itself.
pub open spec fn shown_value(cell_type: Option<Seq<char>>, raw: Seq<char>, strings: Seq<Seq<char>>) -> Seq<char> {
    if cell_type == Some("s"@) {
        match parse_unsigned(raw, usize::MAX as nat) {
            Some(i) => if i < strings.len() { strings[i as int] } else { Seq::empty() },
            None => Seq::empty(),
        }
    } else {
        raw
    }
}

/// The cell described by `cell_xml`, where it carries a reference.
pub open spec fn cell_info(cell_xml: Seq<char>, strings: Seq<Seq<char>>) -> Option<CellView> {
    match attr_of(cell_xml, "r"@) {
        None => None,
        Some(r) => {
            let cell_type = attr_of(cell_xml, "t"@);
            let raw = match value_of(cell_xml) {
                Some(v) => v,
                None => Seq::empty(),
            };
            Some(CellView {
                cell_ref: r,
                row: match ref_row_number(r) {
                    Some(n) => n as u32,
                    None => 0,
                },
                column: column_letters(ref_column(r)),
                style: match attr_of(cell_xml, "s"@) {
                    Some(s) => s,
                    None => "0"@,
                },
                cell_type,
                value: shown_value(cell_type, raw, strings),
            })
        },
    }
}

/// The cells of `ws` from offset `off` on.
pub open spec fn cells_from(ws: Seq<char>, strings: Seq<Seq<char>>, off: int) -> Seq<CellView>
    decreases ws.len() + 1 - off,
{
    if off < 0 || off > ws.len() {
        Seq::empty()
    } else {
        match find_from(ws, "<c "@, off) {
            None => Seq::empty(),
            Some(cs) => match cell_end(ws, cs) {
                None => Seq::empty(),
                Some(ce) => {
                    proof {
                        lemma_find_from(ws, "<c "@, off);
                        lemma_cell_end(ws, cs);
                    }
                    match cell_info(ws.subrange(cs, ce), strings) {
                        None => cells_from(ws, strings, ce),
                        Some(c) => seq![c] + cells_from(ws, strings, ce),
                    }
                },
            },
        }
    }
}

/// The cells of the worksheet in document order.
pub open spec fn worksheet_cells(ws: Seq<char>, strings: Seq<Seq<char>>) -> Seq<CellView> {
    cells_from(ws, strings, 0)
}

fn read_cell(cell_xml: &[char], shared_strings: &[String]) -> (r: Option<CellInfo>)
    ensures
        match r {
            Some(c) => cell_info(cell_xml@, texts_of(shared_strings@)) == Some(c@),
            None => cell_info(cell_xml@, texts_of(shared_strings@)) is None,
        },
{
    let cell_ref = match attr_value(cell_xml, "r") {
        Some(r) => r,
        None => return None,
    };
    let style = match attr_value(cell_xml, "s") {
        Some(s) => s,
        None => chars_of("0"),
    };
    let cell_type = attr_value(cell_xml, "t");
    let raw = match value_text(cell_xml) {
        Some(v) => v,
        None => Vec::new(),
    };
    let is_shared = match &cell_type {
        Some(t) => crate::text::chars_eq(t, &chars_of("s")),
        None => false,
    };
    let ghost strings = texts_of(shared_strings@);
    let value = if is_shared {
        match parse_unsigned_exec(&raw, usize::MAX as u64) {
            Some(i) => if (i as usize) < shared_strings.len() {
                assert(strings[i as int] == shared_strings@[i as int]@);
                chars_of(shared_strings[i as usize].as_str())
            } else {
                Vec::new()
            },
            None => Vec::new(),
        }
    } else {
        raw
    };
    let row = match row_number_from_cell_ref(&cell_ref) {
        Ok(n) => n,
        Err(_) => 0,
    };
    let column = column_name(cell_col_index(&cell_ref));
    let r = CellInfo { cell_ref, row, column, style, cell_type, value };
    assert(cell_info(cell_xml@, strings) == Some(r@));
    Some(r)
}

/// The cells of the worksheet, with shared-string values resolved (`parse_cells`).
pub fn parse_cells(ws: &[char], shared_strings: &[String]) -> (r: Vec<CellInfo>)
    ensures
        cell_views(r@) == worksheet_cells(ws@, texts_of(shared_strings@)),
{
    let ghost strings = texts_of(shared_strings@);
    let n = ws.len();
    let open = chars_of("<c ");
    let mut cells: Vec<CellInfo> = Vec::new();
    let mut offset: usize = 0;
    while offset <= n
        invariant
            n == ws@.len(),
            offset <= n + 1,
            open@ == "<c "@,
            strings == texts_of(shared_strings@),
            worksheet_cells(ws@, strings) == cell_views(cells@) + cells_from(ws@, strings, offset as int),
        decreases n + 1 - offset,
    {
        let cell_start = match find_from_exec(ws, &open, offset) {
            Some(c) => c,
            None => {
                assert(cell_views(cells@) + Seq::<CellView>::empty() =~= cell_views(cells@));
                return cells;
            },
        };
        proof { lemma_find_from(ws@, "<c "@, offset as int); }
        let cell_end_at = match find_cell_end(ws, cell_start) {
            Some((_, e)) => e,
            None => {
                assert(cell_views(cells@) + Seq::<CellView>::empty() =~= cell_views(cells@));
                return cells;
            },
        };
        proof { lemma_cell_end(ws@, cell_start as int); }
        let cell_xml = slice_chars(ws, cell_start, cell_end_at);
        let ghost before = cell_views(cells@);
        match read_cell(&cell_xml, shared_strings) {
            Some(c) => {
                cells.push(c);
                assert(cell_views(cells@) == before.push(c@));
            },
            None => {},
        }
        offset = cell_end_at;
    }
    assert(cells_from(ws@, strings, offset as int) =~= Seq::<CellView>::empty());
    assert(cell_views(cells@) + Seq::<CellView>::empty() =~= cell_views(cells@));
    cells
}

/// The row numbers of the `<row ...>` tags of `ws` from `off` on, in order; tags without a
/// readable `r` are skipped.
pub open spec fn row_numbers_from(ws: Seq<char>, off: int) -> Seq<u32>
    decreases ws.len() + 1 - off,
{
    if off < 0 || off > ws.len() {
        Seq::empty()
    } else {
        match find_from(ws, "<row "@, off) {
            None => Seq::empty(),
            Some(rs) => {
                let tag_end = match find_from(ws, ">"@, rs) {
                    Some(g) => g,
                    None => rs,
                };
                proof {
                    lemma_find_from(ws, "<row "@, off);
                    lemma_find_from(ws, ">"@, rs);
                }
                let rest = row_numbers_from(ws, tag_end + 1);
                match attr_of(ws.subrange(rs, tag_end), "r"@) {
                    Some(v) => match parse_unsigned(v, u32::MAX as nat) {
                        Some(n) => seq![n as u32] + rest,
                        None => rest,
                    },
                    None => rest,
                }
            },
        }
    }
}

/// The row numbers of the worksheet's `<row>` tags (`parse_row_numbers`).
pub fn parse_row_numbers(ws: &[char]) -> (r: Vec<u32>)
    ensures
        r@ == row_numbers_from(ws@, 0),
{
    let n = ws.len();
    let open = chars_of("<row ");
    let gt = chars_of(">");
    let mut rows: Vec<u32> = Vec::new();
    let mut offset: usize = 0;
    while offset <= n
        invariant
            n == ws@.len(),
            offset <= n + 1,
            open@ == "<row "@,
            gt@ == ">"@,
            row_numbers_from(ws@, 0) == rows@ + row_numbers_from(ws@, offset as int),
        decreases n + 1 - offset,
    {
        let row_start = match find_from_exec(ws, &open, offset) {
            Some(s) => s,
            None => {
                assert(rows@ + Seq::<u32>::empty() =~= rows@);
                return rows;
            },
        };
        proof {
            reveal_strlit("<row ");
            reveal_strlit(">");
            lemma_find_from(ws@, "<row "@, offset as int);
            lemma_find_from(ws@, ">"@, row_start as int);
        }
        let tag_end = match find_from_exec(ws, &gt, row_start) {
            Some(g) => g,
            None => row_start,
        };
        let tag = slice_chars(ws, row_start, tag_end);
        let ghost before = rows@;
        match attr_value(&tag, "r") {
            Some(v) => match parse_unsigned_exec(&v, u32::MAX as u64) {
                Some(k) => {
                    rows.push(k as u32);
                },
                None => {},
            },
            None => {},
        }
        offset = tag_end + 1;
    }
    assert(row_numbers_from(ws@, offset as int) =~= Seq::<u32>::empty());
    assert(rows@ + Seq::<u32>::empty() =~= rows@);
    rows
}

} // verus!
