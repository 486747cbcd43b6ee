//! Locating cells, rows and attributes in worksheet XML text.
use vstd::prelude::*;
use crate::decimal::{decimal_text, u64_text};
use crate::text::{
    append_chars, chars_of, find_first, find_from, find_from_exec, lemma_find_from, matches_at,
    slice_chars, starts_with, starts_with_exec,
};
use super::error::ExcelError;
use super::refs::{column_index_from_cell_ref, ref_column};

verus! {

/// The value of the first `attr="..."` in `xml`.
pub open spec fn attr_of(xml: Seq<char>, attr: Seq<char>) -> Option<Seq<char>> {
    let marker = attr + "=\""@;
    match find_first(xml, marker) {
        Some(m) => {
            let start = m + marker.len();
            match find_from(xml, "\""@, start) {
                Some(end) => Some(xml.subrange(start, end)),
                None => None,
            }
        },
        None => None,
    }
}

/// The value of the first `attr="..."` in `xml`.
pub fn attr_value(xml: &[char], attr: &str) -> (r: Option<Vec<char>>)
    ensures
        match r {
            Some(v) => attr_of(xml@, attr@) == Some(v@),
            None => attr_of(xml@, attr@) is None,
        },
{
    let n = xml.len();
    let mut marker = chars_of(attr);
    append_chars(&mut marker, &chars_of("=\""));
    match find_from_exec(xml, &marker, 0) {
        Some(m) => {
            proof { lemma_find_from(xml@, marker@, 0); }
            let start = m + marker.len();
            match find_from_exec(xml, &chars_of("\""), start) {
                Some(end) => {
                    proof { lemma_find_from(xml@, "\""@, start as int); }
                    Some(slice_chars(xml, start, end))
                },
                None => None,
            }
        },
        None => None,
    }
}

/// The text between the first `<v>` of `cell_xml` and the `</v>` after it.
pub open spec fn value_of(cell_xml: Seq<char>) -> Option<Seq<char>> {
    match find_first(cell_xml, "<v>"@) {
        Some(m) => {
            let start = m + 3;
            match find_from(cell_xml, "</v>"@, start) {
                Some(end) => Some(cell_xml.subrange(start, end)),
                None => None,
            }
        },
        None => None,
    }
}

/// The text between the first `<v>` of `cell_xml` and the `</v>` after it.
pub fn value_text(cell_xml: &[char]) -> (r: Option<Vec<char>>)
    ensures
        match r {
            Some(v) => value_of(cell_xml@) == Some(v@),
            None => value_of(cell_xml@) is None,
        },
{
    let n = cell_xml.len();
    let open = chars_of("<v>");
    proof { reveal_strlit("<v>"); }
    match find_from_exec(cell_xml, &open, 0) {
        Some(m) => {
            proof { lemma_find_from(cell_xml@, open@, 0); }
            let start = m + 3;
            match find_from_exec(cell_xml, &chars_of("</v>"), start) {
                Some(end) => {
                    proof { lemma_find_from(cell_xml@, "</v>"@, start as int); }
                    Some(slice_chars(cell_xml, start, end))
                },
                None => None,
            }
        },
        None => None,
    }
}

/// Where the cell starting at `cell_start` ends: just after the nearer of `</c>` and `/>`.
pub open spec fn cell_end(ws: Seq<char>, cell_start: int) -> Option<int> {
    let closed = find_from(ws, "</c>"@, cell_start);
    let empty = find_from(ws, "/>"@, cell_start);
    match (closed, empty) {
        (Some(c), Some(e)) => Some(if c + 4 <= e + 2 { c + 4 } else { e + 2 }),
        (Some(c), None) => Some(c + 4),
        (None, Some(e)) => Some(e + 2),
        (None, None) => None,
    }
}

/// Where a cell ends lies after its start and within the worksheet.
pub proof fn lemma_cell_end(ws: Seq<char>, cell_start: int)
    requires
        0 <= cell_start,
    ensures
        cell_end(ws, cell_start) matches Some(e) ==> cell_start + 2 <= e <= ws.len(),
{
    reveal_strlit("</c>");
    reveal_strlit("/>");
    lemma_find_from(ws, "</c>"@, cell_start);
    lemma_find_from(ws, "/>"@, cell_start);
}

/// The end of the cell starting at `cell_start` (`find_cell_end`).
pub fn find_cell_end(ws: &[char], cell_start: usize) -> (r: Option<(usize, usize)>)
    ensures
        match r {
            Some((s, e)) => s == cell_start && cell_end(ws@, cell_start as int) == Some(e as int),
            None => cell_end(ws@, cell_start as int) is None,
        },
{
    proof {
        reveal_strlit("</c>");
        reveal_strlit("/>");
        lemma_find_from(ws@, "</c>"@, cell_start as int);
        lemma_find_from(ws@, "/>"@, cell_start as int);
    }
    let n = ws.len();
    let closed = find_from_exec(ws, &chars_of("</c>"), cell_start);
    let empty = find_from_exec(ws, &chars_of("/>"), cell_start);
    match (closed, empty) {
        (Some(c), Some(e)) => Some((cell_start, if c + 4 <= e + 2 { c + 4 } else { e + 2 })),
        (Some(c), None) => Some((cell_start, c + 4)),
        (None, Some(e)) => Some((cell_start, e + 2)),
        (None, None) => None,
    }
}

/// `<c r="REF"`, the start of the cell with reference `cell_ref`.
pub open spec fn cell_marker(cell_ref: Seq<char>) -> Seq<char> {
    "<c r=\""@ + cell_ref + "\""@
}

/// Where the cell `cell_ref` lies in `ws`: from its marker to the cell's end, just after the
/// nearer of `</c>` and `/>` (`cell_end`).
pub open spec fn cell_range(ws: Seq<char>, cell_ref: Seq<char>) -> Option<(int, int)> {
    match find_first(ws, cell_marker(cell_ref)) {
        Some(start) => match cell_end(ws, start) {
            Some(e) => Some((start, e)),
            None => None,
        },
        None => None,
    }
}

/// A found cell lies within the worksheet and starts with its marker.
pub proof fn lemma_cell_range(ws: Seq<char>, cell_ref: Seq<char>)
    ensures
        cell_range(ws, cell_ref) matches Some((s, e)) ==> 0 <= s < e <= ws.len()
            && matches_at(ws, cell_marker(cell_ref), s),
{
    lemma_find_from(ws, cell_marker(cell_ref), 0);
    if let Some(start) = find_first(ws, cell_marker(cell_ref)) {
        lemma_cell_end(ws, start);
    }
}

/// The cell `<c r="REF" ...>` as `(start, end)` (`find_cell_range`).
pub fn find_cell_range(ws: &[char], cell_ref: &[char]) -> (r: Option<(usize, usize)>)
    ensures
        match r {
            Some((s, e)) => cell_range(ws@, cell_ref@) == Some((s as int, e as int)),
            None => cell_range(ws@, cell_ref@) is None,
        },
{
    let mut marker = chars_of("<c r=\"");
    append_chars(&mut marker, cell_ref);
    append_chars(&mut marker, &chars_of("\""));
    match find_from_exec(ws, &marker, 0) {
        Some(start) => {
            proof { lemma_find_from(ws@, marker@, 0); }
            find_cell_end(ws, start)
        },
        None => None,
    }
}

/// `<row r="N"`, the start of row `n`.
pub open spec fn row_marker(n: nat) -> Seq<char> {
    "<row r=\""@ + decimal_text(n as int) + "\""@
}

/// Where row `n` lies in `ws`: from its marker to just after the first `</row>` following it.
pub open spec fn row_range(ws: Seq<char>, n: nat) -> Option<(int, int)> {
    match find_first(ws, row_marker(n)) {
        Some(start) => match find_from(ws, "</row>"@, start) {
            Some(e) => Some((start, e + 6)),
            None => None,
        },
        None => None,
    }
}

/// A found row lies within the worksheet and ends with `</row>`.
pub proof fn lemma_row_range(ws: Seq<char>, n: nat)
    ensures
        row_range(ws, n) matches Some((s, e)) ==> 0 <= s && s + 6 <= e <= ws.len()
            && matches_at(ws, "</row>"@, e - 6),
{
    reveal_strlit("</row>");
    lemma_find_from(ws, row_marker(n), 0);
    if let Some(start) = find_first(ws, row_marker(n)) {
        lemma_find_from(ws, "</row>"@, start);
    }
}

/// The row `<row r="N" ...>...</row>` as `(start, end)` (`find_row_range`); a missing row or
/// one without `</row>` is an error.
pub fn find_row_range(ws: &[char], row_number: u32) -> (r: Result<(usize, usize), ExcelError>)
    ensures
        match r {
            Ok((s, e)) => row_range(ws@, row_number as nat) == Some((s as int, e as int)),
            Err(err) => row_range(ws@, row_number as nat) is None && (
                if find_first(ws@, row_marker(row_number as nat)) is None {
                    err == ExcelError::MissingRow(row_number)
                } else {
                    err == ExcelError::MalformedRow(row_number)
                }),
        },
{
    let n = ws.len();
    let mut marker = chars_of("<row r=\"");
    append_chars(&mut marker, &u64_text(row_number as u64));
    append_chars(&mut marker, &chars_of("\""));
    proof { reveal_strlit("</row>"); }
    match find_from_exec(ws, &marker, 0) {
        Some(start) => {
            proof { lemma_find_from(ws@, "</row>"@, start as int); }
            match find_from_exec(ws, &chars_of("</row>"), start) {
                Some(e) => Ok((start, e + 6)),
                None => Err(ExcelError::MalformedRow(row_number)),
            }
        },
        None => Err(ExcelError::MissingRow(row_number)),
    }
}

/// Scanning a row's cells from `off`: the start of the first cell whose column lies to the
/// right of `target`; `None` at the end, or at a cell whose reference is unreadable.
pub open spec fn insert_offset_from(row: Seq<char>, target: nat, off: int) -> Option<int>
    decreases row.len() + 1 - off,
{
    if off < 0 || off > row.len() {
        None
    } else {
        match find_from(row, "<c "@, off) {
            None => None,
            Some(cs) => match find_from(row, "r=\""@, cs) {
                None => None,
                Some(m) => match find_from(row, "\""@, m + 3) {
                    None => None,
                    Some(re) => {
                        let col = ref_column(row.subrange(m + 3, re));
                        if col == 0 {
                            None
                        } else if col > target {
                            Some(cs)
                        } else {
                            proof {
                                lemma_find_from(row, "<c "@, off);
                                lemma_find_from(row, "r=\""@, cs);
                                lemma_find_from(row, "\""@, m + 3);
                            }
                            insert_offset_from(row, target, re)
                        }
                    },
                },
            },
        }
    }
}

/// Where in `row` a new cell `cell_ref` goes to keep cells in column order; `None` where it
/// goes last, or where a reference is unreadable.
pub open spec fn insert_offset(row: Seq<char>, cell_ref: Seq<char>) -> Option<int> {
    if ref_column(cell_ref) == 0 {
        None
    } else {
        insert_offset_from(row, ref_column(cell_ref), 0)
    }
}

/// Where in `row_xml` the cell `cell_ref` is to be inserted (`cell_insert_offset`).
pub fn cell_insert_offset(row_xml: &[char], cell_ref: &[char]) -> (r: Option<usize>)
    ensures
        match r {
            Some(k) => insert_offset(row_xml@, cell_ref@) == Some(k as int) && k < row_xml@.len(),
            None => insert_offset(row_xml@, cell_ref@) is None,
        },
{
    let target = match column_index_from_cell_ref(cell_ref) {
        Some(t) => t,
        None => return None,
    };
    let n = row_xml.len();
    let cell_open = chars_of("<c ");
    let ref_marker = chars_of("r=\"");
    let quote = chars_of("\"");
    proof {
        reveal_strlit("<c ");
        reveal_strlit("r=\"");
        reveal_strlit("\"");
    }
    let mut search_offset: usize = 0;
    while true
        invariant
            n == row_xml@.len(),
            search_offset <= n,
            cell_open@ == "<c "@,
            ref_marker@ == "r=\""@,
            quote@ == "\""@,
            target as nat == ref_column(cell_ref@),
            target != 0,
            insert_offset(row_xml@, cell_ref@) == insert_offset_from(row_xml@, target as nat, search_offset as int),
        decreases n + 1 - search_offset,
    {
        let cell_start = match find_from_exec(row_xml, &cell_open, search_offset) {
            Some(c) => c,
            None => return None,
        };
        proof { lemma_find_from(row_xml@, "<c "@, search_offset as int); }
        let m = match find_from_exec(row_xml, &ref_marker, cell_start) {
            Some(m) => m,
            None => return None,
        };
        proof {
            reveal_strlit("r=\"");
            lemma_find_from(row_xml@, "r=\""@, cell_start as int);
        }
        let ref_start = m + 3;
        let ref_end = match find_from_exec(row_xml, &quote, ref_start) {
            Some(e) => e,
            None => return None,
        };
        proof { lemma_find_from(row_xml@, "\""@, ref_start as int); }
        let existing = slice_chars(row_xml, ref_start, ref_end);
        let col = match column_index_from_cell_ref(&existing) {
            Some(c) => c,
            None => return None,
        };
        if col > target {
            return Some(cell_start);
        }
        search_offset = ref_end;
    }
    None
}

/// The XML of a cell: `<c r="REF" s="STYLE" t="TYPE"><v>VALUE</v></c>`, without the type
/// attribute where there is no type, and self-closing where there is no value.
pub open spec fn cell_xml(cell_ref: Seq<char>, style: Seq<char>, cell_type: Option<Seq<char>>, value: Option<Seq<char>>) -> Seq<char> {
    let type_attr = match cell_type {
        Some(t) => " t=\""@ + t + "\""@,
        None => Seq::empty(),
    };
    let head = "<c r=\""@ + cell_ref + "\" s=\""@ + style + "\""@ + type_attr;
    match value {
        Some(v) => head + "><v>"@ + v + "</v></c>"@,
        None => head + "/>"@,
    }
}

/// The XML of a cell (`build_cell_xml`).
pub fn build_cell_xml(cell_ref: &[char], style: &[char], cell_type: Option<&[char]>, value: Option<&[char]>) -> (r: Vec<char>)
    ensures
        r@ == cell_xml(cell_ref@, style@, match cell_type {
            Some(t) => Some(t@),
            None => None,
        }, match value {
            Some(v) => Some(v@),
            None => None,
        }),
{
    let mut out = chars_of("<c r=\"");
    append_chars(&mut out, cell_ref);
    append_chars(&mut out, &chars_of("\" s=\""));
    append_chars(&mut out, style);
    append_chars(&mut out, &chars_of("\""));
    match cell_type {
        Some(t) => {
            append_chars(&mut out, &chars_of(" t=\""));
            append_chars(&mut out, t);
            append_chars(&mut out, &chars_of("\""));
        },
        None => {},
    }
    match value {
        Some(v) => {
            append_chars(&mut out, &chars_of("><v>"));
            append_chars(&mut out, v);
            append_chars(&mut out, &chars_of("</v></c>"));
        },
        None => {
            append_chars(&mut out, &chars_of("/>"));
        },
    }
    out
}

/// The XML entity text for one character.
pub open spec fn escaped_char(c: char) -> Seq<char> {
    if c == '&' {
        "&amp;"@
    } else if c == '<' {
        "&lt;"@
    } else if c == '>' {
        "&gt;"@
    } else if c == '"' {
        "&quot;"@
    } else if c == '\'' {
        "&apos;"@
    } else {
        seq![c]
    }
}

/// `s` with `&`, `<`, `>`, `"` and `'` written as XML entities.
pub open spec fn escaped(s: Seq<char>) -> Seq<char>
    decreases s.len(),
{
    if s.len() == 0 {
        Seq::empty()
    } else {
        escaped(s.drop_last()) + escaped_char(s.last())
    }
}

/// `value` with XML's special characters escaped (`escape_xml`).
pub fn escape_xml(value: &[char]) -> (r: Vec<char>)
    ensures
        r@ == escaped(value@),
{
    let mut r: Vec<char> = Vec::new();
    let mut i: usize = 0;
    while i < value.len()
        invariant
            i <= value@.len(),
            r@ == escaped(value@.take(i as int)),
        decreases value.len() - i,
    {
        assert(value@.take(i + 1).drop_last() == value@.take(i as int));
        let c = value[i];
        if c == '&' {
            append_chars(&mut r, &chars_of("&amp;"));
        } else if c == '<' {
            append_chars(&mut r, &chars_of("&lt;"));
        } else if c == '>' {
            append_chars(&mut r, &chars_of("&gt;"));
        } else if c == '"' {
            append_chars(&mut r, &chars_of("&quot;"));
        } else if c == '\'' {
            append_chars(&mut r, &chars_of("&apos;"));
        } else {
            r.push(c);
            assert(r@ =~= escaped(value@.take(i as int)) + seq![c]);
        }
        i += 1;
    }
    assert(value@.take(value@.len() as int) == value@);
    r
}

/// `&apos;`
pub open spec fn apos_entity() -> Seq<char> {
    seq!['&', 'a', 'p', 'o', 's', ';']
}

/// `&quot;`
pub open spec fn quot_entity() -> Seq<char> {
    seq!['&', 'q', 'u', 'o', 't', ';']
}

/// `&gt;`
pub open spec fn gt_entity() -> Seq<char> {
    seq!['&', 'g', 't', ';']
}

/// `&lt;`
pub open spec fn lt_entity() -> Seq<char> {
    seq!['&', 'l', 't', ';']
}

/// `&amp;`
pub open spec fn amp_entity() -> Seq<char> {
    seq!['&', 'a', 'm', 'p', ';']
}

/// `s` with the XML entities `&apos;`, `&quot;`, `&gt;`, `&lt;` and `&amp;` read back into
/// characters, each entity once, scanning from the left.
pub open spec fn unescaped(s: Seq<char>) -> Seq<char>
    decreases s.len(),
{
    if s.len() == 0 {
        Seq::empty()
    } else if starts_with(s, apos_entity()) {
        seq!['\''] + unescaped(s.skip(6))
    } else if starts_with(s, quot_entity()) {
        seq!['"'] + unescaped(s.skip(6))
    } else if starts_with(s, gt_entity()) {
        seq!['>'] + unescaped(s.skip(4))
    } else if starts_with(s, lt_entity()) {
        seq!['<'] + unescaped(s.skip(4))
    } else if starts_with(s, amp_entity()) {
        seq!['&'] + unescaped(s.skip(5))
    } else {
        seq![s[0]] + unescaped(s.drop_first())
    }
}

/// `value` with XML entities read back (`unescape_xml`).
pub fn unescape_xml(value: &[char]) -> (r: Vec<char>)
    ensures
        r@ == unescaped(value@),
{
    let n = value.len();
    let apos = chars_of("&apos;");
    let quot = chars_of("&quot;");
    let gt = chars_of("&gt;");
    let lt = chars_of("&lt;");
    let amp = chars_of("&amp;");
    proof {
        reveal_strlit("&apos;");
        reveal_strlit("&quot;");
        reveal_strlit("&gt;");
        reveal_strlit("&lt;");
        reveal_strlit("&amp;");
        assert(apos@ == apos_entity());
        assert(quot@ == quot_entity());
        assert(gt@ == gt_entity());
        assert(lt@ == lt_entity());
        assert(amp@ == amp_entity());
    }
    let mut r: Vec<char> = Vec::new();
    let mut i: usize = 0;
    assert(value@.skip(0) == value@);
    while i < n
        invariant
            n == value@.len(),
            i <= n,
            apos@ == apos_entity(),
            quot@ == quot_entity(),
            gt@ == gt_entity(),
            lt@ == lt_entity(),
            amp@ == amp_entity(),
            unescaped(value@) == r@ + unescaped(value@.skip(i as int)),
        decreases n - i,
    {
        let rest = slice_chars(value, i, n);
        assert(rest@ == value@.skip(i as int));
        let ghost before = r@;
        if starts_with_exec(&rest, &apos) {
            r.push('\'');
            assert(value@.skip(i as int).skip(6) == value@.skip(i + 6));
            i += 6;
        } else if starts_with_exec(&rest, &quot) {
            r.push('"');
            assert(value@.skip(i as int).skip(6) == value@.skip(i + 6));
            i += 6;
        } else if starts_with_exec(&rest, &gt) {
            r.push('>');
            assert(value@.skip(i as int).skip(4) == value@.skip(i + 4));
            i += 4;
        } else if starts_with_exec(&rest, &lt) {
            r.push('<');
            assert(value@.skip(i as int).skip(4) == value@.skip(i + 4));
            i += 4;
        } else if starts_with_exec(&rest, &amp) {
            r.push('&');
            assert(value@.skip(i as int).skip(5) == value@.skip(i + 5));
            i += 5;
        } else {
            r.push(value[i]);
            assert(value@.skip(i as int).drop_first() == value@.skip(i + 1));
            i += 1;
        }
        assert(r@ + unescaped(value@.skip(i as int)) =~= before + unescaped(rest@));
    }
    r
}

proof fn lemma_escaped_front(s: Seq<char>)
    requires
        s.len() > 0,
    ensures
        escaped(s) == escaped_char(s[0]) + escaped(s.drop_first()),
    decreases s.len(),
{
    if s.len() == 1 {
        assert(s.drop_last() =~= Seq::<char>::empty());
        assert(s.drop_first() =~= Seq::<char>::empty());
        assert(escaped(s.drop_first()) =~= Seq::<char>::empty());
        assert(escaped(s) =~= escaped_char(s[0]));
    } else {
        lemma_escaped_front(s.drop_last());
        assert(s.drop_last().drop_first() == s.drop_first().drop_last());
        assert(s.drop_first().last() == s.last());
        assert(s.drop_last()[0] == s[0]);
        assert(escaped(s) =~= escaped_char(s[0]) + escaped(s.drop_first()));
    }
}

proof fn lemma_unescaped_escaped_char(c: char, t: Seq<char>)
    ensures
        unescaped(escaped_char(c) + t) == seq![c] + unescaped(t),
{
    reveal_strlit("&amp;");
    reveal_strlit("&lt;");
    reveal_strlit("&gt;");
    reveal_strlit("&quot;");
    reveal_strlit("&apos;");
    let s = escaped_char(c) + t;
    let k = escaped_char(c).len() as int;
    assert(s.skip(k) == t);
    assert(s[0] == escaped_char(c)[0]);
    if c == '&' {
        assert(s.take(5) =~= amp_entity());
        assert(s[1] == 'a' && s[2] == 'm');
        assert(!starts_with(s, apos_entity())) by { if s.len() >= 6 { assert(s.take(6)[2] != apos_entity()[2]); } }
        assert(!starts_with(s, quot_entity())) by { if s.len() >= 6 { assert(s.take(6)[1] != quot_entity()[1]); } }
        assert(!starts_with(s, gt_entity())) by { if s.len() >= 4 { assert(s.take(4)[1] != gt_entity()[1]); } }
        assert(!starts_with(s, lt_entity())) by { if s.len() >= 4 { assert(s.take(4)[1] != lt_entity()[1]); } }
    } else if c == '<' {
        assert(s.take(4) =~= lt_entity());
        assert(s[1] == 'l');
        assert(!starts_with(s, apos_entity())) by { if s.len() >= 6 { assert(s.take(6)[1] != apos_entity()[1]); } }
        assert(!starts_with(s, quot_entity())) by { if s.len() >= 6 { assert(s.take(6)[1] != quot_entity()[1]); } }
        assert(!starts_with(s, gt_entity())) by { if s.len() >= 4 { assert(s.take(4)[1] != gt_entity()[1]); } }
    } else if c == '>' {
        assert(s.take(4) =~= gt_entity());
        assert(s[1] == 'g');
        assert(!starts_with(s, apos_entity())) by { if s.len() >= 6 { assert(s.take(6)[1] != apos_entity()[1]); } }
        assert(!starts_with(s, quot_entity())) by { if s.len() >= 6 { assert(s.take(6)[1] != quot_entity()[1]); } }
    } else if c == '"' {
        assert(s.take(6) =~= quot_entity());
        assert(s[1] == 'q');
        assert(!starts_with(s, apos_entity())) by { if s.len() >= 6 { assert(s.take(6)[1] != apos_entity()[1]); } }
    } else if c == '\'' {
        assert(s.take(6) =~= apos_entity());
    } else {
        assert(s[0] == c);
        assert(!starts_with(s, apos_entity())) by { if s.len() >= 6 { assert(s.take(6)[0] != apos_entity()[0]); } }
        assert(!starts_with(s, quot_entity())) by { if s.len() >= 6 { assert(s.take(6)[0] != quot_entity()[0]); } }
        assert(!starts_with(s, gt_entity())) by { if s.len() >= 4 { assert(s.take(4)[0] != gt_entity()[0]); } }
        assert(!starts_with(s, lt_entity())) by { if s.len() >= 4 { assert(s.take(4)[0] != lt_entity()[0]); } }
        assert(!starts_with(s, amp_entity())) by { if s.len() >= 5 { assert(s.take(5)[0] != amp_entity()[0]); } }
        assert(s.drop_first() == t);
    }
}

/// One of the five XML entities starts at index `k` of `t`.
pub open spec fn entity_at(t: Seq<char>, k: int) -> bool {
    matches_at(t, amp_entity(), k) || matches_at(t, lt_entity(), k) || matches_at(t, gt_entity(), k)
        || matches_at(t, quot_entity(), k) || matches_at(t, apos_entity(), k)
}

proof fn lemma_matches_at_prefix(x: Seq<char>, y: Seq<char>, p: Seq<char>, k: int)
    requires
        matches_at(x, p, k),
    ensures
        matches_at(x + y, p, k),
{
    assert((x + y).subrange(k, k + p.len()) =~= x.subrange(k, k + p.len()));
}

/// Escaped text holds no `<`, `>`, `"` or `'`, and each `&` in it starts an entity.
pub proof fn law_escaped_is_plain(s: Seq<char>)
    ensures
        forall|k: int| 0 <= k < escaped(s).len() ==> {
            let c = #[trigger] escaped(s)[k];
            &&& c != '<' && c != '>' && c != '"' && c != '\''
            &&& c == '&' ==> entity_at(escaped(s), k)
        },
    decreases s.len(),
{
    if s.len() > 0 {
        let prev = escaped(s.drop_last());
        let c = s.last();
        let tail = escaped_char(c);
        law_escaped_is_plain(s.drop_last());
        reveal_strlit("&amp;");
        reveal_strlit("&lt;");
        reveal_strlit("&gt;");
        reveal_strlit("&quot;");
        reveal_strlit("&apos;");
        let t = escaped(s);
        assert(t =~= prev + tail);
        assert forall|k: int| 0 <= k < t.len() implies {
            let ch = #[trigger] t[k];
            &&& ch != '<' && ch != '>' && ch != '"' && ch != '\''
            &&& ch == '&' ==> entity_at(t, k)
        } by {
            if k < prev.len() {
                assert(t[k] == prev[k]);
                if prev[k] == '&' {
                    assert(entity_at(prev, k));
                    if matches_at(prev, amp_entity(), k) { lemma_matches_at_prefix(prev, tail, amp_entity(), k); }
                    if matches_at(prev, lt_entity(), k) { lemma_matches_at_prefix(prev, tail, lt_entity(), k); }
                    if matches_at(prev, gt_entity(), k) { lemma_matches_at_prefix(prev, tail, gt_entity(), k); }
                    if matches_at(prev, quot_entity(), k) { lemma_matches_at_prefix(prev, tail, quot_entity(), k); }
                    if matches_at(prev, apos_entity(), k) { lemma_matches_at_prefix(prev, tail, apos_entity(), k); }
                }
            } else {
                let i = k - prev.len();
                assert(t[k] == tail[i]);
                if i == 0 && tail[0] == '&' {
                    let e = tail;
                    assert(t.subrange(k, k + e.len()) =~= e);
                    if c == '&' { assert(e =~= amp_entity()); }
                    else if c == '<' { assert(e =~= lt_entity()); }
                    else if c == '>' { assert(e =~= gt_entity()); }
                    else if c == '"' { assert(e =~= quot_entity()); }
                    else { assert(e =~= apos_entity()); }
                }
            }
        }
    }
}

/// Unescaping what escaping wrote gives back the text.
pub proof fn law_unescape_escaped(s: Seq<char>)
    ensures
        unescaped(escaped(s)) == s,
    decreases s.len(),
{
    if s.len() > 0 {
        lemma_escaped_front(s);
        lemma_unescaped_escaped_char(s[0], escaped(s.drop_first()));
        law_unescape_escaped(s.drop_first());
        assert(seq![s[0]] + s.drop_first() == s);
    }
}

} // verus!
