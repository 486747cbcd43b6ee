//! Cell references (`B12`), column names and header labels.
use vstd::prelude::*;
use crate::decimal::{is_digit, parse_unsigned, parse_unsigned_exec};
use crate::text::{ascii_lower, ascii_lower_exec, ascii_upper, is_ascii_alnum, is_ascii_alnum_exec, is_ascii_alpha, is_ascii_alpha_exec, string_of};
use super::error::{ExcelError, Failure};

verus! {

/// The characters of `s` that are ASCII digits, in order.
pub open spec fn digit_chars(s: Seq<char>) -> Seq<char> {
    s.filter(|c: char| is_digit(c))
}

/// The row number of a cell reference: its digits read as a `u32`.
pub open spec fn ref_row_number(cell_ref: Seq<char>) -> Option<nat> {
    parse_unsigned(digit_chars(cell_ref), u32::MAX as nat)
}

/// The row number of a cell reference (`row_number_from_cell_ref`): the reference's digits
/// read together as a `u32`.
pub fn row_number_from_cell_ref(cell_ref: &[char]) -> (r: Result<u32, ExcelError>)
    ensures
        match r {
            Ok(n) => ref_row_number(cell_ref@) == Some(n as nat),
            Err(e) => ref_row_number(cell_ref@) is None && e@ == Failure::InvalidCellReference(cell_ref@),
        },
{
    let mut digits: Vec<char> = Vec::new();
    let mut i: usize = 0;
    while i < cell_ref.len()
        invariant
            i <= cell_ref@.len(),
            digits@ == digit_chars(cell_ref@.take(i as int)),
        decreases cell_ref.len() - i,
    {
        proof {
            reveal_with_fuel(Seq::<_>::filter, 1);
            assert(cell_ref@.take(i + 1).drop_last() == cell_ref@.take(i as int));
        }
        let c = cell_ref[i];
        if '0' <= c && c <= '9' {
            digits.push(c);
        }
        i += 1;
    }
    assert(cell_ref@.take(cell_ref@.len() as int) == cell_ref@);
    match parse_unsigned_exec(&digits, u32::MAX as u64) {
        Some(v) => Ok(v as u32),
        None => Err(ExcelError::InvalidCellReference(string_of(cell_ref))),
    }
}

/// The number of leading ASCII letters of `s`.
pub open spec fn letter_count(s: Seq<char>) -> nat
    decreases s.len(),
{
    if s.len() > 0 && is_ascii_alpha(s[0]) {
        1 + letter_count(s.drop_first())
    } else {
        0
    }
}

/// The column number that letters `a` stand for, as `u32` arithmetic computes it
/// (A = 1, Z = 26, AA = 27, wrapping at 2^32).
pub open spec fn letters_value(a: Seq<char>) -> nat
    decreases a.len(),
{
    if a.len() == 0 {
        0
    } else {
        ((letters_value(a.drop_last()) * 26 + (ascii_upper(a.last()) as int - 64)) % 0x1_0000_0000) as nat
    }
}

/// The column number of a cell reference's leading letters, 0 without any.
pub open spec fn ref_column(cell_ref: Seq<char>) -> nat {
    letters_value(cell_ref.take(letter_count(cell_ref) as int))
}

proof fn lemma_letter_count(s: Seq<char>)
    ensures
        letter_count(s) <= s.len(),
        forall|k: int| 0 <= k < letter_count(s) ==> is_ascii_alpha(#[trigger] s[k]),
        letter_count(s) < s.len() ==> !is_ascii_alpha(s[letter_count(s) as int]),
    decreases s.len(),
{
    if s.len() > 0 && is_ascii_alpha(s[0]) {
        lemma_letter_count(s.drop_first());
        assert forall|k: int| 0 <= k < letter_count(s) implies is_ascii_alpha(#[trigger] s[k]) by {
            if k > 0 {
                assert(s[k] == s.drop_first()[k - 1]);
            }
        }
    }
}

proof fn lemma_letter_count_exact(s: Seq<char>, n: int)
    requires
        0 <= n <= s.len(),
        forall|k: int| 0 <= k < n ==> is_ascii_alpha(#[trigger] s[k]),
        n < s.len() ==> !is_ascii_alpha(s[n]),
    ensures
        letter_count(s) == n,
    decreases n,
{
    if n > 0 {
        assert forall|k: int| 0 <= k < n - 1 implies is_ascii_alpha(#[trigger] s.drop_first()[k]) by {
            assert(s.drop_first()[k] == s[k + 1]);
        }
        if n < s.len() {
            assert(s.drop_first()[n - 1] == s[n]);
        }
        lemma_letter_count_exact(s.drop_first(), n - 1);
    }
}

/// The column number of a cell reference's leading letters (`cell_col_index`): 0 where there
/// are none.
pub fn cell_col_index(cell_ref: &[char]) -> (r: u32)
    ensures
        r as nat == ref_column(cell_ref@),
{
    let n = cell_ref.len();
    let mut i: usize = 0;
    let mut index: u32 = 0;
    while i < n && is_ascii_alpha_exec(cell_ref[i])
        invariant
            n == cell_ref@.len(),
            i <= n,
            forall|k: int| 0 <= k < i ==> is_ascii_alpha(#[trigger] cell_ref@[k]),
            index as nat == letters_value(cell_ref@.take(i as int)),
        decreases n - i,
    {
        let c = cell_ref[i];
        let upper: u32 = if 'a' <= c && c <= 'z' { c as u32 - 32 } else { c as u32 };
        assert(upper as int == ascii_upper(c) as int);
        assert(cell_ref@.take(i + 1).drop_last() == cell_ref@.take(i as int));
        index = index.wrapping_mul(26).wrapping_add(upper - 64);
        proof {
            let v = letters_value(cell_ref@.take(i as int));
            assert(((v * 26) % 0x1_0000_0000 + (upper - 64)) % 0x1_0000_0000 == (v * 26 + (upper - 64)) % 0x1_0000_0000) by (nonlinear_arith);
        }
        i += 1;
    }
    proof {
        lemma_letter_count_exact(cell_ref@, i as int);
    }
    index
}

/// The column number of a cell reference's leading letters (`column_index_from_cell_ref`),
/// `None` where that number is 0.
pub fn column_index_from_cell_ref(cell_ref: &[char]) -> (r: Option<u32>)
    ensures
        match r {
            Some(v) => v as nat == ref_column(cell_ref@) && v != 0,
            None => ref_column(cell_ref@) == 0,
        },
{
    let index = cell_col_index(cell_ref);
    if index == 0 {
        None
    } else {
        Some(index)
    }
}

/// The letters of column number `n` (1 = A, 27 = AA); empty for 0.
pub open spec fn column_letters(n: nat) -> Seq<char>
    decreases n,
{
    if n == 0 {
        Seq::empty()
    } else {
        column_letters(((n - 1) / 26) as nat).push((65 + (n - 1) % 26) as char)
    }
}

/// The letters of column number `index` (`column_name`).
pub fn column_name(index: u32) -> (r: Vec<char>)
    ensures
        r@ == column_letters(index as nat),
    decreases index,
{
    if index == 0 {
        return Vec::new();
    }
    let rest = (index - 1) / 26;
    let mut r = column_name(rest);
    r.push(((65 + (index - 1) % 26) as u8) as char);
    r
}

proof fn lemma_column_letters_alpha(n: nat)
    ensures
        forall|k: int| 0 <= k < column_letters(n).len() ==> is_ascii_alpha(#[trigger] column_letters(n)[k])
            && 'A' <= column_letters(n)[k] <= 'Z',
        column_letters(n).len() <= n,
    decreases n,
{
    if n > 0 {
        lemma_column_letters_alpha(((n - 1) / 26) as nat);
    }
}

proof fn lemma_column_letters_value(n: nat)
    requires
        n <= u32::MAX,
    ensures
        letters_value(column_letters(n)) == n,
    decreases n,
{
    if n > 0 {
        let m = ((n - 1) / 26) as nat;
        lemma_column_letters_value(m);
        let s = column_letters(n);
        let c = (65 + (n - 1) % 26) as char;
        assert(s.drop_last() == column_letters(m));
        assert(s.last() == c);
        assert(ascii_upper(c) as int == 65 + (n - 1) % 26);
        assert(m * 26 + (n - 1) % 26 + 1 == n);
    }
}

/// The letters of a column in lower case.
pub open spec fn lower_letters(s: Seq<char>) -> Seq<char> {
    s.map_values(|c: char| ascii_lower(c))
}

proof fn lemma_lower_letters_value(s: Seq<char>)
    requires
        forall|k: int| 0 <= k < s.len() ==> 'A' <= #[trigger] s[k] <= 'Z',
    ensures
        letters_value(lower_letters(s)) == letters_value(s),
        forall|k: int| 0 <= k < s.len() ==> is_ascii_alpha(#[trigger] lower_letters(s)[k]),
        lower_letters(s).len() == s.len(),
    decreases s.len(),
{
    let l = lower_letters(s);
    assert forall|k: int| 0 <= k < s.len() implies is_ascii_alpha(#[trigger] l[k]) by {
        assert('A' <= s[k] <= 'Z');
        assert((s[k] as int) + 32 <= 'z' as int);
    }
    if s.len() > 0 {
        assert(l.drop_last() =~= lower_letters(s.drop_last()));
        lemma_lower_letters_value(s.drop_last());
        let c = s.last();
        assert('A' <= c <= 'Z');
        assert(l.last() == ascii_lower(c));
        assert(ascii_upper(ascii_lower(c)) == c);
    }
}

/// A cell reference made of a column's letters, in upper or lower case, and then text that
/// does not start with a letter (such as the row number) has that column; a reference that
/// does not start with a letter has none (column 0).
pub proof fn law_cell_ref_column(n: u32, rest: Seq<char>)
    requires
        rest.len() > 0 ==> !is_ascii_alpha(rest[0]),
    ensures
        ref_column(column_letters(n as nat) + rest) == n,
        ref_column(lower_letters(column_letters(n as nat)) + rest) == n,
        ref_column(rest) == 0,
{
    let s = column_letters(n as nat);
    lemma_column_letters_alpha(n as nat);
    lemma_column_letters_value(n as nat);
    lemma_lower_letters_value(s);
    let l = lower_letters(s);
    let a = s + rest;
    let b = l + rest;
    assert forall|k: int| 0 <= k < s.len() implies is_ascii_alpha(#[trigger] a[k]) by {
        assert(a[k] == s[k]);
    }
    if s.len() < a.len() {
        assert(a[s.len() as int] == rest[0]);
    }
    lemma_letter_count_exact(a, s.len() as int);
    assert(a.take(s.len() as int) =~= s);
    assert forall|k: int| 0 <= k < l.len() implies is_ascii_alpha(#[trigger] b[k]) by {
        assert(b[k] == l[k]);
    }
    if l.len() < b.len() {
        assert(b[l.len() as int] == rest[0]);
    }
    lemma_letter_count_exact(b, l.len() as int);
    assert(b.take(l.len() as int) =~= l);
    lemma_letter_count_exact(rest, 0);
    assert(rest.take(0) =~= Seq::<char>::empty());
}


/// A label with everything but ASCII letters and digits dropped, lower-cased.
pub open spec fn normalized_label(value: Seq<char>) -> Seq<char> {
    value.filter(|c: char| is_ascii_alnum(c)).map_values(|c: char| ascii_lower(c))
}

/// The label as header matching compares it (`normalize_label`).
pub fn normalize_label(value: &[char]) -> (r: Vec<char>)
    ensures
        r@ == normalized_label(value@),
{
    let mut r: Vec<char> = Vec::new();
    let mut i: usize = 0;
    while i < value.len()
        invariant
            i <= value@.len(),
            r@ == normalized_label(value@.take(i as int)),
        decreases value.len() - i,
    {
        proof {
            reveal_with_fuel(Seq::<_>::filter, 1);
            assert(value@.take(i + 1).drop_last() == value@.take(i as int));
        }
        let c = value[i];
        if is_ascii_alnum_exec(c) {
            r.push(ascii_lower_exec(c));
            assert(r@ =~= normalized_label(value@.take(i + 1)));
        } else {
            assert(r@ =~= normalized_label(value@.take(i + 1)));
        }
        i += 1;
    }
    assert(value@.take(value@.len() as int) == value@);
    r
}

} // verus!
