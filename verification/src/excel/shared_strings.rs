//! The workbook's shared-string table (`xl/sharedStrings.xml`).
use vstd::prelude::*;
use crate::decimal::{decimal_text, parse_unsigned, parse_unsigned_exec, u64_text};
use crate::text::{
    append_chars, chars_of, find_first, find_from, find_from_exec, find_last, find_last_exec,
    lemma_find_from, lemma_rfind_upto, splice, splice_exec, slice_chars, string_of, texts_of,
};
use super::error::{ExcelError, Failure};
use super::xml::{escape_xml, escaped, unescape_xml, unescaped};

verus! {

/// The value of the first `attr="..."` in `xml` read as a `usize`: missing, unterminated or
/// unreadable values are errors (`read_usize_attr`).
pub open spec fn usize_attr(xml: Seq<char>, attr: Seq<char>) -> Option<nat> {
    let prefix = attr + "=\""@;
    match find_first(xml, prefix) {
        Some(m) => match find_from(xml, "\""@, m + prefix.len()) {
            Some(end) => parse_unsigned(xml.subrange(m + prefix.len(), end), usize::MAX as nat),
            None => None,
        },
        None => None,
    }
}

/// Why attribute `attr` cannot be read: it is missing, it has no closing quote, or its value
/// is not a number.
pub open spec fn attr_failure(xml: Seq<char>, attr: Seq<char>) -> Failure {
    let prefix = attr + "=\""@;
    match find_first(xml, prefix) {
        None => Failure::MissingAttribute(attr),
        Some(m) => match find_from(xml, "\""@, m + prefix.len()) {
            None => Failure::MalformedAttribute(attr),
            Some(_) => Failure::InvalidAttribute(attr),
        },
    }
}

/// Reads the number in attribute `attr` of the shared-string table.
pub fn read_usize_attr(xml: &[char], attr: &str) -> (r: Result<usize, ExcelError>)
    ensures
        match r {
            Ok(v) => usize_attr(xml@, attr@) == Some(v as nat),
            Err(e) => usize_attr(xml@, attr@) is None && e@ == attr_failure(xml@, attr@),
        },
{
    let n = xml.len();
    let mut prefix = chars_of(attr);
    append_chars(&mut prefix, &chars_of("=\""));
    let m = match find_from_exec(xml, &prefix, 0) {
        Some(m) => m,
        None => return Err(ExcelError::MissingAttribute(String::from_str(attr))),
    };
    proof { lemma_find_from(xml@, prefix@, 0); }
    let start = m + prefix.len();
    let end = match find_from_exec(xml, &chars_of("\""), start) {
        Some(e) => e,
        None => return Err(ExcelError::MalformedAttribute(String::from_str(attr))),
    };
    proof { lemma_find_from(xml@, "\""@, start as int); }
    let text = slice_chars(xml, start, end);
    match parse_unsigned_exec(&text, usize::MAX as u64) {
        Some(v) => Ok(v as usize),
        None => Err(ExcelError::InvalidAttribute(String::from_str(attr))),
    }
}

/// `xml` with the value of its first `attr="..."` replaced by `value`; unchanged where the
/// attribute is missing or unterminated (`replace_attr`).
pub open spec fn with_attr(xml: Seq<char>, attr: Seq<char>, value: nat) -> Seq<char> {
    let prefix = attr + "=\""@;
    match find_first(xml, prefix) {
        Some(m) => match find_from(xml, "\""@, m + prefix.len()) {
            Some(end) => splice(xml, m + prefix.len(), end, decimal_text(value as int)),
            None => xml,
        },
        None => xml,
    }
}

/// Writes `value` into attribute `attr`.
pub fn replace_attr(xml: &[char], attr: &str, value: usize) -> (r: Vec<char>)
    ensures
        r@ == with_attr(xml@, attr@, value as nat),
{
    let n = xml.len();
    let mut prefix = chars_of(attr);
    append_chars(&mut prefix, &chars_of("=\""));
    let m = match find_from_exec(xml, &prefix, 0) {
        Some(m) => m,
        None => return slice_chars(xml, 0, n),
    };
    proof { lemma_find_from(xml@, prefix@, 0); }
    let start = m + prefix.len();
    let end = match find_from_exec(xml, &chars_of("\""), start) {
        Some(e) => e,
        None => {
            assert(xml@.subrange(0, n as int) == xml@);
            return slice_chars(xml, 0, n);
        },
    };
    proof { lemma_find_from(xml@, "\""@, start as int); }
    splice_exec(xml, start, end, &u64_text(value as u64))
}

/// The visible text of one `<si>` item from `off` on: the unescaped contents of each
/// `<t ...>...</t>` run, concatenated.
pub open spec fn si_text_from(si: Seq<char>, off: int) -> Seq<char>
    decreases si.len() + 1 - off,
{
    if off < 0 || off > si.len() {
        Seq::empty()
    } else {
        match find_from(si, "<t"@, off) {
            None => Seq::empty(),
            Some(ts) => match find_from(si, ">"@, ts) {
                None => Seq::empty(),
                Some(gt) => match find_from(si, "</t>"@, gt + 1) {
                    None => Seq::empty(),
                    Some(ce) => {
                        proof {
                            reveal_strlit("</t>");
                            lemma_find_from(si, "<t"@, off);
                            lemma_find_from(si, ">"@, ts);
                            lemma_find_from(si, "</t>"@, gt + 1);
                        }
                        unescaped(si.subrange(gt + 1, ce)) + si_text_from(si, ce + 4)
                    },
                },
            },
        }
    }
}

/// The texts of the `<si>` items of a shared-string table from `off` on.
pub open spec fn si_values_from(xml: Seq<char>, off: int) -> Seq<Seq<char>>
    decreases xml.len() + 1 - off,
{
    if off < 0 || off > xml.len() {
        Seq::empty()
    } else {
        match find_from(xml, "<si"@, off) {
            None => Seq::empty(),
            Some(ss) => match find_from(xml, "</si>"@, ss) {
                None => Seq::empty(),
                Some(e) => {
                    proof {
                        reveal_strlit("</si>");
                        lemma_find_from(xml, "<si"@, off);
                        lemma_find_from(xml, "</si>"@, ss);
                    }
                    seq![si_text_from(xml.subrange(ss, e + 5), 0)] + si_values_from(xml, e + 5)
                },
            },
        }
    }
}

/// The text of each `<si>` item of a shared-string table.
pub open spec fn shared_string_values(xml: Seq<char>) -> Seq<Seq<char>> {
    si_values_from(xml, 0)
}

fn si_text(si: &[char]) -> (r: Vec<char>)
    ensures
        r@ == si_text_from(si@, 0),
{
    let n = si.len();
    let open = chars_of("<t");
    let gt = chars_of(">");
    let close = chars_of("</t>");
    let mut value: Vec<char> = Vec::new();
    let mut off: usize = 0;
    while off <= n
        invariant
            n == si@.len(),
            off <= n + 1,
            open@ == "<t"@,
            gt@ == ">"@,
            close@ == "</t>"@,
            si_text_from(si@, 0) == value@ + si_text_from(si@, off as int),
        decreases n + 1 - off,
    {
        proof {
            reveal_strlit("</t>");
            reveal_strlit(">");
        }
        let ts = match find_from_exec(si, &open, off) {
            Some(t) => t,
            None => return value,
        };
        proof { lemma_find_from(si@, "<t"@, off as int); }
        let g = match find_from_exec(si, &gt, ts) {
            Some(g) => g,
            None => return value,
        };
        proof { lemma_find_from(si@, ">"@, ts as int); }
        let content_start = g + 1;
        let ce = match find_from_exec(si, &close, content_start) {
            Some(c) => c,
            None => return value,
        };
        proof { lemma_find_from(si@, "</t>"@, content_start as int); }
        let ghost before = value@;
        let text = unescape_xml(&slice_chars(si, content_start, ce));
        append_chars(&mut value, &text);
        off = ce + 4;
        assert(value@ + si_text_from(si@, off as int) == before + (text@ + si_text_from(si@, off as int)));
    }
    value
}

/// The text of each `<si>` item of a shared-string table (`parse_shared_string_values`).
pub fn parse_shared_string_values(xml: &[char]) -> (r: Vec<String>)
    ensures
        texts_of(r@) == shared_string_values(xml@),
{
    let n = xml.len();
    let open = chars_of("<si");
    let close = chars_of("</si>");
    let mut values: Vec<String> = Vec::new();
    let mut off: usize = 0;
    while off <= n
        invariant
            n == xml@.len(),
            off <= n + 1,
            open@ == "<si"@,
            close@ == "</si>"@,
            shared_string_values(xml@) == texts_of(values@) + si_values_from(xml@, off as int),
        decreases n + 1 - off,
    {
        proof { reveal_strlit("</si>"); }
        let ss = match find_from_exec(xml, &open, off) {
            Some(s) => s,
            None => {
                assert(si_values_from(xml@, off as int) =~= Seq::<Seq<char>>::empty());
                assert(texts_of(values@) + Seq::<Seq<char>>::empty() =~= texts_of(values@));
                return values;
            },
        };
        proof { lemma_find_from(xml@, "<si"@, off as int); }
        let e = match find_from_exec(xml, &close, ss) {
            Some(e) => e,
            None => {
                assert(texts_of(values@) + Seq::<Seq<char>>::empty() =~= texts_of(values@));
                return values;
            },
        };
        proof { lemma_find_from(xml@, "</si>"@, ss as int); }
        let si_end = e + 5;
        let text = si_text(&slice_chars(xml, ss, si_end));
        let ghost before = texts_of(values@);
        values.push(string_of(&text));
        assert(texts_of(values@) =~= before.push(text@));
        off = si_end;
        assert(texts_of(values@) + si_values_from(xml@, off as int) =~= before + (seq![text@] + si_values_from(xml@, off as int)));
    }
    assert(si_values_from(xml@, off as int) =~= Seq::<Seq<char>>::empty());
    assert(texts_of(values@) + Seq::<Seq<char>>::empty() =~= texts_of(values@));
    values
}

/// The shared-string table being extended: its XML, its `count` and `uniqueCount`, and the
/// text of each item.
pub struct SharedStrings {
    pub xml: Vec<char>,
    pub count: usize,
    pub unique_count: usize,
    pub values: Vec<String>,
}

/// The item written for a new shared string.
pub open spec fn si_item(value: Seq<char>) -> Seq<char> {
    "<si><t>"@ + escaped(value) + "</t></si>"@
}

/// `x + 1`, wrapping at the top of `usize` as release builds do.
pub open spec fn wrapping_succ(x: usize) -> usize {
    if x == usize::MAX { 0 } else { (x + 1) as usize }
}

/// The contents of a shared-string table: its XML, its counts and the text of each item.
pub struct StringsView {
    pub xml: Seq<char>,
    pub count: usize,
    pub unique_count: usize,
    pub values: Seq<Seq<char>>,
}

impl View for SharedStrings {
    type V = StringsView;

    open spec fn view(&self) -> StringsView {
        StringsView { xml: self.xml@, count: self.count, unique_count: self.unique_count, values: texts_of(self.values@) }
    }
}

/// The table after one `push` of `value`: the item goes in just before the last `</sst>`.
pub open spec fn pushed(s: StringsView, value: Seq<char>) -> StringsView {
    let at = find_last(s.xml, "</sst>"@)->0;
    StringsView {
        xml: splice(s.xml, at, at, si_item(value)),
        count: wrapping_succ(s.count),
        unique_count: wrapping_succ(s.unique_count),
        values: s.values.push(value),
    }
}

/// The table after pushing each of `values` in order.
pub open spec fn pushed_all(s: StringsView, values: Seq<Seq<char>>) -> StringsView
    decreases values.len(),
{
    if values.len() == 0 {
        s
    } else {
        pushed(pushed_all(s, values.drop_last()), values.last())
    }
}

/// The `k`-th index counted from `first`, wrapping at the top of `usize` as release builds do.
pub open spec fn nth_index(first: usize, k: int) -> usize {
    ((first + k) % (usize::MAX + 1)) as usize
}

proof fn lemma_nth_index_succ(first: usize, k: int)
    requires
        0 <= k,
    ensures
        wrapping_succ(nth_index(first, k)) == nth_index(first, k + 1),
{
    let m = usize::MAX + 1;
    let r = (first + k) % m;
    assert((first + k + 1) % m == if r == m - 1 { 0 } else { r + 1 }) by (nonlinear_arith)
        requires
            r == (first + k) % m,
            m > 1,
            first + k >= 0,
    ;
}

/// Counting `a` then `b` on from `first` is counting `a + b`.
pub proof fn lemma_nth_index_add(first: usize, a: int, b: int)
    requires
        0 <= a,
        0 <= b < 4,
    ensures
        nth_index(nth_index(first, a), b) == nth_index(first, a + b),
{
    let m = usize::MAX + 1;
    vstd::arithmetic::div_mod::lemma_add_mod_noop(first + a, b, m);
    vstd::arithmetic::div_mod::lemma_small_mod(b as nat, m as nat);
    vstd::arithmetic::div_mod::lemma_mod_bound(first + a, m);
}

/// Pushing values one after another counts them, and appends their texts in order.
pub proof fn lemma_pushed_all(s: StringsView, values: Seq<Seq<char>>)
    ensures
        pushed_all(s, values).unique_count == nth_index(s.unique_count, values.len() as int),
        pushed_all(s, values).count == nth_index(s.count, values.len() as int),
        pushed_all(s, values).values == s.values + values,
    decreases values.len(),
{
    if values.len() == 0 {
        assert(s.values + values =~= s.values);
        assert((s.unique_count + 0) % (usize::MAX + 1) == s.unique_count);
        assert((s.count + 0) % (usize::MAX + 1) == s.count);
    } else {
        lemma_pushed_all(s, values.drop_last());
        lemma_nth_index_succ(s.unique_count, values.len() - 1);
        lemma_nth_index_succ(s.count, values.len() - 1);
        assert(s.values + values.drop_last() + seq![values.last()] =~= s.values + values);
    }
}

/// Pushing `a` and then `b` is pushing `a + b`.
pub proof fn lemma_pushed_all_append(s: StringsView, a: Seq<Seq<char>>, b: Seq<Seq<char>>)
    ensures
        pushed_all(s, a + b) == pushed_all(pushed_all(s, a), b),
    decreases b.len(),
{
    if b.len() == 0 {
        assert(a + b =~= a);
    } else {
        assert((a + b).drop_last() =~= a + b.drop_last());
        assert((a + b).last() == b.last());
        lemma_pushed_all_append(s, a, b.drop_last());
    }
}

impl SharedStrings {
    /// The table can take new items: it has a closing `</sst>`.
    pub open spec fn wf(&self) -> bool {
        find_last(self.xml@, "</sst>"@) is Some
    }

    /// Reads a table: its `count` and `uniqueCount` attributes and its items.
    pub fn new(xml: String) -> (r: Result<SharedStrings, ExcelError>)
        ensures
            match r {
                Ok(s) => s.xml@ == xml@ && usize_attr(xml@, "count"@) == Some(s.count as nat)
                    && usize_attr(xml@, "uniqueCount"@) == Some(s.unique_count as nat)
                    && texts_of(s.values@) == shared_string_values(xml@),
                Err(e) => if usize_attr(xml@, "count"@) is None {
                    e@ == attr_failure(xml@, "count"@)
                } else {
                    usize_attr(xml@, "uniqueCount"@) is None && e@ == attr_failure(xml@, "uniqueCount"@)
                },
            },
    {
        let chars = chars_of(xml.as_str());
        let count = match read_usize_attr(&chars, "count") {
            Ok(c) => c,
            Err(e) => return Err(e),
        };
        let unique_count = match read_usize_attr(&chars, "uniqueCount") {
            Ok(c) => c,
            Err(e) => return Err(e),
        };
        let values = parse_shared_string_values(&chars);
        Ok(SharedStrings { xml: chars, count, unique_count, values })
    }

    /// Whether the table can take new items (it has a closing `</sst>`).
    pub fn can_take_items(&self) -> (r: bool)
        ensures
            r == self.wf(),
    {
        find_last_exec(&self.xml, &chars_of("</sst>")).is_some()
    }

    /// The text of each item.
    pub fn values(&self) -> (r: &Vec<String>)
        ensures
            r == &self.values,
    {
        &self.values
    }

    /// Appends `value` as a new item just before `</sst>`, counts it, and gives the index it
    /// is referred to by: the `uniqueCount` before the call.
    pub fn push(&mut self, value: &str) -> (r: usize)
        requires
            old(self).wf(),
        ensures
            final(self).wf(),
            final(self)@ == pushed(old(self)@, value@),
            r == old(self).unique_count,
            final(self).xml@ == splice(old(self).xml@, find_last(old(self).xml@, "</sst>"@)->0,
                find_last(old(self).xml@, "</sst>"@)->0, si_item(value@)),
            final(self).count == wrapping_succ(old(self).count),
            final(self).unique_count == wrapping_succ(old(self).unique_count),
            texts_of(final(self).values@) == texts_of(old(self).values@).push(value@),
    {
        let index = self.unique_count;
        let mut item = chars_of("<si><t>");
        append_chars(&mut item, &escape_xml(&chars_of(value)));
        append_chars(&mut item, &chars_of("</t></si>"));
        let close = chars_of("</sst>");
        let insert_at = match find_last_exec(&self.xml, &close) {
            Some(k) => k,
            None => 0,
        };
        proof {
            reveal_strlit("</sst>");
            lemma_rfind_upto(self.xml@, close@, self.xml@.len() - close@.len());
        }
        let ghost old_xml = self.xml@;
        self.xml = splice_exec(&self.xml, insert_at, insert_at, &item);
        proof {
            let k = insert_at as int;
            let new_xml = self.xml@;
            assert(new_xml.subrange(k + item@.len(), k + item@.len() + 6) == old_xml.subrange(k, k + 6));
            lemma_rfind_upto(new_xml, "</sst>"@, new_xml.len() - 6);
            if find_last(new_xml, "</sst>"@) is None {
                assert(crate::text::matches_at(new_xml, "</sst>"@, k + item@.len()));
            }
        }
        self.count = self.count.wrapping_add(1);
        self.unique_count = self.unique_count.wrapping_add(1);
        let ghost old_values = texts_of(self.values@);
        self.values.push(String::from_str(value));
        assert(texts_of(self.values@) =~= old_values.push(value@));
        index
    }

    /// The table's XML with `count` and `uniqueCount` brought up to date (`into_xml`).
    pub fn into_xml(self) -> (r: String)
        ensures
            r@ == with_attr(with_attr(self.xml@, "count"@, self.count as nat), "uniqueCount"@, self.unique_count as nat),
    {
        let first = replace_attr(&self.xml, "count", self.count);
        string_of(&replace_attr(&first, "uniqueCount", self.unique_count))
    }
}

/// Looking up the index that `push` gives returns the pushed text, where `uniqueCount`
/// matched the number of items before the push.
pub proof fn law_push_then_lookup(before: SharedStrings, after: SharedStrings, value: Seq<char>, index: usize)
    requires
        before.unique_count as nat == before.values@.len(),
        index == before.unique_count,
        texts_of(after.values@) == texts_of(before.values@).push(value),
        after.unique_count == wrapping_succ(before.unique_count),
        before.values@.len() < usize::MAX,
    ensures
        after.values@[index as int]@ == value,
        after.unique_count as nat == after.values@.len(),
{
    assert(texts_of(after.values@)[index as int] == value);
    assert(texts_of(after.values@).len() == after.values@.len());
}

} // verus!
