//! Character-level text utilities: searching, splicing, decimal numbers.
use vstd::prelude::*;

verus! {

/// `p` occurs in `s` starting at index `i`.
pub open spec fn matches_at(s: Seq<char>, p: Seq<char>, i: int) -> bool {
    0 <= i && i + p.len() <= s.len() && s.subrange(i, i + p.len()) == p
}

/// The first index `k >= i` at which `p` occurs in `s`.
pub open spec fn find_from(s: Seq<char>, p: Seq<char>, i: int) -> Option<int>
    decreases s.len() + 1 - i,
{
    if i < 0 || i + p.len() > s.len() {
        None
    } else if matches_at(s, p, i) {
        Some(i)
    } else {
        find_from(s, p, i + 1)
    }
}

/// The first index at which `p` occurs in `s` (`str::find`).
pub open spec fn find_first(s: Seq<char>, p: Seq<char>) -> Option<int> {
    find_from(s, p, 0)
}

/// The last index `k <= i` at which `p` occurs in `s`.
pub open spec fn rfind_upto(s: Seq<char>, p: Seq<char>, i: int) -> Option<int>
    decreases i + 1,
{
    if i < 0 {
        None
    } else if matches_at(s, p, i) {
        Some(i)
    } else {
        rfind_upto(s, p, i - 1)
    }
}

/// The last index at which `p` occurs in `s` (`str::rfind`).
pub open spec fn find_last(s: Seq<char>, p: Seq<char>) -> Option<int> {
    rfind_upto(s, p, s.len() - p.len())
}

/// `s` begins with `p`.
pub open spec fn starts_with(s: Seq<char>, p: Seq<char>) -> bool {
    p.len() <= s.len() && s.take(p.len() as int) == p
}

/// `s` with the characters in `[a, b)` replaced by `t` (`String::replace_range`).
pub open spec fn splice(s: Seq<char>, a: int, b: int, t: Seq<char>) -> Seq<char> {
    s.take(a) + t + s.skip(b)
}

/// `find_from` gives the first match at or after `i`, or says there is none.
pub proof fn lemma_find_from(s: Seq<char>, p: Seq<char>, i: int)
    requires
        0 <= i,
    ensures
        match find_from(s, p, i) {
            Some(k) => i <= k && matches_at(s, p, k) && forall|j: int|
                i <= j < k ==> !matches_at(s, p, j),
            None => forall|j: int| i <= j ==> !matches_at(s, p, j),
        },
    decreases s.len() + 1 - i,
{
    if i + p.len() > s.len() {
    } else if matches_at(s, p, i) {
    } else {
        lemma_find_from(s, p, i + 1);
    }
}

/// A match at `k` with none in `[i, k)` is what `find_from` gives from `i`.
pub proof fn lemma_find_from_at(s: Seq<char>, p: Seq<char>, i: int, k: int)
    requires
        0 <= i <= k,
        matches_at(s, p, k),
        forall|j: int| i <= j < k ==> !matches_at(s, p, j),
    ensures
        find_from(s, p, i) == Some(k),
{
    lemma_find_from(s, p, i);
    match find_from(s, p, i) {
        Some(f) => {
            if f > k {
                assert(!matches_at(s, p, k));
            }
        },
        None => {
            assert(!matches_at(s, p, k));
        },
    }
}

/// Where `b` has a match at `j + d` exactly where `a` has one at `j`, for every `j >= i`,
/// searching `b` from `i + d` finds `a`'s first match from `i`, moved by `d`.
pub proof fn lemma_find_from_shift(a: Seq<char>, b: Seq<char>, p: Seq<char>, i: int, d: int)
    requires
        0 <= i,
        0 <= i + d,
        forall|j: int| i <= j ==> #[trigger] matches_at(a, p, j) == matches_at(b, p, j + d),
    ensures
        find_from(b, p, i + d) == match find_from(a, p, i) {
            Some(k) => Some(k + d),
            None => None::<int>,
        },
{
    lemma_find_from(a, p, i);
    lemma_find_from(b, p, i + d);
    match find_from(a, p, i) {
        Some(k) => {
            assert(matches_at(a, p, k));
            assert forall|j: int| i + d <= j < k + d implies !matches_at(b, p, j) by {
                assert(!matches_at(a, p, j - d));
            }
            lemma_find_from_at(b, p, i + d, k + d);
        },
        None => {
            if let Some(k) = find_from(b, p, i + d) {
                assert(!matches_at(a, p, k - d));
            }
        },
    }
}

/// Where `a` and `b` agree on the matches that start at or after `i` and end by `bound`,
/// searching both from `i` gives the same first match ending by `bound`, if either has one.
pub proof fn lemma_find_from_agree(a: Seq<char>, b: Seq<char>, p: Seq<char>, i: int, bound: int)
    requires
        0 <= i,
        forall|j: int| i <= j && j + p.len() <= bound ==> #[trigger] matches_at(a, p, j) == matches_at(b, p, j),
    ensures
        (find_from(a, p, i) matches Some(k) && k + p.len() <= bound) ==> find_from(b, p, i) == find_from(a, p, i),
        (find_from(b, p, i) matches Some(k) && k + p.len() <= bound) ==> find_from(b, p, i) == find_from(a, p, i),
{
    lemma_find_from(a, p, i);
    lemma_find_from(b, p, i);
    if let Some(k) = find_from(a, p, i) {
        if k + p.len() <= bound {
            assert(matches_at(a, p, k));
            assert forall|j: int| i <= j < k implies !matches_at(b, p, j) by {
                assert(!matches_at(a, p, j));
            }
            lemma_find_from_at(b, p, i, k);
        }
    }
    if let Some(k) = find_from(b, p, i) {
        if k + p.len() <= bound {
            assert(matches_at(b, p, k));
            assert(matches_at(a, p, k));
            assert forall|j: int| i <= j < k implies !matches_at(a, p, j) by {
                assert(!matches_at(b, p, j));
            }
            lemma_find_from_at(a, p, i, k);
        }
    }
}

/// `rfind_upto` gives the last match at or before `i`, or says there is none.
pub proof fn lemma_rfind_upto(s: Seq<char>, p: Seq<char>, i: int)
    ensures
        match rfind_upto(s, p, i) {
            Some(k) => 0 <= k <= i && matches_at(s, p, k) && forall|j: int|
                k < j <= i ==> !matches_at(s, p, j),
            None => forall|j: int| j <= i ==> !matches_at(s, p, j),
        },
    decreases i + 1,
{
    if i < 0 {
    } else if matches_at(s, p, i) {
    } else {
        lemma_rfind_upto(s, p, i - 1);
    }
}

/// Does `p` occur in `s` at index `i`?
pub fn matches_at_exec(s: &[char], p: &[char], i: usize) -> (r: bool)
    ensures
        r == matches_at(s@, p@, i as int),
{
    let n = s.len();
    if i > n || p.len() > n - i {
        return false;
    }
    let mut j: usize = 0;
    while j < p.len()
        invariant
            n == s@.len(),
            i + p@.len() <= n,
            j <= p@.len(),
            forall|k: int| 0 <= k < j ==> s@[i + k] == p@[k],
        decreases p.len() - j,
    {
        if s[i + j] != p[j] {
            assert(s@.subrange(i as int, i + p@.len())[j as int] != p@[j as int]);
            return false;
        }
        j += 1;
    }
    assert(s@.subrange(i as int, i + p@.len()) =~= p@);
    true
}

/// The first occurrence of `p` in `s` at or after `start`.
pub fn find_from_exec(s: &[char], p: &[char], start: usize) -> (r: Option<usize>)
    ensures
        match r {
            Some(k) => find_from(s@, p@, start as int) == Some(k as int),
            None => find_from(s@, p@, start as int) is None,
        },
{
    let n = s.len();
    if start > n || p.len() > n - start {
        return None;
    }
    let mut i = start;
    while i <= n - p.len()
        invariant
            n == s@.len(),
            start <= i,
            p@.len() <= s@.len(),
            i <= s@.len() - p@.len() + 1,
            find_from(s@, p@, start as int) == find_from(s@, p@, i as int),
        decreases n - p.len() + 1 - i,
    {
        if matches_at_exec(s, p, i) {
            return Some(i);
        }
        if i == n - p.len() {
            assert(find_from(s@, p@, i + 1) is None);
            return None;
        }
        i += 1;
    }
    None
}

/// The last occurrence of `p` in `s`.
pub fn find_last_exec(s: &[char], p: &[char]) -> (r: Option<usize>)
    ensures
        match r {
            Some(k) => find_last(s@, p@) == Some(k as int),
            None => find_last(s@, p@) is None,
        },
{
    let n = s.len();
    if p.len() > n {
        return None;
    }
    let mut i = n - p.len();
    if matches_at_exec(s, p, i) {
        return Some(i);
    }
    while i > 0
        invariant
            p@.len() <= s@.len(),
            i <= s@.len() - p@.len(),
            find_last(s@, p@) == rfind_upto(s@, p@, i - 1),
        decreases i,
    {
        if matches_at_exec(s, p, i - 1) {
            return Some(i - 1);
        }
        i -= 1;
    }
    None
}

/// Does `s` begin with `p`?
pub fn starts_with_exec(s: &[char], p: &[char]) -> (r: bool)
    ensures
        r == starts_with(s@, p@),
{
    let r = matches_at_exec(s, p, 0);
    proof {
        if p@.len() <= s@.len() {
            assert(s@.subrange(0, p@.len() as int) == s@.take(p@.len() as int));
        }
    }
    r
}

/// The characters `s[a..b]`.
pub fn slice_chars(s: &[char], a: usize, b: usize) -> (r: Vec<char>)
    requires
        a <= b <= s@.len(),
    ensures
        r@ == s@.subrange(a as int, b as int),
{
    let mut r: Vec<char> = Vec::new();
    let mut i = a;
    while i < b
        invariant
            a <= i <= b <= s@.len(),
            r@ == s@.subrange(a as int, i as int),
        decreases b - i,
    {
        r.push(s[i]);
        assert(s@.subrange(a as int, i + 1) == s@.subrange(a as int, i as int).push(s@[i as int]));
        i += 1;
    }
    r
}

/// Appends all of `t` to `v`.
pub fn append_chars(v: &mut Vec<char>, t: &[char])
    ensures
        final(v)@ == old(v)@ + t@,
{
    let mut i: usize = 0;
    while i < t.len()
        invariant
            i <= t@.len(),
            v@ == old(v)@ + t@.take(i as int),
        decreases t.len() - i,
    {
        v.push(t[i]);
        assert(t@.take(i + 1) == t@.take(i as int).push(t@[i as int]));
        i += 1;
    }
    assert(t@.take(t@.len() as int) == t@);
}

/// `s` with `[a, b)` replaced by `t`.
pub fn splice_exec(s: &[char], a: usize, b: usize, t: &[char]) -> (r: Vec<char>)
    requires
        a <= b <= s@.len(),
    ensures
        r@ == splice(s@, a as int, b as int, t@),
{
    let mut r = slice_chars(s, 0, a);
    append_chars(&mut r, t);
    let rest = slice_chars(s, b, s.len());
    append_chars(&mut r, &rest);
    assert(s@.subrange(0, a as int) == s@.take(a as int));
    assert(s@.subrange(b as int, s@.len() as int) == s@.skip(b as int));
    r
}

/// Appends one character to a string (`String::push`).
#[verifier::external_body]
pub(crate) fn push_char(s: &mut String, c: char)
    ensures
        final(s)@ == old(s)@.push(c),
{
    s.push(c);
}

/// The characters of `s`, in order.
pub fn chars_of(s: &str) -> (v: Vec<char>)
    ensures
        v@ == s@,
{
    let mut v: Vec<char> = Vec::new();
    for c in it: s.chars()
        invariant
            v@ == it.seq().take(it.index() as int),
    {
        v.push(c);
    }
    v
}

/// The string whose characters are `v`.
pub fn string_of(v: &[char]) -> (s: String)
    ensures
        s@ == v@,
{
    let mut s = String::new();
    let mut i: usize = 0;
    while i < v.len()
        invariant
            i <= v@.len(),
            s@ == v@.take(i as int),
        decreases v.len() - i,
    {
        push_char(&mut s, v[i]);
        assert(v@.take(i + 1) == v@.take(i as int).push(v@[i as int]));
        i += 1;
    }
    assert(v@.take(v@.len() as int) == v@);
    s
}

/// Are the character sequences `a` and `b` equal?
pub fn chars_eq(a: &[char], b: &[char]) -> (r: bool)
    ensures
        r == (a@ == b@),
{
    if a.len() != b.len() {
        return false;
    }
    let r = matches_at_exec(a, b, 0);
    proof {
        if r {
            assert(a@.subrange(0, b@.len() as int) == a@);
        } else {
            assert(a@.subrange(0, b@.len() as int) == a@);
        }
    }
    r
}

/// Are the texts `a` and `b` equal?
pub fn text_eq(a: &str, b: &str) -> (r: bool)
    ensures
        r == (a@ == b@),
{
    let x = chars_of(a);
    let y = chars_of(b);
    chars_eq(&x, &y)
}

/// `c` is an ASCII letter.
pub open spec fn is_ascii_alpha(c: char) -> bool {
    ('a' <= c && c <= 'z') || ('A' <= c && c <= 'Z')
}

/// `c` is an ASCII letter or digit.
pub open spec fn is_ascii_alnum(c: char) -> bool {
    is_ascii_alpha(c) || ('0' <= c && c <= '9')
}

/// `c` with ASCII lower-case letters made upper-case.
pub open spec fn ascii_upper(c: char) -> char {
    if 'a' <= c && c <= 'z' { ((c as int) - 32) as char } else { c }
}

/// `c` with ASCII upper-case letters made lower-case.
pub open spec fn ascii_lower(c: char) -> char {
    if 'A' <= c && c <= 'Z' { ((c as int) + 32) as char } else { c }
}

/// Is `c` an ASCII letter?
pub fn is_ascii_alpha_exec(c: char) -> (r: bool)
    ensures
        r == is_ascii_alpha(c),
{
    ('a' <= c && c <= 'z') || ('A' <= c && c <= 'Z')
}

/// Is `c` an ASCII letter or digit?
pub fn is_ascii_alnum_exec(c: char) -> (r: bool)
    ensures
        r == is_ascii_alnum(c),
{
    is_ascii_alpha_exec(c) || ('0' <= c && c <= '9')
}

/// `c` upper-cased where it is an ASCII letter.
pub fn ascii_upper_exec(c: char) -> (r: char)
    ensures
        r == ascii_upper(c),
{
    if 'a' <= c && c <= 'z' {
        ((c as u32) - 32) as u8 as char
    } else {
        c
    }
}

/// `c` lower-cased where it is an ASCII letter.
pub fn ascii_lower_exec(c: char) -> (r: char)
    ensures
        r == ascii_lower(c),
{
    if 'A' <= c && c <= 'Z' {
        ((c as u32) + 32) as u8 as char
    } else {
        c
    }
}

/// `c` has the Unicode `White_Space` property (`char::is_whitespace`).
pub open spec fn is_unicode_whitespace(c: char) -> bool {
    ||| ('\u{9}' <= c && c <= '\u{d}')
    ||| c == ' '
    ||| c == '\u{85}'
    ||| c == '\u{a0}'
    ||| c == '\u{1680}'
    ||| ('\u{2000}' <= c && c <= '\u{200a}')
    ||| c == '\u{2028}'
    ||| c == '\u{2029}'
    ||| c == '\u{202f}'
    ||| c == '\u{205f}'
    ||| c == '\u{3000}'
}

/// Is `c` white space (`char::is_whitespace`)?
pub fn is_unicode_whitespace_exec(c: char) -> (r: bool)
    ensures
        r == is_unicode_whitespace(c),
{
    ('\u{9}' <= c && c <= '\u{d}') || c == ' ' || c == '\u{85}' || c == '\u{a0}'
        || c == '\u{1680}' || ('\u{2000}' <= c && c <= '\u{200a}') || c == '\u{2028}'
        || c == '\u{2029}' || c == '\u{202f}' || c == '\u{205f}' || c == '\u{3000}'
}

/// `s` without leading white space.
pub open spec fn trim_start(s: Seq<char>) -> Seq<char>
    decreases s.len(),
{
    if s.len() > 0 && is_unicode_whitespace(s[0]) {
        trim_start(s.drop_first())
    } else {
        s
    }
}

/// `s` without trailing white space.
pub open spec fn trim_end(s: Seq<char>) -> Seq<char>
    decreases s.len(),
{
    if s.len() > 0 && is_unicode_whitespace(s.last()) {
        trim_end(s.drop_last())
    } else {
        s
    }
}

/// `s` without leading and trailing white space (`str::trim`).
pub open spec fn trim(s: Seq<char>) -> Seq<char> {
    trim_end(trim_start(s))
}

/// `s` without leading and trailing white space (`str::trim`).
pub fn trim_exec(s: &[char]) -> (r: Vec<char>)
    ensures
        r@ == trim(s@),
{
    let n = s.len();
    let mut a: usize = 0;
    assert(s@.skip(0) == s@);
    while a < n && is_unicode_whitespace_exec(s[a])
        invariant
            n == s@.len(),
            a <= n,
            trim_start(s@) == trim_start(s@.skip(a as int)),
        decreases n - a,
    {
        assert(s@.skip(a as int).drop_first() == s@.skip(a + 1));
        a += 1;
    }
    let mut b: usize = n;
    while b > a && is_unicode_whitespace_exec(s[b - 1])
        invariant
            n == s@.len(),
            a <= b <= n,
            trim(s@) == trim_end(s@.subrange(a as int, b as int)),
        decreases b,
    {
        assert(s@.subrange(a as int, b as int).drop_last() == s@.subrange(a as int, b - 1));
        b -= 1;
    }
    assert(s@.skip(a as int) == s@.subrange(a as int, n as int));
    slice_chars(s, a, b)
}

/// The first line of `s`, as `s.lines().next().unwrap_or("")` gives it.
pub open spec fn first_line(s: Seq<char>) -> Seq<char> {
    match find_first(s, seq!['\n']) {
        Some(k) => {
            let line = s.take(k);
            if line.len() > 0 && line.last() == '\r' { line.drop_last() } else { line }
        },
        None => s,
    }
}

/// The first line of `s` (`s.lines().next().unwrap_or("")`).
pub fn first_line_exec(s: &[char]) -> (r: Vec<char>)
    ensures
        r@ == first_line(s@),
{
    let nl = vec!['\n'];
    assert(nl@ == seq!['\n']);
    match find_from_exec(s, nl.as_slice(), 0) {
        Some(k) => {
            proof { lemma_find_from(s@, seq!['\n'], 0); }
            if k > 0 && s[k - 1] == '\r' {
                slice_chars(s, 0, k - 1)
            } else {
                slice_chars(s, 0, k)
            }
        },
        None => slice_chars(s, 0, s.len()),
    }
}

/// `parts` joined with `sep` between consecutive parts (`[..].join(sep)`).
pub open spec fn join(parts: Seq<Seq<char>>, sep: Seq<char>) -> Seq<char>
    decreases parts.len(),
{
    if parts.len() == 0 {
        Seq::empty()
    } else if parts.len() == 1 {
        parts[0]
    } else {
        join(parts.drop_last(), sep) + sep + parts.last()
    }
}

/// The characters of each string in `parts`.
pub open spec fn texts_of(parts: Seq<String>) -> Seq<Seq<char>> {
    parts.map_values(|p: String| p@)
}

/// The strings joined with `sep` between consecutive ones (`[..].join(sep)`).
pub fn join_strings(parts: &Vec<String>, sep: &[char]) -> (r: Vec<char>)
    ensures
        r@ == join(texts_of(parts@), sep@),
{
    let ghost texts = texts_of(parts@);
    let mut r: Vec<char> = Vec::new();
    let mut i: usize = 0;
    while i < parts.len()
        invariant
            i <= parts@.len(),
            texts == texts_of(parts@),
            r@ == join(texts.take(i as int), sep@),
        decreases parts.len() - i,
    {
        let part = chars_of(parts[i].as_str());
        assert(texts.take(i + 1).drop_last() == texts.take(i as int));
        assert(texts.take(i + 1).last() == parts@[i as int]@);
        if i > 0 {
            append_chars(&mut r, sep);
        } else {
            assert(texts.take(1) == seq![texts[0]]);
        }
        append_chars(&mut r, &part);
        i += 1;
    }
    assert(texts.take(parts@.len() as int) == texts);
    r
}

/// What `str::to_lowercase` gives for `s`.
pub uninterp spec fn lowercase_text(s: Seq<char>) -> Seq<char>;

/// What `str::to_uppercase` gives for `s`.
pub uninterp spec fn uppercase_text(s: Seq<char>) -> Seq<char>;

/// `str::to_lowercase`: the Unicode lower-case form of `s`. Its result is named, not stated.
#[verifier::external_body]
pub(crate) fn to_lowercase(s: &str) -> (r: String)
    ensures
        r@ == lowercase_text(s@),
{
    s.to_lowercase()
}

/// `str::to_uppercase`: the Unicode upper-case form of `s`. Its result is named, not stated.
#[verifier::external_body]
pub(crate) fn to_uppercase(s: &str) -> (r: String)
    ensures
        r@ == uppercase_text(s@),
{
    s.to_uppercase()
}

} // verus!
