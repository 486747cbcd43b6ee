//! Decimal text of integers, written and read.
use vstd::prelude::*;

verus! {

/// The ASCII digit for `d` (`0 <= d < 10`).
pub open spec fn digit_char(d: int) -> char {
    (48 + d) as char
}

/// `c` is an ASCII digit.
pub open spec fn is_digit(c: char) -> bool {
    '0' <= c && c <= '9'
}

/// The value of the ASCII digit `c`.
pub open spec fn digit_value(c: char) -> int {
    c as int - 48
}

/// The decimal digits of `n`, most significant first, without leading zeros.
pub open spec fn decimal_digits(n: nat) -> Seq<char>
    decreases n,
{
    if n < 10 {
        seq![digit_char(n as int)]
    } else {
        decimal_digits(n / 10).push(digit_char((n % 10) as int))
    }
}

/// The text that Rust's `to_string` gives for the integer `n`.
pub open spec fn decimal_text(n: int) -> Seq<char> {
    if n < 0 {
        seq!['-'] + decimal_digits((-n) as nat)
    } else {
        decimal_digits(n as nat)
    }
}

/// All characters of `s` are ASCII digits.
pub open spec fn all_digits(s: Seq<char>) -> bool {
    forall|i: int| 0 <= i < s.len() ==> is_digit(#[trigger] s[i])
}

/// The value of a run of ASCII digits.
pub open spec fn digits_value(s: Seq<char>) -> nat
    decreases s.len(),
{
    if s.len() == 0 {
        0
    } else {
        (digits_value(s.drop_last()) * 10 + digit_value(s.last())) as nat
    }
}

/// The value that Rust's unsigned `parse` reads from `s` (an optional `+` followed by at
/// least one digit), before the range of the target type is checked.
pub open spec fn unsigned_value(s: Seq<char>) -> Option<nat> {
    let body = if s.len() > 0 && s[0] == '+' { s.drop_first() } else { s };
    if body.len() > 0 && all_digits(body) {
        Some(digits_value(body))
    } else {
        None
    }
}

/// What `s.parse::<uN>()` gives when the type's largest value is `max`.
pub open spec fn parse_unsigned(s: Seq<char>, max: nat) -> Option<nat> {
    match unsigned_value(s) {
        Some(v) => if v <= max { Some(v) } else { None },
        None => None,
    }
}

/// The decimal digits of `n` are ASCII digits, at least one of them, and read back as `n`.
pub proof fn lemma_decimal_digits_are_digits(n: nat)
    ensures
        all_digits(decimal_digits(n)),
        decimal_digits(n).len() >= 1,
        digits_value(decimal_digits(n)) == n,
    decreases n,
{
    let k = (n % 10) as int;
    assert(digit_char(k) as int == 48 + k);
    assert(digit_value(digit_char(k)) == k);
    assert(n == (n / 10) * 10 + k);
    let d = decimal_digits(n);
    if n >= 10 {
        lemma_decimal_digits_are_digits(n / 10);
        assert(d.drop_last() == decimal_digits(n / 10));
        assert(d.last() == digit_char(k));
        assert(digits_value(d) == digits_value(decimal_digits(n / 10)) * 10 + digit_value(digit_char(k)));
        assert(forall|i: int| 0 <= i < d.len() ==> #[trigger] d[i] == (if i < d.len() - 1 { decimal_digits(n / 10)[i] } else { digit_char(k) }));
    } else {
        assert(k == n);
        assert(d.drop_last() =~= Seq::<char>::empty());
        assert(digits_value(d.drop_last()) == 0);
        assert(d.last() == digit_char(k));
        assert(digits_value(d) == digit_value(digit_char(k)));
    }
}

/// Reading back the decimal text of a non-negative number gives the number.
pub proof fn law_parse_decimal_roundtrip(n: nat, max: nat)
    requires
        n <= max,
    ensures
        parse_unsigned(decimal_text(n as int), max) == Some(n),
{
    lemma_decimal_digits_are_digits(n);
}

fn digits_of_u64(n: u64) -> (r: Vec<char>)
    ensures
        r@ == decimal_digits(n as nat),
    decreases n,
{
    let d = ((n % 10) as u8 + 48) as char;
    if n < 10 {
        let mut r: Vec<char> = Vec::new();
        r.push(d);
        assert(r@ =~= seq![digit_char(n as int)]);
        r
    } else {
        let mut r = digits_of_u64(n / 10);
        r.push(d);
        r
    }
}

/// The decimal text of `n`.
pub fn u64_text(n: u64) -> (r: Vec<char>)
    ensures
        r@ == decimal_text(n as int),
{
    digits_of_u64(n)
}

/// The decimal text of `n` (possibly negative).
pub fn i64_text(n: i64) -> (r: Vec<char>)
    ensures
        r@ == decimal_text(n as int),
{
    if n < 0 {
        let m: u64 = if n == i64::MIN { 9223372036854775808u64 } else { (-n) as u64 };
        let digits = digits_of_u64(m);
        let mut r: Vec<char> = Vec::new();
        r.push('-');
        crate::text::append_chars(&mut r, &digits);
        r
    } else {
        digits_of_u64(n as u64)
    }
}

/// Reads an unsigned number no larger than `max` the way Rust's `parse` does.
pub fn parse_unsigned_exec(s: &[char], max: u64) -> (r: Option<u64>)
    ensures
        match r {
            Some(v) => parse_unsigned(s@, max as nat) == Some(v as nat),
            None => parse_unsigned(s@, max as nat) is None,
        },
{
    let n = s.len();
    let start: usize = if n > 0 && s[0] == '+' { 1 } else { 0 };
    if start >= n {
        return None;
    }
    let ghost body = if s@.len() > 0 && s@[0] == '+' { s@.drop_first() } else { s@ };
    assert(body == s@.subrange(start as int, n as int));
    let mut value: u64 = 0;
    let mut i = start;
    let mut overflow = false;
    while i < n
        invariant
            n == s@.len(),
            start < n,
            start <= i <= n,
            body == s@.subrange(start as int, n as int),
            body == (if s@.len() > 0 && s@[0] == '+' { s@.drop_first() } else { s@ }),
            all_digits(s@.subrange(start as int, i as int)),
            !overflow ==> value as nat == digits_value(s@.subrange(start as int, i as int)),
            !overflow ==> value <= max,
            overflow ==> digits_value(s@.subrange(start as int, i as int)) > max,
        decreases n - i,
    {
        let c = s[i];
        if !('0' <= c && c <= '9') {
            assert(body[i - start] == c);
            assert(!all_digits(body));
            assert(unsigned_value(s@) is None);
            return None;
        }
        let ghost prev = s@.subrange(start as int, i as int);
        let ghost next = s@.subrange(start as int, i + 1);
        assert(next.drop_last() == prev);
        assert(next.last() == c);
        let d = (c as u32 - 48) as u64;
        assert(d as int == digit_value(c));
        if !overflow {
            let wide: u128 = value as u128 * 10 + d as u128;
            if wide > max as u128 {
                overflow = true;
            } else {
                value = wide as u64;
            }
        } else {
            assert(digits_value(next) >= digits_value(prev));
        }
        i += 1;
    }
    assert(s@.subrange(start as int, n as int) == body);
    if overflow {
        None
    } else {
        Some(value)
    }
}

} // verus!
