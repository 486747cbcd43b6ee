//! Putting entries in date order.
use vstd::prelude::*;
use crate::model::TimesheetEntry;

verus! {

/// `a` comes before `b` in Rust's string order: at the first character where they differ the
/// smaller character wins, and a proper prefix comes first.
pub open spec fn text_lt(a: Seq<char>, b: Seq<char>) -> bool
    decreases a.len(),
{
    if b.len() == 0 {
        false
    } else if a.len() == 0 {
        true
    } else if a[0] != b[0] {
        (a[0] as int) < (b[0] as int)
    } else {
        text_lt(a.drop_first(), b.drop_first())
    }
}

/// No text comes before itself.
pub proof fn lemma_text_lt_irreflexive(a: Seq<char>)
    ensures
        !text_lt(a, a),
    decreases a.len(),
{
    if a.len() > 0 {
        lemma_text_lt_irreflexive(a.drop_first());
    }
}

/// Of two different texts, one comes before the other.
pub proof fn lemma_text_lt_total(a: Seq<char>, b: Seq<char>)
    ensures
        a == b || text_lt(a, b) || text_lt(b, a),
    decreases a.len(),
{
    if a.len() > 0 && b.len() > 0 && a[0] == b[0] {
        lemma_text_lt_total(a.drop_first(), b.drop_first());
        if a.drop_first() == b.drop_first() {
            assert(a =~= seq![a[0]] + a.drop_first());
            assert(b =~= seq![b[0]] + b.drop_first());
        }
    } else if a.len() == 0 && b.len() == 0 {
        assert(a =~= b);
    }
}

/// The string order is transitive.
pub proof fn lemma_text_lt_transitive(a: Seq<char>, b: Seq<char>, c: Seq<char>)
    requires
        text_lt(a, b),
        text_lt(b, c),
    ensures
        text_lt(a, c),
    decreases a.len(),
{
    if a.len() > 0 && b.len() > 0 && c.len() > 0 && a[0] == b[0] && b[0] == c[0] {
        lemma_text_lt_transitive(a.drop_first(), b.drop_first(), c.drop_first());
    }
}

/// Rust's string order decides at the first difference: where `a` and `b` agree on their
/// first `k` characters and differ at index `k`, `a` comes first exactly when its character
/// there has the smaller code point; a proper prefix comes before the longer text, and a text
/// never comes before one of its prefixes.
pub proof fn law_text_lt_first_difference(a: Seq<char>, b: Seq<char>, k: int)
    requires
        0 <= k <= a.len(),
        k <= b.len(),
        a.take(k) == b.take(k),
    ensures
        k < a.len() && k < b.len() && a[k] != b[k] ==> (text_lt(a, b) <==> (a[k] as int) < (b[k] as int)),
        k == a.len() && k < b.len() ==> text_lt(a, b),
        k == b.len() ==> !text_lt(a, b),
    decreases k,
{
    if k > 0 {
        assert(a[0] == a.take(k)[0]);
        assert(b[0] == b.take(k)[0]);
        assert(a.drop_first().take(k - 1) =~= b.drop_first().take(k - 1)) by {
            assert forall|i: int| 0 <= i < k - 1 implies #[trigger] a.drop_first().take(k - 1)[i] == b.drop_first().take(k - 1)[i] by {
                assert(a.drop_first().take(k - 1)[i] == a[i + 1]);
                assert(b.drop_first().take(k - 1)[i] == b[i + 1]);
                assert(a.take(k)[i + 1] == a[i + 1]);
                assert(b.take(k)[i + 1] == b[i + 1]);
            }
        }
        law_text_lt_first_difference(a.drop_first(), b.drop_first(), k - 1);
        if k < a.len() && k < b.len() {
            assert(a.drop_first()[k - 1] == a[k]);
            assert(b.drop_first()[k - 1] == b[k]);
        }
    }
}

/// Does `a` come before `b` in Rust's string order?
pub fn text_less(a: &str, b: &str) -> (r: bool)
    ensures
        r == text_lt(a@, b@),
{
    let x = crate::text::chars_of(a);
    let y = crate::text::chars_of(b);
    let mut i: usize = 0;
    assert(x@.skip(0) =~= x@);
    assert(y@.skip(0) =~= y@);
    while i < x.len() && i < y.len() && x[i] == y[i]
        invariant
            i <= x@.len(),
            i <= y@.len(),
            x@ == a@,
            y@ == b@,
            text_lt(a@, b@) == text_lt(x@.skip(i as int), y@.skip(i as int)),
        decreases x.len() - i,
    {
        assert(x@.skip(i as int).drop_first() =~= x@.skip(i + 1));
        assert(y@.skip(i as int).drop_first() =~= y@.skip(i + 1));
        i += 1;
    }
    if i == y.len() {
        false
    } else if i == x.len() {
        true
    } else {
        x[i] < y[i]
    }
}

/// The entries are in ascending order of their date texts.
pub open spec fn sorted_by_date(s: Seq<TimesheetEntry>) -> bool {
    forall|i: int, j: int| 0 <= i < j < s.len() ==> !text_lt(#[trigger] s[j].date@, #[trigger] s[i].date@)
}

/// Entries whose date text is `d`.
pub open spec fn dated(d: Seq<char>) -> spec_fn(TimesheetEntry) -> bool {
    |e: TimesheetEntry| e.date@ == d
}

proof fn lemma_filter_none(s: Seq<TimesheetEntry>, p: spec_fn(TimesheetEntry) -> bool)
    requires
        forall|i: int| 0 <= i < s.len() ==> !p(#[trigger] s[i]),
    ensures
        s.filter(p) == Seq::<TimesheetEntry>::empty(),
    decreases s.len(),
{
    reveal_with_fuel(Seq::<_>::filter, 1);
    if s.len() > 0 {
        lemma_filter_none(s.drop_last(), p);
        assert(!p(s[s.len() - 1]));
    }
    assert(s.filter(p) =~= Seq::<TimesheetEntry>::empty());
}

/// The entries in ascending order of their date texts, entries with the same date keeping
/// their order (the stable `sort_by` on `date`).
pub fn sort_entries_by_date(entries: Vec<TimesheetEntry>) -> (r: Vec<TimesheetEntry>)
    ensures
        sorted_by_date(r@),
        forall|d: Seq<char>| #[trigger] r@.filter(dated(d)) == entries@.filter(dated(d)),
        r@.len() == entries@.len(),
{
    broadcast use vstd::seq_lib::group_filter_ensures;
    let ghost input = entries@;
    let mut rest = entries;
    let mut out: Vec<TimesheetEntry> = Vec::new();
    let mut i: usize = 0;
    let n = rest.len();
    assert(input.take(0) =~= Seq::<TimesheetEntry>::empty());
    while rest.len() > 0
        invariant
            n == input.len(),
            i + rest@.len() == n,
            rest@ == input.skip(i as int),
            out@.len() == i,
            sorted_by_date(out@),
            forall|d: Seq<char>| #[trigger] out@.filter(dated(d)) == input.take(i as int).filter(dated(d)),
        decreases rest.len(),
    {
        let e = rest.remove(0);
        assert(e == input[i as int]);
        let mut p: usize = 0;
        while p < out.len() && !text_less(e.date.as_str(), out[p].date.as_str())
            invariant
                p <= out@.len(),
                forall|j: int| 0 <= j < p ==> !text_lt(e.date@, #[trigger] out@[j].date@),
            decreases out.len() - p,
        {
            p += 1;
        }
        proof {
            if p < out@.len() {
                assert forall|j: int| p <= j < out@.len() implies text_lt(e.date@, #[trigger] out@[j].date@) by {
                    if j > p {
                        assert(!text_lt(out@[j].date@, out@[p as int].date@));
                        lemma_text_lt_total(out@[j].date@, out@[p as int].date@);
                        if out@[j].date@ != out@[p as int].date@ {
                            lemma_text_lt_transitive(e.date@, out@[p as int].date@, out@[j].date@);
                        }
                    }
                }
            }
        }
        let ghost before = out@;
        out.insert(p, e);
        proof {
            let head = before.subrange(0, p as int);
            let tail = before.subrange(p as int, before.len() as int);
            assert(out@ =~= head.push(e) + tail);
            assert(before =~= head + tail);
            assert(input.take(i + 1) =~= input.take(i as int).push(e));
            assert forall|d: Seq<char>| #[trigger] out@.filter(dated(d)) == input.take(i + 1).filter(dated(d)) by {
                vstd::seq::Seq::filter_distributes_over_add(head.push(e), tail, dated(d));
                vstd::seq::Seq::filter_distributes_over_add(head, tail, dated(d));
                head.lemma_filter_push(e, dated(d));
                input.take(i as int).lemma_filter_push(e, dated(d));
                if e.date@ == d {
                    assert forall|j: int| 0 <= j < tail.len() implies !(dated(d))(#[trigger] tail[j]) by {
                        assert(tail[j] == before[p + j]);
                        lemma_text_lt_irreflexive(d);
                    }
                    lemma_filter_none(tail, dated(d));
                    assert(head.filter(dated(d)).push(e) + tail.filter(dated(d)) =~= (head.filter(dated(d)) + tail.filter(dated(d))).push(e));
                }
            }
            assert forall|a: int, b: int| 0 <= a < b < out@.len() implies !text_lt(#[trigger] out@[b].date@, #[trigger] out@[a].date@) by {
                if b < p {
                    assert(out@[a] == before[a] && out@[b] == before[b]);
                } else if a > p {
                    assert(out@[a] == before[a - 1] && out@[b] == before[b - 1]);
                } else if a == p {
                    assert(out@[b] == before[b - 1]);
                    assert(text_lt(e.date@, before[b - 1].date@));
                    if text_lt(before[b - 1].date@, e.date@) {
                        lemma_text_lt_transitive(e.date@, before[b - 1].date@, e.date@);
                        lemma_text_lt_irreflexive(e.date@);
                    }
                } else if b == p {
                    assert(out@[a] == before[a]);
                } else {
                    assert(out@[a] == before[a] && out@[b] == before[b - 1]);
                }
            }
        }
        i += 1;
        assert(rest@ =~= input.skip(i as int));
    }
    assert(input.take(n as int) =~= input);
    out
}

} // verus!
