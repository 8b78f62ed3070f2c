//! The test-code index of one file: the ranges that hold test code,
//! sorted and merged, and the containment test that decides whether an
//! extracted function lies wholly inside test code.
use std::ops::Range;

use vstd::prelude::*;

use crate::metrics::complexity::fallback::Language;
use crate::metrics::complexity::javascript_test_code::{javascript_test_ranges, javascript_test_spans};
use crate::metrics::complexity::managed_test_code::{managed_test_ranges, managed_test_spans};
use crate::metrics::complexity::php_test_code::{php_test_ranges, php_test_spans};
use crate::metrics::complexity::python_test_code::{python_test_ranges, python_test_spans};
use crate::metrics::complexity::rust_test_code::{rust_test_ranges, rust_test_spans};
use crate::metrics::complexity::syntax::SyntaxTree;

verus! {

/// A range as `(start, end)`.
pub type Span = (usize, usize);

pub open spec fn span_of(r: Range<usize>) -> Span {
    (r.start, r.end)
}

pub open spec fn spans_of(v: Seq<Range<usize>>) -> Seq<Span> {
    v.map_values(|r: Range<usize>| span_of(r))
}

/// The order ranges are sorted in: by start, then by end.
pub open spec fn span_le(a: Span, b: Span) -> bool {
    a.0 < b.0 || (a.0 == b.0 && a.1 <= b.1)
}

/// The first position at or after `p` whose span is above `x`.
pub open spec fn slot_from(s: Seq<Span>, x: Span, p: int) -> int
    decreases s.len() - p,
{
    if p < 0 || p >= s.len() || !span_le(s[p], x) {
        p
    } else {
        slot_from(s, x, p + 1)
    }
}

/// The spans in increasing order (insertion sort: each one goes after
/// every span not above it).
pub open spec fn sort_spans(s: Seq<Span>) -> Seq<Span>
    decreases s.len(),
{
    if s.len() == 0 {
        seq![]
    } else {
        let t = sort_spans(s.drop_last());
        t.insert(slot_from(t, s.last(), 0), s.last())
    }
}

/// Sorted spans merged left to right: a span that starts at or before the
/// end of the one before it extends that one.
pub open spec fn merge_spans(s: Seq<Span>) -> Seq<Span>
    decreases s.len(),
{
    if s.len() == 0 {
        seq![]
    } else {
        let m = merge_spans(s.drop_last());
        let r = s.last();
        if m.len() > 0 && r.0 <= m.last().1 {
            let end = if m.last().1 >= r.1 { m.last().1 } else { r.1 };
            m.update(m.len() - 1, (m.last().0, end))
        } else {
            m.push(r)
        }
    }
}

/// The first position whose span starts after `x` (where
/// `partition_point(|c| c.start <= x)` lands on spans sorted by start).
pub open spec fn first_after(s: Seq<Span>, x: usize, p: int) -> int
    decreases s.len() - p,
{
    if p < 0 || p >= s.len() || s[p].0 > x {
        p
    } else {
        first_after(s, x, p + 1)
    }
}

/// The spans start in nondecreasing order.
pub open spec fn starts_sorted(s: Seq<Span>) -> bool {
    forall|i: int, j: int| 0 <= i <= j < s.len() ==> #[trigger] s[i].0 <= #[trigger] s[j].0
}

/// The merged test-code ranges of a file.
pub struct TestContext(Vec<Range<usize>>);

impl View for TestContext {
    type V = Seq<Span>;

    closed spec fn view(&self) -> Seq<Span> {
        spans_of(self.0@)
    }
}

/// Sorted by `span_le`.
pub open spec fn spans_sorted(s: Seq<Span>) -> bool {
    forall|i: int, j: int| 0 <= i < j < s.len() ==> span_le(#[trigger] s[i], #[trigger] s[j])
}

proof fn lemma_slot(t: Seq<Span>, x: Span, p: int)
    requires
        spans_sorted(t),
        0 <= p <= t.len(),
        forall|k: int| 0 <= k < p ==> span_le(#[trigger] t[k], x),
    ensures
        p <= slot_from(t, x, p) <= t.len(),
        forall|k: int| 0 <= k < slot_from(t, x, p) ==> span_le(#[trigger] t[k], x),
        forall|k: int| slot_from(t, x, p) <= k < t.len() ==> !span_le(#[trigger] t[k], x),
    decreases t.len() - p,
{
    if p < t.len() {
        if span_le(t[p], x) {
            lemma_slot(t, x, p + 1);
        } else {
            assert forall|k: int| p <= k < t.len() implies !span_le(#[trigger] t[k], x) by {
                if k > p {
                    assert(span_le(t[p], t[k]));
                }
            }
        }
    }
}

/// `sort_spans` sorts, keeping every span.
pub proof fn lemma_sort_spans(s: Seq<Span>)
    ensures
        spans_sorted(sort_spans(s)),
        sort_spans(s).to_multiset() == s.to_multiset(),
    decreases s.len(),
{
    if s.len() == 0 {
        assert(s =~= Seq::<Span>::empty());
    } else {
        let t = sort_spans(s.drop_last());
        lemma_sort_spans(s.drop_last());
        let x = s.last();
        lemma_slot(t, x, 0);
        let p = slot_from(t, x, 0);
        let u = t.insert(p, x);
        assert forall|a: int, b: int| 0 <= a < b < u.len() implies span_le(#[trigger] u[a], #[trigger] u[b]) by {
            if b < p {
                assert(u[a] == t[a] && u[b] == t[b]);
            } else if b == p {
                assert(u[a] == t[a]);
            } else if a == p {
                assert(u[b] == t[b - 1]);
            } else if a < p {
                assert(u[a] == t[a] && u[b] == t[b - 1]);
            } else {
                assert(u[a] == t[a - 1] && u[b] == t[b - 1]);
            }
        }
        vstd::seq_lib::to_multiset_insert(t, p, x);
        vstd::seq_lib::to_multiset_build(s.drop_last(), x);
        assert(s.drop_last().push(x) =~= s);
    }
}

/// Merging sorted spans leaves the starts in order, the last one no later
/// than the last span's.
proof fn lemma_merge_starts(s: Seq<Span>)
    requires
        spans_sorted(s),
    ensures
        starts_sorted(merge_spans(s)),
        merge_spans(s).len() <= s.len(),
        s.len() > 0 ==> merge_spans(s).len() > 0 && merge_spans(s).last().0 <= s.last().0,
    decreases s.len(),
{
    if s.len() > 0 {
        let t = s.drop_last();
        assert forall|i: int, j: int| 0 <= i < j < t.len() implies span_le(#[trigger] t[i], #[trigger] t[j]) by {
            assert(t[i] == s[i] && t[j] == s[j]);
        }
        lemma_merge_starts(t);
        if t.len() > 0 {
            assert(span_le(s[t.len() - 1], s[s.len() - 1]));
        }
    }
}

/// Where `x` falls among spans sorted by start: the first position whose
/// span starts after it.
proof fn lemma_first_after(s: Seq<Span>, x: usize, p: int, q: int)
    requires
        0 <= q <= p <= s.len(),
        forall|k: int| 0 <= k < p ==> #[trigger] s[k].0 <= x,
        p < s.len() ==> s[p].0 > x,
    ensures
        first_after(s, x, q) == p,
    decreases p - q,
{
    if q < p {
        lemma_first_after(s, x, p, q + 1);
    }
}

/// Every span starts no later than it ends.
pub open spec fn spans_ordered(s: Seq<Span>) -> bool {
    forall|i: int| 0 <= i < s.len() ==> (#[trigger] s[i]).0 <= s[i].1
}

/// Merged spans of well-formed sorted spans are well-formed and apart: each
/// ends before the next one starts.
proof fn lemma_merge_gaps(s: Seq<Span>)
    requires
        spans_sorted(s),
        spans_ordered(s),
    ensures
        spans_ordered(merge_spans(s)),
        forall|i: int, j: int| 0 <= i < j < merge_spans(s).len() ==> #[trigger] merge_spans(s)[i].1
            < #[trigger] merge_spans(s)[j].0,
    decreases s.len(),
{
    if s.len() > 0 {
        let t = s.drop_last();
        assert forall|i: int, j: int| 0 <= i < j < t.len() implies span_le(#[trigger] t[i], #[trigger] t[j]) by {
            assert(t[i] == s[i] && t[j] == s[j]);
        }
        assert forall|i: int| 0 <= i < t.len() implies (#[trigger] t[i]).0 <= t[i].1 by {
            assert(t[i] == s[i]);
        }
        lemma_merge_gaps(t);
        lemma_merge_starts(t);
        assert(s.last().0 <= s.last().1);
    }
}

/// Containment is containment in one merged range: for ranges that do not
/// end before they start, a range lies in the index exactly when one of
/// the merged ranges holds all of it.
pub proof fn lemma_contains_means_inside_one_range(ranges: Seq<Span>, r: Span)
    requires
        spans_ordered(ranges),
        r.0 <= r.1,
    ensures
        ({
            let v = merge_spans(sort_spans(ranges));
            let p = first_after(v, r.0, 0);
            (p > 0 && v[p - 1].1 >= r.1) <==> exists|k: int| 0 <= k < v.len() && #[trigger] v[k].0 <= r.0 && r.1 <= v[k].1
        }),
{
    broadcast use vstd::seq_lib::to_multiset_contains;

    let s = sort_spans(ranges);
    lemma_sort_spans(ranges);
    assert forall|i: int| 0 <= i < s.len() implies (#[trigger] s[i]).0 <= s[i].1 by {
        assert(s.contains(s[i]));
        assert(s.to_multiset().contains(s[i]));
        assert(ranges.contains(s[i]));
    }
    lemma_merge_gaps(s);
    lemma_merge_starts(s);
    let v = merge_spans(s);
    lemma_first_after_bounds(v, r.0, 0);
    let p = first_after(v, r.0, 0);
    if exists|k: int| 0 <= k < v.len() && #[trigger] v[k].0 <= r.0 && r.1 <= v[k].1 {
        let k = choose|k: int| 0 <= k < v.len() && #[trigger] v[k].0 <= r.0 && r.1 <= v[k].1;
        assert(k < p);
        if k < p - 1 {
            assert(v[k].1 < v[p - 1].0);
            assert(v[p - 1].0 <= v[p - 1].1);
        }
    }
}

proof fn lemma_first_after_bounds(v: Seq<Span>, x: usize, q: int)
    requires
        starts_sorted(v),
        0 <= q <= v.len(),
        forall|k: int| 0 <= k < q ==> #[trigger] v[k].0 <= x,
    ensures
        q <= first_after(v, x, q) <= v.len(),
        forall|k: int| 0 <= k < first_after(v, x, q) ==> #[trigger] v[k].0 <= x,
        forall|k: int| first_after(v, x, q) <= k < v.len() ==> #[trigger] v[k].0 > x,
    decreases v.len() - q,
{
    if q < v.len() {
        if v[q].0 <= x {
            lemma_first_after_bounds(v, x, q + 1);
        } else {
            assert forall|k: int| q <= k < v.len() implies #[trigger] v[k].0 > x by {
                assert(v[q].0 <= v[k].0);
            }
        }
    }
}

/// The test code the rules of a file's language find; Go and languages
/// without rules have none.
pub open spec fn language_test_spans(t: &SyntaxTree, lang: Language) -> Seq<Span> {
    match lang {
        Language::Rust => rust_test_spans(t),
        Language::JsTs => javascript_test_spans(t),
        Language::Python => python_test_spans(t),
        Language::Php => php_test_spans(t),
        Language::Java | Language::CSharp | Language::Kotlin => managed_test_spans(t, lang),
        Language::Go | Language::Generic => seq![],
    }
}

/// The test code of a file: all of it for a test file, else what its
/// language's rules find.
pub open spec fn file_test_spans(t: &SyntaxTree, lang: Language, test_file: bool) -> Seq<Span> {
    if test_file {
        seq![(t.nodes@[0].start, t.nodes@[0].end)]
    } else {
        language_test_spans(t, lang)
    }
}

impl TestContext {
    /// The test-code index of one parsed file; `test_file` says whether the
    /// file as a whole is a test file.
    pub fn build(t: &SyntaxTree, lang: Language, test_file: bool) -> (r: TestContext)
        requires
            t.wf(),
        ensures
            r@ == merge_spans(sort_spans(file_test_spans(t, lang, test_file))),
    {
        let ranges = if test_file {
            let mut v: Vec<Range<usize>> = Vec::new();
            v.push(t.nodes[0].start..t.nodes[0].end);
            assert(spans_of(v@) =~= seq![(t.nodes@[0].start, t.nodes@[0].end)]);
            v
        } else {
            match lang {
                Language::Rust => rust_test_ranges(t),
                Language::JsTs => javascript_test_ranges(t),
                Language::Python => python_test_ranges(t),
                Language::Php => php_test_ranges(t),
                Language::Java | Language::CSharp | Language::Kotlin => managed_test_ranges(t, lang),
                Language::Go | Language::Generic => {
                    let v: Vec<Range<usize>> = Vec::new();
                    assert(spans_of(v@) =~= Seq::<Span>::empty());
                    v
                },
            }
        };
        TestContext::from_ranges(ranges)
    }

    #[verifier::type_invariant]
    closed spec fn inv(self) -> bool {
        starts_sorted(spans_of(self.0@))
    }

    /// The index of `ranges`: sorted by start and end, overlapping or
    /// touching ranges merged.
    pub fn from_ranges(ranges: Vec<Range<usize>>) -> (r: TestContext)
        ensures
            r@ == merge_spans(sort_spans(spans_of(ranges@))),
    {
        let ghost all = spans_of(ranges@);
        let mut sorted: Vec<Range<usize>> = Vec::new();
        let mut i: usize = 0;
        assert(spans_of(sorted@) =~= sort_spans(all.take(0)));
        while i < ranges.len()
            invariant
                i <= ranges@.len(),
                all == spans_of(ranges@),
                spans_of(sorted@) == sort_spans(all.take(i as int)),
            decreases ranges.len() - i,
        {
            let x = ranges[i].start..ranges[i].end;
            let ghost xs = span_of(x);
            let ghost t = spans_of(sorted@);
            assert(xs == all[i as int]);
            let mut p: usize = 0;
            while p < sorted.len() && (sorted[p].start < x.start || (sorted[p].start == x.start && sorted[p].end
                <= x.end))
                invariant
                    p <= sorted@.len(),
                    t == spans_of(sorted@),
                    xs == span_of(x),
                    slot_from(t, xs, 0) == slot_from(t, xs, p as int),
                decreases sorted.len() - p,
            {
                p = p + 1;
            }
            sorted.insert(p, x);
            proof {
                assert(all.take(i + 1).drop_last() =~= all.take(i as int));
                assert(all.take(i + 1).last() == xs);
                assert(spans_of(sorted@) =~= t.insert(p as int, xs));
            }
            i = i + 1;
        }
        assert(all.take(ranges@.len() as int) =~= all);
        let ghost ss = spans_of(sorted@);
        proof {
            lemma_sort_spans(all);
        }
        let mut merged: Vec<Range<usize>> = Vec::new();
        let mut k: usize = 0;
        assert(spans_of(merged@) =~= merge_spans(ss.take(0)));
        while k < sorted.len()
            invariant
                k <= sorted@.len(),
                ss == spans_of(sorted@),
                spans_of(merged@) == merge_spans(ss.take(k as int)),
            decreases sorted.len() - k,
        {
            let r = sorted[k].start..sorted[k].end;
            let ghost m = spans_of(merged@);
            proof {
                assert(ss.take(k + 1).drop_last() =~= ss.take(k as int));
                assert(ss.take(k + 1).last() == span_of(r));
            }
            let n = merged.len();
            if n > 0 && r.start <= merged[n - 1].end {
                let start = merged[n - 1].start;
                let end = if merged[n - 1].end >= r.end { merged[n - 1].end } else { r.end };
                merged.set(n - 1, start..end);
                assert(spans_of(merged@) =~= m.update(m.len() - 1, (m.last().0, end)));
            } else {
                merged.push(r);
                assert(spans_of(merged@) =~= m.push(span_of(r)));
            }
            k = k + 1;
        }
        proof {
            assert(ss.take(sorted@.len() as int) =~= ss);
            lemma_merge_starts(ss);
        }
        TestContext(merged)
    }

    /// The range lies wholly inside one merged range: the last one that
    /// starts at or before it.
    pub fn contains(&self, range: Range<usize>) -> (r: bool)
        ensures
            r == (first_after(self@, range.start, 0) > 0 && self@[first_after(self@, range.start, 0) - 1].1
                >= range.end),
    {
        proof {
            use_type_invariant(self);
        }
        let ghost v = self@;
        let x = range.start;
        let mut lo: usize = 0;
        let mut hi: usize = self.0.len();
        while lo < hi
            invariant
                lo <= hi <= v.len(),
                v == spans_of(self.0@),
                starts_sorted(v),
                forall|k: int| 0 <= k < lo ==> #[trigger] v[k].0 <= x,
                forall|k: int| hi <= k < v.len() ==> #[trigger] v[k].0 > x,
            decreases hi - lo,
        {
            let mid = lo + (hi - lo) / 2;
            assert(v[mid as int] == span_of(self.0@[mid as int]));
            if self.0[mid].start <= x {
                assert forall|k: int| 0 <= k < mid + 1 implies #[trigger] v[k].0 <= x by {
                    assert(v[k].0 <= v[mid as int].0);
                }
                lo = mid + 1;
            } else {
                assert forall|k: int| mid <= k < v.len() implies #[trigger] v[k].0 > x by {
                    assert(v[mid as int].0 <= v[k].0);
                }
                hi = mid;
            }
        }
        proof {
            lemma_first_after(v, x, lo as int, 0);
        }
        if lo == 0 {
            return false;
        }
        assert(v[lo - 1] == span_of(self.0@[lo - 1]));
        self.0[lo - 1].end >= range.end
    }
}

} // verus!
