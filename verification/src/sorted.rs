//! Sorted, duplicate-free sequences: the iteration order of a `BTreeSet`,
//! specified as insertion into a strictly increasing sequence.
use vstd::prelude::*;

use crate::text::{
    compare_strings, lemma_order_antisym, lemma_order_trans, lemma_order_zero_iff_eq, lt_seq,
    order_of,
};

verus! {

/// `lt` is a strict total order.
pub open spec fn strict_total<T>(lt: spec_fn(T, T) -> bool) -> bool {
    &&& forall|a: T| !#[trigger] lt(a, a)
    &&& forall|a: T, b: T, c: T| #[trigger] lt(a, b) && #[trigger] lt(b, c) ==> lt(a, c)
    &&& forall|a: T, b: T| !#[trigger] lt(a, b) && !lt(b, a) ==> a == b
}

pub open spec fn strictly_sorted<T>(s: Seq<T>, lt: spec_fn(T, T) -> bool) -> bool {
    forall|i: int, j: int| 0 <= i < j < s.len() ==> lt(#[trigger] s[i], #[trigger] s[j])
}

/// `x` inserted into the sorted sequence `s`, unless already present.
pub open spec fn insert_sorted<T>(s: Seq<T>, x: T, lt: spec_fn(T, T) -> bool) -> Seq<T>
    decreases s.len(),
{
    if s.len() == 0 {
        seq![x]
    } else if x == s[0] {
        s
    } else if lt(x, s[0]) {
        seq![x] + s
    } else {
        seq![s[0]] + insert_sorted(s.drop_first(), x, lt)
    }
}

/// The distinct elements of `items`, in increasing order.
pub open spec fn sorted_set<T>(items: Seq<T>, lt: spec_fn(T, T) -> bool) -> Seq<T>
    decreases items.len(),
{
    if items.len() == 0 {
        seq![]
    } else {
        insert_sorted(sorted_set(items.drop_last(), lt), items.last(), lt)
    }
}

/// Inserting at the first position whose element is not below `x`.
pub proof fn lemma_insert_sorted_at<T>(s: Seq<T>, x: T, lt: spec_fn(T, T) -> bool, p: int)
    requires
        strict_total(lt),
        strictly_sorted(s, lt),
        0 <= p <= s.len(),
        forall|k: int| 0 <= k < p ==> lt(#[trigger] s[k], x),
        p < s.len() ==> !lt(s[p], x),
    ensures
        insert_sorted(s, x, lt) == (if p < s.len() && s[p] == x {
            s
        } else {
            s.insert(p, x)
        }),
        strictly_sorted(insert_sorted(s, x, lt), lt),
    decreases s.len(),
{
    if s.len() == 0 {
        assert(seq![x] =~= s.insert(0, x));
    } else if p == 0 {
        if x == s[0] {
        } else {
            assert(lt(x, s[0]));
            assert(seq![x] + s =~= s.insert(0, x));
            let r = s.insert(0, x);
            assert forall|i: int, j: int| 0 <= i < j < r.len() implies lt(#[trigger] r[i], #[trigger] r[j]) by {
                if i == 0 {
                    if j > 1 {
                        assert(lt(s[0], s[j - 1]));
                    }
                } else {
                    assert(r[i] == s[i - 1] && r[j] == s[j - 1]);
                }
            }
        }
    } else {
        assert(lt(s[0], x));
        assert(x != s[0]);
        let t = s.drop_first();
        assert(strictly_sorted(t, lt)) by {
            assert forall|i: int, j: int| 0 <= i < j < t.len() implies lt(#[trigger] t[i], #[trigger] t[j]) by {
                assert(t[i] == s[i + 1] && t[j] == s[j + 1]);
            }
        }
        assert forall|k: int| 0 <= k < p - 1 implies lt(#[trigger] t[k], x) by {
            assert(t[k] == s[k + 1]);
        }
        lemma_insert_sorted_at(t, x, lt, p - 1);
        let rt = insert_sorted(t, x, lt);
        let r = seq![s[0]] + rt;
        if p < s.len() && s[p] == x {
            assert(r =~= s);
        } else {
            assert(r =~= s.insert(p, x));
        }
        assert forall|i: int, j: int| 0 <= i < j < r.len() implies lt(#[trigger] r[i], #[trigger] r[j]) by {
            if i == 0 {
                assert(r[j] == rt[j - 1]);
                if p < s.len() && s[p] == x {
                    assert(lt(s[0], s[j]));
                } else {
                    let ins = s.insert(p, x);
                    assert(r[j] == ins[j]);
                    if j < p {
                        assert(lt(s[0], s[j]));
                    } else if j == p {
                    } else {
                        assert(ins[j] == s[j - 1]);
                        assert(lt(s[0], s[j - 1]));
                    }
                }
            } else {
                assert(r[i] == rt[i - 1] && r[j] == rt[j - 1]);
            }
        }
    }
}

pub proof fn lemma_sorted_set_sorted<T>(items: Seq<T>, lt: spec_fn(T, T) -> bool)
    requires
        strict_total(lt),
    ensures
        strictly_sorted(sorted_set(items, lt), lt),
    decreases items.len(),
{
    if items.len() > 0 {
        let s = sorted_set(items.drop_last(), lt);
        lemma_sorted_set_sorted(items.drop_last(), lt);
        let x = items.last();
        let p = first_not_below(s, x, lt);
        lemma_first_not_below(s, x, lt);
        lemma_insert_sorted_at(s, x, lt, p);
    }
}

/// The sorted set of `items` holds exactly the elements of `items`.
pub proof fn lemma_sorted_set_members<T>(items: Seq<T>, lt: spec_fn(T, T) -> bool, x: T)
    requires
        strict_total(lt),
    ensures
        sorted_set(items, lt).contains(x) <==> items.contains(x),
    decreases items.len(),
{
    if items.len() > 0 {
        let init = items.drop_last();
        let s = sorted_set(init, lt);
        lemma_sorted_set_members(init, lt, x);
        lemma_sorted_set_sorted(init, lt);
        let y = items.last();
        let p = first_not_below(s, y, lt);
        lemma_first_not_below(s, y, lt);
        lemma_insert_sorted_at(s, y, lt, p);
        let r = sorted_set(items, lt);
        if items.contains(x) {
            let i = choose|i: int| 0 <= i < items.len() && items[i] == x;
            if i < init.len() {
                assert(init[i] == x);
            }
        }
        if init.contains(x) {
            let i = choose|i: int| 0 <= i < init.len() && init[i] == x;
            assert(items[i] == x);
        }
        if p < s.len() && s[p] == y {
            assert(r == s);
            if x == y {
                assert(s[p] == x);
            }
        } else {
            assert(r == s.insert(p, y));
            if r.contains(x) {
                let i = choose|i: int| 0 <= i < r.len() && r[i] == x;
                if i < p {
                    assert(s[i] == x);
                } else if i > p {
                    assert(s[i - 1] == x);
                } else {
                    assert(items[items.len() - 1] == x);
                }
            }
            if s.contains(x) {
                let i = choose|i: int| 0 <= i < s.len() && s[i] == x;
                if i < p {
                    assert(r[i] == x);
                } else {
                    assert(r[i + 1] == x);
                }
            }
            if x == y {
                assert(r[p] == x);
            }
        }
    }
}

/// Two strictly increasing sequences with the same elements are equal.
pub proof fn lemma_sorted_same_members_equal<T>(a: Seq<T>, b: Seq<T>, lt: spec_fn(T, T) -> bool)
    requires
        strict_total(lt),
        strictly_sorted(a, lt),
        strictly_sorted(b, lt),
        forall|x: T| a.contains(x) <==> b.contains(x),
    ensures
        a == b,
    decreases a.len(),
{
    if a.len() == 0 {
        if b.len() > 0 {
            assert(b.contains(b[0]));
        }
        assert(a =~= b);
    } else {
        assert(a.contains(a[0]));
        assert(b.len() > 0);
        assert(b.contains(b[0]));
        if a[0] != b[0] {
            let j = choose|j: int| 0 <= j < b.len() && b[j] == a[0];
            let i = choose|i: int| 0 <= i < a.len() && a[i] == b[0];
            assert(j > 0);
            assert(i > 0);
            assert(lt(b[0], b[j]));
            assert(lt(a[0], a[i]));
            assert(lt(a[0], a[0]));
        }
        let ta = a.drop_first();
        let tb = b.drop_first();
        assert forall|x: T| ta.contains(x) <==> tb.contains(x) by {
            if ta.contains(x) {
                let i = choose|i: int| 0 <= i < ta.len() && ta[i] == x;
                assert(a[i + 1] == x);
                assert(lt(a[0], a[i + 1]));
                assert(a.contains(x));
                let j = choose|j: int| 0 <= j < b.len() && b[j] == x;
                if j == 0 {
                    assert(lt(x, x));
                }
                assert(tb[j - 1] == x);
            }
            if tb.contains(x) {
                let j = choose|j: int| 0 <= j < tb.len() && tb[j] == x;
                assert(b[j + 1] == x);
                assert(lt(b[0], b[j + 1]));
                assert(b.contains(x));
                let i = choose|i: int| 0 <= i < a.len() && a[i] == x;
                if i == 0 {
                    assert(lt(x, x));
                }
                assert(ta[i - 1] == x);
            }
        }
        assert forall|p: int, q: int| 0 <= p < q < ta.len() implies lt(#[trigger] ta[p], #[trigger] ta[q]) by {
            assert(ta[p] == a[p + 1] && ta[q] == a[q + 1]);
        }
        assert forall|p: int, q: int| 0 <= p < q < tb.len() implies lt(#[trigger] tb[p], #[trigger] tb[q]) by {
            assert(tb[p] == b[p + 1] && tb[q] == b[q + 1]);
        }
        lemma_sorted_same_members_equal(ta, tb, lt);
        assert(a =~= seq![a[0]] + ta);
        assert(b =~= seq![b[0]] + tb);
    }
}

/// First position of `s` whose element is not below `x`.
pub open spec fn first_not_below<T>(s: Seq<T>, x: T, lt: spec_fn(T, T) -> bool) -> int
    decreases s.len(),
{
    if s.len() == 0 || !lt(s[0], x) {
        0
    } else {
        1 + first_not_below(s.drop_first(), x, lt)
    }
}

proof fn lemma_first_not_below<T>(s: Seq<T>, x: T, lt: spec_fn(T, T) -> bool)
    ensures
        0 <= first_not_below(s, x, lt) <= s.len(),
        forall|k: int| 0 <= k < first_not_below(s, x, lt) ==> lt(#[trigger] s[k], x),
        first_not_below(s, x, lt) < s.len() ==> !lt(s[first_not_below(s, x, lt)], x),
    decreases s.len(),
{
    if s.len() > 0 && lt(s[0], x) {
        lemma_first_not_below(s.drop_first(), x, lt);
        assert forall|k: int| 0 <= k < first_not_below(s, x, lt) implies lt(#[trigger] s[k], x) by {
            if k > 0 {
                assert(s[k] == s.drop_first()[k - 1]);
            }
        }
    }
}

// ── Strings ────────────────────────────────────────────────────────────

pub open spec fn str_lt() -> spec_fn(Seq<char>, Seq<char>) -> bool {
    |a: Seq<char>, b: Seq<char>| lt_seq(a, b)
}

pub proof fn lemma_str_lt_total()
    ensures
        strict_total(str_lt()),
{
    assert forall|a: Seq<char>| !#[trigger] str_lt()(a, a) by {
        lemma_order_zero_iff_eq(a, a);
    }
    assert forall|a: Seq<char>, b: Seq<char>, c: Seq<char>|
        #[trigger] str_lt()(a, b) && #[trigger] str_lt()(b, c) implies str_lt()(a, c) by {
        lemma_order_trans(a, b, c);
    }
    assert forall|a: Seq<char>, b: Seq<char>|
        !#[trigger] str_lt()(a, b) && !str_lt()(b, a) implies a == b by {
        lemma_order_antisym(a, b);
        lemma_order_zero_iff_eq(a, b);
    }
}

pub open spec fn str_views(v: Seq<String>) -> Seq<Seq<char>> {
    v.map_values(|s: String| s@)
}

/// Insert `x` into the strictly increasing `set`, unless already present.
pub fn insert_name(set: &mut Vec<String>, x: String)
    requires
        strictly_sorted(str_views(old(set)@), str_lt()),
    ensures
        str_views(final(set)@) == insert_sorted(str_views(old(set)@), x@, str_lt()),
        strictly_sorted(str_views(final(set)@), str_lt()),
{
    proof {
        lemma_str_lt_total();
    }
    let ghost s = str_views(set@);
    let mut p: usize = 0;
    while p < set.len() && compare_strings(&set[p], &x) < 0
        invariant
            p <= set@.len(),
            s == str_views(set@),
            forall|k: int| 0 <= k < p ==> lt_seq(#[trigger] s[k], x@),
        decreases set.len() - p,
    {
        assert(s[p as int] == set@[p as int]@);
        p = p + 1;
    }
    proof {
        assert forall|k: int| 0 <= k < p implies str_lt()(#[trigger] s[k], x@) by {}
        if p < s.len() {
            assert(s[p as int] == set@[p as int]@);
        }
        lemma_insert_sorted_at(s, x@, str_lt(), p as int);
    }
    if p < set.len() {
        let c = compare_strings(&set[p], &x);
        if c == 0 {
            proof {
                lemma_order_zero_iff_eq(s[p as int], x@);
            }
            return;
        }
        proof {
            lemma_order_zero_iff_eq(s[p as int], x@);
        }
    }
    let ghost xv = x@;
    set.insert(p, x);
    assert(str_views(set@) =~= s.insert(p as int, xv));
}

/// The distinct strings of `items`, sorted (`BTreeSet<&str>` iteration).
pub fn sorted_names(items: &Vec<String>) -> (out: Vec<String>)
    ensures
        str_views(out@) == sorted_set(str_views(items@), str_lt()),
        strictly_sorted(str_views(out@), str_lt()),
{
    let mut out: Vec<String> = Vec::new();
    let mut i: usize = 0;
    while i < items.len()
        invariant
            i <= items@.len(),
            str_views(out@) == sorted_set(str_views(items@).take(i as int), str_lt()),
            strictly_sorted(str_views(out@), str_lt()),
        decreases items.len() - i,
    {
        let x = items[i].clone();
        insert_name(&mut out, x);
        proof {
            let t = str_views(items@).take(i + 1);
            assert(t.drop_last() =~= str_views(items@).take(i as int));
        }
        i = i + 1;
    }
    assert(str_views(items@).take(items@.len() as int) =~= str_views(items@));
    out
}

} // verus!
