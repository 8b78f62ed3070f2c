//! Reducing a full analysis report to its decision surface.
use vstd::prelude::*;

use crate::field_test::surface::{
    action_key, action_keys, action_lt, lookup, ActionSurface, CategorySurface, DecisionSurface,
    IntMap, MetricSurface, HOTSPOT_LIMIT,
};
use crate::json::{
    field, int_at, int_of, items_at, items_of, members_at, members_of, text_at, text_or_empty, Json,
};
use crate::sorted::str_views;
use crate::text::{compare_strings, lemma_order_antisym, lemma_order_trans, lemma_order_zero_iff_eq, lt_seq};

verus! {

pub type MetricView = (Seq<char>, Option<i64>);

pub type CategoryView = (Seq<char>, Option<i64>, Seq<MetricView>);

pub type ActionKey = (Seq<char>, Seq<char>);

pub open spec fn metric_view(m: MetricSurface) -> MetricView {
    (m.name@, m.score)
}

pub open spec fn category_view(c: CategorySurface) -> CategoryView {
    (c.name@, c.score, c.metrics@.map_values(|m: MetricSurface| metric_view(m)))
}

/// A report metric: its name (or the empty text) and its score when it is
/// an integer.
pub open spec fn json_metric(m: Json) -> MetricView {
    (text_or_empty(field(m, "name"@)), int_of(field(m, "score"@)))
}

pub open spec fn json_category(c: Json) -> CategoryView {
    (
        text_or_empty(field(c, "name"@)),
        int_of(field(c, "score"@)),
        items_of(field(c, "metrics"@)).map_values(|m: Json| json_metric(m)),
    )
}

pub open spec fn json_action(a: Json) -> ActionKey {
    (text_or_empty(field(a, "target_tab"@)), text_or_empty(field(a, "text"@)))
}

/// The recommendations listed under `key`.
pub open spec fn json_actions(report: Json, key: Seq<char>) -> Seq<ActionKey> {
    items_of(field(report, key)).map_values(|a: Json| json_action(a))
}

/// The integer the last integer member named `k` holds.
pub open spec fn int_member(es: Seq<(String, Json)>, k: Seq<char>) -> Option<i64>
    decreases es.len(),
{
    if es.len() == 0 {
        None
    } else if es.last().0@ == k && int_of(Some(es.last().1)) is Some {
        int_of(Some(es.last().1))
    } else {
        int_member(es.drop_last(), k)
    }
}

/// The `path` texts of hotspot entries, entries without one skipped.
pub open spec fn hotspot_paths(hs: Seq<Json>) -> Seq<Seq<char>>
    decreases hs.len(),
{
    if hs.len() == 0 {
        seq![]
    } else {
        hotspot_paths(hs.drop_last()) + match field(hs.last(), "path"@) {
            Some(Json::Str(p)) => seq![p@],
            _ => seq![],
        }
    }
}

/// At most the first `n` items.
pub open spec fn first_n<A>(s: Seq<A>, n: int) -> Seq<A> {
    if n < s.len() {
        s.take(n)
    } else {
        s
    }
}

/// Non-decreasing in the order of `ActionSurface`.
pub open spec fn actions_sorted(s: Seq<ActionKey>) -> bool {
    forall|i: int, j: int| 0 <= i < j < s.len() ==> !action_lt(#[trigger] s[j], #[trigger] s[i])
}

pub open spec fn int_or_zero(n: Option<i64>) -> i64 {
    match n {
        Some(v) => v,
        None => 0,
    }
}

/// The decision surface of a report.
pub open spec fn surface_of(report: Json, s: DecisionSurface) -> bool {
    &&& s.overall_score == int_or_zero(int_of(field(report, "overall_score"@)))
    &&& s.total_files == int_or_zero(int_of(field(report, "total_files"@)))
    &&& s.total_commits == int_or_zero(int_of(field(report, "total_commits"@)))
    &&& s.total_authors == int_or_zero(int_of(field(report, "total_authors"@)))
    &&& forall|k: Seq<char>|
        #[trigger] lookup(s.score_thresholds@, k) == int_member(
            members_of(field(report, "score_thresholds"@)),
            k,
        )
    &&& forall|k: Seq<char>|
        #[trigger] lookup(s.coupling_finding_counts@, k) == int_member(
            members_of(field(report, "coupling_finding_counts"@)),
            k,
        )
    &&& s.categories@.map_values(|c: CategorySurface| category_view(c)) == items_of(
        field(report, "categories"@),
    ).map_values(|c: Json| json_category(c))
    &&& actions_sorted(action_keys(s.actions@))
    &&& action_keys(s.actions@).to_multiset() == (json_actions(report, "top_actions"@)
        + json_actions(report, "coupling_actions"@)).to_multiset()
    &&& str_views(s.top_hotspots@) == hotspot_paths(
        first_n(items_of(field(report, "file_hotspots"@)), HOTSPOT_LIMIT as int),
    )
}

// ── The order of actions ───────────────────────────────────────────────

proof fn lemma_action_lt_irreflexive(a: ActionKey)
    ensures
        !action_lt(a, a),
{
    lemma_order_zero_iff_eq(a.0, a.0);
    lemma_order_zero_iff_eq(a.1, a.1);
}

proof fn lemma_action_lt_trans(a: ActionKey, b: ActionKey, c: ActionKey)
    requires
        action_lt(a, b),
        action_lt(b, c),
    ensures
        action_lt(a, c),
{
    if lt_seq(a.0, b.0) && lt_seq(b.0, c.0) {
        lemma_order_trans(a.0, b.0, c.0);
    }
    if a.0 == b.0 && b.0 == c.0 && lt_seq(a.1, b.1) && lt_seq(b.1, c.1) {
        lemma_order_trans(a.1, b.1, c.1);
    }
}

proof fn lemma_action_lt_total(a: ActionKey, b: ActionKey)
    requires
        !action_lt(a, b),
        !action_lt(b, a),
    ensures
        a == b,
{
    lemma_order_antisym(a.0, b.0);
    lemma_order_zero_iff_eq(a.0, b.0);
    lemma_order_antisym(a.1, b.1);
    lemma_order_zero_iff_eq(a.1, b.1);
}

/// Two sorted arrangements of the same actions are the same sequence.
pub proof fn lemma_sorted_arrangement_is_unique(a: Seq<ActionKey>, b: Seq<ActionKey>)
    requires
        actions_sorted(a),
        actions_sorted(b),
        a.to_multiset() == b.to_multiset(),
    ensures
        a == b,
    decreases a.len(),
{
    broadcast use vstd::seq_lib::to_multiset_contains, vstd::seq_lib::to_multiset_len;

    assert(a.len() == a.to_multiset().len());
    assert(b.len() == b.to_multiset().len());
    if a.len() == 0 {
        assert(a =~= b);
    } else {
        assert(a.contains(a[0]));
        assert(a.to_multiset().contains(a[0]));
        assert(b.contains(a[0]));
        assert(b.contains(b[0]));
        assert(b.to_multiset().contains(b[0]));
        assert(a.contains(b[0]));
        let j = choose|j: int| 0 <= j < b.len() && b[j] == a[0];
        let i = choose|i: int| 0 <= i < a.len() && a[i] == b[0];
        if j > 0 {
            assert(!action_lt(b[j], b[0]));
        } else {
            lemma_action_lt_irreflexive(a[0]);
        }
        if i > 0 {
            assert(!action_lt(a[i], a[0]));
        } else {
            lemma_action_lt_irreflexive(b[0]);
        }
        lemma_action_lt_total(a[0], b[0]);
        vstd::seq_lib::to_multiset_remove(a, 0);
        vstd::seq_lib::to_multiset_remove(b, 0);
        assert(a.remove(0) =~= a.drop_first());
        assert(b.remove(0) =~= b.drop_first());
        let ta = a.drop_first();
        let tb = b.drop_first();
        assert forall|p: int, q: int| 0 <= p < q < ta.len() implies !action_lt(#[trigger] ta[q], #[trigger] ta[p]) by {
            assert(ta[p] == a[p + 1] && ta[q] == a[q + 1]);
        }
        assert forall|p: int, q: int| 0 <= p < q < tb.len() implies !action_lt(#[trigger] tb[q], #[trigger] tb[p]) by {
            assert(tb[p] == b[p + 1] && tb[q] == b[q + 1]);
        }
        lemma_sorted_arrangement_is_unique(ta, tb);
        assert(a =~= seq![a[0]] + ta);
        assert(b =~= seq![b[0]] + tb);
    }
}

/// The order in which a report lists its recommendations does not reach
/// the surface: reports whose two action lists hold the same actions, in
/// any arrangement, give the same surface actions.
pub proof fn lemma_action_order_does_not_matter(r1: Json, s1: DecisionSurface, r2: Json, s2: DecisionSurface)
    requires
        surface_of(r1, s1),
        surface_of(r2, s2),
        (json_actions(r1, "top_actions"@) + json_actions(r1, "coupling_actions"@)).to_multiset() == (
        json_actions(r2, "top_actions"@) + json_actions(r2, "coupling_actions"@)).to_multiset(),
    ensures
        action_keys(s1.actions@) == action_keys(s2.actions@),
{
    lemma_sorted_arrangement_is_unique(action_keys(s1.actions@), action_keys(s2.actions@));
}

/// Three-way comparison of two actions in their order.
fn compare_actions(a: &ActionSurface, b: &ActionSurface) -> (r: i8)
    ensures
        (r < 0) == action_lt(action_key(*a), action_key(*b)),
        (r == 0) == (action_key(*a) == action_key(*b)),
        (r > 0) == action_lt(action_key(*b), action_key(*a)),
{
    proof {
        lemma_order_antisym(a.target_tab@, b.target_tab@);
        lemma_order_zero_iff_eq(a.target_tab@, b.target_tab@);
        lemma_order_antisym(a.text@, b.text@);
        lemma_order_zero_iff_eq(a.text@, b.text@);
    }
    let c = compare_strings(&a.target_tab, &b.target_tab);
    if c != 0 {
        c
    } else {
        compare_strings(&a.text, &b.text)
    }
}

/// The actions in non-decreasing order: the same items, sorted.
pub fn sort_actions(items: Vec<ActionSurface>) -> (r: Vec<ActionSurface>)
    ensures
        actions_sorted(action_keys(r@)),
        action_keys(r@).to_multiset() == action_keys(items@).to_multiset(),
{
    broadcast use vstd::seq_lib::to_multiset_insert;

    let ghost all = action_keys(items@);
    let mut out: Vec<ActionSurface> = Vec::new();
    assert(action_keys(out@) =~= all.take(0));
    for x in it: items
        invariant
            action_keys(it.seq()) == all,
            actions_sorted(action_keys(out@)),
            action_keys(out@).to_multiset() == all.take(it.index() as int).to_multiset(),
    {
        let ghost i = it.index() as int;
        let ghost ok = action_keys(out@);
        let ghost xk = action_key(x);
        let mut p: usize = 0;
        while p < out.len() && compare_actions(&x, &out[p]) >= 0
            invariant
                p <= out@.len(),
                ok == action_keys(out@),
                xk == action_key(x),
                forall|k: int| 0 <= k < p ==> !action_lt(xk, #[trigger] ok[k]),
            decreases out.len() - p,
        {
            p = p + 1;
        }
        proof {
            if (p as int) < ok.len() {
                assert(action_lt(xk, ok[p as int]));
            }
        }
        out.insert(p, x);
        proof {
            let nk = action_keys(out@);
            assert(nk =~= ok.insert(p as int, xk));
            assert forall|a: int, b: int| 0 <= a < b < nk.len() implies !action_lt(#[trigger] nk[b], #[trigger] nk[a]) by {
                if b < p {
                    assert(nk[a] == ok[a] && nk[b] == ok[b]);
                } else if b == p {
                    assert(nk[a] == ok[a]);
                } else if a == p {
                    assert(nk[b] == ok[b - 1]);
                    if action_lt(ok[b - 1], xk) {
                        lemma_action_lt_trans(ok[b - 1], xk, ok[p as int]);
                        if b - 1 == p {
                            lemma_action_lt_irreflexive(ok[p as int]);
                        }
                    }
                } else if a < p {
                    assert(nk[a] == ok[a] && nk[b] == ok[b - 1]);
                } else {
                    assert(nk[a] == ok[a - 1] && nk[b] == ok[b - 1]);
                }
            }
            assert(all[i] == xk);
            assert(all.take(i + 1) =~= all.take(i).push(xk));
            vstd::seq_lib::to_multiset_build(all.take(i), xk);
            vstd::seq_lib::to_multiset_insert(ok, p as int, xk);
        }
    }
    proof {
        assert(all.take(all.len() as int) =~= all);
    }
    out
}

// ── Reading the report ─────────────────────────────────────────────────

/// `coupling_finding_counts`-style maps: the integer members of an object.
fn int_map_of(v: Option<&Json>) -> (m: IntMap)
    ensures
        forall|k: Seq<char>|
            #[trigger] lookup(m@, k) == int_member(
                members_of(
                    match v {
                        Some(j) => Some(*j),
                        None => None,
                    },
                ),
                k,
            ),
{
    let es = members_at(v);
    let mut m = IntMap::new();
    let mut i: usize = 0;
    while i < es.len()
        invariant
            i <= es@.len(),
            forall|k: Seq<char>| #[trigger] lookup(m@, k) == int_member(es@.take(i as int), k),
        decreases es.len() - i,
    {
        proof {
            let t = es@.take(i + 1);
            assert(t.drop_last() =~= es@.take(i as int));
            assert(t.last() == es@[i as int]);
        }
        match es[i].1.as_i64() {
            Some(n) => {
                m.insert(es[i].0.clone(), n);
            },
            None => {},
        }
        i = i + 1;
    }
    assert(es@.take(es@.len() as int) =~= es@);
    m
}

fn metric_of(m: &Json) -> (r: MetricSurface)
    ensures
        metric_view(r) == json_metric(*m),
{
    proof {
        reveal_strlit("name");
        reveal_strlit("score");
    }
    MetricSurface { name: text_at(m.get("name")), score: int_at(m.get("score")) }
}

fn category_of(c: &Json) -> (r: CategorySurface)
    ensures
        category_view(r) == json_category(*c),
{
    let ms = items_at(c.get("metrics"));
    let mut metrics: Vec<MetricSurface> = Vec::new();
    let mut i: usize = 0;
    while i < ms.len()
        invariant
            i <= ms@.len(),
            metrics@.len() == i,
            metrics@.map_values(|m: MetricSurface| metric_view(m)) == ms@.take(i as int).map_values(
                |m: Json| json_metric(m),
            ),
        decreases ms.len() - i,
    {
        let ghost prev = metrics@;
        metrics.push(metric_of(&ms[i]));
        proof {
            let lhs = metrics@.map_values(|m: MetricSurface| metric_view(m));
            let rhs = ms@.take(i + 1).map_values(|m: Json| json_metric(m));
            let old_rhs = ms@.take(i as int).map_values(|m: Json| json_metric(m));
            assert forall|k: int| 0 <= k < i implies lhs[k] == rhs[k] by {
                assert(prev.map_values(|m: MetricSurface| metric_view(m))[k] == old_rhs[k]);
                assert(metrics@[k] == prev[k]);
            }
            assert(lhs =~= rhs);
        }
        i = i + 1;
    }
    assert(ms@.take(ms@.len() as int) =~= ms@);
    CategorySurface { name: text_at(c.get("name")), score: int_at(c.get("score")), metrics }
}

fn actions_into(report: &Json, key: &str, out: &mut Vec<ActionSurface>)
    ensures
        action_keys(final(out)@) == action_keys(old(out)@) + json_actions(*report, key@),
{
    let items = items_at(report.get(key));
    let ghost base = action_keys(out@);
    let mut i: usize = 0;
    assert(base + items@.take(0).map_values(|a: Json| json_action(a)) =~= base);
    while i < items.len()
        invariant
            i <= items@.len(),
            out@.len() == base.len() + i,
            action_keys(out@) == base + items@.take(i as int).map_values(|a: Json| json_action(a)),
        decreases items.len() - i,
    {
        proof {
            reveal_strlit("target_tab");
            reveal_strlit("text");
        }
        let a = &items[i];
        let act = ActionSurface { target_tab: text_at(a.get("target_tab")), text: text_at(a.get("text")) };
        let ghost prev = out@;
        out.push(act);
        proof {
            let lhs = action_keys(out@);
            let rhs = base + items@.take(i + 1).map_values(|a: Json| json_action(a));
            let old_rhs = base + items@.take(i as int).map_values(|a: Json| json_action(a));
            assert forall|k: int| 0 <= k < lhs.len() - 1 implies lhs[k] == rhs[k] by {
                assert(action_keys(prev)[k] == old_rhs[k]);
                assert(out@[k] == prev[k]);
            }
            assert(lhs =~= rhs);
        }
        i = i + 1;
    }
    assert(items@.take(items@.len() as int) =~= items@);
}

fn hotspots_of(report: &Json) -> (r: Vec<String>)
    ensures
        str_views(r@) == hotspot_paths(first_n(items_of(field(*report, "file_hotspots"@)), HOTSPOT_LIMIT as int)),
{
    let hs = items_at(report.get("file_hotspots"));
    let n = if hs.len() < HOTSPOT_LIMIT { hs.len() } else { HOTSPOT_LIMIT };
    let mut out: Vec<String> = Vec::new();
    let mut i: usize = 0;
    while i < n
        invariant
            i <= n <= hs@.len(),
            str_views(out@) == hotspot_paths(hs@.take(i as int)),
        decreases n - i,
    {
        proof {
            let t = hs@.take(i + 1);
            assert(t.drop_last() =~= hs@.take(i as int));
            assert(t.last() == hs@[i as int]);
            reveal_strlit("path");
        }
        let ghost prev = str_views(out@);
        match hs[i].get("path") {
            Some(Json::Str(p)) => {
                out.push(p.clone());
                assert(str_views(out@) =~= prev.push(p@));
            },
            _ => {},
        }
        i = i + 1;
    }
    proof {
        let all = hs@;
        if (HOTSPOT_LIMIT as int) < all.len() {
            assert(first_n(all, HOTSPOT_LIMIT as int) == all.take(n as int));
        } else {
            assert(all.take(n as int) =~= all);
        }
    }
    out
}

/// Reduce a full report to the decisions it expresses: the four counts
/// (zero where absent), the two integer maps, the categories with their
/// metric scores (unscored metrics stay unscored), both action lists merged
/// and sorted, and the paths of the top twenty hotspots in rank order.
pub fn extract_surface(report: &Json) -> (s: DecisionSurface)
    ensures
        surface_of(*report, s),
{
    proof {
        reveal_strlit("categories");
    }
    let cats = items_at(report.get("categories"));
    let mut categories: Vec<CategorySurface> = Vec::new();
    let mut i: usize = 0;
    while i < cats.len()
        invariant
            i <= cats@.len(),
            categories@.len() == i,
            categories@.map_values(|c: CategorySurface| category_view(c)) == cats@.take(i as int).map_values(
                |c: Json| json_category(c),
            ),
        decreases cats.len() - i,
    {
        let ghost prev = categories@;
        categories.push(category_of(&cats[i]));
        proof {
            let lhs = categories@.map_values(|c: CategorySurface| category_view(c));
            let rhs = cats@.take(i + 1).map_values(|c: Json| json_category(c));
            let old_rhs = cats@.take(i as int).map_values(|c: Json| json_category(c));
            assert forall|k: int| 0 <= k < i implies lhs[k] == rhs[k] by {
                assert(prev.map_values(|c: CategorySurface| category_view(c))[k] == old_rhs[k]);
                assert(categories@[k] == prev[k]);
            }
            assert(lhs =~= rhs);
        }
        i = i + 1;
    }
    assert(cats@.take(cats@.len() as int) =~= cats@);
    let mut merged: Vec<ActionSurface> = Vec::new();
    actions_into(report, "top_actions", &mut merged);
    actions_into(report, "coupling_actions", &mut merged);
    assert(action_keys(merged@) =~= json_actions(*report, "top_actions"@) + json_actions(
        *report,
        "coupling_actions"@,
    ));
    let actions = sort_actions(merged);
    let top_hotspots = hotspots_of(report);
    DecisionSurface {
        overall_score: match int_at(report.get("overall_score")) {
            Some(n) => n,
            None => 0,
        },
        total_files: match int_at(report.get("total_files")) {
            Some(n) => n,
            None => 0,
        },
        total_commits: match int_at(report.get("total_commits")) {
            Some(n) => n,
            None => 0,
        },
        total_authors: match int_at(report.get("total_authors")) {
            Some(n) => n,
            None => 0,
        },
        score_thresholds: int_map_of(report.get("score_thresholds")),
        coupling_finding_counts: int_map_of(report.get("coupling_finding_counts")),
        categories,
        actions,
        top_hotspots,
    }
}

} // verus!
