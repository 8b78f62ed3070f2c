//! A human-readable account of how two decision surfaces differ.
use vstd::prelude::*;

use crate::field_test::surface::{
    action_key, action_keys, action_lt, keys_sorted, ActionSurface, CategorySurface, DecisionSurface, IntMap,
    MetricSurface,
};
use crate::sorted::{
    insert_sorted, lemma_insert_sorted_at, lemma_sorted_set_members, lemma_str_lt_total, sorted_names, sorted_set,
    str_lt, str_views, strict_total, strictly_sorted,
};
use crate::text::{
    compare_strings, decimal, i64_chars, join, join_lines, lemma_order_antisym, lemma_order_trans,
    lemma_order_zero_iff_eq, lt_seq, push_all, push_str, string_of, usize_chars,
};

verus! {

/// The changes between two surfaces, one line each.
#[derive(Debug, Clone, PartialEq, Eq)]
pub struct SurfaceDiff {
    pub changes: Vec<String>,
}

impl Default for SurfaceDiff {
    /// No changes.
    fn default() -> (r: SurfaceDiff)
        ensures
            r.changes@.len() == 0,
    {
        SurfaceDiff { changes: Vec::new() }
    }
}

impl SurfaceDiff {
    pub fn is_empty(&self) -> (r: bool)
        ensures
            r == (self.changes@.len() == 0),
    {
        self.changes.len() == 0
    }

    /// The changes, one per line.
    pub fn render(&self) -> (r: String)
        ensures
            r@ == join(str_views(self.changes@), "\n"@),
    {
        join_lines(&self.changes, "\n")
    }
}

// ── Specification ──────────────────────────────────────────────────────

/// A score as shown in a change line.
pub open spec fn show_spec(score: Option<i64>) -> Seq<char> {
    match score {
        Some(n) => decimal(n as int),
        None => "unscored"@,
    }
}

pub open spec fn scalar_spec(label: Seq<char>, before: i64, after: i64) -> Seq<Seq<char>> {
    if before != after {
        seq!["  "@ + label + ": "@ + decimal(before as int) + " -> "@ + decimal(after as int)]
    } else {
        seq![]
    }
}

/// Changes between two sorted integer maps, in key order.
pub open spec fn map_changes_spec(
    label: Seq<char>,
    b: Seq<(Seq<char>, i64)>,
    c: Seq<(Seq<char>, i64)>,
) -> Seq<Seq<char>>
    decreases b.len() + c.len(),
{
    if b.len() == 0 && c.len() == 0 {
        seq![]
    } else if c.len() == 0 || (b.len() > 0 && lt_seq(b[0].0, c[0].0)) {
        seq!["  "@ + label + "["@ + b[0].0 + "]: "@ + decimal(b[0].1 as int) + " -> removed"@]
            + map_changes_spec(label, b.drop_first(), c)
    } else if b.len() == 0 || lt_seq(c[0].0, b[0].0) {
        seq!["  "@ + label + "["@ + c[0].0 + "]: added -> "@ + decimal(c[0].1 as int)]
            + map_changes_spec(label, b, c.drop_first())
    } else if b[0].1 != c[0].1 {
        seq![
            "  "@ + label + "["@ + b[0].0 + "]: "@ + decimal(b[0].1 as int) + " -> "@ + decimal(
                c[0].1 as int,
            ),
        ] + map_changes_spec(label, b.drop_first(), c.drop_first())
    } else {
        map_changes_spec(label, b.drop_first(), c.drop_first())
    }
}

/// The first element of `s` at or after `i` whose name is `name`.
pub open spec fn find_category(s: Seq<CategorySurface>, name: Seq<char>, i: int) -> Option<
    CategorySurface,
>
    decreases s.len() - i,
{
    if i < 0 || i >= s.len() {
        None
    } else if s[i].name@ == name {
        Some(s[i])
    } else {
        find_category(s, name, i + 1)
    }
}

pub open spec fn find_metric(s: Seq<MetricSurface>, name: Seq<char>, i: int) -> Option<
    MetricSurface,
>
    decreases s.len() - i,
{
    if i < 0 || i >= s.len() {
        None
    } else if s[i].name@ == name {
        Some(s[i])
    } else {
        find_metric(s, name, i + 1)
    }
}

pub open spec fn category_names(s: Seq<CategorySurface>) -> Seq<Seq<char>> {
    s.map_values(|c: CategorySurface| c.name@)
}

pub open spec fn metric_names(s: Seq<MetricSurface>) -> Seq<Seq<char>> {
    s.map_values(|m: MetricSurface| m.name@)
}

/// Changes of one metric of category `cat`.
pub open spec fn metric_lines(
    cat: Seq<char>,
    name: Seq<char>,
    b: Option<MetricSurface>,
    c: Option<MetricSurface>,
) -> Seq<Seq<char>> {
    let score = match (b, c) {
        (Some(x), Some(y)) => if x.score != y.score {
            seq![
                "  metric "@ + cat + "/"@ + name + ": "@ + show_spec(x.score) + " -> "@
                    + show_spec(y.score),
            ]
        } else {
            seq![]
        },
        _ => seq![],
    };
    let removed = if b is Some && c is None {
        seq!["  metric "@ + cat + "/"@ + name + " removed"@]
    } else {
        seq![]
    };
    let added = if b is None && c is Some {
        seq!["  metric "@ + cat + "/"@ + name + " added"@]
    } else {
        seq![]
    };
    score + removed + added
}

/// Metric changes over the first `k` names of `names`.
pub open spec fn metrics_lines(
    cat: Seq<char>,
    names: Seq<Seq<char>>,
    b: Seq<MetricSurface>,
    c: Seq<MetricSurface>,
) -> Seq<Seq<char>>
    decreases names.len(),
{
    if names.len() == 0 {
        seq![]
    } else {
        metrics_lines(cat, names.drop_last(), b, c) + metric_lines(
            cat,
            names.last(),
            find_metric(b, names.last(), 0),
            find_metric(c, names.last(), 0),
        )
    }
}

/// Changes of one category.
pub open spec fn category_lines(
    name: Seq<char>,
    b: Option<CategorySurface>,
    c: Option<CategorySurface>,
) -> Seq<Seq<char>> {
    let score = match (b, c) {
        (Some(x), Some(y)) => if x.score != y.score {
            seq![
                "  category "@ + name + ": "@ + show_spec(x.score) + " -> "@ + show_spec(
                    y.score,
                ),
            ]
        } else {
            seq![]
        },
        _ => seq![],
    };
    if b is Some && c is None {
        score + seq!["  category "@ + name + " removed"@]
    } else if b is None && c is Some {
        score + seq!["  category "@ + name + " added"@]
    } else {
        match (b, c) {
            (Some(x), Some(y)) => score + metrics_lines(
                name,
                sorted_set(metric_names(x.metrics@) + metric_names(y.metrics@), str_lt()),
                x.metrics@,
                y.metrics@,
            ),
            _ => score,
        }
    }
}

pub open spec fn categories_lines(
    names: Seq<Seq<char>>,
    b: Seq<CategorySurface>,
    c: Seq<CategorySurface>,
) -> Seq<Seq<char>>
    decreases names.len(),
{
    if names.len() == 0 {
        seq![]
    } else {
        categories_lines(names.drop_last(), b, c) + category_lines(
            names.last(),
            find_category(b, names.last(), 0),
            find_category(c, names.last(), 0),
        )
    }
}

pub open spec fn category_changes_spec(b: Seq<CategorySurface>, c: Seq<CategorySurface>) -> Seq<
    Seq<char>,
> {
    categories_lines(sorted_set(category_names(b) + category_names(c), str_lt()), b, c)
}

/// The action order: tab first, then text.
pub open spec fn key_lt() -> spec_fn((Seq<char>, Seq<char>), (Seq<char>, Seq<char>)) -> bool {
    |a: (Seq<char>, Seq<char>), b: (Seq<char>, Seq<char>)| action_lt(a, b)
}

pub open spec fn action_set(s: Seq<ActionSurface>) -> Seq<(Seq<char>, Seq<char>)> {
    sorted_set(s.map_values(|a: ActionSurface| action_key(a)), key_lt())
}

/// Lines for the keys of `from` absent from `other`, prefixed by `mark`.
pub open spec fn action_lines(
    from: Seq<(Seq<char>, Seq<char>)>,
    other: Seq<(Seq<char>, Seq<char>)>,
    mark: Seq<char>,
) -> Seq<Seq<char>>
    decreases from.len(),
{
    if from.len() == 0 {
        seq![]
    } else {
        let k = from.last();
        let line = if other.contains(k) {
            seq![]
        } else {
            seq!["  "@ + mark + " "@ + k.1 + " ["@ + k.0 + "]"@]
        };
        action_lines(from.drop_last(), other, mark) + line
    }
}

/// First rank at which two hotspot rankings differ.
pub open spec fn first_diff(b: Seq<Seq<char>>, c: Seq<Seq<char>>, i: int) -> int
    decreases (if b.len() > c.len() { b.len() } else { c.len() }) - i,
{
    if i < 0 || (i >= b.len() && i >= c.len()) {
        i
    } else if i < b.len() && i < c.len() && b[i] == c[i] {
        first_diff(b, c, i + 1)
    } else {
        i
    }
}

pub open spec fn hotspot_spec(b: Seq<Seq<char>>, c: Seq<Seq<char>>) -> Seq<Seq<char>> {
    if b == c {
        seq![]
    } else {
        let r = first_diff(b, c, 0);
        let rank = decimal(r + 1);
        if r < b.len() && r < c.len() {
            seq![
                "  top_hotspots ranking changed at rank "@ + rank + ": "@ + b[r] + " -> "@
                    + c[r],
            ]
        } else if r < b.len() {
            seq!["  top_hotspots ranking changed at rank "@ + rank + ": "@ + b[r] + " removed"@]
        } else if r < c.len() {
            seq!["  top_hotspots ranking changed at rank "@ + rank + ": "@ + c[r] + " added"@]
        } else {
            seq!["  top_hotspots ranking changed"@]
        }
    }
}

/// Every change between `b` and `c`, in report order.
pub open spec fn diff_spec(b: DecisionSurface, c: DecisionSurface) -> Seq<Seq<char>> {
    scalar_spec("overall_score"@, b.overall_score, c.overall_score) + scalar_spec(
        "total_files"@,
        b.total_files,
        c.total_files,
    ) + scalar_spec("total_commits"@, b.total_commits, c.total_commits) + scalar_spec(
        "total_authors"@,
        b.total_authors,
        c.total_authors,
    ) + map_changes_spec("score_thresholds"@, b.score_thresholds@, c.score_thresholds@)
        + map_changes_spec(
        "coupling_finding_counts"@,
        b.coupling_finding_counts@,
        c.coupling_finding_counts@,
    ) + category_changes_spec(b.categories@, c.categories@) + action_lines(
        action_set(b.actions@),
        action_set(c.actions@),
        "-"@,
    ) + action_lines(action_set(c.actions@), action_set(b.actions@), "+"@) + hotspot_spec(
        str_views(b.top_hotspots@),
        str_views(c.top_hotspots@),
    )
}

// ── Implementation ─────────────────────────────────────────────────────

/// A score as shown in a change line.
fn show(score: Option<i64>) -> (r: Vec<char>)
    ensures
        r@ == show_spec(score),
{
    match score {
        Some(n) => i64_chars(n),
        None => crate::text::chars_of("unscored"),
    }
}

fn scalar(out: &mut Vec<String>, label: &str, before: i64, after: i64)
    ensures
        str_views(final(out)@) == str_views(old(out)@) + scalar_spec(label@, before, after),
{
    if before != after {
        let mut line: Vec<char> = Vec::new();
        push_str(&mut line, "  ");
        push_str(&mut line, label);
        push_str(&mut line, ": ");
        let bd = i64_chars(before);
        push_all(&mut line, bd.as_slice());
        push_str(&mut line, " -> ");
        let ad = i64_chars(after);
        push_all(&mut line, ad.as_slice());
        let ghost lv = line@;
        out.push(string_of(line.as_slice()));
        assert(str_views(out@) =~= str_views(old(out)@) + seq![lv]);
    } else {
        assert(str_views(out@) =~= str_views(old(out)@) + scalar_spec(label@, before, after));
    }
}

fn push_line(out: &mut Vec<String>, line: &Vec<char>)
    ensures
        str_views(final(out)@) == str_views(old(out)@) + seq![line@],
{
    out.push(string_of(line.as_slice()));
    assert(str_views(out@) =~= str_views(old(out)@) + seq![line@]);
}

proof fn lemma_views_append(a: Seq<String>, b: Seq<Seq<char>>, c: Seq<Seq<char>>)
    ensures
        str_views(a) + b + c == str_views(a) + (b + c),
{
    assert(str_views(a) + b + c =~= str_views(a) + (b + c));
}

/// Append the changes between two integer maps, in key order.
fn map_changes(out: &mut Vec<String>, label: &str, b: &IntMap, c: &IntMap)
    ensures
        str_views(final(out)@) == str_views(old(out)@) + map_changes_spec(label@, b@, c@),
{
    let bn = b.len();
    let cn = c.len();
    let mut i: usize = 0;
    let mut j: usize = 0;
    assert(b@.skip(0) =~= b@);
    assert(c@.skip(0) =~= c@);
    while i < bn || j < cn
        invariant
            i <= bn == b@.len(),
            j <= cn == c@.len(),
            keys_sorted(b@),
            keys_sorted(c@),
            str_views(out@) + map_changes_spec(label@, b@.skip(i as int), c@.skip(j as int))
                == str_views(old(out)@) + map_changes_spec(label@, b@, c@),
        decreases bn + cn - i - j,
    {
        let ghost bs = b@.skip(i as int);
        let ghost cs = c@.skip(j as int);
        let ghost before = str_views(out@);
        if j >= cn || (i < bn && compare_strings(b.entry(i).0, c.entry(j).0) < 0) {
            let (k, v) = b.entry(i);
            let mut line: Vec<char> = Vec::new();
            push_str(&mut line, "  ");
            push_str(&mut line, label);
            push_str(&mut line, "[");
            push_str(&mut line, k.as_str());
            push_str(&mut line, "]: ");
            let d = i64_chars(v);
            push_all(&mut line, d.as_slice());
            push_str(&mut line, " -> removed");
            push_line(out, &line);
            proof {
                assert(bs.drop_first() =~= b@.skip(i + 1));
                assert(bs[0] == b@[i as int]);
                if j < cn {
                    assert(cs[0] == c@[j as int]);
                }
                lemma_views_append(old(out)@, seq![line@], map_changes_spec(label@, bs.drop_first(), cs));
            }
            i = i + 1;
        } else if i >= bn || compare_strings(c.entry(j).0, b.entry(i).0) < 0 {
            let (k, v) = c.entry(j);
            let mut line: Vec<char> = Vec::new();
            push_str(&mut line, "  ");
            push_str(&mut line, label);
            push_str(&mut line, "[");
            push_str(&mut line, k.as_str());
            push_str(&mut line, "]: added -> ");
            let d = i64_chars(v);
            push_all(&mut line, d.as_slice());
            push_line(out, &line);
            proof {
                assert(cs.drop_first() =~= c@.skip(j + 1));
                assert(cs[0] == c@[j as int]);
                if i < bn {
                    assert(bs[0] == b@[i as int]);
                    lemma_order_antisym(b@[i as int].0, c@[j as int].0);
                }
            }
            j = j + 1;
        } else {
            let (k, bv) = b.entry(i);
            let (_, cv) = c.entry(j);
            proof {
                assert(bs[0] == b@[i as int]);
                assert(cs[0] == c@[j as int]);
                lemma_order_antisym(b@[i as int].0, c@[j as int].0);
                assert(bs.drop_first() =~= b@.skip(i + 1));
                assert(cs.drop_first() =~= c@.skip(j + 1));
            }
            if bv != cv {
                let mut line: Vec<char> = Vec::new();
                push_str(&mut line, "  ");
                push_str(&mut line, label);
                push_str(&mut line, "[");
                push_str(&mut line, k.as_str());
                push_str(&mut line, "]: ");
                let d = i64_chars(bv);
                push_all(&mut line, d.as_slice());
                push_str(&mut line, " -> ");
                let d2 = i64_chars(cv);
                push_all(&mut line, d2.as_slice());
                push_line(out, &line);
            }
            i = i + 1;
            j = j + 1;
        }
        proof {
            assert(str_views(out@) + map_changes_spec(label@, b@.skip(i as int), c@.skip(j as int))
                =~= before + map_changes_spec(label@, bs, cs));
        }
    }
    proof {
        assert(b@.skip(i as int) =~= Seq::<(Seq<char>, i64)>::empty());
        assert(c@.skip(j as int) =~= Seq::<(Seq<char>, i64)>::empty());
        assert(str_views(out@) =~= str_views(out@) + map_changes_spec(
            label@,
            b@.skip(i as int),
            c@.skip(j as int),
        ));
    }
}

fn find_category_idx(s: &Vec<CategorySurface>, name: &String) -> (r: Option<usize>)
    ensures
        match r {
            Some(i) => i < s@.len() && find_category(s@, name@, 0) == Some(s@[i as int]),
            None => find_category(s@, name@, 0) is None,
        },
{
    let mut i: usize = 0;
    while i < s.len()
        invariant
            i <= s@.len(),
            find_category(s@, name@, 0) == find_category(s@, name@, i as int),
        decreases s.len() - i,
    {
        if s[i].name == *name {
            return Some(i);
        }
        i = i + 1;
    }
    None
}

fn find_metric_idx(s: &Vec<MetricSurface>, name: &String) -> (r: Option<usize>)
    ensures
        match r {
            Some(i) => i < s@.len() && find_metric(s@, name@, 0) == Some(s@[i as int]),
            None => find_metric(s@, name@, 0) is None,
        },
{
    let mut i: usize = 0;
    while i < s.len()
        invariant
            i <= s@.len(),
            find_metric(s@, name@, 0) == find_metric(s@, name@, i as int),
        decreases s.len() - i,
    {
        if s[i].name == *name {
            return Some(i);
        }
        i = i + 1;
    }
    None
}

fn push_show(line: &mut Vec<char>, score: Option<i64>)
    ensures
        final(line)@ == old(line)@ + show_spec(score),
{
    let s = show(score);
    push_all(line, s.as_slice());
}

/// Append the changes of one metric.
fn metric_changes(
    out: &mut Vec<String>,
    cat: &String,
    name: &String,
    b: Option<&MetricSurface>,
    c: Option<&MetricSurface>,
)
    ensures
        str_views(final(out)@) == str_views(old(out)@) + metric_lines(
            cat@,
            name@,
            match b { Some(x) => Some(*x), None => None },
            match c { Some(x) => Some(*x), None => None },
        ),
{
    let ghost start = str_views(out@);
    match (b, c) {
        (Some(x), Some(y)) => {
            if x.score != y.score {
                let mut line: Vec<char> = Vec::new();
                push_str(&mut line, "  metric ");
                push_str(&mut line, cat.as_str());
                push_str(&mut line, "/");
                push_str(&mut line, name.as_str());
                push_str(&mut line, ": ");
                push_show(&mut line, x.score);
                push_str(&mut line, " -> ");
                push_show(&mut line, y.score);
                push_line(out, &line);
            }
        },
        _ => {},
    }
    let ghost mid = str_views(out@);
    if b.is_some() && c.is_none() {
        let mut line: Vec<char> = Vec::new();
        push_str(&mut line, "  metric ");
        push_str(&mut line, cat.as_str());
        push_str(&mut line, "/");
        push_str(&mut line, name.as_str());
        push_str(&mut line, " removed");
        push_line(out, &line);
    }
    let ghost mid2 = str_views(out@);
    if b.is_none() && c.is_some() {
        let mut line: Vec<char> = Vec::new();
        push_str(&mut line, "  metric ");
        push_str(&mut line, cat.as_str());
        push_str(&mut line, "/");
        push_str(&mut line, name.as_str());
        push_str(&mut line, " added");
        push_line(out, &line);
    }
    proof {
        let bo = match b { Some(x) => Some(*x), None => None::<MetricSurface> };
        let co = match c { Some(x) => Some(*x), None => None::<MetricSurface> };
        assert(str_views(out@) =~= start + metric_lines(cat@, name@, bo, co));
    }
}

fn collect_metric_names(b: &Vec<MetricSurface>, c: &Vec<MetricSurface>) -> (r: Vec<String>)
    ensures
        str_views(r@) == metric_names(b@) + metric_names(c@),
{
    let mut r: Vec<String> = Vec::new();
    let mut i: usize = 0;
    while i < b.len()
        invariant
            i <= b@.len(),
            str_views(r@) == metric_names(b@).take(i as int),
        decreases b.len() - i,
    {
        let nm = b[i].name.clone();
        assert(metric_names(b@)[i as int] == nm@);
        let ghost prev = str_views(r@);
        r.push(nm);
        assert(str_views(r@) =~= prev.push(nm@));
        i = i + 1;
        assert(str_views(r@) =~= metric_names(b@).take(i as int));
    }
    let mut j: usize = 0;
    while j < c.len()
        invariant
            j <= c@.len(),
            str_views(r@) == metric_names(b@) + metric_names(c@).take(j as int),
        decreases c.len() - j,
    {
        let nm = c[j].name.clone();
        assert(metric_names(c@)[j as int] == nm@);
        let ghost prev = str_views(r@);
        r.push(nm);
        assert(str_views(r@) =~= prev.push(nm@));
        j = j + 1;
        assert(str_views(r@) =~= metric_names(b@) + metric_names(c@).take(j as int));
    }
    assert(metric_names(b@).take(b@.len() as int) =~= metric_names(b@));
    assert(metric_names(c@).take(c@.len() as int) =~= metric_names(c@));
    r
}

fn collect_category_names(b: &Vec<CategorySurface>, c: &Vec<CategorySurface>) -> (r: Vec<String>)
    ensures
        str_views(r@) == category_names(b@) + category_names(c@),
{
    let mut r: Vec<String> = Vec::new();
    let mut i: usize = 0;
    while i < b.len()
        invariant
            i <= b@.len(),
            str_views(r@) == category_names(b@).take(i as int),
        decreases b.len() - i,
    {
        let nm = b[i].name.clone();
        assert(category_names(b@)[i as int] == nm@);
        let ghost prev = str_views(r@);
        r.push(nm);
        assert(str_views(r@) =~= prev.push(nm@));
        i = i + 1;
        assert(str_views(r@) =~= category_names(b@).take(i as int));
    }
    let mut j: usize = 0;
    while j < c.len()
        invariant
            j <= c@.len(),
            str_views(r@) == category_names(b@) + category_names(c@).take(j as int),
        decreases c.len() - j,
    {
        let nm = c[j].name.clone();
        assert(category_names(c@)[j as int] == nm@);
        let ghost prev = str_views(r@);
        r.push(nm);
        assert(str_views(r@) =~= prev.push(nm@));
        j = j + 1;
        assert(str_views(r@) =~= category_names(b@) + category_names(c@).take(j as int));
    }
    assert(category_names(b@).take(b@.len() as int) =~= category_names(b@));
    assert(category_names(c@).take(c@.len() as int) =~= category_names(c@));
    r
}

fn opt_ref<T>(v: &Vec<T>, i: Option<usize>) -> (r: Option<&T>)
    requires
        i matches Some(k) ==> k < v@.len(),
    ensures
        match i {
            Some(k) => r == Some(&v@[k as int]),
            None => r is None,
        },
{
    match i {
        Some(k) => Some(&v[k]),
        None => None,
    }
}

/// Append the metric changes of a category present on both sides.
fn metrics_changes(out: &mut Vec<String>, cat: &String, b: &Vec<MetricSurface>, c: &Vec<MetricSurface>)
    ensures
        str_views(final(out)@) == str_views(old(out)@) + metrics_lines(
            cat@,
            sorted_set(metric_names(b@) + metric_names(c@), str_lt()),
            b@,
            c@,
        ),
{
    let all = collect_metric_names(b, c);
    let names = sorted_names(&all);
    let ghost ns = str_views(names@);
    let mut k: usize = 0;
    while k < names.len()
        invariant
            k <= names@.len(),
            ns == str_views(names@),
            str_views(out@) == str_views(old(out)@) + metrics_lines(cat@, ns.take(k as int), b@, c@),
        decreases names.len() - k,
    {
        let bi = find_metric_idx(b, &names[k]);
        let ci = find_metric_idx(c, &names[k]);
        metric_changes(out, cat, &names[k], opt_ref(b, bi), opt_ref(c, ci));
        proof {
            let t = ns.take(k + 1);
            assert(t.drop_last() =~= ns.take(k as int));
            assert(t.last() == names@[k as int]@);
            assert(str_views(out@) =~= str_views(old(out)@) + metrics_lines(cat@, t, b@, c@));
        }
        k = k + 1;
    }
    assert(ns.take(names@.len() as int) =~= ns);
}

/// Append the changes of one category.
fn category_change(
    out: &mut Vec<String>,
    name: &String,
    b: Option<&CategorySurface>,
    c: Option<&CategorySurface>,
)
    ensures
        str_views(final(out)@) == str_views(old(out)@) + category_lines(
            name@,
            match b { Some(x) => Some(*x), None => None },
            match c { Some(x) => Some(*x), None => None },
        ),
{
    let ghost start = str_views(out@);
    let ghost bo = match b { Some(x) => Some(*x), None => None::<CategorySurface> };
    let ghost co = match c { Some(x) => Some(*x), None => None::<CategorySurface> };
    match (b, c) {
        (Some(x), Some(y)) => {
            if x.score != y.score {
                let mut line: Vec<char> = Vec::new();
                push_str(&mut line, "  category ");
                push_str(&mut line, name.as_str());
                push_str(&mut line, ": ");
                push_show(&mut line, x.score);
                push_str(&mut line, " -> ");
                push_show(&mut line, y.score);
                push_line(out, &line);
            }
        },
        _ => {},
    }
    let ghost mid = str_views(out@);
    if b.is_some() && c.is_none() {
        let mut line: Vec<char> = Vec::new();
        push_str(&mut line, "  category ");
        push_str(&mut line, name.as_str());
        push_str(&mut line, " removed");
        push_line(out, &line);
        assert(str_views(out@) =~= start + category_lines(name@, bo, co));
        return;
    }
    if b.is_none() && c.is_some() {
        let mut line: Vec<char> = Vec::new();
        push_str(&mut line, "  category ");
        push_str(&mut line, name.as_str());
        push_str(&mut line, " added");
        push_line(out, &line);
        assert(str_views(out@) =~= start + category_lines(name@, bo, co));
        return;
    }
    match (b, c) {
        (Some(x), Some(y)) => {
            metrics_changes(out, name, &x.metrics, &y.metrics);
        },
        _ => {},
    }
    assert(str_views(out@) =~= start + category_lines(name@, bo, co));
}

/// Append the category and metric changes, by category name.
fn category_changes(out: &mut Vec<String>, b: &Vec<CategorySurface>, c: &Vec<CategorySurface>)
    ensures
        str_views(final(out)@) == str_views(old(out)@) + category_changes_spec(b@, c@),
{
    let all = collect_category_names(b, c);
    let names = sorted_names(&all);
    let ghost ns = str_views(names@);
    let mut k: usize = 0;
    while k < names.len()
        invariant
            k <= names@.len(),
            ns == str_views(names@),
            ns == sorted_set(category_names(b@) + category_names(c@), str_lt()),
            str_views(out@) == str_views(old(out)@) + categories_lines(ns.take(k as int), b@, c@),
        decreases names.len() - k,
    {
        let bi = find_category_idx(b, &names[k]);
        let ci = find_category_idx(c, &names[k]);
        category_change(out, &names[k], opt_ref(b, bi), opt_ref(c, ci));
        proof {
            let t = ns.take(k + 1);
            assert(t.drop_last() =~= ns.take(k as int));
            assert(t.last() == names@[k as int]@);
            assert(str_views(out@) =~= str_views(old(out)@) + categories_lines(t, b@, c@));
        }
        k = k + 1;
    }
    assert(ns.take(names@.len() as int) =~= ns);
}

pub open spec fn pair_views(v: Seq<(String, String)>) -> Seq<(Seq<char>, Seq<char>)> {
    v.map_values(|p: (String, String)| (p.0@, p.1@))
}

proof fn lemma_key_lt_total()
    ensures
        strict_total(key_lt()),
{
    lemma_str_lt_total();
    assert forall|a: (Seq<char>, Seq<char>)| !#[trigger] key_lt()(a, a) by {
        assert(!str_lt()(a.0, a.0));
        assert(!str_lt()(a.1, a.1));
    }
    assert forall|a: (Seq<char>, Seq<char>), b: (Seq<char>, Seq<char>), c: (Seq<char>, Seq<char>)|
        #[trigger] key_lt()(a, b) && #[trigger] key_lt()(b, c) implies key_lt()(a, c) by {
        if lt_seq(a.0, b.0) && lt_seq(b.0, c.0) {
            assert(str_lt()(a.0, b.0) && str_lt()(b.0, c.0));
            assert(str_lt()(a.0, c.0));
        } else if lt_seq(a.0, b.0) {
        } else if lt_seq(b.0, c.0) {
        } else {
            assert(str_lt()(a.1, b.1) && str_lt()(b.1, c.1));
            assert(str_lt()(a.1, c.1));
        }
    }
    assert forall|a: (Seq<char>, Seq<char>), b: (Seq<char>, Seq<char>)|
        !#[trigger] key_lt()(a, b) && !key_lt()(b, a) implies a == b by {
        assert(!str_lt()(a.0, b.0) || a.0 == b.0);
        if str_lt()(a.0, b.0) {
        } else if str_lt()(b.0, a.0) {
        } else {
            assert(a.0 == b.0);
            assert(!str_lt()(a.1, b.1) && !str_lt()(b.1, a.1));
            assert(a.1 == b.1);
        }
    }
}

/// Three-way comparison of two actions in the derived order.
fn compare_keys(a: &(String, String), b: &(String, String)) -> (r: i8)
    ensures
        r < 0 <==> action_lt((a.0@, a.1@), (b.0@, b.1@)),
        r == 0 <==> (a.0@, a.1@) == (b.0@, b.1@),
{
    let c = compare_strings(&a.0, &b.0);
    proof {
        lemma_order_zero_iff_eq(a.0@, b.0@);
        lemma_order_zero_iff_eq(a.1@, b.1@);
        lemma_order_antisym(a.0@, b.0@);
    }
    if c != 0 {
        c
    } else {
        compare_strings(&a.1, &b.1)
    }
}

fn insert_key(set: &mut Vec<(String, String)>, x: (String, String))
    requires
        strictly_sorted(pair_views(old(set)@), key_lt()),
    ensures
        pair_views(final(set)@) == insert_sorted(pair_views(old(set)@), (x.0@, x.1@), key_lt()),
        strictly_sorted(pair_views(final(set)@), key_lt()),
{
    proof {
        lemma_key_lt_total();
    }
    let ghost s = pair_views(set@);
    let ghost xv = (x.0@, x.1@);
    let mut p: usize = 0;
    while p < set.len() && compare_keys(&set[p], &x) < 0
        invariant
            p <= set@.len(),
            s == pair_views(set@),
            xv == (x.0@, x.1@),
            forall|k: int| 0 <= k < p ==> key_lt()(#[trigger] s[k], xv),
        decreases set.len() - p,
    {
        assert(s[p as int] == (set@[p as int].0@, set@[p as int].1@));
        p = p + 1;
    }
    proof {
        if p < s.len() {
            assert(s[p as int] == (set@[p as int].0@, set@[p as int].1@));
        }
        lemma_insert_sorted_at(s, xv, key_lt(), p as int);
    }
    if p < set.len() {
        if compare_keys(&set[p], &x) == 0 {
            return;
        }
    }
    set.insert(p, x);
    assert(pair_views(set@) =~= s.insert(p as int, xv));
}

fn action_key_set(actions: &Vec<ActionSurface>) -> (out: Vec<(String, String)>)
    ensures
        pair_views(out@) == action_set(actions@),
{
    let ghost keys = actions@.map_values(|a: ActionSurface| action_key(a));
    let mut out: Vec<(String, String)> = Vec::new();
    let mut i: usize = 0;
    while i < actions.len()
        invariant
            i <= actions@.len(),
            keys == actions@.map_values(|a: ActionSurface| action_key(a)),
            pair_views(out@) == sorted_set(keys.take(i as int), key_lt()),
            strictly_sorted(pair_views(out@), key_lt()),
        decreases actions.len() - i,
    {
        let x = (actions[i].target_tab.clone(), actions[i].text.clone());
        assert((x.0@, x.1@) == keys[i as int]);
        insert_key(&mut out, x);
        proof {
            let t = keys.take(i + 1);
            assert(t.drop_last() =~= keys.take(i as int));
        }
        i = i + 1;
    }
    assert(keys.take(actions@.len() as int) =~= keys);
    out
}

fn contains_key(set: &Vec<(String, String)>, k: &(String, String)) -> (r: bool)
    ensures
        r == pair_views(set@).contains((k.0@, k.1@)),
{
    let mut i: usize = 0;
    while i < set.len()
        invariant
            i <= set@.len(),
            forall|j: int| 0 <= j < i ==> pair_views(set@)[j] != (k.0@, k.1@),
        decreases set.len() - i,
    {
        if set[i].0 == k.0 && set[i].1 == k.1 {
            assert(pair_views(set@)[i as int] == (k.0@, k.1@));
            return true;
        }
        i = i + 1;
    }
    false
}

/// Append a line for each key of `from` missing from `other`.
fn action_changes(out: &mut Vec<String>, from: &Vec<(String, String)>, other: &Vec<(String, String)>, mark: &str)
    ensures
        str_views(final(out)@) == str_views(old(out)@) + action_lines(pair_views(from@), pair_views(other@), mark@),
{
    let ghost fs = pair_views(from@);
    let mut k: usize = 0;
    while k < from.len()
        invariant
            k <= from@.len(),
            fs == pair_views(from@),
            str_views(out@) == str_views(old(out)@) + action_lines(fs.take(k as int), pair_views(other@), mark@),
        decreases from.len() - k,
    {
        let present = contains_key(other, &from[k]);
        if !present {
            let mut line: Vec<char> = Vec::new();
            push_str(&mut line, "  ");
            push_str(&mut line, mark);
            push_str(&mut line, " ");
            push_str(&mut line, from[k].1.as_str());
            push_str(&mut line, " [");
            push_str(&mut line, from[k].0.as_str());
            push_str(&mut line, "]");
            push_line(out, &line);
        }
        proof {
            let t = fs.take(k + 1);
            assert(t.drop_last() =~= fs.take(k as int));
            assert(t.last() == fs[k as int]);
            assert(str_views(out@) =~= str_views(old(out)@) + action_lines(t, pair_views(other@), mark@));
        }
        k = k + 1;
    }
    assert(fs.take(from@.len() as int) =~= fs);
}

fn hotspot_change(out: &mut Vec<String>, b: &Vec<String>, c: &Vec<String>)
    ensures
        str_views(final(out)@) == str_views(old(out)@) + hotspot_spec(str_views(b@), str_views(c@)),
{
    let ghost bv = str_views(b@);
    let ghost cv = str_views(c@);
    let mut r: usize = 0;
    while r < b.len() && r < c.len() && b[r] == c[r]
        invariant
            r <= b@.len(),
            r <= c@.len(),
            bv == str_views(b@),
            cv == str_views(c@),
            forall|j: int| 0 <= j < r ==> bv[j] == cv[j],
            first_diff(bv, cv, 0) == first_diff(bv, cv, r as int),
        decreases b.len() - r,
    {
        assert(bv[r as int] == b@[r as int]@);
        assert(cv[r as int] == c@[r as int]@);
        r = r + 1;
    }
    if r >= b.len() && r >= c.len() {
        assert(bv =~= cv);
        assert(str_views(out@) =~= str_views(old(out)@) + hotspot_spec(bv, cv));
        return;
    }
    proof {
        if r < b.len() && r < c.len() {
            assert(bv[r as int] != cv[r as int]);
        }
        assert(bv != cv) by {
            if bv == cv {
                assert(bv.len() == cv.len());
                assert(bv[r as int] == cv[r as int]);
            }
        }
    }
    let mut line: Vec<char> = Vec::new();
    push_str(&mut line, "  top_hotspots ranking changed at rank ");
    let rank = usize_chars(r + 1);
    push_all(&mut line, rank.as_slice());
    push_str(&mut line, ": ");
    if r < b.len() && r < c.len() {
        push_str(&mut line, b[r].as_str());
        push_str(&mut line, " -> ");
        push_str(&mut line, c[r].as_str());
    } else if r < b.len() {
        push_str(&mut line, b[r].as_str());
        push_str(&mut line, " removed");
    } else {
        push_str(&mut line, c[r].as_str());
        push_str(&mut line, " added");
    }
    push_line(out, &line);
    assert(str_views(out@) =~= str_views(old(out)@) + hotspot_spec(bv, cv));
}

/// Compare a committed baseline against a freshly measured surface.
pub fn diff_surfaces(baseline: &DecisionSurface, current: &DecisionSurface) -> (d: SurfaceDiff)
    ensures
        str_views(d.changes@) == diff_spec(*baseline, *current),
{
    let mut out: Vec<String> = Vec::new();
    scalar(&mut out, "overall_score", baseline.overall_score, current.overall_score);
    scalar(&mut out, "total_files", baseline.total_files, current.total_files);
    scalar(&mut out, "total_commits", baseline.total_commits, current.total_commits);
    scalar(&mut out, "total_authors", baseline.total_authors, current.total_authors);
    map_changes(&mut out, "score_thresholds", &baseline.score_thresholds, &current.score_thresholds);
    map_changes(
        &mut out,
        "coupling_finding_counts",
        &baseline.coupling_finding_counts,
        &current.coupling_finding_counts,
    );
    category_changes(&mut out, &baseline.categories, &current.categories);
    let before = action_key_set(&baseline.actions);
    let after = action_key_set(&current.actions);
    action_changes(&mut out, &before, &after, "-");
    action_changes(&mut out, &after, &before, "+");
    hotspot_change(&mut out, &baseline.top_hotspots, &current.top_hotspots);
    proof {
        assert(str_views(Seq::<String>::empty()) =~= Seq::<Seq<char>>::empty());
        assert(str_views(out@) =~= diff_spec(*baseline, *current));
    }
    SurfaceDiff { changes: out }
}

// ── Laws ───────────────────────────────────────────────────────────────

proof fn lemma_map_changes_same(label: Seq<char>, m: Seq<(Seq<char>, i64)>)
    ensures
        map_changes_spec(label, m, m) == Seq::<Seq<char>>::empty(),
    decreases m.len(),
{
    if m.len() > 0 {
        lemma_order_zero_iff_eq(m[0].0, m[0].0);
        lemma_map_changes_same(label, m.drop_first());
    }
}

proof fn lemma_metrics_same(cat: Seq<char>, names: Seq<Seq<char>>, m: Seq<MetricSurface>)
    ensures
        metrics_lines(cat, names, m, m) == Seq::<Seq<char>>::empty(),
    decreases names.len(),
{
    if names.len() > 0 {
        lemma_metrics_same(cat, names.drop_last(), m);
        let x = find_metric(m, names.last(), 0);
        assert(metric_lines(cat, names.last(), x, x) =~= Seq::<Seq<char>>::empty());
    }
}

proof fn lemma_categories_same(names: Seq<Seq<char>>, c: Seq<CategorySurface>)
    ensures
        categories_lines(names, c, c) == Seq::<Seq<char>>::empty(),
    decreases names.len(),
{
    if names.len() > 0 {
        lemma_categories_same(names.drop_last(), c);
        let x = find_category(c, names.last(), 0);
        match x {
            Some(cat) => {
                lemma_metrics_same(
                    names.last(),
                    sorted_set(metric_names(cat.metrics@) + metric_names(cat.metrics@), str_lt()),
                    cat.metrics@,
                );
            },
            None => {},
        }
        assert(category_lines(names.last(), x, x) =~= Seq::<Seq<char>>::empty());
        assert(categories_lines(names, c, c) =~= Seq::<Seq<char>>::empty());
    }
}

proof fn lemma_actions_covered(from: Seq<(Seq<char>, Seq<char>)>, other: Seq<(Seq<char>, Seq<char>)>, mark: Seq<char>)
    requires
        forall|i: int| 0 <= i < from.len() ==> other.contains(#[trigger] from[i]),
    ensures
        action_lines(from, other, mark) == Seq::<Seq<char>>::empty(),
    decreases from.len(),
{
    if from.len() > 0 {
        let f = from.drop_last();
        assert forall|i: int| 0 <= i < f.len() implies other.contains(#[trigger] f[i]) by {
            assert(f[i] == from[i]);
        }
        lemma_actions_covered(f, other, mark);
        assert(other.contains(from[from.len() - 1]));
    }
}

/// Comparing a surface with itself reports no change.
pub proof fn lemma_identical_surfaces_have_no_changes(s: DecisionSurface)
    ensures
        diff_spec(s, s) == Seq::<Seq<char>>::empty(),
{
    lemma_map_changes_same("score_thresholds"@, s.score_thresholds@);
    lemma_map_changes_same("coupling_finding_counts"@, s.coupling_finding_counts@);
    lemma_categories_same(
        sorted_set(category_names(s.categories@) + category_names(s.categories@), str_lt()),
        s.categories@,
    );
    let a = action_set(s.actions@);
    assert forall|i: int| 0 <= i < a.len() implies a.contains(#[trigger] a[i]) by {}
    lemma_actions_covered(a, a, "-"@);
    lemma_actions_covered(a, a, "+"@);
    assert(diff_spec(s, s) =~= Seq::<Seq<char>>::empty());
}

/// A difference in the overall score is always reported, with both values.
pub proof fn lemma_score_change_is_reported(b: DecisionSurface, c: DecisionSurface)
    requires
        b.overall_score != c.overall_score,
    ensures
        diff_spec(b, c).len() > 0,
        diff_spec(b, c)[0] == "  "@ + "overall_score"@ + ": "@ + decimal(b.overall_score as int)
            + " -> "@ + decimal(c.overall_score as int),
{
    let first = scalar_spec("overall_score"@, b.overall_score, c.overall_score);
    assert(first.len() == 1);
    assert(diff_spec(b, c)[0] == first[0]);
}

proof fn lemma_map_changes_empty(label: Seq<char>, b: Seq<(Seq<char>, i64)>, c: Seq<(Seq<char>, i64)>)
    requires
        map_changes_spec(label, b, c).len() == 0,
    ensures
        b == c,
    decreases b.len() + c.len(),
{
    if b.len() > 0 && c.len() > 0 {
        lemma_order_antisym(b[0].0, c[0].0);
        lemma_order_zero_iff_eq(b[0].0, c[0].0);
        lemma_map_changes_empty(label, b.drop_first(), c.drop_first());
        assert(b =~= seq![b[0]] + b.drop_first());
        assert(c =~= seq![c[0]] + c.drop_first());
    }
}

proof fn lemma_find_category(s: Seq<CategorySurface>, name: Seq<char>, i: int)
    requires
        0 <= i <= s.len(),
    ensures
        find_category(s, name, i) is Some <==> exists|j: int| i <= j < s.len() && (#[trigger] s[j]).name@ == name,
    decreases s.len() - i,
{
    if i < s.len() {
        lemma_find_category(s, name, i + 1);
        if exists|j: int| i <= j < s.len() && (#[trigger] s[j]).name@ == name {
            let j = choose|j: int| i <= j < s.len() && (#[trigger] s[j]).name@ == name;
            if j > i {
                assert(i + 1 <= j);
            }
        }
    }
}

proof fn lemma_has_category(s: Seq<CategorySurface>, name: Seq<char>)
    ensures
        find_category(s, name, 0) is Some <==> category_names(s).contains(name),
{
    lemma_find_category(s, name, 0);
    if category_names(s).contains(name) {
        let j = choose|j: int| 0 <= j < category_names(s).len() && category_names(s)[j] == name;
        assert(s[j].name@ == name);
    }
    if find_category(s, name, 0) is Some {
        let j = choose|j: int| 0 <= j < s.len() && (#[trigger] s[j]).name@ == name;
        assert(category_names(s)[j] == name);
    }
}

proof fn lemma_categories_empty(names: Seq<Seq<char>>, b: Seq<CategorySurface>, c: Seq<CategorySurface>, i: int)
    requires
        categories_lines(names, b, c).len() == 0,
        0 <= i < names.len(),
    ensures
        find_category(b, names[i], 0) is Some <==> find_category(c, names[i], 0) is Some,
    decreases names.len(),
{
    let last = category_lines(names.last(), find_category(b, names.last(), 0), find_category(c, names.last(), 0));
    assert(categories_lines(names, b, c) == categories_lines(names.drop_last(), b, c) + last);
    if i < names.len() - 1 {
        lemma_categories_empty(names.drop_last(), b, c, i);
        assert(names.drop_last()[i] == names[i]);
    }
}

proof fn lemma_action_lines_empty(from: Seq<(Seq<char>, Seq<char>)>, other: Seq<(Seq<char>, Seq<char>)>, mark: Seq<char>, i: int)
    requires
        action_lines(from, other, mark).len() == 0,
        0 <= i < from.len(),
    ensures
        other.contains(from[i]),
    decreases from.len(),
{
    if i < from.len() - 1 {
        lemma_action_lines_empty(from.drop_last(), other, mark, i);
        assert(from.drop_last()[i] == from[i]);
    }
}

proof fn lemma_actions_agree(b: Seq<ActionSurface>, c: Seq<ActionSurface>, k: (Seq<char>, Seq<char>), mark: Seq<char>)
    requires
        action_lines(action_set(b), action_set(c), mark).len() == 0,
        action_keys(b).contains(k),
    ensures
        action_keys(c).contains(k),
{
    lemma_key_lt_total();
    assert(action_keys(b) =~= b.map_values(|a: ActionSurface| action_key(a)));
    assert(action_keys(c) =~= c.map_values(|a: ActionSurface| action_key(a)));
    lemma_sorted_set_members(action_keys(b), key_lt(), k);
    lemma_sorted_set_members(action_keys(c), key_lt(), k);
    let i = choose|i: int| 0 <= i < action_set(b).len() && action_set(b)[i] == k;
    lemma_action_lines_empty(action_set(b), action_set(c), mark, i);
}

proof fn lemma_names_agree(b: Seq<CategorySurface>, c: Seq<CategorySurface>, n: Seq<char>)
    requires
        category_changes_spec(b, c).len() == 0,
        category_names(b).contains(n) || category_names(c).contains(n),
    ensures
        category_names(b).contains(n) && category_names(c).contains(n),
{
    lemma_str_lt_total();
    let all = category_names(b) + category_names(c);
    let names = sorted_set(all, str_lt());
    if category_names(b).contains(n) {
        let j = choose|j: int| 0 <= j < category_names(b).len() && category_names(b)[j] == n;
        assert(all[j] == n);
    } else {
        let j = choose|j: int| 0 <= j < category_names(c).len() && category_names(c)[j] == n;
        assert(all[category_names(b).len() + j] == n);
    }
    lemma_sorted_set_members(all, str_lt(), n);
    let i = choose|i: int| 0 <= i < names.len() && names[i] == n;
    lemma_categories_empty(names, b, c, i);
    lemma_has_category(b, n);
    lemma_has_category(c, n);
}

/// An empty diff means the two surfaces agree on everything the diff
/// compares: the four counts, both integer maps, the set of actions, the
/// hotspot ranking and the set of category names.
pub proof fn lemma_empty_diff_means_same_surface(b: DecisionSurface, c: DecisionSurface)
    requires
        diff_spec(b, c).len() == 0,
    ensures
        b.overall_score == c.overall_score,
        b.total_files == c.total_files,
        b.total_commits == c.total_commits,
        b.total_authors == c.total_authors,
        b.score_thresholds@ == c.score_thresholds@,
        b.coupling_finding_counts@ == c.coupling_finding_counts@,
        forall|k: (Seq<char>, Seq<char>)|
            action_keys(b.actions@).contains(k) <==> #[trigger] action_keys(c.actions@).contains(k),
        str_views(b.top_hotspots@) == str_views(c.top_hotspots@),
        forall|n: Seq<char>|
            category_names(b.categories@).contains(n) <==> #[trigger] category_names(c.categories@).contains(n),
{
    lemma_map_changes_empty("score_thresholds"@, b.score_thresholds@, c.score_thresholds@);
    lemma_map_changes_empty("coupling_finding_counts"@, b.coupling_finding_counts@, c.coupling_finding_counts@);
    assert forall|k: (Seq<char>, Seq<char>)|
        action_keys(b.actions@).contains(k) <==> #[trigger] action_keys(c.actions@).contains(k) by {
        if action_keys(b.actions@).contains(k) {
            lemma_actions_agree(b.actions@, c.actions@, k, "-"@);
        }
        if action_keys(c.actions@).contains(k) {
            lemma_actions_agree(c.actions@, b.actions@, k, "+"@);
        }
    }
    assert forall|n: Seq<char>|
        category_names(b.categories@).contains(n) <==> #[trigger] category_names(c.categories@).contains(n) by {
        if category_names(b.categories@).contains(n) || category_names(c.categories@).contains(n) {
            lemma_names_agree(b.categories@, c.categories@, n);
        }
    }
}

proof fn lemma_find_metric(s: Seq<MetricSurface>, name: Seq<char>, i: int)
    requires
        0 <= i <= s.len(),
    ensures
        find_metric(s, name, i) is Some <==> exists|j: int| i <= j < s.len() && (#[trigger] s[j]).name@ == name,
    decreases s.len() - i,
{
    if i < s.len() {
        lemma_find_metric(s, name, i + 1);
        if exists|j: int| i <= j < s.len() && (#[trigger] s[j]).name@ == name {
            let j = choose|j: int| i <= j < s.len() && (#[trigger] s[j]).name@ == name;
            if j > i {
                assert(i + 1 <= j);
            }
        }
    }
}

proof fn lemma_has_metric(s: Seq<MetricSurface>, name: Seq<char>)
    ensures
        find_metric(s, name, 0) is Some <==> metric_names(s).contains(name),
{
    lemma_find_metric(s, name, 0);
    if metric_names(s).contains(name) {
        let j = choose|j: int| 0 <= j < metric_names(s).len() && metric_names(s)[j] == name;
        assert(s[j].name@ == name);
    }
    if find_metric(s, name, 0) is Some {
        let j = choose|j: int| 0 <= j < s.len() && (#[trigger] s[j]).name@ == name;
        assert(metric_names(s)[j] == name);
    }
}

proof fn lemma_category_lines_each_empty(names: Seq<Seq<char>>, b: Seq<CategorySurface>, c: Seq<CategorySurface>, i: int)
    requires
        categories_lines(names, b, c).len() == 0,
        0 <= i < names.len(),
    ensures
        category_lines(names[i], find_category(b, names[i], 0), find_category(c, names[i], 0)).len() == 0,
    decreases names.len(),
{
    let last = category_lines(names.last(), find_category(b, names.last(), 0), find_category(c, names.last(), 0));
    assert(categories_lines(names, b, c) == categories_lines(names.drop_last(), b, c) + last);
    if i < names.len() - 1 {
        lemma_category_lines_each_empty(names.drop_last(), b, c, i);
        assert(names.drop_last()[i] == names[i]);
    }
}

proof fn lemma_metric_lines_each_empty(cat: Seq<char>, names: Seq<Seq<char>>, b: Seq<MetricSurface>, c: Seq<MetricSurface>, i: int)
    requires
        metrics_lines(cat, names, b, c).len() == 0,
        0 <= i < names.len(),
    ensures
        metric_lines(cat, names[i], find_metric(b, names[i], 0), find_metric(c, names[i], 0)).len() == 0,
    decreases names.len(),
{
    let last = metric_lines(cat, names.last(), find_metric(b, names.last(), 0), find_metric(c, names.last(), 0));
    assert(metrics_lines(cat, names, b, c) == metrics_lines(cat, names.drop_last(), b, c) + last);
    if i < names.len() - 1 {
        lemma_metric_lines_each_empty(cat, names.drop_last(), b, c, i);
        assert(names.drop_last()[i] == names[i]);
    }
}

proof fn lemma_metric_agrees(cat: Seq<char>, x: Seq<MetricSurface>, y: Seq<MetricSurface>, m: Seq<char>)
    requires
        metrics_lines(cat, sorted_set(metric_names(x) + metric_names(y), str_lt()), x, y).len() == 0,
        find_metric(x, m, 0) is Some || find_metric(y, m, 0) is Some,
    ensures
        find_metric(x, m, 0) is Some,
        find_metric(y, m, 0) is Some,
        find_metric(x, m, 0)->0.score == find_metric(y, m, 0)->0.score,
{
    lemma_str_lt_total();
    lemma_has_metric(x, m);
    lemma_has_metric(y, m);
    let all = metric_names(x) + metric_names(y);
    let names = sorted_set(all, str_lt());
    if metric_names(x).contains(m) {
        let j = choose|j: int| 0 <= j < metric_names(x).len() && metric_names(x)[j] == m;
        assert(all[j] == m);
    } else {
        let j = choose|j: int| 0 <= j < metric_names(y).len() && metric_names(y)[j] == m;
        assert(all[metric_names(x).len() + j] == m);
    }
    lemma_sorted_set_members(all, str_lt(), m);
    let i = choose|i: int| 0 <= i < names.len() && names[i] == m;
    lemma_metric_lines_each_empty(cat, names, x, y, i);
}

/// An empty diff means that every category present in both surfaces has
/// the same score in both, that it holds metrics of the same names in
/// both, and that each of those metrics has the same score in both.
pub proof fn lemma_empty_diff_means_same_scores(b: DecisionSurface, c: DecisionSurface, cat: Seq<char>, m: Seq<char>)
    requires
        diff_spec(b, c).len() == 0,
        find_category(b.categories@, cat, 0) is Some,
        find_category(c.categories@, cat, 0) is Some,
    ensures
        find_category(b.categories@, cat, 0)->0.score == find_category(c.categories@, cat, 0)->0.score,
        find_metric(find_category(b.categories@, cat, 0)->0.metrics@, m, 0) is Some
            <==> find_metric(find_category(c.categories@, cat, 0)->0.metrics@, m, 0) is Some,
        find_metric(find_category(b.categories@, cat, 0)->0.metrics@, m, 0) is Some
            ==> find_metric(find_category(b.categories@, cat, 0)->0.metrics@, m, 0)->0.score
            == find_metric(find_category(c.categories@, cat, 0)->0.metrics@, m, 0)->0.score,
{
    lemma_str_lt_total();
    let bc = b.categories@;
    let cc = c.categories@;
    let x = find_category(bc, cat, 0)->0;
    let y = find_category(cc, cat, 0)->0;
    lemma_has_category(bc, cat);
    let all = category_names(bc) + category_names(cc);
    let names = sorted_set(all, str_lt());
    let j = choose|j: int| 0 <= j < category_names(bc).len() && category_names(bc)[j] == cat;
    assert(all[j] == cat);
    lemma_sorted_set_members(all, str_lt(), cat);
    let i = choose|i: int| 0 <= i < names.len() && names[i] == cat;
    assert(category_changes_spec(bc, cc).len() == 0);
    lemma_category_lines_each_empty(names, bc, cc, i);
    let mnames = sorted_set(metric_names(x.metrics@) + metric_names(y.metrics@), str_lt());
    let score: Seq<Seq<char>> = if x.score != y.score {
        seq!["  category "@ + cat + ": "@ + show_spec(x.score) + " -> "@ + show_spec(y.score)]
    } else {
        seq![]
    };
    assert(category_lines(cat, Some(x), Some(y)) == score + metrics_lines(cat, mnames, x.metrics@, y.metrics@));
    if find_metric(x.metrics@, m, 0) is Some || find_metric(y.metrics@, m, 0) is Some {
        lemma_metric_agrees(cat, x.metrics@, y.metrics@, m);
    }
}

} // verus!
