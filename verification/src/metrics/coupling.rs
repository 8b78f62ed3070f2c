//! The coupling category: afferent and efferent coupling scored on the
//! median per-file degree (a single hub is normal; what matters is whether
//! most files have many dependencies), and circular dependencies at depths
//! one and two. Paths are compared as `std::path::Path`s.
use vstd::prelude::*;
use crate::text::{
    decimal, lemma_order_antisym, lemma_order_zero_iff_eq, lt_seq, push_str, string_of, usize_chars,
};

verus! {

// ── Paths ──────────────────────────────────────────────────────────────

/// The pieces of `s` between `/` separators (`str::split('/')`).
pub open spec fn slash_pieces(s: Seq<char>) -> Seq<Seq<char>>
    decreases s.len(),
{
    if s.len() == 0 {
        seq![Seq::<char>::empty()]
    } else {
        let p = slash_pieces(s.drop_last());
        if s.last() == '/' {
            p.push(Seq::<char>::empty())
        } else {
            p.update(p.len() - 1, p.last().push(s.last()))
        }
    }
}

/// A path component: `(1, "")` the root, `(2, "")` a leading `.`,
/// `(3, "")` a `..`, `(4, name)` a normal component. The tags follow the
/// declaration order of `std::path::Component`, which orders components.
pub type PathComponent = (int, Seq<char>);

/// The components the pieces give: empty pieces and `.` are dropped.
pub open spec fn piece_components(ps: Seq<Seq<char>>) -> Seq<PathComponent>
    decreases ps.len(),
{
    if ps.len() == 0 {
        seq![]
    } else {
        let rest = piece_components(ps.drop_last());
        let p = ps.last();
        if p.len() == 0 || p == seq!['.'] {
            rest
        } else if p == seq!['.', '.'] {
            rest.push((3int, Seq::<char>::empty()))
        } else {
            rest.push((4int, p))
        }
    }
}

/// `Path::components` on Unix: a leading `/` is the root, a leading `.`
/// is kept, and repeated separators, other `.`s and a trailing separator
/// are normalized away.
pub open spec fn path_components(s: Seq<char>) -> Seq<PathComponent> {
    let ps = slash_pieces(s);
    if s.len() > 0 && s[0] == '/' {
        seq![(1int, Seq::<char>::empty())] + piece_components(ps)
    } else if ps[0] == seq!['.'] {
        seq![(2int, Seq::<char>::empty())] + piece_components(ps)
    } else {
        piece_components(ps)
    }
}

/// `Path::new(a) == Path::new(b)`: the same components.
pub open spec fn same_path(a: Seq<char>, b: Seq<char>) -> bool {
    path_components(a) == path_components(b)
}

pub open spec fn component_lt(x: PathComponent, y: PathComponent) -> bool {
    x.0 < y.0 || (x.0 == y.0 && lt_seq(x.1, y.1))
}

/// Lexicographic order of component sequences.
pub open spec fn components_lt(c: Seq<PathComponent>, d: Seq<PathComponent>) -> bool
    decreases c.len(),
{
    if c.len() == 0 {
        d.len() > 0
    } else if d.len() == 0 {
        false
    } else if c[0] == d[0] {
        components_lt(c.drop_first(), d.drop_first())
    } else {
        component_lt(c[0], d[0])
    }
}

/// `Path::new(a) < Path::new(b)`: the components compared in order, a
/// normal component by its text.
pub open spec fn path_before(a: Seq<char>, b: Seq<char>) -> bool {
    components_lt(path_components(a), path_components(b))
}

/// `<Path as PartialEq>::eq`: component-wise equality.
#[verifier::external_body]
pub(crate) fn path_eq(a: &str, b: &str) -> (r: bool)
    ensures
        r == same_path(a@, b@),
{
    std::path::Path::new(a) == std::path::Path::new(b)
}

/// `<Path as PartialOrd>::lt`: component-wise order.
#[verifier::external_body]
fn path_lt(a: &str, b: &str) -> (r: bool)
    ensures
        r == path_before(a@, b@),
{
    std::path::Path::new(a) < std::path::Path::new(b)
}

proof fn lemma_components_order(c: Seq<PathComponent>, d: Seq<PathComponent>)
    ensures
        c == d ==> !components_lt(c, d),
        c != d ==> components_lt(c, d) != components_lt(d, c),
    decreases c.len(),
{
    if c.len() > 0 && d.len() > 0 {
        if c[0] == d[0] {
            lemma_components_order(c.drop_first(), d.drop_first());
            if c != d {
                assert(c.drop_first() != d.drop_first()) by {
                    if c.drop_first() == d.drop_first() {
                        assert(c =~= seq![c[0]] + c.drop_first());
                        assert(d =~= seq![d[0]] + d.drop_first());
                    }
                }
            }
        } else {
            lemma_order_antisym(c[0].1, d[0].1);
            lemma_order_zero_iff_eq(c[0].1, d[0].1);
            if c[0].0 == d[0].0 {
                assert(c[0].1 != d[0].1);
            }
        }
    } else if c.len() == 0 && d.len() == 0 {
        assert(c =~= d);
    }
}

/// Paths are ordered totally: a path is never before itself, and of two
/// different paths exactly one is before the other.
pub proof fn lemma_path_order_is_total(a: Seq<char>, b: Seq<char>)
    ensures
        same_path(a, b) ==> !path_before(a, b) && !path_before(b, a),
        !same_path(a, b) ==> path_before(a, b) != path_before(b, a),
{
    lemma_components_order(path_components(a), path_components(b));
    lemma_components_order(path_components(b), path_components(a));
}

// ── The import graph ───────────────────────────────────────────────────

/// Each file's imports, as `(file, imported files)`.
pub type GraphView = Seq<(Seq<char>, Seq<Seq<char>>)>;

/// No two files of the graph are the same path.
pub open spec fn distinct_files(g: GraphView) -> bool {
    forall|i: int, j: int| 0 <= i < g.len() && 0 <= j < g.len() && i != j ==> !same_path(#[trigger] g[i].0, #[trigger] g[j].0)
}

/// Which files import which, keyed by path (a map: one entry per path).
#[derive(Debug)]
pub struct ImportGraph {
    entries: Vec<(String, Vec<String>)>,
}

pub open spec fn entry_view(e: (String, Vec<String>)) -> (Seq<char>, Seq<Seq<char>>) {
    (e.0@, e.1@.map_values(|t: String| t@))
}

impl View for ImportGraph {
    type V = GraphView;

    closed spec fn view(&self) -> GraphView {
        self.entries@.map_values(|e: (String, Vec<String>)| entry_view(e))
    }
}

/// The position of the entry for `p`, if any.
pub open spec fn position_of(g: GraphView, p: Seq<char>) -> Option<int>
    decreases g.len(),
{
    if g.len() == 0 {
        None
    } else {
        match position_of(g.drop_last(), p) {
            Some(i) => Some(i),
            None => if same_path(g.last().0, p) {
                Some(g.len() - 1)
            } else {
                None
            },
        }
    }
}

/// The imports of `p`, if the graph has an entry for it.
pub open spec fn targets_of(g: GraphView, p: Seq<char>) -> Option<Seq<Seq<char>>> {
    match position_of(g, p) {
        Some(i) => Some(g[i].1),
        None => None,
    }
}

proof fn lemma_position_of(g: GraphView, p: Seq<char>)
    ensures
        match position_of(g, p) {
            Some(i) => 0 <= i < g.len() && same_path(g[i].0, p) && forall|k: int| 0 <= k < i ==> !same_path(#[trigger] g[k].0, p),
            None => forall|k: int| 0 <= k < g.len() ==> !same_path(#[trigger] g[k].0, p),
        },
    decreases g.len(),
{
    if g.len() > 0 {
        lemma_position_of(g.drop_last(), p);
        match position_of(g.drop_last(), p) {
            Some(i) => {
                assert forall|k: int| 0 <= k < i implies !same_path(#[trigger] g[k].0, p) by {
                    assert(g[k] == g.drop_last()[k]);
                }
            },
            None => {
                assert forall|k: int| 0 <= k < g.len() - 1 implies !same_path(#[trigger] g[k].0, p) by {
                    assert(g[k] == g.drop_last()[k]);
                }
            },
        }
    }
}

impl ImportGraph {
    #[verifier::type_invariant]
    closed spec fn inv(self) -> bool {
        distinct_files(self@)
    }

    pub fn new() -> (g: ImportGraph)
        ensures
            g@ == GraphView::empty(),
    {
        let g = ImportGraph { entries: Vec::new() };
        assert(g@ =~= GraphView::empty());
        g
    }

    /// The entries, one per file.
    pub closed spec fn spec_len(&self) -> nat {
        self@.len()
    }

    /// Record the imports of `file`, replacing those recorded for the same
    /// path (whose spelling is kept), as a map insert does.
    pub fn insert(&mut self, file: String, imports: Vec<String>)
        ensures
            match position_of(old(self)@, file@) {
                Some(i) => final(self)@ == old(self)@.update(i, (old(self)@[i].0, imports@.map_values(|t: String| t@))),
                None => final(self)@ == old(self)@.push((file@, imports@.map_values(|t: String| t@))),
            },
    {
        proof {
            use_type_invariant(&*self);
            lemma_position_of(self@, file@);
        }
        let ghost old_v = self@;
        let mut i: usize = 0;
        while i < self.entries.len() && !path_eq(self.entries[i].0.as_str(), file.as_str())
            invariant
                i <= self.entries@.len(),
                old_v == self@,
                distinct_files(old_v),
                forall|k: int| 0 <= k < i ==> !same_path(#[trigger] old_v[k].0, file@),
                forall|k: int| 0 <= k < i ==> !same_path(file@, #[trigger] old_v[k].0),
            decreases self.entries.len() - i,
        {
            assert(old_v[i as int].0 == self.entries@[i as int].0@);
            i = i + 1;
        }
        let mut entries: Vec<(String, Vec<String>)> = Vec::new();
        std::mem::swap(&mut entries, &mut self.entries);
        let ghost iv = imports@.map_values(|t: String| t@);
        if i < entries.len() {
            assert(old_v[i as int].0 == entries@[i as int].0@);
            let key = entries[i].0.clone();
            entries.set(i, (key, imports));
            assert(entries@.map_values(|e: (String, Vec<String>)| entry_view(e)) =~= old_v.update(i as int, (old_v[i as int].0, iv)));
        } else {
            entries.push((file, imports));
            assert(entries@.map_values(|e: (String, Vec<String>)| entry_view(e)) =~= old_v.push((file@, iv)));
        }
        self.entries = entries;
    }

    /// The imports recorded for `file`.
    pub fn get(&self, file: &str) -> (r: Option<&Vec<String>>)
        ensures
            match r {
                Some(ts) => targets_of(self@, file@) == Some(ts@.map_values(|t: String| t@)),
                None => targets_of(self@, file@) is None,
            },
    {
        proof {
            lemma_position_of(self@, file@);
        }
        let ghost v = self@;
        let mut i: usize = 0;
        while i < self.entries.len()
            invariant
                i <= self.entries@.len(),
                v == self@,
                forall|k: int| 0 <= k < i ==> !same_path(#[trigger] v[k].0, file@),
            decreases self.entries.len() - i,
        {
            assert(v[i as int].0 == self.entries@[i as int].0@);
            if path_eq(self.entries[i].0.as_str(), file) {
                proof {
                    lemma_position_of(v, file@);
                }
                assert(v[i as int] == entry_view(self.entries@[i as int]));
                return Some(&self.entries[i].1);
            }
            i = i + 1;
        }
        None
    }

    /// The number of files with recorded imports.
    pub fn len(&self) -> (n: usize)
        ensures
            n == self@.len(),
    {
        self.entries.len()
    }

    /// The `i`-th entry.
    pub fn entry(&self, i: usize) -> (r: (&String, &Vec<String>))
        requires
            i < self@.len(),
        ensures
            r.0@ == self@[i as int].0,
            r.1@.map_values(|t: String| t@) == self@[i as int].1,
    {
        (&self.entries[i].0, &self.entries[i].1)
    }
}

pub open spec fn paths_view(v: Seq<String>) -> Seq<Seq<char>> {
    v.map_values(|t: String| t@)
}

// ── Degrees ────────────────────────────────────────────────────────────

/// How many of `ts` are the path `p`.
pub open spec fn count_path(ts: Seq<Seq<char>>, p: Seq<char>) -> nat
    decreases ts.len(),
{
    if ts.len() == 0 {
        0
    } else {
        count_path(ts.drop_last(), p) + if same_path(ts.last(), p) {
            1nat
        } else {
            0nat
        }
    }
}

/// Imports of `p` by the first `i` files of the graph.
pub open spec fn incoming_upto(g: GraphView, p: Seq<char>, i: int) -> nat
    decreases i,
{
    if i <= 0 || i > g.len() {
        0
    } else {
        incoming_upto(g, p, i - 1) + count_path(g[i - 1].1, p)
    }
}

/// Afferent degree: how many imports point at `p`.
pub open spec fn incoming(g: GraphView, p: Seq<char>) -> nat {
    incoming_upto(g, p, g.len() as int)
}

pub open spec fn edges_upto(g: GraphView, i: int) -> nat
    decreases i,
{
    if i <= 0 || i > g.len() {
        0
    } else {
        edges_upto(g, i - 1) + g[i - 1].1.len()
    }
}

/// The number of import edges.
pub open spec fn edge_count(g: GraphView) -> nat {
    edges_upto(g, g.len() as int)
}

/// Efferent degree: how many files `p` imports.
pub open spec fn out_degree(g: GraphView, p: Seq<char>) -> nat {
    match targets_of(g, p) {
        Some(ts) => ts.len(),
        None => 0,
    }
}

proof fn lemma_count_path_bound(ts: Seq<Seq<char>>, p: Seq<char>)
    ensures
        count_path(ts, p) <= ts.len(),
    decreases ts.len(),
{
    if ts.len() > 0 {
        lemma_count_path_bound(ts.drop_last(), p);
    }
}

proof fn lemma_incoming_bound(g: GraphView, p: Seq<char>, i: int)
    requires
        0 <= i <= g.len(),
    ensures
        incoming_upto(g, p, i) <= edges_upto(g, i),
    decreases i,
{
    if i > 0 {
        lemma_incoming_bound(g, p, i - 1);
        lemma_count_path_bound(g[i - 1].1, p);
    }
}

proof fn lemma_edges_monotone(g: GraphView, i: int, j: int)
    requires
        0 <= i <= j <= g.len(),
    ensures
        edges_upto(g, i) <= edges_upto(g, j),
    decreases j - i,
{
    if i < j {
        lemma_edges_monotone(g, i, j - 1);
    }
}

/// The imports of `p` within one import list.
fn count_in_list(ts: &Vec<String>, p: &str) -> (n: usize)
    ensures
        n == count_path(paths_view(ts@), p@),
{
    let ghost tv = paths_view(ts@);
    let mut n: usize = 0;
    let mut k: usize = 0;
    while k < ts.len()
        invariant
            k <= ts@.len(),
            tv == paths_view(ts@),
            n == count_path(tv.take(k as int), p@),
            n <= k,
        decreases ts.len() - k,
    {
        proof {
            let t = tv.take(k + 1);
            assert(t.drop_last() =~= tv.take(k as int));
            assert(t.last() == ts@[k as int]@);
        }
        if path_eq(ts[k].as_str(), p) {
            n = n + 1;
        }
        k = k + 1;
    }
    assert(tv.take(ts@.len() as int) =~= tv);
    n
}

/// Afferent degrees of `files`: `None` when the graph has no import edge at
/// all, else how many imports point at each file.
pub fn afferent_degrees(g: &ImportGraph, files: &Vec<String>) -> (r: Option<Vec<usize>>)
    requires
        edge_count(g@) <= usize::MAX,
    ensures
        match r {
            None => edge_count(g@) == 0,
            Some(ds) => edge_count(g@) > 0 && ds@.len() == files@.len() && forall|i: int|
                0 <= i < files@.len() ==> ds@[i] == incoming(g@, #[trigger] files@[i]@),
        },
{
    let ghost gv = g@;
    let mut any = false;
    let mut e: usize = 0;
    while e < g.len()
        invariant
            e <= gv.len(),
            gv == g@,
            any == (edges_upto(gv, e as int) > 0),
        decreases gv.len() - e,
    {
        let (_, ts) = g.entry(e);
        if ts.len() > 0 {
            any = true;
        }
        e = e + 1;
    }
    if !any {
        return None;
    }
    let mut out: Vec<usize> = Vec::new();
    let mut f: usize = 0;
    while f < files.len()
        invariant
            f <= files@.len(),
            gv == g@,
            edge_count(gv) <= usize::MAX,
            out@.len() == f,
            forall|i: int| 0 <= i < f ==> out@[i] == incoming(gv, #[trigger] files@[i]@),
        decreases files.len() - f,
    {
        let p = files[f].as_str();
        let mut total: usize = 0;
        let mut e: usize = 0;
        while e < g.len()
            invariant
                e <= gv.len(),
                gv == g@,
                edge_count(gv) <= usize::MAX,
                total == incoming_upto(gv, p@, e as int),
            decreases gv.len() - e,
        {
            let (_, ts) = g.entry(e);
            let n = count_in_list(ts, p);
            proof {
                lemma_incoming_bound(gv, p@, e + 1);
                lemma_edges_monotone(gv, e + 1, gv.len() as int);
            }
            total = total + n;
            e = e + 1;
        }
        out.push(total);
        f = f + 1;
    }
    Some(out)
}

/// Efferent degrees of `files`: `None` when the graph records no file at
/// all, else how many files each one imports.
pub fn efferent_degrees(g: &ImportGraph, files: &Vec<String>) -> (r: Option<Vec<usize>>)
    ensures
        match r {
            None => g@.len() == 0,
            Some(ds) => g@.len() > 0 && ds@.len() == files@.len() && forall|i: int|
                0 <= i < files@.len() ==> ds@[i] == out_degree(g@, #[trigger] files@[i]@),
        },
{
    if g.len() == 0 {
        return None;
    }
    let mut out: Vec<usize> = Vec::new();
    let mut f: usize = 0;
    while f < files.len()
        invariant
            f <= files@.len(),
            out@.len() == f,
            forall|i: int| 0 <= i < f ==> out@[i] == out_degree(g@, #[trigger] files@[i]@),
        decreases files.len() - f,
    {
        let d = match g.get(files[f].as_str()) {
            Some(ts) => ts.len(),
            None => 0,
        };
        out.push(d);
        f = f + 1;
    }
    Some(out)
}

// ── Median and scores ──────────────────────────────────────────────────

pub open spec fn nondecreasing(s: Seq<usize>) -> bool {
    forall|i: int, j: int| 0 <= i < j < s.len() ==> #[trigger] s[i] <= #[trigger] s[j]
}

/// A sorted arrangement of `d`: the same values, in increasing order.
pub open spec fn sorted_arrangement(s: Seq<usize>, d: Seq<usize>) -> bool {
    nondecreasing(s) && s.to_multiset() == d.to_multiset()
}

/// Twice the median of a sorted sequence (twice, so that the mean of the
/// two middle values stays an integer).
pub open spec fn twice_median_of(s: Seq<usize>) -> int {
    if s.len() % 2 == 0 {
        s[s.len() / 2 - 1] + s[(s.len() / 2) as int]
    } else {
        2 * s[(s.len() / 2) as int]
    }
}

/// Twice the median of the values `d`.
pub open spec fn twice_median(d: Seq<usize>) -> int {
    twice_median_of(choose|s: Seq<usize>| sorted_arrangement(s, d))
}

pub open spec fn max_upto(s: Seq<usize>, i: int) -> int
    decreases i,
{
    if i <= 0 || i > s.len() {
        0
    } else if max_upto(s, i - 1) < s[i - 1] {
        s[i - 1] as int
    } else {
        max_upto(s, i - 1)
    }
}

pub open spec fn sum_upto(s: Seq<usize>, i: int) -> int
    decreases i,
{
    if i <= 0 || i > s.len() {
        0
    } else {
        sum_upto(s, i - 1) + s[i - 1]
    }
}

/// Two sorted arrangements of the same values are the same sequence.
pub proof fn lemma_sorted_arrangement_is_unique(a: Seq<usize>, b: Seq<usize>)
    requires
        nondecreasing(a),
        nondecreasing(b),
        a.to_multiset() == b.to_multiset(),
    ensures
        a == b,
    decreases a.len(),
{
    broadcast use vstd::seq_lib::to_multiset_contains, vstd::seq_lib::to_multiset_len;

    assert(a.len() == a.to_multiset().len());
    assert(b.len() == b.to_multiset().len());
    if a.len() == 0 {
        assert(a =~= b);
    } else {
        assert(a.contains(a[0]));
        assert(a.to_multiset().contains(a[0]));
        assert(b.contains(a[0]));
        assert(b.contains(b[0]));
        assert(b.to_multiset().contains(b[0]));
        assert(a.contains(b[0]));
        let j = choose|j: int| 0 <= j < b.len() && b[j] == a[0];
        let i = choose|i: int| 0 <= i < a.len() && a[i] == b[0];
        assert(b[0] <= b[j]);
        assert(a[0] <= a[i]);
        vstd::seq_lib::to_multiset_remove(a, 0);
        vstd::seq_lib::to_multiset_remove(b, 0);
        assert(a.remove(0) =~= a.drop_first());
        assert(b.remove(0) =~= b.drop_first());
        let ta = a.drop_first();
        let tb = b.drop_first();
        assert forall|p: int, q: int| 0 <= p < q < ta.len() implies #[trigger] ta[p] <= #[trigger] ta[q] by {
            assert(ta[p] == a[p + 1] && ta[q] == a[q + 1]);
        }
        assert forall|p: int, q: int| 0 <= p < q < tb.len() implies #[trigger] tb[p] <= #[trigger] tb[q] by {
            assert(tb[p] == b[p + 1] && tb[q] == b[q + 1]);
        }
        lemma_sorted_arrangement_is_unique(ta, tb);
        assert(a =~= seq![a[0]] + ta);
        assert(b =~= seq![b[0]] + tb);
    }
}

/// Where `x` goes in the sorted `t`: after every value not above it.
pub open spec fn insert_position(t: Seq<usize>, x: usize) -> int
    decreases t.len(),
{
    if t.len() == 0 {
        0
    } else if t.last() <= x {
        t.len() as int
    } else {
        insert_position(t.drop_last(), x)
    }
}

proof fn lemma_insert_position(t: Seq<usize>, x: usize)
    requires
        nondecreasing(t),
    ensures
        0 <= insert_position(t, x) <= t.len(),
        forall|k: int| 0 <= k < insert_position(t, x) ==> #[trigger] t[k] <= x,
        forall|k: int| insert_position(t, x) <= k < t.len() ==> x < #[trigger] t[k],
    decreases t.len(),
{
    if t.len() > 0 {
        let u = t.drop_last();
        assert forall|p: int, q: int| 0 <= p < q < u.len() implies #[trigger] u[p] <= #[trigger] u[q] by {
            assert(u[p] == t[p] && u[q] == t[q]);
        }
        lemma_insert_position(u, x);
        if t.last() <= x {
            assert forall|k: int| 0 <= k < t.len() implies #[trigger] t[k] <= x by {
                if k < t.len() - 1 {
                    assert(t[k] <= t[t.len() - 1]);
                }
            }
        } else {
            assert forall|k: int| 0 <= k < insert_position(t, x) implies #[trigger] t[k] <= x by {
                assert(t[k] == u[k]);
            }
            assert forall|k: int| insert_position(t, x) <= k < t.len() implies x < #[trigger] t[k] by {
                if k < t.len() - 1 {
                    assert(t[k] == u[k]);
                }
            }
        }
    }
}

/// Every distribution has a sorted arrangement.
proof fn lemma_sorted_arrangement_exists(d: Seq<usize>) -> (s: Seq<usize>)
    ensures
        sorted_arrangement(s, d),
    decreases d.len(),
{
    if d.len() == 0 {
        assert(d =~= Seq::<usize>::empty());
        Seq::<usize>::empty()
    } else {
        let t = lemma_sorted_arrangement_exists(d.drop_last());
        let x = d.last();
        lemma_insert_position(t, x);
        let p = insert_position(t, x);
        let s = t.insert(p, x);
        assert forall|a: int, b: int| 0 <= a < b < s.len() implies #[trigger] s[a] <= #[trigger] s[b] by {
            if b < p {
                assert(s[a] == t[a] && s[b] == t[b]);
            } else if b == p {
                assert(s[a] == t[a]);
            } else if a == p {
                assert(s[b] == t[b - 1]);
            } else if a < p {
                assert(s[a] == t[a] && s[b] == t[b - 1]);
            } else {
                assert(s[a] == t[a - 1] && s[b] == t[b - 1]);
            }
        }
        vstd::seq_lib::to_multiset_insert(t, p, x);
        vstd::seq_lib::to_multiset_build(d.drop_last(), x);
        assert(d.drop_last().push(x) =~= d);
        s
    }
}

/// The median does not depend on the order of the values: two
/// distributions holding the same values have the same median.
pub proof fn lemma_median_ignores_order(d1: Seq<usize>, d2: Seq<usize>)
    requires
        d1.to_multiset() == d2.to_multiset(),
    ensures
        twice_median(d1) == twice_median(d2),
{
    lemma_sorted_arrangement_exists(d1);
    lemma_sorted_arrangement_exists(d2);
    let s1 = choose|s: Seq<usize>| sorted_arrangement(s, d1);
    let s2 = choose|s: Seq<usize>| sorted_arrangement(s, d2);
    assert(sorted_arrangement(s1, d1));
    assert(sorted_arrangement(s2, d2));
    lemma_sorted_arrangement_is_unique(s1, s2);
}

/// The values in increasing order.
pub fn sort_degrees(values: Vec<usize>) -> (r: Vec<usize>)
    ensures
        sorted_arrangement(r@, values@),
{
    let ghost all = values@;
    let mut out: Vec<usize> = Vec::new();
    assert(out@ =~= all.take(0));
    for x in it: values
        invariant
            it.seq() == all,
            nondecreasing(out@),
            out@.to_multiset() == all.take(it.index() as int).to_multiset(),
    {
        let ghost i = it.index() as int;
        let ghost old_out = out@;
        let mut p: usize = 0;
        while p < out.len() && out[p] <= x
            invariant
                p <= out@.len(),
                old_out == out@,
                forall|k: int| 0 <= k < p ==> #[trigger] old_out[k] <= x,
            decreases out.len() - p,
        {
            p = p + 1;
        }
        out.insert(p, x);
        proof {
            assert(out@ =~= old_out.insert(p as int, x));
            assert forall|a: int, b: int| 0 <= a < b < out@.len() implies #[trigger] out@[a] <= #[trigger] out@[b] by {
                if b < p {
                    assert(out@[a] == old_out[a] && out@[b] == old_out[b]);
                } else if b == p {
                    assert(out@[a] == old_out[a]);
                } else if a == p {
                    assert(out@[b] == old_out[b - 1]);
                    assert(x < old_out[p as int]);
                } else if a < p {
                    assert(out@[a] == old_out[a] && out@[b] == old_out[b - 1]);
                } else {
                    assert(out@[a] == old_out[a - 1] && out@[b] == old_out[b - 1]);
                }
            }
            assert(all[i] == x);
            assert(all.take(i + 1) =~= all.take(i).push(x));
            vstd::seq_lib::to_multiset_build(all.take(i), x);
            vstd::seq_lib::to_multiset_insert(old_out, p as int, x);
        }
    }
    proof {
        assert(all.take(all.len() as int) =~= all);
    }
    out
}

/// What a degree distribution reads: twice its median, its maximum, its
/// total and the number of files.
#[derive(Debug, Clone, Copy, PartialEq, Eq)]
pub struct DegreeSummary {
    pub twice_median: u128,
    pub max: usize,
    pub total: u128,
    pub files: usize,
}

/// `s` is the summary of the degrees `d`.
pub open spec fn summarizes(s: DegreeSummary, d: Seq<usize>) -> bool {
    &&& s.twice_median == twice_median(d)
    &&& s.max == max_upto(d, d.len() as int)
    &&& s.total == sum_upto(d, d.len() as int)
    &&& s.files == d.len()
}

/// Summarise a non-empty degree distribution.
pub fn summarize(degrees: Vec<usize>) -> (r: DegreeSummary)
    requires
        degrees@.len() > 0,
    ensures
        summarizes(r, degrees@),
{
    let ghost d = degrees@;
    let n = degrees.len();
    let mut max: usize = 0;
    let mut total: u128 = 0;
    let mut i: usize = 0;
    while i < n
        invariant
            i <= n == d.len(),
            d == degrees@,
            max == max_upto(d, i as int),
            total == sum_upto(d, i as int),
            total <= i * 18446744073709551615,
        decreases n - i,
    {
        if max < degrees[i] {
            max = degrees[i];
        }
        proof {
            assert(degrees[i as int] <= 18446744073709551615);
            assert((i + 1) * 18446744073709551615 == i * 18446744073709551615 + 18446744073709551615) by (nonlinear_arith);
            assert(i * 18446744073709551615 + 18446744073709551615 <= 18446744073709551615 * 18446744073709551616) by (nonlinear_arith)
                requires i < 18446744073709551616;
        }
        total = total + degrees[i] as u128;
        i = i + 1;
    }
    let sorted = sort_degrees(degrees);
    proof {
        broadcast use vstd::seq_lib::to_multiset_len;

        lemma_sorted_arrangement_is_unique(sorted@, choose|s: Seq<usize>| sorted_arrangement(s, d));
        assert(sorted@.len() == sorted@.to_multiset().len());
        assert(d.len() == d.to_multiset().len());
    }
    let h = n / 2;
    let twice = if n % 2 == 0 {
        sorted[h - 1] as u128 + sorted[h] as u128
    } else {
        2 * (sorted[h] as u128)
    };
    DegreeSummary { twice_median: twice, max, total, files: n }
}

pub open spec fn afferent_score_of(twice_median: int) -> u32 {
    if twice_median <= 4 {
        100
    } else if twice_median <= 10 {
        75
    } else if twice_median <= 20 {
        50
    } else {
        25
    }
}

pub open spec fn efferent_score_of(twice_median: int) -> u32 {
    if twice_median <= 6 {
        100
    } else if twice_median <= 12 {
        75
    } else if twice_median <= 24 {
        50
    } else {
        25
    }
}

pub open spec fn cycle_score_of(count: int) -> u32 {
    if count == 0 {
        100
    } else if count <= 2 {
        75
    } else if count <= 5 {
        50
    } else {
        25
    }
}


pub fn afferent_score(twice_median: u128) -> (r: u32)
    ensures
        r == afferent_score_of(twice_median as int),
{
    if twice_median <= 4 {
        100
    } else if twice_median <= 10 {
        75
    } else if twice_median <= 20 {
        50
    } else {
        25
    }
}

pub fn efferent_score(twice_median: u128) -> (r: u32)
    ensures
        r == efferent_score_of(twice_median as int),
{
    if twice_median <= 6 {
        100
    } else if twice_median <= 12 {
        75
    } else if twice_median <= 24 {
        50
    } else {
        25
    }
}

pub fn cycle_score(count: usize) -> (r: u32)
    ensures
        r == cycle_score_of(count as int),
{
    if count == 0 {
        100
    } else if count <= 2 {
        75
    } else if count <= 5 {
        50
    } else {
        25
    }
}

// ── Afferent and efferent coupling ─────────────────────────────────────

/// The afferent degree of each file.
pub open spec fn afferent_view(g: GraphView, files: Seq<Seq<char>>) -> Seq<usize> {
    Seq::new(files.len(), |i: int| incoming(g, files[i]) as usize)
}

/// The efferent degree of each file.
pub open spec fn efferent_view(g: GraphView, files: Seq<Seq<char>>) -> Seq<usize> {
    Seq::new(files.len(), |i: int| out_degree(g, files[i]) as usize)
}

/// A coupling metric scored on a degree distribution. `summary` is `None`
/// when the graph gives nothing to measure ("No import dependencies
/// detected", a raw count of zero).
#[derive(Debug, Clone)]
pub struct DegreeMetric {
    pub name: String,
    pub score: u32,
    pub summary: Option<DegreeSummary>,
}

/// `m` is the afferent coupling metric of `g` over `files`.
pub open spec fn afferent_metric(m: DegreeMetric, g: GraphView, files: Seq<Seq<char>>) -> bool {
    &&& m.name@ == "Afferent coupling"@
    &&& edge_count(g) == 0 ==> m.summary is None && m.score == 100
    &&& edge_count(g) > 0 ==> (m.summary matches Some(s) && summarizes(s, afferent_view(g, files))
        && m.score == afferent_score_of(s.twice_median as int))
}

/// Afferent coupling: how many imports point at each file, scored on the
/// median over all `files` (files nobody imports count as zero).
pub fn afferent_coupling(g: &ImportGraph, files: &Vec<String>) -> (r: DegreeMetric)
    requires
        edge_count(g@) <= usize::MAX,
        edge_count(g@) > 0 ==> files@.len() > 0,
    ensures
        afferent_metric(r, g@, paths_view(files@)),
{
    let name = "Afferent coupling".to_string();
    match afferent_degrees(g, files) {
        None => DegreeMetric { name, score: 100, summary: None },
        Some(ds) => {
            assert(ds@ =~= afferent_view(g@, paths_view(files@)));
            let s = summarize(ds);
            DegreeMetric { name, score: afferent_score(s.twice_median), summary: Some(s) }
        },
    }
}

/// `m` is the efferent coupling metric of `g` over `files`.
pub open spec fn efferent_metric(m: DegreeMetric, g: GraphView, files: Seq<Seq<char>>) -> bool {
    &&& m.name@ == "Efferent coupling"@
    &&& g.len() == 0 ==> m.summary is None && m.score == 100
    &&& g.len() > 0 ==> (m.summary matches Some(s) && summarizes(s, efferent_view(g, files))
        && m.score == efferent_score_of(s.twice_median as int))
}

/// Efferent coupling: how many files each file imports, scored on the
/// median over all `files` (files that import nothing count as zero).
pub fn efferent_coupling(g: &ImportGraph, files: &Vec<String>) -> (r: DegreeMetric)
    requires
        g@.len() > 0 ==> files@.len() > 0,
    ensures
        efferent_metric(r, g@, paths_view(files@)),
{
    let name = "Efferent coupling".to_string();
    match efferent_degrees(g, files) {
        None => DegreeMetric { name, score: 100, summary: None },
        Some(ds) => {
            assert(ds@ =~= efferent_view(g@, paths_view(files@)));
            let s = summarize(ds);
            DegreeMetric { name, score: efferent_score(s.twice_median), summary: Some(s) }
        },
    }
}


// ── Circular dependencies ──────────────────────────────────────────────

pub type PathPair = (Seq<char>, Seq<char>);

/// Some import in `ts` is the path `p`.
pub open spec fn contains_path(ts: Seq<Seq<char>>, p: Seq<char>) -> bool {
    exists|k: int| 0 <= k < ts.len() && same_path(#[trigger] ts[k], p)
}

/// The pair `(a, b)` in path order.
pub open spec fn ordered_pair(a: Seq<char>, b: Seq<char>) -> PathPair {
    if path_before(a, b) {
        (a, b)
    } else {
        (b, a)
    }
}

/// Both directions of a mutual import name one pair: for two different
/// paths, `(a, b)` and `(b, a)` in path order are the same pair.
pub proof fn lemma_ordered_pair_is_symmetric(a: Seq<char>, b: Seq<char>)
    ensures
        !same_path(a, b) ==> ordered_pair(a, b) == ordered_pair(b, a),
        same_path(a, b) ==> same_pair(ordered_pair(a, b), ordered_pair(b, a)),
{
    lemma_path_order_is_total(a, b);
}

/// The first two of `[a, b, c]` once sorted in path order (a stable sort:
/// equal paths keep their places).
pub open spec fn lowest_two(a: Seq<char>, b: Seq<char>, c: Seq<char>) -> PathPair {
    let x = if path_before(b, a) { b } else { a };
    let y = if path_before(b, a) { a } else { b };
    if path_before(c, y) {
        if path_before(c, x) {
            (c, x)
        } else {
            (x, c)
        }
    } else {
        (x, y)
    }
}

/// The depth-two cycle `a → b → c → a` seen from `c`, if it closes.
pub open spec fn closing_pair(g: GraphView, a: Seq<char>, b: Seq<char>, c: Seq<char>) -> Seq<PathPair> {
    if !same_path(c, a) && !same_path(c, b) {
        match targets_of(g, c) {
            Some(tc) => if contains_path(tc, a) {
                seq![lowest_two(a, b, c)]
            } else {
                seq![]
            },
            None => seq![],
        }
    } else {
        seq![]
    }
}

/// Depth-two cycles through the first `k` imports `tb` of `b`.
pub open spec fn depth_two_upto(g: GraphView, a: Seq<char>, b: Seq<char>, tb: Seq<Seq<char>>, k: int) -> Seq<PathPair>
    decreases k,
{
    if k <= 0 || k > tb.len() {
        seq![]
    } else {
        depth_two_upto(g, a, b, tb, k - 1) + closing_pair(g, a, b, tb[k - 1])
    }
}

/// The direct cycle `a ⇄ b`, if `b` imports `a` back.
pub open spec fn direct_pair(a: Seq<char>, b: Seq<char>, tb: Seq<Seq<char>>) -> Seq<PathPair> {
    if contains_path(tb, a) {
        seq![ordered_pair(a, b)]
    } else {
        seq![]
    }
}

/// The cycles found from the import `a → b`, in the order they are met.
pub open spec fn via_import(g: GraphView, a: Seq<char>, b: Seq<char>) -> Seq<PathPair> {
    match targets_of(g, b) {
        Some(tb) => direct_pair(a, b, tb) + depth_two_upto(g, a, b, tb, tb.len() as int),
        None => seq![],
    }
}

/// The cycles found from the first `j` imports of entry `i`.
pub open spec fn entry_pairs_upto(g: GraphView, i: int, j: int) -> Seq<PathPair>
    decreases j,
{
    if i < 0 || i >= g.len() || j <= 0 || j > g[i].1.len() {
        seq![]
    } else {
        entry_pairs_upto(g, i, j - 1) + via_import(g, g[i].0, g[i].1[j - 1])
    }
}

/// The cycles found from the first `i` entries of the graph.
pub open spec fn found_upto(g: GraphView, i: int) -> Seq<PathPair>
    decreases i,
{
    if i <= 0 || i > g.len() {
        seq![]
    } else {
        found_upto(g, i - 1) + entry_pairs_upto(g, i - 1, g[i - 1].1.len() as int)
    }
}

/// Two pairs name the same paths (a pair names the paths it holds).
pub open spec fn same_pair(p: PathPair, q: PathPair) -> bool {
    p == q || (same_path(p.0, q.0) && same_path(p.1, q.1))
}

pub open spec fn has_pair(d: Seq<PathPair>, p: PathPair) -> bool {
    exists|k: int| 0 <= k < d.len() && same_pair(#[trigger] d[k], p)
}

/// Set insertion: `p` is added unless the same pair is already there.
pub open spec fn insert_pair(d: Seq<PathPair>, p: PathPair) -> Seq<PathPair> {
    if has_pair(d, p) {
        d
    } else {
        d.push(p)
    }
}

/// `d` with each of `s` inserted in turn.
pub open spec fn insert_all(d: Seq<PathPair>, s: Seq<PathPair>) -> Seq<PathPair>
    decreases s.len(),
{
    if s.len() == 0 {
        d
    } else {
        insert_pair(insert_all(d, s.drop_last()), s.last())
    }
}

/// The distinct cycle pairs of the graph, in the order first found.
pub open spec fn cycle_pairs(g: GraphView) -> Seq<PathPair> {
    insert_all(seq![], found_upto(g, g.len() as int))
}

proof fn lemma_insert_all_append(d: Seq<PathPair>, s: Seq<PathPair>, t: Seq<PathPair>)
    ensures
        insert_all(d, s + t) == insert_all(insert_all(d, s), t),
    decreases t.len(),
{
    if t.len() == 0 {
        assert(s + t =~= s);
    } else {
        lemma_insert_all_append(d, s, t.drop_last());
        assert((s + t).drop_last() =~= s + t.drop_last());
        assert((s + t).last() == t.last());
    }
}

proof fn lemma_insert_all_one(d: Seq<PathPair>, p: PathPair)
    ensures
        insert_all(d, seq![p]) == insert_pair(d, p),
{
    let e = seq![p].drop_last();
    assert(e =~= Seq::<PathPair>::empty());
    assert(insert_all(d, e) == d);
}

pub open spec fn pairs_view(v: Seq<(String, String)>) -> Seq<PathPair> {
    v.map_values(|p: (String, String)| (p.0@, p.1@))
}

/// Some import in `ts` is the path `p`.
pub(crate) fn list_contains(ts: &Vec<String>, p: &str) -> (r: bool)
    ensures
        r == contains_path(paths_view(ts@), p@),
{
    let ghost tv = paths_view(ts@);
    let mut k: usize = 0;
    while k < ts.len()
        invariant
            k <= ts@.len(),
            tv == paths_view(ts@),
            forall|m: int| 0 <= m < k ==> !same_path(#[trigger] tv[m], p@),
        decreases ts.len() - k,
    {
        assert(tv[k as int] == ts@[k as int]@);
        if path_eq(ts[k].as_str(), p) {
            return true;
        }
        k = k + 1;
    }
    false
}

/// Insert `p` into the set of pairs `kept` unless it is already there.
fn insert_pair_exec(kept: &mut Vec<(String, String)>, p: (String, String))
    ensures
        pairs_view(final(kept)@) == insert_pair(pairs_view(old(kept)@), (p.0@, p.1@)),
{
    let ghost pv = (p.0@, p.1@);
    let ghost kv = pairs_view(kept@);
    let mut k: usize = 0;
    while k < kept.len()
        invariant
            k <= kept@.len(),
            kv == pairs_view(kept@),
            pv == (p.0@, p.1@),
            forall|m: int| 0 <= m < k ==> !same_pair(#[trigger] kv[m], pv),
        decreases kept.len() - k,
    {
        assert(kv[k as int] == (kept@[k as int].0@, kept@[k as int].1@));
        if path_eq(kept[k].0.as_str(), p.0.as_str()) && path_eq(kept[k].1.as_str(), p.1.as_str()) {
            assert(same_pair(kv[k as int], pv));
            return;
        }
        k = k + 1;
    }
    kept.push(p);
    assert(pairs_view(kept@) =~= kv.push(pv));
}

fn ordered_pair_exec(a: &str, b: &str) -> (r: (String, String))
    ensures
        (r.0@, r.1@) == ordered_pair(a@, b@),
{
    if path_lt(a, b) {
        (a.to_string(), b.to_string())
    } else {
        (b.to_string(), a.to_string())
    }
}

fn lowest_two_exec(a: &str, b: &str, c: &str) -> (r: (String, String))
    ensures
        (r.0@, r.1@) == lowest_two(a@, b@, c@),
{
    let swap = path_lt(b, a);
    let x = if swap { b } else { a };
    let y = if swap { a } else { b };
    if path_lt(c, y) {
        if path_lt(c, x) {
            (c.to_string(), x.to_string())
        } else {
            (x.to_string(), c.to_string())
        }
    } else {
        (x.to_string(), y.to_string())
    }
}


/// The distinct cycle pairs of the graph, in the order first found: for
/// each file `a` and each of its imports `b`, the direct cycle `a ⇄ b`
/// when `b` imports `a`, then for each import `c` of `b` (other than `a`
/// and `b`) the cycle `a → b → c → a` when `c` imports `a`.
pub fn find_cycle_pairs(g: &ImportGraph) -> (r: Vec<(String, String)>)
    ensures
        pairs_view(r@) == cycle_pairs(g@),
{
    let ghost gv = g@;
    let mut kept: Vec<(String, String)> = Vec::new();
    assert(pairs_view(kept@) =~= insert_all(seq![], found_upto(gv, 0)));
    let mut i: usize = 0;
    while i < g.len()
        invariant
            i <= gv.len(),
            gv == g@,
            pairs_view(kept@) == insert_all(seq![], found_upto(gv, i as int)),
        decreases gv.len() - i,
    {
        let (a, ta) = g.entry(i);
        let ghost before = pairs_view(kept@);
        let mut j: usize = 0;
        while j < ta.len()
            invariant
                j <= ta@.len(),
                gv == g@,
                i < gv.len(),
                a@ == gv[i as int].0,
                paths_view(ta@) == gv[i as int].1,
                pairs_view(kept@) == insert_all(before, entry_pairs_upto(gv, i as int, j as int)),
            decreases ta.len() - j,
        {
            let b = ta[j].as_str();
            assert(b@ == gv[i as int].1[j as int]);
            let ghost before_b = pairs_view(kept@);
            match g.get(b) {
                None => {
                    assert(via_import(gv, a@, b@) =~= Seq::<PathPair>::empty());
                    assert(insert_all(before_b, via_import(gv, a@, b@)) == before_b);
                },
                Some(tb) => {
                    let ghost tbv = paths_view(tb@);
                    if list_contains(tb, a.as_str()) {
                        insert_pair_exec(&mut kept, ordered_pair_exec(a.as_str(), b));
                        proof {
                            lemma_insert_all_one(before_b, ordered_pair(a@, b@));
                        }
                    } else {
                        assert(direct_pair(a@, b@, tbv) =~= Seq::<PathPair>::empty());
                    }
                    assert(pairs_view(kept@) == insert_all(before_b, direct_pair(a@, b@, tbv)));
                    let ghost mid = pairs_view(kept@);
                    let mut k: usize = 0;
                    while k < tb.len()
                        invariant
                            k <= tb@.len(),
                            gv == g@,
                            tbv == paths_view(tb@),
                            pairs_view(kept@) == insert_all(mid, depth_two_upto(gv, a@, b@, tbv, k as int)),
                        decreases tb.len() - k,
                    {
                        let c = tb[k].as_str();
                        assert(c@ == tbv[k as int]);
                        let ghost at_c = pairs_view(kept@);
                        let ghost closing = closing_pair(gv, a@, b@, c@);
                        let mut hit = false;
                        if !path_eq(c, a.as_str()) && !path_eq(c, b) {
                            match g.get(c) {
                                Some(tc) => {
                                    if list_contains(tc, a.as_str()) {
                                        insert_pair_exec(&mut kept, lowest_two_exec(a.as_str(), b, c));
                                        hit = true;
                                    }
                                },
                                None => {},
                            }
                        }
                        proof {
                            if hit {
                                assert(closing == seq![lowest_two(a@, b@, c@)]);
                                lemma_insert_all_one(at_c, lowest_two(a@, b@, c@));
                            } else {
                                assert(closing =~= Seq::<PathPair>::empty());
                            }
                            assert(insert_all(at_c, closing) == pairs_view(kept@));
                            assert(depth_two_upto(gv, a@, b@, tbv, k + 1) == depth_two_upto(gv, a@, b@, tbv, k as int) + closing);
                            lemma_insert_all_append(mid, depth_two_upto(gv, a@, b@, tbv, k as int), closing);
                        }
                        k = k + 1;
                    }
                    proof {
                        lemma_insert_all_append(before_b, direct_pair(a@, b@, tbv), depth_two_upto(gv, a@, b@, tbv, tbv.len() as int));
                    }
                },
            }
            proof {
                assert(entry_pairs_upto(gv, i as int, j + 1) == entry_pairs_upto(gv, i as int, j as int) + via_import(gv, a@, b@));
                lemma_insert_all_append(before, entry_pairs_upto(gv, i as int, j as int), via_import(gv, a@, b@));
            }
            j = j + 1;
        }
        proof {
            assert(ta@.len() == gv[i as int].1.len());
            lemma_insert_all_append(seq![], found_upto(gv, i as int), entry_pairs_upto(gv, i as int, ta@.len() as int));
        }
        i = i + 1;
    }
    kept
}


// ── Laws of the cycle pairs ────────────────────────────────────────────

/// No two pairs of `d` name the same paths.
pub open spec fn pairs_distinct(d: Seq<PathPair>) -> bool {
    forall|x: int, y: int| 0 <= x < y < d.len() ==> !same_pair(#[trigger] d[x], #[trigger] d[y])
}

proof fn lemma_insert_all_props(d: Seq<PathPair>, s: Seq<PathPair>)
    requires
        pairs_distinct(d),
    ensures
        pairs_distinct(insert_all(d, s)),
        d.len() <= insert_all(d, s).len(),
        forall|k: int| 0 <= k < d.len() ==> insert_all(d, s)[k] == d[k],
        forall|k: int| 0 <= k < s.len() ==> has_pair(insert_all(d, s), #[trigger] s[k]),
        forall|k: int| d.len() <= k < insert_all(d, s).len() ==> s.contains(#[trigger] insert_all(d, s)[k]),
    decreases s.len(),
{
    if s.len() > 0 {
        let t = s.drop_last();
        lemma_insert_all_props(d, t);
        let r0 = insert_all(d, t);
        let r = insert_all(d, s);
        assert(r == insert_pair(r0, s.last()));
        assert forall|k: int| 0 <= k < s.len() implies has_pair(r, #[trigger] s[k]) by {
            if k < s.len() - 1 {
                assert(s[k] == t[k]);
                let w = choose|m: int| 0 <= m < r0.len() && same_pair(#[trigger] r0[m], t[k]);
                assert(r[w] == r0[w]);
            } else if !has_pair(r0, s.last()) {
                assert(r[r0.len() as int] == s.last());
                assert(same_pair(r[r0.len() as int], s[k]));
            } else {
                let w = choose|m: int| 0 <= m < r0.len() && same_pair(#[trigger] r0[m], s.last());
                assert(r[w] == r0[w]);
            }
        }
        assert forall|k: int| d.len() <= k < r.len() implies s.contains(#[trigger] r[k]) by {
            if k < r0.len() {
                assert(t.contains(r0[k]));
                let m = choose|m: int| 0 <= m < t.len() && t[m] == r0[k];
                assert(s[m] == t[m]);
            } else {
                assert(s[s.len() - 1] == s.last());
            }
        }
    }
}

/// The cycle pairs are the cycles found, each pair of paths once: no two
/// name the same paths, every cycle found is among them, and each of them
/// was found.
pub proof fn lemma_cycle_pairs_are_found_once(g: GraphView)
    ensures
        pairs_distinct(cycle_pairs(g)),
        forall|k: int| 0 <= k < found_upto(g, g.len() as int).len()
            ==> has_pair(cycle_pairs(g), #[trigger] found_upto(g, g.len() as int)[k]),
        forall|k: int| 0 <= k < cycle_pairs(g).len()
            ==> found_upto(g, g.len() as int).contains(#[trigger] cycle_pairs(g)[k]),
{
    lemma_insert_all_props(seq![], found_upto(g, g.len() as int));
}

proof fn lemma_entry_prefix(g: GraphView, i: int, m: int, n: int)
    requires
        0 <= i < g.len(),
        0 <= m <= n <= g[i].1.len(),
    ensures
        entry_pairs_upto(g, i, m).len() <= entry_pairs_upto(g, i, n).len(),
        forall|k: int| 0 <= k < entry_pairs_upto(g, i, m).len()
            ==> entry_pairs_upto(g, i, n)[k] == #[trigger] entry_pairs_upto(g, i, m)[k],
    decreases n - m,
{
    if m < n {
        lemma_entry_prefix(g, i, m, n - 1);
    }
}

proof fn lemma_found_prefix(g: GraphView, m: int, n: int)
    requires
        0 <= m <= n <= g.len(),
    ensures
        found_upto(g, m).len() <= found_upto(g, n).len(),
        forall|k: int| 0 <= k < found_upto(g, m).len()
            ==> found_upto(g, n)[k] == #[trigger] found_upto(g, m)[k],
    decreases n - m,
{
    if m < n {
        lemma_found_prefix(g, m, n - 1);
    }
}

/// Every cycle met through the `j`-th import of entry `i` is reported.
proof fn lemma_via_import_reported(g: GraphView, i: int, j: int, x: int)
    requires
        0 <= i < g.len(),
        0 <= j < g[i].1.len(),
        0 <= x < via_import(g, g[i].0, g[i].1[j]).len(),
    ensures
        has_pair(cycle_pairs(g), via_import(g, g[i].0, g[i].1[j])[x]),
{
    let v = via_import(g, g[i].0, g[i].1[j]);
    let e = entry_pairs_upto(g, i, j + 1);
    assert(e == entry_pairs_upto(g, i, j) + v);
    let ex = entry_pairs_upto(g, i, j).len() + x;
    assert(e[ex] == v[x]);
    lemma_entry_prefix(g, i, j + 1, g[i].1.len() as int);
    let ef = entry_pairs_upto(g, i, g[i].1.len() as int);
    assert(ef[ex] == v[x]);
    let f = found_upto(g, i + 1);
    assert(f == found_upto(g, i) + ef);
    let fx = found_upto(g, i).len() + ex;
    assert(f[fx] == v[x]);
    lemma_found_prefix(g, i + 1, g.len() as int);
    let all = found_upto(g, g.len() as int);
    assert(all[fx] == v[x]);
    lemma_cycle_pairs_are_found_once(g);
}

/// A mutual import is reported: when `a` imports `b` and `b` imports `a`,
/// the pair `(a, b)`, in path order, is among the cycle pairs.
pub proof fn lemma_mutual_import_is_reported(g: GraphView, i: int, j: int)
    requires
        0 <= i < g.len(),
        0 <= j < g[i].1.len(),
        targets_of(g, g[i].1[j]) matches Some(tb) && contains_path(tb, g[i].0),
    ensures
        has_pair(cycle_pairs(g), ordered_pair(g[i].0, g[i].1[j])),
{
    let a = g[i].0;
    let b = g[i].1[j];
    let tb = targets_of(g, b)->0;
    let v = via_import(g, a, b);
    assert(v == direct_pair(a, b, tb) + depth_two_upto(g, a, b, tb, tb.len() as int));
    assert(v[0] == ordered_pair(a, b));
    lemma_via_import_reported(g, i, j, 0);
}

/// A three-file cycle is reported: when `a` imports `b`, `b` imports `c`
/// and `c` imports `a`, with `c` neither `a` nor `b`, the first two of
/// the three paths in path order are among the cycle pairs.
pub proof fn lemma_three_file_cycle_is_reported(g: GraphView, i: int, j: int, k: int)
    requires
        0 <= i < g.len(),
        0 <= j < g[i].1.len(),
        targets_of(g, g[i].1[j]) matches Some(tb) && 0 <= k < tb.len()
            && !same_path(tb[k], g[i].0) && !same_path(tb[k], g[i].1[j])
            && (targets_of(g, tb[k]) matches Some(tc) && contains_path(tc, g[i].0)),
    ensures
        has_pair(cycle_pairs(g), lowest_two(g[i].0, g[i].1[j], targets_of(g, g[i].1[j])->0[k])),
{
    let a = g[i].0;
    let b = g[i].1[j];
    let tb = targets_of(g, b)->0;
    let c = tb[k];
    let v = via_import(g, a, b);
    let dp = direct_pair(a, b, tb);
    assert(v == dp + depth_two_upto(g, a, b, tb, tb.len() as int));
    assert(depth_two_upto(g, a, b, tb, k + 1) == depth_two_upto(g, a, b, tb, k) + closing_pair(g, a, b, c));
    assert(closing_pair(g, a, b, c) == seq![lowest_two(a, b, c)]);
    let y = depth_two_upto(g, a, b, tb, k).len() as int;
    assert(depth_two_upto(g, a, b, tb, k + 1)[y] == lowest_two(a, b, c));
    lemma_depth_two_prefix(g, a, b, tb, k + 1, tb.len() as int);
    let x = dp.len() + y;
    assert(v[x] == lowest_two(a, b, c));
    lemma_via_import_reported(g, i, j, x);
}

proof fn lemma_depth_two_prefix(g: GraphView, a: Seq<char>, b: Seq<char>, tb: Seq<Seq<char>>, m: int, n: int)
    requires
        0 <= m <= n <= tb.len(),
    ensures
        depth_two_upto(g, a, b, tb, m).len() <= depth_two_upto(g, a, b, tb, n).len(),
        forall|k: int| 0 <= k < depth_two_upto(g, a, b, tb, m).len()
            ==> depth_two_upto(g, a, b, tb, n)[k] == #[trigger] depth_two_upto(g, a, b, tb, m)[k],
    decreases n - m,
{
    if m < n {
        lemma_depth_two_prefix(g, a, b, tb, m, n - 1);
    }
}

/// How a cycle pair is listed: `a <-> b`.
pub open spec fn pair_line(p: PathPair) -> Seq<char> {
    p.0 + " <-> "@ + p.1
}

/// At most this many cycle pairs are listed.
pub const LISTED_PAIRS: usize = 10;

/// The circular-dependency metric.
#[derive(Debug, Clone)]
pub struct CycleMetric {
    pub name: String,
    pub score: u32,
    pub description: String,
    /// The distinct pairs, in the order first found.
    pub pairs: Vec<(String, String)>,
    /// The first pairs, rendered for display.
    pub listed: Vec<String>,
}

/// `m` is the circular-dependency metric of `g`: the distinct pairs, a
/// score on their number, the count in words, and the first pairs listed.
pub open spec fn cycle_metric(m: CycleMetric, g: GraphView) -> bool {
    let pairs = cycle_pairs(g);
    &&& m.name@ == "Circular dependencies"@
    &&& pairs_view(m.pairs@) == pairs
    &&& m.score == cycle_score_of(pairs.len() as int)
    &&& m.description@ == decimal(pairs.len() as int) + " circular dependency pairs detected"@
    &&& m.listed@.len() == if pairs.len() < LISTED_PAIRS { pairs.len() } else { LISTED_PAIRS as nat }
    &&& forall|i: int| 0 <= i < m.listed@.len() ==> (#[trigger] m.listed@[i])@ == pair_line(pairs[i])
}

/// Circular dependencies: file pairs where `a → b → a` (depth one) or
/// `a → b → c → a` (depth two), counted once per pair of paths.
pub fn circular_dependencies(g: &ImportGraph) -> (r: CycleMetric)
    ensures
        cycle_metric(r, g@),
{
    let pairs = find_cycle_pairs(g);
    let ghost pv = pairs_view(pairs@);
    let count = pairs.len();
    let mut text = usize_chars(count);
    push_str(&mut text, " circular dependency pairs detected");
    let description = string_of(text.as_slice());
    let shown = if count < LISTED_PAIRS { count } else { LISTED_PAIRS };
    let mut listed: Vec<String> = Vec::new();
    let mut i: usize = 0;
    while i < shown
        invariant
            i <= shown <= pairs@.len(),
            pv == pairs_view(pairs@),
            listed@.len() == i,
            forall|k: int| 0 <= k < i ==> (#[trigger] listed@[k])@ == pair_line(pv[k]),
        decreases shown - i,
    {
        let mut line: Vec<char> = Vec::new();
        push_str(&mut line, pairs[i].0.as_str());
        push_str(&mut line, " <-> ");
        push_str(&mut line, pairs[i].1.as_str());
        assert(pv[i as int] == (pairs@[i as int].0@, pairs@[i as int].1@));
        listed.push(string_of(line.as_slice()));
        i = i + 1;
    }
    CycleMetric {
        name: "Circular dependencies".to_string(),
        score: cycle_score(count),
        description,
        pairs,
        listed,
    }
}

// ── The category ───────────────────────────────────────────────────────

/// The coupling category: its three metrics.
#[derive(Debug, Clone)]
pub struct CouplingCategory {
    pub name: String,
    pub afferent: DegreeMetric,
    pub efferent: DegreeMetric,
    pub circular: CycleMetric,
}

/// Afferent coupling, efferent coupling and circular dependencies of the
/// import graph `g` over the repository's `files`.
pub fn compute_coupling(g: &ImportGraph, files: &Vec<String>) -> (r: CouplingCategory)
    requires
        edge_count(g@) <= usize::MAX,
        g@.len() > 0 ==> files@.len() > 0,
        edge_count(g@) > 0 ==> files@.len() > 0,
    ensures
        r.name@ == "Coupling"@,
        afferent_metric(r.afferent, g@, paths_view(files@)),
        efferent_metric(r.efferent, g@, paths_view(files@)),
        cycle_metric(r.circular, g@),
{
    CouplingCategory {
        name: "Coupling".to_string(),
        afferent: afferent_coupling(g, files),
        efferent: efferent_coupling(g, files),
        circular: circular_dependencies(g),
    }
}

/// A coupling score is one of four bands.
pub open spec fn is_band(score: u32) -> bool {
    score == 25 || score == 50 || score == 75 || score == 100
}

/// Every score of the coupling category is one of the four bands 25, 50,
/// 75 and 100.
pub proof fn lemma_coupling_scores_are_bands(r: CouplingCategory, g: GraphView, files: Seq<Seq<char>>)
    requires
        afferent_metric(r.afferent, g, files),
        efferent_metric(r.efferent, g, files),
        cycle_metric(r.circular, g),
    ensures
        is_band(r.afferent.score),
        is_band(r.efferent.score),
        is_band(r.circular.score),
{
}

/// The bands are set by the median degree: afferent coupling scores 100 up
/// to a median of 2 incoming imports, 75 up to 5, 50 up to 10 and 25
/// above; efferent coupling 100 up to a median of 3 outgoing imports, 75 up
/// to 6, 50 up to 12 and 25 above (a median of half-steps is compared as
/// twice its value). The scores never rise as the median grows.
pub proof fn lemma_degree_bands(m: int, n: int)
    requires
        0 <= m <= n,
    ensures
        afferent_score_of(m) == 100 <==> m <= 2 * 2,
        afferent_score_of(m) == 75 <==> 2 * 2 < m <= 2 * 5,
        afferent_score_of(m) == 50 <==> 2 * 5 < m <= 2 * 10,
        afferent_score_of(m) == 25 <==> 2 * 10 < m,
        efferent_score_of(m) == 100 <==> m <= 2 * 3,
        efferent_score_of(m) == 75 <==> 2 * 3 < m <= 2 * 6,
        efferent_score_of(m) == 50 <==> 2 * 6 < m <= 2 * 12,
        efferent_score_of(m) == 25 <==> 2 * 12 < m,
        afferent_score_of(n) <= afferent_score_of(m),
        efferent_score_of(n) <= efferent_score_of(m),
{
}

/// Circular dependencies score 100 with no cycle, 75 for one or two
/// pairs, 50 for three to five and 25 beyond; more pairs never score
/// higher.
pub proof fn lemma_cycle_bands(c: int, d: int)
    requires
        0 <= c <= d,
    ensures
        cycle_score_of(c) == 100 <==> c == 0,
        cycle_score_of(c) == 75 <==> 1 <= c <= 2,
        cycle_score_of(c) == 50 <==> 3 <= c <= 5,
        cycle_score_of(c) == 25 <==> 6 <= c,
        cycle_score_of(d) <= cycle_score_of(c),
{
}

} // verus!
