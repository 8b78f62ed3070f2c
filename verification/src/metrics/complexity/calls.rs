//! Call-edge extraction: per-file aggregated caller→callee edges of a
//! TS/JS file, read from one syntax tree. No specifier resolution happens
//! here; call sites collapse onto counted edges in a fixed order.
use vstd::prelude::*;

use crate::metrics::complexity::fallback::{
    detect_language, extension, path_extension, path_language, Language,
};
use crate::metrics::complexity::inheritance::{
    entry_views, import_entries, import_entries_of, lookup_entry, lookup_import, opt_seq, EntryView,
    ImportEntry, RefView,
};
use crate::metrics::complexity::syntax::SyntaxTree;
use crate::metrics::complexity::ts::{grammar_for, grammar_spec, is_parse_of, parse_source};
use crate::sorted::strictly_sorted;
use crate::text::{
    chars_eq, compare_strings, lemma_order_antisym, lemma_order_trans, lemma_order_zero_iff_eq,
    lt_seq,
};

verus! {

/// One aggregated caller→callee edge of a file, before resolution.
#[derive(Debug, Clone, PartialEq)]
pub struct RawCallEdge {
    /// Innermost enclosing named function, or `"<toplevel>"` for
    /// module-level calls and calls inside anonymous functions.
    pub caller: String,
    pub callee: RawCalleeRef,
    /// Number of call sites aggregated onto this edge.
    pub count: u32,
}

/// The callee as extraction sees it. Edges are ordered by caller, then by
/// variant in this order, then by the variant's strings.
#[derive(Debug, Clone, PartialEq, Eq, PartialOrd, Ord, Hash)]
pub enum RawCalleeRef {
    /// Callee identifier not bound by any import and declared in the file.
    SameFile(String),
    /// Callee bound by an import: module specifier and exported name
    /// (aliases unwrapped), or a direct namespace-import receiver.
    Specifier { specifier: String, name: String },
    /// A call whose target static analysis cannot name; `"<dynamic>"` for a
    /// computed callee.
    Unresolved { name: String },
}

impl View for RawCalleeRef {
    type V = RefView;

    open spec fn view(&self) -> RefView {
        match self {
            RawCalleeRef::SameFile(s) => (0, s@, seq![]),
            RawCalleeRef::Specifier { specifier, name } => (1, specifier@, name@),
            RawCalleeRef::Unresolved { name } => (2, name@, seq![]),
        }
    }
}

/// `(caller, callee)`: the key call sites are counted under.
pub type SiteView = (Seq<char>, RefView);

/// `(caller, callee, count)`.
pub type EdgeView = (Seq<char>, RefView, int);

impl View for RawCallEdge {
    type V = EdgeView;

    open spec fn view(&self) -> EdgeView {
        (self.caller@, self.callee@, self.count as int)
    }
}

pub open spec fn edge_views(es: Seq<RawCallEdge>) -> Seq<EdgeView> {
    es.map_values(|e: RawCallEdge| e@)
}

pub open spec fn edge_keys(es: Seq<EdgeView>) -> Seq<SiteView> {
    es.map_values(|e: EdgeView| (e.0, e.1))
}

// ── Declared names ─────────────────────────────────────────────────────

pub open spec fn is_decl_kind(k: Seq<char>) -> bool {
    k == "function_declaration"@ || k == "generator_function_declaration"@ || k
        == "class_declaration"@ || k == "abstract_class_declaration"@ || k
        == "variable_declarator"@
}

/// The name node `n` declares in the file, if it is a declaration whose
/// `name` is a plain (or type) identifier.
pub open spec fn declared_name_at(t: &SyntaxTree, n: int) -> Option<Seq<char>> {
    if is_decl_kind(t.kind(n)) {
        match t.field(n, "name"@) {
            Some(c) => if t.kind(c as int) == "identifier"@ || t.kind(c as int) == "type_identifier"@ {
                Some(t.text_of(c as int))
            } else {
                None
            },
            None => None,
        }
    } else {
        None
    }
}

pub open spec fn declared_upto(t: &SyntaxTree, i: int) -> Seq<Seq<char>>
    decreases i,
{
    if i <= 0 {
        seq![]
    } else {
        declared_upto(t, i - 1) + opt_seq(declared_name_at(t, i - 1))
    }
}

/// The file itself declares `name` somewhere (at any depth).
pub open spec fn declares(t: &SyntaxTree, name: Seq<char>) -> bool {
    declared_upto(t, t.end_of(0)).contains(name)
}

// ── Shadowing ──────────────────────────────────────────────────────────

/// `name` is among the identifiers the pattern, parameter or declaration
/// at `n` binds (default values and initializers are not bindings).
pub open spec fn binds(t: &SyntaxTree, n: int, name: Seq<char>) -> bool
    decreases t.len() - n, 1int, 0int,
{
    if !t.valid(n) {
        false
    } else if t.kind(n) == "identifier"@ {
        t.text_of(n) == name
    } else if t.kind(n) == "required_parameter"@ || t.kind(n) == "optional_parameter"@
        || t.kind(n) == "assignment_pattern"@ || t.kind(n) == "variable_declarator"@ {
        let f = if t.kind(n) == "assignment_pattern"@ {
            "left"@
        } else if t.kind(n) == "variable_declarator"@ {
            "name"@
        } else {
            "pattern"@
        };
        match t.field(n, f) {
            Some(c) => if n < c < t.len() {
                binds(t, c as int, name)
            } else {
                false
            },
            None => false,
        }
    } else {
        binds_among(t, n, 0, name)
    }
}

/// Some named child of `n`, from position `k` on, binds `name`.
pub open spec fn binds_among(t: &SyntaxTree, n: int, k: int, name: Seq<char>) -> bool
    decreases t.len() - n, 0int, t.named_kids(n).len() - k,
{
    if !t.valid(n) || k < 0 || k >= t.named_kids(n).len() {
        false
    } else {
        let c = t.named_kids(n)[k] as int;
        (n < c < t.len() && binds(t, c, name)) || binds_among(t, n, k + 1, name)
    }
}

pub open spec fn is_scope_fn_kind(k: Seq<char>) -> bool {
    k == "function_declaration"@ || k == "generator_function_declaration"@ || k
        == "function_expression"@ || k == "generator_function"@ || k == "arrow_function"@ || k
        == "method_definition"@
}

/// A function scope at `a` whose parameters bind `name`.
pub open spec fn params_bind(t: &SyntaxTree, a: int, name: Seq<char>) -> bool {
    &&& is_scope_fn_kind(t.kind(a))
    &&& {
        ||| (t.field(a, "parameters"@) matches Some(p) && binds(t, p as int, name))
        ||| (t.field(a, "parameter"@) matches Some(p) && binds(t, p as int, name))
    }
}

/// A block at `a` with a `let`/`const`/`var` declaration of `name`.
pub open spec fn block_binds(t: &SyntaxTree, a: int, name: Seq<char>) -> bool {
    &&& t.kind(a) == "statement_block"@
    &&& exists|k: int|
        0 <= k < t.named_kids(a).len() && (t.kind(t.named_kids(a)[k] as int)
            == "lexical_declaration"@ || t.kind(t.named_kids(a)[k] as int)
            == "variable_declaration"@) && #[trigger] binds(t, t.named_kids(a)[k] as int, name)
}

/// `a` or one of its ancestors rebinds `name`.
pub open spec fn rebound_from(t: &SyntaxTree, a: int, name: Seq<char>) -> bool
    decreases a,
{
    if !t.valid(a) {
        false
    } else if params_bind(t, a, name) || block_binds(t, a, name) {
        true
    } else {
        match t.nodes@[a].parent {
            Some(p) => if (p as int) < a {
                rebound_from(t, p as int, name)
            } else {
                false
            },
            None => false,
        }
    }
}

/// `name` is rebound between the call site and the file scope.
pub open spec fn shadowed(t: &SyntaxTree, call: int, name: Seq<char>) -> bool {
    match t.nodes@[call].parent {
        Some(p) => rebound_from(t, p as int, name),
        None => false,
    }
}

// ── Callers and callees ────────────────────────────────────────────────

pub open spec fn is_fn_kind(k: Seq<char>) -> bool {
    k == "function_declaration"@ || k == "method_definition"@
}

/// The nearest of `a` and its ancestors that is a function declaration or
/// a method.
pub open spec fn enclosing_fn(t: &SyntaxTree, a: int) -> Option<int>
    decreases a,
{
    if !t.valid(a) {
        None
    } else if is_fn_kind(t.kind(a)) {
        Some(a)
    } else {
        match t.nodes@[a].parent {
            Some(p) => if (p as int) < a {
                enclosing_fn(t, p as int)
            } else {
                None
            },
            None => None,
        }
    }
}

/// The caller a call site is attributed to: the name of its innermost
/// enclosing function or method, else `"<toplevel>"`.
pub open spec fn caller_of(t: &SyntaxTree, call: int) -> Seq<char> {
    match t.nodes@[call].parent {
        Some(p) => match enclosing_fn(t, p as int) {
            Some(f) => match t.field(f, "name"@) {
                Some(nm) => t.text_of(nm as int),
                None => "<toplevel>"@,
            },
            None => "<toplevel>"@,
        },
        None => "<toplevel>"@,
    }
}

/// The callee node of a call or `new` expression.
pub open spec fn callee_node(t: &SyntaxTree, call: int) -> Option<usize> {
    match t.field(call, "function"@) {
        Some(c) => Some(c),
        None => t.field(call, "constructor"@),
    }
}

/// How the call at `call` is classified, given the file's import bindings.
pub open spec fn classify(t: &SyntaxTree, call: int, es: Seq<EntryView>) -> Option<RefView> {
    match callee_node(t, call) {
        None => None,
        Some(c) => if t.kind(c as int) == "identifier"@ {
            let id = t.text_of(c as int);
            if shadowed(t, call, id) {
                Some((2, id, seq![]))
            } else {
                match lookup_entry(es, false, id) {
                    Some((spec, name)) => Some((1, spec, name)),
                    None => if declares(t, id) {
                        Some((0, id, seq![]))
                    } else {
                        Some((2, id, seq![]))
                    },
                }
            }
        } else if t.kind(c as int) == "member_expression"@ {
            match t.field(c as int, "property"@) {
                None => None,
                Some(p) => {
                    let name = t.text_of(p as int);
                    let ns = match t.field(c as int, "object"@) {
                        Some(o) => if t.kind(o as int) == "identifier"@ && !shadowed(
                            t,
                            call,
                            t.text_of(o as int),
                        ) {
                            lookup_entry(es, true, t.text_of(o as int))
                        } else {
                            None
                        },
                        None => None,
                    };
                    match ns {
                        Some((spec, _)) => Some((1, spec, name)),
                        None => Some((2, name, seq![])),
                    }
                },
            }
        } else {
            Some((2, "<dynamic>"@, seq![]))
        },
    }
}

pub open spec fn is_call_kind(k: Seq<char>) -> bool {
    k == "call_expression"@ || k == "new_expression"@
}

pub open spec fn site_at(t: &SyntaxTree, n: int, es: Seq<EntryView>) -> Option<SiteView> {
    if is_call_kind(t.kind(n)) {
        match classify(t, n, es) {
            Some(c) => Some((caller_of(t, n), c)),
            None => None,
        }
    } else {
        None
    }
}

pub open spec fn sites_upto(t: &SyntaxTree, i: int, es: Seq<EntryView>) -> Seq<SiteView>
    decreases i,
{
    if i <= 0 {
        seq![]
    } else {
        sites_upto(t, i - 1, es) + opt_seq(site_at(t, i - 1, es))
    }
}

/// Every classified call site of a tree, in preorder.
pub open spec fn tree_sites(t: &SyntaxTree) -> Seq<SiteView> {
    sites_upto(t, t.end_of(0), import_entries_of(t))
}

// ── Aggregation ────────────────────────────────────────────────────────

/// The edge order: caller, then callee variant, then the callee's strings.
pub open spec fn site_lt() -> spec_fn(SiteView, SiteView) -> bool {
    |a: SiteView, b: SiteView|
        lt_seq(a.0, b.0) || (a.0 == b.0 && (a.1.0 < b.1.0 || (a.1.0 == b.1.0 && (lt_seq(
            a.1.1,
            b.1.1,
        ) || (a.1.1 == b.1.1 && lt_seq(a.1.2, b.1.2))))))
}

/// How many sites have key `k`.
pub open spec fn count_in(sites: Seq<SiteView>, k: SiteView) -> int
    decreases sites.len(),
{
    if sites.len() == 0 {
        0
    } else {
        count_in(sites.drop_last(), k) + if sites.last() == k {
            1int
        } else {
            0int
        }
    }
}

/// `edges` are the sites collapsed onto counted edges: one edge per
/// distinct key, in increasing key order, each with its number of sites.
pub open spec fn aggregates(edges: Seq<EdgeView>, sites: Seq<SiteView>) -> bool {
    &&& strictly_sorted(edge_keys(edges), site_lt())
    &&& forall|j: int|
        0 <= j < edges.len() ==> sites.contains((#[trigger] edges[j].0, edges[j].1)) && edges[j].2
            == count_in(sites, (edges[j].0, edges[j].1))
    &&& forall|s: int| 0 <= s < sites.len() ==> edge_keys(edges).contains(#[trigger] sites[s])
}

pub open spec fn site_views(sites: Seq<(String, RawCalleeRef)>) -> Seq<SiteView> {
    sites.map_values(|s: (String, RawCalleeRef)| (s.0@, s.1@))
}

// ── Lemmas on the order and the counts ─────────────────────────────────

pub proof fn lemma_site_lt_total()
    ensures
        crate::sorted::strict_total(site_lt()),
{
    assert forall|a: SiteView| !#[trigger] site_lt()(a, a) by {
        lemma_order_zero_iff_eq(a.0, a.0);
        lemma_order_zero_iff_eq(a.1.1, a.1.1);
        lemma_order_zero_iff_eq(a.1.2, a.1.2);
    }
    assert forall|a: SiteView, b: SiteView, c: SiteView|
        #[trigger] site_lt()(a, b) && #[trigger] site_lt()(b, c) implies site_lt()(a, c) by {
        if lt_seq(a.0, b.0) && lt_seq(b.0, c.0) {
            lemma_order_trans(a.0, b.0, c.0);
        }
        if a.0 == b.0 && b.0 == c.0 && a.1.0 == b.1.0 && b.1.0 == c.1.0 {
            if lt_seq(a.1.1, b.1.1) && lt_seq(b.1.1, c.1.1) {
                lemma_order_trans(a.1.1, b.1.1, c.1.1);
            }
            if a.1.1 == b.1.1 && b.1.1 == c.1.1 && lt_seq(a.1.2, b.1.2) && lt_seq(b.1.2, c.1.2) {
                lemma_order_trans(a.1.2, b.1.2, c.1.2);
            }
        }
    }
    assert forall|a: SiteView, b: SiteView|
        !#[trigger] site_lt()(a, b) && !site_lt()(b, a) implies a == b by {
        lemma_order_antisym(a.0, b.0);
        lemma_order_zero_iff_eq(a.0, b.0);
        lemma_order_antisym(a.1.1, b.1.1);
        lemma_order_zero_iff_eq(a.1.1, b.1.1);
        lemma_order_antisym(a.1.2, b.1.2);
        lemma_order_zero_iff_eq(a.1.2, b.1.2);
    }
}

proof fn lemma_count_push(s: Seq<SiteView>, x: SiteView, k: SiteView)
    ensures
        count_in(s.push(x), k) == count_in(s, k) + if x == k {
            1int
        } else {
            0int
        },
{
    assert(s.push(x).drop_last() =~= s);
}

proof fn lemma_count_absent(s: Seq<SiteView>, k: SiteView)
    requires
        !s.contains(k),
    ensures
        count_in(s, k) == 0,
    decreases s.len(),
{
    if s.len() > 0 {
        assert(s.drop_last().contains(k) ==> s.contains(k)) by {
            if s.drop_last().contains(k) {
                let j = choose|j: int| 0 <= j < s.drop_last().len() && s.drop_last()[j] == k;
                assert(s[j] == k);
            }
        }
        assert(s[s.len() - 1] != k);
        lemma_count_absent(s.drop_last(), k);
    }
}

proof fn lemma_count_bound(s: Seq<SiteView>, k: SiteView)
    ensures
        0 <= count_in(s, k) <= s.len(),
    decreases s.len(),
{
    if s.len() > 0 {
        lemma_count_bound(s.drop_last(), k);
    }
}

/// The edges are determined by the call sites: two edge lists that both
/// aggregate the same sites are the same list, order and counts included.
pub proof fn lemma_aggregation_is_determined(e1: Seq<EdgeView>, e2: Seq<EdgeView>, sites: Seq<SiteView>)
    requires
        aggregates(e1, sites),
        aggregates(e2, sites),
    ensures
        e1 == e2,
{
    lemma_site_lt_total();
    let k1 = edge_keys(e1);
    let k2 = edge_keys(e2);
    assert forall|x: SiteView| k1.contains(x) <==> k2.contains(x) by {
        if k1.contains(x) {
            let j = choose|j: int| 0 <= j < k1.len() && k1[j] == x;
            assert(sites.contains((e1[j].0, e1[j].1)));
            let s = choose|s: int| 0 <= s < sites.len() && sites[s] == x;
            assert(k2.contains(sites[s]));
        }
        if k2.contains(x) {
            let j = choose|j: int| 0 <= j < k2.len() && k2[j] == x;
            assert(sites.contains((e2[j].0, e2[j].1)));
            let s = choose|s: int| 0 <= s < sites.len() && sites[s] == x;
            assert(k1.contains(sites[s]));
        }
    }
    crate::sorted::lemma_sorted_same_members_equal(k1, k2, site_lt());
    assert forall|j: int| 0 <= j < e1.len() implies e1[j] == e2[j] by {
        assert(k1[j] == k2[j]);
        assert(e1[j].2 == count_in(sites, (e1[j].0, e1[j].1)));
        assert(e2[j].2 == count_in(sites, (e2[j].0, e2[j].1)));
    }
    assert(e1 =~= e2);
}

// ── Executable extraction ──────────────────────────────────────────────

pub(crate) fn text_eq(t: &SyntaxTree, n: usize, s: &[char]) -> (r: bool)
    requires
        t.wf(),
        t.valid(n as int),
    ensures
        r == (t.text_of(n as int) == s@),
{
    let tx = t.text(n);
    chars_eq(tx.as_slice(), s)
}

/// The names the file declares, in preorder.
fn declared_names(t: &SyntaxTree) -> (r: Vec<Vec<char>>)
    requires
        t.wf(),
    ensures
        r@.map_values(|v: Vec<char>| v@) == declared_upto(t, t.end_of(0)),
{
    let end = t.end(0);
    let mut out: Vec<Vec<char>> = Vec::new();
    let mut n: usize = 0;
    while n < end
        invariant
            t.wf(),
            end == t.end_of(0),
            end <= t.nodes@.len(),
            n <= end,
            out@.map_values(|v: Vec<char>| v@) == declared_upto(t, n as int),
        decreases end - n,
    {
        let ghost prev = out@.map_values(|v: Vec<char>| v@);
        if t.kind_is(n, "function_declaration") || t.kind_is(n, "generator_function_declaration")
            || t.kind_is(n, "class_declaration") || t.kind_is(n, "abstract_class_declaration")
            || t.kind_is(n, "variable_declarator") {
            match t.field_child(n, "name") {
                Some(c) => {
                    if t.kind_is(c, "identifier") || t.kind_is(c, "type_identifier") {
                        let tx = t.text(c);
                        let ghost xv = tx@;
                        out.push(tx);
                        assert(out@.map_values(|v: Vec<char>| v@) =~= prev.push(xv));
                    }
                },
                None => {},
            }
        }
        assert(out@.map_values(|v: Vec<char>| v@) =~= declared_upto(t, n + 1));
        n = n + 1;
    }
    out
}

pub(crate) fn is_declared(names: &Vec<Vec<char>>, x: &[char]) -> (r: bool)
    ensures
        r == names@.map_values(|v: Vec<char>| v@).contains(x@),
{
    let ghost vs = names@.map_values(|v: Vec<char>| v@);
    let mut i: usize = 0;
    while i < names.len()
        invariant
            i <= names@.len(),
            vs == names@.map_values(|v: Vec<char>| v@),
            forall|j: int| 0 <= j < i ==> vs[j] != x@,
        decreases names.len() - i,
    {
        if chars_eq(names[i].as_slice(), x) {
            assert(vs[i as int] == x@);
            return true;
        }
        i = i + 1;
    }
    false
}

/// Does the pattern, parameter or declaration at `n` bind `name`?
fn binds_exec(t: &SyntaxTree, n: usize, name: &[char]) -> (r: bool)
    requires
        t.wf(),
        t.valid(n as int),
    ensures
        r == binds(t, n as int, name@),
    decreases t.nodes@.len() - n,
{
    if t.kind_is(n, "identifier") {
        return text_eq(t, n, name);
    }
    let ap = t.kind_is(n, "assignment_pattern");
    let vd = t.kind_is(n, "variable_declarator");
    if t.kind_is(n, "required_parameter") || t.kind_is(n, "optional_parameter") || ap || vd {
        let f = if ap {
            "left"
        } else if vd {
            "name"
        } else {
            "pattern"
        };
        return match t.field_child(n, f) {
            Some(c) => binds_exec(t, c, name),
            None => false,
        };
    }
    let kids = t.named_children(n);
    let mut k: usize = 0;
    while k < kids.len()
        invariant
            t.wf(),
            t.valid(n as int),
            k <= kids@.len(),
            kids@ == t.named_kids(n as int),
            forall|j: int| 0 <= j < kids@.len() ==> n < #[trigger] kids@[j] < t.nodes@.len(),
            !(t.kind(n as int) == "identifier"@ || t.kind(n as int) == "required_parameter"@
                || t.kind(n as int) == "optional_parameter"@ || t.kind(n as int)
                == "assignment_pattern"@ || t.kind(n as int) == "variable_declarator"@),
            binds(t, n as int, name@) == binds_among(t, n as int, k as int, name@),
        decreases kids.len() - k,
    {
        if binds_exec(t, kids[k], name) {
            return true;
        }
        k = k + 1;
    }
    false
}

fn params_bind_exec(t: &SyntaxTree, a: usize, name: &[char]) -> (r: bool)
    requires
        t.wf(),
        t.valid(a as int),
    ensures
        r == params_bind(t, a as int, name@),
{
    if !(t.kind_is(a, "function_declaration") || t.kind_is(a, "generator_function_declaration")
        || t.kind_is(a, "function_expression") || t.kind_is(a, "generator_function")
        || t.kind_is(a, "arrow_function") || t.kind_is(a, "method_definition")) {
        return false;
    }
    let first = match t.field_child(a, "parameters") {
        Some(p) => binds_exec(t, p, name),
        None => false,
    };
    if first {
        return true;
    }
    match t.field_child(a, "parameter") {
        Some(p) => binds_exec(t, p, name),
        None => false,
    }
}

fn block_binds_exec(t: &SyntaxTree, a: usize, name: &[char]) -> (r: bool)
    requires
        t.wf(),
        t.valid(a as int),
    ensures
        r == block_binds(t, a as int, name@),
{
    if !t.kind_is(a, "statement_block") {
        return false;
    }
    let kids = t.named_children(a);
    let mut k: usize = 0;
    while k < kids.len()
        invariant
            t.wf(),
            t.valid(a as int),
            t.kind(a as int) == "statement_block"@,
            k <= kids@.len(),
            kids@ == t.named_kids(a as int),
            forall|j: int| 0 <= j < kids@.len() ==> t.valid(#[trigger] kids@[j] as int),
            forall|j: int|
                0 <= j < k ==> !((t.kind(kids@[j] as int) == "lexical_declaration"@ || t.kind(
                    kids@[j] as int,
                ) == "variable_declaration"@) && #[trigger] binds(t, kids@[j] as int, name@)),
        decreases kids.len() - k,
    {
        let d = kids[k];
        if (t.kind_is(d, "lexical_declaration") || t.kind_is(d, "variable_declaration"))
            && binds_exec(t, d, name) {
            return true;
        }
        k = k + 1;
    }
    proof {
        assert forall|j: int|
            0 <= j < t.named_kids(a as int).len() && (t.kind(t.named_kids(a as int)[j] as int)
                == "lexical_declaration"@ || t.kind(t.named_kids(a as int)[j] as int)
                == "variable_declaration"@) implies !#[trigger] binds(
            t,
            t.named_kids(a as int)[j] as int,
            name@,
        ) by {
            assert(kids@[j] == t.named_kids(a as int)[j]);
        }
    }
    false
}

/// Is `name` rebound between the call site and the file scope?
fn shadowed_exec(t: &SyntaxTree, call: usize, name: &[char]) -> (r: bool)
    requires
        t.wf(),
        t.valid(call as int),
    ensures
        r == shadowed(t, call as int, name@),
{
    let mut cur = t.parent_of(call);
    while cur.is_some()
        invariant
            t.wf(),
            t.valid(call as int),
            cur matches Some(a) ==> t.valid(a as int),
            shadowed(t, call as int, name@) == match cur {
                Some(a) => rebound_from(t, a as int, name@),
                None => false,
            },
        decreases match cur {
            Some(a) => a as int + 1,
            None => 0,
        },
    {
        let a = match cur {
            Some(a) => a,
            None => 0,
        };
        if params_bind_exec(t, a, name) || block_binds_exec(t, a, name) {
            return true;
        }
        cur = t.parent_of(a);
    }
    false
}

/// The caller a call site is attributed to.
fn caller_exec(t: &SyntaxTree, call: usize) -> (r: String)
    requires
        t.wf(),
        t.valid(call as int),
    ensures
        r@ == caller_of(t, call as int),
{
    proof {
        reveal_strlit("<toplevel>");
    }
    let mut cur = t.parent_of(call);
    while cur.is_some()
        invariant
            t.wf(),
            t.valid(call as int),
            cur matches Some(a) ==> t.valid(a as int),
            caller_of(t, call as int) == match t.nodes@[call as int].parent {
                Some(p) => match enclosing_fn(t, p as int) {
                    Some(f) => match t.field(f, "name"@) {
                        Some(nm) => t.text_of(nm as int),
                        None => "<toplevel>"@,
                    },
                    None => "<toplevel>"@,
                },
                None => "<toplevel>"@,
            },
            match t.nodes@[call as int].parent {
                Some(p) => enclosing_fn(t, p as int) == match cur {
                    Some(a) => enclosing_fn(t, a as int),
                    None => None,
                },
                None => cur is None,
            },
        decreases match cur {
            Some(a) => a as int + 1,
            None => 0,
        },
    {
        let a = match cur {
            Some(a) => a,
            None => 0,
        };
        if t.kind_is(a, "function_declaration") || t.kind_is(a, "method_definition") {
            return match t.field_child(a, "name") {
                Some(nm) => t.text_string(nm),
                None => "<toplevel>".to_string(),
            };
        }
        cur = t.parent_of(a);
    }
    "<toplevel>".to_string()
}

fn classify_exec(t: &SyntaxTree, call: usize, es: &Vec<ImportEntry>, names: &Vec<Vec<char>>) -> (r:
    Option<RawCalleeRef>)
    requires
        t.wf(),
        t.valid(call as int),
        names@.map_values(|v: Vec<char>| v@) == declared_upto(t, t.end_of(0)),
    ensures
        match r {
            Some(c) => classify(t, call as int, entry_views(es@)) == Some(c@),
            None => classify(t, call as int, entry_views(es@)) is None,
        },
{
    proof {
        reveal_strlit("<dynamic>");
    }
    let c = match t.field_child(call, "function") {
        Some(c) => c,
        None => match t.field_child(call, "constructor") {
            Some(c) => c,
            None => return None,
        },
    };
    if t.kind_is(c, "identifier") {
        let tx = t.text(c);
        let ident = t.text_string(c);
        if shadowed_exec(t, call, tx.as_slice()) {
            return Some(RawCalleeRef::Unresolved { name: ident });
        }
        match lookup_import(es, false, &ident) {
            Some((specifier, name)) => Some(RawCalleeRef::Specifier { specifier, name }),
            None => if is_declared(names, tx.as_slice()) {
                Some(RawCalleeRef::SameFile(ident))
            } else {
                Some(RawCalleeRef::Unresolved { name: ident })
            },
        }
    } else if t.kind_is(c, "member_expression") {
        let p = match t.field_child(c, "property") {
            Some(p) => p,
            None => return None,
        };
        let name = t.text_string(p);
        let ns = match t.field_child(c, "object") {
            Some(o) => {
                if t.kind_is(o, "identifier") {
                    let ot = t.text(o);
                    if !shadowed_exec(t, call, ot.as_slice()) {
                        let os = t.text_string(o);
                        lookup_import(es, true, &os)
                    } else {
                        None
                    }
                } else {
                    None
                }
            },
            None => None,
        };
        match ns {
            Some((specifier, _)) => Some(RawCalleeRef::Specifier { specifier, name }),
            None => Some(RawCalleeRef::Unresolved { name }),
        }
    } else {
        Some(RawCalleeRef::Unresolved { name: "<dynamic>".to_string() })
    }
}

/// Three-way comparison of two sites' keys in the edge order.
fn compare_sites(a0: &String, a1: &RawCalleeRef, b0: &String, b1: &RawCalleeRef) -> (r: i8)
    ensures
        (r < 0) == site_lt()((a0@, a1@), (b0@, b1@)),
        (r == 0) == ((a0@, a1@) == (b0@, b1@)),
        (r > 0) == site_lt()((b0@, b1@), (a0@, a1@)),
{
    proof {
        lemma_order_antisym(a0@, b0@);
        lemma_order_zero_iff_eq(a0@, b0@);
    }
    let c = compare_strings(a0, b0);
    if c != 0 {
        return c;
    }
    match (a1, b1) {
        (RawCalleeRef::SameFile(x), RawCalleeRef::SameFile(y)) => {
            proof {
                lemma_order_antisym(x@, y@);
                lemma_order_zero_iff_eq(x@, y@);
                lemma_order_zero_iff_eq(Seq::<char>::empty(), Seq::<char>::empty());
            }
            compare_strings(x, y)
        },
        (
            RawCalleeRef::Specifier { specifier: s1, name: n1 },
            RawCalleeRef::Specifier { specifier: s2, name: n2 },
        ) => {
            proof {
                lemma_order_antisym(s1@, s2@);
                lemma_order_zero_iff_eq(s1@, s2@);
                lemma_order_antisym(n1@, n2@);
                lemma_order_zero_iff_eq(n1@, n2@);
            }
            let d = compare_strings(s1, s2);
            if d != 0 {
                d
            } else {
                compare_strings(n1, n2)
            }
        },
        (RawCalleeRef::Unresolved { name: x }, RawCalleeRef::Unresolved { name: y }) => {
            proof {
                lemma_order_antisym(x@, y@);
                lemma_order_zero_iff_eq(x@, y@);
                lemma_order_zero_iff_eq(Seq::<char>::empty(), Seq::<char>::empty());
            }
            compare_strings(x, y)
        },
        (RawCalleeRef::SameFile(_), _) => -1,
        (_, RawCalleeRef::SameFile(_)) => 1,
        (RawCalleeRef::Specifier { .. }, _) => -1,
        (_, RawCalleeRef::Specifier { .. }) => 1,
    }
}

/// Collapse call sites onto counted edges: one per distinct
/// `(caller, callee)`, in increasing edge order.
pub fn aggregate(sites: Vec<(String, RawCalleeRef)>) -> (r: Vec<RawCallEdge>)
    requires
        sites@.len() <= u32::MAX,
    ensures
        aggregates(edge_views(r@), site_views(sites@)),
{
    proof {
        lemma_site_lt_total();
    }
    let ghost all = site_views(sites@);
    let mut out: Vec<RawCallEdge> = Vec::new();
    for site in it: sites
        invariant
            crate::sorted::strict_total(site_lt()),
            site_views(it.seq()) == all,
            all.len() <= u32::MAX,
            aggregates(edge_views(out@), all.take(it.index() as int)),
    {
        let ghost i = it.index() as int;
        let ghost before = all.take(i);
        let ghost x: SiteView = (site.0@, site.1@);
        let ghost old_edges = edge_views(out@);
        let ghost keys = edge_keys(old_edges);
        proof {
            assert(all[i] == x);
            assert(all.take(i + 1) =~= before.push(x));
        }
        let mut p: usize = 0;
        while p < out.len() && compare_sites(&out[p].caller, &out[p].callee, &site.0, &site.1) < 0
            invariant
                p <= out@.len(),
                edge_views(out@) == old_edges,
                keys == edge_keys(old_edges),
                x == (site.0@, site.1@),
                forall|k: int| 0 <= k < p ==> site_lt()(#[trigger] keys[k], x),
            decreases out.len() - p,
        {
            assert(keys[p as int] == (out@[p as int].caller@, out@[p as int].callee@));
            p = p + 1;
        }
        let found = p < out.len() && compare_sites(&out[p].caller, &out[p].callee, &site.0, &site.1)
            == 0;
        if found {
            proof {
                assert(keys[p as int] == x);
                lemma_count_bound(before, x);
            }
            let c = out[p].count;
            let e = RawCallEdge { caller: site.0, callee: site.1, count: c + 1 };
            out.set(p, e);
            proof {
                let ne = edge_views(out@);
                assert(edge_keys(ne) =~= keys);
                assert forall|j: int| 0 <= j < ne.len() implies all.take(i + 1).contains(
                    (#[trigger] ne[j].0, ne[j].1),
                ) && ne[j].2 == count_in(all.take(i + 1), (ne[j].0, ne[j].1)) by {
                    assert(keys[j] == (ne[j].0, ne[j].1));
                    lemma_count_push(before, x, keys[j]);
                    if j != p {
                        assert(old_edges[j] == ne[j]);
                        if j < p {
                            assert(site_lt()(keys[j], keys[p as int]));
                        } else {
                            assert(site_lt()(keys[p as int], keys[j]));
                        }
                        assert(before.contains(keys[j]));
                        let w = choose|w: int| 0 <= w < before.len() && before[w] == keys[j];
                        assert(all.take(i + 1)[w] == keys[j]);
                    } else {
                        assert(all.take(i + 1)[i] == x);
                    }
                }
                assert forall|s: int| 0 <= s < all.take(i + 1).len() implies edge_keys(ne).contains(
                    #[trigger] all.take(i + 1)[s],
                ) by {
                    if s < i {
                        assert(all.take(i + 1)[s] == before[s]);
                    } else {
                        assert(edge_keys(ne)[p as int] == x);
                    }
                }
            }
        } else {
            let e = RawCallEdge { caller: site.0, callee: site.1, count: 1 };
            let ghost ev = e@;
            out.insert(p, e);
            proof {
                let ne = edge_views(out@);
                assert(ne =~= old_edges.insert(p as int, ev));
                assert(edge_keys(ne) =~= keys.insert(p as int, x));
                if (p as int) < keys.len() {
                    assert(!site_lt()(keys[p as int], x));
                    assert(keys[p as int] != x);
                    assert(site_lt()(x, keys[p as int]));
                }
                assert forall|a: int, b: int| 0 <= a < b < edge_keys(ne).len() implies site_lt()(
                    #[trigger] edge_keys(ne)[a],
                    #[trigger] edge_keys(ne)[b],
                ) by {
                    let nk = edge_keys(ne);
                    if b < p {
                        assert(nk[a] == keys[a] && nk[b] == keys[b]);
                    } else if b == p {
                        assert(nk[a] == keys[a]);
                    } else if a == p {
                        assert(nk[b] == keys[b - 1]);
                        if b - 1 > p {
                            assert(site_lt()(keys[p as int], keys[b - 1]));
                        }
                    } else if a < p {
                        assert(nk[a] == keys[a] && nk[b] == keys[b - 1]);
                        assert(site_lt()(keys[a], x));
                        if b - 1 > p {
                            assert(site_lt()(keys[p as int], keys[b - 1]));
                        }
                    } else {
                        assert(nk[a] == keys[a - 1] && nk[b] == keys[b - 1]);
                    }
                }
                assert(!before.contains(x)) by {
                    if before.contains(x) {
                        let w = choose|w: int| 0 <= w < before.len() && before[w] == x;
                        assert(keys.contains(before[w]));
                        let j = choose|j: int| 0 <= j < keys.len() && keys[j] == x;
                        if j < p {
                            assert(site_lt()(keys[j], x));
                        } else {
                            assert(j >= p);
                            if j > p {
                                assert(site_lt()(keys[p as int], keys[j]));
                            }
                        }
                    }
                }
                lemma_count_absent(before, x);
                assert forall|j: int| 0 <= j < ne.len() implies all.take(i + 1).contains(
                    (#[trigger] ne[j].0, ne[j].1),
                ) && ne[j].2 == count_in(all.take(i + 1), (ne[j].0, ne[j].1)) by {
                    let k = (ne[j].0, ne[j].1);
                    lemma_count_push(before, x, k);
                    if j == p {
                        assert(all.take(i + 1)[i] == x);
                    } else {
                        let o = if j < p { j } else { j - 1 };
                        assert(ne[j] == old_edges[o]);
                        assert(keys[o] == k);
                        assert(k != x);
                        let w = choose|w: int| 0 <= w < before.len() && before[w] == k;
                        assert(all.take(i + 1)[w] == k);
                    }
                }
                assert forall|s: int| 0 <= s < all.take(i + 1).len() implies edge_keys(ne).contains(
                    #[trigger] all.take(i + 1)[s],
                ) by {
                    if s < i {
                        assert(all.take(i + 1)[s] == before[s]);
                        let j = choose|j: int| 0 <= j < keys.len() && keys[j] == before[s];
                        if j < p {
                            assert(edge_keys(ne)[j] == keys[j]);
                        } else {
                            assert(edge_keys(ne)[j + 1] == keys[j]);
                        }
                    } else {
                        assert(edge_keys(ne)[p as int] == x);
                    }
                }
            }
        }
    }
    proof {
        assert(all.take(all.len() as int) =~= all);
    }
    out
}

/// Tree-level core of `extract_call_edges`.
pub fn call_edges_from_tree(t: &SyntaxTree) -> (r: Vec<RawCallEdge>)
    requires
        t.wf(),
        t.nodes@.len() <= u32::MAX,
    ensures
        aggregates(edge_views(r@), tree_sites(t)),
{
    let es = import_entries(t);
    let names = declared_names(t);
    let end = t.end(0);
    let mut sites: Vec<(String, RawCalleeRef)> = Vec::new();
    let mut n: usize = 0;
    while n < end
        invariant
            t.wf(),
            end == t.end_of(0),
            end <= t.nodes@.len() <= u32::MAX,
            n <= end,
            entry_views(es@) == import_entries_of(t),
            names@.map_values(|v: Vec<char>| v@) == declared_upto(t, t.end_of(0)),
            site_views(sites@) == sites_upto(t, n as int, entry_views(es@)),
            sites@.len() <= n,
        decreases end - n,
    {
        let ghost prev = site_views(sites@);
        if t.kind_is(n, "call_expression") || t.kind_is(n, "new_expression") {
            match classify_exec(t, n, &es, &names) {
                Some(c) => {
                    let caller = caller_exec(t, n);
                    let ghost sv = (caller@, c@);
                    sites.push((caller, c));
                    assert(site_views(sites@) =~= prev.push(sv));
                },
                None => {},
            }
        }
        assert(site_views(sites@) =~= sites_upto(t, n + 1, entry_views(es@)));
        n = n + 1;
    }
    aggregate(sites)
}

/// Extract aggregated call edges from one TS/JS file. Other languages
/// yield none.
pub fn extract_call_edges(path: &str, content: &str) -> (r: Vec<RawCallEdge>)
    ensures
        path_language(path@) != Language::JsTs ==> r@.len() == 0,
        path_language(path@) == Language::JsTs ==> (grammar_spec(path_language(path@), extension(path@)) matches Some(g)
            ==> exists|t: SyntaxTree| #[trigger] is_parse_of(t, g, content@) && if t.nodes@.len() <= u32::MAX {
            aggregates(edge_views(r@), tree_sites(&t))
        } else {
            r@.len() == 0
        }),
{
    let lang = detect_language(path);
    match lang {
        Language::JsTs => {},
        _ => return Vec::new(),
    }
    let ext = path_extension(path);
    let grammar = match grammar_for(lang, ext.as_slice()) {
        Some(g) => g,
        None => return Vec::new(),
    };
    match parse_source(content, grammar) {
        Some(tree) => {
            if tree.node_count() > 4294967295 {
                assert(is_parse_of(tree, grammar, content@));
                return Vec::new();
            }
            let r = call_edges_from_tree(&tree);
            assert(is_parse_of(tree, grammar, content@) && aggregates(edge_views(r@), tree_sites(&tree)));
            r
        },
        None => Vec::new(),
    }
}

// ── The counts of the edges ─────────────────────────────────────────────

/// The sum of the edges' counts.
pub open spec fn total_count(edges: Seq<EdgeView>) -> int
    decreases edges.len(),
{
    if edges.len() == 0 {
        0
    } else {
        total_count(edges.drop_last()) + edges.last().2
    }
}

/// The sites whose key is not `k`, in order.
pub open spec fn sites_without(sites: Seq<SiteView>, k: SiteView) -> Seq<SiteView>
    decreases sites.len(),
{
    if sites.len() == 0 {
        seq![]
    } else {
        sites_without(sites.drop_last(), k) + if sites.last() == k {
            seq![]
        } else {
            seq![sites.last()]
        }
    }
}

proof fn lemma_sites_without(sites: Seq<SiteView>, k: SiteView)
    ensures
        sites_without(sites, k).len() == sites.len() - count_in(sites, k),
        forall|x: SiteView| #[trigger] sites_without(sites, k).contains(x) <==> (sites.contains(x) && x != k),
        forall|x: SiteView| #[trigger] count_in(sites_without(sites, k), x) == if x == k {
            0
        } else {
            count_in(sites, x)
        },
        sites.contains(k) ==> count_in(sites, k) >= 1,
        count_in(sites, k) >= 0,
    decreases sites.len(),
{
    if sites.len() > 0 {
        let init = sites.drop_last();
        let y = sites.last();
        lemma_sites_without(init, k);
        let w = sites_without(init, k);
        let tail: Seq<SiteView> = if y == k { seq![] } else { seq![y] };
        assert(sites_without(sites, k) == w + tail);
        assert(sites =~= init.push(y));
        assert forall|x: SiteView| #[trigger] sites_without(sites, k).contains(x) <==> (sites.contains(x) && x != k) by {
            if sites_without(sites, k).contains(x) {
                let i = choose|i: int| 0 <= i < (w + tail).len() && (w + tail)[i] == x;
                if i < w.len() {
                    assert(w[i] == x);
                    assert(w.contains(x));
                    let j = choose|j: int| 0 <= j < init.len() && init[j] == x;
                    assert(sites[j] == x);
                } else {
                    assert(sites[sites.len() - 1] == x);
                }
            }
            if sites.contains(x) && x != k {
                let i = choose|i: int| 0 <= i < sites.len() && sites[i] == x;
                if i < init.len() {
                    assert(init[i] == x);
                    assert(w.contains(x));
                    let j = choose|j: int| 0 <= j < w.len() && w[j] == x;
                    assert((w + tail)[j] == x);
                } else {
                    assert((w + tail)[w.len() as int] == x);
                }
            }
        }
        assert forall|x: SiteView| #[trigger] count_in(sites_without(sites, k), x) == if x == k {
            0
        } else {
            count_in(sites, x)
        } by {
            lemma_count_in_concat(w, tail, x);
            if y != k {
                assert(count_in(tail, x) == count_in(seq![y].drop_last(), x) + if y == x { 1int } else { 0int });
                assert(seq![y].drop_last() =~= Seq::<SiteView>::empty());
            } else {
                assert(count_in(tail, x) == 0);
            }
        }
        if sites.contains(k) {
            let i = choose|i: int| 0 <= i < sites.len() && sites[i] == k;
            if i < init.len() {
                assert(init[i] == k);
            }
        }
    }
}

proof fn lemma_count_in_concat(a: Seq<SiteView>, b: Seq<SiteView>, x: SiteView)
    ensures
        count_in(a + b, x) == count_in(a, x) + count_in(b, x),
    decreases b.len(),
{
    if b.len() > 0 {
        lemma_count_in_concat(a, b.drop_last(), x);
        assert((a + b).drop_last() =~= a + b.drop_last());
    } else {
        assert(a + b =~= a);
    }
}

/// Aggregation keeps every call site: each edge counts at least one site,
/// and the counts of the edges add up to the number of sites.
pub proof fn lemma_edge_counts_sum_to_sites(edges: Seq<EdgeView>, sites: Seq<SiteView>)
    requires
        aggregates(edges, sites),
    ensures
        total_count(edges) == sites.len(),
        forall|j: int| 0 <= j < edges.len() ==> (#[trigger] edges[j]).2 >= 1,
    decreases edges.len(),
{
    lemma_site_lt_total();
    assert forall|j: int| 0 <= j < edges.len() implies (#[trigger] edges[j]).2 >= 1 by {
        assert(sites.contains((edges[j].0, edges[j].1)));
        lemma_sites_without(sites, (edges[j].0, edges[j].1));
    }
    if edges.len() == 0 {
        if sites.len() > 0 {
            assert(edge_keys(edges).contains(sites[0]));
        }
    } else {
        let last = edges.last();
        let k = (last.0, last.1);
        let rest = edges.drop_last();
        let left = sites_without(sites, k);
        lemma_sites_without(sites, k);
        let keys = edge_keys(edges);
        let rkeys = edge_keys(rest);
        assert(rkeys =~= keys.drop_last());
        assert(keys[keys.len() - 1] == k);
        assert(strictly_sorted(rkeys, site_lt())) by {
            assert forall|i: int, j: int| 0 <= i < j < rkeys.len() implies site_lt()(#[trigger] rkeys[i], #[trigger] rkeys[j]) by {
                assert(rkeys[i] == keys[i] && rkeys[j] == keys[j]);
            }
        }
        assert forall|j: int| 0 <= j < rest.len() implies left.contains((#[trigger] rest[j].0, rest[j].1))
            && rest[j].2 == count_in(left, (rest[j].0, rest[j].1)) by {
            assert(rest[j] == edges[j]);
            assert(keys[j] == (rest[j].0, rest[j].1));
            assert(site_lt()(keys[j], keys[keys.len() - 1]));
            assert(sites.contains((edges[j].0, edges[j].1)));
        }
        assert forall|s: int| 0 <= s < left.len() implies rkeys.contains(#[trigger] left[s]) by {
            assert(left.contains(left[s]));
            assert(sites.contains(left[s]) && left[s] != k);
            let i = choose|i: int| 0 <= i < sites.len() && sites[i] == left[s];
            assert(keys.contains(sites[i]));
            let q = choose|q: int| 0 <= q < keys.len() && keys[q] == sites[i];
            assert(q != keys.len() - 1);
            assert(rkeys[q] == left[s]);
        }
        lemma_edge_counts_sum_to_sites(rest, left);
        assert(last.2 == count_in(sites, k)) by {
            assert(edges[edges.len() - 1] == last);
        }
    }
}

} // verus!
