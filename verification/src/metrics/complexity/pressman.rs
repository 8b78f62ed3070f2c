//! Pressman coupling detectors: content, common and control coupling
//! findings read from one file's syntax tree.
use vstd::prelude::*;

use crate::metrics::complexity::fallback::{
    detect_language, extension, first_of, path_extension, path_language, Language,
};
use crate::metrics::complexity::syntax::SyntaxTree;
use crate::metrics::complexity::ts::{grammar_for, grammar_spec, is_parse_of, parse_source};
use crate::text::{
    chars_of, contains_left_bounded, contains_left_bounded_exec, contains_word,
    contains_word_exec, evidence_of, first_line, is_prefix, is_suffix, occurs_at_exec,
    scan_any, slice_vec, starts_with_str, ends_with_str, string_of, strip_ws, take_chars, trim,
    without_ws, chars_eq_str, occurs_at, chars_eq,
};

verus! {

/// The Pressman coupling kinds the detectors report.
#[derive(Debug, Clone, Copy, PartialEq, Eq, Structural)]
pub enum CouplingKind {
    Content,
    Common,
    Control,
}

/// One coupling finding: where, what kind, and the first line of the
/// offending construct.
#[derive(Debug, Clone, PartialEq, Eq)]
pub struct CouplingFinding {
    pub path: String,
    /// One-based line of the construct.
    pub line: Option<usize>,
    pub kind: CouplingKind,
    pub evidence: String,
}

pub type FindingView = (Option<usize>, CouplingKind, Seq<char>);

pub open spec fn finding_views(s: Seq<CouplingFinding>) -> Seq<FindingView> {
    s.map_values(|f: CouplingFinding| (f.line, f.kind, f.evidence@))
}

/// The finding reported at node `n`.
pub open spec fn finding_at(t: &SyntaxTree, n: int, kind: CouplingKind) -> FindingView {
    let row = t.nodes@[n].row;
    (
        if row < usize::MAX { Some((row + 1) as usize) } else { None },
        kind,
        take_chars(trim(first_line(t.text_of(n))), 120),
    )
}

// ── Tree predicates ────────────────────────────────────────────────────

/// Some child of `n` has kind `k`.
pub open spec fn has_child_kind(t: &SyntaxTree, n: int, k: Seq<char>) -> bool {
    exists|m: int| 0 <= m < t.kids(n).len() && t.kind(t.kids(n)[m] as int) == k
}

/// Some child of `n` has text `s`.
pub open spec fn has_child_text(t: &SyntaxTree, n: int, s: Seq<char>) -> bool {
    exists|m: int| 0 <= m < t.kids(n).len() && t.text_of(t.kids(n)[m] as int) == s
}

/// Node kinds that open a nested scope whose parameters shadow the
/// enclosing function's.
pub open spec fn is_boundary(kind: Seq<char>, js: bool) -> bool {
    if js {
        kind == "arrow_function"@ || kind == "function_expression"@ || kind
            == "function_declaration"@ || kind == "method_definition"@ || kind
            == "generator_function"@ || kind == "generator_function_declaration"@
    } else {
        kind == "closure_expression"@ || kind == "function_item"@
    }
}

/// The nodes of `root`'s subtree from `j` on, in preorder, without the
/// insides of nested scopes (nodes past `root` whose kind is a boundary
/// are kept, their subtrees skipped).
pub open spec fn scope_nodes(t: &SyntaxTree, root: int, j: int, js: bool) -> Seq<int>
    decreases t.end_of(root) - j,
{
    if j < root || j >= t.end_of(root) {
        seq![]
    } else {
        let next = if j != root && is_boundary(t.kind(j), js) && t.end_of(j) > j {
            if t.end_of(j) < t.end_of(root) { t.end_of(j) } else { t.end_of(root) }
        } else {
            j + 1
        };
        seq![j] + scope_nodes(t, root, next, js)
    }
}

// ── Rust ───────────────────────────────────────────────────────────────

/// Interior-mutability type markers.
pub open spec fn marker(k: int) -> Seq<char> {
    if k == 0 {
        "Mutex<"@
    } else if k == 1 {
        "RwLock<"@
    } else if k == 2 {
        "RefCell<"@
    } else if k == 3 {
        "Cell<"@
    } else if k == 4 {
        "UnsafeCell<"@
    } else {
        "Atomic"@
    }
}

/// Some marker occurs in `ty` with a left word boundary.
pub open spec fn any_marker(ty: Seq<char>) -> bool {
    exists|k: int| 0 <= k < 6 && contains_left_bounded(ty, #[trigger] marker(k))
}

pub open spec fn rust_common_spec(t: &SyntaxTree, n: int) -> bool {
    has_child_kind(t, n, "mutable_specifier"@) || (t.field(n, "type"@) matches Some(ty)
        && any_marker(t.text_of(ty as int)))
}

/// The `static ref` entry at `i` has a marker in its type: the text between
/// the first `:` after `i` and the first `=` after that.
pub open spec fn lazy_hit_at(body: Seq<char>, i: int) -> bool {
    let c = first_of(body, ':', i);
    c < body.len() && {
        let e = first_of(body, '=', c + 1);
        e < body.len() && any_marker(body.subrange(c + 1, e))
    }
}

pub open spec fn rust_lazy_spec(t: &SyntaxTree, n: int) -> bool {
    &&& t.field(n, "macro"@) matches Some(m) && is_suffix(t.text_of(m as int), "lazy_static"@)
    &&& lazy_entries(t.text_of(n))
}

/// Some `static ref` entry of a macro body declares an interior-mutable type.
pub open spec fn lazy_entries(body: Seq<char>) -> bool {
    scan_any(body, "static ref"@, 0, |i: int| lazy_hit_at(body, i))
}

pub open spec fn rust_content_spec(t: &SyntaxTree, n: int) -> bool {
    is_prefix(without_ws(t.text_of(n)), "#[path="@)
}

/// The `bool` parameter patterns among the first `k` children of `params`.
pub open spec fn bool_params(t: &SyntaxTree, params: int, k: int) -> Seq<Seq<char>>
    decreases k,
{
    if k <= 0 || k > t.kids(params).len() {
        seq![]
    } else {
        let p = t.kids(params)[k - 1] as int;
        bool_params(t, params, k - 1) + if t.kind(p) == "parameter"@ && (t.field(p, "type"@) matches Some(
            ty,
        ) && t.text_of(ty as int) == "bool"@) && t.field(p, "pattern"@) is Some {
            seq![t.text_of(t.field(p, "pattern"@)->0 as int)]
        } else {
            seq![]
        }
    }
}

/// The branching condition of node `m`, for the Rust detector.
pub open spec fn rust_cond(t: &SyntaxTree, m: int) -> Option<usize> {
    if t.kind(m) == "if_expression"@ || t.kind(m) == "while_expression"@ {
        t.field(m, "condition"@)
    } else if t.kind(m) == "match_expression"@ {
        t.field(m, "value"@)
    } else if t.kind(m) == "match_pattern"@ {
        t.field(m, "condition"@)
    } else {
        None
    }
}

/// The branching condition of node `m`, for the TS/JS detector.
pub open spec fn js_cond(t: &SyntaxTree, m: int) -> Option<usize> {
    if t.kind(m) == "if_statement"@ || t.kind(m) == "while_statement"@ || t.kind(m)
        == "ternary_expression"@ {
        t.field(m, "condition"@)
    } else {
        None
    }
}

pub open spec fn cond_of(t: &SyntaxTree, m: int, js: bool) -> Option<usize> {
    if js {
        js_cond(t, m)
    } else {
        rust_cond(t, m)
    }
}

/// Some same-scope node of `body` branches on a condition that mentions
/// one of `flags`.
pub open spec fn branched(t: &SyntaxTree, body: int, flags: Seq<Seq<char>>, js: bool) -> bool {
    let s = scope_nodes(t, body, body, js);
    exists|i: int| 0 <= i < s.len() && (cond_of(t, #[trigger] s[i], js) matches Some(c)
        && exists|f: int| 0 <= f < flags.len() && contains_word(t.text_of(c as int), #[trigger] flags[f]))
}

pub open spec fn rust_control_spec(t: &SyntaxTree, n: int) -> bool {
    &&& has_child_kind(t, n, "visibility_modifier"@)
    &&& t.field(n, "parameters"@) matches Some(params)
    &&& bool_params(t, params as int, t.kids(params as int).len() as int).len() > 0
    &&& t.field(n, "body"@) matches Some(body)
    &&& branched(t, body as int, bool_params(t, params as int, t.kids(params as int).len() as int), false)
}

/// The finding the Rust detectors report at node `n`, if any.
pub open spec fn rust_detect(t: &SyntaxTree, n: int) -> Option<(int, CouplingKind)> {
    let k = t.kind(n);
    if k == "static_item"@ {
        if rust_common_spec(t, n) { Some((n, CouplingKind::Common)) } else { None }
    } else if k == "attribute_item"@ {
        if rust_content_spec(t, n) { Some((n, CouplingKind::Content)) } else { None }
    } else if k == "function_item"@ {
        if rust_control_spec(t, n) { Some((n, CouplingKind::Control)) } else { None }
    } else if k == "macro_invocation"@ {
        if rust_lazy_spec(t, n) { Some((n, CouplingKind::Common)) } else { None }
    } else {
        None
    }
}

// ── TS/JS ──────────────────────────────────────────────────────────────

/// A `type_annotation` whose type is exactly the predefined `boolean`.
pub open spec fn exact_boolean(t: &SyntaxTree, a: int) -> bool {
    exists|m: int| 0 <= m < t.named_kids(a).len() && t.kind(t.named_kids(a)[m] as int)
        == "predefined_type"@ && t.text_of(t.named_kids(a)[m] as int) == "boolean"@
}

/// The flag name a parameter node declares, if it is a boolean flag.
pub open spec fn flag_of(t: &SyntaxTree, p: int) -> Option<Seq<char>> {
    let k = t.kind(p);
    if k == "required_parameter"@ || k == "optional_parameter"@ {
        let is_bool = exists|m: int| 0 <= m < t.kids(p).len() && t.kind(t.kids(p)[m] as int)
            == "type_annotation"@ && exact_boolean(t, t.kids(p)[m] as int);
        match t.field(p, "pattern"@) {
            Some(pat) => if is_bool && t.kind(pat as int) == "identifier"@ {
                Some(t.text_of(pat as int))
            } else {
                None
            },
            None => None,
        }
    } else if k == "assignment_pattern"@ {
        let right_is_bool = t.field(p, "right"@) matches Some(r) && (t.kind(r as int) == "true"@
            || t.kind(r as int) == "false"@);
        match t.field(p, "left"@) {
            Some(l) => if right_is_bool && t.kind(l as int) == "identifier"@ {
                Some(t.text_of(l as int))
            } else {
                None
            },
            None => None,
        }
    } else {
        None
    }
}

/// Flag names declared by the nodes `from..to`, in order.
pub open spec fn flags_in(t: &SyntaxTree, from: int, to: int) -> Seq<Seq<char>>
    decreases to - from,
{
    if to <= from {
        seq![]
    } else {
        flags_in(t, from, to - 1) + match flag_of(t, to - 1) {
            Some(f) => seq![f],
            None => seq![],
        }
    }
}

pub open spec fn js_control_spec(t: &SyntaxTree, f: int) -> Option<(int, CouplingKind)> {
    match t.field(f, "parameters"@) {
        None => None,
        Some(params) => {
            let flags = flags_in(t, params as int, t.end_of(params as int));
            if flags.len() == 0 {
                None
            } else {
                match t.field(f, "body"@) {
                    None => None,
                    Some(body) => if branched(t, body as int, flags, true) {
                        Some((f, CouplingKind::Control))
                    } else {
                        None
                    },
                }
            }
        },
    }
}

pub open spec fn is_let(t: &SyntaxTree, d: int) -> bool {
    t.kids(d).len() > 0 && t.text_of(t.kids(d)[0] as int) == "let"@
}

/// The control finding of the first `const` declarator, among `ds[i..]`,
/// whose value is a function.
pub open spec fn first_arrow_control(t: &SyntaxTree, ds: Seq<usize>, i: int) -> Option<(int, CouplingKind)>
    decreases ds.len() - i,
{
    if i < 0 || i >= ds.len() {
        None
    } else {
        let d = ds[i] as int;
        let r = if t.kind(d) == "variable_declarator"@ {
            match t.field(d, "value"@) {
                Some(v) => if t.kind(v as int) == "arrow_function"@ || t.kind(v as int)
                    == "function_expression"@ {
                    js_control_spec(t, v as int)
                } else {
                    None
                },
                None => None,
            }
        } else {
            None
        };
        if r is Some {
            r
        } else {
            first_arrow_control(t, ds, i + 1)
        }
    }
}

pub open spec fn js_export_spec(t: &SyntaxTree, n: int) -> Option<(int, CouplingKind)> {
    match t.field(n, "declaration"@) {
        None => None,
        Some(d) => {
            let dk = t.kind(d as int);
            if dk == "lexical_declaration"@ {
                if is_let(t, d as int) {
                    Some((n, CouplingKind::Common))
                } else {
                    first_arrow_control(t, t.named_kids(d as int), 0)
                }
            } else if dk == "variable_declaration"@ {
                Some((n, CouplingKind::Common))
            } else if dk == "function_declaration"@ {
                js_control_spec(t, d as int)
            } else {
                None
            }
        },
    }
}

/// The leftmost object of a member/subscript chain.
pub open spec fn chain_root(t: &SyntaxTree, n: int) -> Option<int>
    decreases t.len() - n,
{
    if !t.valid(n) {
        None
    } else if t.kind(n) == "member_expression"@ || t.kind(n) == "subscript_expression"@ {
        match t.field(n, "object"@) {
            None => None,
            Some(obj) => if t.kind(obj as int) == "member_expression"@ || t.kind(obj as int)
                == "subscript_expression"@ {
                if obj as int > n && (obj as int) < t.len() {
                    chain_root(t, obj as int)
                } else {
                    None
                }
            } else {
                Some(obj as int)
            },
        }
    } else {
        None
    }
}

/// `target` is `root` itself or a member path under it.
pub open spec fn rooted_at(target: Seq<char>, root: Seq<char>) -> bool {
    target == root || (is_prefix(target, root) && target.len() > root.len() && (target[root.len() as int]
        == '.' || target[root.len() as int] == '['))
}

pub open spec fn js_global_write_spec(t: &SyntaxTree, n: int) -> bool {
    &&& t.field(n, "left"@) matches Some(left)
    &&& chain_root(t, left as int) matches Some(root)
    &&& t.kind(root) == "identifier"@
    &&& (t.text_of(root) == "globalThis"@ || t.text_of(root) == "window"@)
    &&& !rooted_at(t.text_of(left as int), "window.location"@)
    &&& !rooted_at(t.text_of(left as int), "globalThis.location"@)
}

/// The name node of a class member: its `name` field, else its first
/// identifier child.
pub open spec fn member_name(t: &SyntaxTree, m: int) -> Option<int> {
    match t.field(m, "name"@) {
        Some(nm) => Some(nm as int),
        None => first_ident_child(t, m, 0),
    }
}

pub open spec fn first_ident_child(t: &SyntaxTree, m: int, i: int) -> Option<int>
    decreases t.kids(m).len() - i,
{
    if i < 0 || i >= t.kids(m).len() {
        None
    } else if t.kind(t.kids(m)[i] as int) == "property_identifier"@ || t.kind(t.kids(m)[i] as int)
        == "identifier"@ {
        Some(t.kids(m)[i] as int)
    } else {
        first_ident_child(t, m, i + 1)
    }
}

pub open spec fn singleton_member(t: &SyntaxTree, m: int) -> bool {
    &&& has_child_text(t, m, "static"@)
    &&& member_name(t, m) matches Some(nm)
    &&& ((t.kind(m) == "method_definition"@ && t.text_of(nm) == "getInstance"@) || ((t.kind(m)
        == "field_definition"@ || t.kind(m) == "public_field_definition"@) && t.text_of(nm)
        == "instance"@))
}

pub open spec fn first_singleton(t: &SyntaxTree, body: int, i: int) -> Option<int>
    decreases t.kids(body).len() - i,
{
    if i < 0 || i >= t.kids(body).len() {
        None
    } else if singleton_member(t, t.kids(body)[i] as int) {
        Some(t.kids(body)[i] as int)
    } else {
        first_singleton(t, body, i + 1)
    }
}

pub open spec fn js_singleton_spec(t: &SyntaxTree, n: int) -> Option<(int, CouplingKind)> {
    match t.field(n, "body"@) {
        None => None,
        Some(body) => match first_singleton(t, body as int, 0) {
            Some(m) => Some((m, CouplingKind::Common)),
            None => None,
        },
    }
}

pub open spec fn js_detect(t: &SyntaxTree, n: int) -> Option<(int, CouplingKind)> {
    let k = t.kind(n);
    if k == "export_statement"@ {
        js_export_spec(t, n)
    } else if k == "assignment_expression"@ || k == "augmented_assignment_expression"@ {
        if js_global_write_spec(t, n) { Some((n, CouplingKind::Common)) } else { None }
    } else if k == "class_declaration"@ || k == "class"@ {
        js_singleton_spec(t, n)
    } else {
        None
    }
}

pub open spec fn detect(t: &SyntaxTree, n: int, js: bool) -> Option<(int, CouplingKind)> {
    if js {
        js_detect(t, n)
    } else {
        rust_detect(t, n)
    }
}

/// Findings over the nodes `0..to`, in preorder.
pub open spec fn findings_upto(t: &SyntaxTree, to: int, js: bool) -> Seq<FindingView>
    decreases to,
{
    if to <= 0 {
        seq![]
    } else {
        findings_upto(t, to - 1, js) + match detect(t, to - 1, js) {
            Some((m, k)) => seq![finding_at(t, m, k)],
            None => seq![],
        }
    }
}

/// The findings for a whole tree: Rust and TS/JS have detectors, every
/// other language yields none.
pub open spec fn tree_findings(t: &SyntaxTree, lang: Language) -> Seq<FindingView> {
    match lang {
        Language::Rust => findings_upto(t, t.end_of(0), false),
        Language::JsTs => findings_upto(t, t.end_of(0), true),
        _ => seq![],
    }
}

// ── Executable detectors ───────────────────────────────────────────────

pub(crate) fn child_kind_exists(t: &SyntaxTree, n: usize, k: &str) -> (r: bool)
    requires
        t.wf(),
        t.valid(n as int),
    ensures
        r == has_child_kind(t, n as int, k@),
{
    let cnt = t.child_count(n);
    let mut i: usize = 0;
    while i < cnt
        invariant
            t.wf(),
            t.valid(n as int),
            i <= cnt == t.kids(n as int).len(),
            forall|m: int| 0 <= m < i ==> t.kind(t.kids(n as int)[m] as int) != k@,
        decreases cnt - i,
    {
        let c = t.child(n, i);
        if t.kind_is(c, k) {
            return true;
        }
        i = i + 1;
    }
    false
}

fn child_text_exists(t: &SyntaxTree, n: usize, s: &str) -> (r: bool)
    requires
        t.wf(),
        t.valid(n as int),
    ensures
        r == has_child_text(t, n as int, s@),
{
    let cnt = t.child_count(n);
    let mut i: usize = 0;
    while i < cnt
        invariant
            t.wf(),
            t.valid(n as int),
            i <= cnt == t.kids(n as int).len(),
            forall|m: int| 0 <= m < i ==> t.text_of(t.kids(n as int)[m] as int) != s@,
        decreases cnt - i,
    {
        let c = t.child(n, i);
        if t.text_is(c, s) {
            return true;
        }
        i = i + 1;
    }
    false
}

fn marker_at(k: usize) -> (s: &'static str)
    requires
        k < 6,
    ensures
        s@ == marker(k as int),
{
    if k == 0 {
        "Mutex<"
    } else if k == 1 {
        "RwLock<"
    } else if k == 2 {
        "RefCell<"
    } else if k == 3 {
        "Cell<"
    } else if k == 4 {
        "UnsafeCell<"
    } else {
        "Atomic"
    }
}

fn has_marker(ty: &[char]) -> (r: bool)
    ensures
        r == any_marker(ty@),
{
    let mut k: usize = 0;
    while k < 6
        invariant
            k <= 6,
            forall|j: int| 0 <= j < k ==> !contains_left_bounded(ty@, #[trigger] marker(j)),
        decreases 6 - k,
    {
        let m = chars_of(marker_at(k));
        if contains_left_bounded_exec(ty, m.as_slice()) {
            return true;
        }
        k = k + 1;
    }
    false
}

fn rust_common(t: &SyntaxTree, n: usize) -> (r: bool)
    requires
        t.wf(),
        t.valid(n as int),
    ensures
        r == rust_common_spec(t, n as int),
{
    if child_kind_exists(t, n, "mutable_specifier") {
        return true;
    }
    match t.field_child(n, "type") {
        Some(ty) => {
            let tt = t.text(ty);
            has_marker(tt.as_slice())
        },
        None => false,
    }
}

fn find_char(s: &[char], c: char, from: usize) -> (r: usize)
    requires
        from <= s.len(),
    ensures
        r == first_of(s@, c, from as int),
        from <= r <= s.len(),
        r < s.len() ==> s@[r as int] == c,
{
    let mut i = from;
    while i < s.len() && s[i] != c
        invariant
            from <= i <= s@.len(),
            first_of(s@, c, from as int) == first_of(s@, c, i as int),
        decreases s.len() - i,
    {
        i = i + 1;
    }
    i
}

fn lazy_hit(body: &[char], i: usize) -> (r: bool)
    requires
        i <= body.len(),
    ensures
        r == lazy_hit_at(body@, i as int),
{
    let c = find_char(body, ':', i);
    if c >= body.len() {
        return false;
    }
    let e = find_char(body, '=', c + 1);
    if e >= body.len() {
        return false;
    }
    let ty = slice_vec(body, c + 1, e);
    has_marker(ty.as_slice())
}

fn rust_lazy_static(t: &SyntaxTree, n: usize) -> (r: bool)
    requires
        t.wf(),
        t.valid(n as int),
    ensures
        r == rust_lazy_spec(t, n as int),
{
    let is_lazy = match t.field_child(n, "macro") {
        Some(m) => {
            let mt = t.text(m);
            ends_with_str(mt.as_slice(), "lazy_static")
        },
        None => false,
    };
    if !is_lazy {
        return false;
    }
    let body = t.text(n);
    lazy_entries_exec(body.as_slice())
}

fn lazy_entries_exec(body: &[char]) -> (r: bool)
    ensures
        r == lazy_entries(body@),
{
    let w = chars_of("static ref");
    let ghost pred = |i: int| lazy_hit_at(body@, i);
    let mut i: usize = 0;
    while i < body.len()
        invariant
            i <= body@.len(),
            w@ == "static ref"@,
            pred == |i: int| lazy_hit_at(body@, i),
            scan_any(body@, w@, 0, pred) == scan_any(body@, w@, i as int, pred),
        decreases body.len() - i,
    {
        if occurs_at_exec(body, w.as_slice(), i) {
            if lazy_hit(body, i) {
                return true;
            }
            i = i + if w.len() == 0 { 1 } else { w.len() };
        } else {
            i = i + 1;
        }
    }
    assert(!scan_any(body@, w@, i + 1, pred));
    assert(!scan_any(body@, w@, i + 1 + w@.len(), pred));
    if occurs_at_exec(body, w.as_slice(), i) {
        return lazy_hit(body, i);
    }
    false
}

fn rust_content(t: &SyntaxTree, n: usize) -> (r: bool)
    requires
        t.wf(),
        t.valid(n as int),
    ensures
        r == rust_content_spec(t, n as int),
{
    let tx = t.text(n);
    let norm = strip_ws(tx.as_slice());
    starts_with_str(norm.as_slice(), "#[path=")
}

/// The `bool` parameter patterns of a Rust parameter list.
fn rust_bool_params(t: &SyntaxTree, params: usize) -> (r: Vec<Vec<char>>)
    requires
        t.wf(),
        t.valid(params as int),
    ensures
        r@.len() == bool_params(t, params as int, t.kids(params as int).len() as int).len(),
        forall|i: int| 0 <= i < r@.len() ==> #[trigger] r@[i]@ == bool_params(
            t,
            params as int,
            t.kids(params as int).len() as int,
        )[i],
{
    let cnt = t.child_count(params);
    let mut r: Vec<Vec<char>> = Vec::new();
    let mut k: usize = 0;
    while k < cnt
        invariant
            t.wf(),
            t.valid(params as int),
            k <= cnt == t.kids(params as int).len(),
            r@.len() == bool_params(t, params as int, k as int).len(),
            forall|i: int| 0 <= i < r@.len() ==> #[trigger] r@[i]@ == bool_params(t, params as int, k as int)[i],
        decreases cnt - k,
    {
        let p = t.child(params, k);
        let ghost prev = bool_params(t, params as int, k as int);
        if t.kind_is(p, "parameter") {
            let ty_ok = match t.field_child(p, "type") {
                Some(ty) => t.text_is(ty, "bool"),
                None => false,
            };
            if ty_ok {
                match t.field_child(p, "pattern") {
                    Some(pat) => {
                        let pt = t.text(pat);
                        r.push(pt);
                    },
                    None => {},
                }
            }
        }
        proof {
            let next = bool_params(t, params as int, k + 1);
            assert(t.kids(params as int)[k as int] == p);
            assert forall|i: int| 0 <= i < r@.len() implies #[trigger] r@[i]@ == next[i] by {
                if i < prev.len() {
                    assert(next[i] == prev[i]);
                }
            }
        }
        k = k + 1;
    }
    r
}

/// The nodes of `root`'s subtree in preorder, nested scopes' insides left out.
fn same_scope_nodes(t: &SyntaxTree, root: usize, js: bool) -> (r: Vec<usize>)
    requires
        t.wf(),
        t.valid(root as int),
    ensures
        r@.len() == scope_nodes(t, root as int, root as int, js).len(),
        forall|i: int| 0 <= i < r@.len() ==> #[trigger] r@[i] as int == scope_nodes(t, root as int, root as int, js)[i]
            && t.valid(r@[i] as int),
{
    let end = t.end(root);
    let mut r: Vec<usize> = Vec::new();
    let mut j = root;
    let ghost full = scope_nodes(t, root as int, root as int, js);
    while j < end
        invariant
            t.wf(),
            t.valid(root as int),
            end == t.end_of(root as int),
            end <= t.nodes@.len(),
            root <= j,
            full == scope_nodes(t, root as int, root as int, js),
            r@.len() + scope_nodes(t, root as int, j as int, js).len() == full.len(),
            forall|i: int| 0 <= i < r@.len() ==> #[trigger] r@[i] as int == full[i] && t.valid(r@[i] as int),
            forall|i: int| 0 <= i < scope_nodes(t, root as int, j as int, js).len() ==> #[trigger] scope_nodes(t, root as int, j as int, js)[i]
                == full[r@.len() + i],
        decreases end - j,
    {
        let ghost rest = scope_nodes(t, root as int, j as int, js);
        r.push(j);
        let boundary = if js {
            t.kind_is(j, "arrow_function") || t.kind_is(j, "function_expression") || t.kind_is(
                j,
                "function_declaration",
            ) || t.kind_is(j, "method_definition") || t.kind_is(j, "generator_function")
                || t.kind_is(j, "generator_function_declaration")
        } else {
            t.kind_is(j, "closure_expression") || t.kind_is(j, "function_item")
        };
        let je = t.end(j);
        let ghost old_j = j;
        if j != root && boundary && je > j {
            j = if je < end { je } else { end };
        } else {
            j = j + 1;
        }
        proof {
            assert(rest == seq![old_j as int] + scope_nodes(t, root as int, j as int, js));
            assert forall|i: int| 0 <= i < scope_nodes(t, root as int, j as int, js).len() implies #[trigger] scope_nodes(t, root as int, j as int, js)[i]
                == full[r@.len() + i] by {
                assert(scope_nodes(t, root as int, j as int, js)[i] == rest[i + 1]);
            }
            assert(r@[r@.len() - 1] as int == full[r@.len() - 1]) by {
                assert(rest[0] == old_j as int);
            }
        }
    }
    r
}

fn cond_exec(t: &SyntaxTree, m: usize, js: bool) -> (r: Option<usize>)
    requires
        t.wf(),
        t.valid(m as int),
    ensures
        r == cond_of(t, m as int, js),
        r matches Some(c) ==> t.valid(c as int),
{
    if js {
        if t.kind_is(m, "if_statement") || t.kind_is(m, "while_statement") || t.kind_is(
            m,
            "ternary_expression",
        ) {
            t.field_child(m, "condition")
        } else {
            None
        }
    } else {
        if t.kind_is(m, "if_expression") || t.kind_is(m, "while_expression") {
            t.field_child(m, "condition")
        } else if t.kind_is(m, "match_expression") {
            t.field_child(m, "value")
        } else if t.kind_is(m, "match_pattern") {
            t.field_child(m, "condition")
        } else {
            None
        }
    }
}

fn mentions_flag(hay: &[char], flags: &Vec<Vec<char>>, ghost_flags: Ghost<Seq<Seq<char>>>) -> (r: bool)
    requires
        flags@.len() == ghost_flags@.len(),
        forall|i: int| 0 <= i < flags@.len() ==> #[trigger] flags@[i]@ == ghost_flags@[i],
    ensures
        r == exists|f: int| 0 <= f < ghost_flags@.len() && contains_word(hay@, #[trigger] ghost_flags@[f]),
{
    let mut i: usize = 0;
    while i < flags.len()
        invariant
            i <= flags@.len(),
            flags@.len() == ghost_flags@.len(),
            forall|k: int| 0 <= k < flags@.len() ==> #[trigger] flags@[k]@ == ghost_flags@[k],
            forall|f: int| 0 <= f < i ==> !contains_word(hay@, #[trigger] ghost_flags@[f]),
        decreases flags.len() - i,
    {
        if contains_word_exec(hay, flags[i].as_slice()) {
            assert(contains_word(hay@, ghost_flags@[i as int]));
            return true;
        }
        i = i + 1;
    }
    false
}

fn is_branched(t: &SyntaxTree, body: usize, flags: &Vec<Vec<char>>, ghost_flags: Ghost<Seq<Seq<char>>>, js: bool) -> (r: bool)
    requires
        t.wf(),
        t.valid(body as int),
        flags@.len() == ghost_flags@.len(),
        forall|i: int| 0 <= i < flags@.len() ==> #[trigger] flags@[i]@ == ghost_flags@[i],
    ensures
        r == branched(t, body as int, ghost_flags@, js),
{
    let s = same_scope_nodes(t, body, js);
    let ghost ss = scope_nodes(t, body as int, body as int, js);
    let mut i: usize = 0;
    while i < s.len()
        invariant
            t.wf(),
            i <= s@.len() == ss.len(),
            ss == scope_nodes(t, body as int, body as int, js),
            forall|k: int| 0 <= k < s@.len() ==> #[trigger] s@[k] as int == ss[k] && t.valid(s@[k] as int),
            flags@.len() == ghost_flags@.len(),
            forall|k: int| 0 <= k < flags@.len() ==> #[trigger] flags@[k]@ == ghost_flags@[k],
            forall|k: int| 0 <= k < i ==> !(cond_of(t, #[trigger] ss[k], js) matches Some(c)
                && exists|f: int| 0 <= f < ghost_flags@.len() && contains_word(t.text_of(c as int), #[trigger] ghost_flags@[f])),
        decreases s.len() - i,
    {
        let m = s[i];
        assert(m as int == ss[i as int]);
        match cond_exec(t, m, js) {
            Some(c) => {
                let ct = t.text(c);
                if mentions_flag(ct.as_slice(), flags, ghost_flags) {
                    return true;
                }
            },
            None => {},
        }
        i = i + 1;
    }
    false
}

fn rust_control(t: &SyntaxTree, n: usize) -> (r: bool)
    requires
        t.wf(),
        t.valid(n as int),
    ensures
        r == rust_control_spec(t, n as int),
{
    if !child_kind_exists(t, n, "visibility_modifier") {
        return false;
    }
    let params = match t.field_child(n, "parameters") {
        Some(p) => p,
        None => return false,
    };
    let flags = rust_bool_params(t, params);
    if flags.len() == 0 {
        return false;
    }
    let body = match t.field_child(n, "body") {
        Some(b) => b,
        None => return false,
    };
    let ghost gf = bool_params(t, params as int, t.kids(params as int).len() as int);
    is_branched(t, body, &flags, Ghost(gf), false)
}

fn rust_detect_exec(t: &SyntaxTree, n: usize) -> (r: Option<(usize, CouplingKind)>)
    requires
        t.wf(),
        t.valid(n as int),
    ensures
        match r {
            Some((m, k)) => rust_detect(t, n as int) == Some((m as int, k)) && t.valid(m as int),
            None => rust_detect(t, n as int) is None,
        },
{
    if t.kind_is(n, "static_item") {
        if rust_common(t, n) { Some((n, CouplingKind::Common)) } else { None }
    } else if t.kind_is(n, "attribute_item") {
        if rust_content(t, n) { Some((n, CouplingKind::Content)) } else { None }
    } else if t.kind_is(n, "function_item") {
        if rust_control(t, n) { Some((n, CouplingKind::Control)) } else { None }
    } else if t.kind_is(n, "macro_invocation") {
        if rust_lazy_static(t, n) { Some((n, CouplingKind::Common)) } else { None }
    } else {
        None
    }
}

fn exact_boolean_exec(t: &SyntaxTree, a: usize) -> (r: bool)
    requires
        t.wf(),
        t.valid(a as int),
    ensures
        r == exact_boolean(t, a as int),
{
    let ks = t.named_children(a);
    let mut i: usize = 0;
    while i < ks.len()
        invariant
            t.wf(),
            i <= ks@.len(),
            ks@ == t.named_kids(a as int),
            forall|k: int| 0 <= k < ks@.len() ==> t.valid(#[trigger] ks@[k] as int),
            forall|m: int| 0 <= m < i ==> !(t.kind(t.named_kids(a as int)[m] as int) == "predefined_type"@
                && t.text_of(t.named_kids(a as int)[m] as int) == "boolean"@),
        decreases ks.len() - i,
    {
        let c = ks[i];
        if t.kind_is(c, "predefined_type") && t.text_is(c, "boolean") {
            return true;
        }
        i = i + 1;
    }
    false
}

fn flag_exec(t: &SyntaxTree, p: usize) -> (r: Option<Vec<char>>)
    requires
        t.wf(),
        t.valid(p as int),
    ensures
        match r {
            Some(v) => flag_of(t, p as int) == Some(v@),
            None => flag_of(t, p as int) is None,
        },
{
    if t.kind_is(p, "required_parameter") || t.kind_is(p, "optional_parameter") {
        let cnt = t.child_count(p);
        let mut is_bool = false;
        let mut i: usize = 0;
        while i < cnt
            invariant
                t.wf(),
                t.valid(p as int),
                i <= cnt == t.kids(p as int).len(),
                is_bool == exists|m: int| 0 <= m < i && t.kind(t.kids(p as int)[m] as int)
                    == "type_annotation"@ && exact_boolean(t, t.kids(p as int)[m] as int),
            decreases cnt - i,
        {
            let c = t.child(p, i);
            if t.kind_is(c, "type_annotation") && exact_boolean_exec(t, c) {
                is_bool = true;
            }
            i = i + 1;
        }
        match t.field_child(p, "pattern") {
            Some(pat) => if is_bool && t.kind_is(pat, "identifier") {
                Some(t.text(pat))
            } else {
                None
            },
            None => None,
        }
    } else if t.kind_is(p, "assignment_pattern") {
        let right_is_bool = match t.field_child(p, "right") {
            Some(rr) => t.kind_is(rr, "true") || t.kind_is(rr, "false"),
            None => false,
        };
        match t.field_child(p, "left") {
            Some(l) => if right_is_bool && t.kind_is(l, "identifier") {
                Some(t.text(l))
            } else {
                None
            },
            None => None,
        }
    } else {
        None
    }
}

fn js_flags(t: &SyntaxTree, params: usize) -> (r: Vec<Vec<char>>)
    requires
        t.wf(),
        t.valid(params as int),
    ensures
        r@.len() == flags_in(t, params as int, t.end_of(params as int)).len(),
        forall|i: int| 0 <= i < r@.len() ==> #[trigger] r@[i]@ == flags_in(t, params as int, t.end_of(params as int))[i],
{
    let end = t.end(params);
    let mut r: Vec<Vec<char>> = Vec::new();
    let mut j = params;
    while j < end
        invariant
            t.wf(),
            t.valid(params as int),
            end == t.end_of(params as int),
            end <= t.nodes@.len(),
            params <= j <= end,
            r@.len() == flags_in(t, params as int, j as int).len(),
            forall|i: int| 0 <= i < r@.len() ==> #[trigger] r@[i]@ == flags_in(t, params as int, j as int)[i],
        decreases end - j,
    {
        let ghost prev = flags_in(t, params as int, j as int);
        match flag_exec(t, j) {
            Some(f) => {
                r.push(f);
            },
            None => {},
        }
        proof {
            let next = flags_in(t, params as int, j + 1);
            assert forall|i: int| 0 <= i < r@.len() implies #[trigger] r@[i]@ == next[i] by {
                if i < prev.len() {
                    assert(next[i] == prev[i]);
                }
            }
        }
        j = j + 1;
    }
    r
}

fn js_control(t: &SyntaxTree, f: usize) -> (r: Option<(usize, CouplingKind)>)
    requires
        t.wf(),
        t.valid(f as int),
    ensures
        match r {
            Some((m, k)) => js_control_spec(t, f as int) == Some((m as int, k)) && t.valid(m as int),
            None => js_control_spec(t, f as int) is None,
        },
{
    let params = match t.field_child(f, "parameters") {
        Some(p) => p,
        None => return None,
    };
    let flags = js_flags(t, params);
    if flags.len() == 0 {
        return None;
    }
    let body = match t.field_child(f, "body") {
        Some(b) => b,
        None => return None,
    };
    let ghost gf = flags_in(t, params as int, t.end_of(params as int));
    if is_branched(t, body, &flags, Ghost(gf), true) {
        Some((f, CouplingKind::Control))
    } else {
        None
    }
}

fn js_export(t: &SyntaxTree, n: usize) -> (r: Option<(usize, CouplingKind)>)
    requires
        t.wf(),
        t.valid(n as int),
    ensures
        match r {
            Some((m, k)) => js_export_spec(t, n as int) == Some((m as int, k)) && t.valid(m as int),
            None => js_export_spec(t, n as int) is None,
        },
{
    let d = match t.field_child(n, "declaration") {
        Some(d) => d,
        None => return None,
    };
    if t.kind_is(d, "lexical_declaration") {
        let is_let_decl = if t.child_count(d) > 0 {
            let k0 = t.child(d, 0);
            t.text_is(k0, "let")
        } else {
            false
        };
        if is_let_decl {
            return Some((n, CouplingKind::Common));
        }
        let ds = t.named_children(d);
        let mut i: usize = 0;
        while i < ds.len()
            invariant
                t.wf(),
                i <= ds@.len(),
                ds@ == t.named_kids(d as int),
                t.valid(n as int),
                t.field(n as int, "declaration"@) == Some(d),
                t.kind(d as int) == "lexical_declaration"@,
                !is_let(t, d as int),
                forall|k: int| 0 <= k < ds@.len() ==> t.valid(#[trigger] ds@[k] as int),
                first_arrow_control(t, ds@, 0) == first_arrow_control(t, ds@, i as int),
            decreases ds.len() - i,
        {
            let dd = ds[i];
            let r = if t.kind_is(dd, "variable_declarator") {
                match t.field_child(dd, "value") {
                    Some(v) => if t.kind_is(v, "arrow_function") || t.kind_is(v, "function_expression") {
                        js_control(t, v)
                    } else {
                        None
                    },
                    None => None,
                }
            } else {
                None
            };
            if r.is_some() {
                return r;
            }
            i = i + 1;
        }
        None
    } else if t.kind_is(d, "variable_declaration") {
        Some((n, CouplingKind::Common))
    } else if t.kind_is(d, "function_declaration") {
        js_control(t, d)
    } else {
        None
    }
}

fn chain_root_exec(t: &SyntaxTree, n: usize) -> (r: Option<usize>)
    requires
        t.wf(),
        t.valid(n as int),
    ensures
        match r {
            Some(m) => chain_root(t, n as int) == Some(m as int) && t.valid(m as int),
            None => chain_root(t, n as int) is None,
        },
    decreases t.nodes@.len() - n,
{
    if t.kind_is(n, "member_expression") || t.kind_is(n, "subscript_expression") {
        match t.field_child(n, "object") {
            None => None,
            Some(obj) => if t.kind_is(obj, "member_expression") || t.kind_is(obj, "subscript_expression") {
                chain_root_exec(t, obj)
            } else {
                Some(obj)
            },
        }
    } else {
        None
    }
}

fn rooted_at_exec(target: &[char], root: &str) -> (r: bool)
    ensures
        r == rooted_at(target@, root@),
{
    let rc = chars_of(root);
    if chars_eq(target, rc.as_slice()) {
        return true;
    }
    if starts_with_str(target, root) && target.len() > rc.len() {
        target[rc.len()] == '.' || target[rc.len()] == '['
    } else {
        false
    }
}

fn js_global_write(t: &SyntaxTree, n: usize) -> (r: bool)
    requires
        t.wf(),
        t.valid(n as int),
    ensures
        r == js_global_write_spec(t, n as int),
{
    let left = match t.field_child(n, "left") {
        Some(l) => l,
        None => return false,
    };
    let root = match chain_root_exec(t, left) {
        Some(r) => r,
        None => return false,
    };
    let is_global = t.kind_is(root, "identifier") && (t.text_is(root, "globalThis") || t.text_is(root, "window"));
    let target = t.text(left);
    let nav = rooted_at_exec(target.as_slice(), "window.location") || rooted_at_exec(
        target.as_slice(),
        "globalThis.location",
    );
    is_global && !nav
}

fn member_name_exec(t: &SyntaxTree, m: usize) -> (r: Option<usize>)
    requires
        t.wf(),
        t.valid(m as int),
    ensures
        match r {
            Some(x) => member_name(t, m as int) == Some(x as int) && t.valid(x as int),
            None => member_name(t, m as int) is None,
        },
{
    match t.field_child(m, "name") {
        Some(nm) => Some(nm),
        None => {
            let cnt = t.child_count(m);
            let mut i: usize = 0;
            while i < cnt
                invariant
                    t.wf(),
                    t.valid(m as int),
                    i <= cnt == t.kids(m as int).len(),
                    t.field(m as int, "name"@) is None,
                    first_ident_child(t, m as int, 0) == first_ident_child(t, m as int, i as int),
                decreases cnt - i,
            {
                let c = t.child(m, i);
                if t.kind_is(c, "property_identifier") || t.kind_is(c, "identifier") {
                    return Some(c);
                }
                i = i + 1;
            }
            None
        },
    }
}

fn singleton_member_exec(t: &SyntaxTree, m: usize) -> (r: bool)
    requires
        t.wf(),
        t.valid(m as int),
    ensures
        r == singleton_member(t, m as int),
{
    if !child_text_exists(t, m, "static") {
        return false;
    }
    match member_name_exec(t, m) {
        None => false,
        Some(nm) => (t.kind_is(m, "method_definition") && t.text_is(nm, "getInstance")) || ((
        t.kind_is(m, "field_definition") || t.kind_is(m, "public_field_definition"))
            && t.text_is(nm, "instance")),
    }
}

fn js_singleton(t: &SyntaxTree, n: usize) -> (r: Option<(usize, CouplingKind)>)
    requires
        t.wf(),
        t.valid(n as int),
    ensures
        match r {
            Some((m, k)) => js_singleton_spec(t, n as int) == Some((m as int, k)) && t.valid(m as int),
            None => js_singleton_spec(t, n as int) is None,
        },
{
    let body = match t.field_child(n, "body") {
        Some(b) => b,
        None => return None,
    };
    let cnt = t.child_count(body);
    let mut i: usize = 0;
    while i < cnt
        invariant
            t.wf(),
            t.valid(body as int),
            t.field(n as int, "body"@) == Some(body),
            i <= cnt == t.kids(body as int).len(),
            first_singleton(t, body as int, 0) == first_singleton(t, body as int, i as int),
        decreases cnt - i,
    {
        let m = t.child(body, i);
        if singleton_member_exec(t, m) {
            return Some((m, CouplingKind::Common));
        }
        i = i + 1;
    }
    None
}

fn js_detect_exec(t: &SyntaxTree, n: usize) -> (r: Option<(usize, CouplingKind)>)
    requires
        t.wf(),
        t.valid(n as int),
    ensures
        match r {
            Some((m, k)) => js_detect(t, n as int) == Some((m as int, k)) && t.valid(m as int),
            None => js_detect(t, n as int) is None,
        },
{
    if t.kind_is(n, "export_statement") {
        js_export(t, n)
    } else if t.kind_is(n, "assignment_expression") || t.kind_is(n, "augmented_assignment_expression") {
        if js_global_write(t, n) { Some((n, CouplingKind::Common)) } else { None }
    } else if t.kind_is(n, "class_declaration") || t.kind_is(n, "class") {
        js_singleton(t, n)
    } else {
        None
    }
}

fn make_finding(t: &SyntaxTree, path: &str, m: usize, kind: CouplingKind) -> (f: CouplingFinding)
    requires
        t.wf(),
        t.valid(m as int),
    ensures
        f.path@ == path@,
        (f.line, f.kind, f.evidence@) == finding_at(t, m as int, kind),
{
    let row = t.row(m);
    let line = if row < usize::MAX { Some(row + 1) } else { None };
    let tx = t.text(m);
    let ev = evidence_of(tx.as_slice());
    CouplingFinding { path: path.to_owned(), line, kind, evidence: string_of(ev.as_slice()) }
}

/// Tree-level core of `extract_coupling_findings`.
pub fn findings_from_tree(t: &SyntaxTree, path: &str, lang: Language) -> (r: Vec<CouplingFinding>)
    requires
        t.wf(),
    ensures
        finding_views(r@) == tree_findings(t, lang),
        forall|i: int| 0 <= i < r@.len() ==> (#[trigger] r@[i]).path@ == path@,
{
    let js = match lang {
        Language::Rust => false,
        Language::JsTs => true,
        _ => {
            return Vec::new();
        },
    };
    let end = t.end(0);
    let mut out: Vec<CouplingFinding> = Vec::new();
    let mut n: usize = 0;
    while n < end
        invariant
            t.wf(),
            end == t.end_of(0),
            end <= t.nodes@.len(),
            n <= end,
            js == (lang == Language::JsTs),
            lang == Language::Rust || lang == Language::JsTs,
            finding_views(out@) == findings_upto(t, n as int, js),
            forall|i: int| 0 <= i < out@.len() ==> (#[trigger] out@[i]).path@ == path@,
        decreases end - n,
    {
        let d = if js { js_detect_exec(t, n) } else { rust_detect_exec(t, n) };
        let ghost prev = finding_views(out@);
        match d {
            Some((m, k)) => {
                let f = make_finding(t, path, m, k);
                let ghost fv = (f.line, f.kind, f.evidence@);
                out.push(f);
                assert(finding_views(out@) =~= prev.push(fv));
            },
            None => {},
        }
        proof {
            assert(finding_views(out@) =~= findings_upto(t, n + 1, js));
        }
        n = n + 1;
    }
    out
}

/// Extract Pressman coupling findings from one file's source. Files with no
/// grammar, no detectors, or no parse yield none; otherwise the findings are
/// those of the parse of `content`, a well-formed tree over its characters.
pub fn extract_coupling_findings(path: &str, content: &str) -> (r: Vec<CouplingFinding>)
    ensures
        grammar_spec(path_language(path@), extension(path@)) is None ==> r@.len() == 0,
        !(path_language(path@) == Language::Rust || path_language(path@) == Language::JsTs)
            ==> r@.len() == 0,
        grammar_spec(path_language(path@), extension(path@)) matches Some(g) ==> exists|t: SyntaxTree|
            #[trigger] is_parse_of(t, g, content@) && tree_findings(&t, path_language(path@))
                == finding_views(r@),
        forall|i: int| 0 <= i < r@.len() ==> (#[trigger] r@[i]).path@ == path@,
{
    let lang = detect_language(path);
    let ext = path_extension(path);
    let grammar = match grammar_for(lang, ext.as_slice()) {
        Some(g) => g,
        None => return Vec::new(),
    };
    match parse_source(content, grammar) {
        Some(tree) => {
            let r = findings_from_tree(&tree, path, lang);
            assert(finding_views(r@).len() == r@.len());
            assert(is_parse_of(tree, grammar, content@) && tree_findings(&tree, path_language(path@)) == finding_views(r@));
            r
        },
        None => Vec::new(),
    }
}

} // verus!
