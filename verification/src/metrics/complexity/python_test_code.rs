//! Test code in a Python file: classes whose direct base resolves to
//! `unittest.TestCase`, and functions decorated with a documented pytest
//! marker (`pytest.fixture`, `pytest.mark.parametrize`, `skip`, `skipif`,
//! `xfail`, `usefixtures`). Names resolve through the imports of the
//! enclosing scopes; any other binding of a name shadows it, and two
//! different imports under one name cancel it. The result is the character
//! ranges of those classes and functions, in preorder.
use std::ops::Range;

use vstd::prelude::*;

use crate::metrics::complexity::managed_test_code::{before_first_dot, before_first_dot_exec, char_from};
use crate::metrics::complexity::rust_test_code::parent_index;
use crate::metrics::complexity::syntax::SyntaxTree;
use crate::metrics::complexity::test_context::{spans_of, Span};
use crate::text::{
    chars_eq, chars_eq_str, chars_of, contains_seq, contains_str, is_prefix, is_whitespace, is_ws,
    occurs_at, occurs_at_exec, push_all, push_str, slice_vec, starts_with_str, strip_ws, trim,
    trimmed, without_ws,
};

verus! {

/// A binding: a name, and the module path it stands for, or `None` when
/// the name is bound to something that is not a known import.
pub type PyEntry = (Seq<char>, Option<Seq<char>>);

/// The bindings of a scope, latest last.
pub type PyBindings = Seq<PyEntry>;

// ── Bindings ───────────────────────────────────────────────────────────

/// The latest binding of `k`, if any.
pub open spec fn lookup(bs: PyBindings, k: Seq<char>) -> Option<Option<Seq<char>>>
    decreases bs.len(),
{
    if bs.len() == 0 {
        None
    } else if bs.last().0 == k {
        Some(bs.last().1)
    } else {
        lookup(bs.drop_last(), k)
    }
}

/// Import `name` as `target`: a second, different import cancels the name.
pub open spec fn bind(bs: PyBindings, name: Seq<char>, target: Seq<char>) -> PyBindings {
    match lookup(bs, name) {
        None => bs.push((name, Some(target))),
        Some(Some(existing)) => if existing == target {
            bs
        } else {
            bs.push((name, None))
        },
        Some(None) => bs.push((name, None)),
    }
}

pub open spec fn invalidate(bs: PyBindings, name: Seq<char>) -> PyBindings {
    bs.push((name, None))
}

/// The module path a dotted expression stands for.
pub open spec fn resolve(expr: Seq<char>, bs: PyBindings) -> Option<Seq<char>> {
    let head = before_first_dot(expr);
    match lookup(bs, head) {
        Some(Some(target)) => Some(target + expr.subrange(head.len() as int, expr.len() as int)),
        _ => None,
    }
}

// ── Import statements ──────────────────────────────────────────────────

/// The end of the word that starts at `i`.
pub open spec fn word_end(s: Seq<char>, i: int) -> int
    decreases s.len() - i,
{
    if i < 0 || i >= s.len() || is_ws(s[i]) {
        i
    } else {
        word_end(s, i + 1)
    }
}

/// The whitespace-separated words of `s[i..]`.
pub open spec fn words_from(s: Seq<char>, i: int) -> Seq<Seq<char>>
    decreases s.len() - i,
{
    if i < 0 || i >= s.len() {
        seq![]
    } else if is_ws(s[i]) {
        words_from(s, i + 1)
    } else {
        let e = word_end(s, i);
        if i < e <= s.len() {
            seq![s.subrange(i, e)] + words_from(s, e)
        } else {
            seq![]
        }
    }
}

pub open spec fn words(s: Seq<char>) -> Seq<Seq<char>> {
    words_from(s, 0)
}

/// The name an import item binds: the word after `as`, or for a lone
/// path `fallback`.
pub open spec fn item_alias(ws: Seq<Seq<char>>, fallback: Seq<char>) -> Option<Seq<char>> {
    if ws.len() >= 3 && ws[1] == "as"@ {
        Some(ws[2])
    } else if ws.len() == 1 {
        Some(fallback)
    } else {
        None
    }
}

/// One item of an `import` statement.
pub open spec fn import_item(bs: PyBindings, item: Seq<char>) -> PyBindings {
    let ws = words(item);
    if ws.len() == 0 {
        bs
    } else {
        let path = ws[0];
        match item_alias(ws, before_first_dot(path)) {
            None => bs,
            Some(alias) => {
                let target = if alias == path {
                    path
                } else if !contains_seq(item, " as "@) {
                    before_first_dot(path)
                } else {
                    path
                };
                bind(bs, alias, target)
            },
        }
    }
}

/// One item of a `from module import` statement.
pub open spec fn from_item(bs: PyBindings, module: Seq<char>, item: Seq<char>) -> PyBindings {
    let ws = words(item);
    if item == "*"@ || ws.len() == 0 {
        bs
    } else {
        match item_alias(ws, ws[0]) {
            None => bs,
            Some(alias) => bind(bs, alias, module + "."@ + ws[0]),
        }
    }
}

/// The comma-separated items of `s[i..]`, each trimmed, applied in order;
/// `module` is `None` for an `import` statement.
pub open spec fn items_from(bs: PyBindings, module: Option<Seq<char>>, s: Seq<char>, i: int) -> PyBindings
    decreases s.len() + 1 - i,
{
    if i < 0 || i > s.len() {
        bs
    } else {
        let j = char_from(s, ',', i);
        let piece = if j < i || j >= s.len() {
            s.subrange(i, s.len() as int)
        } else {
            s.subrange(i, j)
        };
        let next = match module {
            None => import_item(bs, trim(piece)),
            Some(m) => from_item(bs, m, trim(piece)),
        };
        if j < i || j >= s.len() {
            next
        } else {
            items_from(next, module, s, j + 1)
        }
    }
}

/// `s` without leading and trailing parentheses.
pub open spec fn strip_parens(s: Seq<char>) -> Seq<char>
    decreases s.len(),
{
    if s.len() > 0 && (s[0] == '(' || s[0] == ')') {
        strip_parens(s.drop_first())
    } else if s.len() > 0 && (s.last() == '(' || s.last() == ')') {
        strip_parens(s.drop_last())
    } else {
        s
    }
}

/// The first occurrence of `p` in `s` at or after `i`, or -1.
pub open spec fn find_seq(s: Seq<char>, p: Seq<char>, i: int) -> int
    decreases s.len() + 1 - i,
{
    if i < 0 || i > s.len() {
        -1
    } else if occurs_at(s, p, i) {
        i
    } else {
        find_seq(s, p, i + 1)
    }
}

pub open spec fn parse_import(bs: PyBindings, statement: Seq<char>) -> PyBindings {
    let st = trim(statement);
    if st.len() >= 7 && is_prefix(st, "import "@) {
        items_from(bs, None, st.subrange(7, st.len() as int), 0)
    } else {
        bs
    }
}

pub open spec fn parse_from_import(bs: PyBindings, statement: Seq<char>) -> PyBindings {
    let st = trim(statement);
    let rest = st.subrange(5, st.len() as int);
    let k = find_seq(rest, " import "@, 0);
    if !(st.len() >= 5 && is_prefix(st, "from "@)) || k < 0 || k + 8 > rest.len() {
        bs
    } else {
        items_from(
            bs,
            Some(rest.subrange(0, k)),
            strip_parens(rest.subrange(k + 8, rest.len() as int)),
            0,
        )
    }
}

// ── Scopes ─────────────────────────────────────────────────────────────

/// Shadow every identifier among the nodes `j..e` of a target or pattern.
pub open spec fn shadow_identifiers(bs: PyBindings, t: &SyntaxTree, j: int, e: int) -> PyBindings
    decreases e - j,
{
    if j < 0 || j >= e || j >= t.len() {
        bs
    } else {
        let named = t.nodes@[j].named;
        let ident = named && t.kind(j) == "identifier"@;
        let next = if ident {
            invalidate(bs, t.text_of(j))
        } else {
            bs
        };
        let nx = if named && !ident {
            j + 1
        } else {
            t.end_of(j)
        };
        if nx <= j || nx >= e {
            next
        } else {
            shadow_identifiers(next, t, nx, e)
        }
    }
}

pub open spec fn shadow_subtree(bs: PyBindings, t: &SyntaxTree, n: int) -> PyBindings {
    shadow_identifiers(bs, t, n, t.end_of(n))
}

pub open spec fn opens_own_scope(k: Seq<char>) -> bool {
    k == "lambda"@ || k == "import_statement"@ || k == "import_from_statement"@ || k
        == "function_definition"@ || k == "class_definition"@ || k == "decorated_definition"@
}

/// The first named child of `n` that is a function or class definition, or -1.
pub open spec fn definition_of(t: &SyntaxTree, n: int) -> int {
    definition_from(t, t.named_kids(n), 0)
}

pub open spec fn definition_from(t: &SyntaxTree, ks: Seq<usize>, j: int) -> int
    decreases ks.len() - j,
{
    if j < 0 || j >= ks.len() {
        -1
    } else if t.kind(ks[j] as int) == "function_definition"@ || t.kind(ks[j] as int)
        == "class_definition"@ {
        ks[j] as int
    } else {
        definition_from(t, ks, j + 1)
    }
}

/// What the statement node `n` binds in its scope.
pub open spec fn bind_statement(bs: PyBindings, t: &SyntaxTree, n: int) -> PyBindings {
    let k = t.kind(n);
    if k == "import_statement"@ {
        parse_import(bs, t.text_of(n))
    } else if k == "import_from_statement"@ {
        parse_from_import(bs, t.text_of(n))
    } else if k == "function_definition"@ || k == "class_definition"@ {
        match t.field(n, "name"@) {
            Some(x) => invalidate(bs, t.text_of(x as int)),
            None => bs,
        }
    } else if k == "decorated_definition"@ {
        let d = definition_of(t, n);
        if d < 0 {
            bs
        } else {
            match t.field(d, "name"@) {
                Some(x) => invalidate(bs, t.text_of(x as int)),
                None => bs,
            }
        }
    } else if k == "assignment"@ || k == "augmented_assignment"@ || k == "for_statement"@ {
        match t.field(n, "left"@) {
            Some(x) => shadow_subtree(bs, t, x as int),
            None => bs,
        }
    } else if k == "named_expression"@ {
        match t.field(n, "name"@) {
            Some(x) => shadow_subtree(bs, t, x as int),
            None => bs,
        }
    } else if k == "as_pattern"@ {
        match t.field(n, "alias"@) {
            Some(x) => shadow_subtree(bs, t, x as int),
            None => bs,
        }
    } else {
        bs
    }
}

/// The bindings of the nodes `j..e` of one statement, in preorder, without
/// entering nested definitions, lambdas or imports.
pub open spec fn scope_walk(bs: PyBindings, t: &SyntaxTree, j: int, e: int) -> PyBindings
    decreases e - j,
{
    if j < 0 || j >= e || j >= t.len() {
        bs
    } else {
        let named = t.nodes@[j].named;
        let next = if named {
            bind_statement(bs, t, j)
        } else {
            bs
        };
        let nx = if named && !opens_own_scope(t.kind(j)) {
            j + 1
        } else {
            t.end_of(j)
        };
        if nx <= j || nx >= e {
            next
        } else {
            scope_walk(next, t, nx, e)
        }
    }
}

/// The statements `ks[j..]`, applied in order.
pub open spec fn statements_from(bs: PyBindings, t: &SyntaxTree, ks: Seq<usize>, j: int) -> PyBindings
    decreases ks.len() - j,
{
    if j < 0 || j >= ks.len() {
        bs
    } else {
        statements_from(
            scope_walk(bs, t, ks[j] as int, t.end_of(ks[j] as int)),
            t,
            ks,
            j + 1,
        )
    }
}

/// What the parameter node `p` shadows.
pub open spec fn shadow_parameter(bs: PyBindings, t: &SyntaxTree, p: int) -> PyBindings {
    let k = t.kind(p);
    if k == "identifier"@ {
        invalidate(bs, t.text_of(p))
    } else if k == "default_parameter"@ || k == "typed_default_parameter"@ {
        match t.field(p, "name"@) {
            Some(x) => shadow_subtree(bs, t, x as int),
            None => bs,
        }
    } else if k == "typed_parameter"@ {
        let ty = t.field(p, "type"@);
        typed_parts_from(bs, t, t.named_kids(p), 0, ty)
    } else if k == "list_splat_pattern"@ || k == "dictionary_splat_pattern"@ || k == "tuple_pattern"@ {
        shadow_subtree(bs, t, p)
    } else {
        bs
    }
}

/// The parts of a typed parameter other than its type annotation.
pub open spec fn typed_parts_from(
    bs: PyBindings,
    t: &SyntaxTree,
    ks: Seq<usize>,
    j: int,
    ty: Option<usize>,
) -> PyBindings
    decreases ks.len() - j,
{
    if j < 0 || j >= ks.len() {
        bs
    } else {
        let c = ks[j] as int;
        let is_type = match ty {
            Some(x) => t.nodes@[c].start == t.nodes@[x as int].start && t.nodes@[c].end
                == t.nodes@[x as int].end,
            None => false,
        };
        typed_parts_from(
            if is_type {
                bs
            } else {
                shadow_subtree(bs, t, c)
            },
            t,
            ks,
            j + 1,
            ty,
        )
    }
}

pub open spec fn parameters_from(bs: PyBindings, t: &SyntaxTree, ks: Seq<usize>, j: int) -> PyBindings
    decreases ks.len() - j,
{
    if j < 0 || j >= ks.len() {
        bs
    } else {
        parameters_from(shadow_parameter(bs, t, ks[j] as int), t, ks, j + 1)
    }
}

/// The bindings in force inside the module, class or function `n`, given
/// those of the scope it inherits.
pub open spec fn bindings_for(t: &SyntaxTree, n: int, inherited: PyBindings) -> PyBindings {
    let start = if t.kind(n) == "function_definition"@ {
        match t.field(n, "parameters"@) {
            Some(p) => parameters_from(inherited, t, t.named_kids(p as int), 0),
            None => inherited,
        }
    } else {
        inherited
    };
    let body = match t.field(n, "body"@) {
        Some(b) => b as int,
        None => n,
    };
    statements_from(start, t, t.named_kids(body), 0)
}

// ── Evidence ───────────────────────────────────────────────────────────

pub open spec fn test_base(t: &SyntaxTree, c: int, bs: PyBindings) -> bool {
    resolve(without_ws(t.text_of(c)), bs) == Some("unittest.TestCase"@)
}

/// Whether a base listed under `b` resolves to `unittest.TestCase`.
pub open spec fn lists_test_base(t: &SyntaxTree, b: int, bs: PyBindings) -> bool {
    exists|j: int|
        0 <= j < t.named_kids(b).len() && test_base(t, #[trigger] t.named_kids(b)[j] as int, bs)
}

/// A class whose listed base resolves to `unittest.TestCase`.
pub open spec fn direct_test_base(t: &SyntaxTree, n: int, bs: PyBindings) -> bool {
    match t.field(n, "superclasses"@) {
        Some(b) => lists_test_base(t, b as int, bs),
        None => false,
    }
}

pub open spec fn pytest_marker(s: Seq<char>) -> bool {
    s == "pytest.fixture"@ || s == "pytest.mark.parametrize"@ || s == "pytest.mark.skip"@ || s
        == "pytest.mark.skipif"@ || s == "pytest.mark.xfail"@ || s == "pytest.mark.usefixtures"@
}

/// The name a decorator expression is written with: the callee of a call.
pub open spec fn decorator_name(t: &SyntaxTree, e: int) -> Seq<char> {
    let x = if t.kind(e) == "call"@ {
        match t.field(e, "function"@) {
            Some(f) => f as int,
            None => e,
        }
    } else {
        e
    };
    without_ws(t.text_of(x))
}

pub open spec fn marks_test(t: &SyntaxTree, d: int, bs: PyBindings) -> bool {
    &&& t.kind(d) == "decorator"@
    &&& t.named_kids(d).len() > 0
    &&& match resolve(decorator_name(t, t.named_kids(d)[0] as int), bs) {
        Some(r) => pytest_marker(r),
        None => false,
    }
}

pub open spec fn has_test_decorator(t: &SyntaxTree, n: int, bs: PyBindings) -> bool {
    exists|j: int|
        0 <= j < t.named_kids(n).len() && marks_test(t, #[trigger] t.named_kids(n)[j] as int, bs)
}

/// The bindings a visited node sees, and inside a class body those of the
/// scope around the class; `None` for a node the search does not enter.
pub open spec fn reach(t: &SyntaxTree, i: int) -> Option<(PyBindings, Option<PyBindings>)>
    decreases i,
{
    if i == 0 {
        Some((seq![], None))
    } else if i < 0 || i >= t.len() || parent_index(t, i) < 0 || parent_index(t, i) >= i {
        None
    } else {
        let p = parent_index(t, i);
        match reach(t, p) {
            Some(ctx) => {
                let inh = ctx.0;
                let enc = ctx.1;
                let scope = match enc {
                    Some(e) => e,
                    None => inh,
                };
                let k = t.kind(p);
                if k == "class_definition"@ {
                    if !direct_test_base(t, p, inh) && t.field(p, "body"@) == Some(i as usize) {
                        Some((bindings_for(t, p, scope), Some(scope)))
                    } else {
                        None
                    }
                } else if k == "decorated_definition"@ {
                    if definition_of(t, p) == i && t.kind(i) == "class_definition"@ {
                        Some((inh, enc))
                    } else {
                        None
                    }
                } else if k == "function_definition"@ {
                    if t.field(p, "body"@) == Some(i as usize) {
                        Some((bindings_for(t, p, scope), None))
                    } else {
                        None
                    }
                } else if k == "module"@ {
                    if t.nodes@[i].named {
                        Some((bindings_for(t, p, inh), enc))
                    } else {
                        None
                    }
                } else if t.nodes@[i].named {
                    Some((inh, enc))
                } else {
                    None
                }
            },
            None => {
                let g = parent_index(t, p);
                if 0 <= g < p && t.kind(p) == "function_definition"@ && t.kind(g)
                    == "decorated_definition"@ && definition_of(t, g) == p && t.field(p, "body"@)
                    == Some(i as usize) {
                    match reach(t, g) {
                        Some(ctx) => if has_test_decorator(t, g, ctx.0) {
                            None
                        } else {
                            let scope = match ctx.1 {
                                Some(e) => e,
                                None => ctx.0,
                            };
                            Some((bindings_for(t, p, scope), None))
                        },
                        None => None,
                    }
                } else {
                    None
                }
            },
        }
    }
}

/// The test code found at a visited node: a class with a test base, or
/// the function of a test-decorated definition.
pub open spec fn found(t: &SyntaxTree, i: int) -> Option<Span> {
    match reach(t, i) {
        None => None,
        Some(ctx) => if t.kind(i) == "class_definition"@ && direct_test_base(t, i, ctx.0) {
            Some((t.nodes@[i].start, t.nodes@[i].end))
        } else if t.kind(i) == "decorated_definition"@ && definition_of(t, i) >= 0 && t.kind(
            definition_of(t, i),
        ) == "function_definition"@ && has_test_decorator(t, i, ctx.0) {
            let d = definition_of(t, i);
            Some((t.nodes@[d].start, t.nodes@[d].end))
        } else {
            None
        },
    }
}

pub open spec fn python_spans_upto(t: &SyntaxTree, i: int) -> Seq<Span>
    decreases i,
{
    if i <= 0 {
        seq![]
    } else {
        python_spans_upto(t, i - 1) + match found(t, i - 1) {
            Some(x) => seq![x],
            None => seq![],
        }
    }
}

/// The character ranges of a Python file's test code, in preorder.
pub open spec fn python_test_spans(t: &SyntaxTree) -> Seq<Span> {
    python_spans_upto(t, t.len())
}

// ── Bindings, executable ───────────────────────────────────────────────

pub(crate) struct PyBinding {
    name: Vec<char>,
    target: Option<Vec<char>>,
}

pub(crate) open spec fn opt_chars(o: Option<Vec<char>>) -> Option<Seq<char>> {
    match o {
        Some(v) => Some(v@),
        None => None,
    }
}

impl View for PyBinding {
    type V = PyEntry;

    closed spec fn view(&self) -> PyEntry {
        (self.name@, opt_chars(self.target))
    }
}

pub(crate) open spec fn binds_of(v: Seq<PyBinding>) -> PyBindings {
    v.map_values(|b: PyBinding| b@)
}

/// The target of a binding.
pub(crate) fn target_of(b: &PyBinding) -> (r: &Option<Vec<char>>)
    ensures
        opt_chars(*r) == b@.1,
{
    &b.target
}

pub(crate) fn copy_chars(s: &[char]) -> (r: Vec<char>)
    ensures
        r@ == s@,
{
    assert(s@.subrange(0, s@.len() as int) =~= s@);
    slice_vec(s, 0, s.len())
}

fn copy_target(o: &Option<Vec<char>>) -> (r: Option<Vec<char>>)
    ensures
        opt_chars(r) == opt_chars(*o),
{
    match o {
        Some(v) => Some(copy_chars(v.as_slice())),
        None => None,
    }
}

pub(crate) fn copy_bindings(bs: &Vec<PyBinding>) -> (r: Vec<PyBinding>)
    ensures
        binds_of(r@) == binds_of(bs@),
{
    let mut r: Vec<PyBinding> = Vec::new();
    let mut i: usize = 0;
    while i < bs.len()
        invariant
            i <= bs.len(),
            binds_of(r@) == binds_of(bs@).take(i as int),
        decreases bs.len() - i,
    {
        let b = PyBinding { name: copy_chars(bs[i].name.as_slice()), target: copy_target(&bs[i].target) };
        proof {
            assert(b@ == bs@[i as int]@);
            assert(binds_of(r@.push(b)) =~= binds_of(r@).push(b@));
            assert(binds_of(bs@).take(i + 1) =~= binds_of(bs@).take(i as int).push(
                binds_of(bs@)[i as int],
            ));
        }
        r.push(b);
        i = i + 1;
    }
    assert(binds_of(bs@).take(bs.len() as int) =~= binds_of(bs@));
    r
}

pub(crate) fn push_entry(bs: &mut Vec<PyBinding>, name: Vec<char>, target: Option<Vec<char>>)
    ensures
        binds_of(final(bs)@) == binds_of(old(bs)@).push((name@, opt_chars(target))),
{
    let b = PyBinding { name, target };
    proof {
        assert(binds_of(bs@.push(b)) =~= binds_of(bs@).push(b@));
    }
    bs.push(b);
}

/// The position of the latest binding of `k`.
pub(crate) fn latest(bs: &Vec<PyBinding>, k: &[char]) -> (r: Option<usize>)
    ensures
        match r {
            Some(i) => i < bs@.len() && lookup(binds_of(bs@), k@) == Some(binds_of(bs@)[i as int].1),
            None => lookup(binds_of(bs@), k@) is None,
        },
{
    let ghost v = binds_of(bs@);
    let mut j: usize = bs.len();
    assert(v.take(j as int) =~= v);
    while j > 0
        invariant
            j <= bs.len(),
            v == binds_of(bs@),
            v.len() == bs@.len(),
            lookup(v, k@) == lookup(v.take(j as int), k@),
        decreases j,
    {
        proof {
            let u = v.take(j as int);
            assert(u.drop_last() =~= v.take(j - 1));
            assert(u.last() == bs@[j - 1]@);
        }
        if chars_eq(bs[j - 1].name.as_slice(), k) {
            return Some(j - 1);
        }
        j = j - 1;
    }
    None
}

pub(crate) fn bind_exec(bs: &mut Vec<PyBinding>, name: Vec<char>, target: Vec<char>)
    ensures
        binds_of(final(bs)@) == bind(binds_of(old(bs)@), name@, target@),
{
    match latest(bs, name.as_slice()) {
        None => push_entry(bs, name, Some(target)),
        Some(i) => {
            let same = match &bs[i].target {
                Some(existing) => chars_eq(existing.as_slice(), target.as_slice()),
                None => false,
            };
            if !same {
                push_entry(bs, name, None);
            }
        },
    }
}

fn resolve_exec(expr: &[char], bs: &Vec<PyBinding>) -> (r: Option<Vec<char>>)
    ensures
        opt_chars(r) == resolve(expr@, binds_of(bs@)),
{
    let head = before_first_dot_exec(expr);
    proof {
        if char_from(expr@, '.', 0) >= 0 {
            lemma_char_from_range(expr@, '.', 0);
        }
    }
    match latest(bs, head.as_slice()) {
        None => None,
        Some(i) => match &bs[i].target {
            Some(target) => {
                let mut out = copy_chars(target.as_slice());
                let rest = slice_vec(expr, head.len(), expr.len());
                push_all(&mut out, rest.as_slice());
                Some(out)
            },
            None => None,
        },
    }
}

proof fn lemma_char_from_range(s: Seq<char>, c: char, i: int)
    requires
        char_from(s, c, i) >= 0,
    ensures
        i <= char_from(s, c, i) < s.len(),
    decreases s.len() - i,
{
    if 0 <= i < s.len() && s[i] != c {
        lemma_char_from_range(s, c, i + 1);
    }
}

// ── Import statements, executable ──────────────────────────────────────

spec fn words_view(v: Seq<Vec<char>>) -> Seq<Seq<char>> {
    v.map_values(|w: Vec<char>| w@)
}

fn words_exec(s: &[char]) -> (r: Vec<Vec<char>>)
    ensures
        words_view(r@) == words(s@),
{
    let mut out: Vec<Vec<char>> = Vec::new();
    let mut i: usize = 0;
    assert(words_view(out@) + words_from(s@, 0) =~= words(s@));
    while i < s.len()
        invariant
            i <= s.len(),
            words(s@) == words_view(out@) + words_from(s@, i as int),
        decreases s.len() - i,
    {
        if is_whitespace(s[i]) {
            i = i + 1;
        } else {
            let mut e: usize = i + 1;
            while e < s.len() && !is_whitespace(s[e])
                invariant
                    i < e <= s.len(),
                    word_end(s@, i as int) == word_end(s@, e as int),
                decreases s.len() - e,
            {
                e = e + 1;
            }
            let w = slice_vec(s, i, e);
            proof {
                assert(words_view(out@.push(w)) =~= words_view(out@).push(w@));
                assert(words_view(out@) + (seq![w@] + words_from(s@, e as int)) =~= words_view(
                    out@.push(w),
                ) + words_from(s@, e as int));
            }
            out.push(w);
            i = e;
        }
    }
    assert(words_view(out@) + words_from(s@, i as int) =~= words_view(out@));
    out
}

/// The alias an item's words give, with `fallback` for a lone word.
fn item_alias_exec(ws: &Vec<Vec<char>>, fallback: &[char]) -> (r: Option<Vec<char>>)
    ensures
        opt_chars(r) == item_alias(words_view(ws@), fallback@),
{
    if ws.len() >= 3 && chars_eq_str(ws[1].as_slice(), "as") {
        Some(copy_chars(ws[2].as_slice()))
    } else if ws.len() == 1 {
        Some(copy_chars(fallback))
    } else {
        None
    }
}

fn import_item_exec(bs: &mut Vec<PyBinding>, item: &[char])
    ensures
        binds_of(final(bs)@) == import_item(binds_of(old(bs)@), item@),
{
    let ws = words_exec(item);
    if ws.len() == 0 {
        return;
    }
    let path = &ws[0];
    let root = before_first_dot_exec(path.as_slice());
    match item_alias_exec(&ws, root.as_slice()) {
        None => {},
        Some(alias) => {
            let target = if chars_eq(alias.as_slice(), path.as_slice()) {
                copy_chars(path.as_slice())
            } else if !contains_str(item, " as ") {
                root
            } else {
                copy_chars(path.as_slice())
            };
            bind_exec(bs, alias, target);
        },
    }
}

fn from_item_exec(bs: &mut Vec<PyBinding>, module: &[char], item: &[char])
    ensures
        binds_of(final(bs)@) == from_item(binds_of(old(bs)@), module@, item@),
{
    let ws = words_exec(item);
    if chars_eq_str(item, "*") || ws.len() == 0 {
        return;
    }
    match item_alias_exec(&ws, ws[0].as_slice()) {
        None => {},
        Some(alias) => {
            let mut target = copy_chars(module);
            push_str(&mut target, ".");
            push_all(&mut target, ws[0].as_slice());
            bind_exec(bs, alias, target);
        },
    }
}

fn first_comma(s: &[char], from: usize) -> (r: Option<usize>)
    requires
        from <= s.len(),
    ensures
        match r {
            Some(j) => j as int == char_from(s@, ',', from as int) && from <= j < s.len(),
            None => char_from(s@, ',', from as int) < 0,
        },
{
    let mut i: usize = from;
    while i < s.len()
        invariant
            from <= i <= s.len(),
            char_from(s@, ',', from as int) == char_from(s@, ',', i as int),
        decreases s.len() - i,
    {
        if s[i] == ',' {
            return Some(i);
        }
        i = i + 1;
    }
    None
}

fn items_exec(bs: &mut Vec<PyBinding>, module: Option<&[char]>, s: &[char])
    ensures
        binds_of(final(bs)@) == items_from(
            binds_of(old(bs)@),
            match module {
                Some(m) => Some(m@),
                None => None,
            },
            s@,
            0,
        ),
{
    let ghost m = match module {
        Some(m) => Some(m@),
        None => None,
    };
    let mut i: usize = 0;
    loop
        invariant
            i <= s.len(),
            m == match module {
                Some(x) => Some(x@),
                None => None::<Seq<char>>,
            },
            items_from(binds_of(old(bs)@), m, s@, 0) == items_from(binds_of(bs@), m, s@, i as int),
        decreases s.len() - i,
    {
        let j = first_comma(s, i);
        let piece = match j {
            Some(j) => slice_vec(s, i, j),
            None => slice_vec(s, i, s.len()),
        };
        let item = trimmed(piece.as_slice());
        match module {
            None => import_item_exec(bs, item.as_slice()),
            Some(md) => from_item_exec(bs, md, item.as_slice()),
        }
        match j {
            None => {
                return;
            },
            Some(j) => {
                i = j + 1;
            },
        }
    }
}

fn strip_parens_exec(s: &[char]) -> (r: Vec<char>)
    ensures
        r@ == strip_parens(s@),
{
    let mut a: usize = 0;
    let mut b: usize = s.len();
    assert(s@.subrange(0, s@.len() as int) =~= s@);
    while a < b && (s[a] == '(' || s[a] == ')')
        invariant
            a <= b == s.len(),
            strip_parens(s@) == strip_parens(s@.subrange(a as int, b as int)),
        decreases b - a,
    {
        proof {
            let u = s@.subrange(a as int, b as int);
            assert(u.drop_first() =~= s@.subrange(a + 1, b as int));
        }
        a = a + 1;
    }
    while a < b && (s[b - 1] == '(' || s[b - 1] == ')')
        invariant
            a <= b <= s.len(),
            a < b ==> !(s@[a as int] == '(' || s@[a as int] == ')'),
            strip_parens(s@) == strip_parens(s@.subrange(a as int, b as int)),
        decreases b - a,
    {
        proof {
            let u = s@.subrange(a as int, b as int);
            assert(u.drop_last() =~= s@.subrange(a as int, b - 1));
            assert(u[0] == s@[a as int]);
        }
        b = b - 1;
    }
    proof {
        let u = s@.subrange(a as int, b as int);
        if u.len() > 0 {
            assert(u[0] == s@[a as int]);
            assert(u.last() == s@[b - 1]);
        }
    }
    slice_vec(s, a, b)
}

fn find_import_word(s: &[char]) -> (r: Option<usize>)
    ensures
        match r {
            Some(k) => k as int == find_seq(s@, " import "@, 0) && k + 8 <= s.len(),
            None => find_seq(s@, " import "@, 0) < 0,
        },
{
    let p = chars_of(" import ");
    proof {
        reveal_strlit(" import ");
    }
    let mut i: usize = 0;
    while i <= s.len()
        invariant
            p@ == " import "@,
            p@.len() == 8,
            i <= s.len() + 1,
            find_seq(s@, " import "@, 0) == find_seq(s@, " import "@, i as int),
        decreases s.len() + 1 - i,
    {
        if occurs_at_exec(s, p.as_slice(), i) {
            return Some(i);
        }
        if i == s.len() {
            assert(find_seq(s@, " import "@, i + 1) == -1);
            return None;
        }
        i = i + 1;
    }
    None
}

fn parse_import_exec(bs: &mut Vec<PyBinding>, statement: &[char])
    ensures
        binds_of(final(bs)@) == parse_import(binds_of(old(bs)@), statement@),
{
    proof {
        reveal_strlit("import ");
    }
    let st = trimmed(statement);
    if st.len() >= 7 && starts_with_str(st.as_slice(), "import ") {
        let rest = slice_vec(st.as_slice(), 7, st.len());
        items_exec(bs, None, rest.as_slice());
    }
}

fn parse_from_import_exec(bs: &mut Vec<PyBinding>, statement: &[char])
    ensures
        binds_of(final(bs)@) == parse_from_import(binds_of(old(bs)@), statement@),
{
    proof {
        reveal_strlit("from ");
    }
    let st = trimmed(statement);
    if !(st.len() >= 5 && starts_with_str(st.as_slice(), "from ")) {
        return;
    }
    let rest = slice_vec(st.as_slice(), 5, st.len());
    match find_import_word(rest.as_slice()) {
        None => {},
        Some(k) => {
            let module = slice_vec(rest.as_slice(), 0, k);
            let tail = slice_vec(rest.as_slice(), k + 8, rest.len());
            let imports = strip_parens_exec(tail.as_slice());
            items_exec(bs, Some(module.as_slice()), imports.as_slice());
        },
    }
}

// ── Scopes, executable ─────────────────────────────────────────────────

fn invalidate_node(bs: &mut Vec<PyBinding>, t: &SyntaxTree, n: usize)
    requires
        t.wf(),
        t.valid(n as int),
    ensures
        binds_of(final(bs)@) == invalidate(binds_of(old(bs)@), t.text_of(n as int)),
{
    push_entry(bs, t.text(n), None);
}

fn shadow_subtree_exec(bs: &mut Vec<PyBinding>, t: &SyntaxTree, n: usize)
    requires
        t.wf(),
        t.valid(n as int),
    ensures
        binds_of(final(bs)@) == shadow_subtree(binds_of(old(bs)@), t, n as int),
{
    let e = t.end(n);
    let mut j: usize = n;
    while j < e
        invariant
            t.wf(),
            n <= j <= e <= t.len(),
            e == t.end_of(n as int),
            shadow_subtree(binds_of(old(bs)@), t, n as int) == shadow_identifiers(
                binds_of(bs@),
                t,
                j as int,
                e as int,
            ),
        decreases e - j,
    {
        let named = t.is_named(j);
        let ident = named && t.kind_is(j, "identifier");
        if ident {
            invalidate_node(bs, t, j);
        }
        let nx = if named && !ident {
            j + 1
        } else {
            t.end(j)
        };
        if nx >= e {
            return;
        }
        j = nx;
    }
}

fn definition_of_exec(t: &SyntaxTree, n: usize) -> (r: Option<usize>)
    requires
        t.wf(),
        t.valid(n as int),
    ensures
        match r {
            Some(d) => d as int == definition_of(t, n as int) && t.valid(d as int) && n < d,
            None => definition_of(t, n as int) < 0,
        },
{
    let ks = t.named_children(n);
    let mut j: usize = 0;
    while j < ks.len()
        invariant
            t.wf(),
            j <= ks.len(),
            ks@ == t.named_kids(n as int),
            forall|k: int| 0 <= k < ks@.len() ==> n < #[trigger] ks@[k] && t.valid(ks@[k] as int),
            definition_of(t, n as int) == definition_from(t, ks@, j as int),
        decreases ks.len() - j,
    {
        if t.kind_is(ks[j], "function_definition") || t.kind_is(ks[j], "class_definition") {
            return Some(ks[j]);
        }
        j = j + 1;
    }
    None
}

fn bind_statement_exec(bs: &mut Vec<PyBinding>, t: &SyntaxTree, n: usize)
    requires
        t.wf(),
        t.valid(n as int),
    ensures
        binds_of(final(bs)@) == bind_statement(binds_of(old(bs)@), t, n as int),
{
    if t.kind_is(n, "import_statement") {
        let x = t.text(n);
        parse_import_exec(bs, x.as_slice());
    } else if t.kind_is(n, "import_from_statement") {
        let x = t.text(n);
        parse_from_import_exec(bs, x.as_slice());
    } else if t.kind_is(n, "function_definition") || t.kind_is(n, "class_definition") {
        match t.field_child(n, "name") {
            Some(x) => invalidate_node(bs, t, x),
            None => {},
        }
    } else if t.kind_is(n, "decorated_definition") {
        match definition_of_exec(t, n) {
            Some(d) => match t.field_child(d, "name") {
                Some(x) => invalidate_node(bs, t, x),
                None => {},
            },
            None => {},
        }
    } else if t.kind_is(n, "assignment") || t.kind_is(n, "augmented_assignment") || t.kind_is(
        n,
        "for_statement",
    ) {
        match t.field_child(n, "left") {
            Some(x) => shadow_subtree_exec(bs, t, x),
            None => {},
        }
    } else if t.kind_is(n, "named_expression") {
        match t.field_child(n, "name") {
            Some(x) => shadow_subtree_exec(bs, t, x),
            None => {},
        }
    } else if t.kind_is(n, "as_pattern") {
        match t.field_child(n, "alias") {
            Some(x) => shadow_subtree_exec(bs, t, x),
            None => {},
        }
    }
}

fn opens_own_scope_exec(t: &SyntaxTree, n: usize) -> (r: bool)
    requires
        t.valid(n as int),
    ensures
        r == opens_own_scope(t.kind(n as int)),
{
    t.kind_is(n, "lambda") || t.kind_is(n, "import_statement") || t.kind_is(
        n,
        "import_from_statement",
    ) || t.kind_is(n, "function_definition") || t.kind_is(n, "class_definition") || t.kind_is(
        n,
        "decorated_definition",
    )
}

fn scope_walk_exec(bs: &mut Vec<PyBinding>, t: &SyntaxTree, n: usize)
    requires
        t.wf(),
        t.valid(n as int),
    ensures
        binds_of(final(bs)@) == scope_walk(binds_of(old(bs)@), t, n as int, t.end_of(n as int)),
{
    let e = t.end(n);
    let mut j: usize = n;
    while j < e
        invariant
            t.wf(),
            n <= j <= e <= t.len(),
            e == t.end_of(n as int),
            scope_walk(binds_of(old(bs)@), t, n as int, e as int) == scope_walk(
                binds_of(bs@),
                t,
                j as int,
                e as int,
            ),
        decreases e - j,
    {
        let named = t.is_named(j);
        if named {
            bind_statement_exec(bs, t, j);
        }
        let nx = if named && !opens_own_scope_exec(t, j) {
            j + 1
        } else {
            t.end(j)
        };
        if nx >= e {
            return;
        }
        j = nx;
    }
}

fn statements_exec(bs: &mut Vec<PyBinding>, t: &SyntaxTree, body: usize)
    requires
        t.wf(),
        t.valid(body as int),
    ensures
        binds_of(final(bs)@) == statements_from(binds_of(old(bs)@), t, t.named_kids(body as int), 0),
{
    let ks = t.named_children(body);
    let mut j: usize = 0;
    while j < ks.len()
        invariant
            t.wf(),
            j <= ks.len(),
            ks@ == t.named_kids(body as int),
            forall|k: int| 0 <= k < ks@.len() ==> t.valid(#[trigger] ks@[k] as int),
            statements_from(binds_of(old(bs)@), t, ks@, 0) == statements_from(
                binds_of(bs@),
                t,
                ks@,
                j as int,
            ),
        decreases ks.len() - j,
    {
        scope_walk_exec(bs, t, ks[j]);
        j = j + 1;
    }
}

fn shadow_parameter_exec(bs: &mut Vec<PyBinding>, t: &SyntaxTree, p: usize)
    requires
        t.wf(),
        t.valid(p as int),
    ensures
        binds_of(final(bs)@) == shadow_parameter(binds_of(old(bs)@), t, p as int),
{
    if t.kind_is(p, "identifier") {
        invalidate_node(bs, t, p);
    } else if t.kind_is(p, "default_parameter") || t.kind_is(p, "typed_default_parameter") {
        match t.field_child(p, "name") {
            Some(x) => shadow_subtree_exec(bs, t, x),
            None => {},
        }
    } else if t.kind_is(p, "typed_parameter") {
        let ty = t.field_child(p, "type");
        let ks = t.named_children(p);
        let mut j: usize = 0;
        while j < ks.len()
            invariant
                t.wf(),
                t.valid(p as int),
                j <= ks.len(),
                ks@ == t.named_kids(p as int),
                ty == t.field(p as int, "type"@),
                ty matches Some(x) ==> t.valid(x as int),
                forall|k: int| 0 <= k < ks@.len() ==> t.valid(#[trigger] ks@[k] as int),
                shadow_parameter(binds_of(old(bs)@), t, p as int) == typed_parts_from(
                    binds_of(bs@),
                    t,
                    ks@,
                    j as int,
                    ty,
                ),
            decreases ks.len() - j,
        {
            let c = ks[j];
            let is_type = match ty {
                Some(x) => t.nodes[c].start == t.nodes[x].start && t.nodes[c].end == t.nodes[x].end,
                None => false,
            };
            if !is_type {
                shadow_subtree_exec(bs, t, c);
            }
            j = j + 1;
        }
    } else if t.kind_is(p, "list_splat_pattern") || t.kind_is(p, "dictionary_splat_pattern")
        || t.kind_is(p, "tuple_pattern") {
        shadow_subtree_exec(bs, t, p);
    }
}

fn bindings_for_exec(t: &SyntaxTree, n: usize, inherited: &Vec<PyBinding>) -> (r: Vec<PyBinding>)
    requires
        t.wf(),
        t.valid(n as int),
    ensures
        binds_of(r@) == bindings_for(t, n as int, binds_of(inherited@)),
{
    let mut bs = copy_bindings(inherited);
    if t.kind_is(n, "function_definition") {
        match t.field_child(n, "parameters") {
            Some(p) => {
                let ks = t.named_children(p);
                let mut j: usize = 0;
                while j < ks.len()
                    invariant
                        t.wf(),
                        j <= ks.len(),
                        ks@ == t.named_kids(p as int),
                        forall|k: int| 0 <= k < ks@.len() ==> t.valid(#[trigger] ks@[k] as int),
                        parameters_from(binds_of(inherited@), t, ks@, 0) == parameters_from(
                            binds_of(bs@),
                            t,
                            ks@,
                            j as int,
                        ),
                    decreases ks.len() - j,
                {
                    shadow_parameter_exec(&mut bs, t, ks[j]);
                    j = j + 1;
                }
            },
            None => {},
        }
    }
    let body = match t.field_child(n, "body") {
        Some(b) => b,
        None => n,
    };
    statements_exec(&mut bs, t, body);
    bs
}

// ── Evidence, executable ───────────────────────────────────────────────

fn direct_test_base_exec(t: &SyntaxTree, n: usize, bs: &Vec<PyBinding>) -> (r: bool)
    requires
        t.wf(),
        t.valid(n as int),
    ensures
        r == direct_test_base(t, n as int, binds_of(bs@)),
{
    let b = match t.field_child(n, "superclasses") {
        Some(b) => b,
        None => {
            return false;
        },
    };
    let ks = t.named_children(b);
    let mut j: usize = 0;
    while j < ks.len()
        invariant
            t.wf(),
            j <= ks.len(),
            ks@ == t.named_kids(b as int),
            t.field(n as int, "superclasses"@) == Some(b),
            forall|k: int| 0 <= k < ks@.len() ==> t.valid(#[trigger] ks@[k] as int),
            forall|i: int|
                0 <= i < j ==> !test_base(t, #[trigger] t.named_kids(b as int)[i] as int, binds_of(bs@)),
        decreases ks.len() - j,
    {
        let x = t.text(ks[j]);
        let compact = strip_ws(x.as_slice());
        match resolve_exec(compact.as_slice(), bs) {
            Some(full) => {
                if chars_eq_str(full.as_slice(), "unittest.TestCase") {
                    assert(test_base(t, t.named_kids(b as int)[j as int] as int, binds_of(bs@)));
                    assert(lists_test_base(t, b as int, binds_of(bs@)));
                    return true;
                }
            },
            None => {},
        }
        j = j + 1;
    }
    assert(!lists_test_base(t, b as int, binds_of(bs@)));
    false
}

fn pytest_marker_exec(s: &[char]) -> (r: bool)
    ensures
        r == pytest_marker(s@),
{
    chars_eq_str(s, "pytest.fixture") || chars_eq_str(s, "pytest.mark.parametrize")
        || chars_eq_str(s, "pytest.mark.skip") || chars_eq_str(s, "pytest.mark.skipif")
        || chars_eq_str(s, "pytest.mark.xfail") || chars_eq_str(s, "pytest.mark.usefixtures")
}

fn marks_test_exec(t: &SyntaxTree, d: usize, bs: &Vec<PyBinding>) -> (r: bool)
    requires
        t.wf(),
        t.valid(d as int),
    ensures
        r == marks_test(t, d as int, binds_of(bs@)),
{
    if !t.kind_is(d, "decorator") {
        return false;
    }
    let ks = t.named_children(d);
    if ks.len() == 0 {
        return false;
    }
    let e = ks[0];
    let x = if t.kind_is(e, "call") {
        match t.field_child(e, "function") {
            Some(f) => f,
            None => e,
        }
    } else {
        e
    };
    let tx = t.text(x);
    let name = strip_ws(tx.as_slice());
    match resolve_exec(name.as_slice(), bs) {
        Some(r) => pytest_marker_exec(r.as_slice()),
        None => false,
    }
}

fn has_test_decorator_exec(t: &SyntaxTree, n: usize, bs: &Vec<PyBinding>) -> (r: bool)
    requires
        t.wf(),
        t.valid(n as int),
    ensures
        r == has_test_decorator(t, n as int, binds_of(bs@)),
{
    let ks = t.named_children(n);
    let mut j: usize = 0;
    while j < ks.len()
        invariant
            t.wf(),
            j <= ks.len(),
            ks@ == t.named_kids(n as int),
            forall|k: int| 0 <= k < ks@.len() ==> t.valid(#[trigger] ks@[k] as int),
            forall|i: int|
                0 <= i < j ==> !marks_test(t, #[trigger] t.named_kids(n as int)[i] as int, binds_of(bs@)),
        decreases ks.len() - j,
    {
        if marks_test_exec(t, ks[j], bs) {
            assert(marks_test(t, t.named_kids(n as int)[j as int] as int, binds_of(bs@)));
            return true;
        }
        j = j + 1;
    }
    false
}

// ── The search ─────────────────────────────────────────────────────────

spec fn scope_of_ctx(ctx: (PyBindings, Option<PyBindings>)) -> PyBindings {
    match ctx.1 {
        Some(e) => e,
        None => ctx.0,
    }
}

/// The bindings a scope-opening node `p` hands to its visited children.
spec fn kid_bindings(t: &SyntaxTree, p: int) -> Option<PyBindings> {
    match reach(t, p) {
        Some(ctx) => {
            let k = t.kind(p);
            if k == "class_definition"@ {
                if direct_test_base(t, p, ctx.0) {
                    None
                } else {
                    Some(bindings_for(t, p, scope_of_ctx(ctx)))
                }
            } else if k == "function_definition"@ {
                Some(bindings_for(t, p, scope_of_ctx(ctx)))
            } else if k == "module"@ {
                Some(bindings_for(t, p, ctx.0))
            } else {
                None
            }
        },
        None => {
            let g = parent_index(t, p);
            if 0 <= g < p && t.kind(p) == "function_definition"@ && t.kind(g)
                == "decorated_definition"@ && definition_of(t, g) == p {
                match reach(t, g) {
                    Some(cg) => if has_test_decorator(t, g, cg.0) {
                        None
                    } else {
                        Some(bindings_for(t, p, scope_of_ctx(cg)))
                    },
                    None => None,
                }
            } else {
                None
            }
        },
    }
}

struct PyCtx {
    inh: Vec<PyBinding>,
    enc: Option<Vec<PyBinding>>,
}

spec fn opt_binds(o: Option<Vec<PyBinding>>) -> Option<PyBindings> {
    match o {
        Some(v) => Some(binds_of(v@)),
        None => None,
    }
}

spec fn ctx_view(c: Option<PyCtx>) -> Option<(PyBindings, Option<PyBindings>)> {
    match c {
        Some(x) => Some((binds_of(x.inh@), opt_binds(x.enc))),
        None => None,
    }
}

fn scope_ref(c: &PyCtx) -> (r: &Vec<PyBinding>)
    ensures
        binds_of(r@) == scope_of_ctx((binds_of(c.inh@), opt_binds(c.enc))),
{
    match &c.enc {
        Some(e) => e,
        None => &c.inh,
    }
}

fn copy_opt(o: &Option<Vec<PyBinding>>) -> (r: Option<Vec<PyBinding>>)
    ensures
        opt_binds(r) == opt_binds(*o),
{
    match o {
        Some(v) => Some(copy_bindings(v)),
        None => None,
    }
}

fn is_body(t: &SyntaxTree, p: usize, i: usize) -> (r: bool)
    requires
        t.wf(),
        t.valid(p as int),
    ensures
        r == (t.field(p as int, "body"@) == Some(i)),
{
    match t.field_child(p, "body") {
        Some(b) => b == i,
        None => false,
    }
}

fn reach_exec(t: &SyntaxTree, i: usize, ctxs: &Vec<Option<PyCtx>>, kids: &Vec<Option<Vec<PyBinding>>>) -> (r:
    Option<PyCtx>)
    requires
        t.wf(),
        t.valid(i as int),
        ctxs@.len() == i,
        kids@.len() == i,
        forall|k: int| 0 <= k < i ==> ctx_view(#[trigger] ctxs@[k]) == reach(t, k),
        forall|k: int| 0 <= k < i ==> opt_binds(#[trigger] kids@[k]) == kid_bindings(t, k),
    ensures
        ctx_view(r) == reach(t, i as int),
{
    if i == 0 {
        let r = Some(PyCtx { inh: Vec::new(), enc: None });
        assert(binds_of(Seq::<PyBinding>::empty()) =~= Seq::<PyEntry>::empty());
        return r;
    }
    assert(t.node_wf(i as int));
    let p = match t.parent_of(i) {
        Some(p) => p,
        None => {
            return None;
        },
    };
    assert(ctx_view(ctxs@[p as int]) == reach(t, p as int));
    assert(opt_binds(kids@[p as int]) == kid_bindings(t, p as int));
    match &ctxs[p] {
        Some(cp) => {
            if t.kind_is(p, "class_definition") {
                match &kids[p] {
                    Some(kb) => if is_body(t, p, i) {
                        Some(PyCtx { inh: copy_bindings(kb), enc: Some(copy_bindings(scope_ref(cp))) })
                    } else {
                        None
                    },
                    None => None,
                }
            } else if t.kind_is(p, "decorated_definition") {
                match definition_of_exec(t, p) {
                    Some(d) => if d == i && t.kind_is(i, "class_definition") {
                        Some(PyCtx { inh: copy_bindings(&cp.inh), enc: copy_opt(&cp.enc) })
                    } else {
                        None
                    },
                    None => None,
                }
            } else if t.kind_is(p, "function_definition") {
                match &kids[p] {
                    Some(kb) => if is_body(t, p, i) {
                        Some(PyCtx { inh: copy_bindings(kb), enc: None })
                    } else {
                        None
                    },
                    None => None,
                }
            } else if t.kind_is(p, "module") {
                match &kids[p] {
                    Some(kb) => if t.is_named(i) {
                        Some(PyCtx { inh: copy_bindings(kb), enc: copy_opt(&cp.enc) })
                    } else {
                        None
                    },
                    None => None,
                }
            } else if t.is_named(i) {
                Some(PyCtx { inh: copy_bindings(&cp.inh), enc: copy_opt(&cp.enc) })
            } else {
                None
            }
        },
        None => {
            if !t.kind_is(p, "function_definition") || !is_body(t, p, i) {
                return None;
            }
            assert(t.node_wf(p as int));
            let g = match t.parent_of(p) {
                Some(g) => g,
                None => {
                    return None;
                },
            };
            if !t.kind_is(g, "decorated_definition") {
                return None;
            }
            match definition_of_exec(t, g) {
                Some(d) => if d != p {
                    return None;
                },
                None => {
                    return None;
                },
            }
            match &kids[p] {
                Some(kb) => Some(PyCtx { inh: copy_bindings(kb), enc: None }),
                None => None,
            }
        },
    }
}

fn kid_exec(t: &SyntaxTree, i: usize, c: &Option<PyCtx>, ctxs: &Vec<Option<PyCtx>>) -> (r: Option<
    Vec<PyBinding>,
>)
    requires
        t.wf(),
        t.valid(i as int),
        ctxs@.len() == i,
        ctx_view(*c) == reach(t, i as int),
        forall|k: int| 0 <= k < i ==> ctx_view(#[trigger] ctxs@[k]) == reach(t, k),
    ensures
        opt_binds(r) == kid_bindings(t, i as int),
{
    match c {
        Some(cx) => {
            if t.kind_is(i, "class_definition") {
                if direct_test_base_exec(t, i, &cx.inh) {
                    None
                } else {
                    Some(bindings_for_exec(t, i, scope_ref(cx)))
                }
            } else if t.kind_is(i, "function_definition") {
                Some(bindings_for_exec(t, i, scope_ref(cx)))
            } else if t.kind_is(i, "module") {
                Some(bindings_for_exec(t, i, &cx.inh))
            } else {
                None
            }
        },
        None => {
            if !t.kind_is(i, "function_definition") {
                return None;
            }
            let g = match t.parent_of(i) {
                Some(g) => g,
                None => {
                    return None;
                },
            };
            if !t.kind_is(g, "decorated_definition") {
                return None;
            }
            match definition_of_exec(t, g) {
                Some(d) => if d != i {
                    return None;
                },
                None => {
                    return None;
                },
            }
            assert(ctx_view(ctxs@[g as int]) == reach(t, g as int));
            match &ctxs[g] {
                Some(cg) => if has_test_decorator_exec(t, g, &cg.inh) {
                    None
                } else {
                    Some(bindings_for_exec(t, i, scope_ref(cg)))
                },
                None => None,
            }
        },
    }
}

fn found_exec(t: &SyntaxTree, i: usize, c: &Option<PyCtx>) -> (r: Option<Range<usize>>)
    requires
        t.wf(),
        t.valid(i as int),
        ctx_view(*c) == reach(t, i as int),
    ensures
        match r {
            Some(x) => found(t, i as int) == Some((x.start, x.end)),
            None => found(t, i as int) is None,
        },
{
    match c {
        None => None,
        Some(cx) => {
            if t.kind_is(i, "class_definition") && direct_test_base_exec(t, i, &cx.inh) {
                return Some(t.nodes[i].start..t.nodes[i].end);
            }
            if !t.kind_is(i, "decorated_definition") {
                return None;
            }
            match definition_of_exec(t, i) {
                Some(d) => if t.kind_is(d, "function_definition") && has_test_decorator_exec(
                    t,
                    i,
                    &cx.inh,
                ) {
                    Some(t.nodes[d].start..t.nodes[d].end)
                } else {
                    None
                },
                None => None,
            }
        },
    }
}

/// The character ranges of the test code of a Python syntax tree, in
/// preorder.
pub fn python_test_ranges(t: &SyntaxTree) -> (r: Vec<Range<usize>>)
    requires
        t.wf(),
    ensures
        spans_of(r@) == python_test_spans(t),
{
    let mut ctxs: Vec<Option<PyCtx>> = Vec::new();
    let mut kids: Vec<Option<Vec<PyBinding>>> = Vec::new();
    let mut r: Vec<Range<usize>> = Vec::new();
    let len = t.node_count();
    let mut i: usize = 0;
    assert(spans_of(r@) =~= python_spans_upto(t, 0));
    while i < len
        invariant
            t.wf(),
            i <= len == t.len(),
            ctxs@.len() == i,
            kids@.len() == i,
            forall|k: int| 0 <= k < i ==> ctx_view(#[trigger] ctxs@[k]) == reach(t, k),
            forall|k: int| 0 <= k < i ==> opt_binds(#[trigger] kids@[k]) == kid_bindings(t, k),
            spans_of(r@) == python_spans_upto(t, i as int),
        decreases len - i,
    {
        let c = reach_exec(t, i, &ctxs, &kids);
        let kb = kid_exec(t, i, &c, &ctxs);
        match found_exec(t, i, &c) {
            Some(x) => {
                r.push(x);
            },
            None => {},
        }
        assert(spans_of(r@) =~= python_spans_upto(t, i + 1));
        ctxs.push(c);
        kids.push(kb);
        i = i + 1;
    }
    r
}

// ── The documented markers ─────────────────────────────────────────────

/// The pytest markers that make a decorated function test code.
pub open spec fn documented_pytest_markers() -> Seq<Seq<char>> {
    seq![
        "pytest.fixture"@,
        "pytest.mark.parametrize"@,
        "pytest.mark.skip"@,
        "pytest.mark.skipif"@,
        "pytest.mark.xfail"@,
        "pytest.mark.usefixtures"@,
    ]
}

/// A resolved decorator name is a test marker exactly when it is one of
/// the six documented pytest markers.
pub proof fn lemma_pytest_markers_are_the_documented_ones(s: Seq<char>)
    ensures
        pytest_marker(s) <==> documented_pytest_markers().contains(s),
{
    let d = documented_pytest_markers();
    if d.contains(s) {
        let i = choose|i: int| 0 <= i < d.len() && d[i] == s;
    }
    if pytest_marker(s) {
        if s == "pytest.fixture"@ {
            assert(d[0] == s);
        } else if s == "pytest.mark.parametrize"@ {
            assert(d[1] == s);
        } else if s == "pytest.mark.skip"@ {
            assert(d[2] == s);
        } else if s == "pytest.mark.skipif"@ {
            assert(d[3] == s);
        } else if s == "pytest.mark.xfail"@ {
            assert(d[4] == s);
        } else {
            assert(d[5] == s);
        }
    }
}

/// A decorator marks its function as test code exactly when the name it is
/// written with resolves, through the bindings in scope, to one of the
/// documented pytest markers.
pub proof fn lemma_decorator_marks_test_iff_documented_marker(t: &SyntaxTree, d: int, bs: PyBindings)
    requires
        t.kind(d) == "decorator"@,
        t.named_kids(d).len() > 0,
    ensures
        marks_test(t, d, bs) <==> (resolve(decorator_name(t, t.named_kids(d)[0] as int), bs) matches Some(r)
            && documented_pytest_markers().contains(r)),
{
    match resolve(decorator_name(t, t.named_kids(d)[0] as int), bs) {
        Some(r) => lemma_pytest_markers_are_the_documented_ones(r),
        None => {},
    }
}

/// A listed base makes a Python class test code exactly when it resolves,
/// through the bindings in scope, to `unittest.TestCase`.
pub proof fn lemma_test_base_is_unittest_testcase(t: &SyntaxTree, c: int, bs: PyBindings)
    ensures
        test_base(t, c, bs) <==> resolve(without_ws(t.text_of(c)), bs) == Some("unittest.TestCase"@),
{
}

} // verus!
