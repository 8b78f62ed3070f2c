//! Test code in a PHP file: classes whose base resolves to
//! `PHPUnit\Framework\TestCase`, and methods carrying a PHPUnit attribute
//! (`Test`, `Before`, `After`, `BeforeClass`, `AfterClass`). Names resolve
//! through the `use` declarations of the enclosing namespace; a class,
//! interface, trait or enum of the same name shadows an import, and two
//! different imports under one name cancel it. The result is the character
//! ranges of those classes and methods, in preorder.
use std::ops::Range;

use vstd::prelude::*;

use crate::metrics::complexity::python_test_code::{
    bind, bind_exec, binds_of, copy_bindings, copy_chars, invalidate, latest, lookup, opt_chars,
    push_entry, target_of, PyBinding, PyBindings,
};
use crate::metrics::complexity::rust_test_code::parent_index;
use crate::metrics::complexity::syntax::SyntaxTree;
use crate::metrics::complexity::test_context::{spans_of, Span};
use crate::text::{chars_eq_str, push_all, slice_vec, strip_ws, without_ws};

verus! {

/// The bindings of a scope, and whether it lies in a named namespace.
pub type PhpBindings = (PyBindings, bool);

// ── Names ──────────────────────────────────────────────────────────────

/// The first position at or after `i` holding a backslash, or -1.
pub open spec fn backslash_from(s: Seq<char>, i: int) -> int
    decreases s.len() - i,
{
    if i < 0 || i >= s.len() {
        -1
    } else if s[i] == '\\' {
        i
    } else {
        backslash_from(s, i + 1)
    }
}

/// The last position at or before `i` holding a backslash, or -1.
pub open spec fn backslash_before(s: Seq<char>, i: int) -> int
    decreases i + 1,
{
    if i < 0 {
        -1
    } else if i < s.len() && s[i] == '\\' {
        i
    } else {
        backslash_before(s, i - 1)
    }
}

/// `s` without its leading backslashes.
pub open spec fn trim_backslashes(s: Seq<char>) -> Seq<char>
    decreases s.len(),
{
    if s.len() > 0 && s[0] == '\\' {
        trim_backslashes(s.drop_first())
    } else {
        s
    }
}

/// The full name `name` stands for: absolute after a leading backslash,
/// through the binding of its first segment, or as written outside a
/// named namespace.
pub open spec fn resolve(name: Seq<char>, b: PhpBindings) -> Option<Seq<char>> {
    if name.len() > 0 && name[0] == '\\' {
        Some(name.drop_first())
    } else {
        let j = backslash_from(name, 0);
        let head = if j < 0 {
            name
        } else {
            name.subrange(0, j)
        };
        let rest = name.subrange(head.len() as int, name.len() as int);
        match lookup(b.0, head) {
            Some(Some(target)) => Some(target + rest),
            Some(None) => None,
            None => if b.1 {
                None
            } else {
                Some(name)
            },
        }
    }
}

pub open spec fn normalized(t: &SyntaxTree, n: int) -> Seq<char> {
    without_ws(t.text_of(n))
}

// ── Bindings ───────────────────────────────────────────────────────────

/// The first named child of `n` of one of the kinds `k1`, `k2`, `k3`, or -1.
pub open spec fn kid_of_kinds(t: &SyntaxTree, ks: Seq<usize>, j: int, k1: Seq<char>, k2: Seq<char>, k3: Seq<char>) -> int
    decreases ks.len() - j,
{
    if j < 0 || j >= ks.len() {
        -1
    } else if t.kind(ks[j] as int) == k1 || t.kind(ks[j] as int) == k2 || t.kind(ks[j] as int) == k3 {
        ks[j] as int
    } else {
        kid_of_kinds(t, ks, j + 1, k1, k2, k3)
    }
}

/// What one `use` clause binds, under the group prefix `prefix`.
pub open spec fn use_clause(bs: PyBindings, t: &SyntaxTree, clause: int, prefix: Option<Seq<char>>) -> PyBindings {
    let nn = kid_of_kinds(t, t.named_kids(clause), 0, "qualified_name"@, "name"@, "namespace_name"@);
    if nn < 0 {
        bs
    } else {
        let name = trim_backslashes(normalized(t, nn));
        let target = match prefix {
            Some(p) => p + seq!['\\'] + name,
            None => name,
        };
        let alias = match t.field(clause, "alias"@) {
            Some(a) => t.text_of(a as int),
            None => {
                let j = backslash_before(target, target.len() - 1);
                if j < 0 {
                    target
                } else {
                    target.subrange(j + 1, target.len() as int)
                }
            },
        };
        bind(bs, alias, target)
    }
}

/// The `use` clauses among the nodes `j..e`, applied in order.
pub open spec fn use_clauses(bs: PyBindings, t: &SyntaxTree, j: int, e: int, prefix: Option<Seq<char>>) -> PyBindings
    decreases e - j,
{
    if j < 0 || j >= e || j >= t.len() {
        bs
    } else {
        use_clauses(
            if t.nodes@[j].named && t.kind(j) == "namespace_use_clause"@ {
                use_clause(bs, t, j, prefix)
            } else {
                bs
            },
            t,
            j + 1,
            e,
            prefix,
        )
    }
}

pub open spec fn declares_type(k: Seq<char>) -> bool {
    k == "class_declaration"@ || k == "interface_declaration"@ || k == "trait_declaration"@ || k
        == "enum_declaration"@
}

/// What one statement binds.
pub open spec fn statement_bindings(bs: PyBindings, t: &SyntaxTree, c: int) -> PyBindings {
    if t.kind(c) == "namespace_use_declaration"@ && !t.nodes@[c].has_error {
        let nn = kid_of_kinds(t, t.named_kids(c), 0, "namespace_name"@, "namespace_name"@, "namespace_name"@);
        let prefix = if nn < 0 {
            None
        } else {
            Some(normalized(t, nn))
        };
        use_clauses(bs, t, c, t.end_of(c), prefix)
    } else if declares_type(t.kind(c)) {
        match t.field(c, "name"@) {
            Some(x) => invalidate(bs, t.text_of(x as int)),
            None => bs,
        }
    } else {
        bs
    }
}

pub open spec fn statements_from(bs: PyBindings, t: &SyntaxTree, ks: Seq<usize>, j: int) -> PyBindings
    decreases ks.len() - j,
{
    if j < 0 || j >= ks.len() {
        bs
    } else {
        statements_from(statement_bindings(bs, t, ks[j] as int), t, ks, j + 1)
    }
}

pub open spec fn is_unbraced_namespace(t: &SyntaxTree, n: int) -> bool {
    t.kind(n) == "namespace_definition"@ && t.field(n, "body"@) is None
}

/// The first unbraced namespace among `ks[j..]`, or -1.
pub open spec fn first_unbraced(t: &SyntaxTree, ks: Seq<usize>, j: int) -> int
    decreases ks.len() - j,
{
    if j < 0 || j >= ks.len() {
        -1
    } else if is_unbraced_namespace(t, ks[j] as int) {
        ks[j] as int
    } else {
        first_unbraced(t, ks, j + 1)
    }
}

/// The bindings of the statements `ks`, given those inherited.
pub open spec fn bindings_from_nodes(t: &SyntaxTree, ks: Seq<usize>, inherited: PhpBindings) -> PhpBindings {
    let ns = first_unbraced(t, ks, 0);
    let namespaced = if ns < 0 {
        inherited.1
    } else {
        t.field(ns, "name"@) is Some
    };
    (statements_from(inherited.0, t, ks, 0), namespaced)
}

/// The bindings inside a namespace definition or a declaration body.
pub open spec fn bindings_for(t: &SyntaxTree, n: int, inherited: PhpBindings) -> PhpBindings {
    let ns = t.kind(n) == "namespace_definition"@;
    let ks = if ns {
        match t.field(n, "body"@) {
            Some(b) => t.named_kids(b as int),
            None => seq![],
        }
    } else {
        t.named_kids(n)
    };
    let b = bindings_from_nodes(t, ks, inherited);
    if ns {
        (b.0, t.field(n, "name"@) is Some)
    } else {
        b
    }
}

/// Where the segment of top-level statement `k` starts: at the unbraced
/// namespace that opens it, or at the first statement.
pub open spec fn segment_start(t: &SyntaxTree, ks: Seq<usize>, k: int) -> int
    decreases k,
{
    if k <= 0 {
        0
    } else if is_unbraced_namespace(t, ks[k] as int) {
        k
    } else {
        segment_start(t, ks, k - 1)
    }
}

/// Where the segment after statement `k` ends: at the next unbraced
/// namespace, or at the end.
pub open spec fn segment_end(t: &SyntaxTree, ks: Seq<usize>, k: int) -> int
    decreases ks.len() - k,
{
    if k + 1 >= ks.len() || k + 1 < 1 {
        ks.len() as int
    } else if is_unbraced_namespace(t, ks[k + 1] as int) {
        k + 1
    } else {
        segment_end(t, ks, k + 1)
    }
}

// ── Evidence ───────────────────────────────────────────────────────────

pub open spec fn test_case_base(t: &SyntaxTree, n: int, local: PhpBindings) -> bool {
    let base = kid_of_kinds(t, t.named_kids(n), 0, "base_clause"@, "base_clause"@, "base_clause"@);
    base >= 0 && t.named_kids(base).len() > 0 && resolve(
        normalized(t, t.named_kids(base)[0] as int),
        local,
    ) == Some("PHPUnit\\Framework\\TestCase"@)
}

pub open spec fn phpunit_marker(s: Seq<char>) -> bool {
    s == "PHPUnit\\Framework\\Attributes\\Test"@ || s == "PHPUnit\\Framework\\Attributes\\Before"@
        || s == "PHPUnit\\Framework\\Attributes\\After"@ || s
        == "PHPUnit\\Framework\\Attributes\\BeforeClass"@ || s
        == "PHPUnit\\Framework\\Attributes\\AfterClass"@
}

pub open spec fn marks(t: &SyntaxTree, a: int, b: PhpBindings) -> bool {
    &&& t.nodes@[a].named
    &&& t.kind(a) == "attribute"@
    &&& t.named_kids(a).len() > 0
    &&& match resolve(normalized(t, t.named_kids(a)[0] as int), b) {
        Some(r) => phpunit_marker(r),
        None => false,
    }
}

pub open spec fn has_test_attribute(t: &SyntaxTree, m: int, b: PhpBindings) -> bool {
    match t.field(m, "attributes"@) {
        Some(x) => exists|a: int| x <= a < t.end_of(x as int) && a < t.len() && #[trigger] marks(t, a, b),
        None => false,
    }
}

/// The bindings a visited node sees; `None` for a node the search does
/// not enter.
pub open spec fn reach(t: &SyntaxTree, i: int) -> Option<PhpBindings>
    decreases i,
{
    if i == 0 {
        Some((seq![], false))
    } else if i < 0 || i >= t.len() || parent_index(t, i) < 0 || parent_index(t, i) >= i
        || !t.nodes@[i].named {
        None
    } else {
        let p = parent_index(t, i);
        match reach(t, p) {
            None => None,
            Some(b) => {
                let k = t.kind(p);
                if k == "program"@ {
                    let ks = t.named_kids(p);
                    let pos = position(ks, i, 0);
                    if pos < 0 {
                        None
                    } else {
                        let s = segment_start(t, ks, pos);
                        let e = segment_end(t, ks, pos);
                        Some(bindings_from_nodes(t, ks.subrange(s, e), b))
                    }
                } else if k == "class_declaration"@ {
                    let local = bindings_for(t, p, b);
                    if test_case_base(t, p, local) && !t.nodes@[p].has_error {
                        None
                    } else {
                        Some(local)
                    }
                } else if k == "method_declaration"@ {
                    if t.nodes@[p].has_error || has_test_attribute(t, p, b) {
                        None
                    } else {
                        Some(b)
                    }
                } else if k == "namespace_definition"@ || k == "declaration_list"@ {
                    Some(bindings_for(t, p, b))
                } else {
                    Some(b)
                }
            },
        }
    }
}

/// The first position of `n` in `ks` at or after `j`, or -1.
pub open spec fn position(ks: Seq<usize>, n: int, j: int) -> int
    decreases ks.len() - j,
{
    if j < 0 || j >= ks.len() {
        -1
    } else if ks[j] == n {
        j
    } else {
        position(ks, n, j + 1)
    }
}

/// A visited test class or test method.
pub open spec fn found(t: &SyntaxTree, i: int) -> bool {
    match reach(t, i) {
        None => false,
        Some(b) => {
            ||| t.kind(i) == "class_declaration"@ && test_case_base(t, i, bindings_for(t, i, b))
                && !t.nodes@[i].has_error
            ||| t.kind(i) == "method_declaration"@ && !t.nodes@[i].has_error && has_test_attribute(
                t,
                i,
                b,
            )
        },
    }
}

pub open spec fn php_spans_upto(t: &SyntaxTree, i: int) -> Seq<Span>
    decreases i,
{
    if i <= 0 {
        seq![]
    } else {
        php_spans_upto(t, i - 1) + if found(t, i - 1) {
            seq![(t.nodes@[i - 1].start, t.nodes@[i - 1].end)]
        } else {
            seq![]
        }
    }
}

/// The character ranges of a PHP file's test code, in preorder.
pub open spec fn php_test_spans(t: &SyntaxTree) -> Seq<Span> {
    php_spans_upto(t, t.len())
}

// ── Names, executable ──────────────────────────────────────────────────

struct PhpCtx {
    bs: Vec<PyBinding>,
    namespaced: bool,
}

spec fn ctx_of(c: &PhpCtx) -> PhpBindings {
    (binds_of(c.bs@), c.namespaced)
}

fn copy_ctx(c: &PhpCtx) -> (r: PhpCtx)
    ensures
        ctx_of(&r) == ctx_of(c),
{
    PhpCtx { bs: copy_bindings(&c.bs), namespaced: c.namespaced }
}

fn first_backslash(s: &[char]) -> (r: Option<usize>)
    ensures
        match r {
            Some(j) => j as int == backslash_from(s@, 0) && j < s.len(),
            None => backslash_from(s@, 0) < 0,
        },
{
    let mut i: usize = 0;
    while i < s.len()
        invariant
            i <= s.len(),
            backslash_from(s@, 0) == backslash_from(s@, i as int),
        decreases s.len() - i,
    {
        if s[i] == '\\' {
            return Some(i);
        }
        i = i + 1;
    }
    None
}

fn resolve_exec(name: &[char], b: &PhpCtx) -> (r: Option<Vec<char>>)
    ensures
        opt_chars(r) == resolve(name@, ctx_of(b)),
{
    if name.len() > 0 && name[0] == '\\' {
        let r = slice_vec(name, 1, name.len());
        assert(r@ =~= name@.drop_first());
        return Some(r);
    }
    let hl = match first_backslash(name) {
        Some(j) => j,
        None => name.len(),
    };
    let head = slice_vec(name, 0, hl);
    assert(hl == name.len() ==> name@.subrange(0, hl as int) =~= name@);
    let rest = slice_vec(name, hl, name.len());
    match latest(&b.bs, head.as_slice()) {
        Some(i) => match target_of(&b.bs[i]) {
            Some(target) => {
                let mut out = copy_chars(target.as_slice());
                push_all(&mut out, rest.as_slice());
                Some(out)
            },
            None => None,
        },
        None => if b.namespaced {
            None
        } else {
            let r = copy_chars(name);
            Some(r)
        },
    }
}

fn normalized_exec(t: &SyntaxTree, n: usize) -> (r: Vec<char>)
    requires
        t.wf(),
        t.valid(n as int),
    ensures
        r@ == normalized(t, n as int),
{
    let x = t.text(n);
    strip_ws(x.as_slice())
}

fn trim_backslashes_exec(s: &[char]) -> (r: Vec<char>)
    ensures
        r@ == trim_backslashes(s@),
{
    let mut i: usize = 0;
    assert(s@.subrange(0, s@.len() as int) =~= s@);
    while i < s.len() && s[i] == '\\'
        invariant
            i <= s.len(),
            trim_backslashes(s@) == trim_backslashes(s@.subrange(i as int, s@.len() as int)),
        decreases s.len() - i,
    {
        proof {
            let u = s@.subrange(i as int, s@.len() as int);
            assert(u.drop_first() =~= s@.subrange(i + 1, s@.len() as int));
        }
        i = i + 1;
    }
    proof {
        let u = s@.subrange(i as int, s@.len() as int);
        if u.len() > 0 {
            assert(u[0] == s@[i as int]);
        }
    }
    slice_vec(s, i, s.len())
}

fn last_backslash(s: &[char]) -> (r: Option<usize>)
    ensures
        match r {
            Some(j) => j as int == backslash_before(s@, s.len() - 1) && j < s.len(),
            None => backslash_before(s@, s.len() - 1) < 0,
        },
{
    let mut j: usize = s.len();
    while j > 0
        invariant
            j <= s.len(),
            backslash_before(s@, s.len() - 1) == backslash_before(s@, j - 1),
        decreases j,
    {
        if s[j - 1] == '\\' {
            return Some(j - 1);
        }
        j = j - 1;
    }
    None
}

// ── Bindings, executable ───────────────────────────────────────────────

fn kid_of_kinds_exec(t: &SyntaxTree, ks: &Vec<usize>, k1: &str, k2: &str, k3: &str) -> (r: Option<usize>)
    requires
        forall|k: int| 0 <= k < ks@.len() ==> t.valid(#[trigger] ks@[k] as int),
    ensures
        match r {
            Some(c) => c as int == kid_of_kinds(t, ks@, 0, k1@, k2@, k3@) && t.valid(c as int),
            None => kid_of_kinds(t, ks@, 0, k1@, k2@, k3@) < 0,
        },
{
    let mut j: usize = 0;
    while j < ks.len()
        invariant
            j <= ks.len(),
            forall|k: int| 0 <= k < ks@.len() ==> t.valid(#[trigger] ks@[k] as int),
            kid_of_kinds(t, ks@, 0, k1@, k2@, k3@) == kid_of_kinds(t, ks@, j as int, k1@, k2@, k3@),
        decreases ks.len() - j,
    {
        if t.kind_is(ks[j], k1) || t.kind_is(ks[j], k2) || t.kind_is(ks[j], k3) {
            return Some(ks[j]);
        }
        j = j + 1;
    }
    None
}

fn use_clause_exec(bs: &mut Vec<PyBinding>, t: &SyntaxTree, clause: usize, prefix: &Option<Vec<char>>)
    requires
        t.wf(),
        t.valid(clause as int),
    ensures
        binds_of(final(bs)@) == use_clause(binds_of(old(bs)@), t, clause as int, opt_chars(*prefix)),
{
    let ks = t.named_children(clause);
    let nn = match kid_of_kinds_exec(t, &ks, "qualified_name", "name", "namespace_name") {
        None => {
            return;
        },
        Some(x) => x,
    };
    let nm = normalized_exec(t, nn);
    let name = trim_backslashes_exec(nm.as_slice());
    let target = match prefix {
        Some(p) => {
            let mut x = copy_chars(p.as_slice());
            x.push('\\');
            assert(x@ =~= p@ + seq!['\\']);
            push_all(&mut x, name.as_slice());
            assert(x@ =~= p@ + seq!['\\'] + name@);
            x
        },
        None => name,
    };
    let alias = match t.field_child(clause, "alias") {
        Some(a) => t.text(a),
        None => match last_backslash(target.as_slice()) {
            Some(j) => slice_vec(target.as_slice(), j + 1, target.len()),
            None => copy_chars(target.as_slice()),
        },
    };
    bind_exec(bs, alias, target);
}

fn use_clauses_exec(bs: &mut Vec<PyBinding>, t: &SyntaxTree, c: usize, prefix: &Option<Vec<char>>)
    requires
        t.wf(),
        t.valid(c as int),
    ensures
        binds_of(final(bs)@) == use_clauses(
            binds_of(old(bs)@),
            t,
            c as int,
            t.end_of(c as int),
            opt_chars(*prefix),
        ),
{
    let e = t.end(c);
    let mut j: usize = c;
    while j < e
        invariant
            t.wf(),
            c <= j <= e <= t.len(),
            e == t.end_of(c as int),
            use_clauses(binds_of(old(bs)@), t, c as int, e as int, opt_chars(*prefix))
                == use_clauses(binds_of(bs@), t, j as int, e as int, opt_chars(*prefix)),
        decreases e - j,
    {
        if t.is_named(j) && t.kind_is(j, "namespace_use_clause") {
            use_clause_exec(bs, t, j, prefix);
        }
        j = j + 1;
    }
}

fn statement_bindings_exec(bs: &mut Vec<PyBinding>, t: &SyntaxTree, c: usize)
    requires
        t.wf(),
        t.valid(c as int),
    ensures
        binds_of(final(bs)@) == statement_bindings(binds_of(old(bs)@), t, c as int),
{
    if t.kind_is(c, "namespace_use_declaration") && !t.nodes[c].has_error {
        let ks = t.named_children(c);
        let prefix = match kid_of_kinds_exec(t, &ks, "namespace_name", "namespace_name", "namespace_name") {
            Some(nn) => Some(normalized_exec(t, nn)),
            None => None,
        };
        use_clauses_exec(bs, t, c, &prefix);
    } else if t.kind_is(c, "class_declaration") || t.kind_is(c, "interface_declaration")
        || t.kind_is(c, "trait_declaration") || t.kind_is(c, "enum_declaration") {
        match t.field_child(c, "name") {
            Some(x) => push_entry(bs, t.text(x), None),
            None => {},
        }
    }
}

fn unbraced_exec(t: &SyntaxTree, n: usize) -> (r: bool)
    requires
        t.wf(),
        t.valid(n as int),
    ensures
        r == is_unbraced_namespace(t, n as int),
{
    t.kind_is(n, "namespace_definition") && t.field_child(n, "body").is_none()
}

fn first_unbraced_exec(t: &SyntaxTree, ks: &Vec<usize>) -> (r: Option<usize>)
    requires
        t.wf(),
        forall|k: int| 0 <= k < ks@.len() ==> t.valid(#[trigger] ks@[k] as int),
    ensures
        match r {
            Some(n) => n as int == first_unbraced(t, ks@, 0) && t.valid(n as int),
            None => first_unbraced(t, ks@, 0) < 0,
        },
{
    let mut j: usize = 0;
    while j < ks.len()
        invariant
            t.wf(),
            j <= ks.len(),
            forall|k: int| 0 <= k < ks@.len() ==> t.valid(#[trigger] ks@[k] as int),
            first_unbraced(t, ks@, 0) == first_unbraced(t, ks@, j as int),
        decreases ks.len() - j,
    {
        if unbraced_exec(t, ks[j]) {
            return Some(ks[j]);
        }
        j = j + 1;
    }
    None
}

fn bindings_from_nodes_exec(t: &SyntaxTree, ks: &Vec<usize>, inherited: &PhpCtx) -> (r: PhpCtx)
    requires
        t.wf(),
        forall|k: int| 0 <= k < ks@.len() ==> t.valid(#[trigger] ks@[k] as int),
    ensures
        ctx_of(&r) == bindings_from_nodes(t, ks@, ctx_of(inherited)),
{
    let namespaced = match first_unbraced_exec(t, ks) {
        Some(ns) => t.field_child(ns, "name").is_some(),
        None => inherited.namespaced,
    };
    let mut bs = copy_bindings(&inherited.bs);
    let mut i: usize = 0;
    while i < ks.len()
        invariant
            t.wf(),
            i <= ks.len(),
            forall|k: int| 0 <= k < ks@.len() ==> t.valid(#[trigger] ks@[k] as int),
            statements_from(binds_of(inherited.bs@), t, ks@, 0) == statements_from(
                binds_of(bs@),
                t,
                ks@,
                i as int,
            ),
        decreases ks.len() - i,
    {
        statement_bindings_exec(&mut bs, t, ks[i]);
        i = i + 1;
    }
    PhpCtx { bs, namespaced }
}

fn bindings_for_exec(t: &SyntaxTree, n: usize, inherited: &PhpCtx) -> (r: PhpCtx)
    requires
        t.wf(),
        t.valid(n as int),
    ensures
        ctx_of(&r) == bindings_for(t, n as int, ctx_of(inherited)),
{
    let ns = t.kind_is(n, "namespace_definition");
    let ks: Vec<usize> = if ns {
        match t.field_child(n, "body") {
            Some(b) => t.named_children(b),
            None => {
                let v: Vec<usize> = Vec::new();
                assert(v@ =~= Seq::<usize>::empty());
                v
            },
        }
    } else {
        t.named_children(n)
    };
    let b = bindings_from_nodes_exec(t, &ks, inherited);
    if ns {
        PhpCtx { bs: b.bs, namespaced: t.field_child(n, "name").is_some() }
    } else {
        b
    }
}

// ── Evidence, executable ───────────────────────────────────────────────

fn test_case_base_exec(t: &SyntaxTree, n: usize, local: &PhpCtx) -> (r: bool)
    requires
        t.wf(),
        t.valid(n as int),
    ensures
        r == test_case_base(t, n as int, ctx_of(local)),
{
    let ks = t.named_children(n);
    match kid_of_kinds_exec(t, &ks, "base_clause", "base_clause", "base_clause") {
        None => false,
        Some(base) => {
            let bk = t.named_children(base);
            if bk.len() == 0 {
                return false;
            }
            let nm = normalized_exec(t, bk[0]);
            match resolve_exec(nm.as_slice(), local) {
                Some(r) => chars_eq_str(r.as_slice(), "PHPUnit\\Framework\\TestCase"),
                None => false,
            }
        },
    }
}

fn phpunit_marker_exec(s: &[char]) -> (r: bool)
    ensures
        r == phpunit_marker(s@),
{
    chars_eq_str(s, "PHPUnit\\Framework\\Attributes\\Test") || chars_eq_str(
        s,
        "PHPUnit\\Framework\\Attributes\\Before",
    ) || chars_eq_str(s, "PHPUnit\\Framework\\Attributes\\After") || chars_eq_str(
        s,
        "PHPUnit\\Framework\\Attributes\\BeforeClass",
    ) || chars_eq_str(s, "PHPUnit\\Framework\\Attributes\\AfterClass")
}

fn marks_exec(t: &SyntaxTree, a: usize, b: &PhpCtx) -> (r: bool)
    requires
        t.wf(),
        t.valid(a as int),
    ensures
        r == marks(t, a as int, ctx_of(b)),
{
    if !t.is_named(a) || !t.kind_is(a, "attribute") {
        return false;
    }
    let ks = t.named_children(a);
    if ks.len() == 0 {
        return false;
    }
    let nm = normalized_exec(t, ks[0]);
    match resolve_exec(nm.as_slice(), b) {
        Some(r) => phpunit_marker_exec(r.as_slice()),
        None => false,
    }
}

fn has_test_attribute_exec(t: &SyntaxTree, m: usize, b: &PhpCtx) -> (r: bool)
    requires
        t.wf(),
        t.valid(m as int),
    ensures
        r == has_test_attribute(t, m as int, ctx_of(b)),
{
    let x = match t.field_child(m, "attributes") {
        None => {
            return false;
        },
        Some(x) => x,
    };
    let e = t.end(x);
    let mut a: usize = x;
    while a < e
        invariant
            t.wf(),
            x <= a <= e <= t.len(),
            e == t.end_of(x as int),
            t.field(m as int, "attributes"@) == Some(x),
            forall|k: int| x <= k < a ==> !(#[trigger] marks(t, k, ctx_of(b))),
        decreases e - a,
    {
        if marks_exec(t, a, b) {
            assert(marks(t, a as int, ctx_of(b)));
            return true;
        }
        a = a + 1;
    }
    false
}

// ── The search ─────────────────────────────────────────────────────────

spec fn ctx_view(c: Option<PhpCtx>) -> Option<PhpBindings> {
    match c {
        Some(x) => Some(ctx_of(&x)),
        None => None,
    }
}

fn position_exec(ks: &Vec<usize>, n: usize) -> (r: Option<usize>)
    ensures
        match r {
            Some(k) => k as int == position(ks@, n as int, 0) && k < ks@.len(),
            None => position(ks@, n as int, 0) < 0,
        },
{
    let mut j: usize = 0;
    while j < ks.len()
        invariant
            j <= ks.len(),
            position(ks@, n as int, 0) == position(ks@, n as int, j as int),
        decreases ks.len() - j,
    {
        if ks[j] == n {
            return Some(j);
        }
        j = j + 1;
    }
    None
}

fn segment_exec(t: &SyntaxTree, ks: &Vec<usize>, k: usize) -> (r: (usize, usize))
    requires
        t.wf(),
        k < ks.len(),
        forall|i: int| 0 <= i < ks@.len() ==> t.valid(#[trigger] ks@[i] as int),
    ensures
        r.0 as int == segment_start(t, ks@, k as int),
        r.1 as int == segment_end(t, ks@, k as int),
        r.0 <= k < r.1 <= ks.len(),
{
    let mut s: usize = k;
    while s > 0 && !unbraced_exec(t, ks[s])
        invariant
            t.wf(),
            s <= k < ks.len(),
            forall|i: int| 0 <= i < ks@.len() ==> t.valid(#[trigger] ks@[i] as int),
            segment_start(t, ks@, k as int) == segment_start(t, ks@, s as int),
        decreases s,
    {
        s = s - 1;
    }
    let mut e: usize = k + 1;
    while e < ks.len() && !unbraced_exec(t, ks[e])
        invariant
            t.wf(),
            k < e <= ks.len(),
            forall|i: int| 0 <= i < ks@.len() ==> t.valid(#[trigger] ks@[i] as int),
            segment_end(t, ks@, k as int) == segment_end(t, ks@, e - 1),
        decreases ks.len() - e,
    {
        e = e + 1;
    }
    (s, e)
}

fn reach_exec(t: &SyntaxTree, i: usize, ctxs: &Vec<Option<PhpCtx>>) -> (r: Option<PhpCtx>)
    requires
        t.wf(),
        t.valid(i as int),
        ctxs@.len() == i,
        forall|k: int| 0 <= k < i ==> ctx_view(#[trigger] ctxs@[k]) == reach(t, k),
    ensures
        ctx_view(r) == reach(t, i as int),
{
    if i == 0 {
        let r = PhpCtx { bs: Vec::new(), namespaced: false };
        assert(binds_of(Seq::<PyBinding>::empty()) =~= Seq::<(Seq<char>, Option<Seq<char>>)>::empty());
        return Some(r);
    }
    assert(t.node_wf(i as int));
    let p = match t.parent_of(i) {
        Some(p) => p,
        None => {
            return None;
        },
    };
    if !t.is_named(i) {
        return None;
    }
    assert(ctx_view(ctxs@[p as int]) == reach(t, p as int));
    let b = match &ctxs[p] {
        None => {
            return None;
        },
        Some(b) => b,
    };
    if t.kind_is(p, "program") {
        let ks = t.named_children(p);
        match position_exec(&ks, i) {
            None => None,
            Some(pos) => {
                let (s, e) = segment_exec(t, &ks, pos);
                let mut sub: Vec<usize> = Vec::new();
                let mut j: usize = s;
                while j < e
                    invariant
                        s <= j <= e <= ks.len(),
                        sub@ == ks@.subrange(s as int, j as int),
                    decreases e - j,
                {
                    sub.push(ks[j]);
                    assert(sub@ =~= ks@.subrange(s as int, j + 1));
                    j = j + 1;
                }
                Some(bindings_from_nodes_exec(t, &sub, b))
            },
        }
    } else if t.kind_is(p, "class_declaration") {
        let local = bindings_for_exec(t, p, b);
        if test_case_base_exec(t, p, &local) && !t.nodes[p].has_error {
            None
        } else {
            Some(local)
        }
    } else if t.kind_is(p, "method_declaration") {
        if t.nodes[p].has_error || has_test_attribute_exec(t, p, b) {
            None
        } else {
            Some(copy_ctx(b))
        }
    } else if t.kind_is(p, "namespace_definition") || t.kind_is(p, "declaration_list") {
        Some(bindings_for_exec(t, p, b))
    } else {
        Some(copy_ctx(b))
    }
}

fn found_exec(t: &SyntaxTree, i: usize, c: &Option<PhpCtx>) -> (r: bool)
    requires
        t.wf(),
        t.valid(i as int),
        ctx_view(*c) == reach(t, i as int),
    ensures
        r == found(t, i as int),
{
    match c {
        None => false,
        Some(b) => {
            if t.kind_is(i, "class_declaration") {
                let local = bindings_for_exec(t, i, b);
                if test_case_base_exec(t, i, &local) && !t.nodes[i].has_error {
                    return true;
                }
            }
            t.kind_is(i, "method_declaration") && !t.nodes[i].has_error && has_test_attribute_exec(
                t,
                i,
                b,
            )
        },
    }
}

/// The character ranges of the test classes and test methods of a PHP
/// syntax tree, in preorder.
pub fn php_test_ranges(t: &SyntaxTree) -> (r: Vec<Range<usize>>)
    requires
        t.wf(),
    ensures
        spans_of(r@) == php_test_spans(t),
{
    let mut ctxs: Vec<Option<PhpCtx>> = Vec::new();
    let mut r: Vec<Range<usize>> = Vec::new();
    let len = t.node_count();
    let mut i: usize = 0;
    assert(spans_of(r@) =~= php_spans_upto(t, 0));
    while i < len
        invariant
            t.wf(),
            i <= len == t.len(),
            ctxs@.len() == i,
            forall|k: int| 0 <= k < i ==> ctx_view(#[trigger] ctxs@[k]) == reach(t, k),
            spans_of(r@) == php_spans_upto(t, i as int),
        decreases len - i,
    {
        let c = reach_exec(t, i, &ctxs);
        if found_exec(t, i, &c) {
            let x = t.nodes[i].start..t.nodes[i].end;
            r.push(x);
        }
        assert(spans_of(r@) =~= php_spans_upto(t, i + 1));
        ctxs.push(c);
        i = i + 1;
    }
    r
}

/// The PHPUnit attributes that make a method test code.
pub open spec fn phpunit_attributes() -> Seq<Seq<char>> {
    seq![
        "PHPUnit\\Framework\\Attributes\\Test"@,
        "PHPUnit\\Framework\\Attributes\\Before"@,
        "PHPUnit\\Framework\\Attributes\\After"@,
        "PHPUnit\\Framework\\Attributes\\BeforeClass"@,
        "PHPUnit\\Framework\\Attributes\\AfterClass"@,
    ]
}

/// A resolved attribute marks a PHP method as test code exactly when it is
/// one of PHPUnit's `Test`, `Before`, `After`, `BeforeClass` and
/// `AfterClass` attributes.
pub proof fn lemma_phpunit_markers_are_the_attributes(s: Seq<char>)
    ensures
        phpunit_marker(s) <==> phpunit_attributes().contains(s),
{
    let t = phpunit_attributes();
    if t.contains(s) {
        let i = choose|i: int| 0 <= i < t.len() && t[i] == s;
    }
    if phpunit_marker(s) {
        if s == "PHPUnit\\Framework\\Attributes\\Test"@ {
            assert(t[0] == s);
        } else if s == "PHPUnit\\Framework\\Attributes\\Before"@ {
            assert(t[1] == s);
        } else if s == "PHPUnit\\Framework\\Attributes\\After"@ {
            assert(t[2] == s);
        } else if s == "PHPUnit\\Framework\\Attributes\\BeforeClass"@ {
            assert(t[3] == s);
        } else {
            assert(t[4] == s);
        }
    }
}

/// A PHP class is test code through its base exactly when its first listed
/// base resolves, through the file's imports, to PHPUnit's `TestCase`.
pub proof fn lemma_php_test_base_is_phpunit_testcase(t: &SyntaxTree, n: int, local: PhpBindings)
    ensures
        test_case_base(t, n, local) ==> resolve(
            normalized(t, t.named_kids(kid_of_kinds(t, t.named_kids(n), 0, "base_clause"@, "base_clause"@, "base_clause"@))[0] as int),
            local,
        ) == Some("PHPUnit\\Framework\\TestCase"@),
{
}

} // verus!
