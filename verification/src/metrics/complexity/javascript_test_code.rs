//! Test code in a JavaScript or TypeScript file: the callbacks handed to a
//! test API (`test`, `it`, `describe`, `suite` and the setup and teardown
//! hooks) of Jest's `@jest/globals`, Vitest, Mocha or `node:test`, where the
//! callee resolves to one of those APIs through a declaration in scope
//! (an import, a `require`, or a destructuring of either). Shadowed,
//! reassigned or conflicting names give no evidence, nor do calls whose
//! argument slots do not fit the API. The result is the character ranges
//! of those callbacks, in preorder of their calls.
use std::ops::Range;

use vstd::prelude::*;

use crate::metrics::complexity::rust_test_code::parent_index;
use crate::metrics::complexity::syntax::SyntaxTree;
use crate::metrics::complexity::test_context::{spans_of, Span};
use crate::text::{chars_eq, chars_eq_str, slice_vec};

verus! {

/// A test framework.
#[derive(Clone, Copy, Debug)]
pub enum JsProvider {
    Jest,
    Vitest,
    Mocha,
    Node,
}

/// A test API, by its canonical name.
#[derive(Clone, Copy, Debug)]
pub enum JsApi {
    Test,
    It,
    Describe,
    Suite,
    BeforeAll,
    AfterAll,
    BeforeEach,
    AfterEach,
    Before,
    After,
}

/// What a declared name stands for.
#[derive(Clone, Copy, Debug)]
pub enum JsBinding {
    Api(JsProvider, JsApi),
    Namespace(JsProvider),
    /// `require('node:test')`: callable, and exposes named exports too.
    NodeDefault,
}

/// A declaration: `(name, scope start, scope end, available from, value,
/// position of its require call)`.
pub type JsDecl = (Seq<char>, int, int, int, Option<JsBinding>, Option<int>);

// ── Catalog ────────────────────────────────────────────────────────────

pub open spec fn provider_of(s: Seq<char>) -> Option<JsProvider> {
    if s == "@jest/globals"@ {
        Some(JsProvider::Jest)
    } else if s == "vitest"@ {
        Some(JsProvider::Vitest)
    } else if s == "mocha"@ {
        Some(JsProvider::Mocha)
    } else if s == "node:test"@ {
        Some(JsProvider::Node)
    } else {
        None
    }
}

/// The API of `p` named `s`.
pub open spec fn canonical_api(p: JsProvider, s: Seq<char>) -> Option<JsApi> {
    let mocha_like = p == JsProvider::Mocha || p == JsProvider::Node;
    let jest_like = p == JsProvider::Jest || p == JsProvider::Vitest;
    if s == "test"@ {
        Some(JsApi::Test)
    } else if s == "it"@ {
        Some(JsApi::It)
    } else if s == "describe"@ {
        Some(JsApi::Describe)
    } else if s == "suite"@ && p != JsProvider::Jest {
        Some(JsApi::Suite)
    } else if s == "beforeAll"@ && jest_like {
        Some(JsApi::BeforeAll)
    } else if s == "afterAll"@ && jest_like {
        Some(JsApi::AfterAll)
    } else if s == "beforeEach"@ {
        Some(JsApi::BeforeEach)
    } else if s == "afterEach"@ {
        Some(JsApi::AfterEach)
    } else if s == "before"@ && mocha_like {
        Some(JsApi::Before)
    } else if s == "after"@ && mocha_like {
        Some(JsApi::After)
    } else {
        None
    }
}

pub open spec fn is_suite_or_test(a: JsApi) -> bool {
    a == JsApi::Test || a == JsApi::It || a == JsApi::Describe || a == JsApi::Suite
}

// ── Tree helpers ───────────────────────────────────────────────────────

pub open spec fn range_of(t: &SyntaxTree, n: int) -> (int, int) {
    (t.nodes@[n].start as int, t.nodes@[n].end as int)
}

pub open spec fn is_function(k: Seq<char>) -> bool {
    k == "function_declaration"@ || k == "generator_function_declaration"@ || k
        == "function_expression"@ || k == "generator_function"@ || k == "arrow_function"@ || k
        == "method_definition"@
}

pub open spec fn closes_scope(k: Seq<char>, var: bool) -> bool {
    ||| k == "program"@ || k == "internal_module"@ || k == "module"@
    ||| is_function(k)
    ||| !var && (k == "statement_block"@ || k == "for_statement"@ || k == "for_in_statement"@ || k
        == "switch_body"@ || k == "catch_clause"@)
}

/// The first node at or above `p` that encloses a declaration, or -1.
pub open spec fn scope_node_from(t: &SyntaxTree, p: int, var: bool) -> int
    decreases p + 1,
{
    if p < 0 || p >= t.len() {
        -1
    } else if closes_scope(t.kind(p), var) {
        p
    } else if parent_index(t, p) < p {
        scope_node_from(t, parent_index(t, p), var)
    } else {
        -1
    }
}

/// The range a declaration at `n` is visible in; `var` declarations ignore
/// blocks.
pub open spec fn lexical_scope(t: &SyntaxTree, n: int, var: bool) -> (int, int) {
    let s = scope_node_from(t, parent_index(t, n), var);
    if s < 0 {
        range_of(t, n)
    } else {
        range_of(t, s)
    }
}

/// An error or a `with` statement at or above `p`.
pub open spec fn bad_above(t: &SyntaxTree, p: int) -> bool
    decreases p + 1,
{
    if p < 0 || p >= t.len() {
        false
    } else if t.kind(p) == "ERROR"@ || t.kind(p) == "with_statement"@ {
        true
    } else if parent_index(t, p) < p {
        bad_above(t, parent_index(t, p))
    } else {
        false
    }
}

/// A node free of syntax errors, outside any error and any `with`.
pub open spec fn valid(t: &SyntaxTree, n: int) -> bool {
    !t.nodes@[n].has_error && !bad_above(t, parent_index(t, n))
}

pub open spec fn some_child_kind(t: &SyntaxTree, n: int, k: Seq<char>) -> bool {
    exists|j: int| 0 <= j < t.kids(n).len() && #[trigger] t.kind(t.kids(n)[j] as int) == k
}

pub open spec fn declares_with_keyword(t: &SyntaxTree, n: int) -> bool {
    some_child_kind(t, n, "const"@) || some_child_kind(t, n, "let"@) || some_child_kind(
        t,
        n,
        "var"@,
    )
}

pub open spec fn type_only(t: &SyntaxTree, n: int) -> bool {
    some_child_kind(t, n, "type"@)
}

/// The first named child of `n` of kind `k`, or -1.
pub open spec fn named_kid_of_kind(t: &SyntaxTree, n: int, k: Seq<char>, j: int) -> int
    decreases t.named_kids(n).len() - j,
{
    if j < 0 || j >= t.named_kids(n).len() {
        -1
    } else if t.kind(t.named_kids(n)[j] as int) == k {
        t.named_kids(n)[j] as int
    } else {
        named_kid_of_kind(t, n, k, j + 1)
    }
}

/// The first named child of `n`, if it has kind `k`; else -1.
pub open spec fn first_named_if(t: &SyntaxTree, n: int, k: Seq<char>) -> int {
    if t.named_kids(n).len() > 0 && t.kind(t.named_kids(n)[0] as int) == k {
        t.named_kids(n)[0] as int
    } else {
        -1
    }
}

/// The value of a quoted string literal node.
pub open spec fn string_value(t: &SyntaxTree, n: int) -> Option<Seq<char>> {
    let v = t.text_of(n);
    if t.kind(n) != "string"@ || t.nodes@[n].has_error || v.len() < 2 {
        None
    } else if (v[0] == '\'' && v.last() == '\'') || (v[0] == '"' && v.last() == '"') {
        Some(v.subrange(1, v.len() - 1))
    } else {
        None
    }
}

/// The provider a string literal module specifier names.
pub open spec fn specifier_provider(t: &SyntaxTree, s: Option<usize>) -> Option<JsProvider> {
    match s {
        Some(x) => match string_value(t, x as int) {
            Some(v) => provider_of(v),
            None => None,
        },
        None => None,
    }
}

// ── Binding patterns ───────────────────────────────────────────────────

pub open spec fn field_seq(o: Option<usize>) -> Seq<usize> {
    match o {
        Some(x) => seq![x],
        None => seq![],
    }
}

/// The nodes a binding pattern is made of, one level down.
pub open spec fn pattern_next(t: &SyntaxTree, n: int) -> Seq<usize> {
    let k = t.kind(n);
    if k == "pair_pattern"@ {
        field_seq(t.field(n, "value"@))
    } else if k == "assignment_pattern"@ || k == "object_assignment_pattern"@ {
        field_seq(t.field(n, "left"@))
    } else if k == "required_parameter"@ || k == "optional_parameter"@ {
        field_seq(t.field(n, "pattern"@))
    } else if k == "object_pattern"@ || k == "array_pattern"@ || k == "rest_pattern"@ || k
        == "formal_parameters"@ || k == "parenthesized_expression"@ {
        t.named_kids(n)
    } else {
        seq![]
    }
}

/// The names a binding pattern binds, in preorder.
pub open spec fn pattern_names(t: &SyntaxTree, n: int) -> Seq<Seq<char>>
    decreases t.len() - n, pattern_next(t, n).len() + 1,
{
    if n < 0 || n >= t.len() {
        seq![]
    } else {
        (if t.kind(n) == "identifier"@ || t.kind(n) == "shorthand_property_identifier_pattern"@ {
            seq![t.text_of(n)]
        } else {
            seq![]
        }) + pattern_names_list(t, n, pattern_next(t, n).len() as int)
    }
}

pub open spec fn pattern_names_list(t: &SyntaxTree, n: int, i: int) -> Seq<Seq<char>>
    decreases t.len() - n, i,
{
    if i <= 0 || i > pattern_next(t, n).len() {
        seq![]
    } else {
        let c = pattern_next(t, n)[i - 1] as int;
        pattern_names_list(t, n, i - 1) + if n < c < t.len() {
            pattern_names(t, c)
        } else {
            seq![]
        }
    }
}

pub open spec fn unwrapping(k: Seq<char>) -> bool {
    k == "member_expression"@ || k == "subscript_expression"@ || k == "pair_pattern"@ || k
        == "assignment_pattern"@ || k == "object_assignment_pattern"@ || k == "object_pattern"@
        || k == "array_pattern"@ || k == "rest_pattern"@ || k == "parenthesized_expression"@
}

/// The nodes an assignment target is made of, one level down.
pub open spec fn target_next(t: &SyntaxTree, n: int) -> Seq<usize> {
    let k = t.kind(n);
    if k == "member_expression"@ || k == "subscript_expression"@ {
        field_seq(t.field(n, "object"@))
    } else if k == "pair_pattern"@ {
        field_seq(t.field(n, "value"@))
    } else if k == "assignment_pattern"@ || k == "object_assignment_pattern"@ {
        field_seq(t.field(n, "left"@))
    } else if k == "object_pattern"@ || k == "array_pattern"@ || k == "rest_pattern"@ || k
        == "parenthesized_expression"@ {
        t.named_kids(n)
    } else {
        seq![]
    }
}

/// The names an assignment to the target `n` rebinds.
pub open spec fn assignment_names(t: &SyntaxTree, n: int) -> Seq<Seq<char>>
    decreases t.len() - n, target_next(t, n).len() + 1,
{
    if n < 0 || n >= t.len() {
        seq![]
    } else {
        (if unwrapping(t.kind(n)) {
            seq![]
        } else {
            pattern_names(t, n)
        }) + assignment_names_list(t, n, target_next(t, n).len() as int)
    }
}

pub open spec fn assignment_names_list(t: &SyntaxTree, n: int, i: int) -> Seq<Seq<char>>
    decreases t.len() - n, i,
{
    if i <= 0 || i > target_next(t, n).len() {
        seq![]
    } else {
        let c = target_next(t, n)[i - 1] as int;
        assignment_names_list(t, n, i - 1) + if n < c < t.len() {
            assignment_names(t, c)
        } else {
            seq![]
        }
    }
}

// ── Declarations ───────────────────────────────────────────────────────

/// Plain local declarations of `names`, visible in `sc`.
pub open spec fn locals(names: Seq<Seq<char>>, sc: (int, int)) -> Seq<JsDecl> {
    names.map_values(|nm: Seq<char>| (nm, sc.0, sc.1, 0int, None::<JsBinding>, None::<int>))
}

pub open spec fn local(name: Seq<char>, sc: (int, int)) -> JsDecl {
    (name, sc.0, sc.1, 0, None, None)
}

/// The parameters a function-like node declares, visible in the node.
pub open spec fn parameter_declarations(t: &SyntaxTree, n: int) -> Seq<JsDecl> {
    let p = match t.field(n, "parameters"@) {
        Some(x) => Some(x),
        None => t.field(n, "parameter"@),
    };
    match p {
        Some(x) => locals(pattern_names(t, x as int), range_of(t, n)),
        None => seq![],
    }
}

/// The provider an import statement names, where the import is sound and
/// not type-only.
pub open spec fn import_provider(t: &SyntaxTree, n: int, source: Option<usize>) -> Option<JsProvider> {
    if valid(t, n) && !type_only(t, n) {
        specifier_provider(t, source)
    } else {
        None
    }
}

/// The declaration one import specifier makes.
pub open spec fn specifier_declaration(
    t: &SyntaxTree,
    n: int,
    spec: int,
    provider: Option<JsProvider>,
) -> Seq<JsDecl> {
    match t.field(spec, "name"@) {
        None => seq![],
        Some(imported) => {
            let name = match t.field(spec, "alias"@) {
                Some(a) => a,
                None => imported,
            };
            let value = match provider {
                Some(p) => if type_only(t, spec) {
                    None
                } else {
                    match canonical_api(p, t.text_of(imported as int)) {
                        Some(api) => Some(JsBinding::Api(p, api)),
                        None => None,
                    }
                },
                None => None,
            };
            seq![(t.text_of(name as int), lexical_scope(t, n, false).0, lexical_scope(t, n, false).1, 0, value, None)]
        },
    }
}

/// The declarations of the import specifiers `ks[..i]`.
pub open spec fn specifiers_upto(
    t: &SyntaxTree,
    n: int,
    ks: Seq<usize>,
    i: int,
    provider: Option<JsProvider>,
) -> Seq<JsDecl>
    decreases i,
{
    if i <= 0 || i > ks.len() {
        seq![]
    } else {
        specifiers_upto(t, n, ks, i - 1, provider) + if t.kind(ks[i - 1] as int)
            == "import_specifier"@ {
            specifier_declaration(t, n, ks[i - 1] as int, provider)
        } else {
            seq![]
        }
    }
}

/// The declarations one item of an import clause makes.
pub open spec fn clause_item(t: &SyntaxTree, n: int, item: int, provider: Option<JsProvider>) -> Seq<
    JsDecl,
> {
    let sc = lexical_scope(t, n, false);
    let k = t.kind(item);
    if k == "identifier"@ {
        let value = if provider == Some(JsProvider::Node) {
            Some(JsBinding::NodeDefault)
        } else {
            None
        };
        seq![(t.text_of(item), sc.0, sc.1, 0, value, None)]
    } else if k == "namespace_import"@ {
        if t.named_kids(item).len() > 0 {
            let value = match provider {
                Some(p) => Some(JsBinding::Namespace(p)),
                None => None,
            };
            seq![(t.text_of(t.named_kids(item)[0] as int), sc.0, sc.1, 0, value, None)]
        } else {
            seq![]
        }
    } else if k == "named_imports"@ {
        specifiers_upto(t, n, t.named_kids(item), t.named_kids(item).len() as int, provider)
    } else {
        seq![]
    }
}

pub open spec fn clause_upto(t: &SyntaxTree, n: int, ks: Seq<usize>, i: int, provider: Option<JsProvider>) -> Seq<
    JsDecl,
>
    decreases i,
{
    if i <= 0 || i > ks.len() {
        seq![]
    } else {
        clause_upto(t, n, ks, i - 1, provider) + clause_item(t, n, ks[i - 1] as int, provider)
    }
}

/// The declarations of an import statement.
pub open spec fn import_declarations(t: &SyntaxTree, n: int) -> Seq<JsDecl> {
    let rc = named_kid_of_kind(t, n, "import_require_clause"@, 0);
    if rc >= 0 {
        let value = match import_provider(t, n, t.field(rc, "source"@)) {
            Some(p) => if p == JsProvider::Node {
                Some(JsBinding::NodeDefault)
            } else {
                Some(JsBinding::Namespace(p))
            },
            None => None,
        };
        let first = first_named_if(t, rc, "identifier"@);
        if first < 0 {
            seq![]
        } else {
            let sc = lexical_scope(t, n, false);
            seq![
                (
                    t.text_of(first),
                    sc.0,
                    sc.1,
                    t.nodes@[n].end as int,
                    value,
                    Some(t.nodes@[n].start as int),
                ),
            ]
        }
    } else {
        let provider = import_provider(t, n, t.field(n, "source"@));
        let clause = named_kid_of_kind(t, n, "import_clause"@, 0);
        if clause < 0 {
            seq![]
        } else {
            clause_upto(
                t,
                n,
                t.named_kids(clause),
                t.named_kids(clause).len() as int,
                provider,
            )
        }
    }
}

/// The arguments of a call, comments left out.
pub open spec fn arguments(t: &SyntaxTree, call: int) -> Seq<usize> {
    match t.field(call, "arguments"@) {
        Some(a) => non_comments(t, t.named_kids(a as int)),
        None => seq![],
    }
}

pub open spec fn non_comments(t: &SyntaxTree, ks: Seq<usize>) -> Seq<usize>
    decreases ks.len(),
{
    if ks.len() == 0 {
        seq![]
    } else {
        non_comments(t, ks.drop_last()) + if t.kind(ks.last() as int) != "comment"@ {
            seq![ks.last()]
        } else {
            seq![]
        }
    }
}

/// `require('<provider>')`, possibly with one member selected: the
/// provider, the selected member, and where the call starts.
pub open spec fn required_provider(t: &SyntaxTree, value: int) -> Option<(JsProvider, Option<Seq<char>>, int)> {
    let member = t.kind(value) == "member_expression"@;
    let call = if member {
        t.field(value, "object"@)
    } else {
        Some(value as usize)
    };
    let selected = if member {
        match t.field(value, "property"@) {
            Some(p) => Some(t.text_of(p as int)),
            None => None,
        }
    } else {
        None
    };
    match call {
        None => None,
        Some(c) => if member && selected is None {
            None
        } else if t.kind(c as int) != "call_expression"@ {
            None
        } else {
            match t.field(c as int, "function"@) {
                None => None,
                Some(callee) => {
                    let args = arguments(t, c as int);
                    if t.kind(callee as int) != "identifier"@ || t.text_of(callee as int)
                        != "require"@ || args.len() != 1 {
                        None
                    } else {
                        match string_value(t, args[0] as int) {
                            Some(v) => match provider_of(v) {
                                Some(p) => Some((p, selected, t.nodes@[c as int].start as int)),
                                None => None,
                            },
                            None => None,
                        }
                    }
                },
            }
        },
    }
}

/// The member name `name` takes from a destructured object pattern item.
pub open spec fn item_api(t: &SyntaxTree, item: int, name: Seq<char>) -> Option<Seq<char>> {
    let k = t.kind(item);
    if k == "shorthand_property_identifier_pattern"@ {
        if t.text_of(item) == name {
            Some(name)
        } else {
            None
        }
    } else if k == "object_assignment_pattern"@ {
        match t.field(item, "left"@) {
            Some(l) => if t.text_of(l as int) == name {
                Some(name)
            } else {
                None
            },
            None => None,
        }
    } else if k == "pair_pattern"@ {
        let v = match t.field(item, "value"@) {
            Some(v) => if t.kind(v as int) == "assignment_pattern"@ {
                t.field(v as int, "left"@)
            } else {
                Some(v)
            },
            None => None,
        };
        match v {
            Some(v) => if t.kind(v as int) == "identifier"@ && t.text_of(v as int) == name {
                match t.field(item, "key"@) {
                    Some(key) => if t.kind(key as int) == "property_identifier"@ {
                        Some(t.text_of(key as int))
                    } else {
                        None
                    },
                    None => None,
                }
            } else {
                None
            },
            None => None,
        }
    } else {
        None
    }
}

/// The API the first fitting item of a destructuring pattern names.
pub open spec fn destructured_api(t: &SyntaxTree, ks: Seq<usize>, j: int, name: Seq<char>, p: JsProvider) -> Option<
    JsBinding,
>
    decreases ks.len() - j,
{
    if j < 0 || j >= ks.len() {
        None
    } else {
        match item_api(t, ks[j] as int, name) {
            Some(api) => match canonical_api(p, api) {
                Some(a) => Some(JsBinding::Api(p, a)),
                None => destructured_api(t, ks, j + 1, name, p),
            },
            None => destructured_api(t, ks, j + 1, name, p),
        }
    }
}

/// What the name `name` bound by `pattern` stands for, given the required
/// provider.
pub open spec fn required_binding(
    t: &SyntaxTree,
    pattern: int,
    name: Seq<char>,
    required: Option<(JsProvider, Option<Seq<char>>, int)>,
) -> Option<JsBinding> {
    match required {
        None => None,
        Some(r) => {
            let p = r.0;
            if t.kind(pattern) == "identifier"@ {
                match r.1 {
                    Some(api) => match canonical_api(p, api) {
                        Some(a) => Some(JsBinding::Api(p, a)),
                        None => None,
                    },
                    None => if p == JsProvider::Node {
                        Some(JsBinding::NodeDefault)
                    } else {
                        Some(JsBinding::Namespace(p))
                    },
                }
            } else if t.kind(pattern) == "object_pattern"@ && r.1 is None {
                destructured_api(t, t.named_kids(pattern), 0, name, p)
            } else {
                None
            }
        },
    }
}

/// The declarations of a variable declarator.
pub open spec fn variable_declarations(t: &SyntaxTree, n: int) -> Seq<JsDecl> {
    match t.field(n, "name"@) {
        None => seq![],
        Some(pattern) => {
            let var = match t.nodes@[n].parent {
                Some(p) => t.kind(p as int) == "variable_declaration"@,
                None => false,
            };
            let sc = lexical_scope(t, n, var);
            let required = match t.field(n, "value"@) {
                Some(v) => if valid(t, n) {
                    required_provider(t, v as int)
                } else {
                    None
                },
                None => None,
            };
            let at = match required {
                Some(r) => Some(r.2),
                None => None,
            };
            pattern_names(t, pattern as int).map_values(
                |nm: Seq<char>|
                    (
                        nm,
                        sc.0,
                        sc.1,
                        t.nodes@[n].end as int,
                        required_binding(t, pattern as int, nm, required),
                        at,
                    ),
            )
        },
    }
}

pub open spec fn declares_named(k: Seq<char>) -> bool {
    k == "class_declaration"@ || k == "function_declaration"@ || k
        == "generator_function_declaration"@ || k == "enum_declaration"@ || k
        == "internal_module"@ || k == "module"@
}

/// The declarations node `n` makes.
pub open spec fn declarations(t: &SyntaxTree, n: int) -> Seq<JsDecl> {
    let k = t.kind(n);
    if k == "import_statement"@ {
        import_declarations(t, n)
    } else if k == "import_alias"@ {
        let x = first_named_if(t, n, "identifier"@);
        if x < 0 {
            seq![]
        } else {
            seq![local(t.text_of(x), lexical_scope(t, n, false))]
        }
    } else if k == "variable_declarator"@ {
        variable_declarations(t, n)
    } else if k == "class"@ {
        match t.field(n, "name"@) {
            Some(x) => seq![local(t.text_of(x as int), range_of(t, n))],
            None => seq![],
        }
    } else if k == "catch_clause"@ {
        match t.field(n, "parameter"@) {
            Some(p) => locals(pattern_names(t, p as int), range_of(t, n)),
            None => seq![],
        }
    } else if declares_named(k) {
        parameter_declarations(t, n) + match t.field(n, "name"@) {
            Some(x) => seq![local(t.text_of(x as int), lexical_scope(t, n, false))],
            None => seq![],
        }
    } else if k == "function_expression"@ || k == "generator_function"@ || k == "arrow_function"@
        || k == "method_definition"@ {
        parameter_declarations(t, n) + if k == "function_expression"@ || k
            == "generator_function"@ {
            match t.field(n, "name"@) {
                Some(x) => seq![local(t.text_of(x as int), range_of(t, n))],
                None => seq![],
            }
        } else {
            seq![]
        }
    } else if k == "for_in_statement"@ && declares_with_keyword(t, n) {
        let sc = if some_child_kind(t, n, "var"@) {
            lexical_scope(t, n, true)
        } else {
            range_of(t, n)
        };
        match t.field(n, "left"@) {
            Some(p) => locals(pattern_names(t, p as int), sc),
            None => seq![],
        }
    } else {
        seq![]
    }
}

pub open spec fn declarations_upto(t: &SyntaxTree, i: int) -> Seq<JsDecl>
    decreases i,
{
    if i <= 0 {
        seq![]
    } else {
        declarations_upto(t, i - 1) + if t.nodes@[i - 1].named {
            declarations(t, i - 1)
        } else {
            seq![]
        }
    }
}

/// The target an assignment-like node `n` rebinds, if any.
pub open spec fn assigned_target(t: &SyntaxTree, n: int) -> Option<usize> {
    let k = t.kind(n);
    if k == "assignment_expression"@ || k == "augmented_assignment_expression"@ {
        t.field(n, "left"@)
    } else if k == "for_in_statement"@ && !declares_with_keyword(t, n) {
        t.field(n, "left"@)
    } else if k == "unary_expression"@ {
        match t.field(n, "operator"@) {
            Some(op) => if t.kind(op as int) == "delete"@ {
                t.field(n, "argument"@)
            } else {
                None
            },
            None => None,
        }
    } else if k == "update_expression"@ {
        match t.field(n, "argument"@) {
            Some(a) => Some(a),
            None => if t.named_kids(n).len() > 0 {
                Some(t.named_kids(n)[0])
            } else {
                None
            },
        }
    } else {
        None
    }
}

/// The `(name, position)` pairs that assignments among the first `i` nodes
/// rebind.
pub open spec fn assignments_upto(t: &SyntaxTree, i: int) -> Seq<(Seq<char>, int)>
    decreases i,
{
    if i <= 0 {
        seq![]
    } else {
        assignments_upto(t, i - 1) + if t.nodes@[i - 1].named {
            match assigned_target(t, i - 1) {
                Some(x) => assignment_names(t, x as int).map_values(
                    |nm: Seq<char>| (nm, t.nodes@[x as int].start as int),
                ),
                None => seq![],
            }
        } else {
            seq![]
        }
    }
}

// ── Resolution ─────────────────────────────────────────────────────────

pub open spec fn sees(d: JsDecl, name: Seq<char>, at: int) -> bool {
    d.0 == name && d.1 <= at < d.2
}

/// The length of the narrowest scope among `ds` declaring `name` around
/// `at`, or -1 when none does.
pub open spec fn narrowest(ds: Seq<JsDecl>, name: Seq<char>, at: int) -> int
    decreases ds.len(),
{
    if ds.len() == 0 {
        -1
    } else {
        let m = narrowest(ds.drop_last(), name, at);
        let d = ds.last();
        if sees(d, name, at) && (m < 0 || d.2 - d.1 < m) {
            d.2 - d.1
        } else {
            m
        }
    }
}

/// Whether declaration `d` is one of the innermost visible ones for
/// `name` at `at`.
pub open spec fn innermost(ds: Seq<JsDecl>, d: JsDecl, name: Seq<char>, at: int) -> bool {
    sees(d, name, at) && d.2 - d.1 == narrowest(ds, name, at)
}

/// How many of `ds[..i]` are innermost for `name` at `at`.
pub open spec fn innermost_count(all: Seq<JsDecl>, i: int, name: Seq<char>, at: int) -> nat
    decreases i,
{
    if i <= 0 || i > all.len() {
        0
    } else {
        innermost_count(all, i - 1, name, at) + if innermost(all, all[i - 1], name, at) {
            1nat
        } else {
            0nat
        }
    }
}

/// The first of `ds[..i]` innermost for `name` at `at`, or -1.
pub open spec fn innermost_first(all: Seq<JsDecl>, i: int, name: Seq<char>, at: int) -> int
    decreases i,
{
    if i <= 0 || i > all.len() {
        -1
    } else if innermost_first(all, i - 1, name, at) >= 0 {
        innermost_first(all, i - 1, name, at)
    } else if innermost(all, all[i - 1], name, at) {
        i - 1
    } else {
        -1
    }
}

/// An assignment rebinds `require` where no declaration of it is visible.
pub open spec fn loader_reassigned(ds: Seq<JsDecl>, asg: Seq<(Seq<char>, int)>) -> bool {
    exists|j: int|
        0 <= j < asg.len() && (#[trigger] asg[j]).0 == "require"@ && narrowest(
            ds,
            "require"@,
            asg[j].1,
        ) < 0
}

/// A declaration whose value no longer holds: made through a `require`
/// that is shadowed or reassigned, or rebound by an assignment.
pub open spec fn invalid(ds: Seq<JsDecl>, asg: Seq<(Seq<char>, int)>, i: int) -> bool {
    ||| (ds[i].5 matches Some(at) && (loader_reassigned(ds, asg) || narrowest(ds, "require"@, at)
        >= 0))
    ||| exists|j: int| 0 <= j < asg.len() && innermost(ds, ds[i], (#[trigger] asg[j]).0, asg[j].1)
}

/// What `name`, used at `at`, stands for.
pub open spec fn resolve(ds: Seq<JsDecl>, asg: Seq<(Seq<char>, int)>, name: Seq<char>, at: int) -> Option<
    JsBinding,
> {
    let i = innermost_first(ds, ds.len() as int, name, at);
    if innermost_count(ds, ds.len() as int, name, at) != 1 || i < 0 {
        None
    } else if ds[i].3 <= at && !invalid(ds, asg, i) {
        ds[i].4
    } else {
        None
    }
}

// ── Calls ──────────────────────────────────────────────────────────────

/// The next link of a callee chain, towards its root.
pub open spec fn link_next(t: &SyntaxTree, n: int) -> Option<usize> {
    if t.kind(n) == "member_expression"@ {
        t.field(n, "object"@)
    } else if t.kind(n) == "call_expression"@ {
        t.field(n, "function"@)
    } else {
        None
    }
}

/// The callee chain from `n` towards its root, at most `k` links.
pub open spec fn chain(t: &SyntaxTree, n: int, k: nat) -> Seq<int>
    decreases k,
{
    if k == 0 || n < 0 || n >= t.len() {
        seq![]
    } else {
        seq![n] + match link_next(t, n) {
            Some(x) => chain(t, x as int, (k - 1) as nat),
            None => seq![],
        }
    }
}

pub open spec fn tagged_template(t: &SyntaxTree, call: int) -> bool {
    match t.field(call, "arguments"@) {
        Some(a) => t.kind(a as int) == "template_string"@,
        None => false,
    }
}

/// Replay the links `ch[..=i]` outwards from the root: the member names
/// met, and whether an `.each(...)` call closed them.
pub open spec fn replay(t: &SyntaxTree, ch: Seq<int>, i: int) -> Option<(Seq<Seq<char>>, bool)>
    decreases ch.len() - i,
{
    if i < 0 || i >= ch.len() - 1 {
        Some((seq![], false))
    } else {
        match replay(t, ch, i + 1) {
            None => None,
            Some(v) => {
                let link = ch[i];
                if t.kind(link) == "member_expression"@ {
                    if v.1 {
                        None
                    } else {
                        match t.field(link, "property"@) {
                            Some(p) => Some((v.0.push(t.text_of(p as int)), false)),
                            None => None,
                        }
                    }
                } else if v.1 || v.0.len() == 0 || v.0.last() != "each"@ || !(tagged_template(
                    t,
                    link,
                ) || arguments(t, link).len() == 1) {
                    None
                } else {
                    Some((v.0, true))
                }
            },
        }
    }
}

/// A callee: its root name, the member names after it, and whether an
/// `.each(...)` call closes it.
pub open spec fn callee(t: &SyntaxTree, n: int) -> Option<(Seq<char>, Seq<Seq<char>>, bool)> {
    let ch = chain(t, n, 10);
    if ch.len() > 9 || ch.len() == 0 || t.kind(ch.last()) != "identifier"@ {
        None
    } else {
        match replay(t, ch, 0) {
            Some(v) => Some((t.text_of(ch.last()), v.0, v.1)),
            None => None,
        }
    }
}

pub open spec fn one(a: Seq<char>) -> Seq<Seq<char>> {
    seq![a]
}

pub open spec fn two(a: Seq<char>, b: Seq<char>) -> Seq<Seq<char>> {
    seq![a, b]
}

pub open spec fn three(a: Seq<char>, b: Seq<char>, c: Seq<char>) -> Seq<Seq<char>> {
    seq![a, b, c]
}

pub open spec fn vitest_option(s: Seq<char>) -> bool {
    s == "only"@ || s == "skip"@ || s == "concurrent"@
}

pub open spec fn vitest_options(o: Seq<Seq<char>>) -> bool {
    &&& forall|i: int| 0 <= i < o.len() ==> vitest_option(#[trigger] o[i])
    &&& forall|i: int, j: int| 0 <= i < j < o.len() ==> #[trigger] o[i] != #[trigger] o[j]
    &&& !(o.contains("only"@) && o.contains("skip"@))
}

/// Whether the members after the API are modifiers the provider accepts.
pub open spec fn modifiers_valid(p: JsProvider, api: JsApi, parts: Seq<Seq<char>>, each: bool) -> bool {
    if !is_suite_or_test(api) {
        parts.len() == 0 && !each
    } else if parts.contains("each"@) != each {
        false
    } else if p == JsProvider::Node || p == JsProvider::Mocha {
        parts.len() == 0 || parts == one("only"@) || parts == one("skip"@)
    } else if p == JsProvider::Jest {
        ||| parts.len() == 0 || parts == one("only"@) || parts == one("skip"@) || parts == one(
            "each"@,
        ) || parts == two("only"@, "each"@) || parts == two("skip"@, "each"@)
        ||| (api == JsApi::Test || api == JsApi::It) && (parts == one("concurrent"@) || parts == two(
            "concurrent"@,
            "only"@,
        ) || parts == two("concurrent"@, "skip"@) || parts == two("concurrent"@, "each"@)
            || parts == three("concurrent"@, "only"@, "each"@) || parts == three(
            "concurrent"@,
            "skip"@,
            "each"@,
        ))
    } else {
        vitest_options(
            if each && parts.len() > 0 {
                parts.drop_last()
            } else {
                parts
            },
        )
    }
}

pub open spec fn is_callback(t: &SyntaxTree, n: int) -> bool {
    t.kind(n) == "arrow_function"@ || t.kind(n) == "function_expression"@ || t.kind(n)
        == "generator_function"@
}

/// `n` with enclosing parentheses removed, or -1 for empty ones.
pub open spec fn unparen(t: &SyntaxTree, n: int) -> int
    decreases t.len() - n,
{
    if n < 0 || n >= t.len() {
        -1
    } else if t.kind(n) == "parenthesized_expression"@ {
        if t.named_kids(n).len() > 0 && n < t.named_kids(n)[0] < t.len() {
            unparen(t, t.named_kids(n)[0] as int)
        } else {
            -1
        }
    } else {
        n
    }
}

pub open spec fn literal_kind(k: Seq<char>) -> bool {
    k == "string"@ || k == "template_string"@ || k == "number"@ || k == "object"@ || k == "array"@
        || k == "true"@ || k == "false"@ || k == "null"@ || k == "regex"@ || k == "arrow_function"@
        || k == "function_expression"@ || k == "generator_function"@
}

/// Whether an argument fits a slot taking strings, objects or numbers;
/// only literals are judged.
pub open spec fn slot_fits(t: &SyntaxTree, n: int, strings: bool, objects: bool, numbers: bool) -> bool {
    let u = unparen(t, n);
    if u < 0 {
        false
    } else {
        let k = t.kind(u);
        if literal_kind(k) {
            (strings && (k == "string"@ || k == "template_string"@)) || (objects && k == "object"@)
                || (numbers && k == "number"@)
        } else {
            k != "spread_element"@
        }
    }
}

pub open spec fn name_fits(t: &SyntaxTree, n: int) -> bool {
    slot_fits(t, n, true, false, false)
}

/// The position, among the arguments, of the callback a call of `api`
/// takes.
pub open spec fn callback_index(t: &SyntaxTree, p: JsProvider, api: JsApi, args: Seq<usize>) -> int {
    let n = args.len();
    if !is_suite_or_test(api) {
        if p == JsProvider::Mocha && n == 2 && !is_callback(t, args[0] as int) {
            1
        } else if 1 <= n <= 2 {
            0
        } else {
            -1
        }
    } else if p == JsProvider::Node && 1 <= n <= 3 {
        n - 1
    } else if p == JsProvider::Vitest && n == 3 && !is_callback(t, args[1] as int) {
        2
    } else if (p == JsProvider::Jest || p == JsProvider::Vitest) && 2 <= n <= 3 {
        1
    } else if p == JsProvider::Mocha && n == 2 {
        1
    } else {
        -1
    }
}

/// Whether the other arguments fit the API's signature.
pub open spec fn slots_valid(t: &SyntaxTree, p: JsProvider, api: JsApi, args: Seq<usize>, index: int) -> bool {
    let n = args.len();
    if !is_suite_or_test(api) {
        if n == 1 {
            true
        } else if n == 2 && p == JsProvider::Mocha {
            name_fits(t, args[0] as int)
        } else if n == 2 && p == JsProvider::Node {
            slot_fits(t, args[1] as int, false, true, false)
        } else if n == 2 {
            slot_fits(t, args[1] as int, false, false, true)
        } else {
            false
        }
    } else if p == JsProvider::Node {
        if n == 1 {
            true
        } else if n == 2 {
            slot_fits(t, args[0] as int, true, true, false)
        } else if n == 3 {
            name_fits(t, args[0] as int) && slot_fits(t, args[1] as int, false, true, false)
        } else {
            false
        }
    } else if p == JsProvider::Vitest {
        if n == 3 && index == 2 {
            (name_fits(t, args[0] as int) || is_callback(t, args[0] as int)) && slot_fits(
                t,
                args[1] as int,
                false,
                true,
                false,
            )
        } else if n == 3 {
            (name_fits(t, args[0] as int) || is_callback(t, args[0] as int)) && slot_fits(
                t,
                args[2] as int,
                false,
                false,
                true,
            )
        } else if n == 2 {
            name_fits(t, args[0] as int) || is_callback(t, args[0] as int)
        } else {
            false
        }
    } else if p == JsProvider::Jest {
        if n == 3 {
            !is_callback(t, args[0] as int) && slot_fits(t, args[2] as int, false, false, true)
        } else if n == 2 {
            !is_callback(t, args[0] as int)
        } else {
            false
        }
    } else {
        n == 2 && name_fits(t, args[0] as int)
    }
}

/// The callback argument of a call of `api`, if the call fits.
pub open spec fn callback_argument(t: &SyntaxTree, p: JsProvider, api: JsApi, args: Seq<usize>) -> int {
    let index = callback_index(t, p, api, args);
    if index < 0 || index >= args.len() {
        -1
    } else if is_callback(t, args[index] as int) && slots_valid(t, p, api, args, index) {
        args[index] as int
    } else {
        -1
    }
}

/// The provider, API and modifiers a resolved callee names.
pub open spec fn api_call(b: JsBinding, parts: Seq<Seq<char>>) -> Option<(JsProvider, JsApi, Seq<Seq<char>>)> {
    match b {
        JsBinding::Api(p, a) => Some((p, a, parts)),
        JsBinding::Namespace(p) => if parts.len() == 0 {
            None
        } else {
            match canonical_api(p, parts[0]) {
                Some(a) => Some((p, a, parts.drop_first())),
                None => None,
            }
        },
        JsBinding::NodeDefault => if parts.len() > 0 && canonical_api(JsProvider::Node, parts[0]) is Some {
            Some((JsProvider::Node, canonical_api(JsProvider::Node, parts[0])->0, parts.drop_first()))
        } else {
            Some((JsProvider::Node, JsApi::Test, parts))
        },
    }
}

/// The callback node a call of a test API hands over, or -1.
pub open spec fn test_callback(t: &SyntaxTree, call: int, ds: Seq<JsDecl>, asg: Seq<(Seq<char>, int)>) -> int {
    match t.field(call, "function"@) {
        None => -1,
        Some(f) => match callee(t, f as int) {
            None => -1,
            Some(c) => match resolve(ds, asg, c.0, t.nodes@[call].start as int) {
                None => -1,
                Some(b) => match api_call(b, c.1) {
                    None => -1,
                    Some(x) => if modifiers_valid(x.0, x.1, x.2, c.2) {
                        callback_argument(t, x.0, x.1, arguments(t, call))
                    } else {
                        -1
                    },
                },
            },
        },
    }
}

pub open spec fn js_spans_upto(t: &SyntaxTree, ds: Seq<JsDecl>, asg: Seq<(Seq<char>, int)>, i: int) -> Seq<Span>
    decreases i,
{
    if i <= 0 {
        seq![]
    } else {
        let n = i - 1;
        let cb = test_callback(t, n, ds, asg);
        js_spans_upto(t, ds, asg, i - 1) + if t.nodes@[n].named && t.kind(n) == "call_expression"@
            && 0 <= cb < t.len() && valid(t, n) {
            seq![(t.nodes@[cb].start, t.nodes@[cb].end)]
        } else {
            seq![]
        }
    }
}

/// The character ranges of the test callbacks of a JavaScript or
/// TypeScript file, in preorder of their calls.
pub open spec fn javascript_test_spans(t: &SyntaxTree) -> Seq<Span> {
    js_spans_upto(t, declarations_upto(t, t.len()), assignments_upto(t, t.len()), t.len())
}

// ── Catalog and tree helpers, executable ───────────────────────────────

fn provider_exec(s: &[char]) -> (r: Option<JsProvider>)
    ensures
        r == provider_of(s@),
{
    if chars_eq_str(s, "@jest/globals") {
        Some(JsProvider::Jest)
    } else if chars_eq_str(s, "vitest") {
        Some(JsProvider::Vitest)
    } else if chars_eq_str(s, "mocha") {
        Some(JsProvider::Mocha)
    } else if chars_eq_str(s, "node:test") {
        Some(JsProvider::Node)
    } else {
        None
    }
}

fn is_provider(p: JsProvider, q: JsProvider) -> (r: bool)
    ensures
        r == (p == q),
{
    match (p, q) {
        (JsProvider::Jest, JsProvider::Jest) => true,
        (JsProvider::Vitest, JsProvider::Vitest) => true,
        (JsProvider::Mocha, JsProvider::Mocha) => true,
        (JsProvider::Node, JsProvider::Node) => true,
        _ => false,
    }
}

fn canonical_api_exec(p: JsProvider, s: &[char]) -> (r: Option<JsApi>)
    ensures
        r == canonical_api(p, s@),
{
    let mocha_like = is_provider(p, JsProvider::Mocha) || is_provider(p, JsProvider::Node);
    let jest_like = is_provider(p, JsProvider::Jest) || is_provider(p, JsProvider::Vitest);
    if chars_eq_str(s, "test") {
        Some(JsApi::Test)
    } else if chars_eq_str(s, "it") {
        Some(JsApi::It)
    } else if chars_eq_str(s, "describe") {
        Some(JsApi::Describe)
    } else if chars_eq_str(s, "suite") && !is_provider(p, JsProvider::Jest) {
        Some(JsApi::Suite)
    } else if chars_eq_str(s, "beforeAll") && jest_like {
        Some(JsApi::BeforeAll)
    } else if chars_eq_str(s, "afterAll") && jest_like {
        Some(JsApi::AfterAll)
    } else if chars_eq_str(s, "beforeEach") {
        Some(JsApi::BeforeEach)
    } else if chars_eq_str(s, "afterEach") {
        Some(JsApi::AfterEach)
    } else if chars_eq_str(s, "before") && mocha_like {
        Some(JsApi::Before)
    } else if chars_eq_str(s, "after") && mocha_like {
        Some(JsApi::After)
    } else {
        None
    }
}

fn suite_or_test_exec(a: JsApi) -> (r: bool)
    ensures
        r == is_suite_or_test(a),
{
    match a {
        JsApi::Test | JsApi::It | JsApi::Describe | JsApi::Suite => true,
        _ => false,
    }
}

fn is_function_exec(t: &SyntaxTree, n: usize) -> (r: bool)
    requires
        t.valid(n as int),
    ensures
        r == is_function(t.kind(n as int)),
{
    t.kind_is(n, "function_declaration") || t.kind_is(n, "generator_function_declaration")
        || t.kind_is(n, "function_expression") || t.kind_is(n, "generator_function") || t.kind_is(
        n,
        "arrow_function",
    ) || t.kind_is(n, "method_definition")
}

fn closes_scope_exec(t: &SyntaxTree, n: usize, var: bool) -> (r: bool)
    requires
        t.valid(n as int),
    ensures
        r == closes_scope(t.kind(n as int), var),
{
    t.kind_is(n, "program") || t.kind_is(n, "internal_module") || t.kind_is(n, "module")
        || is_function_exec(t, n) || (!var && (t.kind_is(n, "statement_block") || t.kind_is(
        n,
        "for_statement",
    ) || t.kind_is(n, "for_in_statement") || t.kind_is(n, "switch_body") || t.kind_is(
        n,
        "catch_clause",
    )))
}

fn range_exec(t: &SyntaxTree, n: usize) -> (r: (usize, usize))
    requires
        t.wf(),
        t.valid(n as int),
    ensures
        (r.0 as int, r.1 as int) == range_of(t, n as int),
        r.0 <= r.1,
{
    assert(t.node_wf(n as int));
    (t.nodes[n].start, t.nodes[n].end)
}

fn lexical_scope_exec(t: &SyntaxTree, n: usize, var: bool) -> (r: (usize, usize))
    requires
        t.wf(),
        t.valid(n as int),
    ensures
        (r.0 as int, r.1 as int) == lexical_scope(t, n as int, var),
        r.0 <= r.1,
{
    let mut cur = t.parent_of(n);
    loop
        invariant
            t.wf(),
            t.valid(n as int),
            cur matches Some(p) ==> p < n,
            scope_node_from(t, parent_index(t, n as int), var) == match cur {
                Some(p) => scope_node_from(t, p as int, var),
                None => -1,
            },
        decreases match cur {
            Some(p) => p + 1,
            None => 0,
        },
    {
        match cur {
            None => {
                return range_exec(t, n);
            },
            Some(p) => {
                assert(t.node_wf(p as int));
                if closes_scope_exec(t, p, var) {
                    return range_exec(t, p);
                }
                assert(p > 0 ==> t.nodes@[p as int].parent is Some);
                assert(parent_index(t, p as int) < p);
                assert(scope_node_from(t, p as int, var) == scope_node_from(
                    t,
                    parent_index(t, p as int),
                    var,
                ));
                cur = t.parent_of(p);
            },
        }
    }
}

fn valid_exec(t: &SyntaxTree, n: usize) -> (r: bool)
    requires
        t.wf(),
        t.valid(n as int),
    ensures
        r == valid(t, n as int),
{
    if t.nodes[n].has_error {
        return false;
    }
    let mut cur = t.parent_of(n);
    loop
        invariant
            t.wf(),
            t.valid(n as int),
            !t.nodes@[n as int].has_error,
            cur matches Some(p) ==> p < n,
            bad_above(t, parent_index(t, n as int)) == match cur {
                Some(p) => bad_above(t, p as int),
                None => false,
            },
        decreases match cur {
            Some(p) => p + 1,
            None => 0,
        },
    {
        match cur {
            None => {
                return true;
            },
            Some(p) => {
                assert(t.node_wf(p as int));
                if t.kind_is(p, "ERROR") || t.kind_is(p, "with_statement") {
                    return false;
                }
                assert(p > 0 ==> t.nodes@[p as int].parent is Some);
                assert(parent_index(t, p as int) < p);
                assert(bad_above(t, p as int) == bad_above(t, parent_index(t, p as int)));
                cur = t.parent_of(p);
            },
        }
    }
}

fn some_child_kind_exec(t: &SyntaxTree, n: usize, k: &str) -> (r: bool)
    requires
        t.wf(),
        t.valid(n as int),
    ensures
        r == some_child_kind(t, n as int, k@),
{
    let cnt = t.child_count(n);
    let mut j: usize = 0;
    while j < cnt
        invariant
            t.wf(),
            t.valid(n as int),
            j <= cnt == t.kids(n as int).len(),
            forall|i: int| 0 <= i < j ==> #[trigger] t.kind(t.kids(n as int)[i] as int) != k@,
        decreases cnt - j,
    {
        let c = t.child(n, j);
        if t.kind_is(c, k) {
            assert(t.kind(t.kids(n as int)[j as int] as int) == k@);
            return true;
        }
        j = j + 1;
    }
    false
}

fn declares_with_keyword_exec(t: &SyntaxTree, n: usize) -> (r: bool)
    requires
        t.wf(),
        t.valid(n as int),
    ensures
        r == declares_with_keyword(t, n as int),
{
    some_child_kind_exec(t, n, "const") || some_child_kind_exec(t, n, "let")
        || some_child_kind_exec(t, n, "var")
}

fn named_kid_of_kind_exec(t: &SyntaxTree, n: usize, k: &str) -> (r: Option<usize>)
    requires
        t.wf(),
        t.valid(n as int),
    ensures
        match r {
            Some(c) => c as int == named_kid_of_kind(t, n as int, k@, 0) && t.valid(c as int) && n < c,
            None => named_kid_of_kind(t, n as int, k@, 0) < 0,
        },
{
    let ks = t.named_children(n);
    let mut j: usize = 0;
    while j < ks.len()
        invariant
            t.wf(),
            j <= ks.len(),
            ks@ == t.named_kids(n as int),
            forall|i: int| 0 <= i < ks@.len() ==> n < #[trigger] ks@[i] && t.valid(ks@[i] as int),
            named_kid_of_kind(t, n as int, k@, 0) == named_kid_of_kind(t, n as int, k@, j as int),
        decreases ks.len() - j,
    {
        if t.kind_is(ks[j], k) {
            return Some(ks[j]);
        }
        j = j + 1;
    }
    None
}

fn first_named_if_exec(t: &SyntaxTree, n: usize, k: &str) -> (r: Option<usize>)
    requires
        t.wf(),
        t.valid(n as int),
    ensures
        match r {
            Some(c) => c as int == first_named_if(t, n as int, k@) && t.valid(c as int),
            None => first_named_if(t, n as int, k@) < 0,
        },
{
    let ks = t.named_children(n);
    if ks.len() > 0 && t.kind_is(ks[0], k) {
        Some(ks[0])
    } else {
        None
    }
}

spec fn opt_chars(o: Option<Vec<char>>) -> Option<Seq<char>> {
    match o {
        Some(v) => Some(v@),
        None => None,
    }
}

fn string_value_exec(t: &SyntaxTree, n: usize) -> (r: Option<Vec<char>>)
    requires
        t.wf(),
        t.valid(n as int),
    ensures
        opt_chars(r) == string_value(t, n as int),
{
    let v = t.text(n);
    if !t.kind_is(n, "string") || t.nodes[n].has_error || v.len() < 2 {
        return None;
    }
    let last = v[v.len() - 1];
    if (v[0] == '\'' && last == '\'') || (v[0] == '"' && last == '"') {
        Some(slice_vec(v.as_slice(), 1, v.len() - 1))
    } else {
        None
    }
}

fn specifier_provider_exec(t: &SyntaxTree, s: Option<usize>) -> (r: Option<JsProvider>)
    requires
        t.wf(),
        s matches Some(x) ==> t.valid(x as int),
    ensures
        r == specifier_provider(t, s),
{
    match s {
        Some(x) => match string_value_exec(t, x) {
            Some(v) => provider_exec(v.as_slice()),
            None => None,
        },
        None => None,
    }
}

// ── Binding patterns, executable ───────────────────────────────────────

spec fn names_view(v: Seq<Vec<char>>) -> Seq<Seq<char>> {
    v.map_values(|w: Vec<char>| w@)
}

proof fn lemma_names_push(v: Seq<Vec<char>>, w: Vec<char>)
    ensures
        names_view(v.push(w)) == names_view(v).push(w@),
{
    assert(names_view(v.push(w)) =~= names_view(v).push(w@));
}

fn field_vec(t: &SyntaxTree, n: usize, name: &str) -> (r: Vec<usize>)
    requires
        t.wf(),
        t.valid(n as int),
    ensures
        r@ == field_seq(t.field(n as int, name@)),
        forall|i: int| 0 <= i < r@.len() ==> n < #[trigger] r@[i] && t.valid(r@[i] as int),
{
    let mut r: Vec<usize> = Vec::new();
    match t.field_child(n, name) {
        Some(c) => {
            r.push(c);
            assert(r@ =~= seq![c]);
        },
        None => {
            assert(r@ =~= Seq::<usize>::empty());
        },
    }
    r
}

fn pattern_next_exec(t: &SyntaxTree, n: usize) -> (r: Vec<usize>)
    requires
        t.wf(),
        t.valid(n as int),
    ensures
        r@ == pattern_next(t, n as int),
        forall|i: int| 0 <= i < r@.len() ==> n < #[trigger] r@[i] && t.valid(r@[i] as int),
{
    if t.kind_is(n, "pair_pattern") {
        field_vec(t, n, "value")
    } else if t.kind_is(n, "assignment_pattern") || t.kind_is(n, "object_assignment_pattern") {
        field_vec(t, n, "left")
    } else if t.kind_is(n, "required_parameter") || t.kind_is(n, "optional_parameter") {
        field_vec(t, n, "pattern")
    } else if t.kind_is(n, "object_pattern") || t.kind_is(n, "array_pattern") || t.kind_is(
        n,
        "rest_pattern",
    ) || t.kind_is(n, "formal_parameters") || t.kind_is(n, "parenthesized_expression") {
        t.named_children(n)
    } else {
        let r: Vec<usize> = Vec::new();
        assert(r@ =~= Seq::<usize>::empty());
        r
    }
}

fn pattern_names_exec(t: &SyntaxTree, n: usize, out: &mut Vec<Vec<char>>)
    requires
        t.wf(),
        t.valid(n as int),
    ensures
        names_view(final(out)@) == names_view(old(out)@) + pattern_names(t, n as int),
    decreases t.len() - n,
{
    let ghost start = names_view(out@);
    if t.kind_is(n, "identifier") || t.kind_is(n, "shorthand_property_identifier_pattern") {
        let w = t.text(n);
        proof {
            lemma_names_push(out@, w);
        }
        out.push(w);
    }
    let ghost head = names_view(out@);
    assert(head == start + (if t.kind(n as int) == "identifier"@ || t.kind(n as int)
        == "shorthand_property_identifier_pattern"@ {
        seq![t.text_of(n as int)]
    } else {
        Seq::<Seq<char>>::empty()
    }));
    let next = pattern_next_exec(t, n);
    let mut i: usize = 0;
    assert(names_view(out@) =~= head + pattern_names_list(t, n as int, 0));
    while i < next.len()
        invariant
            t.wf(),
            t.valid(n as int),
            next@ == pattern_next(t, n as int),
            forall|k: int| 0 <= k < next@.len() ==> n < #[trigger] next@[k] && t.valid(next@[k] as int),
            i <= next.len(),
            names_view(out@) == head + pattern_names_list(t, n as int, i as int),
        decreases next.len() - i,
    {
        pattern_names_exec(t, next[i], out);
        assert(names_view(out@) =~= head + pattern_names_list(t, n as int, i + 1));
        i = i + 1;
    }
    assert(names_view(out@) =~= start + pattern_names(t, n as int));
}

fn unwrapping_exec(t: &SyntaxTree, n: usize) -> (r: bool)
    requires
        t.valid(n as int),
    ensures
        r == unwrapping(t.kind(n as int)),
{
    t.kind_is(n, "member_expression") || t.kind_is(n, "subscript_expression") || t.kind_is(
        n,
        "pair_pattern",
    ) || t.kind_is(n, "assignment_pattern") || t.kind_is(n, "object_assignment_pattern")
        || t.kind_is(n, "object_pattern") || t.kind_is(n, "array_pattern") || t.kind_is(
        n,
        "rest_pattern",
    ) || t.kind_is(n, "parenthesized_expression")
}

fn target_next_exec(t: &SyntaxTree, n: usize) -> (r: Vec<usize>)
    requires
        t.wf(),
        t.valid(n as int),
    ensures
        r@ == target_next(t, n as int),
        forall|i: int| 0 <= i < r@.len() ==> n < #[trigger] r@[i] && t.valid(r@[i] as int),
{
    if t.kind_is(n, "member_expression") || t.kind_is(n, "subscript_expression") {
        field_vec(t, n, "object")
    } else if t.kind_is(n, "pair_pattern") {
        field_vec(t, n, "value")
    } else if t.kind_is(n, "assignment_pattern") || t.kind_is(n, "object_assignment_pattern") {
        field_vec(t, n, "left")
    } else if t.kind_is(n, "object_pattern") || t.kind_is(n, "array_pattern") || t.kind_is(
        n,
        "rest_pattern",
    ) || t.kind_is(n, "parenthesized_expression") {
        t.named_children(n)
    } else {
        let r: Vec<usize> = Vec::new();
        assert(r@ =~= Seq::<usize>::empty());
        r
    }
}

fn assignment_names_exec(t: &SyntaxTree, n: usize, out: &mut Vec<Vec<char>>)
    requires
        t.wf(),
        t.valid(n as int),
    ensures
        names_view(final(out)@) == names_view(old(out)@) + assignment_names(t, n as int),
    decreases t.len() - n,
{
    let ghost start = names_view(out@);
    if !unwrapping_exec(t, n) {
        pattern_names_exec(t, n, out);
    }
    let ghost head = names_view(out@);
    let next = target_next_exec(t, n);
    let mut i: usize = 0;
    assert(names_view(out@) =~= head + assignment_names_list(t, n as int, 0));
    while i < next.len()
        invariant
            t.wf(),
            t.valid(n as int),
            next@ == target_next(t, n as int),
            forall|k: int| 0 <= k < next@.len() ==> n < #[trigger] next@[k] && t.valid(next@[k] as int),
            i <= next.len(),
            names_view(out@) == head + assignment_names_list(t, n as int, i as int),
        decreases next.len() - i,
    {
        assignment_names_exec(t, next[i], out);
        assert(names_view(out@) =~= head + assignment_names_list(t, n as int, i + 1));
        i = i + 1;
    }
    assert(names_view(out@) =~= start + assignment_names(t, n as int));
}

// ── Declarations, executable ───────────────────────────────────────────

struct JsDeclaration {
    name: Vec<char>,
    start: usize,
    end: usize,
    available: usize,
    value: Option<JsBinding>,
    require_at: Option<usize>,
}

spec fn opt_int(o: Option<usize>) -> Option<int> {
    match o {
        Some(x) => Some(x as int),
        None => None,
    }
}

impl View for JsDeclaration {
    type V = JsDecl;

    closed spec fn view(&self) -> JsDecl {
        (
            self.name@,
            self.start as int,
            self.end as int,
            self.available as int,
            self.value,
            opt_int(self.require_at),
        )
    }
}

spec fn decls_of(v: Seq<JsDeclaration>) -> Seq<JsDecl> {
    v.map_values(|d: JsDeclaration| d@)
}

spec fn decls_ok(v: Seq<JsDeclaration>) -> bool {
    forall|i: int| 0 <= i < v.len() ==> (#[trigger] v[i]).start <= v[i].end
}

fn push_decl(
    out: &mut Vec<JsDeclaration>,
    name: Vec<char>,
    sc: (usize, usize),
    available: usize,
    value: Option<JsBinding>,
    require_at: Option<usize>,
)
    requires
        sc.0 <= sc.1,
        decls_ok(old(out)@),
    ensures
        decls_of(final(out)@) == decls_of(old(out)@).push(
            (name@, sc.0 as int, sc.1 as int, available as int, value, opt_int(require_at)),
        ),
        decls_ok(final(out)@),
{
    let d = JsDeclaration { name, start: sc.0, end: sc.1, available, value, require_at };
    proof {
        assert(decls_of(out@.push(d)) =~= decls_of(out@).push(d@));
    }
    out.push(d);
}

fn push_locals(out: &mut Vec<JsDeclaration>, names: Vec<Vec<char>>, sc: (usize, usize))
    requires
        sc.0 <= sc.1,
        decls_ok(old(out)@),
    ensures
        decls_of(final(out)@) == decls_of(old(out)@) + locals(
            names_view(names@),
            (sc.0 as int, sc.1 as int),
        ),
        decls_ok(final(out)@),
{
    let ghost start = decls_of(out@);
    let ghost nv = names_view(names@);
    let ghost scv = (sc.0 as int, sc.1 as int);
    let mut names = names;
    let mut i: usize = 0;
    let len = names.len();
    assert(decls_of(out@) =~= start + locals(nv.take(0), scv));
    while i < len
        invariant
            sc.0 <= sc.1,
            scv == (sc.0 as int, sc.1 as int),
            i <= len == names@.len() == nv.len(),
            forall|k: int| i <= k < len ==> names@[k]@ == #[trigger] nv[k],
            decls_ok(out@),
            decls_of(out@) == start + locals(nv.take(i as int), scv),
        decreases len - i,
    {
        let mut w: Vec<char> = Vec::new();
        std::mem::swap(&mut w, &mut names[i]);
        assert(w@ == nv[i as int]);
        let ghost before = decls_of(out@);
        push_decl(out, w, sc, 0, None, None);
        let ghost e: JsDecl = (nv[i as int], scv.0, scv.1, 0int, None::<JsBinding>, None::<int>);
        assert(decls_of(out@) == before.push(e));
        assert(locals(nv.take(i + 1), scv) =~= locals(nv.take(i as int), scv).push(e));
        assert(decls_of(out@) =~= start + locals(nv.take(i + 1), scv));
        i = i + 1;
    }
    assert(nv.take(len as int) =~= nv);
}

fn pattern_names_of(t: &SyntaxTree, n: usize) -> (r: Vec<Vec<char>>)
    requires
        t.wf(),
        t.valid(n as int),
    ensures
        names_view(r@) == pattern_names(t, n as int),
{
    let mut r: Vec<Vec<char>> = Vec::new();
    assert(names_view(r@) =~= Seq::<Seq<char>>::empty());
    pattern_names_exec(t, n, &mut r);
    assert(names_view(r@) =~= pattern_names(t, n as int));
    r
}

fn parameter_declarations_exec(t: &SyntaxTree, n: usize, out: &mut Vec<JsDeclaration>)
    requires
        t.wf(),
        t.valid(n as int),
        decls_ok(old(out)@),
    ensures
        decls_of(final(out)@) == decls_of(old(out)@) + parameter_declarations(t, n as int),
        decls_ok(final(out)@),
{
    let p = match t.field_child(n, "parameters") {
        Some(x) => Some(x),
        None => t.field_child(n, "parameter"),
    };
    match p {
        Some(x) => {
            let names = pattern_names_of(t, x);
            let sc = range_exec(t, n);
            push_locals(out, names, sc);
        },
        None => {
            assert(decls_of(out@) =~= decls_of(out@) + Seq::<JsDecl>::empty());
        },
    }
}

fn import_provider_exec(t: &SyntaxTree, n: usize, source: Option<usize>) -> (r: Option<JsProvider>)
    requires
        t.wf(),
        t.valid(n as int),
        source matches Some(x) ==> t.valid(x as int),
    ensures
        r == import_provider(t, n as int, source),
{
    if valid_exec(t, n) && !some_child_kind_exec(t, n, "type") {
        specifier_provider_exec(t, source)
    } else {
        None
    }
}

fn specifier_declaration_exec(
    t: &SyntaxTree,
    n: usize,
    spec: usize,
    provider: Option<JsProvider>,
    out: &mut Vec<JsDeclaration>,
)
    requires
        t.wf(),
        t.valid(n as int),
        t.valid(spec as int),
        decls_ok(old(out)@),
    ensures
        decls_of(final(out)@) == decls_of(old(out)@) + specifier_declaration(
            t,
            n as int,
            spec as int,
            provider,
        ),
        decls_ok(final(out)@),
{
    let ghost start = decls_of(out@);
    match t.field_child(spec, "name") {
        None => {
            assert(decls_of(out@) =~= start + Seq::<JsDecl>::empty());
        },
        Some(imported) => {
            let name = match t.field_child(spec, "alias") {
                Some(a) => a,
                None => imported,
            };
            let value = match provider {
                Some(p) => if some_child_kind_exec(t, spec, "type") {
                    None
                } else {
                    let it = t.text(imported);
                    match canonical_api_exec(p, it.as_slice()) {
                        Some(api) => Some(JsBinding::Api(p, api)),
                        None => None,
                    }
                },
                None => None,
            };
            let sc = lexical_scope_exec(t, n, false);
            push_decl(out, t.text(name), sc, 0, value, None);
            assert(decls_of(out@) =~= start + specifier_declaration(
                t,
                n as int,
                spec as int,
                provider,
            ));
        },
    }
}

fn clause_item_exec(
    t: &SyntaxTree,
    n: usize,
    item: usize,
    provider: Option<JsProvider>,
    out: &mut Vec<JsDeclaration>,
)
    requires
        t.wf(),
        t.valid(n as int),
        t.valid(item as int),
        decls_ok(old(out)@),
    ensures
        decls_of(final(out)@) == decls_of(old(out)@) + clause_item(t, n as int, item as int, provider),
        decls_ok(final(out)@),
{
    let ghost start = decls_of(out@);
    if t.kind_is(item, "identifier") {
        let value = match provider {
            Some(JsProvider::Node) => Some(JsBinding::NodeDefault),
            _ => None,
        };
        let sc = lexical_scope_exec(t, n, false);
        push_decl(out, t.text(item), sc, 0, value, None);
        assert(decls_of(out@) =~= start + clause_item(t, n as int, item as int, provider));
    } else if t.kind_is(item, "namespace_import") {
        let ks = t.named_children(item);
        if ks.len() > 0 {
            let value = match provider {
                Some(p) => Some(JsBinding::Namespace(p)),
                None => None,
            };
            let sc = lexical_scope_exec(t, n, false);
            push_decl(out, t.text(ks[0]), sc, 0, value, None);
            assert(decls_of(out@) =~= start + clause_item(t, n as int, item as int, provider));
        } else {
            assert(decls_of(out@) =~= start + Seq::<JsDecl>::empty());
        }
    } else if t.kind_is(item, "named_imports") {
        let ks = t.named_children(item);
        let mut j: usize = 0;
        assert(decls_of(out@) =~= start + specifiers_upto(t, n as int, ks@, 0, provider));
        while j < ks.len()
            invariant
                t.wf(),
                t.valid(n as int),
                j <= ks.len(),
                forall|k: int| 0 <= k < ks@.len() ==> t.valid(#[trigger] ks@[k] as int),
                decls_ok(out@),
                decls_of(out@) == start + specifiers_upto(t, n as int, ks@, j as int, provider),
            decreases ks.len() - j,
        {
            if t.kind_is(ks[j], "import_specifier") {
                specifier_declaration_exec(t, n, ks[j], provider, out);
            }
            assert(decls_of(out@) =~= start + specifiers_upto(
                t,
                n as int,
                ks@,
                j + 1,
                provider,
            ));
            j = j + 1;
        }
    } else {
        assert(decls_of(out@) =~= start + Seq::<JsDecl>::empty());
    }
}

fn import_declarations_exec(t: &SyntaxTree, n: usize, out: &mut Vec<JsDeclaration>)
    requires
        t.wf(),
        t.valid(n as int),
        decls_ok(old(out)@),
    ensures
        decls_of(final(out)@) == decls_of(old(out)@) + import_declarations(t, n as int),
        decls_ok(final(out)@),
{
    let ghost start = decls_of(out@);
    match named_kid_of_kind_exec(t, n, "import_require_clause") {
        Some(rc) => {
            let value = match import_provider_exec(t, n, t.field_child(rc, "source")) {
                Some(p) => if is_provider(p, JsProvider::Node) {
                    Some(JsBinding::NodeDefault)
                } else {
                    Some(JsBinding::Namespace(p))
                },
                None => None,
            };
            match first_named_if_exec(t, rc, "identifier") {
                None => {
                    assert(decls_of(out@) =~= start + Seq::<JsDecl>::empty());
                },
                Some(first) => {
                    let sc = lexical_scope_exec(t, n, false);
                    push_decl(out, t.text(first), sc, t.nodes[n].end, value, Some(t.nodes[n].start));
                    assert(decls_of(out@) =~= start + import_declarations(t, n as int));
                },
            }
        },
        None => {
            let provider = import_provider_exec(t, n, t.field_child(n, "source"));
            match named_kid_of_kind_exec(t, n, "import_clause") {
                None => {
                    assert(decls_of(out@) =~= start + Seq::<JsDecl>::empty());
                },
                Some(clause) => {
                    let ks = t.named_children(clause);
                    let mut j: usize = 0;
                    assert(decls_of(out@) =~= start + clause_upto(t, n as int, ks@, 0, provider));
                    while j < ks.len()
                        invariant
                            t.wf(),
                            t.valid(n as int),
                            j <= ks.len(),
                            forall|k: int| 0 <= k < ks@.len() ==> t.valid(#[trigger] ks@[k] as int),
                            decls_ok(out@),
                            decls_of(out@) == start + clause_upto(
                                t,
                                n as int,
                                ks@,
                                j as int,
                                provider,
                            ),
                        decreases ks.len() - j,
                    {
                        clause_item_exec(t, n, ks[j], provider, out);
                        assert(decls_of(out@) =~= start + clause_upto(
                            t,
                            n as int,
                            ks@,
                            j + 1,
                            provider,
                        ));
                        j = j + 1;
                    }
                },
            }
        },
    }
}

fn arguments_exec(t: &SyntaxTree, call: usize) -> (r: Vec<usize>)
    requires
        t.wf(),
        t.valid(call as int),
    ensures
        r@ == arguments(t, call as int),
        forall|i: int| 0 <= i < r@.len() ==> t.valid(#[trigger] r@[i] as int),
{
    let mut r: Vec<usize> = Vec::new();
    match t.field_child(call, "arguments") {
        None => {
            assert(r@ =~= Seq::<usize>::empty());
        },
        Some(a) => {
            let ks = t.named_children(a);
            let mut j: usize = 0;
            assert(r@ =~= non_comments(t, ks@.take(0)));
            while j < ks.len()
                invariant
                    t.wf(),
                    j <= ks.len(),
                    forall|k: int| 0 <= k < ks@.len() ==> t.valid(#[trigger] ks@[k] as int),
                    forall|i: int| 0 <= i < r@.len() ==> t.valid(#[trigger] r@[i] as int),
                    r@ == non_comments(t, ks@.take(j as int)),
                decreases ks.len() - j,
            {
                if !t.kind_is(ks[j], "comment") {
                    r.push(ks[j]);
                }
                proof {
                    let u = ks@.take(j + 1);
                    assert(u.drop_last() =~= ks@.take(j as int));
                }
                j = j + 1;
            }
            assert(ks@.take(ks.len() as int) =~= ks@);
        },
    }
    r
}

spec fn required_view(o: Option<(JsProvider, Option<Vec<char>>, usize)>) -> Option<
    (JsProvider, Option<Seq<char>>, int),
> {
    match o {
        Some(x) => Some((x.0, opt_chars(x.1), x.2 as int)),
        None => None,
    }
}

fn required_provider_exec(t: &SyntaxTree, value: usize) -> (r: Option<(JsProvider, Option<Vec<char>>, usize)>)
    requires
        t.wf(),
        t.valid(value as int),
    ensures
        required_view(r) == required_provider(t, value as int),
{
    let member = t.kind_is(value, "member_expression");
    let call = if member {
        t.field_child(value, "object")
    } else {
        Some(value)
    };
    let selected = if member {
        match t.field_child(value, "property") {
            Some(p) => Some(t.text(p)),
            None => None,
        }
    } else {
        None
    };
    let c = match call {
        None => {
            return None;
        },
        Some(c) => c,
    };
    if member && selected.is_none() {
        return None;
    }
    if !t.kind_is(c, "call_expression") {
        return None;
    }
    let callee = match t.field_child(c, "function") {
        None => {
            return None;
        },
        Some(x) => x,
    };
    let args = arguments_exec(t, c);
    if !t.kind_is(callee, "identifier") || !t.text_is(callee, "require") || args.len() != 1 {
        return None;
    }
    match string_value_exec(t, args[0]) {
        Some(v) => match provider_exec(v.as_slice()) {
            Some(p) => Some((p, selected, t.nodes[c].start)),
            None => None,
        },
        None => None,
    }
}

fn item_api_exec(t: &SyntaxTree, item: usize, name: &[char]) -> (r: Option<Vec<char>>)
    requires
        t.wf(),
        t.valid(item as int),
    ensures
        opt_chars(r) == item_api(t, item as int, name@),
{
    if t.kind_is(item, "shorthand_property_identifier_pattern") {
        let x = t.text(item);
        if chars_eq(x.as_slice(), name) {
            Some(x)
        } else {
            None
        }
    } else if t.kind_is(item, "object_assignment_pattern") {
        match t.field_child(item, "left") {
            Some(l) => {
                let x = t.text(l);
                if chars_eq(x.as_slice(), name) {
                    Some(x)
                } else {
                    None
                }
            },
            None => None,
        }
    } else if t.kind_is(item, "pair_pattern") {
        let v = match t.field_child(item, "value") {
            Some(v) => if t.kind_is(v, "assignment_pattern") {
                t.field_child(v, "left")
            } else {
                Some(v)
            },
            None => None,
        };
        match v {
            Some(v) => {
                let x = t.text(v);
                if t.kind_is(v, "identifier") && chars_eq(x.as_slice(), name) {
                    match t.field_child(item, "key") {
                        Some(key) => if t.kind_is(key, "property_identifier") {
                            Some(t.text(key))
                        } else {
                            None
                        },
                        None => None,
                    }
                } else {
                    None
                }
            },
            None => None,
        }
    } else {
        None
    }
}

fn destructured_api_exec(t: &SyntaxTree, pattern: usize, name: &[char], p: JsProvider) -> (r: Option<
    JsBinding,
>)
    requires
        t.wf(),
        t.valid(pattern as int),
    ensures
        r == destructured_api(t, t.named_kids(pattern as int), 0, name@, p),
{
    let ks = t.named_children(pattern);
    let mut j: usize = 0;
    while j < ks.len()
        invariant
            t.wf(),
            j <= ks.len(),
            ks@ == t.named_kids(pattern as int),
            forall|k: int| 0 <= k < ks@.len() ==> t.valid(#[trigger] ks@[k] as int),
            destructured_api(t, ks@, 0, name@, p) == destructured_api(t, ks@, j as int, name@, p),
        decreases ks.len() - j,
    {
        match item_api_exec(t, ks[j], name) {
            Some(api) => match canonical_api_exec(p, api.as_slice()) {
                Some(a) => {
                    return Some(JsBinding::Api(p, a));
                },
                None => {},
            },
            None => {},
        }
        j = j + 1;
    }
    None
}

fn required_binding_exec(
    t: &SyntaxTree,
    pattern: usize,
    name: &[char],
    required: &Option<(JsProvider, Option<Vec<char>>, usize)>,
) -> (r: Option<JsBinding>)
    requires
        t.wf(),
        t.valid(pattern as int),
    ensures
        r == required_binding(t, pattern as int, name@, required_view(*required)),
{
    match required {
        None => None,
        Some(x) => {
            let p = x.0;
            if t.kind_is(pattern, "identifier") {
                match &x.1 {
                    Some(api) => match canonical_api_exec(p, api.as_slice()) {
                        Some(a) => Some(JsBinding::Api(p, a)),
                        None => None,
                    },
                    None => if is_provider(p, JsProvider::Node) {
                        Some(JsBinding::NodeDefault)
                    } else {
                        Some(JsBinding::Namespace(p))
                    },
                }
            } else if t.kind_is(pattern, "object_pattern") && x.1.is_none() {
                destructured_api_exec(t, pattern, name, p)
            } else {
                None
            }
        },
    }
}

fn variable_declarations_exec(t: &SyntaxTree, n: usize, out: &mut Vec<JsDeclaration>)
    requires
        t.wf(),
        t.valid(n as int),
        decls_ok(old(out)@),
    ensures
        decls_of(final(out)@) == decls_of(old(out)@) + variable_declarations(t, n as int),
        decls_ok(final(out)@),
{
    let ghost start = decls_of(out@);
    let pattern = match t.field_child(n, "name") {
        None => {
            assert(decls_of(out@) =~= start + Seq::<JsDecl>::empty());
            return;
        },
        Some(p) => p,
    };
    let var = match t.parent_of(n) {
        Some(p) => t.kind_is(p, "variable_declaration"),
        None => false,
    };
    let sc = lexical_scope_exec(t, n, var);
    let required = match t.field_child(n, "value") {
        Some(v) => if valid_exec(t, n) {
            required_provider_exec(t, v)
        } else {
            None
        },
        None => None,
    };
    let at = match &required {
        Some(r) => Some(r.2),
        None => None,
    };
    let names = pattern_names_of(t, pattern);
    let ghost nv = names_view(names@);
    let ghost rv = required_view(required);
    let ghost f = |nm: Seq<char>|
        (
            nm,
            sc.0 as int,
            sc.1 as int,
            t.nodes@[n as int].end as int,
            required_binding(t, pattern as int, nm, rv),
            opt_int(at),
        );
    assert(variable_declarations(t, n as int) == nv.map_values(f));
    let mut i: usize = 0;
    assert(decls_of(out@) =~= start + nv.take(0).map_values(f));
    while i < names.len()
        invariant
            t.wf(),
            t.valid(n as int),
            t.valid(pattern as int),
            sc.0 <= sc.1,
            i <= names@.len() == nv.len(),
            nv == names_view(names@),
            rv == required_view(required),
            decls_ok(out@),
            decls_of(out@) == start + nv.take(i as int).map_values(f),
            f == (|nm: Seq<char>|
                (
                    nm,
                    sc.0 as int,
                    sc.1 as int,
                    t.nodes@[n as int].end as int,
                    required_binding(t, pattern as int, nm, rv),
                    opt_int(at),
                )),
        decreases names.len() - i,
    {
        let w = slice_vec(names[i].as_slice(), 0, names[i].len());
        assert(w@ =~= nv[i as int]);
        let b = required_binding_exec(t, pattern, w.as_slice(), &required);
        let ghost before = decls_of(out@);
        push_decl(out, w, sc, t.nodes[n].end, b, at);
        assert(nv.take(i + 1).map_values(f) =~= nv.take(i as int).map_values(f).push(
            f(nv[i as int]),
        ));
        assert(decls_of(out@) =~= start + nv.take(i + 1).map_values(f));
        i = i + 1;
    }
    assert(nv.take(names.len() as int) =~= nv);
}

fn declares_named_exec(t: &SyntaxTree, n: usize) -> (r: bool)
    requires
        t.valid(n as int),
    ensures
        r == declares_named(t.kind(n as int)),
{
    t.kind_is(n, "class_declaration") || t.kind_is(n, "function_declaration") || t.kind_is(
        n,
        "generator_function_declaration",
    ) || t.kind_is(n, "enum_declaration") || t.kind_is(n, "internal_module") || t.kind_is(
        n,
        "module",
    )
}

fn declarations_exec(t: &SyntaxTree, n: usize, out: &mut Vec<JsDeclaration>)
    requires
        t.wf(),
        t.valid(n as int),
        decls_ok(old(out)@),
    ensures
        decls_of(final(out)@) == decls_of(old(out)@) + declarations(t, n as int),
        decls_ok(final(out)@),
{
    let ghost start = decls_of(out@);
    if t.kind_is(n, "import_statement") {
        import_declarations_exec(t, n, out);
    } else if t.kind_is(n, "import_alias") {
        match first_named_if_exec(t, n, "identifier") {
            Some(x) => {
                let sc = lexical_scope_exec(t, n, false);
                push_decl(out, t.text(x), sc, 0, None, None);
                assert(decls_of(out@) =~= start + declarations(t, n as int));
            },
            None => {
                assert(decls_of(out@) =~= start + Seq::<JsDecl>::empty());
            },
        }
    } else if t.kind_is(n, "variable_declarator") {
        variable_declarations_exec(t, n, out);
    } else if t.kind_is(n, "class") {
        match t.field_child(n, "name") {
            Some(x) => {
                let sc = range_exec(t, n);
                push_decl(out, t.text(x), sc, 0, None, None);
                assert(decls_of(out@) =~= start + declarations(t, n as int));
            },
            None => {
                assert(decls_of(out@) =~= start + Seq::<JsDecl>::empty());
            },
        }
    } else if t.kind_is(n, "catch_clause") {
        match t.field_child(n, "parameter") {
            Some(p) => {
                let names = pattern_names_of(t, p);
                let sc = range_exec(t, n);
                push_locals(out, names, sc);
            },
            None => {
                assert(decls_of(out@) =~= start + Seq::<JsDecl>::empty());
            },
        }
    } else if declares_named_exec(t, n) {
        parameter_declarations_exec(t, n, out);
        let ghost mid = decls_of(out@);
        match t.field_child(n, "name") {
            Some(x) => {
                let sc = lexical_scope_exec(t, n, false);
                push_decl(out, t.text(x), sc, 0, None, None);
            },
            None => {},
        }
        assert(decls_of(out@) =~= start + declarations(t, n as int));
    } else if t.kind_is(n, "function_expression") || t.kind_is(n, "generator_function")
        || t.kind_is(n, "arrow_function") || t.kind_is(n, "method_definition") {
        parameter_declarations_exec(t, n, out);
        if t.kind_is(n, "function_expression") || t.kind_is(n, "generator_function") {
            match t.field_child(n, "name") {
                Some(x) => {
                    let sc = range_exec(t, n);
                    push_decl(out, t.text(x), sc, 0, None, None);
                },
                None => {},
            }
        }
        assert(decls_of(out@) =~= start + declarations(t, n as int));
    } else if t.kind_is(n, "for_in_statement") && declares_with_keyword_exec(t, n) {
        let sc = if some_child_kind_exec(t, n, "var") {
            lexical_scope_exec(t, n, true)
        } else {
            range_exec(t, n)
        };
        match t.field_child(n, "left") {
            Some(p) => {
                let names = pattern_names_of(t, p);
                push_locals(out, names, sc);
            },
            None => {
                assert(decls_of(out@) =~= start + Seq::<JsDecl>::empty());
            },
        }
    } else {
        assert(decls_of(out@) =~= start + Seq::<JsDecl>::empty());
    }
}

fn all_declarations(t: &SyntaxTree) -> (r: Vec<JsDeclaration>)
    requires
        t.wf(),
    ensures
        decls_of(r@) == declarations_upto(t, t.len()),
        decls_ok(r@),
{
    let mut r: Vec<JsDeclaration> = Vec::new();
    let len = t.node_count();
    let mut i: usize = 0;
    assert(decls_of(r@) =~= declarations_upto(t, 0));
    while i < len
        invariant
            t.wf(),
            i <= len == t.len(),
            decls_ok(r@),
            decls_of(r@) == declarations_upto(t, i as int),
        decreases len - i,
    {
        let ghost before = decls_of(r@);
        if t.is_named(i) {
            declarations_exec(t, i, &mut r);
        } else {
            assert(decls_of(r@) =~= before + Seq::<JsDecl>::empty());
        }
        assert(decls_of(r@) =~= declarations_upto(t, i + 1));
        i = i + 1;
    }
    r
}

// ── Assignments and resolution, executable ─────────────────────────────

spec fn asg_of(v: Seq<(Vec<char>, usize)>) -> Seq<(Seq<char>, int)> {
    v.map_values(|a: (Vec<char>, usize)| (a.0@, a.1 as int))
}

fn assigned_target_exec(t: &SyntaxTree, n: usize) -> (r: Option<usize>)
    requires
        t.wf(),
        t.valid(n as int),
    ensures
        r == assigned_target(t, n as int),
        r matches Some(x) ==> t.valid(x as int),
{
    if t.kind_is(n, "assignment_expression") || t.kind_is(n, "augmented_assignment_expression") {
        t.field_child(n, "left")
    } else if t.kind_is(n, "for_in_statement") && !declares_with_keyword_exec(t, n) {
        t.field_child(n, "left")
    } else if t.kind_is(n, "unary_expression") {
        match t.field_child(n, "operator") {
            Some(op) => if t.kind_is(op, "delete") {
                t.field_child(n, "argument")
            } else {
                None
            },
            None => None,
        }
    } else if t.kind_is(n, "update_expression") {
        match t.field_child(n, "argument") {
            Some(a) => Some(a),
            None => {
                let ks = t.named_children(n);
                if ks.len() > 0 {
                    Some(ks[0])
                } else {
                    None
                }
            },
        }
    } else {
        None
    }
}

fn all_assignments(t: &SyntaxTree) -> (r: Vec<(Vec<char>, usize)>)
    requires
        t.wf(),
    ensures
        asg_of(r@) == assignments_upto(t, t.len()),
{
    let mut r: Vec<(Vec<char>, usize)> = Vec::new();
    let len = t.node_count();
    let mut i: usize = 0;
    assert(asg_of(r@) =~= assignments_upto(t, 0));
    while i < len
        invariant
            t.wf(),
            i <= len == t.len(),
            asg_of(r@) == assignments_upto(t, i as int),
        decreases len - i,
    {
        let ghost before = asg_of(r@);
        let target = if t.is_named(i) {
            assigned_target_exec(t, i)
        } else {
            None
        };
        match target {
            Some(x) => {
                let mut names: Vec<Vec<char>> = Vec::new();
                assert(names_view(names@) =~= Seq::<Seq<char>>::empty());
                assignment_names_exec(t, x, &mut names);
                let ghost nv = names_view(names@);
                assert(nv =~= assignment_names(t, x as int));
                let at = t.nodes[x].start;
                let ghost g = |nm: Seq<char>| (nm, at as int);
                let mut j: usize = 0;
                assert(asg_of(r@) =~= before + nv.take(0).map_values(g));
                while j < names.len()
                    invariant
                        j <= names@.len() == nv.len(),
                        nv == names_view(names@),
                        g == (|nm: Seq<char>| (nm, at as int)),
                        asg_of(r@) == before + nv.take(j as int).map_values(g),
                    decreases names.len() - j,
                {
                    let w = slice_vec(names[j].as_slice(), 0, names[j].len());
                    assert(w@ =~= nv[j as int]);
                    proof {
                        assert(asg_of(r@.push((w, at))) =~= asg_of(r@).push((w@, at as int)));
                        assert(nv.take(j + 1).map_values(g) =~= nv.take(j as int).map_values(g).push(
                            g(nv[j as int]),
                        ));
                    }
                    r.push((w, at));
                    assert(asg_of(r@) =~= before + nv.take(j + 1).map_values(g));
                    j = j + 1;
                }
                assert(nv.take(names.len() as int) =~= nv);
                assert(asg_of(r@) =~= assignments_upto(t, i + 1));
            },
            None => {
                assert(asg_of(r@) =~= assignments_upto(t, i + 1));
            },
        }
        i = i + 1;
    }
    r
}

fn sees_exec(d: &JsDeclaration, name: &[char], at: usize) -> (r: bool)
    ensures
        r == sees(d@, name@, at as int),
{
    chars_eq(d.name.as_slice(), name) && d.start <= at && at < d.end
}

/// The narrowest scope length among the declarations of `name` around `at`.
fn narrowest_exec(ds: &Vec<JsDeclaration>, name: &[char], at: usize) -> (r: Option<usize>)
    requires
        decls_ok(ds@),
    ensures
        match r {
            Some(l) => narrowest(decls_of(ds@), name@, at as int) == l as int,
            None => narrowest(decls_of(ds@), name@, at as int) < 0,
        },
{
    let ghost v = decls_of(ds@);
    let mut best: Option<usize> = None;
    let mut i: usize = 0;
    while i < ds.len()
        invariant
            v == decls_of(ds@),
            v.len() == ds@.len(),
            decls_ok(ds@),
            i <= ds.len(),
            match best {
                Some(l) => narrowest(v.take(i as int), name@, at as int) == l as int,
                None => narrowest(v.take(i as int), name@, at as int) < 0,
            },
        decreases ds.len() - i,
    {
        proof {
            let u = v.take(i + 1);
            assert(u.drop_last() =~= v.take(i as int));
            assert(u.last() == ds@[i as int]@);
            assert(ds@[i as int].start <= ds@[i as int].end);
        }
        let d = &ds[i];
        if sees_exec(d, name, at) {
            let l = d.end - d.start;
            match best {
                Some(m) => if l < m {
                    best = Some(l);
                },
                None => {
                    best = Some(l);
                },
            }
        }
        i = i + 1;
    }
    assert(v.take(ds.len() as int) =~= v);
    best
}

/// How many declarations are innermost for `name` at `at`, and the first.
fn innermost_exec(ds: &Vec<JsDeclaration>, name: &[char], at: usize) -> (r: (usize, Option<usize>))
    requires
        decls_ok(ds@),
    ensures
        r.0 == innermost_count(decls_of(ds@), ds@.len() as int, name@, at as int),
        match r.1 {
            Some(k) => k < ds@.len() && k as int == innermost_first(
                decls_of(ds@),
                ds@.len() as int,
                name@,
                at as int,
            ),
            None => innermost_first(decls_of(ds@), ds@.len() as int, name@, at as int) < 0,
        },
{
    let ghost v = decls_of(ds@);
    let m = narrowest_exec(ds, name, at);
    let mut count: usize = 0;
    let mut first: Option<usize> = None;
    let mut i: usize = 0;
    while i < ds.len()
        invariant
            v == decls_of(ds@),
            v.len() == ds@.len(),
            decls_ok(ds@),
            i <= ds.len(),
            count <= i,
            match m {
                Some(l) => narrowest(v, name@, at as int) == l as int,
                None => narrowest(v, name@, at as int) < 0,
            },
            count == innermost_count(v, i as int, name@, at as int),
            match first {
                Some(k) => k < i && k as int == innermost_first(v, i as int, name@, at as int),
                None => innermost_first(v, i as int, name@, at as int) < 0,
            },
        decreases ds.len() - i,
    {
        let d = &ds[i];
        proof {
            assert(v[i as int] == ds@[i as int]@);
            assert(ds@[i as int].start <= ds@[i as int].end);
        }
        let hit = match m {
            Some(l) => sees_exec(d, name, at) && d.end - d.start == l,
            None => false,
        };
        if hit {
            count = count + 1;
            if first.is_none() {
                first = Some(i);
            }
        }
        i = i + 1;
    }
    (count, first)
}

fn loader_reassigned_exec(ds: &Vec<JsDeclaration>, asg: &Vec<(Vec<char>, usize)>) -> (r: bool)
    requires
        decls_ok(ds@),
    ensures
        r == loader_reassigned(decls_of(ds@), asg_of(asg@)),
{
    let req = crate::text::chars_of("require");
    let mut j: usize = 0;
    while j < asg.len()
        invariant
            decls_ok(ds@),
            j <= asg.len(),
            req@ == "require"@,
            forall|i: int|
                0 <= i < j ==> !((#[trigger] asg_of(asg@)[i]).0 == "require"@ && narrowest(
                    decls_of(ds@),
                    "require"@,
                    asg_of(asg@)[i].1,
                ) < 0),
        decreases asg.len() - j,
    {
        assert(asg_of(asg@)[j as int] == (asg@[j as int].0@, asg@[j as int].1 as int));
        if chars_eq_str(asg[j].0.as_slice(), "require") && narrowest_exec(ds, req.as_slice(), asg[j].1).is_none() {
            return true;
        }
        j = j + 1;
    }
    false
}

/// Which declarations no longer hold their value.
fn invalid_flags(ds: &Vec<JsDeclaration>, asg: &Vec<(Vec<char>, usize)>) -> (r: Vec<bool>)
    requires
        decls_ok(ds@),
    ensures
        r@.len() == ds@.len(),
        forall|i: int| 0 <= i < ds@.len() ==> #[trigger] r@[i] == invalid(decls_of(ds@), asg_of(asg@), i),
{
    let ghost v = decls_of(ds@);
    let ghost a = asg_of(asg@);
    let loader = loader_reassigned_exec(ds, asg);
    let req = crate::text::chars_of("require");
    let mut r: Vec<bool> = Vec::new();
    let mut i: usize = 0;
    while i < ds.len()
        invariant
            v == decls_of(ds@),
            a == asg_of(asg@),
            v.len() == ds@.len(),
            decls_ok(ds@),
            req@ == "require"@,
            loader == loader_reassigned(v, a),
            i <= ds.len(),
            r@.len() == i,
            forall|k: int| 0 <= k < i ==> #[trigger] r@[k] == invalid(v, a, k),
        decreases ds.len() - i,
    {
        assert(v[i as int] == ds@[i as int]@);
        let by_require = match ds[i].require_at {
            Some(at) => loader || narrowest_exec(ds, req.as_slice(), at).is_some(),
            None => false,
        };
        let mut by_assignment = false;
        let mut j: usize = 0;
        while j < asg.len() && !by_assignment
            invariant
                v == decls_of(ds@),
                a == asg_of(asg@),
                decls_ok(ds@),
                i < ds.len(),
                j <= asg.len(),
                by_assignment ==> exists|k: int| 0 <= k < a.len() && innermost(v, v[i as int], (#[trigger] a[k]).0, a[k].1),
                !by_assignment ==> forall|k: int| 0 <= k < j ==> !innermost(v, v[i as int], (#[trigger] a[k]).0, a[k].1),
            decreases asg.len() - j,
        {
            assert(a[j as int] == (asg@[j as int].0@, asg@[j as int].1 as int));
            assert(v[i as int] == ds@[i as int]@);
            assert(ds@[i as int].start <= ds@[i as int].end);
            let d = &ds[i];
            if sees_exec(d, asg[j].0.as_slice(), asg[j].1) {
                match narrowest_exec(ds, asg[j].0.as_slice(), asg[j].1) {
                    Some(l) => if d.end - d.start == l {
                        by_assignment = true;
                        assert(innermost(v, v[i as int], a[j as int].0, a[j as int].1));
                    },
                    None => {},
                }
            }
            j = j + 1;
        }
        r.push(by_require || by_assignment);
        assert(r@[i as int] == invalid(v, a, i as int));
        i = i + 1;
    }
    r
}

fn resolve_exec(
    ds: &Vec<JsDeclaration>,
    flags: &Vec<bool>,
    name: &[char],
    at: usize,
    Ghost(asg): Ghost<Seq<(Seq<char>, int)>>,
) -> (r: Option<JsBinding>)
    requires
        decls_ok(ds@),
        flags@.len() == ds@.len(),
        forall|i: int| 0 <= i < ds@.len() ==> #[trigger] flags@[i] == invalid(decls_of(ds@), asg, i),
    ensures
        r == resolve(decls_of(ds@), asg, name@, at as int),
{
    let (count, first) = innermost_exec(ds, name, at);
    if count != 1 {
        return None;
    }
    match first {
        None => None,
        Some(i) => {
            assert(decls_of(ds@)[i as int] == ds@[i as int]@);
            if ds[i].available <= at && !flags[i] {
                ds[i].value
            } else {
                None
            }
        },
    }
}

// ── Calls, executable ──────────────────────────────────────────────────

fn link_next_exec(t: &SyntaxTree, n: usize) -> (r: Option<usize>)
    requires
        t.wf(),
        t.valid(n as int),
    ensures
        r == link_next(t, n as int),
        r matches Some(x) ==> t.valid(x as int),
{
    if t.kind_is(n, "member_expression") {
        t.field_child(n, "object")
    } else if t.kind_is(n, "call_expression") {
        t.field_child(n, "function")
    } else {
        None
    }
}

spec fn ints(v: Seq<usize>) -> Seq<int> {
    v.map_values(|x: usize| x as int)
}

fn chain_exec(t: &SyntaxTree, n: usize) -> (r: Vec<usize>)
    requires
        t.wf(),
        t.valid(n as int),
    ensures
        ints(r@) == chain(t, n as int, 10),
        forall|i: int| 0 <= i < r@.len() ==> t.valid(#[trigger] r@[i] as int),
{
    let mut r: Vec<usize> = Vec::new();
    let mut cur: Option<usize> = Some(n);
    let mut k: usize = 10;
    assert(ints(r@) =~= Seq::<int>::empty());
    while k > 0 && cur.is_some()
        invariant
            t.wf(),
            k <= 10,
            cur matches Some(c) ==> t.valid(c as int),
            forall|i: int| 0 <= i < r@.len() ==> t.valid(#[trigger] r@[i] as int),
            chain(t, n as int, 10) == ints(r@) + match cur {
                Some(c) => chain(t, c as int, k as nat),
                None => Seq::<int>::empty(),
            },
        decreases k,
    {
        match cur {
            None => {},
            Some(c) => {
                let nx = link_next_exec(t, c);
                proof {
                    assert(ints(r@.push(c)) =~= ints(r@).push(c as int));
                    let rest = match nx {
                        Some(x) => chain(t, x as int, (k - 1) as nat),
                        None => Seq::<int>::empty(),
                    };
                    assert(chain(t, c as int, k as nat) == seq![c as int] + rest);
                    assert(ints(r@) + (seq![c as int] + rest) =~= ints(r@).push(c as int) + rest);
                }
                r.push(c);
                cur = nx;
                k = k - 1;
            },
        }
    }
    proof {
        match cur {
            Some(c) => {
                assert(k == 0);
                assert(chain(t, c as int, 0) =~= Seq::<int>::empty());
            },
            None => {},
        }
        assert(ints(r@) + Seq::<int>::empty() =~= ints(r@));
    }
    r
}

fn tagged_template_exec(t: &SyntaxTree, call: usize) -> (r: bool)
    requires
        t.wf(),
        t.valid(call as int),
    ensures
        r == tagged_template(t, call as int),
{
    match t.field_child(call, "arguments") {
        Some(a) => t.kind_is(a, "template_string"),
        None => false,
    }
}

spec fn state_view(o: Option<(Vec<Vec<char>>, bool)>) -> Option<(Seq<Seq<char>>, bool)> {
    match o {
        Some(x) => Some((names_view(x.0@), x.1)),
        None => None,
    }
}

fn callee_exec(t: &SyntaxTree, n: usize) -> (r: Option<(Vec<char>, Vec<Vec<char>>, bool)>)
    requires
        t.wf(),
        t.valid(n as int),
    ensures
        match r {
            Some(x) => callee(t, n as int) == Some((x.0@, names_view(x.1@), x.2)),
            None => callee(t, n as int) is None,
        },
{
    let ch = chain_exec(t, n);
    let ghost chv = ints(ch@);
    if ch.len() > 9 || ch.len() == 0 || !t.kind_is(ch[ch.len() - 1], "identifier") {
        return None;
    }
    let mut state: Option<(Vec<Vec<char>>, bool)> = Some((Vec::new(), false));
    let mut i: usize = ch.len() - 1;
    assert(names_view(Seq::<Vec<char>>::empty()) =~= Seq::<Seq<char>>::empty());
    assert(state_view(state) == replay(t, chv, i as int));
    while i > 0
        invariant
            t.wf(),
            chv == ints(ch@),
            chv.len() == ch@.len(),
            forall|k: int| 0 <= k < ch@.len() ==> t.valid(#[trigger] ch@[k] as int),
            i < ch.len(),
            state_view(state) == replay(t, chv, i as int),
        decreases i,
    {
        let link = ch[i - 1];
        assert(chv[i - 1] == link as int);
        let next: Option<(Vec<Vec<char>>, bool)> = match state {
            None => None,
            Some((parts, each)) => {
                if t.kind_is(link, "member_expression") {
                    if each {
                        None
                    } else {
                        match t.field_child(link, "property") {
                            Some(p) => {
                                let mut parts = parts;
                                let w = t.text(p);
                                proof {
                                    lemma_names_push(parts@, w);
                                }
                                parts.push(w);
                                Some((parts, false))
                            },
                            None => None,
                        }
                    }
                } else {
                    let last_each = parts.len() > 0 && chars_eq_str(
                        parts[parts.len() - 1].as_slice(),
                        "each",
                    );
                    if each || !last_each || !(tagged_template_exec(t, link)
                        || arguments_exec(t, link).len() == 1) {
                        None
                    } else {
                        Some((parts, true))
                    }
                }
            },
        };
        state = next;
        i = i - 1;
    }
    match state {
        Some((parts, each)) => {
            let root = t.text(ch[ch.len() - 1]);
            assert(chv.last() == ch@[ch@.len() - 1] as int);
            Some((root, parts, each))
        },
        None => None,
    }
}

fn parts_contain(parts: &Vec<Vec<char>>, w: &str) -> (r: bool)
    ensures
        r == names_view(parts@).contains(w@),
{
    let mut j: usize = 0;
    while j < parts.len()
        invariant
            j <= parts.len(),
            forall|i: int| 0 <= i < j ==> names_view(parts@)[i] != w@,
        decreases parts.len() - j,
    {
        if chars_eq_str(parts[j].as_slice(), w) {
            assert(names_view(parts@)[j as int] == w@);
            return true;
        }
        j = j + 1;
    }
    false
}

fn parts_are(parts: &Vec<Vec<char>>, a: &str, b: &str, c: &str, n: usize) -> (r: bool)
    requires
        1 <= n <= 3,
    ensures
        n == 1 ==> r == (names_view(parts@) == one(a@)),
        n == 2 ==> r == (names_view(parts@) == two(a@, b@)),
        n == 3 ==> r == (names_view(parts@) == three(a@, b@, c@)),
{
    let ghost v = names_view(parts@);
    if parts.len() != n {
        assert(n == 1 ==> v.len() != one(a@).len());
        assert(n == 2 ==> v.len() != two(a@, b@).len());
        assert(n == 3 ==> v.len() != three(a@, b@, c@).len());
        return false;
    }
    let r = chars_eq_str(parts[0].as_slice(), a) && (n < 2 || chars_eq_str(parts[1].as_slice(), b)) && (
    n < 3 || chars_eq_str(parts[2].as_slice(), c));
    proof {
        if n == 1 {
            if r {
                assert(v =~= one(a@));
            } else {
                assert(v[0] != one(a@)[0]);
            }
        } else if n == 2 {
            if r {
                assert(v =~= two(a@, b@));
            } else if v[0] != a@ {
                assert(v[0] != two(a@, b@)[0]);
            } else {
                assert(v[1] != two(a@, b@)[1]);
            }
        } else {
            if r {
                assert(v =~= three(a@, b@, c@));
            } else if v[0] != a@ {
                assert(v[0] != three(a@, b@, c@)[0]);
            } else if v[1] != b@ {
                assert(v[1] != three(a@, b@, c@)[1]);
            } else {
                assert(v[2] != three(a@, b@, c@)[2]);
            }
        }
    }
    r
}

fn vitest_options_exec(parts: &Vec<Vec<char>>, upto: usize) -> (r: bool)
    requires
        upto <= parts.len(),
    ensures
        r == vitest_options(names_view(parts@).take(upto as int)),
{
    let ghost o = names_view(parts@).take(upto as int);
    let mut i: usize = 0;
    let mut only = false;
    let mut skip = false;
    while i < upto
        invariant
            upto <= parts.len(),
            o == names_view(parts@).take(upto as int),
            i <= upto,
            forall|k: int| 0 <= k < i ==> vitest_option(#[trigger] o[k]),
            forall|k: int, l: int| 0 <= k < l < i ==> #[trigger] o[k] != #[trigger] o[l],
            only == exists|k: int| 0 <= k < i && o[k] == "only"@,
            skip == exists|k: int| 0 <= k < i && o[k] == "skip"@,
        decreases upto - i,
    {
        let w = parts[i].as_slice();
        assert(o[i as int] == w@);
        if !(chars_eq_str(w, "only") || chars_eq_str(w, "skip") || chars_eq_str(w, "concurrent")) {
            assert(!vitest_option(o[i as int]));
            return false;
        }
        let mut k: usize = 0;
        while k < i
            invariant
                k <= i < upto <= parts.len(),
                o == names_view(parts@).take(upto as int),
                o[i as int] == w@,
                forall|l: int| 0 <= l < k ==> o[l] != o[i as int],
            decreases i - k,
        {
            if chars_eq(parts[k].as_slice(), w) {
                assert(o[k as int] == o[i as int]);
                return false;
            }
            k = k + 1;
        }
        if chars_eq_str(w, "only") {
            only = true;
        }
        if chars_eq_str(w, "skip") {
            skip = true;
        }
        i = i + 1;
    }
    assert(only == o.contains("only"@));
    assert(skip == o.contains("skip"@));
    !(only && skip)
}

fn modifiers_valid_exec(p: JsProvider, api: JsApi, parts: &Vec<Vec<char>>, each: bool) -> (r: bool)
    ensures
        r == modifiers_valid(p, api, names_view(parts@), each),
{
    if !suite_or_test_exec(api) {
        return parts.len() == 0 && !each;
    }
    if parts_contain(parts, "each") != each {
        return false;
    }
    match p {
        JsProvider::Node | JsProvider::Mocha => parts.len() == 0 || parts_are(parts, "only", "", "", 1)
            || parts_are(parts, "skip", "", "", 1),
        JsProvider::Jest => {
            (parts.len() == 0 || parts_are(parts, "only", "", "", 1) || parts_are(parts, "skip", "", "", 1)
                || parts_are(parts, "each", "", "", 1) || parts_are(parts, "only", "each", "", 2)
                || parts_are(parts, "skip", "each", "", 2)) || (matches!(api, JsApi::Test | JsApi::It)
                && (parts_are(parts, "concurrent", "", "", 1) || parts_are(
                parts,
                "concurrent",
                "only",
                "",
                2,
            ) || parts_are(parts, "concurrent", "skip", "", 2) || parts_are(
                parts,
                "concurrent",
                "each",
                "",
                2,
            ) || parts_are(parts, "concurrent", "only", "each", 3) || parts_are(
                parts,
                "concurrent",
                "skip",
                "each",
                3,
            )))
        },
        JsProvider::Vitest => {
            let upto = if each && parts.len() > 0 {
                parts.len() - 1
            } else {
                parts.len()
            };
            proof {
                let v = names_view(parts@);
                if each && parts.len() > 0 {
                    assert(v.drop_last() =~= v.take(upto as int));
                } else {
                    assert(v =~= v.take(upto as int));
                }
            }
            vitest_options_exec(parts, upto)
        },
    }
}

fn is_callback_exec(t: &SyntaxTree, n: usize) -> (r: bool)
    requires
        t.valid(n as int),
    ensures
        r == is_callback(t, n as int),
{
    t.kind_is(n, "arrow_function") || t.kind_is(n, "function_expression") || t.kind_is(
        n,
        "generator_function",
    )
}

fn unparen_exec(t: &SyntaxTree, n: usize) -> (r: Option<usize>)
    requires
        t.wf(),
        t.valid(n as int),
    ensures
        match r {
            Some(u) => unparen(t, n as int) == u as int && t.valid(u as int),
            None => unparen(t, n as int) < 0,
        },
{
    let mut cur = n;
    while t.kind_is(cur, "parenthesized_expression")
        invariant
            t.wf(),
            t.valid(cur as int),
            unparen(t, n as int) == unparen(t, cur as int),
        decreases t.len() - cur,
    {
        let ks = t.named_children(cur);
        if ks.len() == 0 {
            return None;
        }
        cur = ks[0];
    }
    Some(cur)
}

fn literal_kind_exec(t: &SyntaxTree, n: usize) -> (r: bool)
    requires
        t.valid(n as int),
    ensures
        r == literal_kind(t.kind(n as int)),
{
    t.kind_is(n, "string") || t.kind_is(n, "template_string") || t.kind_is(n, "number") || t.kind_is(
        n,
        "object",
    ) || t.kind_is(n, "array") || t.kind_is(n, "true") || t.kind_is(n, "false") || t.kind_is(
        n,
        "null",
    ) || t.kind_is(n, "regex") || t.kind_is(n, "arrow_function") || t.kind_is(
        n,
        "function_expression",
    ) || t.kind_is(n, "generator_function")
}

fn slot_fits_exec(t: &SyntaxTree, n: usize, strings: bool, objects: bool, numbers: bool) -> (r: bool)
    requires
        t.wf(),
        t.valid(n as int),
    ensures
        r == slot_fits(t, n as int, strings, objects, numbers),
{
    match unparen_exec(t, n) {
        None => false,
        Some(u) => if literal_kind_exec(t, u) {
            (strings && (t.kind_is(u, "string") || t.kind_is(u, "template_string"))) || (objects
                && t.kind_is(u, "object")) || (numbers && t.kind_is(u, "number"))
        } else {
            !t.kind_is(u, "spread_element")
        },
    }
}

fn callback_argument_exec(t: &SyntaxTree, p: JsProvider, api: JsApi, args: &Vec<usize>) -> (r: Option<usize>)
    requires
        t.wf(),
        forall|i: int| 0 <= i < args@.len() ==> t.valid(#[trigger] args@[i] as int),
    ensures
        match r {
            Some(c) => callback_argument(t, p, api, args@) == c as int && t.valid(c as int),
            None => callback_argument(t, p, api, args@) < 0,
        },
{
    let n = args.len();
    let test = suite_or_test_exec(api);
    let index: Option<usize> = if !test {
        if is_provider(p, JsProvider::Mocha) && n == 2 && !is_callback_exec(t, args[0]) {
            Some(1)
        } else if 1 <= n && n <= 2 {
            Some(0)
        } else {
            None
        }
    } else if is_provider(p, JsProvider::Node) && 1 <= n && n <= 3 {
        Some(n - 1)
    } else if is_provider(p, JsProvider::Vitest) && n == 3 && !is_callback_exec(t, args[1]) {
        Some(2)
    } else if (is_provider(p, JsProvider::Jest) || is_provider(p, JsProvider::Vitest)) && 2 <= n
        && n <= 3 {
        Some(1)
    } else if is_provider(p, JsProvider::Mocha) && n == 2 {
        Some(1)
    } else {
        None
    };
    let idx = match index {
        None => {
            return None;
        },
        Some(i) => i,
    };
    assert(callback_index(t, p, api, args@) == idx as int);
    let name_fits_exec = |x: usize| -> (r: bool)
        requires
            t.wf(),
            t.valid(x as int),
        ensures
            r == name_fits(t, x as int),
        { slot_fits_exec(t, x, true, false, false) };
    let slots: bool = if !test {
        if n == 1 {
            true
        } else if n == 2 && is_provider(p, JsProvider::Mocha) {
            name_fits_exec(args[0])
        } else if n == 2 && is_provider(p, JsProvider::Node) {
            slot_fits_exec(t, args[1], false, true, false)
        } else if n == 2 {
            slot_fits_exec(t, args[1], false, false, true)
        } else {
            false
        }
    } else if is_provider(p, JsProvider::Node) {
        if n == 1 {
            true
        } else if n == 2 {
            slot_fits_exec(t, args[0], true, true, false)
        } else if n == 3 {
            name_fits_exec(args[0]) && slot_fits_exec(t, args[1], false, true, false)
        } else {
            false
        }
    } else if is_provider(p, JsProvider::Vitest) {
        if n == 3 && idx == 2 {
            (name_fits_exec(args[0]) || is_callback_exec(t, args[0])) && slot_fits_exec(
                t,
                args[1],
                false,
                true,
                false,
            )
        } else if n == 3 {
            (name_fits_exec(args[0]) || is_callback_exec(t, args[0])) && slot_fits_exec(
                t,
                args[2],
                false,
                false,
                true,
            )
        } else if n == 2 {
            name_fits_exec(args[0]) || is_callback_exec(t, args[0])
        } else {
            false
        }
    } else if is_provider(p, JsProvider::Jest) {
        if n == 3 {
            !is_callback_exec(t, args[0]) && slot_fits_exec(t, args[2], false, false, true)
        } else if n == 2 {
            !is_callback_exec(t, args[0])
        } else {
            false
        }
    } else {
        n == 2 && name_fits_exec(args[0])
    };
    assert(slots == slots_valid(t, p, api, args@, idx as int));
    if idx < n && is_callback_exec(t, args[idx]) && slots {
        Some(args[idx])
    } else {
        None
    }
}

spec fn call_view(o: Option<(JsProvider, JsApi, Vec<Vec<char>>)>) -> Option<(JsProvider, JsApi, Seq<Seq<char>>)> {
    match o {
        Some(x) => Some((x.0, x.1, names_view(x.2@))),
        None => None,
    }
}

fn drop_first_part(parts: Vec<Vec<char>>) -> (r: Vec<Vec<char>>)
    requires
        parts@.len() > 0,
    ensures
        names_view(r@) == names_view(parts@).drop_first(),
{
    let mut parts = parts;
    let ghost before = parts@;
    parts.remove(0);
    assert(parts@ =~= before.drop_first());
    assert(names_view(parts@) =~= names_view(before).drop_first());
    parts
}

fn api_call_exec(b: JsBinding, parts: Vec<Vec<char>>) -> (r: Option<(JsProvider, JsApi, Vec<Vec<char>>)>)
    ensures
        call_view(r) == api_call(b, names_view(parts@)),
{
    match b {
        JsBinding::Api(p, a) => Some((p, a, parts)),
        JsBinding::Namespace(p) => {
            if parts.len() == 0 {
                return None;
            }
            assert(names_view(parts@)[0] == parts@[0]@);
            match canonical_api_exec(p, parts[0].as_slice()) {
                Some(a) => Some((p, a, drop_first_part(parts))),
                None => None,
            }
        },
        JsBinding::NodeDefault => {
            if parts.len() > 0 {
                assert(names_view(parts@)[0] == parts@[0]@);
                match canonical_api_exec(JsProvider::Node, parts[0].as_slice()) {
                    Some(a) => {
                        return Some((JsProvider::Node, a, drop_first_part(parts)));
                    },
                    None => {},
                }
            }
            Some((JsProvider::Node, JsApi::Test, parts))
        },
    }
}

fn test_callback_exec(
    t: &SyntaxTree,
    call: usize,
    ds: &Vec<JsDeclaration>,
    flags: &Vec<bool>,
    Ghost(asg): Ghost<Seq<(Seq<char>, int)>>,
) -> (r: Option<usize>)
    requires
        t.wf(),
        t.valid(call as int),
        decls_ok(ds@),
        flags@.len() == ds@.len(),
        forall|i: int| 0 <= i < ds@.len() ==> #[trigger] flags@[i] == invalid(decls_of(ds@), asg, i),
    ensures
        match r {
            Some(c) => test_callback(t, call as int, decls_of(ds@), asg) == c as int && t.valid(c as int),
            None => test_callback(t, call as int, decls_of(ds@), asg) < 0,
        },
{
    let f = match t.field_child(call, "function") {
        None => {
            return None;
        },
        Some(f) => f,
    };
    let (root, parts, each) = match callee_exec(t, f) {
        None => {
            return None;
        },
        Some(c) => c,
    };
    let b = match resolve_exec(ds, flags, root.as_slice(), t.nodes[call].start, Ghost(asg)) {
        None => {
            return None;
        },
        Some(b) => b,
    };
    let (p, api, mods) = match api_call_exec(b, parts) {
        None => {
            return None;
        },
        Some(x) => x,
    };
    if !modifiers_valid_exec(p, api, &mods, each) {
        return None;
    }
    let args = arguments_exec(t, call);
    callback_argument_exec(t, p, api, &args)
}

/// The character ranges of the test callbacks in a JavaScript or
/// TypeScript syntax tree, in preorder of their calls.
pub fn javascript_test_ranges(t: &SyntaxTree) -> (r: Vec<Range<usize>>)
    requires
        t.wf(),
    ensures
        spans_of(r@) == javascript_test_spans(t),
{
    let ds = all_declarations(t);
    let asg = all_assignments(t);
    let flags = invalid_flags(&ds, &asg);
    let ghost dv = decls_of(ds@);
    let ghost av = asg_of(asg@);
    let mut r: Vec<Range<usize>> = Vec::new();
    let len = t.node_count();
    let mut i: usize = 0;
    assert(spans_of(r@) =~= js_spans_upto(t, dv, av, 0));
    while i < len
        invariant
            t.wf(),
            i <= len == t.len(),
            dv == decls_of(ds@),
            dv == declarations_upto(t, t.len()),
            av == assignments_upto(t, t.len()),
            decls_ok(ds@),
            flags@.len() == ds@.len(),
            forall|k: int| 0 <= k < ds@.len() ==> #[trigger] flags@[k] == invalid(dv, av, k),
            spans_of(r@) == js_spans_upto(t, dv, av, i as int),
        decreases len - i,
    {
        if t.is_named(i) && t.kind_is(i, "call_expression") {
            match test_callback_exec(t, i, &ds, &flags, Ghost(av)) {
                Some(cb) => {
                    if valid_exec(t, i) {
                        let x = t.nodes[cb].start..t.nodes[cb].end;
                        r.push(x);
                    }
                },
                None => {},
            }
        }
        assert(spans_of(r@) =~= js_spans_upto(t, dv, av, i + 1));
        i = i + 1;
    }
    r
}

// ── The API catalogs ───────────────────────────────────────────────────

/// The test APIs each provider exports, by name: Jest has no `suite` and
/// no Mocha-style `before`/`after`; Vitest adds `suite`; Mocha and
/// `node:test` use `before`/`after` in place of `beforeAll`/`afterAll`.
/// Every provider has the per-test hooks `beforeEach` and `afterEach`.
pub open spec fn js_catalog(p: JsProvider) -> Seq<Seq<char>> {
    match p {
        JsProvider::Jest => seq![
            "test"@,
            "it"@,
            "describe"@,
            "beforeAll"@,
            "afterAll"@,
            "beforeEach"@,
            "afterEach"@,
        ],
        JsProvider::Vitest => seq![
            "test"@,
            "it"@,
            "describe"@,
            "suite"@,
            "beforeAll"@,
            "afterAll"@,
            "beforeEach"@,
            "afterEach"@,
        ],
        JsProvider::Mocha | JsProvider::Node => seq![
            "test"@,
            "it"@,
            "describe"@,
            "suite"@,
            "before"@,
            "after"@,
            "beforeEach"@,
            "afterEach"@,
        ],
    }
}

/// The name an API is exported under.
pub open spec fn api_name(a: JsApi) -> Seq<char> {
    match a {
        JsApi::Test => "test"@,
        JsApi::It => "it"@,
        JsApi::Describe => "describe"@,
        JsApi::Suite => "suite"@,
        JsApi::BeforeAll => "beforeAll"@,
        JsApi::AfterAll => "afterAll"@,
        JsApi::BeforeEach => "beforeEach"@,
        JsApi::AfterEach => "afterEach"@,
        JsApi::Before => "before"@,
        JsApi::After => "after"@,
    }
}

/// A name is an API of a provider exactly when the provider's catalog
/// lists it, and the API it stands for is the one exported under that
/// name.
pub proof fn lemma_canonical_api_follows_the_catalogs(p: JsProvider, s: Seq<char>)
    ensures
        js_catalog(p).contains(s) <==> canonical_api(p, s) is Some,
        canonical_api(p, s) matches Some(a) ==> api_name(a) == s,
{
    let c = js_catalog(p);
    if c.contains(s) {
        let i = choose|i: int| 0 <= i < c.len() && c[i] == s;
        assert(canonical_api(p, s) is Some);
    }
    if canonical_api(p, s) is Some {
        let mocha_like = p == JsProvider::Mocha || p == JsProvider::Node;
        let jest_like = p == JsProvider::Jest || p == JsProvider::Vitest;
        if s == "test"@ {
            assert(c[0] == s);
        } else if s == "it"@ {
            assert(c[1] == s);
        } else if s == "describe"@ {
            assert(c[2] == s);
        } else if s == "suite"@ && p != JsProvider::Jest {
            assert(c[3] == s);
        } else if s == "beforeAll"@ && jest_like {
            assert(c[if p == JsProvider::Jest { 3int } else { 4int }] == s);
        } else if s == "afterAll"@ && jest_like {
            assert(c[if p == JsProvider::Jest { 4int } else { 5int }] == s);
        } else if s == "beforeEach"@ {
            assert(c[if p == JsProvider::Jest { 5int } else { 6int }] == s);
        } else if s == "afterEach"@ {
            assert(c[if p == JsProvider::Jest { 6int } else { 7int }] == s);
        } else if s == "before"@ && mocha_like {
            assert(c[4] == s);
        } else {
            assert(c[5] == s);
        }
    }
}

/// The module specifiers of the test frameworks: Jest's globals, Vitest,
/// Mocha and `node:test`; no other import makes a provider.
pub proof fn lemma_providers_are_the_four_frameworks(s: Seq<char>)
    ensures
        provider_of(s) is Some <==> (s == "@jest/globals"@ || s == "vitest"@ || s == "mocha"@ || s
            == "node:test"@),
        s == "@jest/globals"@ ==> provider_of(s) == Some(JsProvider::Jest),
        provider_of(s) == Some(JsProvider::Vitest) ==> s == "vitest"@,
        provider_of(s) == Some(JsProvider::Mocha) ==> s == "mocha"@,
        provider_of(s) == Some(JsProvider::Node) ==> s == "node:test"@,
{
}

/// Of the test APIs, `test`, `it`, `describe` and `suite` declare tests and
/// suites; the hooks (`beforeAll`, `afterAll`, `beforeEach`, `afterEach`,
/// `before`, `after`) do not.
pub proof fn lemma_suites_and_tests(a: JsApi)
    ensures
        is_suite_or_test(a) <==> (api_name(a) == "test"@ || api_name(a) == "it"@ || api_name(a)
            == "describe"@ || api_name(a) == "suite"@),
{
    reveal_strlit("test");
    reveal_strlit("it");
    reveal_strlit("describe");
    reveal_strlit("suite");
    reveal_strlit("beforeAll");
    reveal_strlit("afterAll");
    reveal_strlit("beforeEach");
    reveal_strlit("afterEach");
    reveal_strlit("before");
    reveal_strlit("after");
    match a {
        JsApi::BeforeAll => {
            assert(api_name(a)[0] != "test"@[0] && api_name(a).len() != "it"@.len());
            assert(api_name(a).len() != "describe"@.len() && api_name(a).len() != "suite"@.len());
        },
        JsApi::AfterAll => {
            assert(api_name(a)[0] != "test"@[0] && api_name(a).len() != "it"@.len());
            assert(api_name(a)[0] != "describe"@[0] && api_name(a).len() != "suite"@.len());
        },
        JsApi::BeforeEach => {
            assert(api_name(a).len() != "test"@.len() && api_name(a).len() != "it"@.len());
            assert(api_name(a).len() != "describe"@.len() && api_name(a).len() != "suite"@.len());
        },
        JsApi::AfterEach => {
            assert(api_name(a).len() != "test"@.len() && api_name(a).len() != "it"@.len());
            assert(api_name(a).len() != "describe"@.len() && api_name(a).len() != "suite"@.len());
        },
        JsApi::Before => {
            assert(api_name(a).len() != "test"@.len() && api_name(a).len() != "it"@.len());
            assert(api_name(a).len() != "describe"@.len() && api_name(a).len() != "suite"@.len());
        },
        JsApi::After => {
            assert(api_name(a).len() != "test"@.len() && api_name(a).len() != "it"@.len());
            assert(api_name(a).len() != "describe"@.len() && api_name(a)[0] != "suite"@[0]);
        },
        _ => {},
    }
}

} // verus!
