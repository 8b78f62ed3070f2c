//! Test code in a Java, C# or Kotlin file: classes and methods carrying a
//! test-framework annotation or attribute that resolves, through the file's
//! own imports and `using` directives, to a known JUnit, TestNG, kotlin.test,
//! xUnit, NUnit or MSTest marker; and Java classes that extend
//! `junit.framework.TestCase`. No framework is guessed from a bare name.
//! The result is the character ranges of those declarations, in preorder.
use std::ops::Range;

use vstd::prelude::*;

use crate::metrics::complexity::fallback::Language;
use crate::metrics::complexity::rust_test_code::parent_index;
use crate::metrics::complexity::syntax::SyntaxTree;
use crate::metrics::complexity::test_context::{spans_of, Span};
use crate::text::{
    chars_eq, chars_eq_str, chars_of, contains_char, ends_with_str, is_prefix, is_suffix,
    is_whitespace, is_ws, occurs_at_exec, push_all, push_str, slice_vec, strip_ws,
    without_ws,
};

verus! {

/// A binding as `(name, target, scope start, scope end)`. An import without
/// a name (a C# `using` of a namespace) offers its target as a prefix; an
/// empty target is a local type that shadows an import.
pub type ManagedBind = (Option<Seq<char>>, Seq<char>, int, int);

// ── Text ───────────────────────────────────────────────────────────────

/// The first position at or after `i` holding `c`, or -1.
pub open spec fn char_from(s: Seq<char>, c: char, i: int) -> int
    decreases s.len() - i,
{
    if i < 0 || i >= s.len() {
        -1
    } else if s[i] == c {
        i
    } else {
        char_from(s, c, i + 1)
    }
}

/// The last position at or before `i` holding `c`, or -1.
pub open spec fn char_before(s: Seq<char>, c: char, i: int) -> int
    decreases i + 1,
{
    if i < 0 {
        -1
    } else if i < s.len() && s[i] == c {
        i
    } else {
        char_before(s, c, i - 1)
    }
}

/// What follows the last `.` (all of `s` without one).
pub open spec fn after_last_dot(s: Seq<char>) -> Seq<char> {
    let j = char_before(s, '.', s.len() - 1);
    if j < 0 {
        s
    } else {
        s.subrange(j + 1, s.len() as int)
    }
}

/// What precedes the first `.` (all of `s` without one).
pub open spec fn before_first_dot(s: Seq<char>) -> Seq<char> {
    let j = char_from(s, '.', 0);
    if j < 0 {
        s
    } else {
        s.subrange(0, j)
    }
}

/// `w` stands at `i` as a whole whitespace-separated word.
pub open spec fn token_at(s: Seq<char>, w: Seq<char>, i: int) -> bool {
    &&& 0 <= i
    &&& i + w.len() <= s.len()
    &&& s.subrange(i, i + w.len()) == w
    &&& (i == 0 || is_ws(s[i - 1]))
    &&& (i + w.len() == s.len() || is_ws(s[i + w.len()]))
}

pub open spec fn has_token(s: Seq<char>, w: Seq<char>) -> bool {
    exists|i: int| token_at(s, w, i)
}

/// `s` without its leading `global::` qualifiers.
pub open spec fn strip_global(s: Seq<char>) -> Seq<char>
    decreases s.len(),
{
    if s.len() >= 8 && is_prefix(s, "global::"@) {
        strip_global(s.subrange(8, s.len() as int))
    } else {
        s
    }
}

/// `s` with each `::` (read left to right) written as `.`.
pub open spec fn dotted(s: Seq<char>) -> Seq<char>
    decreases s.len(),
{
    if s.len() == 0 {
        seq![]
    } else if s.len() >= 2 && s[0] == ':' && s[1] == ':' {
        seq!['.'] + dotted(s.subrange(2, s.len() as int))
    } else {
        seq![s[0]] + dotted(s.subrange(1, s.len() as int))
    }
}

/// A C# attribute name without its `Attribute` suffix.
pub open spec fn unattributed(s: Seq<char>, csharp: bool) -> Seq<char> {
    if csharp && is_suffix(s, "Attribute"@) {
        s.subrange(0, s.len() - "Attribute"@.len())
    } else {
        s
    }
}

// ── Markers ────────────────────────────────────────────────────────────

/// Fully qualified markers that make a class a test class.
pub open spec fn class_marker(name: Seq<char>, csharp: bool) -> bool {
    let n = unattributed(name, csharp);
    if csharp {
        n == "NUnit.Framework.TestFixture"@ || n == "NUnit.Framework.TestFixtureSource"@ || n
            == "Microsoft.VisualStudio.TestTools.UnitTesting.TestClass"@
    } else {
        n == "org.junit.jupiter.api.Nested"@ || n == "org.testng.annotations.Test"@
    }
}

pub open spec fn csharp_method_marker(provider: Seq<char>, m: Seq<char>) -> bool {
    ||| provider == "Xunit"@ && (m == "Fact"@ || m == "Theory"@)
    ||| provider == "NUnit.Framework"@ && (m == "Test"@ || m == "TestCase"@ || m
        == "TestCaseSource"@ || m == "SetUp"@ || m == "TearDown"@ || m == "OneTimeSetUp"@ || m
        == "OneTimeTearDown"@)
    ||| provider == "Microsoft.VisualStudio.TestTools.UnitTesting"@ && (m == "TestMethod"@ || m
        == "DataTestMethod"@ || m == "TestInitialize"@ || m == "TestCleanup"@ || m
        == "ClassInitialize"@ || m == "ClassCleanup"@ || m == "AssemblyInitialize"@ || m
        == "AssemblyCleanup"@)
}

pub open spec fn jvm_method_marker(provider: Seq<char>, m: Seq<char>, kotlin: bool) -> bool {
    ||| provider == "org.junit"@ && (m == "Test"@ || m == "Before"@ || m == "After"@ || m
        == "BeforeClass"@ || m == "AfterClass"@)
    ||| provider == "org.junit.jupiter.api"@ && (m == "Test"@ || m == "RepeatedTest"@ || m
        == "TestFactory"@ || m == "TestTemplate"@ || m == "BeforeEach"@ || m == "AfterEach"@ || m
        == "BeforeAll"@ || m == "AfterAll"@)
    ||| provider == "org.junit.jupiter.params"@ && m == "ParameterizedTest"@
    ||| provider == "org.testng.annotations"@ && (m == "Test"@ || m == "BeforeSuite"@ || m
        == "AfterSuite"@ || m == "BeforeTest"@ || m == "AfterTest"@ || m == "BeforeGroups"@ || m
        == "AfterGroups"@ || m == "BeforeClass"@ || m == "AfterClass"@ || m == "BeforeMethod"@
        || m == "AfterMethod"@)
    ||| kotlin && provider == "kotlin.test"@ && (m == "Test"@ || m == "BeforeTest"@ || m
        == "AfterTest"@)
}

/// Fully qualified markers that make a method or function test code.
pub open spec fn method_marker(name: Seq<char>, csharp: bool, kotlin: bool) -> bool {
    let n = unattributed(name, csharp);
    let j = char_before(n, '.', n.len() - 1);
    if j < 0 {
        false
    } else if csharp {
        csharp_method_marker(n.subrange(0, j), n.subrange(j + 1, n.len() as int))
    } else {
        jvm_method_marker(n.subrange(0, j), n.subrange(j + 1, n.len() as int), kotlin)
    }
}

// ── Scopes and bindings ────────────────────────────────────────────────

pub open spec fn opens_scope(k: Seq<char>) -> bool {
    k == "class_body"@ || k == "declaration_list"@ || k == "block"@ || k == "source_file"@ || k
        == "program"@ || k == "compilation_unit"@
}

/// The first node at or above `p` that opens a scope, or `n` itself.
pub open spec fn scope_from(t: &SyntaxTree, p: int, n: int) -> int
    decreases p + 1,
{
    if p < 0 || p >= t.len() {
        n
    } else if opens_scope(t.kind(p)) {
        p
    } else if parent_index(t, p) < p {
        scope_from(t, parent_index(t, p), n)
    } else {
        n
    }
}

pub open spec fn range_of(t: &SyntaxTree, n: int) -> (int, int) {
    (t.nodes@[n].start as int, t.nodes@[n].end as int)
}

/// The range a binding made at `n` is visible in.
pub open spec fn scope_range(t: &SyntaxTree, n: int) -> (int, int) {
    range_of(t, scope_from(t, parent_index(t, n), n))
}

pub open spec fn path_of(t: &SyntaxTree, n: int) -> Seq<char> {
    without_ws(t.text_of(n))
}

/// The binding an import or `using` directive at `n` makes.
pub open spec fn import_binding(t: &SyntaxTree, n: int) -> Option<ManagedBind> {
    let parts = t.named_kids(n);
    let sc = scope_range(t, n);
    if t.nodes@[n].has_error {
        None
    } else if t.kind(n) == "import_declaration"@ || t.kind(n) == "import"@ {
        if t.text_of(n).contains('*') || parts.len() == 0 {
            None
        } else {
            let target = path_of(t, parts[0] as int);
            let name = if t.kind(n) == "import"@ && parts.len() > 1 {
                path_of(t, parts.last() as int)
            } else {
                after_last_dot(target)
            };
            Some((Some(name), target, sc.0, sc.1))
        }
    } else if t.kind(n) == "using_directive"@ {
        if has_token(t.text_of(n), "static"@) || parts.len() == 0 {
            None
        } else {
            let target = strip_global(path_of(t, parts.last() as int));
            let name = match t.field(n, "name"@) {
                Some(x) => Some(path_of(t, x as int)),
                None => None,
            };
            Some((name, target, sc.0, sc.1))
        }
    } else {
        None
    }
}

pub open spec fn declares_type(k: Seq<char>) -> bool {
    k == "class_declaration"@ || k == "interface_declaration"@ || k
        == "annotation_type_declaration"@ || k == "enum_declaration"@ || k
        == "record_declaration"@ || k == "struct_declaration"@ || k == "object_declaration"@ || k
        == "type_alias"@ || k == "type_parameter"@ || k == "namespace_declaration"@
}

/// The first of `ks[j..]` that is an identifier or type identifier, or -1.
pub open spec fn first_identifier(t: &SyntaxTree, ks: Seq<usize>, j: int) -> int
    decreases ks.len() - j,
{
    if j < 0 || j >= ks.len() {
        -1
    } else if t.kind(ks[j] as int) == "identifier"@ || t.kind(ks[j] as int) == "type_identifier"@ {
        ks[j] as int
    } else {
        first_identifier(t, ks, j + 1)
    }
}

/// The declaration a type parameter list at or above `p` belongs to.
pub open spec fn parameter_owner(t: &SyntaxTree, p: int) -> Option<(int, int)>
    decreases p + 1,
{
    if p < 0 || p >= t.len() {
        None
    } else if t.kind(p) == "type_parameters"@ || t.kind(p) == "type_parameter_list"@ {
        if parent_index(t, p) < p {
            parameter_owner(t, parent_index(t, p))
        } else {
            None
        }
    } else {
        Some(range_of(t, p))
    }
}

/// The shadowing binding a type declaration at `n` makes.
pub open spec fn shadow_binding(t: &SyntaxTree, n: int) -> Option<ManagedBind> {
    let nm = match t.field(n, "name"@) {
        Some(x) => x as int,
        None => first_identifier(t, t.named_kids(n), 0),
    };
    let sc = if t.kind(n) == "type_parameter"@ {
        parameter_owner(t, parent_index(t, n))
    } else {
        Some(scope_range(t, n))
    };
    if !declares_type(t.kind(n)) || nm < 0 {
        None
    } else {
        match sc {
            Some(r) => Some((Some(before_first_dot(path_of(t, nm))), seq![], r.0, r.1)),
            None => None,
        }
    }
}

pub open spec fn binding_at(t: &SyntaxTree, n: int) -> Option<ManagedBind> {
    match import_binding(t, n) {
        Some(b) => Some(b),
        None => shadow_binding(t, n),
    }
}

/// The bindings of the named nodes among the first `i`, in preorder.
pub open spec fn bindings_upto(t: &SyntaxTree, i: int) -> Seq<ManagedBind>
    decreases i,
{
    if i <= 0 {
        seq![]
    } else {
        bindings_upto(t, i - 1) + if t.nodes@[i - 1].named && binding_at(t, i - 1) is Some {
            seq![binding_at(t, i - 1)->0]
        } else {
            seq![]
        }
    }
}

pub open spec fn file_bindings(t: &SyntaxTree) -> Seq<ManagedBind> {
    bindings_upto(t, t.len())
}

// ── Resolution ─────────────────────────────────────────────────────────

pub open spec fn names_head(b: ManagedBind, at: int, head: Seq<char>, csharp: bool) -> bool {
    &&& b.2 <= at < b.3
    &&& b.0 matches Some(nm) && (nm == head || (csharp && is_suffix(nm, "Attribute"@) && nm.subrange(
        0,
        nm.len() - "Attribute"@.len(),
    ) == head))
}

pub open spec fn offers(b: ManagedBind, at: int, r: Seq<char>, csharp: bool) -> bool {
    &&& b.2 <= at < b.3
    &&& b.0 is None
    &&& (class_marker(b.1 + "."@ + r, csharp) || method_marker(b.1 + "."@ + r, csharp, false))
}

pub open spec fn head_count(bs: Seq<ManagedBind>, at: int, head: Seq<char>, csharp: bool) -> nat
    decreases bs.len(),
{
    if bs.len() == 0 {
        0
    } else {
        head_count(bs.drop_last(), at, head, csharp) + if names_head(bs.last(), at, head, csharp) {
            1nat
        } else {
            0nat
        }
    }
}

pub open spec fn head_first(bs: Seq<ManagedBind>, at: int, head: Seq<char>, csharp: bool) -> int
    decreases bs.len(),
{
    if bs.len() == 0 {
        -1
    } else if head_first(bs.drop_last(), at, head, csharp) >= 0 {
        head_first(bs.drop_last(), at, head, csharp)
    } else if names_head(bs.last(), at, head, csharp) {
        bs.len() - 1
    } else {
        -1
    }
}

pub open spec fn offer_count(bs: Seq<ManagedBind>, at: int, r: Seq<char>, csharp: bool) -> nat
    decreases bs.len(),
{
    if bs.len() == 0 {
        0
    } else {
        offer_count(bs.drop_last(), at, r, csharp) + if offers(bs.last(), at, r, csharp) {
            1nat
        } else {
            0nat
        }
    }
}

pub open spec fn offer_first(bs: Seq<ManagedBind>, at: int, r: Seq<char>, csharp: bool) -> int
    decreases bs.len(),
{
    if bs.len() == 0 {
        -1
    } else if offer_first(bs.drop_last(), at, r, csharp) >= 0 {
        offer_first(bs.drop_last(), at, r, csharp)
    } else if offers(bs.last(), at, r, csharp) {
        bs.len() - 1
    } else {
        -1
    }
}

/// The fully qualified name that `reference`, written at position `at`,
/// stands for: through the one binding visible there for its first
/// segment; as written when it is qualified; or through the one namespace
/// import under which it names a known marker.
pub open spec fn resolved(reference: Seq<char>, at: int, bs: Seq<ManagedBind>, csharp: bool) -> Option<
    Seq<char>,
> {
    let absolute = csharp && is_prefix(reference, "global::"@);
    let r = dotted(strip_global(reference));
    let d = char_from(r, '.', 0);
    let head = if d < 0 {
        r
    } else {
        r.subrange(0, d)
    };
    let tail = if d < 0 {
        seq![]
    } else {
        r.subrange(d + 1, r.len() as int)
    };
    if !absolute && head_count(bs, at, head, csharp) > 0 {
        let b = bs[head_first(bs, at, head, csharp)];
        if head_count(bs, at, head, csharp) > 1 || b.1.len() == 0 {
            None
        } else if tail.len() == 0 {
            Some(b.1)
        } else {
            Some(b.1 + "."@ + tail)
        }
    } else if tail.len() > 0 {
        Some(r)
    } else if offer_count(bs, at, r, csharp) == 1 {
        Some(bs[offer_first(bs, at, r, csharp)].1 + "."@ + r)
    } else {
        None
    }
}

// ── Declarations ───────────────────────────────────────────────────────

pub open spec fn some_kid_of_kind(t: &SyntaxTree, n: int, k: Seq<char>) -> bool {
    exists|j: int| 0 <= j < t.named_kids(n).len() && #[trigger] t.kind(t.named_kids(n)[j] as int) == k
}

/// The first named node among `i..e` of kind `k`, or -1.
pub open spec fn first_of_kind(t: &SyntaxTree, i: int, e: int, k: Seq<char>) -> int
    decreases e - i,
{
    if i >= e || i < 0 || i >= t.len() {
        -1
    } else if t.nodes@[i].named && t.kind(i) == k {
        i
    } else {
        first_of_kind(t, i + 1, e, k)
    }
}

/// The name an annotation or attribute node `a` is written with; none for
/// a malformed one or one aimed at another target.
pub open spec fn marker_name(t: &SyntaxTree, a: int) -> Option<Seq<char>> {
    let aimed = match t.nodes@[a].parent {
        Some(p) => t.kind(p as int) == "attribute_list"@ && some_kid_of_kind(
            t,
            p as int,
            "attribute_target_specifier"@,
        ),
        None => false,
    };
    if t.nodes@[a].has_error || some_kid_of_kind(t, a, "use_site_target"@) || aimed {
        None
    } else {
        match t.field(a, "name"@) {
            Some(x) => Some(path_of(t, x as int)),
            None => {
                let u = first_of_kind(t, a, t.end_of(a), "user_type"@);
                if u < 0 {
                    None
                } else {
                    Some(path_of(t, u))
                }
            },
        }
    }
}

pub open spec fn is_annotation(k: Seq<char>) -> bool {
    k == "annotation"@ || k == "marker_annotation"@ || k == "attribute"@
}

/// Whether the annotation node `a` resolves to a class (or method) marker.
pub open spec fn marks(t: &SyntaxTree, a: int, bs: Seq<ManagedBind>, lang: Language, class: bool) -> bool {
    let csharp = lang == Language::CSharp;
    let kotlin = lang == Language::Kotlin;
    t.nodes@[a].named && is_annotation(t.kind(a)) && match marker_name(t, a) {
        Some(nm) => match resolved(nm, t.nodes@[a].start as int, bs, csharp) {
            Some(full) => if class {
                class_marker(full, csharp)
            } else {
                method_marker(full, csharp, kotlin)
            },
            None => false,
        },
        None => false,
    }
}

/// Whether an annotation among the nodes `i..e` marks.
pub open spec fn marks_within(
    t: &SyntaxTree,
    i: int,
    e: int,
    bs: Seq<ManagedBind>,
    lang: Language,
    class: bool,
) -> bool
    decreases e - i,
{
    if i >= e || i < 0 || i >= t.len() {
        false
    } else {
        marks(t, i, bs, lang, class) || marks_within(t, i + 1, e, bs, lang, class)
    }
}

/// Whether one of the modifier or attribute lists of `n` carries a marker.
pub open spec fn marked(t: &SyntaxTree, n: int, bs: Seq<ManagedBind>, lang: Language, class: bool) -> bool {
    exists|j: int|
        0 <= j < t.named_kids(n).len() && {
            let c = #[trigger] t.named_kids(n)[j] as int;
            (t.kind(c) == "modifiers"@ || t.kind(c) == "attribute_list"@) && marks_within(
                t,
                c,
                t.end_of(c),
                bs,
                lang,
                class,
            )
        }
}

/// A supertype node resolving to `junit.framework.TestCase`.
pub open spec fn junit_base(t: &SyntaxTree, ty: int, bs: Seq<ManagedBind>) -> bool {
    resolved(path_of(t, ty), t.nodes@[ty].start as int, bs, false) == Some(
        "junit.framework.TestCase"@,
    )
}

/// The supertype a Kotlin delegation specifier names, or -1.
pub open spec fn kotlin_supertype(t: &SyntaxTree, spec: int) -> int {
    let ks = t.named_kids(spec);
    let c = first_kid(t, ks, 0, "constructor_invocation"@, "user_type"@);
    if c < 0 {
        -1
    } else if t.kind(c) == "constructor_invocation"@ {
        first_kid(t, t.named_kids(c), 0, "user_type"@, "user_type"@)
    } else {
        c
    }
}

/// The first of `ks[j..]` of kind `k1` or `k2`, or -1.
pub open spec fn first_kid(t: &SyntaxTree, ks: Seq<usize>, j: int, k1: Seq<char>, k2: Seq<char>) -> int
    decreases ks.len() - j,
{
    if j < 0 || j >= ks.len() {
        -1
    } else if t.kind(ks[j] as int) == k1 || t.kind(ks[j] as int) == k2 {
        ks[j] as int
    } else {
        first_kid(t, ks, j + 1, k1, k2)
    }
}

/// Whether a supertype listed under `base` is JUnit 3's `TestCase`.
pub open spec fn base_is_junit(t: &SyntaxTree, base: int, bs: Seq<ManagedBind>, kotlin: bool) -> bool {
    exists|j: int|
        0 <= j < t.named_kids(base).len() && {
            let c = #[trigger] t.named_kids(base)[j] as int;
            if kotlin {
                kotlin_supertype(t, c) >= 0 && junit_base(t, kotlin_supertype(t, c), bs)
            } else {
                junit_base(t, c, bs)
            }
        }
}

pub open spec fn extends_test_case(t: &SyntaxTree, n: int, bs: Seq<ManagedBind>, lang: Language) -> bool {
    exists|j: int|
        0 <= j < t.named_kids(n).len() && {
            let c = #[trigger] t.named_kids(n)[j] as int;
            (t.kind(c) == "superclass"@ || t.kind(c) == "delegation_specifiers"@) && base_is_junit(
                t,
                c,
                bs,
                lang == Language::Kotlin,
            )
        }
}

/// Whether an error node stands at or above `p`.
pub open spec fn error_above(t: &SyntaxTree, p: int) -> bool
    decreases p + 1,
{
    if p < 0 || p >= t.len() {
        false
    } else if t.kind(p) == "ERROR"@ {
        true
    } else if parent_index(t, p) < p {
        error_above(t, parent_index(t, p))
    } else {
        false
    }
}

pub open spec fn is_class(k: Seq<char>) -> bool {
    k == "class_declaration"@ || k == "object_declaration"@
}

pub open spec fn is_declaration(k: Seq<char>) -> bool {
    is_class(k) || k == "method_declaration"@ || k == "function_declaration"@ || k
        == "local_function_statement"@
}

/// A well-formed class or method declaration that is test code.
pub open spec fn test_declaration(t: &SyntaxTree, n: int, bs: Seq<ManagedBind>, lang: Language) -> bool {
    let class = is_class(t.kind(n));
    &&& t.nodes@[n].named
    &&& is_declaration(t.kind(n))
    &&& !t.nodes@[n].has_error
    &&& !error_above(t, parent_index(t, n))
    &&& (marked(t, n, bs, lang, class) || (class && lang != Language::CSharp && extends_test_case(
        t,
        n,
        bs,
        lang,
    )))
}

pub open spec fn test_spans_upto(t: &SyntaxTree, bs: Seq<ManagedBind>, lang: Language, i: int) -> Seq<
    Span,
>
    decreases i,
{
    if i <= 0 {
        seq![]
    } else {
        test_spans_upto(t, bs, lang, i - 1) + if test_declaration(t, i - 1, bs, lang) {
            seq![(t.nodes@[i - 1].start, t.nodes@[i - 1].end)]
        } else {
            seq![]
        }
    }
}

/// The character ranges of a Java, C# or Kotlin file's test declarations.
pub open spec fn managed_test_spans(t: &SyntaxTree, lang: Language) -> Seq<Span> {
    test_spans_upto(t, file_bindings(t), lang, t.len())
}

// ── Text, executable ───────────────────────────────────────────────────

fn first_dot(s: &[char]) -> (r: Option<usize>)
    ensures
        match r {
            Some(j) => j as int == char_from(s@, '.', 0) && j < s.len(),
            None => char_from(s@, '.', 0) < 0,
        },
{
    let mut i: usize = 0;
    while i < s.len()
        invariant
            i <= s.len(),
            char_from(s@, '.', 0) == char_from(s@, '.', i as int),
        decreases s.len() - i,
    {
        if s[i] == '.' {
            return Some(i);
        }
        i = i + 1;
    }
    None
}

fn last_dot(s: &[char]) -> (r: Option<usize>)
    ensures
        match r {
            Some(j) => j as int == char_before(s@, '.', s.len() - 1) && j < s.len(),
            None => char_before(s@, '.', s.len() - 1) < 0,
        },
{
    let mut j: usize = s.len();
    while j > 0
        invariant
            j <= s.len(),
            char_before(s@, '.', s.len() - 1) == char_before(s@, '.', j - 1),
        decreases j,
    {
        if s[j - 1] == '.' {
            return Some(j - 1);
        }
        j = j - 1;
    }
    None
}

fn after_last_dot_exec(s: &[char]) -> (r: Vec<char>)
    ensures
        r@ == after_last_dot(s@),
{
    match last_dot(s) {
        Some(j) => slice_vec(s, j + 1, s.len()),
        None => {
            assert(s@.subrange(0, s@.len() as int) =~= s@);
            slice_vec(s, 0, s.len())
        },
    }
}

pub(crate) fn before_first_dot_exec(s: &[char]) -> (r: Vec<char>)
    ensures
        r@ == before_first_dot(s@),
{
    match first_dot(s) {
        Some(j) => slice_vec(s, 0, j),
        None => {
            assert(s@.subrange(0, s@.len() as int) =~= s@);
            slice_vec(s, 0, s.len())
        },
    }
}

fn token_at_exec(s: &[char], w: &[char], i: usize) -> (r: bool)
    ensures
        r == token_at(s@, w@, i as int),
{
    occurs_at_exec(s, w, i) && (i == 0 || is_whitespace(s[i - 1])) && (s.len() - i == w.len()
        || is_whitespace(s[i + w.len()]))
}

fn has_token_exec(s: &[char], w: &str) -> (r: bool)
    ensures
        r == has_token(s@, w@),
{
    let wc = chars_of(w);
    if wc.len() > s.len() {
        assert forall|j: int| !token_at(s@, w@, j) by {}
        return false;
    }
    let limit = s.len() - wc.len();
    let mut i: usize = 0;
    while i < limit
        invariant
            wc@ == w@,
            i <= limit == s.len() - wc.len(),
            forall|j: int| 0 <= j < i ==> !token_at(s@, w@, j),
        decreases limit - i,
    {
        if token_at_exec(s, wc.as_slice(), i) {
            return true;
        }
        i = i + 1;
    }
    if token_at_exec(s, wc.as_slice(), limit) {
        return true;
    }
    assert forall|j: int| !token_at(s@, w@, j) by {
        if 0 <= j < i {
        }
    }
    false
}

fn strip_global_exec(s: &[char]) -> (r: Vec<char>)
    ensures
        r@ == strip_global(s@),
{
    let g = chars_of("global::");
    proof {
        reveal_strlit("global::");
    }
    let mut i: usize = 0;
    assert(s@.subrange(0, s@.len() as int) =~= s@);
    while s.len() - i >= 8 && occurs_at_exec(s, g.as_slice(), i)
        invariant
            i <= s.len(),
            g@ == "global::"@,
            g@.len() == 8,
            strip_global(s@) == strip_global(s@.subrange(i as int, s@.len() as int)),
        decreases s.len() - i,
    {
        proof {
            let u = s@.subrange(i as int, s@.len() as int);
            assert(u.subrange(0, 8) =~= s@.subrange(i as int, i + 8));
            assert(u.subrange(8, u.len() as int) =~= s@.subrange(i + 8, s@.len() as int));
        }
        i = i + 8;
    }
    proof {
        let u = s@.subrange(i as int, s@.len() as int);
        if u.len() >= 8 {
            assert(u.subrange(0, 8) =~= s@.subrange(i as int, i + 8));
        }
    }
    slice_vec(s, i, s.len())
}

fn dotted_exec(s: &[char]) -> (r: Vec<char>)
    ensures
        r@ == dotted(s@),
{
    let mut out: Vec<char> = Vec::new();
    let mut i: usize = 0;
    assert(s@.subrange(0, s@.len() as int) =~= s@);
    while i < s.len()
        invariant
            i <= s.len(),
            dotted(s@) == out@ + dotted(s@.subrange(i as int, s@.len() as int)),
        decreases s.len() - i,
    {
        let ghost u = s@.subrange(i as int, s@.len() as int);
        if s.len() - i >= 2 && s[i] == ':' && s[i + 1] == ':' {
            proof {
                assert(u.subrange(2, u.len() as int) =~= s@.subrange(i + 2, s@.len() as int));
                assert(out@ + (seq!['.'] + dotted(u.subrange(2, u.len() as int))) =~= out@.push(
                    '.',
                ) + dotted(u.subrange(2, u.len() as int)));
            }
            out.push('.');
            i = i + 2;
        } else {
            proof {
                assert(u.subrange(1, u.len() as int) =~= s@.subrange(i + 1, s@.len() as int));
                assert(out@ + (seq![u[0]] + dotted(u.subrange(1, u.len() as int))) =~= out@.push(
                    u[0],
                ) + dotted(u.subrange(1, u.len() as int)));
            }
            out.push(s[i]);
            i = i + 1;
        }
    }
    assert(s@.subrange(i as int, s@.len() as int) =~= Seq::<char>::empty());
    assert(out@ + Seq::<char>::empty() =~= out@);
    out
}

fn unattributed_exec(s: &[char], csharp: bool) -> (r: Vec<char>)
    ensures
        r@ == unattributed(s@, csharp),
{
    proof {
        reveal_strlit("Attribute");
    }
    if csharp && ends_with_str(s, "Attribute") {
        slice_vec(s, 0, s.len() - 9)
    } else {
        assert(s@.subrange(0, s@.len() as int) =~= s@);
        slice_vec(s, 0, s.len())
    }
}

fn class_marker_exec(name: &[char], csharp: bool) -> (r: bool)
    ensures
        r == class_marker(name@, csharp),
{
    let n = unattributed_exec(name, csharp);
    let n = n.as_slice();
    if csharp {
        chars_eq_str(n, "NUnit.Framework.TestFixture") || chars_eq_str(
            n,
            "NUnit.Framework.TestFixtureSource",
        ) || chars_eq_str(n, "Microsoft.VisualStudio.TestTools.UnitTesting.TestClass")
    } else {
        chars_eq_str(n, "org.junit.jupiter.api.Nested") || chars_eq_str(
            n,
            "org.testng.annotations.Test",
        )
    }
}

fn csharp_method_marker_exec(p: &[char], m: &[char]) -> (r: bool)
    ensures
        r == csharp_method_marker(p@, m@),
{
    (chars_eq_str(p, "Xunit") && (chars_eq_str(m, "Fact") || chars_eq_str(m, "Theory"))) || (
    chars_eq_str(p, "NUnit.Framework") && (chars_eq_str(m, "Test") || chars_eq_str(m, "TestCase")
        || chars_eq_str(m, "TestCaseSource") || chars_eq_str(m, "SetUp") || chars_eq_str(
        m,
        "TearDown",
    ) || chars_eq_str(m, "OneTimeSetUp") || chars_eq_str(m, "OneTimeTearDown"))) || (chars_eq_str(
        p,
        "Microsoft.VisualStudio.TestTools.UnitTesting",
    ) && (chars_eq_str(m, "TestMethod") || chars_eq_str(m, "DataTestMethod") || chars_eq_str(
        m,
        "TestInitialize",
    ) || chars_eq_str(m, "TestCleanup") || chars_eq_str(m, "ClassInitialize") || chars_eq_str(
        m,
        "ClassCleanup",
    ) || chars_eq_str(m, "AssemblyInitialize") || chars_eq_str(m, "AssemblyCleanup")))
}

fn jvm_method_marker_exec(p: &[char], m: &[char], kotlin: bool) -> (r: bool)
    ensures
        r == jvm_method_marker(p@, m@, kotlin),
{
    (chars_eq_str(p, "org.junit") && (chars_eq_str(m, "Test") || chars_eq_str(m, "Before")
        || chars_eq_str(m, "After") || chars_eq_str(m, "BeforeClass") || chars_eq_str(
        m,
        "AfterClass",
    ))) || (chars_eq_str(p, "org.junit.jupiter.api") && (chars_eq_str(m, "Test") || chars_eq_str(
        m,
        "RepeatedTest",
    ) || chars_eq_str(m, "TestFactory") || chars_eq_str(m, "TestTemplate") || chars_eq_str(
        m,
        "BeforeEach",
    ) || chars_eq_str(m, "AfterEach") || chars_eq_str(m, "BeforeAll") || chars_eq_str(
        m,
        "AfterAll",
    ))) || (chars_eq_str(p, "org.junit.jupiter.params") && chars_eq_str(m, "ParameterizedTest"))
        || (chars_eq_str(p, "org.testng.annotations") && (chars_eq_str(m, "Test") || chars_eq_str(
        m,
        "BeforeSuite",
    ) || chars_eq_str(m, "AfterSuite") || chars_eq_str(m, "BeforeTest") || chars_eq_str(
        m,
        "AfterTest",
    ) || chars_eq_str(m, "BeforeGroups") || chars_eq_str(m, "AfterGroups") || chars_eq_str(
        m,
        "BeforeClass",
    ) || chars_eq_str(m, "AfterClass") || chars_eq_str(m, "BeforeMethod") || chars_eq_str(
        m,
        "AfterMethod",
    ))) || (kotlin && chars_eq_str(p, "kotlin.test") && (chars_eq_str(m, "Test") || chars_eq_str(
        m,
        "BeforeTest",
    ) || chars_eq_str(m, "AfterTest")))
}

fn method_marker_exec(name: &[char], csharp: bool, kotlin: bool) -> (r: bool)
    ensures
        r == method_marker(name@, csharp, kotlin),
{
    let n = unattributed_exec(name, csharp);
    match last_dot(n.as_slice()) {
        None => false,
        Some(j) => {
            let p = slice_vec(n.as_slice(), 0, j);
            let m = slice_vec(n.as_slice(), j + 1, n.len());
            if csharp {
                csharp_method_marker_exec(p.as_slice(), m.as_slice())
            } else {
                jvm_method_marker_exec(p.as_slice(), m.as_slice(), kotlin)
            }
        },
    }
}

// ── Bindings, executable ───────────────────────────────────────────────

struct ManagedBinding {
    name: Option<Vec<char>>,
    target: Vec<char>,
    start: usize,
    end: usize,
}

spec fn name_view(o: Option<Vec<char>>) -> Option<Seq<char>> {
    match o {
        Some(v) => Some(v@),
        None => None,
    }
}

impl View for ManagedBinding {
    type V = ManagedBind;

    closed spec fn view(&self) -> ManagedBind {
        (name_view(self.name), self.target@, self.start as int, self.end as int)
    }
}

spec fn binds_of(v: Seq<ManagedBinding>) -> Seq<ManagedBind> {
    v.map_values(|b: ManagedBinding| b@)
}

spec fn bind_view(o: Option<ManagedBinding>) -> Option<ManagedBind> {
    match o {
        Some(b) => Some(b@),
        None => None,
    }
}

fn path_exec(t: &SyntaxTree, n: usize) -> (r: Vec<char>)
    requires
        t.wf(),
        t.valid(n as int),
    ensures
        r@ == path_of(t, n as int),
{
    let x = t.text(n);
    strip_ws(x.as_slice())
}

fn scope_range_exec(t: &SyntaxTree, n: usize) -> (r: (usize, usize))
    requires
        t.wf(),
        t.valid(n as int),
    ensures
        (r.0 as int, r.1 as int) == scope_range(t, n as int),
{
    let mut cur = t.parent_of(n);
    loop
        invariant
            t.wf(),
            t.valid(n as int),
            cur matches Some(p) ==> p < n,
            scope_from(t, parent_index(t, n as int), n as int) == match cur {
                Some(p) => scope_from(t, p as int, n as int),
                None => n as int,
            },
        decreases match cur {
            Some(p) => p + 1,
            None => 0,
        },
    {
        match cur {
            None => {
                return (t.nodes[n].start, t.nodes[n].end);
            },
            Some(p) => {
                assert(t.node_wf(p as int));
                if t.kind_is(p, "class_body") || t.kind_is(p, "declaration_list") || t.kind_is(
                    p,
                    "block",
                ) || t.kind_is(p, "source_file") || t.kind_is(p, "program") || t.kind_is(
                    p,
                    "compilation_unit",
                ) {
                    return (t.nodes[p].start, t.nodes[p].end);
                }
                assert(p > 0 ==> t.nodes@[p as int].parent is Some);
                assert(parent_index(t, p as int) < p);
                assert(scope_from(t, p as int, n as int) == scope_from(
                    t,
                    parent_index(t, p as int),
                    n as int,
                ));
                cur = t.parent_of(p);
            },
        }
    }
}

fn import_binding_exec(t: &SyntaxTree, n: usize) -> (r: Option<ManagedBinding>)
    requires
        t.wf(),
        t.valid(n as int),
    ensures
        bind_view(r) == import_binding(t, n as int),
{
    if t.nodes[n].has_error {
        return None;
    }
    let parts = t.named_children(n);
    if t.kind_is(n, "import_declaration") || t.kind_is(n, "import") {
        let whole = t.text(n);
        if contains_char(whole.as_slice(), '*') || parts.len() == 0 {
            return None;
        }
        let target = path_exec(t, parts[0]);
        let name = if t.kind_is(n, "import") && parts.len() > 1 {
            path_exec(t, parts[parts.len() - 1])
        } else {
            after_last_dot_exec(target.as_slice())
        };
        let sc = scope_range_exec(t, n);
        Some(ManagedBinding { name: Some(name), target, start: sc.0, end: sc.1 })
    } else if t.kind_is(n, "using_directive") {
        let whole = t.text(n);
        if has_token_exec(whole.as_slice(), "static") || parts.len() == 0 {
            return None;
        }
        let last = path_exec(t, parts[parts.len() - 1]);
        let target = strip_global_exec(last.as_slice());
        let name = match t.field_child(n, "name") {
            Some(x) => Some(path_exec(t, x)),
            None => None,
        };
        let sc = scope_range_exec(t, n);
        Some(ManagedBinding { name, target, start: sc.0, end: sc.1 })
    } else {
        None
    }
}

fn first_identifier_exec(t: &SyntaxTree, ks: &Vec<usize>) -> (r: Option<usize>)
    requires
        forall|k: int| 0 <= k < ks@.len() ==> t.valid(#[trigger] ks@[k] as int),
    ensures
        match r {
            Some(c) => c as int == first_identifier(t, ks@, 0) && t.valid(c as int),
            None => first_identifier(t, ks@, 0) < 0,
        },
{
    let mut j: usize = 0;
    while j < ks.len()
        invariant
            j <= ks.len(),
            forall|k: int| 0 <= k < ks@.len() ==> t.valid(#[trigger] ks@[k] as int),
            first_identifier(t, ks@, 0) == first_identifier(t, ks@, j as int),
        decreases ks.len() - j,
    {
        if t.kind_is(ks[j], "identifier") || t.kind_is(ks[j], "type_identifier") {
            return Some(ks[j]);
        }
        j = j + 1;
    }
    None
}

fn parameter_owner_exec(t: &SyntaxTree, n: usize) -> (r: Option<(usize, usize)>)
    requires
        t.wf(),
        t.valid(n as int),
    ensures
        match r {
            Some(x) => parameter_owner(t, parent_index(t, n as int)) == Some(
                (x.0 as int, x.1 as int),
            ),
            None => parameter_owner(t, parent_index(t, n as int)) is None,
        },
{
    let mut cur = t.parent_of(n);
    loop
        invariant
            t.wf(),
            t.valid(n as int),
            cur matches Some(p) ==> p < n,
            parameter_owner(t, parent_index(t, n as int)) == match cur {
                Some(p) => parameter_owner(t, p as int),
                None => None,
            },
        decreases match cur {
            Some(p) => p + 1,
            None => 0,
        },
    {
        match cur {
            None => {
                return None;
            },
            Some(p) => {
                assert(t.node_wf(p as int));
                if !(t.kind_is(p, "type_parameters") || t.kind_is(p, "type_parameter_list")) {
                    return Some((t.nodes[p].start, t.nodes[p].end));
                }
                assert(p > 0 ==> t.nodes@[p as int].parent is Some);
                assert(parent_index(t, p as int) < p);
                assert(parameter_owner(t, p as int) == parameter_owner(
                    t,
                    parent_index(t, p as int),
                ));
                cur = t.parent_of(p);
            },
        }
    }
}

fn declares_type_exec(t: &SyntaxTree, n: usize) -> (r: bool)
    requires
        t.valid(n as int),
    ensures
        r == declares_type(t.kind(n as int)),
{
    t.kind_is(n, "class_declaration") || t.kind_is(n, "interface_declaration") || t.kind_is(
        n,
        "annotation_type_declaration",
    ) || t.kind_is(n, "enum_declaration") || t.kind_is(n, "record_declaration") || t.kind_is(
        n,
        "struct_declaration",
    ) || t.kind_is(n, "object_declaration") || t.kind_is(n, "type_alias") || t.kind_is(
        n,
        "type_parameter",
    ) || t.kind_is(n, "namespace_declaration")
}

fn shadow_binding_exec(t: &SyntaxTree, n: usize) -> (r: Option<ManagedBinding>)
    requires
        t.wf(),
        t.valid(n as int),
    ensures
        bind_view(r) == shadow_binding(t, n as int),
{
    if !declares_type_exec(t, n) {
        return None;
    }
    let nm = match t.field_child(n, "name") {
        Some(x) => x,
        None => {
            let ks = t.named_children(n);
            match first_identifier_exec(t, &ks) {
                Some(c) => c,
                None => {
                    return None;
                },
            }
        },
    };
    let sc = if t.kind_is(n, "type_parameter") {
        match parameter_owner_exec(t, n) {
            Some(x) => x,
            None => {
                return None;
            },
        }
    } else {
        scope_range_exec(t, n)
    };
    let p = path_exec(t, nm);
    let name = before_first_dot_exec(p.as_slice());
    Some(ManagedBinding { name: Some(name), target: Vec::new(), start: sc.0, end: sc.1 })
}

fn file_bindings_exec(t: &SyntaxTree) -> (r: Vec<ManagedBinding>)
    requires
        t.wf(),
    ensures
        binds_of(r@) == file_bindings(t),
{
    let mut r: Vec<ManagedBinding> = Vec::new();
    let len = t.node_count();
    let mut i: usize = 0;
    assert(binds_of(r@) =~= bindings_upto(t, 0));
    while i < len
        invariant
            t.wf(),
            i <= len == t.len(),
            binds_of(r@) == bindings_upto(t, i as int),
        decreases len - i,
    {
        if t.is_named(i) {
            let b = match import_binding_exec(t, i) {
                Some(b) => Some(b),
                None => shadow_binding_exec(t, i),
            };
            match b {
                Some(b) => {
                    proof {
                        assert(binds_of(r@.push(b)) =~= binds_of(r@).push(b@));
                    }
                    r.push(b);
                },
                None => {},
            }
        }
        assert(binds_of(r@) =~= bindings_upto(t, i + 1));
        i = i + 1;
    }
    r
}

// ── Resolution, executable ─────────────────────────────────────────────

fn names_head_exec(b: &ManagedBinding, at: usize, head: &[char], csharp: bool) -> (r: bool)
    ensures
        r == names_head(b@, at as int, head@, csharp),
{
    proof {
        reveal_strlit("Attribute");
    }
    if !(b.start <= at && at < b.end) {
        return false;
    }
    match &b.name {
        Some(nm) => {
            if chars_eq(nm.as_slice(), head) {
                return true;
            }
            if csharp && ends_with_str(nm.as_slice(), "Attribute") {
                let bare = slice_vec(nm.as_slice(), 0, nm.len() - 9);
                return chars_eq(bare.as_slice(), head);
            }
            false
        },
        None => false,
    }
}

fn offers_exec(b: &ManagedBinding, at: usize, r: &[char], csharp: bool) -> (res: bool)
    ensures
        res == offers(b@, at as int, r@, csharp),
{
    if !(b.start <= at && at < b.end) || b.name.is_some() {
        return false;
    }
    let mut full = slice_vec(b.target.as_slice(), 0, b.target.len());
    assert(full@ =~= b.target@);
    push_str(&mut full, ".");
    push_all(&mut full, r);
    class_marker_exec(full.as_slice(), csharp) || method_marker_exec(full.as_slice(), csharp, false)
}

proof fn lemma_head_first(bs: Seq<ManagedBind>, at: int, head: Seq<char>, csharp: bool)
    ensures
        head_count(bs, at, head, csharp) > 0 <==> head_first(bs, at, head, csharp) >= 0,
        head_first(bs, at, head, csharp) < bs.len(),
    decreases bs.len(),
{
    if bs.len() > 0 {
        lemma_head_first(bs.drop_last(), at, head, csharp);
    }
}

proof fn lemma_offer_first(bs: Seq<ManagedBind>, at: int, r: Seq<char>, csharp: bool)
    ensures
        offer_count(bs, at, r, csharp) > 0 <==> offer_first(bs, at, r, csharp) >= 0,
        offer_first(bs, at, r, csharp) < bs.len(),
    decreases bs.len(),
{
    if bs.len() > 0 {
        lemma_offer_first(bs.drop_last(), at, r, csharp);
    }
}

/// How many visible bindings name `head`, and the first of them.
fn heads(bs: &Vec<ManagedBinding>, at: usize, head: &[char], csharp: bool) -> (r: (
    usize,
    Option<usize>,
))
    ensures
        r.0 == head_count(binds_of(bs@), at as int, head@, csharp),
        match r.1 {
            Some(k) => k < bs@.len() && k as int == head_first(binds_of(bs@), at as int, head@, csharp),
            None => head_first(binds_of(bs@), at as int, head@, csharp) < 0,
        },
{
    let ghost v = binds_of(bs@);
    let mut count: usize = 0;
    let mut first: Option<usize> = None;
    let mut i: usize = 0;
    while i < bs.len()
        invariant
            v == binds_of(bs@),
            v.len() == bs@.len(),
            i <= bs.len(),
            count <= i,
            count == head_count(v.take(i as int), at as int, head@, csharp),
            match first {
                Some(k) => k < i && k as int == head_first(v.take(i as int), at as int, head@, csharp),
                None => head_first(v.take(i as int), at as int, head@, csharp) < 0,
            },
        decreases bs.len() - i,
    {
        proof {
            let u = v.take(i + 1);
            assert(u.drop_last() =~= v.take(i as int));
            assert(u.last() == bs@[i as int]@);
        }
        if names_head_exec(&bs[i], at, head, csharp) {
            count = count + 1;
            if first.is_none() {
                first = Some(i);
            }
        }
        i = i + 1;
    }
    assert(v.take(bs.len() as int) =~= v);
    (count, first)
}

/// How many visible namespace imports offer `r` as a known marker, and the
/// first of them.
fn offerings(bs: &Vec<ManagedBinding>, at: usize, r: &[char], csharp: bool) -> (res: (
    usize,
    Option<usize>,
))
    ensures
        res.0 == offer_count(binds_of(bs@), at as int, r@, csharp),
        match res.1 {
            Some(k) => k < bs@.len() && k as int == offer_first(binds_of(bs@), at as int, r@, csharp),
            None => offer_first(binds_of(bs@), at as int, r@, csharp) < 0,
        },
{
    let ghost v = binds_of(bs@);
    let mut count: usize = 0;
    let mut first: Option<usize> = None;
    let mut i: usize = 0;
    while i < bs.len()
        invariant
            v == binds_of(bs@),
            v.len() == bs@.len(),
            i <= bs.len(),
            count <= i,
            count == offer_count(v.take(i as int), at as int, r@, csharp),
            match first {
                Some(k) => k < i && k as int == offer_first(v.take(i as int), at as int, r@, csharp),
                None => offer_first(v.take(i as int), at as int, r@, csharp) < 0,
            },
        decreases bs.len() - i,
    {
        proof {
            let u = v.take(i + 1);
            assert(u.drop_last() =~= v.take(i as int));
            assert(u.last() == bs@[i as int]@);
        }
        if offers_exec(&bs[i], at, r, csharp) {
            count = count + 1;
            if first.is_none() {
                first = Some(i);
            }
        }
        i = i + 1;
    }
    assert(v.take(bs.len() as int) =~= v);
    (count, first)
}

spec fn opt_chars(o: Option<Vec<char>>) -> Option<Seq<char>> {
    match o {
        Some(v) => Some(v@),
        None => None,
    }
}

fn resolved_exec(reference: &[char], at: usize, bs: &Vec<ManagedBinding>, csharp: bool) -> (r: Option<
    Vec<char>,
>)
    ensures
        opt_chars(r) == resolved(reference@, at as int, binds_of(bs@), csharp),
{
    let ghost v = binds_of(bs@);
    let absolute = csharp && starts_with_global(reference);
    let stripped = strip_global_exec(reference);
    let r = dotted_exec(stripped.as_slice());
    let (head, tail): (Vec<char>, Vec<char>) = match first_dot(r.as_slice()) {
        Some(d) => (slice_vec(r.as_slice(), 0, d), slice_vec(r.as_slice(), d + 1, r.len())),
        None => {
            assert(r@.subrange(0, r@.len() as int) =~= r@);
            (slice_vec(r.as_slice(), 0, r.len()), Vec::new())
        },
    };
    let (count, first) = heads(bs, at, head.as_slice(), csharp);
    if !absolute && count > 0 {
        proof {
            lemma_head_first(v, at as int, head@, csharp);
        }
        let k = match first {
            Some(k) => k,
            None => {
                return None;
            },
        };
        assert(v[k as int] == bs@[k as int]@);
        let target = &bs[k].target;
        if count > 1 || target.len() == 0 {
            return None;
        }
        let mut out = slice_vec(target.as_slice(), 0, target.len());
        assert(out@ =~= target@);
        if tail.len() == 0 {
            return Some(out);
        }
        push_str(&mut out, ".");
        push_all(&mut out, tail.as_slice());
        return Some(out);
    }
    if tail.len() > 0 {
        return Some(r);
    }
    let (hits, at_first) = offerings(bs, at, r.as_slice(), csharp);
    if hits == 1 {
        proof {
            lemma_offer_first(v, at as int, r@, csharp);
        }
        let k = match at_first {
            Some(k) => k,
            None => {
                return None;
            },
        };
        assert(v[k as int] == bs@[k as int]@);
        let target = &bs[k].target;
        let mut out = slice_vec(target.as_slice(), 0, target.len());
        assert(out@ =~= target@);
        push_str(&mut out, ".");
        push_all(&mut out, r.as_slice());
        return Some(out);
    }
    None
}

fn starts_with_global(s: &[char]) -> (r: bool)
    ensures
        r == is_prefix(s@, "global::"@),
{
    let g = chars_of("global::");
    occurs_at_exec(s, g.as_slice(), 0)
}

// ── Declarations, executable ───────────────────────────────────────────

fn some_kid_of_kind_exec(t: &SyntaxTree, n: usize, k: &str) -> (r: bool)
    requires
        t.wf(),
        t.valid(n as int),
    ensures
        r == some_kid_of_kind(t, n as int, k@),
{
    let ks = t.named_children(n);
    let mut j: usize = 0;
    while j < ks.len()
        invariant
            j <= ks.len(),
            ks@ == t.named_kids(n as int),
            forall|k: int| 0 <= k < ks@.len() ==> t.valid(#[trigger] ks@[k] as int),
            forall|i: int| 0 <= i < j ==> #[trigger] t.kind(t.named_kids(n as int)[i] as int) != k@,
        decreases ks.len() - j,
    {
        if t.kind_is(ks[j], k) {
            assert(t.kind(t.named_kids(n as int)[j as int] as int) == k@);
            return true;
        }
        j = j + 1;
    }
    false
}

fn first_of_kind_exec(t: &SyntaxTree, a: usize, k: &str) -> (r: Option<usize>)
    requires
        t.wf(),
        t.valid(a as int),
    ensures
        match r {
            Some(u) => u as int == first_of_kind(t, a as int, t.end_of(a as int), k@) && t.valid(
                u as int,
            ),
            None => first_of_kind(t, a as int, t.end_of(a as int), k@) < 0,
        },
{
    let e = t.end(a);
    let mut i: usize = a;
    while i < e
        invariant
            t.wf(),
            a <= i <= e <= t.len(),
            e == t.end_of(a as int),
            first_of_kind(t, a as int, e as int, k@) == first_of_kind(t, i as int, e as int, k@),
        decreases e - i,
    {
        if t.is_named(i) && t.kind_is(i, k) {
            return Some(i);
        }
        i = i + 1;
    }
    None
}

fn marker_name_exec(t: &SyntaxTree, a: usize) -> (r: Option<Vec<char>>)
    requires
        t.wf(),
        t.valid(a as int),
    ensures
        opt_chars(r) == marker_name(t, a as int),
{
    let aimed = match t.parent_of(a) {
        Some(p) => t.kind_is(p, "attribute_list") && some_kid_of_kind_exec(
            t,
            p,
            "attribute_target_specifier",
        ),
        None => false,
    };
    if t.nodes[a].has_error || some_kid_of_kind_exec(t, a, "use_site_target") || aimed {
        return None;
    }
    match t.field_child(a, "name") {
        Some(x) => Some(path_exec(t, x)),
        None => match first_of_kind_exec(t, a, "user_type") {
            Some(u) => Some(path_exec(t, u)),
            None => None,
        },
    }
}

fn is_annotation_exec(t: &SyntaxTree, a: usize) -> (r: bool)
    requires
        t.valid(a as int),
    ensures
        r == is_annotation(t.kind(a as int)),
{
    t.kind_is(a, "annotation") || t.kind_is(a, "marker_annotation") || t.kind_is(a, "attribute")
}

fn marks_exec(
    t: &SyntaxTree,
    a: usize,
    bs: &Vec<ManagedBinding>,
    lang: Language,
    class: bool,
) -> (r: bool)
    requires
        t.wf(),
        t.valid(a as int),
    ensures
        r == marks(t, a as int, binds_of(bs@), lang, class),
{
    let csharp = matches!(lang, Language::CSharp);
    let kotlin = matches!(lang, Language::Kotlin);
    if !t.is_named(a) || !is_annotation_exec(t, a) {
        return false;
    }
    match marker_name_exec(t, a) {
        Some(nm) => match resolved_exec(nm.as_slice(), t.nodes[a].start, bs, csharp) {
            Some(full) => if class {
                class_marker_exec(full.as_slice(), csharp)
            } else {
                method_marker_exec(full.as_slice(), csharp, kotlin)
            },
            None => false,
        },
        None => false,
    }
}

fn marks_within_exec(
    t: &SyntaxTree,
    c: usize,
    bs: &Vec<ManagedBinding>,
    lang: Language,
    class: bool,
) -> (r: bool)
    requires
        t.wf(),
        t.valid(c as int),
    ensures
        r == marks_within(t, c as int, t.end_of(c as int), binds_of(bs@), lang, class),
{
    let e = t.end(c);
    let mut i: usize = c;
    while i < e
        invariant
            t.wf(),
            c <= i <= e <= t.len(),
            e == t.end_of(c as int),
            marks_within(t, c as int, e as int, binds_of(bs@), lang, class) == marks_within(
                t,
                i as int,
                e as int,
                binds_of(bs@),
                lang,
                class,
            ),
        decreases e - i,
    {
        if marks_exec(t, i, bs, lang, class) {
            return true;
        }
        i = i + 1;
    }
    false
}

fn marked_exec(t: &SyntaxTree, n: usize, bs: &Vec<ManagedBinding>, lang: Language, class: bool) -> (r:
    bool)
    requires
        t.wf(),
        t.valid(n as int),
    ensures
        r == marked(t, n as int, binds_of(bs@), lang, class),
{
    let ks = t.named_children(n);
    let mut j: usize = 0;
    while j < ks.len()
        invariant
            t.wf(),
            t.valid(n as int),
            j <= ks.len(),
            ks@ == t.named_kids(n as int),
            forall|k: int| 0 <= k < ks@.len() ==> t.valid(#[trigger] ks@[k] as int),
            forall|i: int|
                0 <= i < j ==> !({
                    let c = #[trigger] t.named_kids(n as int)[i] as int;
                    (t.kind(c) == "modifiers"@ || t.kind(c) == "attribute_list"@) && marks_within(
                        t,
                        c,
                        t.end_of(c),
                        binds_of(bs@),
                        lang,
                        class,
                    )
                }),
        decreases ks.len() - j,
    {
        let c = ks[j];
        if (t.kind_is(c, "modifiers") || t.kind_is(c, "attribute_list")) && marks_within_exec(
            t,
            c,
            bs,
            lang,
            class,
        ) {
            assert(t.named_kids(n as int)[j as int] == c);
            return true;
        }
        j = j + 1;
    }
    false
}

fn first_kid_exec(t: &SyntaxTree, ks: &Vec<usize>, k1: &str, k2: &str) -> (r: Option<usize>)
    requires
        forall|k: int| 0 <= k < ks@.len() ==> t.valid(#[trigger] ks@[k] as int),
    ensures
        match r {
            Some(c) => c as int == first_kid(t, ks@, 0, k1@, k2@) && t.valid(c as int),
            None => first_kid(t, ks@, 0, k1@, k2@) < 0,
        },
{
    let mut j: usize = 0;
    while j < ks.len()
        invariant
            j <= ks.len(),
            forall|k: int| 0 <= k < ks@.len() ==> t.valid(#[trigger] ks@[k] as int),
            first_kid(t, ks@, 0, k1@, k2@) == first_kid(t, ks@, j as int, k1@, k2@),
        decreases ks.len() - j,
    {
        if t.kind_is(ks[j], k1) || t.kind_is(ks[j], k2) {
            return Some(ks[j]);
        }
        j = j + 1;
    }
    None
}

fn kotlin_supertype_exec(t: &SyntaxTree, spec: usize) -> (r: Option<usize>)
    requires
        t.wf(),
        t.valid(spec as int),
    ensures
        match r {
            Some(c) => c as int == kotlin_supertype(t, spec as int) && t.valid(c as int),
            None => kotlin_supertype(t, spec as int) < 0,
        },
{
    let ks = t.named_children(spec);
    match first_kid_exec(t, &ks, "constructor_invocation", "user_type") {
        None => None,
        Some(c) => {
            if t.kind_is(c, "constructor_invocation") {
                let cs = t.named_children(c);
                first_kid_exec(t, &cs, "user_type", "user_type")
            } else {
                Some(c)
            }
        },
    }
}

fn junit_base_exec(t: &SyntaxTree, ty: usize, bs: &Vec<ManagedBinding>) -> (r: bool)
    requires
        t.wf(),
        t.valid(ty as int),
    ensures
        r == junit_base(t, ty as int, binds_of(bs@)),
{
    let p = path_exec(t, ty);
    match resolved_exec(p.as_slice(), t.nodes[ty].start, bs, false) {
        Some(full) => chars_eq_str(full.as_slice(), "junit.framework.TestCase"),
        None => false,
    }
}

fn base_is_junit_exec(t: &SyntaxTree, base: usize, bs: &Vec<ManagedBinding>, kotlin: bool) -> (r:
    bool)
    requires
        t.wf(),
        t.valid(base as int),
    ensures
        r == base_is_junit(t, base as int, binds_of(bs@), kotlin),
{
    let ks = t.named_children(base);
    let mut j: usize = 0;
    while j < ks.len()
        invariant
            t.wf(),
            j <= ks.len(),
            ks@ == t.named_kids(base as int),
            forall|k: int| 0 <= k < ks@.len() ==> t.valid(#[trigger] ks@[k] as int),
            forall|i: int|
                0 <= i < j ==> !({
                    let c = #[trigger] t.named_kids(base as int)[i] as int;
                    if kotlin {
                        kotlin_supertype(t, c) >= 0 && junit_base(
                            t,
                            kotlin_supertype(t, c),
                            binds_of(bs@),
                        )
                    } else {
                        junit_base(t, c, binds_of(bs@))
                    }
                }),
        decreases ks.len() - j,
    {
        let c = ks[j];
        let hit = if kotlin {
            match kotlin_supertype_exec(t, c) {
                Some(ty) => junit_base_exec(t, ty, bs),
                None => false,
            }
        } else {
            junit_base_exec(t, c, bs)
        };
        if hit {
            assert(t.named_kids(base as int)[j as int] == c);
            return true;
        }
        j = j + 1;
    }
    false
}

fn extends_test_case_exec(t: &SyntaxTree, n: usize, bs: &Vec<ManagedBinding>, lang: Language) -> (r:
    bool)
    requires
        t.wf(),
        t.valid(n as int),
    ensures
        r == extends_test_case(t, n as int, binds_of(bs@), lang),
{
    let kotlin = matches!(lang, Language::Kotlin);
    let ks = t.named_children(n);
    let mut j: usize = 0;
    while j < ks.len()
        invariant
            t.wf(),
            j <= ks.len(),
            kotlin == (lang == Language::Kotlin),
            ks@ == t.named_kids(n as int),
            forall|k: int| 0 <= k < ks@.len() ==> t.valid(#[trigger] ks@[k] as int),
            forall|i: int|
                0 <= i < j ==> !({
                    let c = #[trigger] t.named_kids(n as int)[i] as int;
                    (t.kind(c) == "superclass"@ || t.kind(c) == "delegation_specifiers"@)
                        && base_is_junit(t, c, binds_of(bs@), lang == Language::Kotlin)
                }),
        decreases ks.len() - j,
    {
        let c = ks[j];
        if (t.kind_is(c, "superclass") || t.kind_is(c, "delegation_specifiers"))
            && base_is_junit_exec(t, c, bs, kotlin) {
            assert(t.named_kids(n as int)[j as int] == c);
            return true;
        }
        j = j + 1;
    }
    false
}

fn error_above_exec(t: &SyntaxTree, n: usize) -> (r: bool)
    requires
        t.wf(),
        t.valid(n as int),
    ensures
        r == error_above(t, parent_index(t, n as int)),
{
    let mut cur = t.parent_of(n);
    loop
        invariant
            t.wf(),
            t.valid(n as int),
            cur matches Some(p) ==> p < n,
            error_above(t, parent_index(t, n as int)) == match cur {
                Some(p) => error_above(t, p as int),
                None => false,
            },
        decreases match cur {
            Some(p) => p + 1,
            None => 0,
        },
    {
        match cur {
            None => {
                return false;
            },
            Some(p) => {
                assert(t.node_wf(p as int));
                if t.kind_is(p, "ERROR") {
                    return true;
                }
                assert(p > 0 ==> t.nodes@[p as int].parent is Some);
                assert(parent_index(t, p as int) < p);
                assert(error_above(t, p as int) == error_above(t, parent_index(t, p as int)));
                cur = t.parent_of(p);
            },
        }
    }
}

fn test_declaration_exec(t: &SyntaxTree, n: usize, bs: &Vec<ManagedBinding>, lang: Language) -> (r:
    bool)
    requires
        t.wf(),
        t.valid(n as int),
    ensures
        r == test_declaration(t, n as int, binds_of(bs@), lang),
{
    let class = t.kind_is(n, "class_declaration") || t.kind_is(n, "object_declaration");
    let declaration = class || t.kind_is(n, "method_declaration") || t.kind_is(
        n,
        "function_declaration",
    ) || t.kind_is(n, "local_function_statement");
    if !t.is_named(n) || !declaration || t.nodes[n].has_error || error_above_exec(t, n) {
        return false;
    }
    if marked_exec(t, n, bs, lang, class) {
        return true;
    }
    class && !matches!(lang, Language::CSharp) && extends_test_case_exec(t, n, bs, lang)
}

/// The character ranges of the test classes and test methods of a Java,
/// C# or Kotlin syntax tree, in preorder.
pub fn managed_test_ranges(t: &SyntaxTree, lang: Language) -> (r: Vec<Range<usize>>)
    requires
        t.wf(),
    ensures
        spans_of(r@) == managed_test_spans(t, lang),
{
    let bs = file_bindings_exec(t);
    let ghost v = binds_of(bs@);
    let mut r: Vec<Range<usize>> = Vec::new();
    let len = t.node_count();
    let mut i: usize = 0;
    assert(spans_of(r@) =~= test_spans_upto(t, v, lang, 0));
    while i < len
        invariant
            t.wf(),
            i <= len == t.len(),
            v == binds_of(bs@),
            v == file_bindings(t),
            spans_of(r@) == test_spans_upto(t, v, lang, i as int),
        decreases len - i,
    {
        if test_declaration_exec(t, i, &bs, lang) {
            let x = t.nodes[i].start..t.nodes[i].end;
            r.push(x);
        }
        assert(spans_of(r@) =~= test_spans_upto(t, v, lang, i + 1));
        i = i + 1;
    }
    r
}

// ── The C# method markers ──────────────────────────────────────────────

/// The C# attributes, as (namespace, name), that make a method test code:
/// xUnit's facts and theories, NUnit's tests and fixtures' set-up and
/// tear-down, and MSTest's test methods and initialisers and cleanups.
pub open spec fn csharp_marker_table() -> Seq<(Seq<char>, Seq<char>)> {
    seq![
        ("Xunit"@, "Fact"@),
        ("Xunit"@, "Theory"@),
        ("NUnit.Framework"@, "Test"@),
        ("NUnit.Framework"@, "TestCase"@),
        ("NUnit.Framework"@, "TestCaseSource"@),
        ("NUnit.Framework"@, "SetUp"@),
        ("NUnit.Framework"@, "TearDown"@),
        ("NUnit.Framework"@, "OneTimeSetUp"@),
        ("NUnit.Framework"@, "OneTimeTearDown"@),
        ("Microsoft.VisualStudio.TestTools.UnitTesting"@, "TestMethod"@),
        ("Microsoft.VisualStudio.TestTools.UnitTesting"@, "DataTestMethod"@),
        ("Microsoft.VisualStudio.TestTools.UnitTesting"@, "TestInitialize"@),
        ("Microsoft.VisualStudio.TestTools.UnitTesting"@, "TestCleanup"@),
        ("Microsoft.VisualStudio.TestTools.UnitTesting"@, "ClassInitialize"@),
        ("Microsoft.VisualStudio.TestTools.UnitTesting"@, "ClassCleanup"@),
        ("Microsoft.VisualStudio.TestTools.UnitTesting"@, "AssemblyInitialize"@),
        ("Microsoft.VisualStudio.TestTools.UnitTesting"@, "AssemblyCleanup"@),
    ]
}

/// A C# attribute, split into its namespace and name, marks a method as
/// test code exactly when the table lists it.
pub proof fn lemma_csharp_method_markers_are_the_table(p: Seq<char>, m: Seq<char>)
    ensures
        csharp_method_marker(p, m) <==> csharp_marker_table().contains((p, m)),
{
    let t = csharp_marker_table();
    if t.contains((p, m)) {
        let i = choose|i: int| 0 <= i < t.len() && t[i] == (p, m);
    }
    if csharp_method_marker(p, m) {
        let x = "Xunit"@;
        let n = "NUnit.Framework"@;
        if p == x && m == "Fact"@ {
            assert(t[0] == (p, m));
        } else if p == x && m == "Theory"@ {
            assert(t[1] == (p, m));
        } else if p == n && m == "Test"@ {
            assert(t[2] == (p, m));
        } else if p == n && m == "TestCase"@ {
            assert(t[3] == (p, m));
        } else if p == n && m == "TestCaseSource"@ {
            assert(t[4] == (p, m));
        } else if p == n && m == "SetUp"@ {
            assert(t[5] == (p, m));
        } else if p == n && m == "TearDown"@ {
            assert(t[6] == (p, m));
        } else if p == n && m == "OneTimeSetUp"@ {
            assert(t[7] == (p, m));
        } else if p == n && m == "OneTimeTearDown"@ {
            assert(t[8] == (p, m));
        } else if m == "TestMethod"@ {
            assert(t[9] == (p, m));
        } else if m == "DataTestMethod"@ {
            assert(t[10] == (p, m));
        } else if m == "TestInitialize"@ {
            assert(t[11] == (p, m));
        } else if m == "TestCleanup"@ {
            assert(t[12] == (p, m));
        } else if m == "ClassInitialize"@ {
            assert(t[13] == (p, m));
        } else if m == "ClassCleanup"@ {
            assert(t[14] == (p, m));
        } else if m == "AssemblyInitialize"@ {
            assert(t[15] == (p, m));
        } else {
            assert(t[16] == (p, m));
        }
    }
}

/// The JUnit 4, JUnit 5 and TestNG annotations, as (package, name), that
/// make a method test code in Java and Kotlin alike.
pub open spec fn jvm_marker_table() -> Seq<(Seq<char>, Seq<char>)> {
    seq![
        ("org.junit"@, "Test"@),
        ("org.junit"@, "Before"@),
        ("org.junit"@, "After"@),
        ("org.junit"@, "BeforeClass"@),
        ("org.junit"@, "AfterClass"@),
        ("org.junit.jupiter.api"@, "Test"@),
        ("org.junit.jupiter.api"@, "RepeatedTest"@),
        ("org.junit.jupiter.api"@, "TestFactory"@),
        ("org.junit.jupiter.api"@, "TestTemplate"@),
        ("org.junit.jupiter.api"@, "BeforeEach"@),
        ("org.junit.jupiter.api"@, "AfterEach"@),
        ("org.junit.jupiter.api"@, "BeforeAll"@),
        ("org.junit.jupiter.api"@, "AfterAll"@),
        ("org.junit.jupiter.params"@, "ParameterizedTest"@),
        ("org.testng.annotations"@, "Test"@),
        ("org.testng.annotations"@, "BeforeSuite"@),
        ("org.testng.annotations"@, "AfterSuite"@),
        ("org.testng.annotations"@, "BeforeTest"@),
        ("org.testng.annotations"@, "AfterTest"@),
        ("org.testng.annotations"@, "BeforeGroups"@),
        ("org.testng.annotations"@, "AfterGroups"@),
        ("org.testng.annotations"@, "BeforeClass"@),
        ("org.testng.annotations"@, "AfterClass"@),
        ("org.testng.annotations"@, "BeforeMethod"@),
        ("org.testng.annotations"@, "AfterMethod"@),
    ]
}

/// Outside `kotlin.test`, a JVM annotation split into its package and name
/// marks a method as test code exactly when the table lists it.
pub proof fn lemma_jvm_method_markers_are_the_table(p: Seq<char>, m: Seq<char>)
    ensures
        jvm_method_marker(p, m, false) <==> jvm_marker_table().contains((p, m)),
{
    let t = jvm_marker_table();
    if t.contains((p, m)) {
        let i = choose|i: int| 0 <= i < t.len() && t[i] == (p, m);
    }
    if jvm_method_marker(p, m, false) {
        if (p, m) == ("org.junit"@, "Test"@) {
            assert(t[0] == (p, m));
        } else if (p, m) == ("org.junit"@, "Before"@) {
            assert(t[1] == (p, m));
        } else if (p, m) == ("org.junit"@, "After"@) {
            assert(t[2] == (p, m));
        } else if (p, m) == ("org.junit"@, "BeforeClass"@) {
            assert(t[3] == (p, m));
        } else if (p, m) == ("org.junit"@, "AfterClass"@) {
            assert(t[4] == (p, m));
        } else if (p, m) == ("org.junit.jupiter.api"@, "Test"@) {
            assert(t[5] == (p, m));
        } else if (p, m) == ("org.junit.jupiter.api"@, "RepeatedTest"@) {
            assert(t[6] == (p, m));
        } else if (p, m) == ("org.junit.jupiter.api"@, "TestFactory"@) {
            assert(t[7] == (p, m));
        } else if (p, m) == ("org.junit.jupiter.api"@, "TestTemplate"@) {
            assert(t[8] == (p, m));
        } else if (p, m) == ("org.junit.jupiter.api"@, "BeforeEach"@) {
            assert(t[9] == (p, m));
        } else if (p, m) == ("org.junit.jupiter.api"@, "AfterEach"@) {
            assert(t[10] == (p, m));
        } else if (p, m) == ("org.junit.jupiter.api"@, "BeforeAll"@) {
            assert(t[11] == (p, m));
        } else if (p, m) == ("org.junit.jupiter.api"@, "AfterAll"@) {
            assert(t[12] == (p, m));
        } else if (p, m) == ("org.junit.jupiter.params"@, "ParameterizedTest"@) {
            assert(t[13] == (p, m));
        } else if (p, m) == ("org.testng.annotations"@, "Test"@) {
            assert(t[14] == (p, m));
        } else if (p, m) == ("org.testng.annotations"@, "BeforeSuite"@) {
            assert(t[15] == (p, m));
        } else if (p, m) == ("org.testng.annotations"@, "AfterSuite"@) {
            assert(t[16] == (p, m));
        } else if (p, m) == ("org.testng.annotations"@, "BeforeTest"@) {
            assert(t[17] == (p, m));
        } else if (p, m) == ("org.testng.annotations"@, "AfterTest"@) {
            assert(t[18] == (p, m));
        } else if (p, m) == ("org.testng.annotations"@, "BeforeGroups"@) {
            assert(t[19] == (p, m));
        } else if (p, m) == ("org.testng.annotations"@, "AfterGroups"@) {
            assert(t[20] == (p, m));
        } else if (p, m) == ("org.testng.annotations"@, "BeforeClass"@) {
            assert(t[21] == (p, m));
        } else if (p, m) == ("org.testng.annotations"@, "AfterClass"@) {
            assert(t[22] == (p, m));
        } else if (p, m) == ("org.testng.annotations"@, "BeforeMethod"@) {
            assert(t[23] == (p, m));
        } else {
            assert(t[24] == (p, m));
        }
    }
}

/// In Kotlin, the `kotlin.test` annotations `Test`, `BeforeTest` and
/// `AfterTest` mark test code as well; elsewhere they do not.
pub proof fn lemma_kotlin_test_markers(p: Seq<char>, m: Seq<char>, kotlin: bool)
    ensures
        jvm_method_marker(p, m, kotlin) <==> (jvm_method_marker(p, m, false) || (kotlin && p == "kotlin.test"@
            && (m == "Test"@ || m == "BeforeTest"@ || m == "AfterTest"@))),
{
}

/// The attributes that make a class test code, fully qualified: NUnit's
/// fixtures and MSTest's test classes in C#; JUnit 5's nested classes and
/// TestNG's class-level `Test` on the JVM. A C# name may carry the
/// `Attribute` suffix.
pub proof fn lemma_class_markers(name: Seq<char>)
    ensures
        class_marker(name, true) <==> (unattributed(name, true) == "NUnit.Framework.TestFixture"@
            || unattributed(name, true) == "NUnit.Framework.TestFixtureSource"@
            || unattributed(name, true) == "Microsoft.VisualStudio.TestTools.UnitTesting.TestClass"@),
        class_marker(name, false) <==> (name == "org.junit.jupiter.api.Nested"@ || name
            == "org.testng.annotations.Test"@),
{
}

proof fn lemma_char_before_last(s: Seq<char>, c: char, j: int, i: int)
    requires
        0 <= j <= i < s.len(),
        s[j] == c,
        forall|k: int| j < k <= i ==> s[k] != c,
    ensures
        char_before(s, c, i) == j,
    decreases i,
{
    if i > j {
        lemma_char_before_last(s, c, j, i - 1);
    }
}

/// A fully qualified attribute name marks a method as test code by its
/// namespace or package and its last segment: in C# the name may carry the
/// `Attribute` suffix, and `P.M` or `P.MAttribute` marks exactly when
/// (`P`, `M`) is a C# test marker; on the JVM, `P.M` marks exactly when
/// (`P`, `M`) is a JVM test annotation.
pub proof fn lemma_qualified_markers_split_at_the_last_dot(p: Seq<char>, m: Seq<char>, kotlin: bool)
    requires
        !m.contains('.'),
    ensures
        method_marker(p + seq!['.'] + m + "Attribute"@, true, kotlin) <==> csharp_method_marker(p, m),
        method_marker(p + seq!['.'] + m, false, kotlin) <==> jvm_method_marker(p, m, kotlin),
{
    reveal_strlit("Attribute");
    let n = p + seq!['.'] + m;
    let a = n + "Attribute"@;
    assert(a.subrange(a.len() - 9, a.len() as int) =~= "Attribute"@);
    assert(is_suffix(a, "Attribute"@));
    assert(a.subrange(0, a.len() - "Attribute"@.len()) =~= n);
    assert(unattributed(a, true) == n);
    assert(unattributed(n, false) == n);
    let j = p.len() as int;
    assert(n[j] == '.');
    assert forall|k: int| j < k <= n.len() - 1 implies n[k] != '.' by {
        assert(n[k] == m[k - j - 1]);
        if n[k] == '.' {
            assert(m.contains('.'));
        }
    }
    lemma_char_before_last(n, '.', j, n.len() - 1);
    assert(n.subrange(0, j) =~= p);
    assert(n.subrange(j + 1, n.len() as int) =~= m);
}

} // verus!
