//! Test code in a Rust file: the items that a test attribute (`#[test]`,
//! `#[tokio::test]`, `#[async_std::test]`, resolved through the file's own
//! `use` and `extern crate` bindings) or `#[cfg(test)]` marks, and the
//! containers whose inner `#![cfg(test)]` marks them. The result is the
//! character ranges of those nodes, in preorder.
use std::ops::Range;

use vstd::prelude::*;

use crate::metrics::complexity::syntax::SyntaxTree;
use crate::metrics::complexity::test_context::{spans_of, Span};
use crate::text::{
    chars_eq, chars_eq_str, chars_of, ends_with_str, is_suffix, push_all, push_str, slice_vec,
    strip_ws, without_ws,
};

verus! {

/// A binding as `(name, target, scope node)`; an empty target is a local
/// definition that shadows anything imported under the same name.
pub type Bind = (Seq<char>, Seq<char>, int);

// ── Model ──────────────────────────────────────────────────────────────

/// The parent of `n`, or -1 for the root.
pub open spec fn parent_index(t: &SyntaxTree, n: int) -> int {
    match t.nodes@[n].parent {
        Some(p) => p as int,
        None => -1,
    }
}

pub open spec fn opens_scope(k: Seq<char>) -> bool {
    k == "source_file"@ || k == "declaration_list"@ || k == "block"@ || k == "function_item"@
}

/// The first node at or above `p` that opens a scope, or `n` when none does.
pub open spec fn scope_from(t: &SyntaxTree, p: int, n: int) -> int
    decreases p + 1,
{
    if p < 0 || p >= t.len() {
        n
    } else if opens_scope(t.kind(p)) {
        p
    } else if parent_index(t, p) < p {
        scope_from(t, parent_index(t, p), n)
    } else {
        n
    }
}

/// The scope a binding made at `n` belongs to: its nearest enclosing
/// file, module body, block or function.
pub open spec fn scope_of(t: &SyntaxTree, n: int) -> int {
    scope_from(t, parent_index(t, n), n)
}

/// `s` without its leading `::` separators.
pub open spec fn trim_colons(s: Seq<char>) -> Seq<char>
    decreases s.len(),
{
    if s.len() >= 2 && s[0] == ':' && s[1] == ':' {
        trim_colons(s.subrange(2, s.len() as int))
    } else {
        s
    }
}

/// A use-tree path `suffix` under the path `prefix`.
pub open spec fn join_path(prefix: Seq<char>, suffix: Seq<char>) -> Seq<char> {
    if prefix.len() == 0 {
        trim_colons(suffix)
    } else if suffix == "self"@ {
        prefix
    } else {
        prefix + "::"@ + suffix
    }
}

/// Whether a `::` separator starts at `i`.
pub open spec fn sep_at(s: Seq<char>, i: int) -> bool {
    0 <= i && i + 1 < s.len() && s[i] == ':' && s[i + 1] == ':'
}

/// The last `::` separator at or before `i`, or -1.
pub open spec fn last_sep(s: Seq<char>, i: int) -> int
    decreases i + 1,
{
    if i < 0 {
        -1
    } else if sep_at(s, i) {
        i
    } else {
        last_sep(s, i - 1)
    }
}

/// The first `::` separator at or after `i`, or -1.
pub open spec fn first_sep(s: Seq<char>, i: int) -> int
    decreases s.len() - i,
{
    if i < 0 || i + 1 >= s.len() {
        -1
    } else if sep_at(s, i) {
        i
    } else {
        first_sep(s, i + 1)
    }
}

/// The last segment of a `::` path.
pub open spec fn last_segment(s: Seq<char>) -> Seq<char> {
    let j = last_sep(s, s.len() - 2);
    if j < 0 {
        s
    } else {
        s.subrange(j + 2, s.len() as int)
    }
}

/// The bindings a use tree rooted at `n` makes under `prefix`.
pub open spec fn imports(t: &SyntaxTree, n: int, prefix: Seq<char>, sc: int) -> Seq<Bind>
    decreases t.len() - n, t.named_kids(n).len() + 1,
{
    if n < 0 || n >= t.len() {
        seq![]
    } else if t.kind(n) == "scoped_use_list"@ {
        let path = match t.field(n, "path"@) {
            Some(p) => join_path(prefix, t.text_of(p as int)),
            None => prefix,
        };
        match t.field(n, "list"@) {
            Some(l) => if n < l < t.len() {
                imports(t, l as int, path, sc)
            } else {
                seq![]
            },
            None => seq![],
        }
    } else if t.kind(n) == "use_list"@ {
        imports_list(t, n, t.named_kids(n).len() as int, prefix, sc)
    } else if t.kind(n) == "use_as_clause"@ {
        match (t.field(n, "path"@), t.field(n, "alias"@)) {
            (Some(p), Some(a)) => seq![
                (t.text_of(a as int), join_path(prefix, t.text_of(p as int)), sc),
            ],
            _ => seq![],
        }
    } else if t.kind(n) == "identifier"@ || t.kind(n) == "scoped_identifier"@ || t.kind(n)
        == "self"@ {
        let target = join_path(prefix, t.text_of(n));
        seq![(last_segment(target), target, sc)]
    } else {
        seq![]
    }
}

/// The bindings of the first `i` named children of the use list `n`.
pub open spec fn imports_list(t: &SyntaxTree, n: int, i: int, prefix: Seq<char>, sc: int) -> Seq<
    Bind,
>
    decreases t.len() - n, i,
{
    if i <= 0 || i > t.named_kids(n).len() {
        seq![]
    } else {
        let c = t.named_kids(n)[i - 1] as int;
        imports_list(t, n, i - 1, prefix, sc) + if n < c < t.len() {
            imports(t, c, prefix, sc)
        } else {
            seq![]
        }
    }
}

/// The named identifiers among the nodes `p..j`.
pub open spec fn pattern_names(t: &SyntaxTree, p: int, j: int, sc: int) -> Seq<Bind>
    decreases j - p,
{
    if j <= p {
        seq![]
    } else {
        pattern_names(t, p, j - 1, sc) + if t.nodes@[j - 1].named && t.kind(j - 1)
            == "identifier"@ {
            seq![(t.text_of(j - 1), seq![], sc)]
        } else {
            seq![]
        }
    }
}

pub open spec fn defines_name(k: Seq<char>) -> bool {
    k == "mod_item"@ || k == "struct_item"@ || k == "enum_item"@ || k == "type_item"@ || k
        == "trait_item"@ || k == "union_item"@ || k == "macro_definition"@
}

/// The bindings node `n` makes.
pub open spec fn node_bindings(t: &SyntaxTree, n: int) -> Seq<Bind> {
    let k = t.kind(n);
    if k == "use_declaration"@ {
        if t.nodes@[n].has_error {
            seq![]
        } else {
            match t.field(n, "argument"@) {
                Some(a) => imports(t, a as int, seq![], scope_of(t, n)),
                None => seq![],
            }
        }
    } else if k == "extern_crate_declaration"@ {
        if t.nodes@[n].has_error {
            seq![]
        } else {
            match t.field(n, "name"@) {
                Some(nm) => {
                    let shown = match t.field(n, "alias"@) {
                        Some(al) => al,
                        None => nm,
                    };
                    seq![(t.text_of(shown as int), t.text_of(nm as int), scope_of(t, n))]
                },
                None => seq![],
            }
        }
    } else if defines_name(k) {
        match t.field(n, "name"@) {
            Some(nm) => seq![(t.text_of(nm as int), seq![], scope_of(t, n))],
            None => seq![],
        }
    } else if k == "parameter"@ || k == "let_declaration"@ {
        match t.field(n, "pattern"@) {
            Some(p) => pattern_names(t, p as int, t.end_of(p as int), scope_of(t, n)),
            None => seq![],
        }
    } else {
        seq![]
    }
}

/// The bindings of the named nodes among the first `i`, in preorder.
pub open spec fn bindings_upto(t: &SyntaxTree, i: int) -> Seq<Bind>
    decreases i,
{
    if i <= 0 {
        seq![]
    } else {
        bindings_upto(t, i - 1) + if t.nodes@[i - 1].named {
            node_bindings(t, i - 1)
        } else {
            seq![]
        }
    }
}

pub open spec fn file_bindings(t: &SyntaxTree) -> Seq<Bind> {
    bindings_upto(t, t.len())
}

/// How many of `bs` bind `h` in scope `sc`.
pub open spec fn match_count(bs: Seq<Bind>, sc: int, h: Seq<char>) -> nat
    decreases bs.len(),
{
    if bs.len() == 0 {
        0
    } else {
        match_count(bs.drop_last(), sc, h) + if bs.last().2 == sc && bs.last().0 == h {
            1nat
        } else {
            0nat
        }
    }
}

/// The position of the first of `bs` that binds `h` in scope `sc`, or -1.
pub open spec fn first_match(bs: Seq<Bind>, sc: int, h: Seq<char>) -> int
    decreases bs.len(),
{
    if bs.len() == 0 {
        -1
    } else if first_match(bs.drop_last(), sc, h) >= 0 {
        first_match(bs.drop_last(), sc, h)
    } else if bs.last().2 == sc && bs.last().0 == h {
        bs.len() - 1
    } else {
        -1
    }
}

/// Resolution of the path `head::tail` (written `whole`), looking for
/// `head` in the scopes from node `a` outwards. A name bound twice in one
/// scope, or bound locally, resolves to nothing; a module body does not
/// see the bindings around it.
pub open spec fn resolve_from(
    t: &SyntaxTree,
    a: int,
    head: Seq<char>,
    tail: Seq<char>,
    whole: Seq<char>,
    bs: Seq<Bind>,
) -> Option<Seq<char>>
    decreases a + 1,
{
    if a < 0 || a >= t.len() {
        Some(whole)
    } else if match_count(bs, a, head) > 0 {
        let b = bs[first_match(bs, a, head)];
        if match_count(bs, a, head) > 1 || b.1.len() == 0 {
            None
        } else if tail.len() == 0 {
            Some(b.1)
        } else {
            Some(b.1 + "::"@ + tail)
        }
    } else if t.kind(a) == "declaration_list"@ {
        Some(whole)
    } else if parent_index(t, a) < a {
        resolve_from(t, parent_index(t, a), head, tail, whole, bs)
    } else {
        Some(whole)
    }
}

/// The full path that `name`, written at node `at`, stands for.
pub open spec fn resolve_name(t: &SyntaxTree, name: Seq<char>, at: int, bs: Seq<Bind>) -> Option<
    Seq<char>,
> {
    let whole = trim_colons(name);
    let i = first_sep(whole, 0);
    if i < 0 {
        resolve_from(t, at, whole, seq![], whole, bs)
    } else {
        resolve_from(
            t,
            at,
            whole.subrange(0, i),
            whole.subrange(i + 2, whole.len() as int),
            whole,
            bs,
        )
    }
}

pub open spec fn is_test_macro(s: Seq<char>) -> bool {
    s == "test"@ || s == "tokio::test"@ || s == "async_std::test"@
}

/// Whether the attribute node `attr` marks `item` as test code: it is
/// `cfg(test)`, or (outside an inner attribute, on a function, without
/// arguments) a test macro once resolved.
pub open spec fn evidence(t: &SyntaxTree, attr: int, item: int, bs: Seq<Bind>, inner: bool) -> bool {
    if t.nodes@[attr].has_error || t.named_kids(attr).len() == 0 {
        false
    } else {
        let v = t.named_kids(attr)[0] as int;
        let compact = without_ws(t.text_of(v));
        if t.kind(v) != "attribute"@ {
            false
        } else if compact == "cfg(test)"@ {
            true
        } else if inner || t.kind(item) != "function_item"@ || t.field(v, "arguments"@) is Some {
            false
        } else {
            match resolve_name(t, compact, item, bs) {
                Some(full) => is_test_macro(full),
                None => false,
            }
        }
    }
}

pub open spec fn outer_trivia(k: Seq<char>) -> bool {
    k == "attribute_item"@ || k == "line_comment"@ || k == "block_comment"@
}

pub open spec fn inner_trivia(k: Seq<char>) -> bool {
    k == "inner_attribute_item"@ || k == "line_comment"@ || k == "block_comment"@
}

/// Whether, among the siblings `ks[..=j]` read backwards while they are
/// attributes or comments, an attribute marks `item`.
pub open spec fn marked_before(t: &SyntaxTree, ks: Seq<usize>, j: int, item: int, bs: Seq<Bind>) -> bool
    decreases j + 1,
{
    if j < 0 || j >= ks.len() || !outer_trivia(t.kind(ks[j] as int)) {
        false
    } else if t.kind(ks[j] as int) == "attribute_item"@ && evidence(t, ks[j] as int, item, bs, false) {
        true
    } else {
        marked_before(t, ks, j - 1, item, bs)
    }
}

/// Whether, among the children `ks[j..]` read forwards while they are
/// inner attributes or comments, an inner attribute marks `item`.
pub open spec fn marked_inside(t: &SyntaxTree, ks: Seq<usize>, j: int, item: int, bs: Seq<Bind>) -> bool
    decreases ks.len() - j,
{
    if j < 0 || j >= ks.len() || !inner_trivia(t.kind(ks[j] as int)) {
        false
    } else if t.kind(ks[j] as int) == "inner_attribute_item"@ && evidence(
        t,
        ks[j] as int,
        item,
        bs,
        true,
    ) {
        true
    } else {
        marked_inside(t, ks, j + 1, item, bs)
    }
}

/// The first position of `n` in `ks` at or after `j`, or -1.
pub open spec fn position(ks: Seq<usize>, n: int, j: int) -> int
    decreases ks.len() - j,
{
    if j < 0 || j >= ks.len() {
        -1
    } else if ks[j] == n {
        j
    } else {
        position(ks, n, j + 1)
    }
}

/// An item marked by one of the attributes just before it.
pub open spec fn attached(t: &SyntaxTree, n: int, bs: Seq<Bind>) -> bool {
    is_suffix(t.kind(n), "_item"@) && match t.nodes@[n].parent {
        None => false,
        Some(p) => {
            let ks = t.named_kids(p as int);
            let j = position(ks, n, 0);
            j >= 0 && marked_before(t, ks, j - 1, n, bs)
        },
    }
}

/// A file, module body or block marked by one of its leading inner
/// attributes.
pub open spec fn marked_container(t: &SyntaxTree, n: int, bs: Seq<Bind>) -> bool {
    (t.kind(n) == "source_file"@ || t.kind(n) == "declaration_list"@ || t.kind(n) == "block"@)
        && marked_inside(t, t.named_kids(n), 0, n, bs)
}

pub open spec fn test_node(t: &SyntaxTree, n: int, bs: Seq<Bind>) -> bool {
    t.nodes@[n].named && (attached(t, n, bs) || marked_container(t, n, bs))
}

/// The ranges of the test nodes among the first `i`, in preorder.
pub open spec fn test_spans_upto(t: &SyntaxTree, bs: Seq<Bind>, i: int) -> Seq<Span>
    decreases i,
{
    if i <= 0 {
        seq![]
    } else {
        test_spans_upto(t, bs, i - 1) + if test_node(t, i - 1, bs) {
            seq![(t.nodes@[i - 1].start, t.nodes@[i - 1].end)]
        } else {
            seq![]
        }
    }
}

/// The character ranges of a Rust file's test code, in preorder.
pub open spec fn rust_test_spans(t: &SyntaxTree) -> Seq<Span> {
    test_spans_upto(t, file_bindings(t), t.len())
}

// ── Bindings ───────────────────────────────────────────────────────────

struct RustBinding {
    name: Vec<char>,
    target: Vec<char>,
    scope: usize,
}

impl View for RustBinding {
    type V = Bind;

    closed spec fn view(&self) -> Bind {
        (self.name@, self.target@, self.scope as int)
    }
}

spec fn binds_of(v: Seq<RustBinding>) -> Seq<Bind> {
    v.map_values(|b: RustBinding| b@)
}

proof fn lemma_binds_push(v: Seq<RustBinding>, b: RustBinding)
    ensures
        binds_of(v.push(b)) == binds_of(v).push(b@),
{
    assert(binds_of(v.push(b)) =~= binds_of(v).push(b@));
}

fn push_binding(out: &mut Vec<RustBinding>, name: Vec<char>, target: Vec<char>, scope: usize)
    ensures
        binds_of(final(out)@) == binds_of(old(out)@) + seq![(name@, target@, scope as int)],
{
    let b = RustBinding { name, target, scope };
    proof {
        lemma_binds_push(out@, b);
        assert(binds_of(out@).push(b@) =~= binds_of(out@) + seq![b@]);
    }
    out.push(b);
}

fn scope(t: &SyntaxTree, n: usize) -> (r: usize)
    requires
        t.wf(),
        t.valid(n as int),
    ensures
        r == scope_of(t, n as int),
{
    let mut cur = t.parent_of(n);
    loop
        invariant
            t.wf(),
            t.valid(n as int),
            cur matches Some(p) ==> p < n,
            scope_of(t, n as int) == match cur {
                Some(p) => scope_from(t, p as int, n as int),
                None => n as int,
            },
        decreases match cur {
            Some(p) => p + 1,
            None => 0,
        },
    {
        match cur {
            None => {
                return n;
            },
            Some(p) => {
                assert(t.node_wf(p as int));
                if t.kind_is(p, "source_file") || t.kind_is(p, "declaration_list") || t.kind_is(
                    p,
                    "block",
                ) || t.kind_is(p, "function_item") {
                    return p;
                }
                assert(p > 0 ==> t.nodes@[p as int].parent is Some);
                assert(parent_index(t, p as int) < p);
                assert(scope_from(t, p as int, n as int) == scope_from(
                    t,
                    parent_index(t, p as int),
                    n as int,
                ));
                cur = t.parent_of(p);
            },
        }
    }
}

fn trim_colons_exec(s: &[char]) -> (r: Vec<char>)
    ensures
        r@ == trim_colons(s@),
{
    let mut i: usize = 0;
    assert(s@.subrange(0, s@.len() as int) =~= s@);
    while s.len() - i >= 2 && s[i] == ':' && s[i + 1] == ':'
        invariant
            i <= s.len(),
            trim_colons(s@) == trim_colons(s@.subrange(i as int, s@.len() as int)),
        decreases s.len() - i,
    {
        proof {
            let u = s@.subrange(i as int, s@.len() as int);
            assert(u.subrange(2, u.len() as int) =~= s@.subrange(i + 2, s@.len() as int));
        }
        i = i + 2;
    }
    slice_vec(s, i, s.len())
}

fn join_path_exec(prefix: &[char], suffix: &[char]) -> (r: Vec<char>)
    ensures
        r@ == join_path(prefix@, suffix@),
{
    if prefix.len() == 0 {
        trim_colons_exec(suffix)
    } else if chars_eq_str(suffix, "self") {
        slice_vec(prefix, 0, prefix.len())
    } else {
        let mut r = slice_vec(prefix, 0, prefix.len());
        assert(r@ =~= prefix@);
        push_str(&mut r, "::");
        push_all(&mut r, suffix);
        r
    }
}

fn sep_at_exec(s: &[char], i: usize) -> (r: bool)
    ensures
        r == sep_at(s@, i as int),
{
    i < s.len() && s.len() - i >= 2 && s[i] == ':' && s[i + 1] == ':'
}

fn last_segment_exec(s: &[char]) -> (r: Vec<char>)
    ensures
        r@ == last_segment(s@),
{
    // Search the separators from the right; `j` is one past the candidate.
    let mut j: usize = if s.len() >= 1 { s.len() - 1 } else { 0 };
    while j > 0
        invariant
            j <= s.len(),
            s.len() >= 1 ==> j <= s.len() - 1,
            last_sep(s@, s@.len() - 2) == last_sep(s@, j - 1),
        decreases j,
    {
        if sep_at_exec(s, j - 1) {
            return slice_vec(s, j + 1, s.len());
        }
        j = j - 1;
    }
    slice_vec(s, 0, s.len())
}

fn collect_imports(
    t: &SyntaxTree,
    n: usize,
    prefix: &[char],
    sc: usize,
    out: &mut Vec<RustBinding>,
)
    requires
        t.wf(),
        t.valid(n as int),
    ensures
        binds_of(final(out)@) == binds_of(old(out)@) + imports(t, n as int, prefix@, sc as int),
    decreases t.len() - n,
{
    let ghost start = binds_of(out@);
    if t.kind_is(n, "scoped_use_list") {
        let path: Vec<char> = match t.field_child(n, "path") {
            Some(p) => {
                let pt = t.text(p);
                join_path_exec(prefix, pt.as_slice())
            },
            None => slice_vec(prefix, 0, prefix.len()),
        };
        assert(prefix@.subrange(0, prefix@.len() as int) =~= prefix@);
        match t.field_child(n, "list") {
            Some(l) => {
                collect_imports(t, l, path.as_slice(), sc, out);
            },
            None => {
                assert(binds_of(out@) =~= start + seq![]);
            },
        }
    } else if t.kind_is(n, "use_list") {
        let ks = t.named_children(n);
        let mut i: usize = 0;
        assert(binds_of(out@) =~= start + imports_list(t, n as int, 0, prefix@, sc as int));
        while i < ks.len()
            invariant
                t.wf(),
                t.valid(n as int),
                ks@ == t.named_kids(n as int),
                forall|k: int| 0 <= k < ks@.len() ==> n < #[trigger] ks@[k] < t.end_of(n as int)
                    && t.valid(ks@[k] as int),
                i <= ks.len(),
                start == binds_of(old(out)@),
                binds_of(out@) == start + imports_list(t, n as int, i as int, prefix@, sc as int),
            decreases ks.len() - i,
        {
            let c = ks[i];
            let ghost before = binds_of(out@);
            collect_imports(t, c, prefix, sc, out);
            assert(binds_of(out@) =~= start + imports_list(
                t,
                n as int,
                i + 1,
                prefix@,
                sc as int,
            ));
            i = i + 1;
        }
    } else if t.kind_is(n, "use_as_clause") {
        match (t.field_child(n, "path"), t.field_child(n, "alias")) {
            (Some(p), Some(a)) => {
                let pt = t.text(p);
                let target = join_path_exec(prefix, pt.as_slice());
                push_binding(out, t.text(a), target, sc);
            },
            _ => {
                assert(binds_of(out@) =~= start + seq![]);
            },
        }
    } else if t.kind_is(n, "identifier") || t.kind_is(n, "scoped_identifier") || t.kind_is(
        n,
        "self",
    ) {
        let nt = t.text(n);
        let target = join_path_exec(prefix, nt.as_slice());
        let name = last_segment_exec(target.as_slice());
        push_binding(out, name, target, sc);
    } else {
        assert(binds_of(out@) =~= start + seq![]);
    }
}

fn collect_pattern_names(t: &SyntaxTree, p: usize, sc: usize, out: &mut Vec<RustBinding>)
    requires
        t.wf(),
        t.valid(p as int),
    ensures
        binds_of(final(out)@) == binds_of(old(out)@) + pattern_names(
            t,
            p as int,
            t.end_of(p as int),
            sc as int,
        ),
{
    let ghost start = binds_of(out@);
    let e = t.end(p);
    let mut j: usize = p;
    assert(binds_of(out@) =~= start + pattern_names(t, p as int, p as int, sc as int));
    while j < e
        invariant
            t.wf(),
            p <= j <= e <= t.len(),
            start == binds_of(old(out)@),
            binds_of(out@) == start + pattern_names(t, p as int, j as int, sc as int),
        decreases e - j,
    {
        if t.is_named(j) && t.kind_is(j, "identifier") {
            push_binding(out, t.text(j), Vec::new(), sc);
        }
        assert(binds_of(out@) =~= start + pattern_names(t, p as int, j + 1, sc as int));
        j = j + 1;
    }
}

fn collect_node_bindings(t: &SyntaxTree, n: usize, out: &mut Vec<RustBinding>)
    requires
        t.wf(),
        t.valid(n as int),
    ensures
        binds_of(final(out)@) == binds_of(old(out)@) + node_bindings(t, n as int),
{
    let ghost start = binds_of(out@);
    if t.kind_is(n, "use_declaration") {
        if !t.nodes[n].has_error {
            match t.field_child(n, "argument") {
                Some(a) => {
                    let sc = scope(t, n);
                    let empty: Vec<char> = Vec::new();
                    collect_imports(t, a, empty.as_slice(), sc, out);
                    return;
                },
                None => {},
            }
        }
    } else if t.kind_is(n, "extern_crate_declaration") {
        if !t.nodes[n].has_error {
            match t.field_child(n, "name") {
                Some(nm) => {
                    let shown = match t.field_child(n, "alias") {
                        Some(al) => al,
                        None => nm,
                    };
                    let sc = scope(t, n);
                    push_binding(out, t.text(shown), t.text(nm), sc);
                    return;
                },
                None => {},
            }
        }
    } else if t.kind_is(n, "mod_item") || t.kind_is(n, "struct_item") || t.kind_is(n, "enum_item")
        || t.kind_is(n, "type_item") || t.kind_is(n, "trait_item") || t.kind_is(n, "union_item")
        || t.kind_is(n, "macro_definition") {
        match t.field_child(n, "name") {
            Some(nm) => {
                let sc = scope(t, n);
                push_binding(out, t.text(nm), Vec::new(), sc);
                return;
            },
            None => {},
        }
    } else if t.kind_is(n, "parameter") || t.kind_is(n, "let_declaration") {
        match t.field_child(n, "pattern") {
            Some(p) => {
                let sc = scope(t, n);
                collect_pattern_names(t, p, sc, out);
                return;
            },
            None => {},
        }
    }
    assert(binds_of(out@) =~= start + seq![]);
}

fn collect_file_bindings(t: &SyntaxTree) -> (r: Vec<RustBinding>)
    requires
        t.wf(),
    ensures
        binds_of(r@) == file_bindings(t),
{
    let mut r: Vec<RustBinding> = Vec::new();
    let len = t.node_count();
    let mut i: usize = 0;
    assert(binds_of(r@) =~= bindings_upto(t, 0));
    while i < len
        invariant
            t.wf(),
            i <= len == t.len(),
            binds_of(r@) == bindings_upto(t, i as int),
        decreases len - i,
    {
        let ghost before = binds_of(r@);
        if t.is_named(i) {
            collect_node_bindings(&t, i, &mut r);
        }
        assert(binds_of(r@) =~= bindings_upto(t, i + 1));
        i = i + 1;
    }
    r
}

// ── Resolution ─────────────────────────────────────────────────────────

/// How many bindings bind `h` in scope `sc`, and the first that does.
fn find_bindings(bs: &Vec<RustBinding>, sc: usize, h: &[char]) -> (r: (usize, Option<usize>))
    ensures
        r.0 == match_count(binds_of(bs@), sc as int, h@),
        match r.1 {
            Some(k) => k < bs@.len() && k as int == first_match(binds_of(bs@), sc as int, h@),
            None => first_match(binds_of(bs@), sc as int, h@) < 0,
        },
{
    let ghost v = binds_of(bs@);
    let mut count: usize = 0;
    let mut first: Option<usize> = None;
    let mut i: usize = 0;
    assert(v.take(0) =~= Seq::<Bind>::empty());
    while i < bs.len()
        invariant
            v == binds_of(bs@),
            v.len() == bs@.len(),
            i <= bs.len(),
            count <= i,
            count == match_count(v.take(i as int), sc as int, h@),
            match first {
                Some(k) => k < i && k as int == first_match(v.take(i as int), sc as int, h@),
                None => first_match(v.take(i as int), sc as int, h@) < 0,
            },
        decreases bs.len() - i,
    {
        let b = &bs[i];
        proof {
            let u = v.take(i + 1);
            assert(u.drop_last() =~= v.take(i as int));
            assert(u.last() == bs@[i as int]@);
        }
        if b.scope == sc && chars_eq(b.name.as_slice(), h) {
            count = count + 1;
            if first.is_none() {
                first = Some(i);
            }
        }
        i = i + 1;
    }
    assert(v.take(bs.len() as int) =~= v);
    (count, first)
}

fn first_sep_exec(s: &[char]) -> (r: Option<usize>)
    ensures
        match r {
            Some(i) => i as int == first_sep(s@, 0) && i + 1 < s.len(),
            None => first_sep(s@, 0) < 0,
        },
{
    let mut i: usize = 0;
    while i < s.len()
        invariant
            i <= s.len(),
            first_sep(s@, 0) == first_sep(s@, i as int),
        decreases s.len() - i,
    {
        if s.len() - i < 2 {
            return None;
        }
        if sep_at_exec(s, i) {
            return Some(i);
        }
        i = i + 1;
    }
    None
}

fn resolve_exec(t: &SyntaxTree, name: &[char], at: usize, bs: &Vec<RustBinding>) -> (r: Option<
    Vec<char>,
>)
    requires
        t.wf(),
        t.valid(at as int),
    ensures
        match r {
            Some(v) => resolve_name(t, name@, at as int, binds_of(bs@)) == Some(v@),
            None => resolve_name(t, name@, at as int, binds_of(bs@)) is None,
        },
{
    let ghost v = binds_of(bs@);
    let whole = trim_colons_exec(name);
    let (head, tail): (Vec<char>, Vec<char>) = match first_sep_exec(whole.as_slice()) {
        Some(i) => (slice_vec(whole.as_slice(), 0, i), slice_vec(whole.as_slice(), i + 2, whole.len())),
        None => (slice_vec(whole.as_slice(), 0, whole.len()), Vec::new()),
    };
    assert(whole@.subrange(0, whole@.len() as int) =~= whole@);
    let mut a: Option<usize> = Some(at);
    loop
        invariant
            t.wf(),
            v == binds_of(bs@),
            a matches Some(x) ==> t.valid(x as int),
            resolve_name(t, name@, at as int, v) == match a {
                Some(x) => resolve_from(t, x as int, head@, tail@, whole@, v),
                None => Some(whole@),
            },
        decreases match a {
            Some(x) => x + 1,
            None => 0,
        },
    {
        match a {
            None => {
                return Some(whole);
            },
            Some(x) => {
                let (count, first) = find_bindings(bs, x, head.as_slice());
                if count > 0 {
                    let k = match first {
                        Some(k) => k,
                        None => {
                            proof {
                                lemma_first_exists(v, x as int, head@);
                            }
                            return None;
                        },
                    };
                    assert(v[k as int] == bs@[k as int]@);
                    let target = &bs[k].target;
                    if count > 1 || target.len() == 0 {
                        return None;
                    }
                    let mut out = slice_vec(target.as_slice(), 0, target.len());
                    assert(out@ =~= target@);
                    if tail.len() == 0 {
                        return Some(out);
                    }
                    push_str(&mut out, "::");
                    push_all(&mut out, tail.as_slice());
                    return Some(out);
                }
                if t.kind_is(x, "declaration_list") {
                    return Some(whole);
                }
                assert(t.node_wf(x as int));
                assert(x > 0 ==> t.nodes@[x as int].parent is Some);
                assert(parent_index(t, x as int) < x);
                assert(resolve_from(t, x as int, head@, tail@, whole@, v) == resolve_from(
                    t,
                    parent_index(t, x as int),
                    head@,
                    tail@,
                    whole@,
                    v,
                ));
                a = t.parent_of(x);
            },
        }
    }
}

proof fn lemma_first_exists(bs: Seq<Bind>, sc: int, h: Seq<char>)
    ensures
        match_count(bs, sc, h) > 0 <==> first_match(bs, sc, h) >= 0,
        first_match(bs, sc, h) < bs.len(),
    decreases bs.len(),
{
    if bs.len() > 0 {
        lemma_first_exists(bs.drop_last(), sc, h);
    }
}

fn evidence_exec(
    t: &SyntaxTree,
    attr: usize,
    item: usize,
    bs: &Vec<RustBinding>,
    inner: bool,
) -> (r: bool)
    requires
        t.wf(),
        t.valid(attr as int),
        t.valid(item as int),
    ensures
        r == evidence(t, attr as int, item as int, binds_of(bs@), inner),
{
    if t.nodes[attr].has_error {
        return false;
    }
    let ks = t.named_children(attr);
    if ks.len() == 0 {
        return false;
    }
    let v = ks[0];
    let vt = t.text(v);
    let compact = strip_ws(vt.as_slice());
    if !t.kind_is(v, "attribute") {
        return false;
    }
    if chars_eq_str(compact.as_slice(), "cfg(test)") {
        return true;
    }
    if inner || !t.kind_is(item, "function_item") || t.field_child(v, "arguments").is_some() {
        return false;
    }
    match resolve_exec(t, compact.as_slice(), item, bs) {
        Some(full) => chars_eq_str(full.as_slice(), "test") || chars_eq_str(
            full.as_slice(),
            "tokio::test",
        ) || chars_eq_str(full.as_slice(), "async_std::test"),
        None => false,
    }
}

// ── Test code ──────────────────────────────────────────────────────────

fn outer_trivia_exec(t: &SyntaxTree, n: usize) -> (r: bool)
    requires
        t.valid(n as int),
    ensures
        r == outer_trivia(t.kind(n as int)),
{
    t.kind_is(n, "attribute_item") || t.kind_is(n, "line_comment") || t.kind_is(n, "block_comment")
}

fn inner_trivia_exec(t: &SyntaxTree, n: usize) -> (r: bool)
    requires
        t.valid(n as int),
    ensures
        r == inner_trivia(t.kind(n as int)),
{
    t.kind_is(n, "inner_attribute_item") || t.kind_is(n, "line_comment") || t.kind_is(
        n,
        "block_comment",
    )
}

fn attached_exec(t: &SyntaxTree, n: usize, bs: &Vec<RustBinding>) -> (r: bool)
    requires
        t.wf(),
        t.valid(n as int),
    ensures
        r == attached(t, n as int, binds_of(bs@)),
{
    let kc = chars_of(t.kind_str(n));
    if !ends_with_str(kc.as_slice(), "_item") {
        return false;
    }
    let p = match t.parent_of(n) {
        Some(p) => p,
        None => {
            return false;
        },
    };
    let ks = t.named_children(p);
    let ghost v = binds_of(bs@);
    let mut j: usize = 0;
    while j < ks.len() && ks[j] != n
        invariant
            j <= ks.len(),
            position(ks@, n as int, 0) == position(ks@, n as int, j as int),
        decreases ks.len() - j,
    {
        j = j + 1;
    }
    if j == ks.len() {
        return false;
    }
    assert(attached(t, n as int, v) == marked_before(t, ks@, j - 1, n as int, v));
    let mut m: usize = j;
    while m > 0
        invariant
            t.wf(),
            t.valid(n as int),
            attached(t, n as int, v) == marked_before(t, ks@, j - 1, n as int, v),
            m <= j < ks.len(),
            v == binds_of(bs@),
            forall|k: int| 0 <= k < ks@.len() ==> t.valid(#[trigger] ks@[k] as int),
            marked_before(t, ks@, j - 1, n as int, v) == marked_before(t, ks@, m - 1, n as int, v),
        decreases m,
    {
        let s = ks[m - 1];
        if !outer_trivia_exec(t, s) {
            return false;
        }
        if t.kind_is(s, "attribute_item") && evidence_exec(t, s, n, bs, false) {
            return true;
        }
        m = m - 1;
    }
    false
}

fn marked_container_exec(t: &SyntaxTree, n: usize, bs: &Vec<RustBinding>) -> (r: bool)
    requires
        t.wf(),
        t.valid(n as int),
    ensures
        r == marked_container(t, n as int, binds_of(bs@)),
{
    if !(t.kind_is(n, "source_file") || t.kind_is(n, "declaration_list") || t.kind_is(n, "block")) {
        return false;
    }
    let ks = t.named_children(n);
    let ghost v = binds_of(bs@);
    let mut j: usize = 0;
    assert(marked_container(t, n as int, v) == marked_inside(t, ks@, 0, n as int, v));
    while j < ks.len()
        invariant
            t.wf(),
            t.valid(n as int),
            marked_container(t, n as int, v) == marked_inside(t, ks@, 0, n as int, v),
            j <= ks.len(),
            v == binds_of(bs@),
            ks@ == t.named_kids(n as int),
            forall|k: int| 0 <= k < ks@.len() ==> t.valid(#[trigger] ks@[k] as int),
            marked_inside(t, ks@, 0, n as int, v) == marked_inside(t, ks@, j as int, n as int, v),
        decreases ks.len() - j,
    {
        let s = ks[j];
        if !inner_trivia_exec(t, s) {
            return false;
        }
        if t.kind_is(s, "inner_attribute_item") && evidence_exec(t, s, n, bs, true) {
            return true;
        }
        j = j + 1;
    }
    false
}

/// The character ranges of the test code in a Rust file's syntax tree, in
/// preorder: items under a `#[cfg(test)]` or a test attribute, and files,
/// module bodies and blocks whose leading `#![cfg(test)]` marks them.
pub fn rust_test_ranges(t: &SyntaxTree) -> (r: Vec<Range<usize>>)
    requires
        t.wf(),
    ensures
        spans_of(r@) == rust_test_spans(t),
{
    let bs = collect_file_bindings(t);
    let ghost v = binds_of(bs@);
    let mut r: Vec<Range<usize>> = Vec::new();
    let len = t.node_count();
    let mut i: usize = 0;
    assert(spans_of(r@) =~= test_spans_upto(t, v, 0));
    while i < len
        invariant
            t.wf(),
            i <= len == t.len(),
            v == binds_of(bs@),
            v == file_bindings(t),
            spans_of(r@) == test_spans_upto(t, v, i as int),
        decreases len - i,
    {
        if t.is_named(i) && (attached_exec(t, i, &bs) || marked_container_exec(t, i, &bs)) {
            let x = t.nodes[i].start..t.nodes[i].end;
            r.push(x);
        }
        assert(spans_of(r@) =~= test_spans_upto(t, v, i + 1));
        i = i + 1;
    }
    r
}

/// The attribute macros that make a Rust function a test, once resolved.
pub open spec fn rust_test_macros() -> Seq<Seq<char>> {
    seq![
        "test"@,
        "tokio::test"@,
        "async_std::test"@,
    ]
}

/// A resolved attribute path is a test macro exactly when it is the
/// built-in `test`, `tokio::test` or `async_std::test`.
pub proof fn lemma_test_macros_are_the_documented_ones(s: Seq<char>)
    ensures
        is_test_macro(s) <==> rust_test_macros().contains(s),
{
    let t = rust_test_macros();
    if t.contains(s) {
        let i = choose|i: int| 0 <= i < t.len() && t[i] == s;
    }
    if is_test_macro(s) {
        if s == "test"@ {
            assert(t[0] == s);
        } else if s == "tokio::test"@ {
            assert(t[1] == s);
        } else {
            assert(t[2] == s);
        }
    }
}

/// A well-formed `#[cfg(test)]` attribute marks the item it is attached
/// to as test code, whatever the item, inner or outer.
pub proof fn lemma_cfg_test_marks_any_item(t: &SyntaxTree, attr: int, item: int, bs: Seq<Bind>, inner: bool)
    requires
        !t.nodes@[attr].has_error,
        t.named_kids(attr).len() > 0,
        t.kind(t.named_kids(attr)[0] as int) == "attribute"@,
        without_ws(t.text_of(t.named_kids(attr)[0] as int)) == "cfg(test)"@,
    ensures
        evidence(t, attr, item, bs, inner),
{
}

/// Past `cfg(test)`, an attribute marks only a function, only from
/// outside, only without arguments, and only when its path resolves to a
/// test macro.
pub proof fn lemma_test_macro_evidence(t: &SyntaxTree, attr: int, item: int, bs: Seq<Bind>, inner: bool)
    requires
        evidence(t, attr, item, bs, inner),
        without_ws(t.text_of(t.named_kids(attr)[0] as int)) != "cfg(test)"@,
    ensures
        !inner,
        t.kind(item) == "function_item"@,
        t.field(t.named_kids(attr)[0] as int, "arguments"@) is None,
        resolve_name(t, without_ws(t.text_of(t.named_kids(attr)[0] as int)), item, bs) matches Some(full)
            && rust_test_macros().contains(full),
{
    let full = resolve_name(t, without_ws(t.text_of(t.named_kids(attr)[0] as int)), item, bs)->0;
    lemma_test_macros_are_the_documented_ones(full);
}

} // verus!
