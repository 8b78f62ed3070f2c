//! Call-edge extraction for Rust syntax trees, the counterpart of the
//! TS/JS extraction in `calls`, sharing its edge types and aggregation: a
//! bare call is `SameFile` only when the file declares the name, a
//! shadowed name is `Unresolved`, method calls and macro bodies stay out
//! of the resolved set. Specifiers are shaped like `use` paths
//! (`crate::a::b`). It serves callers that already hold a parsed Rust
//! tree; `calls::extract_call_edges` itself reads TS/JS files only.
use vstd::prelude::*;

use crate::metrics::complexity::calls::{
    aggregate, aggregates, edge_views, is_declared, site_views, text_eq, RawCallEdge, RawCalleeRef,
    SiteView,
};
use crate::metrics::complexity::inheritance::{opt_seq, RefView};
use crate::metrics::complexity::syntax::SyntaxTree;
use crate::text::{chars_eq, chars_eq_str, is_uppercase, join, join_lines, push_all, push_str, slice_vec, string_of, unicode_uppercase};

verus! {

// ── Paths ──────────────────────────────────────────────────────────────

/// A `::` separator starts at `i`.
pub open spec fn sep_at(s: Seq<char>, i: int) -> bool {
    0 <= i && i + 1 < s.len() && s[i] == ':' && s[i + 1] == ':'
}

/// The first separator at or after `i`.
pub open spec fn next_sep(s: Seq<char>, i: int) -> Option<int>
    decreases s.len() - i,
{
    if i < 0 || i + 1 >= s.len() {
        None
    } else if sep_at(s, i) {
        Some(i)
    } else {
        next_sep(s, i + 1)
    }
}

pub proof fn lemma_next_sep(s: Seq<char>, i: int)
    requires
        0 <= i,
    ensures
        next_sep(s, i) matches Some(j) ==> i <= j && sep_at(s, j) && forall|k: int| i <= k < j ==> !sep_at(s, k),
        next_sep(s, i) is None ==> forall|k: int| i <= k ==> !sep_at(s, k),
    decreases s.len() - i,
{
    if i >= 0 && i + 1 < s.len() && !sep_at(s, i) {
        lemma_next_sep(s, i + 1);
    }
}

/// `str::split("::")` on the characters of `s` from position `i` on.
pub open spec fn segments_from(s: Seq<char>, i: int) -> Seq<Seq<char>>
    decreases s.len() - i,
{
    if i < 0 || i > s.len() {
        seq![]
    } else {
        match next_sep(s, i) {
            Some(j) => {
                proof {
                    lemma_next_sep(s, i);
                }
                seq![s.subrange(i, j)] + segments_from(s, j + 2)
            },
            None => seq![s.subrange(i, s.len() as int)],
        }
    }
}

/// `str::split("::")`: the segments of a path.
pub open spec fn segments(s: Seq<char>) -> Seq<Seq<char>> {
    segments_from(s, 0)
}

/// The last separator starting at or before `i`.
pub open spec fn last_sep_from(s: Seq<char>, i: int) -> Option<int>
    decreases i + 1,
{
    if i < 0 {
        None
    } else if sep_at(s, i) {
        Some(i)
    } else {
        last_sep_from(s, i - 1)
    }
}

/// The last separator of `s` (where `str::rsplit_once("::")` splits).
pub open spec fn last_sep(s: Seq<char>) -> Option<int> {
    last_sep_from(s, s.len() - 2)
}

proof fn lemma_last_sep_from(s: Seq<char>, i: int)
    ensures
        last_sep_from(s, i) matches Some(j) ==> j <= i && sep_at(s, j),
    decreases i + 1,
{
    if i >= 0 && !sep_at(s, i) {
        lemma_last_sep_from(s, i - 1);
    }
}

/// What follows the last separator (`rsplit("::").next()`), or all of `s`.
pub open spec fn last_segment(s: Seq<char>) -> Seq<char> {
    match last_sep(s) {
        Some(i) => s.subrange(i + 2, s.len() as int),
        None => s,
    }
}

/// `prefix::seg`, or `seg` alone under an empty prefix.
pub open spec fn module_join(prefix: Seq<char>, seg: Seq<char>) -> Seq<char> {
    if prefix.len() == 0 {
        seg
    } else {
        prefix + "::"@ + seg
    }
}

// ── `use` bindings ─────────────────────────────────────────────────────

/// `(local name, full path)`.
pub type UseBinding = (Seq<char>, Seq<char>);

/// The bindings the `use` tree at `n` introduces under `prefix`. Globs
/// bind nothing that can be named.
pub open spec fn use_binds(t: &SyntaxTree, n: int, prefix: Seq<char>) -> Seq<UseBinding>
    decreases t.len() - n, 1int, 0int,
{
    if !t.valid(n) {
        seq![]
    } else if t.kind(n) == "identifier"@ {
        seq![(t.text_of(n), module_join(prefix, t.text_of(n)))]
    } else if t.kind(n) == "scoped_identifier"@ {
        let full = module_join(prefix, t.text_of(n));
        let local = match t.field(n, "name"@) {
            Some(c) => t.text_of(c as int),
            None => last_segment(full),
        };
        seq![(local, full)]
    } else if t.kind(n) == "use_as_clause"@ {
        match (t.field(n, "path"@), t.field(n, "alias"@)) {
            (Some(p), Some(a)) => seq![(t.text_of(a as int), module_join(prefix, t.text_of(p as int)))],
            _ => seq![],
        }
    } else if t.kind(n) == "scoped_use_list"@ {
        let inner = match t.field(n, "path"@) {
            Some(p) => module_join(prefix, t.text_of(p as int)),
            None => prefix,
        };
        match t.field(n, "list"@) {
            Some(l) => if n < l < t.len() {
                use_binds(t, l as int, inner)
            } else {
                seq![]
            },
            None => seq![],
        }
    } else if t.kind(n) == "use_list"@ {
        use_binds_among(t, n, 0, prefix)
    } else {
        seq![]
    }
}

/// The bindings of the named children of `n`, from position `k` on.
pub open spec fn use_binds_among(t: &SyntaxTree, n: int, k: int, prefix: Seq<char>) -> Seq<UseBinding>
    decreases t.len() - n, 0int, t.named_kids(n).len() - k,
{
    if !t.valid(n) || k < 0 || k >= t.named_kids(n).len() {
        seq![]
    } else {
        let c = t.named_kids(n)[k] as int;
        (if n < c < t.len() {
            use_binds(t, c, prefix)
        } else {
            seq![]
        }) + use_binds_among(t, n, k + 1, prefix)
    }
}

/// The bindings of the `use` declaration at `n`, if it is one.
pub open spec fn use_decl_binds(t: &SyntaxTree, n: int) -> Seq<UseBinding> {
    if t.kind(n) == "use_declaration"@ {
        match t.field(n, "argument"@) {
            Some(a) => use_binds(t, a as int, seq![]),
            None => seq![],
        }
    } else {
        seq![]
    }
}

pub open spec fn uses_upto(t: &SyntaxTree, i: int) -> Seq<UseBinding>
    decreases i,
{
    if i <= 0 {
        seq![]
    } else {
        uses_upto(t, i - 1) + use_decl_binds(t, i - 1)
    }
}

/// Every `use` binding of the file, in the order the declarations appear.
pub open spec fn file_uses(t: &SyntaxTree) -> Seq<UseBinding> {
    uses_upto(t, t.end_of(0))
}

/// The full path `local` is bound to: the last binding wins, as in a map.
pub open spec fn lookup_use(bs: Seq<UseBinding>, local: Seq<char>) -> Option<Seq<char>>
    decreases bs.len(),
{
    if bs.len() == 0 {
        None
    } else if bs.last().0 == local {
        Some(bs.last().1)
    } else {
        lookup_use(bs.drop_last(), local)
    }
}

// ── Declared names ─────────────────────────────────────────────────────

/// Items whose name a bare call can target: functions (in impls too),
/// tuple structs and enums.
pub open spec fn is_rust_decl_kind(k: Seq<char>) -> bool {
    k == "function_item"@ || k == "struct_item"@ || k == "enum_item"@
}

pub open spec fn rust_declared_at(t: &SyntaxTree, n: int) -> Option<Seq<char>> {
    if is_rust_decl_kind(t.kind(n)) {
        match t.field(n, "name"@) {
            Some(c) => Some(t.text_of(c as int)),
            None => None,
        }
    } else {
        None
    }
}

pub open spec fn rust_declared_upto(t: &SyntaxTree, i: int) -> Seq<Seq<char>>
    decreases i,
{
    if i <= 0 {
        seq![]
    } else {
        rust_declared_upto(t, i - 1) + opt_seq(rust_declared_at(t, i - 1))
    }
}

/// The file declares `name` somewhere (at any depth).
pub open spec fn rust_declares(t: &SyntaxTree, name: Seq<char>) -> bool {
    rust_declared_upto(t, t.end_of(0)).contains(name)
}

// ── Shadowing ──────────────────────────────────────────────────────────

/// Some identifier in the subtree at `p` spells `name`.
pub open spec fn subtree_names(t: &SyntaxTree, p: int, name: Seq<char>) -> bool {
    exists|m: int| p <= m < t.end_of(p) && #[trigger] t.kind(m) == "identifier"@ && t.text_of(m) == name
}

/// A function or closure at `a` whose parameters mention `name`.
pub open spec fn rust_params_bind(t: &SyntaxTree, a: int, name: Seq<char>) -> bool {
    &&& (t.kind(a) == "function_item"@ || t.kind(a) == "closure_expression"@)
    &&& t.field(a, "parameters"@) matches Some(p) && subtree_names(t, p as int, name)
}

/// A `let` at `d` whose pattern mentions `name`.
pub open spec fn let_binds(t: &SyntaxTree, d: int, name: Seq<char>) -> bool {
    &&& t.kind(d) == "let_declaration"@
    &&& t.field(d, "pattern"@) matches Some(p) && subtree_names(t, p as int, name)
}

/// A block at `a` with a `let` of `name` among its statements.
pub open spec fn rust_block_binds(t: &SyntaxTree, a: int, name: Seq<char>) -> bool {
    &&& t.kind(a) == "block"@
    &&& exists|k: int| 0 <= k < t.named_kids(a).len() && #[trigger] let_binds(t, t.named_kids(a)[k] as int, name)
}

/// `a` or one of its ancestors rebinds `name`.
pub open spec fn rust_rebound_from(t: &SyntaxTree, a: int, name: Seq<char>) -> bool
    decreases a,
{
    if !t.valid(a) {
        false
    } else if rust_params_bind(t, a, name) || rust_block_binds(t, a, name) {
        true
    } else {
        match t.nodes@[a].parent {
            Some(p) => if (p as int) < a {
                rust_rebound_from(t, p as int, name)
            } else {
                false
            },
            None => false,
        }
    }
}

/// `name` is rebound between the call site and the file scope.
pub open spec fn rust_shadowed(t: &SyntaxTree, call: int, name: Seq<char>) -> bool {
    match t.nodes@[call].parent {
        Some(p) => rust_rebound_from(t, p as int, name),
        None => false,
    }
}

// ── Callers and callees ────────────────────────────────────────────────

/// The nearest of `a` and its ancestors that is a function item.
pub open spec fn rust_enclosing_fn(t: &SyntaxTree, a: int) -> Option<int>
    decreases a,
{
    if !t.valid(a) {
        None
    } else if t.kind(a) == "function_item"@ {
        Some(a)
    } else {
        match t.nodes@[a].parent {
            Some(p) => if (p as int) < a {
                rust_enclosing_fn(t, p as int)
            } else {
                None
            },
            None => None,
        }
    }
}

/// The caller a call site is attributed to: its innermost enclosing
/// function item's name (closures pass through), else `"<toplevel>"`.
pub open spec fn rust_caller_of(t: &SyntaxTree, call: int) -> Seq<char> {
    match t.nodes@[call].parent {
        Some(p) => match rust_enclosing_fn(t, p as int) {
            Some(f) => match t.field(f, "name"@) {
                Some(nm) => t.text_of(nm as int),
                None => "<toplevel>"@,
            },
            None => "<toplevel>"@,
        },
        None => "<toplevel>"@,
    }
}

/// The callee node of a call, looking through a turbofish.
pub open spec fn rust_callee(t: &SyntaxTree, call: int) -> Option<usize> {
    match t.field(call, "function"@) {
        Some(c) => if t.kind(c as int) == "generic_function"@ {
            t.field(c as int, "function"@)
        } else {
            Some(c)
        },
        None => None,
    }
}

/// A full logical path as a callee: the module part is the specifier, the
/// last segment the name.
pub open spec fn specifier_for(full: Seq<char>) -> RefView {
    match last_sep(full) {
        Some(i) => (1, full.subrange(0, i), full.subrange(i + 2, full.len() as int)),
        None => (2, full, seq![]),
    }
}

/// The path `segs` with its head expanded through the `use` bindings.
pub open spec fn expanded(segs: Seq<Seq<char>>, bs: Seq<UseBinding>) -> Seq<Seq<char>> {
    match lookup_use(bs, segs[0]) {
        Some(full) => segments(full) + segs.subrange(1, segs.len() as int),
        None => segs,
    }
}

/// The segment before the name spells a type (starts with an uppercase
/// letter).
pub open spec fn names_type(ex: Seq<Seq<char>>) -> bool {
    ex.len() >= 2 && ex[ex.len() - 2].len() > 0 && unicode_uppercase(ex[ex.len() - 2][0])
}

/// A path callee `a::b::f`: `Self::f` is same-file; otherwise the head is
/// expanded, and the module is what precedes the name, or the type and the
/// name when the segment before the name is a type.
pub open spec fn classify_scoped(t: &SyntaxTree, path: Seq<char>, bs: Seq<UseBinding>) -> RefView {
    let segs = segments(path);
    if segs[0] == "Self"@ {
        (0, segs.last(), seq![])
    } else {
        let ex = expanded(segs, bs);
        let name = ex.last();
        let module_end = if names_type(ex) { ex.len() - 2 } else { ex.len() - 1 };
        if module_end == 0 {
            if names_type(ex) && rust_declares(t, ex[ex.len() - 2]) {
                (0, name, seq![])
            } else {
                (2, name, seq![])
            }
        } else {
            (1, join(ex.subrange(0, module_end), "::"@), name)
        }
    }
}

/// How the call at `call` is classified, given the file's `use` bindings.
pub open spec fn rust_classify(t: &SyntaxTree, call: int, bs: Seq<UseBinding>) -> Option<RefView> {
    match rust_callee(t, call) {
        None => None,
        Some(c) => if t.kind(c as int) == "identifier"@ {
            let id = t.text_of(c as int);
            if rust_shadowed(t, call, id) {
                Some((2, id, seq![]))
            } else {
                match lookup_use(bs, id) {
                    Some(full) => Some(specifier_for(full)),
                    None => if rust_declares(t, id) {
                        Some((0, id, seq![]))
                    } else {
                        Some((2, id, seq![]))
                    },
                }
            }
        } else if t.kind(c as int) == "scoped_identifier"@ {
            Some(classify_scoped(t, t.text_of(c as int), bs))
        } else if t.kind(c as int) == "field_expression"@ {
            match t.field(c as int, "field"@) {
                Some(f) => Some((2, t.text_of(f as int), seq![])),
                None => None,
            }
        } else {
            Some((2, "<dynamic>"@, seq![]))
        },
    }
}

pub open spec fn rust_site_at(t: &SyntaxTree, n: int, bs: Seq<UseBinding>) -> Option<SiteView> {
    if t.kind(n) == "call_expression"@ {
        match rust_classify(t, n, bs) {
            Some(c) => Some((rust_caller_of(t, n), c)),
            None => None,
        }
    } else {
        None
    }
}

pub open spec fn rust_sites_upto(t: &SyntaxTree, i: int, bs: Seq<UseBinding>) -> Seq<SiteView>
    decreases i,
{
    if i <= 0 {
        seq![]
    } else {
        rust_sites_upto(t, i - 1, bs) + opt_seq(rust_site_at(t, i - 1, bs))
    }
}

/// Every classified call site of a Rust tree, in preorder.
pub open spec fn rust_tree_sites(t: &SyntaxTree) -> Seq<SiteView> {
    rust_sites_upto(t, t.end_of(0), file_uses(t))
}

pub open spec fn binding_views(bs: Seq<(Vec<char>, Vec<char>)>) -> Seq<UseBinding> {
    bs.map_values(|b: (Vec<char>, Vec<char>)| (b.0@, b.1@))
}

// ── Executable paths ───────────────────────────────────────────────────

fn sep_at_exec(s: &[char], i: usize) -> (r: bool)
    ensures
        r == sep_at(s@, i as int),
{
    i < s.len() && s.len() - i > 1 && s[i] == ':' && s[i + 1] == ':'
}

/// `str::split("::")`.
fn split_segments(s: &[char]) -> (r: Vec<Vec<char>>)
    ensures
        r@.map_values(|v: Vec<char>| v@) == segments(s@),
        r@.len() >= 1,
{
    let mut out: Vec<Vec<char>> = Vec::new();
    let mut start: usize = 0;
    let mut i: usize = 0;
    let ghost whole = segments(s@);
    while s.len() - i > 1
        invariant
            start <= i <= s.len(),
            whole == segments(s@),
            next_sep(s@, start as int) == next_sep(s@, i as int),
            whole == out@.map_values(|v: Vec<char>| v@) + segments_from(s@, start as int),
        decreases s.len() - i,
    {
        if sep_at_exec(s, i) {
            let piece = slice_vec(s, start, i);
            let ghost before = out@.map_values(|v: Vec<char>| v@);
            proof {
                lemma_next_sep(s@, start as int);
                assert(segments_from(s@, start as int) == seq![s@.subrange(start as int, i as int)] + segments_from(s@, i + 2));
            }
            out.push(piece);
            assert(out@.map_values(|v: Vec<char>| v@) =~= before.push(s@.subrange(start as int, i as int)));
            i = i + 2;
            start = i;
            proof {
                assert(whole =~= out@.map_values(|v: Vec<char>| v@) + segments_from(s@, start as int));
            }
        } else {
            proof {
                assert(next_sep(s@, i as int) == next_sep(s@, i + 1));
            }
            i = i + 1;
        }
    }
    proof {
        assert(next_sep(s@, i as int) is None);
        assert(segments_from(s@, start as int) == seq![s@.subrange(start as int, s@.len() as int)]);
    }
    let ghost before = out@.map_values(|v: Vec<char>| v@);
    let last = slice_vec(s, start, s.len());
    out.push(last);
    assert(out@.map_values(|v: Vec<char>| v@) =~= before.push(s@.subrange(start as int, s@.len() as int)));
    assert(whole =~= out@.map_values(|v: Vec<char>| v@));
    out
}

/// The last separator of `s`.
fn last_sep_exec(s: &[char]) -> (r: Option<usize>)
    ensures
        match r {
            Some(i) => last_sep(s@) == Some(i as int) && i + 1 < s@.len(),
            None => last_sep(s@) is None,
        },
{
    if s.len() < 2 {
        return None;
    }
    let mut i: usize = s.len() - 1;
    while i > 0
        invariant
            0 <= i <= s@.len() - 1,
            s@.len() >= 2,
            last_sep(s@) == last_sep_from(s@, i - 1),
        decreases i,
    {
        if sep_at_exec(s, i - 1) {
            return Some(i - 1);
        }
        i = i - 1;
    }
    None
}

/// `prefix::seg`, or `seg` alone under an empty prefix.
fn module_join_exec(prefix: &[char], seg: &[char]) -> (r: Vec<char>)
    ensures
        r@ == module_join(prefix@, seg@),
{
    let mut out: Vec<char> = Vec::new();
    push_all(&mut out, prefix);
    if prefix.len() > 0 {
        push_str(&mut out, "::");
    }
    push_all(&mut out, seg);
    assert(prefix@.len() == 0 ==> out@ =~= seg@);
    out
}

/// What follows the last separator, or all of `s`.
fn last_segment_exec(s: &[char]) -> (r: Vec<char>)
    ensures
        r@ == last_segment(s@),
{
    let n = s.len();
    match last_sep_exec(s) {
        Some(i) => {
            assert(i + 2 <= n);
            slice_vec(s, i + 2, n)
        },
        None => {
            let r = slice_vec(s, 0, n);
            assert(r@ =~= s@);
            r
        },
    }
}

// ── Executable `use` bindings ──────────────────────────────────────────

/// Add the bindings of the `use` tree at `n`, under `prefix`, to `out`.
fn collect_use(t: &SyntaxTree, n: usize, prefix: &[char], out: &mut Vec<(Vec<char>, Vec<char>)>)
    requires
        t.wf(),
        t.valid(n as int),
    ensures
        binding_views(final(out)@) == binding_views(old(out)@) + use_binds(t, n as int, prefix@),
    decreases t.nodes@.len() - n,
{
    let ghost start = binding_views(out@);
    if t.kind_is(n, "identifier") {
        let name = t.text(n);
        let full = module_join_exec(prefix, name.as_slice());
        out.push((name, full));
        assert(binding_views(out@) =~= start + use_binds(t, n as int, prefix@));
    } else if t.kind_is(n, "scoped_identifier") {
        let tx = t.text(n);
        let full = module_join_exec(prefix, tx.as_slice());
        let local = match t.field_child(n, "name") {
            Some(c) => t.text(c),
            None => last_segment_exec(full.as_slice()),
        };
        out.push((local, full));
        assert(binding_views(out@) =~= start + use_binds(t, n as int, prefix@));
    } else if t.kind_is(n, "use_as_clause") {
        let path = t.field_child(n, "path");
        let alias = t.field_child(n, "alias");
        match (path, alias) {
            (Some(p), Some(a)) => {
                let ptx = t.text(p);
                let full = module_join_exec(prefix, ptx.as_slice());
                out.push((t.text(a), full));
                assert(binding_views(out@) =~= start + use_binds(t, n as int, prefix@));
            },
            _ => {
                assert(binding_views(out@) =~= start + use_binds(t, n as int, prefix@));
            },
        }
    } else if t.kind_is(n, "scoped_use_list") {
        let inner = match t.field_child(n, "path") {
            Some(p) => {
                let ptx = t.text(p);
                module_join_exec(prefix, ptx.as_slice())
            },
            None => slice_vec(prefix, 0, prefix.len()),
        };
        assert(prefix@.subrange(0, prefix@.len() as int) =~= prefix@);
        match t.field_child(n, "list") {
            Some(l) => collect_use(t, l, inner.as_slice(), out),
            None => {
                assert(binding_views(out@) =~= start + use_binds(t, n as int, prefix@));
            },
        }
    } else if t.kind_is(n, "use_list") {
        let kids = t.named_children(n);
        let mut k: usize = 0;
        assert(start =~= binding_views(out@));
        assert(start + use_binds_among(t, n as int, 0, prefix@) =~= binding_views(out@) + use_binds_among(t, n as int, 0, prefix@));
        while k < kids.len()
            invariant
                t.wf(),
                t.valid(n as int),
                k <= kids@.len(),
                kids@ == t.named_kids(n as int),
                forall|j: int| 0 <= j < kids@.len() ==> n < #[trigger] kids@[j] < t.nodes@.len(),
                start + use_binds_among(t, n as int, 0, prefix@) == binding_views(out@) + use_binds_among(t, n as int, k as int, prefix@),
            decreases kids.len() - k,
        {
            let ghost before = binding_views(out@);
            let c = kids[k];
            collect_use(t, c, prefix, out);
            proof {
                assert(use_binds_among(t, n as int, k as int, prefix@) == use_binds(t, c as int, prefix@) + use_binds_among(t, n as int, k + 1, prefix@));
                assert(before + use_binds_among(t, n as int, k as int, prefix@) =~= binding_views(out@) + use_binds_among(t, n as int, k + 1, prefix@));
            }
            k = k + 1;
        }
        assert(use_binds_among(t, n as int, k as int, prefix@) =~= Seq::<UseBinding>::empty());
        assert(binding_views(out@) =~= start + use_binds(t, n as int, prefix@));
    } else {
        assert(binding_views(out@) =~= start + use_binds(t, n as int, prefix@));
    }
}

/// Every `use` binding of the file, in order.
fn file_uses_exec(t: &SyntaxTree) -> (r: Vec<(Vec<char>, Vec<char>)>)
    requires
        t.wf(),
    ensures
        binding_views(r@) == file_uses(t),
{
    let end = t.end(0);
    let empty: Vec<char> = Vec::new();
    assert(empty@ =~= Seq::<char>::empty());
    let mut out: Vec<(Vec<char>, Vec<char>)> = Vec::new();
    assert(binding_views(out@) =~= uses_upto(t, 0));
    let mut n: usize = 0;
    while n < end
        invariant
            t.wf(),
            end == t.end_of(0),
            end <= t.nodes@.len(),
            n <= end,
            empty@ == Seq::<char>::empty(),
            binding_views(out@) == uses_upto(t, n as int),
        decreases end - n,
    {
        let ghost before = binding_views(out@);
        if t.kind_is(n, "use_declaration") {
            match t.field_child(n, "argument") {
                Some(a) => collect_use(t, a, empty.as_slice(), &mut out),
                None => {},
            }
        }
        assert(binding_views(out@) =~= before + use_decl_binds(t, n as int));
        n = n + 1;
    }
    out
}

/// The full path `local` is bound to, if any.
fn lookup_use_exec(bs: &Vec<(Vec<char>, Vec<char>)>, local: &[char]) -> (r: Option<Vec<char>>)
    ensures
        match r {
            Some(f) => lookup_use(binding_views(bs@), local@) == Some(f@),
            None => lookup_use(binding_views(bs@), local@) is None,
        },
{
    let ghost vs = binding_views(bs@);
    let mut i: usize = bs.len();
    assert(vs.take(bs@.len() as int) =~= vs);
    while i > 0
        invariant
            i <= bs@.len(),
            vs == binding_views(bs@),
            lookup_use(vs, local@) == lookup_use(vs.take(i as int), local@),
        decreases i,
    {
        proof {
            let w = vs.take(i as int);
            assert(w.last() == (bs@[i - 1].0@, bs@[i - 1].1@));
            assert(w.drop_last() =~= vs.take(i - 1));
        }
        if chars_eq(bs[i - 1].0.as_slice(), local) {
            let f = slice_vec(bs[i - 1].1.as_slice(), 0, bs[i - 1].1.len());
            assert(bs@[i - 1].1@.subrange(0, bs@[i - 1].1@.len() as int) =~= bs@[i - 1].1@);
            return Some(f);
        }
        i = i - 1;
    }
    None
}

// ── Executable classification ──────────────────────────────────────────

/// The names the file declares, in preorder.
fn rust_declared_names(t: &SyntaxTree) -> (r: Vec<Vec<char>>)
    requires
        t.wf(),
    ensures
        r@.map_values(|v: Vec<char>| v@) == rust_declared_upto(t, t.end_of(0)),
{
    let end = t.end(0);
    let mut out: Vec<Vec<char>> = Vec::new();
    let mut n: usize = 0;
    while n < end
        invariant
            t.wf(),
            end == t.end_of(0),
            end <= t.nodes@.len(),
            n <= end,
            out@.map_values(|v: Vec<char>| v@) == rust_declared_upto(t, n as int),
        decreases end - n,
    {
        let ghost prev = out@.map_values(|v: Vec<char>| v@);
        if t.kind_is(n, "function_item") || t.kind_is(n, "struct_item") || t.kind_is(n, "enum_item") {
            match t.field_child(n, "name") {
                Some(c) => {
                    let tx = t.text(c);
                    let ghost xv = tx@;
                    out.push(tx);
                    assert(out@.map_values(|v: Vec<char>| v@) =~= prev.push(xv));
                },
                None => {},
            }
        }
        assert(out@.map_values(|v: Vec<char>| v@) =~= rust_declared_upto(t, n + 1));
        n = n + 1;
    }
    out
}

/// Does some identifier in the subtree at `p` spell `name`?
fn subtree_names_exec(t: &SyntaxTree, p: usize, name: &[char]) -> (r: bool)
    requires
        t.wf(),
        t.valid(p as int),
    ensures
        r == subtree_names(t, p as int, name@),
{
    let end = t.end(p);
    let mut m: usize = p;
    while m < end
        invariant
            t.wf(),
            t.valid(p as int),
            end == t.end_of(p as int),
            end <= t.nodes@.len(),
            p <= m <= end,
            forall|j: int| p <= j < m ==> !(#[trigger] t.kind(j) == "identifier"@ && t.text_of(j) == name@),
        decreases end - m,
    {
        if t.kind_is(m, "identifier") && text_eq(t, m, name) {
            return true;
        }
        m = m + 1;
    }
    false
}

fn rust_params_bind_exec(t: &SyntaxTree, a: usize, name: &[char]) -> (r: bool)
    requires
        t.wf(),
        t.valid(a as int),
    ensures
        r == rust_params_bind(t, a as int, name@),
{
    if !(t.kind_is(a, "function_item") || t.kind_is(a, "closure_expression")) {
        return false;
    }
    match t.field_child(a, "parameters") {
        Some(p) => subtree_names_exec(t, p, name),
        None => false,
    }
}

fn let_binds_exec(t: &SyntaxTree, d: usize, name: &[char]) -> (r: bool)
    requires
        t.wf(),
        t.valid(d as int),
    ensures
        r == let_binds(t, d as int, name@),
{
    if !t.kind_is(d, "let_declaration") {
        return false;
    }
    match t.field_child(d, "pattern") {
        Some(p) => subtree_names_exec(t, p, name),
        None => false,
    }
}

fn rust_block_binds_exec(t: &SyntaxTree, a: usize, name: &[char]) -> (r: bool)
    requires
        t.wf(),
        t.valid(a as int),
    ensures
        r == rust_block_binds(t, a as int, name@),
{
    if !t.kind_is(a, "block") {
        return false;
    }
    let kids = t.named_children(a);
    let mut k: usize = 0;
    while k < kids.len()
        invariant
            t.wf(),
            t.valid(a as int),
            k <= kids@.len(),
            t.kind(a as int) == "block"@,
            kids@ == t.named_kids(a as int),
            forall|j: int| 0 <= j < kids@.len() ==> t.valid(#[trigger] kids@[j] as int),
            forall|j: int| 0 <= j < k ==> !#[trigger] let_binds(t, kids@[j] as int, name@),
        decreases kids.len() - k,
    {
        if let_binds_exec(t, kids[k], name) {
            assert(kids@[k as int] == t.named_kids(a as int)[k as int]);
            assert(let_binds(t, t.named_kids(a as int)[k as int] as int, name@));
            return true;
        }
        k = k + 1;
    }
    proof {
        assert forall|j: int| 0 <= j < t.named_kids(a as int).len() implies !#[trigger] let_binds(
            t,
            t.named_kids(a as int)[j] as int,
            name@,
        ) by {
            assert(kids@[j] == t.named_kids(a as int)[j]);
        }
    }
    false
}

/// Is `name` rebound between the call site and the file scope?
fn rust_shadowed_exec(t: &SyntaxTree, call: usize, name: &[char]) -> (r: bool)
    requires
        t.wf(),
        t.valid(call as int),
    ensures
        r == rust_shadowed(t, call as int, name@),
{
    let mut cur = t.parent_of(call);
    while cur.is_some()
        invariant
            t.wf(),
            t.valid(call as int),
            cur matches Some(a) ==> t.valid(a as int),
            rust_shadowed(t, call as int, name@) == match cur {
                Some(a) => rust_rebound_from(t, a as int, name@),
                None => false,
            },
        decreases match cur {
            Some(a) => a as int + 1,
            None => 0,
        },
    {
        let a = match cur {
            Some(a) => a,
            None => 0,
        };
        if rust_params_bind_exec(t, a, name) || rust_block_binds_exec(t, a, name) {
            return true;
        }
        cur = t.parent_of(a);
    }
    false
}

/// The caller a call site is attributed to.
fn rust_caller_exec(t: &SyntaxTree, call: usize) -> (r: String)
    requires
        t.wf(),
        t.valid(call as int),
    ensures
        r@ == rust_caller_of(t, call as int),
{
    proof {
        reveal_strlit("<toplevel>");
    }
    let mut cur = t.parent_of(call);
    while cur.is_some()
        invariant
            t.wf(),
            t.valid(call as int),
            cur matches Some(a) ==> t.valid(a as int),
            match t.nodes@[call as int].parent {
                Some(p) => rust_enclosing_fn(t, p as int) == match cur {
                    Some(a) => rust_enclosing_fn(t, a as int),
                    None => None,
                },
                None => cur is None,
            },
        decreases match cur {
            Some(a) => a as int + 1,
            None => 0,
        },
    {
        let a = match cur {
            Some(a) => a,
            None => 0,
        };
        if t.kind_is(a, "function_item") {
            return match t.field_child(a, "name") {
                Some(nm) => t.text_string(nm),
                None => "<toplevel>".to_string(),
            };
        }
        cur = t.parent_of(a);
    }
    "<toplevel>".to_string()
}

pub open spec fn seg_views(v: Seq<Vec<char>>) -> Seq<Seq<char>> {
    v.map_values(|x: Vec<char>| x@)
}

/// A full logical path as a callee.
fn specifier_for_exec(full: &[char]) -> (r: RawCalleeRef)
    ensures
        r@ == specifier_for(full@),
{
    let n = full.len();
    match last_sep_exec(full) {
        Some(i) => {
            assert(i + 2 <= n);
            let module = slice_vec(full, 0, i);
            let name = slice_vec(full, i + 2, n);
            RawCalleeRef::Specifier { specifier: string_of(module.as_slice()), name: string_of(name.as_slice()) }
        },
        None => RawCalleeRef::Unresolved { name: string_of(full) },
    }
}

/// The path with its head expanded through the `use` bindings.
fn expanded_exec(segs: &Vec<Vec<char>>, uses: &Vec<(Vec<char>, Vec<char>)>) -> (r: Vec<Vec<char>>)
    requires
        segs@.len() >= 1,
    ensures
        seg_views(r@) == expanded(seg_views(segs@), binding_views(uses@)),
        r@.len() >= 1,
{
    let ghost sv = seg_views(segs@);
    let mut out: Vec<Vec<char>> = match lookup_use_exec(uses, segs[0].as_slice()) {
        Some(full) => split_segments(full.as_slice()),
        None => {
            let first = slice_vec(segs[0].as_slice(), 0, segs[0].len());
            assert(first@ =~= sv[0]);
            let mut v: Vec<Vec<char>> = Vec::new();
            v.push(first);
            v
        },
    };
    let ghost head = seg_views(out@);
    let mut k: usize = 1;
    while k < segs.len()
        invariant
            1 <= k <= segs@.len(),
            sv == seg_views(segs@),
            out@.len() >= 1,
            seg_views(out@) == head + sv.subrange(1, k as int),
        decreases segs.len() - k,
    {
        let piece = slice_vec(segs[k].as_slice(), 0, segs[k].len());
        assert(piece@ =~= sv[k as int]);
        let ghost before = seg_views(out@);
        out.push(piece);
        assert(seg_views(out@) =~= before.push(sv[k as int]));
        assert(head + sv.subrange(1, k + 1) =~= (head + sv.subrange(1, k as int)).push(sv[k as int]));
        k = k + 1;
    }
    proof {
        match lookup_use(binding_views(uses@), sv[0]) {
            Some(full) => {},
            None => {
                assert(head =~= seq![sv[0]]);
                assert(seq![sv[0]] + sv.subrange(1, sv.len() as int) =~= sv);
            },
        }
    }
    out
}

/// `ex[..end]` joined with `::`.
fn join_module(ex: &Vec<Vec<char>>, end: usize) -> (r: String)
    requires
        end <= ex@.len(),
    ensures
        r@ == join(seg_views(ex@).subrange(0, end as int), "::"@),
{
    let mut parts: Vec<String> = Vec::new();
    let mut k: usize = 0;
    while k < end
        invariant
            k <= end <= ex@.len(),
            parts@.map_values(|p: String| p@) == seg_views(ex@).subrange(0, k as int),
        decreases end - k,
    {
        let ghost before = parts@.map_values(|p: String| p@);
        let piece = string_of(ex[k].as_slice());
        assert(piece@ == seg_views(ex@)[k as int]);
        parts.push(piece);
        assert(parts@.map_values(|p: String| p@) =~= before.push(piece@));
        assert(seg_views(ex@).subrange(0, k + 1) =~= seg_views(ex@).subrange(0, k as int).push(piece@));
        k = k + 1;
    }
    join_lines(&parts, "::")
}

/// How a path callee is classified.
fn classify_scoped_exec(
    t: &SyntaxTree,
    path: &[char],
    uses: &Vec<(Vec<char>, Vec<char>)>,
    names: &Vec<Vec<char>>,
) -> (r: RawCalleeRef)
    requires
        t.wf(),
        names@.map_values(|v: Vec<char>| v@) == rust_declared_upto(t, t.end_of(0)),
    ensures
        r@ == classify_scoped(t, path@, binding_views(uses@)),
{
    let segs = split_segments(path);
    let ghost sv = seg_views(segs@);
    assert(sv == segments(path@));
    let last = segs.len() - 1;
    if chars_eq_str(segs[0].as_slice(), "Self") {
        return RawCalleeRef::SameFile(string_of(segs[last].as_slice()));
    }
    let ex = expanded_exec(&segs, uses);
    let ghost xv = seg_views(ex@);
    let n = ex.len();
    let name = string_of(ex[n - 1].as_slice());
    let typed = n >= 2 && ex[n - 2].len() > 0 && is_uppercase(ex[n - 2][0]);
    assert(typed == names_type(xv));
    let module_end = if typed { n - 2 } else { n - 1 };
    if module_end == 0 {
        if typed && is_declared(names, ex[n - 2].as_slice()) {
            RawCalleeRef::SameFile(name)
        } else {
            RawCalleeRef::Unresolved { name }
        }
    } else {
        let specifier = join_module(&ex, module_end);
        RawCalleeRef::Specifier { specifier, name }
    }
}

fn rust_classify_exec(
    t: &SyntaxTree,
    call: usize,
    uses: &Vec<(Vec<char>, Vec<char>)>,
    names: &Vec<Vec<char>>,
) -> (r: Option<RawCalleeRef>)
    requires
        t.wf(),
        t.valid(call as int),
        names@.map_values(|v: Vec<char>| v@) == rust_declared_upto(t, t.end_of(0)),
    ensures
        match r {
            Some(c) => rust_classify(t, call as int, binding_views(uses@)) == Some(c@),
            None => rust_classify(t, call as int, binding_views(uses@)) is None,
        },
{
    proof {
        reveal_strlit("<dynamic>");
    }
    let f = match t.field_child(call, "function") {
        Some(f) => f,
        None => return None,
    };
    let c = if t.kind_is(f, "generic_function") {
        match t.field_child(f, "function") {
            Some(c) => c,
            None => return None,
        }
    } else {
        f
    };
    if t.kind_is(c, "identifier") {
        let tx = t.text(c);
        let ident = t.text_string(c);
        if rust_shadowed_exec(t, call, tx.as_slice()) {
            return Some(RawCalleeRef::Unresolved { name: ident });
        }
        match lookup_use_exec(uses, tx.as_slice()) {
            Some(full) => Some(specifier_for_exec(full.as_slice())),
            None => if is_declared(names, tx.as_slice()) {
                Some(RawCalleeRef::SameFile(ident))
            } else {
                Some(RawCalleeRef::Unresolved { name: ident })
            },
        }
    } else if t.kind_is(c, "scoped_identifier") {
        let tx = t.text(c);
        Some(classify_scoped_exec(t, tx.as_slice(), uses, names))
    } else if t.kind_is(c, "field_expression") {
        match t.field_child(c, "field") {
            Some(fl) => Some(RawCalleeRef::Unresolved { name: t.text_string(fl) }),
            None => None,
        }
    } else {
        Some(RawCalleeRef::Unresolved { name: "<dynamic>".to_string() })
    }
}

/// Tree-level Rust call-edge extraction: every call site classified and
/// collapsed onto counted edges.
pub fn rust_call_edges_from_tree(t: &SyntaxTree) -> (r: Vec<RawCallEdge>)
    requires
        t.wf(),
        t.nodes@.len() <= u32::MAX,
    ensures
        aggregates(edge_views(r@), rust_tree_sites(t)),
{
    let uses = file_uses_exec(t);
    let names = rust_declared_names(t);
    let end = t.end(0);
    let mut sites: Vec<(String, RawCalleeRef)> = Vec::new();
    let mut n: usize = 0;
    while n < end
        invariant
            t.wf(),
            end == t.end_of(0),
            end <= t.nodes@.len() <= u32::MAX,
            n <= end,
            binding_views(uses@) == file_uses(t),
            names@.map_values(|v: Vec<char>| v@) == rust_declared_upto(t, t.end_of(0)),
            site_views(sites@) == rust_sites_upto(t, n as int, binding_views(uses@)),
            sites@.len() <= n,
        decreases end - n,
    {
        let ghost prev = site_views(sites@);
        if t.kind_is(n, "call_expression") {
            match rust_classify_exec(t, n, &uses, &names) {
                Some(c) => {
                    let caller = rust_caller_exec(t, n);
                    let ghost sv = (caller@, c@);
                    sites.push((caller, c));
                    assert(site_views(sites@) =~= prev.push(sv));
                },
                None => {},
            }
        }
        assert(site_views(sites@) =~= rust_sites_upto(t, n + 1, binding_views(uses@)));
        n = n + 1;
    }
    aggregate(sites)
}

} // verus!
