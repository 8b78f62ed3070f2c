//! Class records and re-exports of TS/JS files, read from one file's syntax
//! tree before any specifier resolution: `class … extends …` sites, barrel
//! re-exports, and the import bindings both consult.
use vstd::prelude::*;

use crate::metrics::complexity::fallback::{
    detect_language, extension, path_extension, path_language, Language,
};
use crate::metrics::complexity::pressman::{child_kind_exists, has_child_kind};
use crate::metrics::complexity::syntax::SyntaxTree;
use crate::metrics::complexity::ts::{grammar_for, grammar_spec, is_parse_of, parse_source};
use crate::text::{slice_vec, string_of};

verus! {

/// A `class … extends …` site, before import-specifier resolution.
#[derive(Debug, Clone, PartialEq)]
pub struct RawClassRecord {
    /// One-based declaration line.
    pub line: usize,
    pub class_name: String,
    pub base: RawBaseRef,
}

/// The extends-target as extraction sees it.
#[derive(Debug, Clone, PartialEq)]
pub enum RawBaseRef {
    /// Base identifier not bound by any import: assumed same-file.
    SameFile(String),
    /// Base bound by an import: module specifier and exported name
    /// (aliases unwrapped).
    Specifier { specifier: String, name: String },
    /// Non-identifier extends expression (`extends mixin(Base)`).
    Unresolvable,
}

/// A re-export site, before specifier resolution.
#[derive(Debug, Clone, PartialEq)]
pub struct RawReExport {
    pub specifier: String,
    pub kind: RawReExportKind,
}

#[derive(Debug, Clone, PartialEq)]
pub enum RawReExportKind {
    /// `export { source as exported } from …` (alias unwrapped), or a bare
    /// `export { A }` of an import binding.
    Named { exported: String, source: String },
    /// `export * from …`.
    Star,
}

/// One binding an import statement introduces.
#[derive(Debug, Clone)]
pub struct ImportEntry {
    /// `import * as local from …`.
    pub namespace: bool,
    pub local: String,
    pub specifier: String,
    /// The exported name the binding refers to (the local name for default
    /// and namespace imports).
    pub name: String,
}

/// A reference as plain values: the variant's rank and up to two strings.
pub type RefView = (int, Seq<char>, Seq<char>);

/// `(namespace, local, specifier, exported)`.
pub type EntryView = (bool, Seq<char>, Seq<char>, Seq<char>);

pub type RecordView = (usize, Seq<char>, RefView);

pub type ReExportView = (Seq<char>, RefView);

impl View for RawBaseRef {
    type V = RefView;

    open spec fn view(&self) -> RefView {
        match self {
            RawBaseRef::SameFile(s) => (0, s@, seq![]),
            RawBaseRef::Specifier { specifier, name } => (1, specifier@, name@),
            RawBaseRef::Unresolvable => (2, seq![], seq![]),
        }
    }
}

impl View for RawClassRecord {
    type V = RecordView;

    open spec fn view(&self) -> RecordView {
        (self.line, self.class_name@, self.base@)
    }
}

impl View for RawReExportKind {
    type V = RefView;

    open spec fn view(&self) -> RefView {
        match self {
            RawReExportKind::Named { exported, source } => (0, exported@, source@),
            RawReExportKind::Star => (1, seq![], seq![]),
        }
    }
}

impl View for RawReExport {
    type V = ReExportView;

    open spec fn view(&self) -> ReExportView {
        (self.specifier@, self.kind@)
    }
}

impl View for ImportEntry {
    type V = EntryView;

    open spec fn view(&self) -> EntryView {
        (self.namespace, self.local@, self.specifier@, self.name@)
    }
}

pub open spec fn entry_views(es: Seq<ImportEntry>) -> Seq<EntryView> {
    es.map_values(|e: ImportEntry| e@)
}

pub open spec fn record_views(rs: Seq<RawClassRecord>) -> Seq<RecordView> {
    rs.map_values(|r: RawClassRecord| r@)
}

pub open spec fn reexport_views(rs: Seq<RawReExport>) -> Seq<ReExportView> {
    rs.map_values(|r: RawReExport| r@)
}

pub open spec fn opt_string_view(o: Option<String>) -> Option<Seq<char>> {
    match o {
        Some(x) => Some(x@),
        None => None,
    }
}

pub open spec fn opt_seq<A>(o: Option<A>) -> Seq<A> {
    match o {
        Some(x) => seq![x],
        None => seq![],
    }
}

// ── Import bindings ────────────────────────────────────────────────────

pub open spec fn is_quote(c: char) -> bool {
    c == '"' || c == '\''
}

pub open spec fn trim_quotes_start(s: Seq<char>) -> Seq<char>
    decreases s.len(),
{
    if s.len() > 0 && is_quote(s[0]) {
        trim_quotes_start(s.drop_first())
    } else {
        s
    }
}

pub open spec fn trim_quotes_end(s: Seq<char>) -> Seq<char>
    decreases s.len(),
{
    if s.len() > 0 && is_quote(s.last()) {
        trim_quotes_end(s.drop_last())
    } else {
        s
    }
}

/// Quote characters removed from both ends (`trim_matches`).
pub open spec fn trim_quotes(s: Seq<char>) -> Seq<char> {
    trim_quotes_end(trim_quotes_start(s))
}

/// The unquoted module specifier of a statement's `source` field.
pub open spec fn source_of(t: &SyntaxTree, n: int) -> Option<Seq<char>> {
    match t.field(n, "source"@) {
        Some(s) => Some(trim_quotes(t.text_of(s as int))),
        None => None,
    }
}

/// The binding node `m` introduces under an import from `spec`: a default
/// import (the clause's first named child, an identifier), a named import
/// (alias unwrapped), or a namespace import.
pub open spec fn import_entry(t: &SyntaxTree, m: int, spec: Seq<char>) -> Option<EntryView> {
    if t.kind(m) == "import_clause"@ || t.kind(m) == "namespace_import"@ {
        if t.named_kids(m).len() > 0 && t.kind(t.named_kids(m)[0] as int) == "identifier"@ {
            let name = t.text_of(t.named_kids(m)[0] as int);
            Some((t.kind(m) == "namespace_import"@, name, spec, name))
        } else {
            None
        }
    } else if t.kind(m) == "import_specifier"@ {
        match t.field(m, "name"@) {
            None => None,
            Some(nm) => {
                let exported = t.text_of(nm as int);
                let local = match t.field(m, "alias"@) {
                    Some(a) => t.text_of(a as int),
                    None => exported,
                };
                Some((false, local, spec, exported))
            },
        }
    } else {
        None
    }
}

/// The bindings of nodes `stmt..m`, in preorder.
pub open spec fn statement_entries(t: &SyntaxTree, stmt: int, m: int, spec: Seq<char>) -> Seq<
    EntryView,
>
    decreases m - stmt,
{
    if m <= stmt {
        seq![]
    } else {
        statement_entries(t, stmt, m - 1, spec) + opt_seq(import_entry(t, m - 1, spec))
    }
}

/// The bindings the import statement at `n` introduces, if it is one.
pub open spec fn entries_at(t: &SyntaxTree, n: int) -> Seq<EntryView> {
    if t.kind(n) == "import_statement"@ {
        match source_of(t, n) {
            Some(spec) => statement_entries(t, n, t.end_of(n), spec),
            None => seq![],
        }
    } else {
        seq![]
    }
}

/// Import bindings of the nodes before `i`, in preorder.
pub open spec fn entries_upto(t: &SyntaxTree, i: int) -> Seq<EntryView>
    decreases i,
{
    if i <= 0 {
        seq![]
    } else {
        entries_upto(t, i - 1) + entries_at(t, i - 1)
    }
}

/// Every import binding of the file, in preorder.
pub open spec fn import_entries_of(t: &SyntaxTree) -> Seq<EntryView> {
    entries_upto(t, t.end_of(0))
}

/// What `local` is bound to among the (namespace or other) bindings: the
/// last one recorded wins, as in a map filled in order.
pub open spec fn lookup_entry(es: Seq<EntryView>, namespace: bool, local: Seq<char>) -> Option<
    (Seq<char>, Seq<char>),
>
    decreases es.len(),
{
    if es.len() == 0 {
        None
    } else if es.last().0 == namespace && es.last().1 == local {
        Some((es.last().2, es.last().3))
    } else {
        lookup_entry(es.drop_last(), namespace, local)
    }
}

// ── Class records ──────────────────────────────────────────────────────

pub open spec fn is_class_kind(k: Seq<char>) -> bool {
    k == "class_declaration"@ || k == "class"@ || k == "abstract_class_declaration"@
}

/// The extends-target of a heritage clause: the TS `extends_clause`'s
/// value, nothing for implements-only heritage, otherwise (the JS shape)
/// the first named child.
pub open spec fn base_expression(t: &SyntaxTree, h: int) -> Option<int> {
    match t.child_of_kind(h, "extends_clause"@) {
        Some(c) => match t.field(c, "value"@) {
            Some(v) => Some(v as int),
            None => None,
        },
        None => if t.child_of_kind(h, "implements_clause"@) is Some {
            None
        } else if t.named_kids(h).len() > 0 {
            Some(t.named_kids(h)[0] as int)
        } else {
            None
        },
    }
}

pub open spec fn base_ref(t: &SyntaxTree, e: int, es: Seq<EntryView>) -> RefView {
    if t.kind(e) == "identifier"@ {
        match lookup_entry(es, false, t.text_of(e)) {
            Some((spec, name)) => (1, spec, name),
            None => (0, t.text_of(e), seq![]),
        }
    } else {
        (2, seq![], seq![])
    }
}

/// One-based line of a zero-based row.
pub open spec fn line_of(row: usize) -> usize {
    if row < usize::MAX {
        (row + 1) as usize
    } else {
        row
    }
}

/// The record of the class node `n`, if it extends something.
pub open spec fn class_record_at(t: &SyntaxTree, n: int, es: Seq<EntryView>) -> Option<RecordView> {
    match t.child_of_kind(n, "class_heritage"@) {
        None => None,
        Some(h) => match base_expression(t, h) {
            None => None,
            Some(e) => Some(
                (
                    line_of(t.nodes@[n].row),
                    match t.field(n, "name"@) {
                        Some(nm) => t.text_of(nm as int),
                        None => "default"@,
                    },
                    base_ref(t, e, es),
                ),
            ),
        },
    }
}

pub open spec fn records_upto(t: &SyntaxTree, i: int, es: Seq<EntryView>) -> Seq<RecordView>
    decreases i,
{
    if i <= 0 {
        seq![]
    } else {
        records_upto(t, i - 1, es) + if is_class_kind(t.kind(i - 1)) {
            opt_seq(class_record_at(t, i - 1, es))
        } else {
            seq![]
        }
    }
}

/// The class records of a whole tree, in preorder.
pub open spec fn tree_class_records(t: &SyntaxTree) -> Seq<RecordView> {
    records_upto(t, t.end_of(0), import_entries_of(t))
}

// ── Re-exports ─────────────────────────────────────────────────────────

/// `(name, exported-as)` of an `export_specifier` node.
pub open spec fn export_spec_at(t: &SyntaxTree, m: int) -> Option<(Seq<char>, Seq<char>)> {
    if t.kind(m) == "export_specifier"@ {
        match t.field(m, "name"@) {
            None => None,
            Some(nm) => Some(
                (
                    t.text_of(nm as int),
                    match t.field(m, "alias"@) {
                        Some(a) => t.text_of(a as int),
                        None => t.text_of(nm as int),
                    },
                ),
            ),
        }
    } else {
        None
    }
}

/// The re-exports of the export specifiers among nodes `stmt..m`: named
/// from `source` when the statement has one, else only those of import
/// bindings.
pub open spec fn specifier_reexports(
    t: &SyntaxTree,
    stmt: int,
    m: int,
    source: Option<Seq<char>>,
    es: Seq<EntryView>,
) -> Seq<ReExportView>
    decreases m - stmt,
{
    if m <= stmt {
        seq![]
    } else {
        specifier_reexports(t, stmt, m - 1, source, es) + match export_spec_at(t, m - 1) {
            None => seq![],
            Some((name, exported)) => match source {
                Some(spec) => seq![(spec, (0, exported, name))],
                None => match lookup_entry(es, false, name) {
                    Some((spec, source_name)) => seq![(spec, (0, exported, source_name))],
                    None => seq![],
                },
            },
        }
    }
}

pub open spec fn statement_reexports(t: &SyntaxTree, stmt: int, es: Seq<EntryView>) -> Seq<
    ReExportView,
> {
    match source_of(t, stmt) {
        Some(spec) => if has_child_kind(t, stmt, "*"@) {
            seq![(spec, (1, seq![], seq![]))]
        } else {
            specifier_reexports(t, stmt, t.end_of(stmt), Some(spec), es)
        },
        None => specifier_reexports(t, stmt, t.end_of(stmt), None, es),
    }
}

pub open spec fn reexports_upto(t: &SyntaxTree, i: int, es: Seq<EntryView>) -> Seq<ReExportView>
    decreases i,
{
    if i <= 0 {
        seq![]
    } else {
        reexports_upto(t, i - 1, es) + if t.kind(i - 1) == "export_statement"@ {
            statement_reexports(t, i - 1, es)
        } else {
            seq![]
        }
    }
}

/// The re-exports of a whole tree, in preorder.
pub open spec fn tree_reexports(t: &SyntaxTree) -> Seq<ReExportView> {
    reexports_upto(t, t.end_of(0), import_entries_of(t))
}

// ── Executable extraction ──────────────────────────────────────────────

fn trim_quotes_exec(s: &[char]) -> (r: Vec<char>)
    ensures
        r@ == trim_quotes(s@),
{
    let mut a: usize = 0;
    assert(s@.subrange(0, s@.len() as int) =~= s@);
    while a < s.len() && (s[a] == '"' || s[a] == '\'')
        invariant
            a <= s.len(),
            trim_quotes_start(s@) == trim_quotes_start(s@.subrange(a as int, s@.len() as int)),
        decreases s.len() - a,
    {
        proof {
            let u = s@.subrange(a as int, s@.len() as int);
            assert(u.drop_first() =~= s@.subrange(a + 1, s@.len() as int));
        }
        a = a + 1;
    }
    let ghost u = s@.subrange(a as int, s@.len() as int);
    let mut b: usize = s.len();
    assert(u.subrange(0, u.len() as int) =~= u);
    while b > a && (s[b - 1] == '"' || s[b - 1] == '\'')
        invariant
            a <= b <= s.len(),
            u == s@.subrange(a as int, s@.len() as int),
            trim_quotes_end(u) == trim_quotes_end(s@.subrange(a as int, b as int)),
        decreases b,
    {
        proof {
            let w = s@.subrange(a as int, b as int);
            assert(w.drop_last() =~= s@.subrange(a as int, b - 1));
        }
        b = b - 1;
    }
    slice_vec(s, a, b)
}

fn source_exec(t: &SyntaxTree, n: usize) -> (r: Option<String>)
    requires
        t.wf(),
        t.valid(n as int),
    ensures
        match r {
            Some(x) => source_of(t, n as int) == Some(x@),
            None => source_of(t, n as int) is None,
        },
{
    match t.field_child(n, "source") {
        Some(s) => {
            let tx = t.text(s);
            let q = trim_quotes_exec(tx.as_slice());
            Some(string_of(q.as_slice()))
        },
        None => None,
    }
}

fn entry_exec(t: &SyntaxTree, m: usize, spec: &String) -> (r: Option<ImportEntry>)
    requires
        t.wf(),
        t.valid(m as int),
    ensures
        match r {
            Some(e) => import_entry(t, m as int, spec@) == Some(e@),
            None => import_entry(t, m as int, spec@) is None,
        },
{
    let clause = t.kind_is(m, "import_clause");
    let ns = t.kind_is(m, "namespace_import");
    if clause || ns {
        let kids = t.named_children(m);
        if kids.len() > 0 && t.kind_is(kids[0], "identifier") {
            let name = t.text_string(kids[0]);
            Some(ImportEntry { namespace: ns, local: name.clone(), specifier: spec.clone(), name })
        } else {
            None
        }
    } else if t.kind_is(m, "import_specifier") {
        match t.field_child(m, "name") {
            None => None,
            Some(nm) => {
                let exported = t.text_string(nm);
                let local = match t.field_child(m, "alias") {
                    Some(a) => t.text_string(a),
                    None => exported.clone(),
                };
                Some(ImportEntry { namespace: false, local, specifier: spec.clone(), name: exported })
            },
        }
    } else {
        None
    }
}

/// Every import binding of a tree, in preorder: default, named (alias
/// unwrapped) and namespace imports.
pub fn import_entries(t: &SyntaxTree) -> (r: Vec<ImportEntry>)
    requires
        t.wf(),
    ensures
        entry_views(r@) == import_entries_of(t),
{
    let end = t.end(0);
    let mut out: Vec<ImportEntry> = Vec::new();
    let mut n: usize = 0;
    while n < end
        invariant
            t.wf(),
            end == t.end_of(0),
            end <= t.nodes@.len(),
            n <= end,
            entry_views(out@) == entries_upto(t, n as int),
        decreases end - n,
    {
        if t.kind_is(n, "import_statement") {
            match source_exec(t, n) {
                Some(spec) => {
                    let stop = t.end(n);
                    let ghost base = entry_views(out@);
                    let mut m: usize = n;
                    assert(statement_entries(t, n as int, n as int, spec@) =~= seq![]);
                    assert(base + seq![] =~= base);
                    while m < stop
                        invariant
                            t.wf(),
                            t.valid(n as int),
                            n <= m <= stop,
                            stop == t.end_of(n as int),
                            stop <= t.nodes@.len(),
                            entry_views(out@) == base + statement_entries(t, n as int, m as int, spec@),
                        decreases stop - m,
                    {
                        let ghost prev = entry_views(out@);
                        match entry_exec(t, m, &spec) {
                            Some(e) => {
                                let ghost ev = e@;
                                out.push(e);
                                assert(entry_views(out@) =~= prev.push(ev));
                            },
                            None => {},
                        }
                        assert(entry_views(out@) =~= base + statement_entries(t, n as int, m + 1, spec@));
                        m = m + 1;
                    }
                    assert(entries_at(t, n as int) == statement_entries(t, n as int, stop as int, spec@));
                },
                None => {
                    assert(entries_at(t, n as int) =~= seq![]);
                },
            }
        } else {
            assert(entries_at(t, n as int) =~= seq![]);
        }
        assert(entry_views(out@) =~= entries_upto(t, n + 1));
        n = n + 1;
    }
    out
}

/// What `local` is bound to among the namespace (or the other) bindings:
/// `(specifier, exported name)`, the last binding recorded winning.
pub fn lookup_import(es: &Vec<ImportEntry>, namespace: bool, local: &String) -> (r: Option<(String, String)>)
    ensures
        match r {
            Some((s, n)) => lookup_entry(entry_views(es@), namespace, local@) == Some((s@, n@)),
            None => lookup_entry(entry_views(es@), namespace, local@) is None,
        },
{
    let ghost vs = entry_views(es@);
    let mut i: usize = es.len();
    assert(vs.take(es@.len() as int) =~= vs);
    while i > 0
        invariant
            i <= es@.len(),
            vs == entry_views(es@),
            lookup_entry(vs, namespace, local@) == lookup_entry(vs.take(i as int), namespace, local@),
        decreases i,
    {
        let e = &es[i - 1];
        proof {
            let w = vs.take(i as int);
            assert(w.last() == e@);
            assert(w.drop_last() =~= vs.take(i - 1));
        }
        if e.namespace == namespace && e.local == *local {
            return Some((e.specifier.clone(), e.name.clone()));
        }
        i = i - 1;
    }
    None
}

fn base_expression_exec(t: &SyntaxTree, h: usize) -> (r: Option<usize>)
    requires
        t.wf(),
        t.valid(h as int),
    ensures
        match r {
            Some(e) => base_expression(t, h as int) == Some(e as int) && t.valid(e as int),
            None => base_expression(t, h as int) is None,
        },
{
    match t.first_child_of_kind(h, "extends_clause") {
        Some(c) => t.field_child(c, "value"),
        None => {
            if t.first_child_of_kind(h, "implements_clause").is_some() {
                None
            } else {
                let kids = t.named_children(h);
                if kids.len() > 0 {
                    Some(kids[0])
                } else {
                    None
                }
            }
        },
    }
}

fn class_record_exec(t: &SyntaxTree, n: usize, es: &Vec<ImportEntry>) -> (r: Option<RawClassRecord>)
    requires
        t.wf(),
        t.valid(n as int),
    ensures
        match r {
            Some(x) => class_record_at(t, n as int, entry_views(es@)) == Some(x@),
            None => class_record_at(t, n as int, entry_views(es@)) is None,
        },
{
    let h = match t.first_child_of_kind(n, "class_heritage") {
        Some(h) => h,
        None => return None,
    };
    let e = match base_expression_exec(t, h) {
        Some(e) => e,
        None => return None,
    };
    let base = if t.kind_is(e, "identifier") {
        let ident = t.text_string(e);
        match lookup_import(es, false, &ident) {
            Some((specifier, name)) => RawBaseRef::Specifier { specifier, name },
            None => RawBaseRef::SameFile(ident),
        }
    } else {
        RawBaseRef::Unresolvable
    };
    let class_name = match t.field_child(n, "name") {
        Some(nm) => t.text_string(nm),
        None => "default".to_string(),
    };
    proof {
        reveal_strlit("default");
    }
    let row = t.row(n);
    let line = if row < usize::MAX { row + 1 } else { row };
    Some(RawClassRecord { line, class_name, base })
}

/// Tree-level core of `extract_class_records`.
pub fn class_records_from_tree(t: &SyntaxTree) -> (r: Vec<RawClassRecord>)
    requires
        t.wf(),
    ensures
        record_views(r@) == tree_class_records(t),
{
    let es = import_entries(t);
    let end = t.end(0);
    let mut out: Vec<RawClassRecord> = Vec::new();
    let mut n: usize = 0;
    while n < end
        invariant
            t.wf(),
            end == t.end_of(0),
            end <= t.nodes@.len(),
            n <= end,
            entry_views(es@) == import_entries_of(t),
            record_views(out@) == records_upto(t, n as int, entry_views(es@)),
        decreases end - n,
    {
        let ghost prev = record_views(out@);
        if t.kind_is(n, "class_declaration") || t.kind_is(n, "class") || t.kind_is(
            n,
            "abstract_class_declaration",
        ) {
            match class_record_exec(t, n, &es) {
                Some(x) => {
                    let ghost xv = x@;
                    out.push(x);
                    assert(record_views(out@) =~= prev.push(xv));
                },
                None => {},
            }
        }
        assert(record_views(out@) =~= records_upto(t, n + 1, entry_views(es@)));
        n = n + 1;
    }
    out
}

/// Extract class records from one TS/JS file. Other languages yield none.
pub fn extract_class_records(path: &str, content: &str) -> (r: Vec<RawClassRecord>)
    ensures
        path_language(path@) != Language::JsTs ==> r@.len() == 0,
        path_language(path@) == Language::JsTs ==> (grammar_spec(path_language(path@), extension(path@)) matches Some(g)
            ==> exists|t: SyntaxTree| #[trigger] is_parse_of(t, g, content@) && tree_class_records(&t) == record_views(r@)),
{
    let lang = detect_language(path);
    match lang {
        Language::JsTs => {},
        _ => return Vec::new(),
    }
    let ext = path_extension(path);
    let grammar = match grammar_for(lang, ext.as_slice()) {
        Some(g) => g,
        None => return Vec::new(),
    };
    match parse_source(content, grammar) {
        Some(tree) => {
            let r = class_records_from_tree(&tree);
            assert(is_parse_of(tree, grammar, content@) && tree_class_records(&tree) == record_views(r@));
            r
        },
        None => Vec::new(),
    }
}

fn export_spec_exec(t: &SyntaxTree, m: usize) -> (r: Option<(String, String)>)
    requires
        t.wf(),
        t.valid(m as int),
    ensures
        match r {
            Some((a, b)) => export_spec_at(t, m as int) == Some((a@, b@)),
            None => export_spec_at(t, m as int) is None,
        },
{
    if !t.kind_is(m, "export_specifier") {
        return None;
    }
    match t.field_child(m, "name") {
        None => None,
        Some(nm) => {
            let name = t.text_string(nm);
            let exported = match t.field_child(m, "alias") {
                Some(a) => t.text_string(a),
                None => name.clone(),
            };
            Some((name, exported))
        },
    }
}

fn statement_reexports_exec(t: &SyntaxTree, stmt: usize, es: &Vec<ImportEntry>, out: &mut Vec<RawReExport>)
    requires
        t.wf(),
        t.valid(stmt as int),
    ensures
        reexport_views(final(out)@) == reexport_views(old(out)@) + statement_reexports(
            t,
            stmt as int,
            entry_views(es@),
        ),
{
    let ghost base = reexport_views(out@);
    let source = source_exec(t, stmt);
    match &source {
        Some(spec) => {
            if child_kind_exists(t, stmt, "*") {
                let ghost sv = spec@;
                out.push(RawReExport { specifier: spec.clone(), kind: RawReExportKind::Star });
                assert(reexport_views(out@) =~= base + seq![(sv, (1int, Seq::<char>::empty(), Seq::<char>::empty()))]);
                return;
            }
        },
        None => {},
    }
    let ghost src = opt_string_view(source);
    let stop = t.end(stmt);
    let mut m: usize = stmt;
    assert(specifier_reexports(t, stmt as int, stmt as int, src, entry_views(es@)) =~= seq![]);
    assert(base + seq![] =~= base);
    while m < stop
        invariant
            t.wf(),
            t.valid(stmt as int),
            stmt <= m <= stop,
            stop == t.end_of(stmt as int),
            stop <= t.nodes@.len(),
            src == opt_string_view(source),
            reexport_views(out@) == base + specifier_reexports(t, stmt as int, m as int, src, entry_views(es@)),
        decreases stop - m,
    {
        let ghost prev = reexport_views(out@);
        match export_spec_exec(t, m) {
            None => {},
            Some((name, exported)) => {
                match &source {
                    Some(spec) => {
                        let r = RawReExport {
                            specifier: spec.clone(),
                            kind: RawReExportKind::Named { exported, source: name },
                        };
                        let ghost rv = r@;
                        out.push(r);
                        assert(reexport_views(out@) =~= prev.push(rv));
                    },
                    None => {
                        match lookup_import(es, false, &name) {
                            Some((specifier, source_name)) => {
                                let r = RawReExport {
                                    specifier,
                                    kind: RawReExportKind::Named { exported, source: source_name },
                                };
                                let ghost rv = r@;
                                out.push(r);
                                assert(reexport_views(out@) =~= prev.push(rv));
                            },
                            None => {},
                        }
                    },
                }
            },
        }
        assert(reexport_views(out@) =~= base + specifier_reexports(t, stmt as int, m + 1, src, entry_views(es@)));
        m = m + 1;
    }
}

/// Tree-level core of `extract_reexports`.
pub fn reexports_from_tree(t: &SyntaxTree) -> (r: Vec<RawReExport>)
    requires
        t.wf(),
    ensures
        reexport_views(r@) == tree_reexports(t),
{
    let es = import_entries(t);
    let end = t.end(0);
    let mut out: Vec<RawReExport> = Vec::new();
    let mut n: usize = 0;
    while n < end
        invariant
            t.wf(),
            end == t.end_of(0),
            end <= t.nodes@.len(),
            n <= end,
            entry_views(es@) == import_entries_of(t),
            reexport_views(out@) == reexports_upto(t, n as int, entry_views(es@)),
        decreases end - n,
    {
        let ghost prev = reexport_views(out@);
        if t.kind_is(n, "export_statement") {
            statement_reexports_exec(t, n, &es, &mut out);
        } else {
            assert(prev + seq![] =~= prev);
        }
        assert(reexport_views(out@) =~= reexports_upto(t, n + 1, entry_views(es@)));
        n = n + 1;
    }
    out
}

/// Extract re-export edges from one TS/JS file (barrel files). Other
/// languages yield none.
pub fn extract_reexports(path: &str, content: &str) -> (r: Vec<RawReExport>)
    ensures
        path_language(path@) != Language::JsTs ==> r@.len() == 0,
        path_language(path@) == Language::JsTs ==> (grammar_spec(path_language(path@), extension(path@)) matches Some(g)
            ==> exists|t: SyntaxTree| #[trigger] is_parse_of(t, g, content@) && tree_reexports(&t) == reexport_views(r@)),
{
    let lang = detect_language(path);
    match lang {
        Language::JsTs => {},
        _ => return Vec::new(),
    }
    let ext = path_extension(path);
    let grammar = match grammar_for(lang, ext.as_slice()) {
        Some(g) => g,
        None => return Vec::new(),
    };
    match parse_source(content, grammar) {
        Some(tree) => {
            let r = reexports_from_tree(&tree);
            assert(is_parse_of(tree, grammar, content@) && tree_reexports(&tree) == reexport_views(r@));
            r
        },
        None => Vec::new(),
    }
}

} // verus!
