//! The parser: tree-sitter grammars, parses and queries behind trusted
//! calls, names for what tree-sitter computes, and the verified walk that
//! copies a parse into the library's `SyntaxTree`.
use vstd::prelude::*;

use crate::metrics::complexity::fallback::Language;
use crate::metrics::complexity::syntax::{SyntaxNode, SyntaxTree};
use crate::metrics::complexity::treesitter::{capture_views, Capture};
use crate::text::{chars_eq_str, chars_of};
use tree_sitter::Language as TreeSitterLanguage;
use tree_sitter::StreamingIterator;

verus! {

#[verifier::external_type_specification]
#[verifier::external_body]
pub struct ExTsLanguage(TreeSitterLanguage);

#[verifier::external_type_specification]
#[verifier::external_body]
pub struct ExTsParser(tree_sitter::Parser);

#[verifier::external_type_specification]
#[verifier::external_body]
pub struct ExTsTree(tree_sitter::Tree);

#[verifier::external_type_specification]
#[verifier::external_body]
pub struct ExTsNode<'a>(tree_sitter::Node<'a>);

#[verifier::external_type_specification]
#[verifier::external_body]
pub struct ExTsQuery(tree_sitter::Query);

/// The grammars the collector parses with.
#[derive(Debug, Clone, Copy, PartialEq, Eq, Structural)]
pub enum Grammar {
    Rust,
    JavaScript,
    TypeScript,
    Tsx,
    Python,
    Go,
    Java,
    CSharp,
}

/// The grammar for a language and file extension; Kotlin, PHP and unknown
/// languages have none.
pub open spec fn grammar_spec(lang: Language, ext: Seq<char>) -> Option<Grammar> {
    match lang {
        Language::Rust => Some(Grammar::Rust),
        Language::JsTs => if ext == "ts"@ {
            Some(Grammar::TypeScript)
        } else if ext == "tsx"@ {
            Some(Grammar::Tsx)
        } else {
            Some(Grammar::JavaScript)
        },
        Language::Python => Some(Grammar::Python),
        Language::Go => Some(Grammar::Go),
        Language::Java => Some(Grammar::Java),
        Language::CSharp => Some(Grammar::CSharp),
        Language::Kotlin | Language::Generic | Language::Php => None,
    }
}

/// Map a language and file extension to its grammar.
pub fn grammar_for(lang: Language, ext: &[char]) -> (g: Option<Grammar>)
    ensures
        g == grammar_spec(lang, ext@),
{
    match lang {
        Language::Rust => Some(Grammar::Rust),
        Language::JsTs => if chars_eq_str(ext, "ts") {
            Some(Grammar::TypeScript)
        } else if chars_eq_str(ext, "tsx") {
            Some(Grammar::Tsx)
        } else {
            Some(Grammar::JavaScript)
        },
        Language::Python => Some(Grammar::Python),
        Language::Go => Some(Grammar::Go),
        Language::Java => Some(Grammar::Java),
        Language::CSharp => Some(Grammar::CSharp),
        Language::Kotlin | Language::Generic | Language::Php => None,
    }
}

// ── Grammars, parsers and parses ──────────────────────────────────────
//
// Each value below records the grammar it was made with and, for a parse,
// the text it was made from. Their fields are private to this module, so
// every value of them is one that the functions here made.

/// A tree-sitter grammar, with which of the library's grammars it is.
pub struct TsLanguage {
    inner: TreeSitterLanguage,
    grammar: Grammar,
}

impl View for TsLanguage {
    type V = Grammar;

    closed spec fn view(&self) -> Grammar {
        self.grammar
    }
}

/// A tree-sitter parser, with the grammar it has been given, if any.
pub struct TsParser {
    inner: tree_sitter::Parser,
    grammar: Option<Grammar>,
}

impl View for TsParser {
    type V = Option<Grammar>;

    closed spec fn view(&self) -> Option<Grammar> {
        self.grammar
    }
}

/// A parse, kept with the grammar it was made with and the text it is of.
pub struct Parsed {
    tree: tree_sitter::Tree,
    grammar: Grammar,
    text: String,
}

impl View for Parsed {
    type V = (Grammar, Seq<char>);

    closed spec fn view(&self) -> (Grammar, Seq<char>) {
        (self.grammar, self.text@)
    }
}

/// A compiled query, kept with its grammar and source.
pub struct TsQuery {
    inner: tree_sitter::Query,
    grammar: Grammar,
    source: String,
}

impl View for TsQuery {
    type V = (Grammar, Seq<char>);

    closed spec fn view(&self) -> (Grammar, Seq<char>) {
        (self.grammar, self.source@)
    }
}


// ── Names for what tree-sitter computes ────────────────────────────────

/// Whether tree-sitter compiles the query `source` for `grammar`.
pub uninterp spec fn ts_query_compiles(grammar: Grammar, source: Seq<char>) -> bool;

/// The index tree-sitter gives the capture `name` in the query `source`
/// compiled for `grammar`.
pub uninterp spec fn ts_capture_index(grammar: Grammar, source: Seq<char>, name: Seq<char>) -> Option<u32>;

/// The matches tree-sitter's query cursor yields for the query `source`
/// over the parse of `text` with `grammar`, in order, each as its captures.
pub uninterp spec fn ts_matches(grammar: Grammar, source: Seq<char>, text: Seq<char>) -> Seq<Seq<Capture>>;

// ── Trusted tree-sitter calls ──────────────────────────────────────────

/// `tree_sitter_rust::LANGUAGE`, as a `TreeSitterLanguage`.
#[verifier::external_body]
fn rust_language() -> TreeSitterLanguage {
    tree_sitter_rust::LANGUAGE.into()
}

/// `tree_sitter_javascript::LANGUAGE`, as a `TreeSitterLanguage`.
#[verifier::external_body]
fn javascript_language() -> TreeSitterLanguage {
    tree_sitter_javascript::LANGUAGE.into()
}

/// `tree_sitter_typescript::LANGUAGE_TYPESCRIPT`, as a `TreeSitterLanguage`.
#[verifier::external_body]
fn typescript_language() -> TreeSitterLanguage {
    tree_sitter_typescript::LANGUAGE_TYPESCRIPT.into()
}

/// `tree_sitter_typescript::LANGUAGE_TSX`, as a `TreeSitterLanguage`.
#[verifier::external_body]
fn tsx_language() -> TreeSitterLanguage {
    tree_sitter_typescript::LANGUAGE_TSX.into()
}

/// `tree_sitter_python::LANGUAGE`, as a `TreeSitterLanguage`.
#[verifier::external_body]
fn python_language() -> TreeSitterLanguage {
    tree_sitter_python::LANGUAGE.into()
}

/// `tree_sitter_go::LANGUAGE`, as a `TreeSitterLanguage`.
#[verifier::external_body]
fn go_language() -> TreeSitterLanguage {
    tree_sitter_go::LANGUAGE.into()
}

/// `tree_sitter_java::LANGUAGE`, as a `TreeSitterLanguage`.
#[verifier::external_body]
fn java_language() -> TreeSitterLanguage {
    tree_sitter_java::LANGUAGE.into()
}

/// `tree_sitter_c_sharp::LANGUAGE`, as a `TreeSitterLanguage`.
#[verifier::external_body]
fn csharp_language() -> TreeSitterLanguage {
    tree_sitter_c_sharp::LANGUAGE.into()
}

/// `tree_sitter::Parser::new`: a parser with no grammar yet.
#[verifier::external_body]
fn new_parser() -> (r: TsParser)
    ensures
        r@ is None,
{
    TsParser { inner: tree_sitter::Parser::new(), grammar: None }
}

/// `tree_sitter::Parser::set_language`. It accepts every grammar here: each
/// was generated with ABI version 14 or 15, inside the range 13 to 15 that
/// tree-sitter 0.27 accepts, and each is a generated, parseable grammar.
/// The parser then has that grammar.
#[verifier::external_body]
fn set_language(parser: &mut TsParser, language: &TsLanguage) -> (r: bool)
    ensures
        r,
        final(parser)@ == Some(language@),
{
    match parser.inner.set_language(&language.inner) {
        Ok(()) => {
            parser.grammar = Some(language.grammar);
            true
        },
        Err(_) => false,
    }
}

/// `tree_sitter::Parser::parse` of the whole text, with no earlier tree. A
/// parser that has a grammar always yields a tree (the call yields none
/// only for a parser without one); the parse is kept with its grammar and
/// text.
#[verifier::external_body]
fn parse_text(parser: &mut TsParser, grammar: Grammar, content: &str) -> (r: Option<Parsed>)
    requires
        old(parser)@ == Some(grammar),
    ensures
        r is Some,
        r->0@ == (grammar, content@),
{
    match parser.inner.parse(content, None) {
        Some(tree) => Some(Parsed { tree, grammar, text: content.to_string() }),
        None => None,
    }
}

/// `tree_sitter::Query::new`: the compiled query, exactly when tree-sitter
/// compiles `source` for the grammar, kept with the grammar and source.
#[verifier::external_body]
fn new_query(language: &TsLanguage, source: &str) -> (r: Option<TsQuery>)
    ensures
        r is Some <==> ts_query_compiles(language@, source@),
        r matches Some(q) ==> q@ == (language@, source@),
{
    match tree_sitter::Query::new(&language.inner, source) {
        Ok(inner) => Some(TsQuery { inner, grammar: language.grammar, source: source.to_string() }),
        Err(_) => None,
    }
}

/// `tree_sitter::Query::capture_index_for_name`.
#[verifier::external_body]
pub(crate) fn capture_index_for_name(query: &TsQuery, name: &str) -> (r: Option<u32>)
    ensures
        r == ts_capture_index(query@.0, query@.1, name@),
{
    query.inner.capture_index_for_name(name)
}

/// `tree_sitter::QueryCursor::matches` of a query over a whole parse made
/// with the query's grammar, each match taken as its captures' indices,
/// byte ranges and rows.
#[verifier::external_body]
fn query_matches(query: &TsQuery, parsed: &Parsed) -> (r: Vec<Vec<Capture>>)
    requires
        query@.0 == parsed@.0,
    ensures
        capture_views(r@) == ts_matches(parsed@.0, query@.1, parsed@.1),
{
    let mut cursor = tree_sitter::QueryCursor::new();
    let found = cursor.matches(&query.inner, parsed.tree.root_node(), parsed.text.as_bytes());
    found.map_deref(|m| m.captures().iter().map(|c| Capture {
        index: c.index,
        start_byte: c.node.start_byte(),
        end_byte: c.node.end_byte(),
        start_row: c.node.start_position().row,
        end_row: c.node.end_position().row,
    }).collect()).collect()
}

/// The query `source` compiled for the grammar of `parsed`, and its
/// matches over it: `None` and no match where it does not compile.
pub fn query_over(parsed: &Parsed, source: &str) -> (r: (Option<TsQuery>, Vec<Vec<Capture>>))
    ensures
        r.0 is Some <==> ts_query_compiles(parsed@.0, source@),
        r.0 matches Some(q) ==> q@ == (parsed@.0, source@) && capture_views(r.1@) == ts_matches(
            parsed@.0,
            source@,
            parsed@.1,
        ),
        r.0 is None ==> r.1@.len() == 0,
{
    let language = language_of(parsed.grammar);
    match new_query(&language, source) {
        Some(q) => {
            let ms = query_matches(&q, parsed);
            (Some(q), ms)
        },
        None => (None, Vec::new()),
    }
}

/// A node of a parse, with where it stands: the parse's grammar and text,
/// and the path of child positions that leads to it from the root.
pub struct TsNode<'a> {
    inner: tree_sitter::Node<'a>,
    at: Ghost<(Grammar, Seq<char>, Seq<u32>)>,
}

impl<'a> View for TsNode<'a> {
    type V = (Grammar, Seq<char>, Seq<u32>);

    closed spec fn view(&self) -> (Grammar, Seq<char>, Seq<u32>) {
        self.at@
    }
}

/// The kind of the node at `path` in the parse of `text` with `grammar`.
pub uninterp spec fn ts_kind(grammar: Grammar, text: Seq<char>, path: Seq<u32>) -> Seq<char>;

/// Whether the node at `path` is named.
pub uninterp spec fn ts_is_named(grammar: Grammar, text: Seq<char>, path: Seq<u32>) -> bool;

/// Whether the node at `path` is or contains a syntax error.
pub uninterp spec fn ts_has_error(grammar: Grammar, text: Seq<char>, path: Seq<u32>) -> bool;

/// The first byte of the node at `path`.
pub uninterp spec fn ts_start_byte(grammar: Grammar, text: Seq<char>, path: Seq<u32>) -> usize;

/// One past the last byte of the node at `path`.
pub uninterp spec fn ts_end_byte(grammar: Grammar, text: Seq<char>, path: Seq<u32>) -> usize;

/// The zero-based row on which the node at `path` starts.
pub uninterp spec fn ts_start_row(grammar: Grammar, text: Seq<char>, path: Seq<u32>) -> usize;

/// How many children the node at `path` has.
pub uninterp spec fn ts_child_count(grammar: Grammar, text: Seq<char>, path: Seq<u32>) -> u32;

/// The field label of child `i` of the node at `path`, if it has one.
pub uninterp spec fn ts_field_name(grammar: Grammar, text: Seq<char>, path: Seq<u32>, i: u32) -> Option<Seq<char>>;

/// How many nodes the subtree of the node at `path` has, itself included.
pub uninterp spec fn ts_descendant_count(grammar: Grammar, text: Seq<char>, path: Seq<u32>) -> usize;

/// `tree_sitter::Tree::root_node`: the node at the empty path.
#[verifier::external_body]
fn root_node<'a>(parsed: &'a Parsed) -> (r: TsNode<'a>)
    ensures
        r@ == (parsed@.0, parsed@.1, Seq::<u32>::empty()),
{
    TsNode { inner: parsed.tree.root_node(), at: Ghost((parsed@.0, parsed@.1, Seq::<u32>::empty())) }
}

/// `tree_sitter::Node::kind`, owned.
#[verifier::external_body]
fn node_kind(node: &TsNode) -> (r: String)
    ensures
        r@ == ts_kind(node@.0, node@.1, node@.2),
{
    node.inner.kind().to_string()
}

/// `tree_sitter::Node::is_named`.
#[verifier::external_body]
fn node_is_named(node: &TsNode) -> (r: bool)
    ensures
        r == ts_is_named(node@.0, node@.1, node@.2),
{
    node.inner.is_named()
}

/// `tree_sitter::Node::has_error`: whether the node is or contains a
/// syntax error.
#[verifier::external_body]
fn node_has_error(node: &TsNode) -> (r: bool)
    ensures
        r == ts_has_error(node@.0, node@.1, node@.2),
{
    node.inner.has_error()
}

/// `tree_sitter::Node::start_byte`.
#[verifier::external_body]
fn node_start_byte(node: &TsNode) -> (r: usize)
    ensures
        r == ts_start_byte(node@.0, node@.1, node@.2),
{
    node.inner.start_byte()
}

/// `tree_sitter::Node::end_byte`.
#[verifier::external_body]
fn node_end_byte(node: &TsNode) -> (r: usize)
    ensures
        r == ts_end_byte(node@.0, node@.1, node@.2),
{
    node.inner.end_byte()
}

/// The row of `tree_sitter::Node::start_position`.
#[verifier::external_body]
fn node_start_row(node: &TsNode) -> (r: usize)
    ensures
        r == ts_start_row(node@.0, node@.1, node@.2),
{
    node.inner.start_position().row
}

/// `tree_sitter::Node::child_count`.
#[verifier::external_body]
fn node_child_count(node: &TsNode) -> (r: u32)
    ensures
        r == ts_child_count(node@.0, node@.1, node@.2),
{
    node.inner.child_count()
}

/// `tree_sitter::Node::child`: the child at position `i`, exactly when `i`
/// is below the child count (`ts_node_child` yields the null node past the
/// end, which the binding turns into `None`).
#[verifier::external_body]
fn node_child<'a>(node: &TsNode<'a>, i: u32) -> (r: Option<TsNode<'a>>)
    ensures
        r is Some <==> i < ts_child_count(node@.0, node@.1, node@.2),
        r matches Some(c) ==> c@ == (node@.0, node@.1, node@.2.push(i)),
{
    match node.inner.child(i) {
        Some(c) => Some(TsNode { inner: c, at: Ghost((node@.0, node@.1, node@.2.push(i))) }),
        None => None,
    }
}

/// `tree_sitter::Node::field_name_for_child`, owned.
#[verifier::external_body]
fn node_field_name(node: &TsNode, i: u32) -> (r: Option<String>)
    ensures
        opt_view(r) == ts_field_name(node@.0, node@.1, node@.2, i),
{
    node.inner.field_name_for_child(i).map(|s| s.to_string())
}

/// `tree_sitter::Node::descendant_count`: the number of nodes in the
/// subtree, the node itself included.
#[verifier::external_body]
fn node_descendant_count(node: &TsNode) -> (r: usize)
    ensures
        r == ts_descendant_count(node@.0, node@.1, node@.2),
{
    node.inner.descendant_count()
}

/// The view of an optional string.
pub open spec fn opt_view(s: Option<String>) -> Option<Seq<char>> {
    match s {
        Some(x) => Some(x@),
        None => None,
    }
}

// ── Verified conversion ────────────────────────────────────────────────

fn language_of(g: Grammar) -> (r: TsLanguage)
    ensures
        r@ == g,
{
    let inner = match g {
        Grammar::Rust => rust_language(),
        Grammar::JavaScript => javascript_language(),
        Grammar::TypeScript => typescript_language(),
        Grammar::Tsx => tsx_language(),
        Grammar::Python => python_language(),
        Grammar::Go => go_language(),
        Grammar::Java => java_language(),
        Grammar::CSharp => csharp_language(),
    };
    TsLanguage { inner, grammar: g }
}

/// Number of bytes `c` takes in UTF-8 (`char::len_utf8`).
pub open spec fn utf8_len(c: char) -> int {
    if (c as u32) < 0x80 {
        1
    } else if (c as u32) < 0x800 {
        2
    } else if (c as u32) < 0x10000 {
        3
    } else {
        4
    }
}

fn len_utf8(c: char) -> (n: usize)
    ensures
        n == utf8_len(c),
        1 <= n <= 4,
{
    let u = c as u32;
    if u < 0x80 {
        1
    } else if u < 0x800 {
        2
    } else if u < 0x10000 {
        3
    } else {
        4
    }
}

/// One entry per byte of the UTF-8 encoding of the first `i` characters of
/// `text`: the index of the character the byte belongs to.
pub open spec fn table_upto(text: Seq<char>, i: int) -> Seq<usize>
    decreases i,
{
    if i <= 0 || i > text.len() {
        seq![]
    } else {
        table_upto(text, i - 1) + Seq::new(utf8_len(text[i - 1]) as nat, |_k: int| (i - 1) as usize)
    }
}

/// For each byte offset of the UTF-8 encoding of `text`, the index of the
/// character it belongs to; one more entry, the character count, for the
/// end.
pub open spec fn byte_table_spec(text: Seq<char>) -> Seq<usize> {
    table_upto(text, text.len() as int).push(text.len() as usize)
}

proof fn lemma_table_bound(text: Seq<char>, i: int)
    requires
        0 <= i <= text.len(),
    ensures
        forall|b: int| 0 <= b < table_upto(text, i).len() ==> #[trigger] table_upto(text, i)[b] < i,
    decreases i,
{
    if i > 0 {
        lemma_table_bound(text, i - 1);
        let prev = table_upto(text, i - 1);
        let t = table_upto(text, i);
        assert forall|b: int| 0 <= b < t.len() implies #[trigger] t[b] < i by {
            if b < prev.len() {
                assert(t[b] == prev[b]);
            }
        }
    }
}

/// For each byte offset of the UTF-8 encoding of `text`, the index of the
/// character it belongs to; one more entry for the end.
fn byte_table(text: &Vec<char>) -> (t: Vec<usize>)
    ensures
        t@ == byte_table_spec(text@),
        forall|b: int| 0 <= b < t@.len() ==> #[trigger] t@[b] <= text@.len(),
{
    let mut t: Vec<usize> = Vec::new();
    let mut i: usize = 0;
    while i < text.len()
        invariant
            i <= text@.len(),
            t@ == table_upto(text@, i as int),
        decreases text.len() - i,
    {
        let n = len_utf8(text[i]);
        let mut k: usize = 0;
        let ghost base = t@;
        while k < n
            invariant
                k <= n,
                n == utf8_len(text@[i as int]),
                i < text@.len(),
                t@ == base + Seq::new(k as nat, |_j: int| i as usize),
            decreases n - k,
        {
            t.push(i);
            assert(t@ =~= base + Seq::new((k + 1) as nat, |_j: int| i as usize));
            k = k + 1;
        }
        assert(t@ =~= table_upto(text@, i + 1));
        i = i + 1;
    }
    t.push(text.len());
    proof {
        lemma_table_bound(text@, text@.len() as int);
        assert forall|b: int| 0 <= b < t@.len() implies #[trigger] t@[b] <= text@.len() by {
            if b < t@.len() - 1 {
                assert(t@[b] == table_upto(text@, text@.len() as int)[b]);
            }
        }
    }
    t
}

fn char_index(table: &Vec<usize>, byte: usize, limit: usize) -> (c: usize)
    requires
        forall|b: int| 0 <= b < table@.len() ==> #[trigger] table@[b] <= limit,
    ensures
        c == if (byte as int) < table@.len() {
            table@[byte as int]
        } else {
            limit
        },
        c <= limit,
{
    if byte < table.len() {
        table[byte]
    } else {
        limit
    }
}

/// Well-formedness of the nodes built so far, before subtree ends are known.
pub open spec fn partial_wf(nodes: Seq<SyntaxNode>, text_len: nat) -> bool {
    &&& nodes.len() >= 1
    &&& nodes[0].parent is None
    &&& forall|i: int| 0 <= i < nodes.len() ==> #[trigger] partial_node_wf(nodes, text_len, i)
}

pub open spec fn partial_node_wf(nodes: Seq<SyntaxNode>, text_len: nat, i: int) -> bool {
    let n = nodes[i];
    &&& n.start <= n.end <= text_len
    &&& (i > 0 ==> (n.parent matches Some(p) && p < i))
    &&& forall|k: int| 0 <= k < n.children@.len() ==> i < #[trigger] n.children@[k] < nodes.len()
    &&& forall|k: int| 0 <= k < n.fields@.len() ==> i < #[trigger] n.fields@[k].1 < nodes.len()
}

/// The character a byte offset falls in, by the byte table; `limit` past
/// its end.
pub open spec fn char_of(table: Seq<usize>, byte: int, limit: usize) -> usize {
    if byte < table.len() {
        table[byte]
    } else {
        limit
    }
}

/// A node of the library's tree, without the subtree end that is settled
/// once every node is known.
pub struct NodeShape {
    pub kind: Seq<char>,
    pub named: bool,
    pub has_error: bool,
    pub start: usize,
    pub end: usize,
    pub row: usize,
    pub parent: Option<usize>,
    pub children: Seq<usize>,
    pub fields: Seq<(Seq<char>, usize)>,
}

pub open spec fn field_views(fs: Seq<(String, usize)>) -> Seq<(Seq<char>, usize)> {
    fs.map_values(|f: (String, usize)| (f.0@, f.1))
}

pub open spec fn node_shape(n: SyntaxNode) -> NodeShape {
    NodeShape {
        kind: n.kind@,
        named: n.named,
        has_error: n.has_error,
        start: n.start,
        end: n.end,
        row: n.row,
        parent: n.parent,
        children: n.children@,
        fields: field_views(n.fields@),
    }
}

pub open spec fn shapes(nodes: Seq<SyntaxNode>) -> Seq<NodeShape> {
    nodes.map_values(|n: SyntaxNode| node_shape(n))
}

/// The node at `path` of the parse of `text` with `g`, as the library
/// records it on first sight: its kind, named-ness, error flag, character
/// range (an end before the start taken as the start) and row, under
/// `parent`, with no children yet.
pub open spec fn shape_at(g: Grammar, text: Seq<char>, path: Seq<u32>, parent: Option<usize>) -> NodeShape {
    let table = byte_table_spec(text);
    let s = char_of(table, ts_start_byte(g, text, path) as int, text.len() as usize);
    let e = char_of(table, ts_end_byte(g, text, path) as int, text.len() as usize);
    NodeShape {
        kind: ts_kind(g, text, path),
        named: ts_is_named(g, text, path),
        has_error: ts_has_error(g, text, path),
        start: s,
        end: if e < s {
            s
        } else {
            e
        },
        row: ts_start_row(g, text, path),
        parent,
        children: seq![],
        fields: seq![],
    }
}

fn make_node(node: &TsNode, parent: Option<usize>, table: &Vec<usize>, text_len: usize) -> (n: SyntaxNode)
    requires
        table@ == byte_table_spec(node@.1),
        text_len == node@.1.len(),
        forall|b: int| 0 <= b < table@.len() ==> #[trigger] table@[b] <= text_len,
    ensures
        n.start <= n.end <= text_len,
        n.parent == parent,
        n.children@.len() == 0,
        n.fields@.len() == 0,
        node_shape(n) == shape_at(node@.0, node@.1, node@.2, parent),
{
    let s = char_index(table, node_start_byte(node), text_len);
    let e0 = char_index(table, node_end_byte(node), text_len);
    let e = if e0 < s { s } else { e0 };
    let n = SyntaxNode {
        kind: node_kind(node),
        named: node_is_named(node),
        has_error: node_has_error(node),
        start: s,
        end: e,
        row: node_start_row(node),
        parent,
        children: Vec::new(),
        fields: Vec::new(),
        subtree_end: 0,
    };
    assert(field_views(n.fields@) =~= Seq::<(Seq<char>, usize)>::empty());
    assert(n.children@ =~= Seq::<usize>::empty());
    n
}

/// The work-stack entries for the children of the node at `path`
/// (registered as node `idx`) from position `k` on: the last child first,
/// so that they are visited left to right.
pub open spec fn child_entries(g: Grammar, text: Seq<char>, path: Seq<u32>, idx: usize, k: int) -> Seq<
    (Seq<u32>, usize, Option<Seq<char>>),
>
    decreases ts_child_count(g, text, path) - k,
{
    if k < 0 || k >= ts_child_count(g, text, path) {
        seq![]
    } else {
        child_entries(g, text, path, idx, k + 1).push(
            (path.push(k as u32), idx, ts_field_name(g, text, path, k as u32)),
        )
    }
}

pub open spec fn stack_view<'a>(stack: Seq<(TsNode<'a>, usize, Option<String>)>) -> Seq<
    (Seq<u32>, usize, Option<Seq<char>>),
> {
    stack.map_values(|e: (TsNode<'a>, usize, Option<String>)| (e.0@.2, e.1, opt_view(e.2)))
}

/// Every node on the stack belongs to the parse of `text` with `g`.
pub open spec fn stack_in<'a>(stack: Seq<(TsNode<'a>, usize, Option<String>)>, g: Grammar, text: Seq<char>) -> bool {
    forall|k: int| 0 <= k < stack.len() ==> (#[trigger] stack[k]).0@.0 == g && stack[k].0@.1 == text
}

/// Push the children of `node` (registered as node `idx`) onto the work
/// stack, last child first, so that they are visited left to right.
fn push_children<'a>(stack: &mut Vec<(TsNode<'a>, usize, Option<String>)>, node: &TsNode<'a>, idx: usize)
    requires
        stack_in(old(stack)@, node@.0, node@.1),
    ensures
        stack_view(final(stack)@) == stack_view(old(stack)@) + child_entries(node@.0, node@.1, node@.2, idx, 0),
        stack_in(final(stack)@, node@.0, node@.1),
        forall|k: int| 0 <= k < old(stack)@.len() ==> final(stack)@[k] == old(stack)@[k],
        final(stack)@.len() >= old(stack)@.len(),
        forall|k: int| old(stack)@.len() <= k < final(stack)@.len() ==> (#[trigger] final(stack)@[k]).1 == idx,
{
    let ghost (g, text, path) = node@;
    let count = node_child_count(node);
    let mut k = count;
    assert(stack_view(stack@) =~= stack_view(old(stack)@) + child_entries(g, text, path, idx, k as int));
    while k > 0
        invariant
            k <= count,
            count == ts_child_count(g, text, path),
            (g, text, path) == node@,
            stack_view(stack@) == stack_view(old(stack)@) + child_entries(g, text, path, idx, k as int),
            stack_in(stack@, g, text),
            forall|j: int| 0 <= j < old(stack)@.len() ==> stack@[j] == old(stack)@[j],
            stack@.len() >= old(stack)@.len(),
            forall|j: int| old(stack)@.len() <= j < stack@.len() ==> (#[trigger] stack@[j]).1 == idx,
        decreases k,
    {
        k = k - 1;
        match node_child(node, k) {
            Some(c) => {
                let f = node_field_name(node, k);
                let ghost prev = stack@;
                stack.push((c, idx, f));
                proof {
                    assert(stack_view(stack@) =~= stack_view(prev).push((path.push(k), idx, ts_field_name(g, text, path, k))));
                    assert(stack_view(stack@) =~= stack_view(old(stack)@) + child_entries(g, text, path, idx, k as int));
                    assert forall|j: int| 0 <= j < stack@.len() implies (#[trigger] stack@[j]).0@.0 == g && stack@[j].0@.1 == text by {
                        if j < prev.len() {
                            assert(stack@[j] == prev[j]);
                        }
                    }
                }
            },
            None => {},
        }
    }
}

/// A node of the walk gains child `idx`, labelled `field` where it has one.
pub open spec fn add_child(n: NodeShape, idx: usize, field: Option<Seq<char>>) -> NodeShape {
    NodeShape {
        kind: n.kind,
        named: n.named,
        has_error: n.has_error,
        start: n.start,
        end: n.end,
        row: n.row,
        parent: n.parent,
        children: n.children.push(idx),
        fields: match field {
            Some(f) => n.fields.push((f, idx)),
            None => n.fields,
        },
    }
}

/// The preorder walk of a parse: take the top of the work stack, record its
/// node under its parent, and push its children, until the stack is empty
/// or `budget` nodes have been taken.
pub open spec fn walk(
    g: Grammar,
    text: Seq<char>,
    stack: Seq<(Seq<u32>, usize, Option<Seq<char>>)>,
    nodes: Seq<NodeShape>,
    budget: nat,
) -> Seq<NodeShape>
    decreases budget,
{
    if budget == 0 || stack.len() == 0 {
        nodes
    } else {
        let e = stack.last();
        let idx = nodes.len() as usize;
        let grown = nodes.push(shape_at(g, text, e.0, Some(e.1)));
        let linked = grown.update(e.1 as int, add_child(grown[e.1 as int], idx, e.2));
        walk(g, text, stack.drop_last() + child_entries(g, text, e.0, idx, 0), linked, (budget - 1) as nat)
    }
}

/// The nodes of the parse of `text` with `g`, in preorder, as the library
/// records them: the root, then the walk from its children, with the
/// root's descendant count as budget.
pub open spec fn ts_shape(g: Grammar, text: Seq<char>) -> Seq<NodeShape> {
    let root = Seq::<u32>::empty();
    walk(
        g,
        text,
        child_entries(g, text, root, 0, 0),
        seq![shape_at(g, text, root, None)],
        ts_descendant_count(g, text, root) as nat,
    )
}

/// The subtree end of node `j` is reached: it is one past the node, or the
/// subtree end of a child.
pub open spec fn end_attained(nodes: Seq<SyntaxNode>, j: int) -> bool {
    let nd = nodes[j];
    ||| nd.subtree_end == j + 1
    ||| exists|m: int| 0 <= m < nd.children@.len() && #[trigger] nodes[nd.children@[m] as int].subtree_end == nd.subtree_end
    ||| exists|m: int| 0 <= m < nd.fields@.len() && #[trigger] nodes[nd.fields@[m].1 as int].subtree_end == nd.subtree_end
}

/// `t` is the library's copy of the parse of `text` with `g`: a
/// well-formed tree over `text` whose nodes are those of the walk, each
/// subtree ending right after its last descendant.
pub open spec fn is_parse_of(t: SyntaxTree, g: Grammar, text: Seq<char>) -> bool {
    &&& t.wf()
    &&& t.text@ == text
    &&& shapes(t.nodes@) == ts_shape(g, text)
    &&& forall|j: int| 0 <= j < t.nodes@.len() ==> #[trigger] end_attained(t.nodes@, j)
}

/// Copy the parse of `content` into a `SyntaxTree`, in preorder.
#[verifier::rlimit(80)]
fn convert(parsed: &Parsed, content: &str) -> (t: SyntaxTree)
    requires
        parsed@.1 == content@,
    ensures
        is_parse_of(t, parsed@.0, content@),
{
    let ghost g = parsed@.0;
    let ghost text_v = parsed@.1;
    let text = chars_of(content);
    let table = byte_table(&text);
    let tl = text.len();
    let root = root_node(parsed);
    let mut budget = node_descendant_count(&root);
    let mut nodes: Vec<SyntaxNode> = Vec::new();
    nodes.push(make_node(&root, None, &table, tl));
    let mut stack: Vec<(TsNode, usize, Option<String>)> = Vec::new();
    push_children(&mut stack, &root, 0);
    proof {
        assert(stack_view(Seq::<(TsNode, usize, Option<String>)>::empty()) =~= Seq::<(Seq<u32>, usize, Option<Seq<char>>)>::empty());
        assert(stack_view(stack@) =~= child_entries(g, text_v, Seq::<u32>::empty(), 0, 0));
        assert(shapes(nodes@) =~= seq![shape_at(g, text_v, Seq::<u32>::empty(), None)]);
    }
    while budget > 0 && stack.len() > 0
        invariant
            tl == text@.len(),
            text@ == text_v,
            table@ == byte_table_spec(text_v),
            forall|b: int| 0 <= b < table@.len() ==> #[trigger] table@[b] <= tl,
            partial_wf(nodes@, tl as nat),
            forall|k: int| 0 <= k < stack@.len() ==> (#[trigger] stack@[k]).1 < nodes@.len(),
            stack_in(stack@, g, text_v),
            walk(g, text_v, stack_view(stack@), shapes(nodes@), budget as nat) == ts_shape(g, text_v),
        decreases budget,
    {
        let ghost sv = stack_view(stack@);
        let ghost sh = shapes(nodes@);
        let (node, p, field) = stack.pop().unwrap();
        proof {
            assert(stack_view(stack@) =~= sv.drop_last());
            assert(sv.last() == (node@.2, p, opt_view(field)));
        }
        let idx = nodes.len();
        let ghost before = nodes@;
        nodes.push(make_node(&node, Some(p), &table, tl));
        nodes[p].children.push(idx);
        match field {
            Some(f) => {
                nodes[p].fields.push((f, idx));
            },
            None => {},
        }
        proof {
            let grown = sh.push(shape_at(g, text_v, node@.2, Some(p)));
            let linked = grown.update(p as int, add_child(grown[p as int], idx, opt_view(field)));
            assert(field_views(nodes@[p as int].fields@) =~= add_child(grown[p as int], idx, opt_view(field)).fields);
            assert(nodes@[p as int].children@ =~= add_child(grown[p as int], idx, opt_view(field)).children);
            assert(shapes(nodes@) =~= linked) by {
                assert forall|j: int| 0 <= j < nodes@.len() implies #[trigger] shapes(nodes@)[j] == linked[j] by {
                    if j != p && j < idx {
                        assert(nodes@[j] == before[j]);
                    }
                }
            }
            assert forall|i: int| 0 <= i < nodes@.len() implies #[trigger] partial_node_wf(nodes@, tl as nat, i) by {
                if i < idx && i != p {
                    assert(nodes@[i] == before[i]);
                    assert(partial_node_wf(before, tl as nat, i));
                } else if i == p {
                    assert(partial_node_wf(before, tl as nat, i));
                    let n = nodes@[i];
                    assert forall|k: int| 0 <= k < n.children@.len() implies i < #[trigger] n.children@[k] < nodes@.len() by {
                        if k < before[i].children@.len() {
                            assert(n.children@[k] == before[i].children@[k]);
                        }
                    }
                    assert forall|k: int| 0 <= k < n.fields@.len() implies i < #[trigger] n.fields@[k].1 < nodes@.len() by {
                        if k < before[i].fields@.len() {
                            assert(n.fields@[k] == before[i].fields@[k]);
                        }
                    }
                }
            }
        }
        push_children(&mut stack, &node, idx);
        budget = budget - 1;
    }
    let n = nodes.len();
    let mut i = n;
    while i > 0
        invariant
            i <= n == nodes@.len(),
            partial_wf(nodes@, tl as nat),
            forall|j: int| i <= j < n ==> #[trigger] final_node_wf(nodes@, j),
            forall|j: int| i <= j < n ==> #[trigger] end_attained(nodes@, j),
            shapes(nodes@) == ts_shape(g, text_v),
        decreases i,
    {
        i = i - 1;
        let ghost before = nodes@;
        assert(partial_node_wf(nodes@, tl as nat, i as int));
        let mut e = i + 1;
        let mut k: usize = 0;
        let cc = nodes[i].children.len();
        while k < cc
            invariant
                nodes@ == before,
                i < n == nodes@.len(),
                cc == nodes@[i as int].children@.len(),
                k <= cc,
                i < e <= n,
                partial_node_wf(nodes@, tl as nat, i as int),
                forall|j: int| i < j < n ==> #[trigger] final_node_wf(nodes@, j),
                forall|m: int| 0 <= m < k ==> #[trigger] nodes@[nodes@[i as int].children@[m] as int].subtree_end <= e,
                e == i + 1 || exists|m: int| 0 <= m < k && #[trigger] nodes@[nodes@[i as int].children@[m] as int].subtree_end == e,
            decreases cc - k,
        {
            let c = nodes[i].children[k];
            assert(final_node_wf(nodes@, c as int));
            let ce = nodes[c].subtree_end;
            if ce > e {
                e = ce;
                assert(nodes@[nodes@[i as int].children@[k as int] as int].subtree_end == e);
            }
            k = k + 1;
        }
        let mut k2: usize = 0;
        let fc = nodes[i].fields.len();
        while k2 < fc
            invariant
                nodes@ == before,
                i < n == nodes@.len(),
                fc == nodes@[i as int].fields@.len(),
                k2 <= fc,
                i < e <= n,
                partial_node_wf(nodes@, tl as nat, i as int),
                forall|j: int| i < j < n ==> #[trigger] final_node_wf(nodes@, j),
                forall|m: int| 0 <= m < cc ==> #[trigger] nodes@[nodes@[i as int].children@[m] as int].subtree_end <= e,
                cc == nodes@[i as int].children@.len(),
                forall|m: int| 0 <= m < k2 ==> #[trigger] nodes@[nodes@[i as int].fields@[m].1 as int].subtree_end <= e,
                e == i + 1 || (exists|m: int| 0 <= m < cc && #[trigger] nodes@[nodes@[i as int].children@[m] as int].subtree_end == e)
                    || (exists|m: int| 0 <= m < k2 && #[trigger] nodes@[nodes@[i as int].fields@[m].1 as int].subtree_end == e),
            decreases fc - k2,
        {
            let c = nodes[i].fields[k2].1;
            assert(final_node_wf(nodes@, c as int));
            let ce = nodes[c].subtree_end;
            if ce > e {
                e = ce;
                assert(nodes@[nodes@[i as int].fields@[k2 as int].1 as int].subtree_end == e);
            }
            k2 = k2 + 1;
        }
        nodes[i].subtree_end = e;
        proof {
            assert(shapes(nodes@) =~= shapes(before)) by {
                assert forall|j: int| 0 <= j < nodes@.len() implies #[trigger] shapes(nodes@)[j] == shapes(before)[j] by {
                    if j != i {
                        assert(nodes@[j] == before[j]);
                    }
                }
            }
            assert forall|j: int| 0 <= j < nodes@.len() implies #[trigger] partial_node_wf(nodes@, tl as nat, j) by {
                assert(partial_node_wf(before, tl as nat, j));
                if j != i {
                    assert(nodes@[j] == before[j]);
                }
            }
            assert forall|j: int| i <= j < n implies #[trigger] final_node_wf(nodes@, j) by {
                if j == i {
                    let nd = nodes@[j];
                    assert forall|m: int| 0 <= m < nd.children@.len() implies #[trigger] nodes@[nd.children@[m] as int].subtree_end <= nd.subtree_end
                        && j < nd.children@[m] < nd.subtree_end by {
                        let c = nd.children@[m];
                        assert(before[c as int] == nodes@[c as int]);
                        assert(final_node_wf(before, c as int));
                    }
                    assert forall|m: int| 0 <= m < nd.fields@.len() implies #[trigger] nodes@[nd.fields@[m].1 as int].subtree_end <= nd.subtree_end
                        && j < nd.fields@[m].1 < nd.subtree_end by {
                        let c = nd.fields@[m].1;
                        assert(before[c as int] == nodes@[c as int]);
                        assert(final_node_wf(before, c as int));
                    }
                } else {
                    assert(nodes@[j] == before[j]);
                    assert(final_node_wf(before, j));
                    let nd = nodes@[j];
                    assert forall|m: int| 0 <= m < nd.children@.len() implies #[trigger] nodes@[nd.children@[m] as int].subtree_end <= nd.subtree_end
                        && j < nd.children@[m] < nd.subtree_end by {
                        let c = nd.children@[m];
                        assert(before[before[j].children@[m] as int].subtree_end <= before[j].subtree_end);
                        assert(j < c < before[j].subtree_end);
                        assert(c != i);
                        assert(nodes@[c as int] == before[c as int]);
                    }
                    assert forall|m: int| 0 <= m < nd.fields@.len() implies #[trigger] nodes@[nd.fields@[m].1 as int].subtree_end <= nd.subtree_end
                        && j < nd.fields@[m].1 < nd.subtree_end by {
                        let c = nd.fields@[m].1;
                        assert(before[before[j].fields@[m].1 as int].subtree_end <= before[j].subtree_end);
                        assert(j < c < before[j].subtree_end);
                        assert(c != i);
                        assert(nodes@[c as int] == before[c as int]);
                    }
                }
            }
        }
        proof {
            assert forall|j: int| i <= j < n implies #[trigger] end_attained(nodes@, j) by {
                let nd = nodes@[j];
                if j == i {
                    if e != i + 1 {
                        if exists|m: int| 0 <= m < cc && #[trigger] before[before[i as int].children@[m] as int].subtree_end == e {
                            let m = choose|m: int| 0 <= m < cc && #[trigger] before[before[i as int].children@[m] as int].subtree_end == e;
                            let c = nd.children@[m];
                            assert(partial_node_wf(before, tl as nat, i as int));
                            assert(c > i);
                            assert(nodes@[c as int] == before[c as int]);
                            assert(nodes@[nd.children@[m] as int].subtree_end == nd.subtree_end);
                        } else {
                            let m = choose|m: int| 0 <= m < fc && #[trigger] before[before[i as int].fields@[m].1 as int].subtree_end == e;
                            let c = nd.fields@[m].1;
                            assert(partial_node_wf(before, tl as nat, i as int));
                            assert(c > i);
                            assert(nodes@[c as int] == before[c as int]);
                            assert(nodes@[nd.fields@[m].1 as int].subtree_end == nd.subtree_end);
                        }
                    }
                } else {
                    assert(nd == before[j]);
                    assert(end_attained(before, j));
                    assert(partial_node_wf(before, tl as nat, j));
                    if nd.subtree_end != j + 1 {
                        if exists|m: int| 0 <= m < nd.children@.len() && #[trigger] before[nd.children@[m] as int].subtree_end == nd.subtree_end {
                            let m = choose|m: int| 0 <= m < nd.children@.len() && #[trigger] before[nd.children@[m] as int].subtree_end == nd.subtree_end;
                            let c = nd.children@[m];
                            assert(c > j);
                            assert(nodes@[c as int] == before[c as int]);
                            assert(nodes@[nd.children@[m] as int].subtree_end == nd.subtree_end);
                        } else {
                            let m = choose|m: int| 0 <= m < nd.fields@.len() && #[trigger] before[nd.fields@[m].1 as int].subtree_end == nd.subtree_end;
                            let c = nd.fields@[m].1;
                            assert(c > j);
                            assert(nodes@[c as int] == before[c as int]);
                            assert(nodes@[nd.fields@[m].1 as int].subtree_end == nd.subtree_end);
                        }
                    }
                }
            }
        }
    }
    let t = SyntaxTree { text, nodes };
    proof {
        assert(shapes(t.nodes@) == ts_shape(g, text_v));
        assert forall|j: int| 0 <= j < t.nodes@.len() implies #[trigger] t.node_wf(j) by {
            assert(final_node_wf(t.nodes@, j));
            assert(partial_node_wf(t.nodes@, tl as nat, j));
            let nd = t.nodes@[j];
            assert forall|m: int| 0 <= m < nd.children@.len() implies t.child_wf(j, #[trigger] nd.children@[m]) by {
                assert(t.nodes@[nd.children@[m] as int].subtree_end <= nd.subtree_end);
            }
            assert forall|m: int| 0 <= m < nd.fields@.len() implies t.child_wf(j, #[trigger] nd.fields@[m].1) by {
                assert(t.nodes@[nd.fields@[m].1 as int].subtree_end <= nd.subtree_end);
            }
        }
    }
    t
}

/// A node's subtree end is settled: it covers the node and every child's
/// subtree.
pub open spec fn final_node_wf(nodes: Seq<SyntaxNode>, j: int) -> bool {
    let nd = nodes[j];
    &&& j < nd.subtree_end <= nodes.len()
    &&& forall|m: int| 0 <= m < nd.children@.len() ==> #[trigger] nodes[nd.children@[m] as int].subtree_end <= nd.subtree_end
        && j < nd.children@[m] < nd.subtree_end
    &&& forall|m: int| 0 <= m < nd.fields@.len() ==> #[trigger] nodes[nd.fields@[m].1 as int].subtree_end <= nd.subtree_end
        && j < nd.fields@[m].1 < nd.subtree_end
}

/// Parse `content` with `grammar`. Every grammar here is accepted, so
/// there is always a parse: that of `content` with `grammar`.
pub fn parse(content: &str, grammar: Grammar) -> (r: Option<Parsed>)
    ensures
        r matches Some(p) && p@ == (grammar, content@),
{
    let language = language_of(grammar);
    let mut parser = new_parser();
    if !set_language(&mut parser, &language) {
        return None;
    }
    parse_text(&mut parser, grammar, content)
}

/// The library's copy of a parse of `content`: the tree of that parse.
pub fn syntax_tree(parsed: &Parsed, content: &str) -> (t: SyntaxTree)
    requires
        parsed@.1 == content@,
    ensures
        is_parse_of(t, parsed@.0, content@),
{
    convert(parsed, content)
}

/// Parse `content` with `grammar` into a `SyntaxTree`: always the tree of
/// that parse.
pub fn parse_source(content: &str, grammar: Grammar) -> (r: Option<SyntaxTree>)
    ensures
        r is Some,
        is_parse_of(r->0, grammar, content@),
{
    match parse(content, grammar) {
        Some(p) => Some(syntax_tree(&p, content)),
        None => None,
    }
}

proof fn lemma_ends_agree(t1: SyntaxTree, t2: SyntaxTree, g: Grammar, text: Seq<char>, i: int)
    requires
        is_parse_of(t1, g, text),
        is_parse_of(t2, g, text),
        0 <= i <= t1.nodes@.len(),
    ensures
        forall|j: int| i <= j < t1.nodes@.len() ==> #[trigger] t1.nodes@[j].subtree_end == t2.nodes@[j].subtree_end,
    decreases t1.nodes@.len() - i,
{
    let n = t1.nodes@.len();
    assert(shapes(t1.nodes@).len() == shapes(t2.nodes@).len());
    if i < n {
        lemma_ends_agree(t1, t2, g, text, i + 1);
        let a = t1.nodes@[i];
        let b = t2.nodes@[i];
        assert(shapes(t1.nodes@)[i] == shapes(t2.nodes@)[i]);
        assert(node_shape(a) == node_shape(b));
        assert(a.children@ == b.children@);
        assert(field_views(a.fields@) == field_views(b.fields@));
        assert(a.fields@.len() == field_views(a.fields@).len());
        assert(b.fields@.len() == field_views(b.fields@).len());
        assert forall|m: int| 0 <= m < a.fields@.len() implies a.fields@[m].1 == #[trigger] b.fields@[m].1 by {
            assert(field_views(a.fields@)[m] == (a.fields@[m].0@, a.fields@[m].1));
            assert(field_views(b.fields@)[m] == (b.fields@[m].0@, b.fields@[m].1));
        }
        assert(t1.node_wf(i) && t2.node_wf(i));
        assert(end_attained(t1.nodes@, i) && end_attained(t2.nodes@, i));
        // Each end bounds the other: an end is reached at the node or at a
        // child, whose ends agree, and each tree's end covers its children.
        assert(a.subtree_end <= b.subtree_end) by {
            if a.subtree_end != i + 1 {
                if exists|m: int| 0 <= m < a.children@.len() && #[trigger] t1.nodes@[a.children@[m] as int].subtree_end == a.subtree_end {
                    let m = choose|m: int| 0 <= m < a.children@.len() && #[trigger] t1.nodes@[a.children@[m] as int].subtree_end == a.subtree_end;
                    assert(t2.child_wf(i, b.children@[m]));
                    assert(t1.child_wf(i, a.children@[m]));
                } else {
                    let m = choose|m: int| 0 <= m < a.fields@.len() && #[trigger] t1.nodes@[a.fields@[m].1 as int].subtree_end == a.subtree_end;
                    assert(t2.child_wf(i, b.fields@[m].1));
                    assert(t1.child_wf(i, a.fields@[m].1));
                }
            }
        }
        assert(b.subtree_end <= a.subtree_end) by {
            if b.subtree_end != i + 1 {
                if exists|m: int| 0 <= m < b.children@.len() && #[trigger] t2.nodes@[b.children@[m] as int].subtree_end == b.subtree_end {
                    let m = choose|m: int| 0 <= m < b.children@.len() && #[trigger] t2.nodes@[b.children@[m] as int].subtree_end == b.subtree_end;
                    assert(t1.child_wf(i, a.children@[m]));
                    assert(t2.child_wf(i, b.children@[m]));
                } else {
                    let m = choose|m: int| 0 <= m < b.fields@.len() && #[trigger] t2.nodes@[b.fields@[m].1 as int].subtree_end == b.subtree_end;
                    assert(t1.child_wf(i, a.fields@[m].1));
                    assert(t2.child_wf(i, b.fields@[m].1));
                }
            }
        }
    }
}

/// The copy of a parse is one tree: two trees that are both the library's
/// copy of the parse of `text` with `g` have the same text and, node by
/// node, the same kind, flags, range, row, parent, children, fields and
/// subtree end.
pub proof fn lemma_parse_copy_is_unique(t1: SyntaxTree, t2: SyntaxTree, g: Grammar, text: Seq<char>)
    requires
        is_parse_of(t1, g, text),
        is_parse_of(t2, g, text),
    ensures
        t1.text@ == t2.text@,
        t1.nodes@.len() == t2.nodes@.len(),
        forall|j: int| 0 <= j < t1.nodes@.len() ==> node_shape(#[trigger] t1.nodes@[j]) == node_shape(t2.nodes@[j])
            && t1.nodes@[j].subtree_end == t2.nodes@[j].subtree_end,
{
    assert(shapes(t1.nodes@).len() == shapes(t2.nodes@).len());
    lemma_ends_agree(t1, t2, g, text, 0);
    assert forall|j: int| 0 <= j < t1.nodes@.len() implies node_shape(#[trigger] t1.nodes@[j]) == node_shape(t2.nodes@[j])
        && t1.nodes@[j].subtree_end == t2.nodes@[j].subtree_end by {
        assert(shapes(t1.nodes@)[j] == shapes(t2.nodes@)[j]);
    }
}

} // verus!
