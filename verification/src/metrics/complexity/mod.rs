pub mod calls;
pub mod counters;
pub mod fallback;
pub mod inheritance;
pub mod javascript_test_code;
pub mod lang_dispatch;
pub mod php_test_code;
pub mod managed_test_code;
pub mod pressman;
pub mod python_test_code;
pub mod queries;
pub mod rust_calls;
pub mod rust_test_code;
pub mod syntax;
pub mod test_context;
pub mod treesitter;
pub mod ts;

use vstd::prelude::*;
use vstd::string::StringSliceAdditionalSpecFns;

use crate::metrics::complexity::calls::{
    aggregates, call_edges_from_tree, edge_views, tree_sites, RawCallEdge,
};
use crate::metrics::complexity::fallback::{
    detect_language, extension, fallback_spec, path_extension, path_language, Language,
};
use crate::metrics::complexity::inheritance::{
    class_records_from_tree, record_views, reexport_views, reexports_from_tree,
    tree_class_records, tree_reexports, RawClassRecord, RawReExport,
};
use crate::metrics::complexity::pressman::{
    finding_views, findings_from_tree, tree_findings, CouplingFinding,
};
use crate::metrics::complexity::syntax::SyntaxTree;
use crate::metrics::complexity::treesitter::{
    analyse, analyse_tree, extract_imports, file_imports_spec, imports_from_tree, metrics_are,
    string_views,
};
use crate::metrics::complexity::ts::{grammar_for, grammar_spec, is_parse_of, parse, syntax_tree};
use crate::text::{lines, string_of};

verus! {

/// Size and complexity measures of one source file.
#[derive(Debug, Clone, Copy, PartialEq, Eq, Default)]
pub struct FileComplexity {
    pub total_lines: usize,
    /// Lines that are neither blank nor comments.
    pub loc: usize,
    pub cyclomatic_complexity: u32,
    pub public_methods: u32,
    pub properties: u32,
}

/// Everything the collector extracts from one source file, from a single
/// parse.
#[derive(Debug)]
pub struct SourceAnalysis {
    pub metrics: FileComplexity,
    pub imports: Vec<String>,
    pub coupling_findings: Vec<CouplingFinding>,
    pub class_records: Vec<RawClassRecord>,
    pub reexports: Vec<RawReExport>,
    pub call_edges: Vec<RawCallEdge>,
}

/// The tree-derived channels of an analysis are those of the tree `t`:
/// coupling findings for the path's language, and for TS/JS the class
/// records, re-exports and call edges (none where the tree is too large to
/// count call sites in a `u32`).
pub open spec fn channels_of(t: &SyntaxTree, path: Seq<char>, a: SourceAnalysis) -> bool {
    &&& finding_views(a.coupling_findings@) == tree_findings(t, path_language(path))
    &&& path_language(path) == Language::JsTs ==> {
        &&& record_views(a.class_records@) == tree_class_records(t)
        &&& reexport_views(a.reexports@) == tree_reexports(t)
        &&& if t.nodes@.len() <= u32::MAX {
            aggregates(edge_views(a.call_edges@), tree_sites(t))
        } else {
            a.call_edges@.len() == 0
        }
    }
}

/// `m` holds the metrics of the file at `path`: those of its parse where
/// its language has a grammar, else the line-based ones.
pub open spec fn file_metrics(path: Seq<char>, content: Seq<char>, m: FileComplexity) -> bool {
    match grammar_spec(path_language(path), extension(path)) {
        Some(g) => metrics_are(m, g, path_language(path), extension(path), content),
        None => fallback_spec(content, path_language(path), m),
    }
}

/// Nothing but line-based metrics: what a file without a grammar
/// gets.
pub open spec fn fallback_analysis(content: Seq<char>, lang: Language, a: SourceAnalysis) -> bool {
    &&& fallback_spec(content, lang, a.metrics)
    &&& a.imports@.len() == 0
    &&& a.coupling_findings@.len() == 0
    &&& a.class_records@.len() == 0
    &&& a.reexports@.len() == 0
    &&& a.call_edges@.len() == 0
}

/// Analyse one file for metrics, imports, coupling findings, class
/// records, re-exports and call edges, parsing it once.
pub fn analyse_source(path: &str, content: &str) -> (r: SourceAnalysis)
    ensures
        r.metrics.total_lines == lines(content@).len(),
        file_metrics(path@, content@, r.metrics),
        grammar_spec(path_language(path@), extension(path@)) matches Some(g) ==> metrics_are(
            r.metrics,
            g,
            path_language(path@),
            extension(path@),
            content@,
        ),
        string_views(r.imports@) == file_imports_spec(path_language(path@), extension(path@), content@),
        grammar_spec(path_language(path@), extension(path@)) is None ==> fallback_analysis(
            content@,
            path_language(path@),
            r,
        ),
        path_language(path@) != Language::JsTs ==> r.class_records@.len() == 0
            && r.reexports@.len() == 0 && r.call_edges@.len() == 0,
        grammar_spec(path_language(path@), extension(path@)) matches Some(g) ==> exists|t: SyntaxTree|
            #[trigger] is_parse_of(t, g, content@) && channels_of(&t, path@, r),
        forall|i: int| 0 <= i < r.coupling_findings@.len() ==> (#[trigger] r.coupling_findings@[i]).path@
            == path@,
{
    let lang = detect_language(path);
    let ext = path_extension(path);
    let ext_s = string_of(ext.as_slice());
    let parsed = match grammar_for(lang, ext.as_slice()) {
        Some(g) => parse(content, g),
        None => None,
    };
    match parsed {
        Some(parsed) => {
            let tree = syntax_tree(&parsed, content);
            let js = match lang {
                Language::JsTs => true,
                _ => false,
            };

            let r = SourceAnalysis {
                metrics: analyse_tree(&parsed, content, lang, ext_s.as_str()),
                imports: imports_from_tree(&parsed, content, lang, ext_s.as_str()),
                coupling_findings: findings_from_tree(&tree, path, lang),
                class_records: if js { class_records_from_tree(&tree) } else { Vec::new() },
                reexports: if js { reexports_from_tree(&tree) } else { Vec::new() },
                call_edges: if js && tree.node_count() <= 4294967295 {
                    call_edges_from_tree(&tree)
                } else {
                    Vec::new()
                },
            };
            assert(is_parse_of(tree, parsed@.0, content@) && channels_of(&tree, path@, r));
            r
        },
        None => {
            assert(string_views(Seq::<String>::empty()) =~= Seq::<Seq<char>>::empty());
            SourceAnalysis {
            metrics: crate::metrics::complexity::fallback::analyse_content(content, lang),
            imports: Vec::new(),
            coupling_findings: Vec::new(),
            class_records: Vec::new(),
            reexports: Vec::new(),
            call_edges: Vec::new(),
        }
        },
    }
}

/// Raw import paths of a source file.
pub fn extract_file_imports(path: &str, content: &str) -> (r: Vec<String>)
    ensures
        string_views(r@) == file_imports_spec(path_language(path@), extension(path@), content@),
{
    let lang = detect_language(path);
    let ext = path_extension(path);
    let ext_s = string_of(ext.as_slice());
    extract_imports(content, lang, ext_s.as_str())
}

/// The metrics of one file: from its parse where its language has a
/// grammar, else line-based.
pub fn analyse_file(path: &str, content: &str) -> (r: FileComplexity)
    ensures
        r.total_lines == lines(content@).len(),
        file_metrics(path@, content@, r),
        grammar_spec(path_language(path@), extension(path@)) matches Some(g) ==> metrics_are(
            r,
            g,
            path_language(path@),
            extension(path@),
            content@,
        ),
        grammar_spec(path_language(path@), extension(path@)) is None ==> fallback_spec(
            content@,
            path_language(path@),
            r,
        ),
{
    let lang = detect_language(path);
    let ext = path_extension(path);
    let ext_s = string_of(ext.as_slice());
    match analyse(content, lang, ext_s.as_str()) {
        Some(m) => m,
        None => crate::metrics::complexity::fallback::analyse_content(content, lang),
    }
}

/// The extension a language's content is analysed under when no path is
/// known.
pub open spec fn default_extension(lang: Language) -> Seq<char> {
    match lang {
        Language::Java => "java"@,
        Language::Kotlin => "kt"@,
        Language::CSharp => "cs"@,
        Language::JsTs => "js"@,
        _ => seq![],
    }
}

/// The metrics of content in a known language: from its parse where the
/// language has a grammar, else line-based.
pub fn analyse_content(content: &str, lang: Language) -> (r: FileComplexity)
    ensures
        r.total_lines == lines(content@).len(),
        grammar_spec(lang, default_extension(lang)) matches Some(g) ==> metrics_are(
            r,
            g,
            lang,
            default_extension(lang),
            content@,
        ),
        grammar_spec(lang, default_extension(lang)) is None ==> fallback_spec(content@, lang, r),
{
    let default_ext = match lang {
        Language::Java => "java",
        Language::Kotlin => "kt",
        Language::CSharp => "cs",
        Language::JsTs => "js",
        _ => "",
    };
    proof {
        reveal_strlit("java");
        reveal_strlit("kt");
        reveal_strlit("cs");
        reveal_strlit("js");
        reveal_strlit("");
    }
    match analyse(content, lang, default_ext) {
        Some(m) => m,
        None => crate::metrics::complexity::fallback::analyse_content(content, lang),
    }
}

/// The single-parse analysis of a file agrees with the separate entry
/// points on the metrics (`analyse_file`) and the imports
/// (`extract_file_imports`): the metrics of a file are one value, and so
/// are its import paths.
pub proof fn lemma_single_parse_metrics_and_imports_agree(
    path: Seq<char>,
    content: Seq<char>,
    a: SourceAnalysis,
    m: FileComplexity,
    imports: Seq<String>,
)
    requires
        file_metrics(path, content, a.metrics),
        string_views(a.imports@) == file_imports_spec(path_language(path), extension(path), content),
        file_metrics(path, content, m),
        string_views(imports) == file_imports_spec(path_language(path), extension(path), content),
    ensures
        a.metrics == m,
        string_views(a.imports@) == string_views(imports),
{
}

} // verus!
