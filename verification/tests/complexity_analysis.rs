use barad_dur::metrics::complexity::calls::extract_call_edges;
use barad_dur::metrics::complexity::fallback::Language;
use barad_dur::metrics::complexity::inheritance::extract_class_records;
use barad_dur::metrics::complexity::pressman::extract_coupling_findings;
use barad_dur::metrics::complexity::{
    analyse_content, analyse_file, analyse_source, extract_file_imports,
};

#[test]
fn analyse_source_matches_the_five_individual_extractions() {
    let content = "import { Base } from './base';\n\
                   export class Derived extends Base {}\n\
                   export function run(flag: boolean) {\n\
                     if (flag) {\n\
                       return check(flag);\n\
                     }\n\
                     return 2;\n\
                   }\n";
    let path = "src/derived.ts";

    let combined = analyse_source(path, content);

    assert_eq!(combined.metrics, analyse_file(path, content));
    assert_eq!(combined.imports, extract_file_imports(path, content));
    assert_eq!(
        combined.coupling_findings,
        extract_coupling_findings(path, content)
    );
    assert_eq!(combined.class_records, extract_class_records(path, content));
    assert_eq!(combined.call_edges, extract_call_edges(path, content));
    // The sample must actually exercise every channel.
    assert!(!combined.imports.is_empty());
    assert!(!combined.coupling_findings.is_empty());
    assert!(!combined.class_records.is_empty());
    assert!(!combined.call_edges.is_empty());
}

#[test]
fn analyse_source_unsupported_language_falls_back() {
    let combined = analyse_source("data.xyz", "some content\nmore\n");
    assert_eq!(combined.metrics.total_lines, 2);
    assert!(combined.imports.is_empty());
    assert!(combined.coupling_findings.is_empty());
    assert!(combined.class_records.is_empty());
}

#[test]
fn analyse_file_uses_treesitter_for_rust() {
    let content = "pub fn foo() {}\nfn bar() {}\n";
    let result = analyse_file("test.rs", content);
    assert_eq!(result.public_methods, 1);
}

#[test]
fn analyse_content_generic_uses_fallback() {
    let content = "if x { } for y { }";
    let result = analyse_content(content, Language::Generic);
    assert!(result.total_lines > 0);
}

#[test]
fn analyse_file_unknown_extension_uses_fallback() {
    let content = "some content\nmore content\n";
    let result = analyse_file("data.xyz", content);
    assert_eq!(result.total_lines, 2);
}

#[test]
fn kotlin_falls_back_to_line_based() {
    let content = "fun main() {\n    if (true) {}\n}\n";
    let result = analyse_file("app.kt", content);
    assert!(result.total_lines > 0);
}

// Kill mutants: analyse_content match arms for each Language variant
#[test]
fn analyse_content_java_uses_treesitter() {
    let content = "class Foo {\n  public void bar() {}\n  private void baz() {}\n}\n";
    let result = analyse_content(content, Language::Java);
    assert_eq!(result.public_methods, 1);
}

#[test]
fn analyse_content_csharp_uses_treesitter() {
    let content = "class Foo {\n  public void Bar() {}\n  private void Baz() {}\n}\n";
    let result = analyse_content(content, Language::CSharp);
    assert_eq!(result.public_methods, 1);
}

#[test]
fn analyse_content_jsts_uses_treesitter() {
    let content = "export function foo() {}\nfunction bar() {}\n";
    let result = analyse_content(content, Language::JsTs);
    assert_eq!(result.public_methods, 1);
}

#[test]
fn analyse_content_kotlin_falls_back() {
    let content = "fun foo() {}\nprivate fun bar() {}\n";
    let result = analyse_content(content, Language::Kotlin);
    assert_eq!(result.total_lines, 2);
}


fn nested(open: &str, close: &str, depth: usize) -> String {
    format!("{}1{}", open.repeat(depth), close.repeat(depth))
}

#[test]
fn deeply_nested_javascript_is_analysed_on_a_test_thread_stack() {
    let body = nested("[", "]", 5_000);
    let source = format!("function f() {{ return {body}; }}\n");
    let combined = analyse_source("src/deep.js", &source);
    assert_eq!(combined.metrics.total_lines, 1);
    assert!(combined.call_edges.is_empty());
}

#[test]
fn deeply_nested_javascript_assignment_target_is_analysed() {
    let target = nested("[", "]", 5_000).replace('1', "x");
    let source = format!("function f(y) {{ let x; {target} = y; g(x); }}\n");
    let combined = analyse_source("src/deep_target.js", &source);
    assert_eq!(combined.call_edges.len(), 1);
    assert_eq!(combined.call_edges[0].caller, "f");
}

#[test]
fn deeply_nested_call_chain_is_analysed() {
    let chain = ".b()".repeat(5_000);
    let source = format!("function f() {{ a(){chain}; }}\n");
    let combined = analyse_source("src/chain.js", &source);
    assert_eq!(combined.metrics.total_lines, 1);
    assert!(!combined.call_edges.is_empty());
}

#[test]
fn deeply_nested_python_is_analysed() {
    let target = nested("[", "]", 10_000).replace('1', "x");
    let source = format!("def f(y):\n    {target} = y\n");
    let combined = analyse_source("src/deep_target.py", &source);
    assert_eq!(combined.metrics.total_lines, 2);
}

#[test]
fn deeply_nested_declaration_pattern_is_analysed() {
    let pattern = nested("[", "]", 5_000).replace('1', "x");
    let source = format!("function f(y) {{ let {pattern} = y; g(x); }}\n");
    let combined = analyse_source("src/deep_pattern.js", &source);
    assert_eq!(combined.call_edges.len(), 1);
    assert_eq!(combined.call_edges[0].caller, "f");
}

#[test]
fn deeply_nested_rust_use_tree_is_analysed() {
    let mut tree = String::from("c");
    for i in 0..2_000 {
        tree = format!("m{i}::{{{tree}}}");
    }
    let source = format!("use crate::{tree};\nfn f() {{ c(); }}\n");
    let combined = analyse_source("src/deep_use.rs", &source);
    assert_eq!(combined.metrics.total_lines, 2);
}
