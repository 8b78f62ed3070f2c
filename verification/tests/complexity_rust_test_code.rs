use barad_dur::metrics::complexity::rust_test_code::rust_test_ranges;
use barad_dur::metrics::complexity::syntax::SyntaxTree;
use barad_dur::metrics::complexity::test_context::TestContext;
use barad_dur::metrics::complexity::ts::{parse_source, Grammar};

fn parse_rust(source: &str) -> SyntaxTree {
    parse_source(source, Grammar::Rust).expect("parse")
}

/// Each function item of the file, in source order, with whether it lies
/// wholly inside the file's test code.
fn flags(source: &str) -> Vec<(String, bool)> {
    let tree = parse_rust(source);
    let context = TestContext::from_ranges(rust_test_ranges(&tree));
    let mut out = Vec::new();
    for node in &tree.nodes {
        if node.kind != "function_item" {
            continue;
        }
        let name = node
            .fields
            .iter()
            .find(|(field, _)| field == "name")
            .map(|(_, child)| {
                let n = &tree.nodes[*child];
                tree.text[n.start..n.end].iter().collect::<String>()
            })
            .unwrap_or_default();
        out.push((name, context.contains(node.start..node.end)));
    }
    assert!(!out.is_empty());
    out
}

#[test]
fn attributes_attach_across_comments_and_other_attributes_and_helpers_inherit() {
    assert_eq!(
        flags(
            r#"
            fn render_prod() {}
            #[cfg(test)] // attached to module
            #[allow(dead_code)] mod checks { fn render_helper() {} mod nested { fn build_fixture() {} } }
            #[test] fn validate_case() { fn validate_nested() {} }
            fn validate_separate() {}
        "#
        ),
        vec![
            ("render_prod".into(), false),
            ("render_helper".into(), true),
            ("build_fixture".into(), true),
            ("validate_case".into(), true),
            ("validate_nested".into(), true),
            ("validate_separate".into(), false)
        ]
    );
}

#[test]
fn inner_cfg_applies_to_its_container_only() {
    assert_eq!(
        flags("mod checks { #![cfg(test)] fn helper() {} } fn prod() {}")
            .iter()
            .map(|(_, test)| *test)
            .collect::<Vec<_>>(),
        [true, false]
    );
    assert!(flags("#![cfg(test)] fn helper() {} mod inner { fn fixture() {} }")
        .iter()
        .all(|(_, test)| *test));
}

#[test]
fn imports_and_namespaces_resolve_without_classifying_siblings() {
    let source = "use tokio::{test as check, self as runtime}; use async_std as other; extern crate tokio as rt; #[check] fn a() {} #[runtime::test] fn b() {} #[other::test] fn c() {} #[rt::test] fn d() {} #[tokio::test] fn e() {} #[async_std::test] fn f() {} fn prod() {}";
    assert_eq!(
        flags(source).iter().map(|(_, test)| *test).collect::<Vec<_>>(),
        [true, true, true, true, true, true, false]
    );
}

#[test]
fn shadowed_conflicting_and_wildcard_bindings_are_unknown() {
    for source in [
        "use other::test; #[test] fn prod() {}",
        "mod tokio {} #[tokio::test] fn prod() {}",
        "use tokio::test as check; use other::test as check; #[check] fn prod() {}",
        "use tokio::*; #[check] fn prod() {}",
        "use tokio::test as check; mod child { #[check] fn prod() {} }",
        "fn outer(tokio: usize) { #[tokio::test] fn prod() {} }",
        "use tokio::test as check; fn outer() { let check = 2; #[check] fn prod() {} }",
    ] {
        assert!(flags(source).iter().all(|(_, test)| !test), "{source}");
    }
}

#[test]
fn unsupported_and_lookalike_evidence_does_not_leak() {
    for source in [
        "#[cfg(any(test, unix))] fn prod() {}",
        "#[cfg(all(test, unix))] fn prod() {}",
        "#[cfg(not(test))] fn prod() {}",
        "#[cfg_attr(test, test)] fn prod() {}",
        "#[testing] fn prod() {}",
        "#[test()] fn prod() {}",
        "#[test] struct Foo; fn prod() {}",
        "#[test] mod checks { fn prod() {} }",
        "#[cfg(test)] use foo::bar; fn prod() {}",
        "mod tests { fn test_prod() {} }",
        "// #[test]\nfn prod() { let s = \"#[cfg(test)]\"; }",
        "#[cfg(test,)] fn prod() {}",
        "#![allow(dead_code)] fn prod() {}",
        "mod checks { #![cfg(not(test))] fn prod() {} }",
    ] {
        assert!(flags(source).iter().all(|(_, test)| !test), "{source}");
    }
}

#[test]
fn function_value_names_do_not_shadow_attributes_but_local_types_do() {
    for source in ["#[test] fn test() {}", "use tokio::test; #[test] fn test() {}"] {
        assert_eq!(flags(source), [("test".into(), true)], "{source}");
    }
    for source in [
        "trait tokio {} #[tokio::test] fn prod() {}",
        "union tokio { x: u32 } #[tokio::test] fn prod() {}",
    ] {
        assert_eq!(flags(source), [("prod".into(), false)], "{source}");
    }
}

#[test]
fn malformed_imports_do_not_supply_runtime_attributes() {
    for source in [
        "use tokio::test as check = x; #[check] fn prod() {}",
        "extern crate tokio as rt = x; #[rt::test] fn prod() {}",
    ] {
        let tree = parse_rust(source);
        let declaration = tree.nodes[0]
            .children
            .iter()
            .copied()
            .find(|c| tree.nodes[*c].named)
            .unwrap();
        assert!(tree.nodes[declaration].has_error, "{source}");
        assert_eq!(flags(source), [("prod".into(), false)], "{source}");
    }
}

#[test]
fn test_ranges_are_character_ranges_of_the_marked_nodes() {
    let source = "fn a() {}\n#[test]\nfn b() {}\n";
    let tree = parse_rust(source);
    let ranges = rust_test_ranges(&tree);
    assert_eq!(ranges, vec![18..27]);
    assert_eq!(source[18..27].to_string(), "fn b() {}");
}

#[test]
fn a_file_without_tests_has_no_test_ranges() {
    let tree = parse_rust("use std::fmt; fn main() { let x = 1; }");
    assert!(rust_test_ranges(&tree).is_empty());
}
