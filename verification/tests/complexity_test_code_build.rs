use barad_dur::metrics::complexity::fallback::Language;
use barad_dur::metrics::complexity::php_test_code::php_test_ranges;
use barad_dur::metrics::complexity::syntax::{SyntaxNode, SyntaxTree};
use barad_dur::metrics::complexity::test_context::TestContext;
use barad_dur::metrics::complexity::ts::{parse_source, Grammar};

fn node(
    kind: &str,
    start: usize,
    end: usize,
    parent: Option<usize>,
    children: Vec<usize>,
    fields: Vec<(&str, usize)>,
    subtree_end: usize,
) -> SyntaxNode {
    SyntaxNode {
        kind: kind.to_string(),
        named: true,
        has_error: false,
        start,
        end,
        row: 0,
        parent,
        children,
        fields: fields.into_iter().map(|(f, c)| (f.to_string(), c)).collect(),
        subtree_end,
    }
}

/// `<?php class A extends \PHPUnit\Framework\TestCase {}`, as a PHP parser
/// shapes it.
fn php_test_case(base: &str) -> SyntaxTree {
    let text = format!("<?php class A extends {base} {{}}");
    let chars: Vec<char> = text.chars().collect();
    let len = chars.len();
    let base_start = 22;
    let base_end = base_start + base.chars().count();
    SyntaxTree {
        text: chars,
        nodes: vec![
            node("program", 0, len, None, vec![1], vec![], 6),
            node("class_declaration", 6, len, Some(0), vec![2, 3, 5], vec![("name", 2), ("body", 5)], 6),
            node("name", 12, 13, Some(1), vec![], vec![], 3),
            node("base_clause", 14, base_end, Some(1), vec![4], vec![], 5),
            node("qualified_name", base_start, base_end, Some(3), vec![], vec![], 5),
            node("declaration_list", len - 2, len, Some(1), vec![], vec![], 6),
        ],
    }
}

#[test]
fn a_php_class_extending_the_phpunit_test_case_is_test_code() {
    let tree = php_test_case("\\PHPUnit\\Framework\\TestCase");
    let ranges = php_test_ranges(&tree);
    assert_eq!(ranges.len(), 1);
    let found: String = tree.text[ranges[0].clone()].iter().collect();
    assert!(found.starts_with("class A extends"));
}

#[test]
fn a_php_class_extending_another_base_is_not_test_code() {
    let tree = php_test_case("\\Vendor\\TestCase");
    assert!(php_test_ranges(&tree).is_empty());
}

#[test]
fn a_test_file_is_test_code_as_a_whole() {
    let source = "package sample\nfunc TestRender() {}\n";
    let tree = parse_source(source, Grammar::Go).expect("parse");
    let whole = TestContext::build(&tree, Language::Go, true);
    assert!(whole.contains(0..source.len()));
    let production = TestContext::build(&tree, Language::Go, false);
    assert!(!production.contains(15..35));
}

#[test]
fn the_language_rules_decide_outside_test_files() {
    let source = "fn a() {}\n#[test]\nfn b() {}\n";
    let tree = parse_source(source, Grammar::Rust).expect("parse");
    let context = TestContext::build(&tree, Language::Rust, false);
    assert!(context.contains(18..27));
    assert!(!context.contains(0..9));
}
