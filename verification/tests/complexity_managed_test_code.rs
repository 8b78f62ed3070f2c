use barad_dur::metrics::complexity::fallback::Language;
use barad_dur::metrics::complexity::managed_test_code::managed_test_ranges;
use barad_dur::metrics::complexity::syntax::SyntaxTree;
use barad_dur::metrics::complexity::ts::{parse_source, Grammar};

fn grammar(lang: Language) -> Grammar {
    match lang {
        Language::Java => Grammar::Java,
        Language::CSharp => Grammar::CSharp,
        _ => unreachable!(),
    }
}

fn node_text(tree: &SyntaxTree, n: usize) -> String {
    let node = &tree.nodes[n];
    tree.text[node.start..node.end].iter().collect()
}

fn field(tree: &SyntaxTree, n: usize, name: &str) -> Option<usize> {
    tree.nodes[n]
        .fields
        .iter()
        .find(|(f, _)| f == name)
        .map(|(_, c)| *c)
}

fn has_error(tree: &SyntaxTree) -> bool {
    tree.nodes[0].has_error
}

fn classified(source: &str, lang: Language, expected: &[(&str, bool)]) {
    let tree = parse_source(source, grammar(lang)).expect("parse");
    assert!(!has_error(&tree), "{source}");
    let evidence = managed_test_ranges(&tree, lang);
    let functions: Vec<usize> = (0..tree.nodes.len())
        .filter(|n| tree.nodes[*n].named)
        .filter(|n| {
            matches!(
                tree.nodes[*n].kind.as_str(),
                "method_declaration" | "function_declaration" | "local_function_statement"
            )
        })
        .collect();
    assert!(!functions.is_empty(), "{source}");
    for (name, wanted) in expected {
        let function = *functions
            .iter()
            .find(|n| field(&tree, **n, "name").is_some_and(|c| node_text(&tree, c) == *name))
            .unwrap_or_else(|| panic!("missing {name}"));
        let node = &tree.nodes[function];
        let actual = evidence
            .iter()
            .any(|r| r.start <= node.start && r.end >= node.end);
        assert_eq!(actual, *wanted, "{name}: {source}");
    }
}

#[test]
fn java_method_evidence_is_not_class_evidence() {
    classified(
        "import org.junit.Test; class C { @Test void yes() {} void no() {} }",
        Language::Java,
        &[("yes", true), ("no", false)],
    );
    classified(
        "class C { @org.junit.jupiter.api.Test void yes() {} void no() {} }",
        Language::Java,
        &[("yes", true), ("no", false)],
    );
}

#[test]
fn java_class_markers_and_direct_bases_include_helpers() {
    for prefix in [
        "@org.junit.jupiter.api.Nested class C",
        "@org.testng.annotations.Test class C",
        "class C extends junit.framework.TestCase",
    ] {
        classified(
            &format!("{prefix} {{ void helper() {{}} }} class P {{ void production() {{}} }}"),
            Language::Java,
            &[("helper", true), ("production", false)],
        );
    }
    classified("import junit.framework.TestCase; class C extends TestCase { void helper() {} } class D extends C { void production() {} }", Language::Java, &[("helper",true),("production",false)]);
}

#[test]
fn java_wildcards_lookalikes_conflicts_and_lexical_shadowing_are_not_evidence() {
    for source in [
        "import org.junit.*; class C { @Test void no() {} }",
        "class C { @Test void no() {} }",
        "import org.junit.Test; import other.Test; class C { @Test void no() {} }",
        "import org.junit.Test; class C { @interface Test {} @Test void no() {} }",
        "class C { String text = \"@org.junit.Test\"; /* @org.junit.Test */ void no() {} }",
        "@org.junit.Test class C { void no() {} }",
    ] {
        classified(source, Language::Java, &[("no", false)]);
    }
    classified("import org.junit.Test; class C { @interface Test {} @Test void no() {} } class D { @Test void yes() {} }", Language::Java, &[("no",false),("yes",true)]);
}

#[test]
fn csharp_namespace_alias_and_type_alias_resolve_methods_only() {
    for prefix in [
        "using Xunit;",
        "using F = Xunit.FactAttribute;",
        "using X = Xunit;",
    ] {
        let attr = if prefix.contains("F =") {
            "F"
        } else if prefix.contains("X =") {
            "X.Fact"
        } else {
            "FactAttribute"
        };
        classified(
            &format!("{prefix} class C {{ [{attr}] void yes() {{}} void no() {{}} }}"),
            Language::CSharp,
            &[("yes", true), ("no", false)],
        );
    }
    classified(
        "class C { [global::Xunit.Theory] void yes() {} void no() {} }",
        Language::CSharp,
        &[("yes", true), ("no", false)],
    );
}

#[test]
fn csharp_class_evidence_and_namespace_scoping() {
    classified("namespace A { using NUnit.Framework; [TestFixture] class C { void helper() {} } } namespace B { class C { [Test] void no() {} } }", Language::CSharp, &[("helper",true),("no",false)]);
    classified("using M = Microsoft.VisualStudio.TestTools.UnitTesting; [M.TestClassAttribute] class C { void helper() {} } class P { void no() {} }", Language::CSharp, &[("helper",true),("no",false)]);
}

#[test]
fn csharp_local_attributes_and_conflicting_aliases_are_not_evidence() {
    for source in [
        "using Xunit; class FactAttribute {} class C { [Fact] void no() {} }",
        "using F = Xunit.FactAttribute; using F = Other.FactAttribute; class C { [F] void no() {} }",
        "using NUnit.Framework; using Other; class C { [Other.Test] void no() {} }",
        "class C { [Fact] void no() {} }",
        "[Xunit.Fact] class C { void no() {} }",
        "class C { string s = \"[Xunit.Fact]\"; /* [Xunit.Fact] */ void no() {} }",
    ] {
        classified(source, Language::CSharp, &[("no", false)]);
    }
    classified("using Xunit; class C { class FactAttribute {} [Fact] void no() {} } class D { [Fact] void yes() {} }", Language::CSharp, &[("no",false),("yes",true)]);
}

#[test]
fn lifecycle_and_parameterized_markers_are_attached_to_methods() {
    for marker in [
        "org.junit.BeforeClass",
        "org.junit.jupiter.api.TestTemplate",
        "org.junit.jupiter.params.ParameterizedTest",
        "org.testng.annotations.BeforeGroups",
    ] {
        classified(
            &format!("class C {{ @{marker} void yes() {{}} void no() {{}} }}"),
            Language::Java,
            &[("yes", true), ("no", false)],
        );
    }
    for marker in [
        "NUnit.Framework.TestCaseSourceAttribute",
        "NUnit.Framework.OneTimeTearDown",
        "Microsoft.VisualStudio.TestTools.UnitTesting.DataTestMethod",
        "Microsoft.VisualStudio.TestTools.UnitTesting.AssemblyInitializeAttribute",
        "Xunit.TheoryAttribute",
    ] {
        classified(
            &format!("class C {{ [{marker}] void yes() {{}} void no() {{}} }}"),
            Language::CSharp,
            &[("yes", true), ("no", false)],
        );
    }
}

#[test]
fn malformed_annotations_do_not_create_evidence() {
    for (language, source) in [
        (Language::Java, "class C { @org.junit.Test( void no() {} }"),
        (Language::CSharp, "class C { [Xunit.Fact( void no() {} }"),
    ] {
        let tree = parse_source(source, grammar(language)).expect("parse");
        assert!(has_error(&tree));
        assert!(managed_test_ranges(&tree, language).is_empty());
    }
}

#[test]
fn generic_parameter_shadows_are_limited_to_their_declaration() {
    classified(
        "import org.junit.Test; class C<Test> { @Test void no() {} } class D { @Test void yes() {} }",
        Language::Java,
        &[("no", false), ("yes", true)],
    );
    classified(
        "using Xunit; class C<Fact> { [Fact] void no() {} } class D { [Fact] void yes() {} }",
        Language::CSharp,
        &[("no", false), ("yes", true)],
    );
    classified(
        "import org.junit.Test; class C { <Test> void generic() {} @Test void yes() {} }",
        Language::Java,
        &[("yes", true)],
    );
}

#[test]
fn kotlin_test_markers_do_not_establish_java_framework_evidence() {
    for marker in ["Test", "BeforeTest", "AfterTest"] {
        classified(
            &format!("class C {{ @kotlin.test.{marker} void no() {{}} }}"),
            Language::Java,
            &[("no", false)],
        );
    }
}

#[test]
fn targeted_attributes_and_annotations_do_not_mark_method_bodies() {
    classified(
        "class C { [return: Xunit.Fact] void no() {} [Xunit.Fact] void yes() {} }",
        Language::CSharp,
        &[("no", false), ("yes", true)],
    );
}

#[test]
fn errors_in_method_bodies_and_enclosing_parse_nodes_reject_markers() {
    for (language, source) in [
        (Language::Java, "class C { @org.junit.Test void no() { broken ???; } }"),
        (Language::Java, "class C { @org.junit.Test void no() {} ???"),
        (Language::CSharp, "class C { [Xunit.Fact] void no() {}"),
    ] {
        let tree = parse_source(source, grammar(language)).expect("parse");
        assert!(has_error(&tree));
        assert!(managed_test_ranges(&tree, language).is_empty(), "{source}");
    }
}

#[test]
fn a_marked_method_yields_its_own_character_range() {
    let source = "class C { @org.junit.Test void t() {} }";
    let tree = parse_source(source, Grammar::Java).expect("parse");
    let ranges = managed_test_ranges(&tree, Language::Java);
    assert_eq!(ranges.len(), 1);
    assert_eq!(source[ranges[0].clone()].to_string(), "@org.junit.Test void t() {}");
}
