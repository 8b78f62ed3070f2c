use barad_dur::metrics::complexity::python_test_code::python_test_ranges;
use barad_dur::metrics::complexity::ts::{parse_source, Grammar};

/// The text of each piece of test code the file holds, in order.
fn detected(source: &str) -> Vec<String> {
    let tree = parse_source(source, Grammar::Python).expect("parse");
    let chars: Vec<char> = source.chars().collect();
    python_test_ranges(&tree)
        .into_iter()
        .map(|range| chars[range].iter().collect())
        .collect()
}

#[test]
fn a_decorated_redefinition_invalidates_an_imported_decorator() {
    let source = "from pytest import fixture\n@decorate\ndef fixture(): pass\n@fixture\ndef helper(): pass\n";
    assert!(detected(source).is_empty());
}

#[test]
fn resolves_unittest_direct_module_and_alias_bases() {
    let source = "import unittest\nimport unittest as ut\nfrom unittest import TestCase as Case\nclass A(unittest.TestCase):\n def helper(self): pass\nclass B(ut.TestCase):\n def test_b(self): pass\nclass C(Case):\n def test_c(self): pass\ndef production(): pass\n";
    let found = detected(source);
    assert_eq!(found.len(), 3);
    assert!(found.iter().all(|scope| scope.starts_with("class ")));
}

#[test]
fn recognizes_only_documented_pytest_decorators_and_keeps_method_scope() {
    let source = "import pytest as pt\nfrom pytest import fixture as fx\n@fx\ndef setup():\n def nested(): pass\n@pt.mark.parametrize('x', [1])\ndef case(x): pass\nclass Mixed:\n @pt.mark.skip(reason='x')\n def marked(self): pass\n def sibling(self): pass\ndef test_name_only(): pass\n";
    let found = detected(source);
    assert_eq!(found.len(), 3);
    assert!(found.iter().any(|scope| scope.contains("def nested")));
    assert!(found.iter().any(|scope| scope.contains("def marked")));
    assert!(!found.iter().any(|scope| scope.contains("sibling")));
}

#[test]
fn rejects_shadowed_conflicting_wildcard_and_lookalike_evidence() {
    let source = "import pytest as p\np = object()\nfrom pytest import *\nfrom fake import fixture\n@p.fixture\ndef shadowed(): pass\n@fixture\ndef wildcard_or_fake(): pass\n# @pytest.fixture\ndef comment(): pass\nTEXT = '@pytest.fixture\\ndef stringed(): pass'\n";
    assert!(detected(source).is_empty());
}

#[test]
fn a_marked_class_does_not_classify_its_sibling_methods() {
    let source = "import pytest\n@pytest.mark.usefixtures('db')\nclass Marked:\n def helper(self): pass\n";
    assert!(detected(source).is_empty());
}

#[test]
fn malformed_decorator_does_not_trigger() {
    assert!(
        detected("import pytest\n@pytest.mark.parametrize(\ndef broken(): pass\n").is_empty()
    );
}

#[test]
fn parameters_shadow_provider_bindings_without_treating_annotations_as_bindings() {
    let source = "import pytest\ndef outer(pytest, typed: pytest, *args, **kwargs):\n @pytest.fixture\n def shadowed(): pass\ndef annotated(value: pytest):\n @pytest.fixture\n def still_resolved(): pass\n";
    let found = detected(source);
    assert_eq!(found.len(), 1);
    assert!(found[0].contains("still_resolved"));
}

#[test]
fn foreign_imports_invalidate_decorator_and_base_aliases() {
    let source = "from pytest import fixture as mark\nfrom fake import other as mark\nfrom unittest import TestCase as Base\nfrom fake import Base\n@mark\ndef case(): pass\nclass C(Base):\n def helper(self): pass\n";
    assert!(detected(source).is_empty());
}

#[test]
fn foreign_module_and_namespace_imports_invalidate_provider_aliases() {
    let source = "import pytest as provider\nimport fake as provider\nfrom pytest import mark as markers\nfrom fake import markers\n@provider.fixture\ndef first(): pass\n@markers.skip\ndef second(): pass\n";
    assert!(detected(source).is_empty());
}
#[test]
fn control_flow_bindings_shadow_the_entire_enclosing_scope() {
    for statement in [
        "if flag:\n  pytest = fake",
        "for pytest in providers:\n  pass",
        "while flag:\n  import fake as pytest",
        "with provider() as pytest:\n  pass",
        "try:\n  pass\n except Error as pytest:\n  pass",
        "if (pytest := fake):\n  pass",
    ] {
        let source = format!("import pytest\ndef outer():\n {statement}\n @pytest.fixture\n def subject(): pass\n");
        assert!(detected(&source).is_empty(), "{source}");
    }
}

#[test]
fn declarations_before_imports_remain_conflicting() {
    for declaration in ["pytest = fake", "def pytest(): pass", "class pytest: pass"] {
        let source =
            format!("{declaration}\nimport pytest\n@pytest.fixture\ndef subject(): pass\n");
        assert!(detected(&source).is_empty(), "{source}");
    }
}

#[test]
fn class_bases_resolve_outside_the_class_body() {
    let source = "import unittest\nclass Fixture(unittest.TestCase):\n unittest = object()\n def helper(self): pass\n";
    let found = detected(source);
    assert_eq!(found.len(), 1);
    assert!(found[0].contains("helper"));
}
#[test]
fn class_bindings_apply_to_decorators_but_do_not_enclose_method_bodies() {
    let source = "import pytest\nclass Fixture:\n import pytest as class_only\n pytest = fake\n @class_only.fixture\n def marked(self): pass\n def method(self):\n  @class_only.fixture\n  def unavailable(): pass\n  @pytest.fixture\n  def module_provider(): pass\n";
    let found = detected(source);
    assert_eq!(found.len(), 2);
    assert!(found.iter().any(|scope| scope.contains("def marked")));
    assert!(found
        .iter()
        .any(|scope| scope.contains("def module_provider")));
    assert!(!found.iter().any(|scope| scope.contains("unavailable")));
}
#[test]
fn lambda_local_bindings_do_not_shadow_the_surrounding_scope() {
    let source =
        "import pytest\nfn = lambda: (pytest := fake)\n@pytest.fixture\ndef subject(): pass\n";
    let found = detected(source);
    assert_eq!(found.len(), 1);
    assert!(found[0].contains("subject"));
}
#[test]
fn nested_class_body_skips_outer_class_bindings_but_its_base_can_use_them() {
    let source = "class Outer:\n import pytest as local\n from unittest import TestCase as Base\n class Inner:\n  @local.fixture\n  def unavailable(self): pass\n class Fixture(Base):\n  def helper(self): pass\n";
    let found = detected(source);
    assert_eq!(found.len(), 1);
    assert!(found[0].starts_with("class Fixture"));
}
#[test]
fn every_parameter_binding_form_shadows_provider_names() {
    for parameter in [
        "pytest=None",
        "pytest: object=None",
        "pytest: object",
        "*pytest",
        "**pytest",
        "*pytest: object",
        "**pytest: object",
    ] {
        let source = format!(
            "import pytest\ndef outer({parameter}):\n @pytest.fixture\n def subject(): pass\n"
        );
        assert!(detected(&source).is_empty(), "{source}");
    }
    for parameter in [
        "value: pytest",
        "value: pytest=None",
        "*values: pytest",
        "**values: pytest",
    ] {
        let source = format!(
            "import pytest\ndef outer({parameter}):\n @pytest.fixture\n def subject(): pass\n"
        );
        let found = detected(&source);
        assert_eq!(found.len(), 1, "{source}");
        assert!(found[0].contains("def subject"));
    }
}
#[test]
fn repeated_and_dotted_imports_preserve_the_bound_root_namespace() {
    let source = "import pytest\nimport pytest\nimport unittest.case\nimport unittest.case\n@pytest.fixture\ndef subject(): pass\nclass Fixture(unittest.TestCase):\n def helper(self): pass\n";
    let found = detected(source);
    assert_eq!(found.len(), 2);
    assert!(found.iter().any(|scope| scope.contains("def subject")));
    assert!(found.iter().any(|scope| scope.contains("def helper")));
}

#[test]
fn a_pytest_fixture_yields_the_function_range() {
    let found = detected("import pytest\n@pytest.fixture\ndef db(): pass\n");
    assert_eq!(found, vec!["def db(): pass".to_string()]);
}

#[test]
fn a_file_without_test_code_has_no_ranges() {
    assert!(detected("import os\ndef main(): pass\n").is_empty());
}
