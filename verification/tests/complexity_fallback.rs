use barad_dur::metrics::complexity::fallback::{
    analyse_content, detect_language, is_comment_line, Language,
};

#[test]
fn detects_rust_language() {
    assert!(matches!(detect_language("src/main.rs"), Language::Rust));
    assert!(matches!(detect_language("lib.rs"), Language::Rust));
}

#[test]
fn detects_js_ts() {
    assert!(matches!(detect_language("app.ts"), Language::JsTs));
    assert!(matches!(detect_language("index.jsx"), Language::JsTs));
}

#[test]
fn detects_python() {
    assert!(matches!(detect_language("script.py"), Language::Python));
}

#[test]
fn detects_go() {
    assert!(matches!(detect_language("main.go"), Language::Go));
}

#[test]
fn detects_java() {
    assert!(matches!(detect_language("Foo.java"), Language::Java));
}

#[test]
fn php_attributes_are_code_not_comments() {
    // `#` is a PHP comment, but PHP 8 attributes are `#[...]` — code
    // that happens to start with the legacy comment character. Treating
    // them as comments silently undercounts LOC, which feeds hotspot
    // size scoring. The validation repo has 70 attributes and zero `#`
    // comments, so getting this backwards costs real accuracy.
    assert!(!is_comment_line("#[DataProvider('cases')]", Language::Php));
    assert!(!is_comment_line("#[OA\\Post(path: '/x')]", Language::Php));
    assert!(is_comment_line("# legacy hash comment", Language::Php));
    assert!(is_comment_line("// slash comment", Language::Php));
    assert!(is_comment_line("/* block */", Language::Php));
    assert!(is_comment_line("* continuation", Language::Php));
}

#[test]
fn detects_php() {
    assert_eq!(detect_language("app/Models/User.php"), Language::Php);
}

#[test]
fn detects_kotlin() {
    assert!(matches!(detect_language("Bar.kt"), Language::Kotlin));
    assert!(matches!(detect_language("App.kts"), Language::Kotlin));
}

#[test]
fn detects_csharp() {
    assert!(matches!(detect_language("Baz.cs"), Language::CSharp));
}

#[test]
fn loc_skips_blank_and_comment_lines() {
    let content = "// comment\n\nfn main() {}\n    // indented comment\nlet x = 1;\n";
    let result = analyse_content(content, Language::Rust);
    assert_eq!(result.total_lines, 5);
    assert_eq!(result.loc, 2); // fn main(){} and let x = 1;
}

#[test]
fn generic_content_has_zero_complexity() {
    // Prose and config files hit every keyword pattern by accident —
    // a LICENSE ranked as a complex hotspot. Unknown language ⇒ line
    // counts only.
    let content = "You may copy, modify || distribute this work if and\n\
                   only if you match each case of the conditions while\n\
                   the license terms hold && remain in effect.\n";
    let result = analyse_content(content, Language::Generic);
    assert_eq!(result.cyclomatic_complexity, 0);
    assert_eq!(result.total_lines, 3);
    assert!(result.loc > 0);
}

#[test]
fn cyclomatic_complexity_counts_decision_points() {
    let content = " if x { } else if y { } for i in v { } while z { } match a { _ => {} }";
    let result = analyse_content(content, Language::Rust);
    // if, else if, for, while, match = at least 5
    assert!(result.cyclomatic_complexity >= 5);
}

#[test]
fn public_methods_rust() {
    let content = "pub fn foo() {}\nfn bar() {}\npub fn baz() {}\n";
    let result = analyse_content(content, Language::Rust);
    assert_eq!(result.public_methods, 2);
}

#[test]
fn public_methods_typescript() {
    let content = "export function foo() {}\nfunction bar() {}\nexport const baz = () => {}\n";
    let result = analyse_content(content, Language::JsTs);
    assert_eq!(result.public_methods, 2);
}

#[test]
fn properties_rust_struct_fields() {
    let content = "struct Foo {\n    pub x: i32,\n    pub y: String,\n    z: bool,\n}\n";
    let result = analyse_content(content, Language::Rust);
    assert_eq!(result.properties, 2);
}
