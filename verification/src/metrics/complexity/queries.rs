//! The tree-sitter queries the metrics run, per language.
use vstd::prelude::*;

verus! {

pub const RUST_COMPLEXITY: &'static str = r#"[
  (if_expression)
  (for_expression)
  (while_expression)
  (loop_expression)
  (match_expression)
] @cc"#;

pub const RUST_COMPLEXITY_OPERATORS: &'static str = r#"(binary_expression operator: ["&&" "||"]) @cc"#;

pub const RUST_PUBLIC_METHODS: &'static str = r#"(function_item (visibility_modifier) @vis name: (identifier) @name)"#;

pub const RUST_PROPERTIES: &'static str = r#"(field_declaration (visibility_modifier) @vis)"#;

pub const RUST_COMMENTS: &'static str = r#"[(line_comment) (block_comment)] @comment"#;

pub const RUST_FUNCTIONS: &'static str = r#"(function_item name: (identifier) @name) @func"#;

pub const RUST_NESTING: &'static str = r#"[
  (if_expression)
  (for_expression)
  (while_expression)
  (loop_expression)
  (match_expression)
] @nest"#;

pub const JS_COMPLEXITY: &'static str = r#"[
  (if_statement)
  (for_statement)
  (for_in_statement)
  (while_statement)
  (do_statement)
  (switch_statement)
  (catch_clause)
  (ternary_expression)
] @cc"#;

pub const JS_COMPLEXITY_OPERATORS: &'static str = r#"(binary_expression operator: ["&&" "||" "??"]) @cc"#;

pub const JS_PUBLIC_METHODS: &'static str = r#"(export_statement
  declaration: [
    (function_declaration)
    (lexical_declaration)
  ]
) @pub_method"#;

pub const JS_PROPERTIES: &'static str = r#"(field_definition) @prop"#;

pub const JS_COMMENTS: &'static str = r#"(comment) @comment"#;

pub const JS_FUNCTIONS: &'static str = r#"[
  (function_declaration name: (identifier) @name)
  (method_definition name: (property_identifier) @name)
] @func"#;

pub const JS_NESTING: &'static str = r#"[
  (if_statement)
  (for_statement)
  (for_in_statement)
  (while_statement)
  (do_statement)
  (switch_statement)
] @nest"#;

pub const TS_PUBLIC_METHODS: &'static str = r#"(export_statement
  declaration: [
    (function_declaration)
    (lexical_declaration)
  ]
) @pub_method"#;

pub const TS_PROPERTIES: &'static str = r#"[
  (public_field_definition)
  (property_signature)
] @prop"#;

pub const PYTHON_COMPLEXITY: &'static str = r#"[
  (if_statement)
  (elif_clause)
  (for_statement)
  (while_statement)
  (except_clause)
  (boolean_operator)
  (conditional_expression)
] @cc"#;

pub const PYTHON_PUBLIC_METHODS: &'static str = r#"(function_definition name: (identifier) @name)"#;

pub const PYTHON_COMMENTS: &'static str = r#"(comment) @comment"#;

pub const PYTHON_FUNCTIONS: &'static str = r#"(function_definition name: (identifier) @name) @func"#;

pub const PYTHON_NESTING: &'static str = r#"[
  (if_statement)
  (for_statement)
  (while_statement)
  (with_statement)
] @nest"#;

pub const GO_COMPLEXITY: &'static str = r#"[
  (if_statement)
  (for_statement)
  (expression_switch_statement)
  (type_switch_statement)
] @cc"#;

pub const GO_COMPLEXITY_OPERATORS: &'static str = r#"(binary_expression operator: ["&&" "||"]) @cc"#;

pub const GO_PUBLIC_METHODS: &'static str = r#"[
  (function_declaration name: (identifier) @name)
  (method_declaration name: (field_identifier) @name)
]"#;

pub const GO_PROPERTIES: &'static str = r#"(field_declaration name: (field_identifier) @name)"#;

pub const GO_COMMENTS: &'static str = r#"(comment) @comment"#;

pub const GO_FUNCTIONS: &'static str = r#"[
  (function_declaration name: (identifier) @name)
  (method_declaration name: (field_identifier) @name)
] @func"#;

pub const GO_NESTING: &'static str = r#"[
  (if_statement)
  (for_statement)
  (expression_switch_statement)
  (type_switch_statement)
] @nest"#;

pub const JAVA_COMPLEXITY: &'static str = r#"[
  (if_statement)
  (for_statement)
  (enhanced_for_statement)
  (while_statement)
  (do_statement)
  (switch_expression)
  (catch_clause)
  (ternary_expression)
] @cc"#;

pub const JAVA_COMPLEXITY_OPERATORS: &'static str = r#"(binary_expression operator: ["&&" "||"]) @cc"#;

pub const JAVA_PUBLIC_METHODS: &'static str = r#"(method_declaration (modifiers) @mods name: (identifier) @name)"#;

pub const JAVA_PROPERTIES: &'static str = r#"(field_declaration (modifiers) @mods)"#;

pub const JAVA_COMMENTS: &'static str = r#"[(line_comment) (block_comment)] @comment"#;

pub const JAVA_FUNCTIONS: &'static str = r#"(method_declaration name: (identifier) @name) @func"#;

pub const JAVA_NESTING: &'static str = r#"[
  (if_statement)
  (for_statement)
  (enhanced_for_statement)
  (while_statement)
  (do_statement)
  (switch_expression)
] @nest"#;

pub const CSHARP_COMPLEXITY: &'static str = r#"[
  (if_statement)
  (for_statement)
  (foreach_statement)
  (while_statement)
  (do_statement)
  (switch_expression)
  (catch_clause)
  (conditional_expression)
] @cc"#;

pub const CSHARP_COMPLEXITY_OPERATORS: &'static str = r#"(binary_expression operator: ["&&" "||"]) @cc"#;

pub const CSHARP_PUBLIC_METHODS: &'static str = r#"(method_declaration (modifier) @mod name: (identifier) @name)"#;

pub const CSHARP_PROPERTIES: &'static str = r#"(field_declaration (modifier) @mod)"#;

pub const CSHARP_COMMENTS: &'static str = r#"(comment) @comment"#;

pub const CSHARP_FUNCTIONS: &'static str = r#"(method_declaration name: (identifier) @name) @func"#;

pub const CSHARP_NESTING: &'static str = r#"[
  (if_statement)
  (for_statement)
  (foreach_statement)
  (while_statement)
  (do_statement)
  (switch_statement)
] @nest"#;

pub const RUST_IMPORTS: &'static str = r#"(use_declaration argument: (_) @path)"#;

pub const JS_IMPORTS: &'static str = r#"[
  (import_statement source: (string) @path)
  (call_expression
    function: (identifier) @fn
    arguments: (arguments (string) @path)
    (#eq? @fn "require"))
] "#;

pub const PYTHON_IMPORTS: &'static str = r#"[
  (import_statement name: (dotted_name) @path)
  (import_from_statement module_name: (dotted_name) @path)
]"#;

pub const GO_IMPORTS: &'static str = r#"(import_spec path: (interpreted_string_literal) @path)"#;

pub const JAVA_IMPORTS: &'static str = r#"(import_declaration (scoped_identifier) @path)"#;

pub const CSHARP_IMPORTS: &'static str = r#"(using_directive (_) @path)"#;

} // verus!
