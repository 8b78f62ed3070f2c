use barad_dur::metrics::complexity::pressman::{
    extract_coupling_findings, CouplingFinding, CouplingKind,
};

fn findings_for(name: &str, content: &str) -> Vec<CouplingFinding> {
    extract_coupling_findings(name, content)
}

// ── Rust common coupling ───────────────────────────────────────

#[test]
fn rust_static_mut_is_common_coupling() {
    let f = findings_for("src/a.rs", "static mut CACHE: usize = 0;\n");
    assert_eq!(f.len(), 1);
    assert_eq!(f[0].kind, CouplingKind::Common);
    assert_eq!(f[0].line, Some(1));
    assert!(f[0].evidence.contains("static mut CACHE"));
}

#[test]
fn rust_static_mutex_is_common_coupling() {
    let src =
        "use std::sync::Mutex;\nstatic REGISTRY: Mutex<Vec<u32>> = Mutex::new(Vec::new());\n";
    let f = findings_for("src/a.rs", src);
    assert_eq!(f.len(), 1);
    assert_eq!(f[0].kind, CouplingKind::Common);
    assert_eq!(f[0].line, Some(2));
}

#[test]
fn rust_atomic_static_is_common_coupling() {
    let src = "static COUNT: std::sync::atomic::AtomicUsize = std::sync::atomic::AtomicUsize::new(0);\n";
    assert_eq!(findings_for("src/a.rs", src).len(), 1);
}

#[test]
fn rust_lazylock_wrapping_mutex_is_flagged_lookthrough() {
    let src = "static STATE: std::sync::LazyLock<std::sync::Mutex<u32>> = std::sync::LazyLock::new(|| std::sync::Mutex::new(0));\n";
    let f = findings_for("src/a.rs", src);
    assert_eq!(
        f.len(),
        1,
        "write-once wrapper around Mutex is a mutable global"
    );
}

#[test]
fn rust_pure_lazylock_is_not_flagged() {
    let src = "static KEYWORDS: std::sync::LazyLock<Vec<&'static str>> = std::sync::LazyLock::new(Vec::new);\n";
    assert!(
        findings_for("src/a.rs", src).is_empty(),
        "write-once pure static is not common coupling"
    );
}

#[test]
fn rust_plain_immutable_static_is_not_flagged() {
    assert!(findings_for("src/a.rs", "static MAX: usize = 10;\n").is_empty());
}

#[test]
fn rust_pure_oncecell_is_not_flagged() {
    let src = "static CONFIG: once_cell::sync::OnceCell<Config> = once_cell::sync::OnceCell::new();\n";
    assert!(
        findings_for("src/a.rs", src).is_empty(),
        "write-once OnceCell must not be flagged (Cell< substring trap)"
    );
}

#[test]
fn rust_oncelock_wrapping_mutex_is_flagged_lookthrough() {
    let src = "static STATE: std::sync::OnceLock<std::sync::Mutex<u32>> = std::sync::OnceLock::new();\n";
    assert_eq!(
        findings_for("src/a.rs", src).len(),
        1,
        "OnceLock wrapping Mutex is a mutable global"
    );
}

#[test]
fn lazy_static_mutex_is_common_coupling() {
    let src = "lazy_static::lazy_static! {\n    static ref REGISTRY: Mutex<Vec<u32>> = Mutex::new(Vec::new());\n}\n";
    let f = findings_for("src/a.rs", src);
    assert_eq!(f.len(), 1, "lazy_static wrapping Mutex is a mutable global");
    assert_eq!(f[0].kind, CouplingKind::Common);
}

#[test]
fn lazy_static_pure_value_is_not_flagged() {
    let src = "lazy_static::lazy_static! {\n    static ref KEYWORDS: Vec<&'static str> = build_keywords();\n}\n";
    assert!(
        findings_for("src/a.rs", src).is_empty(),
        "write-once pure lazy_static is not common coupling"
    );
}

#[test]
fn lazy_static_marker_in_initializer_only_is_not_flagged() {
    let src = "lazy_static::lazy_static! {\n    static ref N: usize = Cell::new(0).get();\n}\n";
    assert!(
        findings_for("src/a.rs", src).is_empty(),
        "only the type segment (between ':' and '=') is scanned, not the initializer"
    );
}

#[test]
fn other_macros_are_not_flagged() {
    let src = "thread_local! {\n    static FOO: RefCell<u32> = RefCell::new(0);\n}\n";
    assert!(
        findings_for("src/a.rs", src).is_empty(),
        "thread-locals are per-thread, not shared globals — and only lazy_static is matched"
    );
}

#[test]
fn lazy_static_atomic_prefixed_name_with_plain_type_is_not_flagged() {
    let src = "lazy_static::lazy_static! {\n    static ref AtomicFlagName: bool = false;\n}\n";
    assert!(
        findings_for("src/a.rs", src).is_empty(),
        "the identifier must not leak into the scanned type segment"
    );
}

#[test]
fn lazy_static_array_of_mutexes_is_common_coupling() {
    let src =
        "lazy_static! {\n    static ref LOCKS: [Mutex<i32>; 4] = [Mutex::new(0); 4];\n}\n";
    assert_eq!(
        findings_for("src/a.rs", src).len(),
        1,
        "a semicolon inside the array type must not fracture the entry"
    );
}

#[test]
fn lazy_static_multi_entry_block_yields_one_finding() {
    let src = "lazy_static! {\n    static ref NAMES: Vec<String> = Vec::new();\n    static ref STATE: Mutex<u32> = Mutex::new(0);\n}\n";
    assert_eq!(
        findings_for("src/a.rs", src).len(),
        1,
        "one finding per invocation, matched via the second entry's type"
    );
}

// ── Rust content coupling ──────────────────────────────────────

#[test]
fn rust_path_attribute_is_content_coupling() {
    let src = "#[path = \"../other/impl.rs\"]\nmod stolen;\n";
    let f = findings_for("src/a.rs", src);
    assert_eq!(f.len(), 1);
    assert_eq!(f[0].kind, CouplingKind::Content);
    assert!(f[0].evidence.contains("#[path"));
}

#[test]
fn rust_other_attributes_are_not_flagged() {
    let src = "#[derive(Debug)]\n#[cfg(test)]\nstruct Foo;\n";
    assert!(findings_for("src/a.rs", src).is_empty());
}

#[test]
fn rust_compact_path_attribute_is_content_coupling() {
    let src = "#[path=\"../other/impl.rs\"]\nmod stolen;\n";
    assert_eq!(
        findings_for("src/a.rs", src).len(),
        1,
        "no-space #[path=…] variant must match (whitespace is normalized)"
    );
}

#[test]
fn rust_path_prefixed_attribute_is_not_flagged() {
    let src = "#[path2 = \"x\"]\nmod m;\n";
    assert!(
        findings_for("src/a.rs", src).is_empty(),
        "#[path2=…] must not match the #[path= prefix"
    );
}

#[test]
fn unsupported_language_returns_empty() {
    assert!(findings_for("script.py", "x = 1\n").is_empty());
}

#[test]
fn unparseable_extension_returns_empty() {
    assert!(findings_for("notes.txt", "hello\n").is_empty());
}

// ── Rust control coupling ──────────────────────────────────────

#[test]
fn pub_fn_with_branched_bool_is_control_coupling() {
    let src = "pub fn render(compact: bool) {\n    if compact {\n        short();\n    } else {\n        long();\n    }\n}\n";
    let f = findings_for("src/a.rs", src);
    assert_eq!(f.len(), 1);
    assert_eq!(f[0].kind, CouplingKind::Control);
    assert!(f[0].evidence.contains("pub fn render"));
}

#[test]
fn pub_fn_with_matched_bool_is_control_coupling() {
    let src = "pub fn go(fast: bool) {\n    match fast {\n        true => sprint(),\n        false => walk(),\n    }\n}\n";
    assert_eq!(findings_for("src/a.rs", src).len(), 1);
}

#[test]
fn private_fn_with_branched_bool_is_not_flagged() {
    let src = "fn helper(flag: bool) {\n    if flag {\n        a();\n    }\n}\n";
    assert!(
        findings_for("src/a.rs", src).is_empty(),
        "coupling is inter-module; private fns exempt"
    );
}

#[test]
fn pub_fn_with_stored_bool_is_not_flagged() {
    let src = "pub fn set_visible(visible: bool) {\n    STATE_VISIBLE.store(visible);\n}\n";
    assert!(
        findings_for("src/a.rs", src).is_empty(),
        "bool-as-data is not control coupling"
    );
}

#[test]
fn pub_fn_without_bool_params_is_not_flagged() {
    let src = "pub fn add(a: u32, b: u32) -> u32 {\n    if a > b { a } else { b }\n}\n";
    assert!(findings_for("src/a.rs", src).is_empty());
}

#[test]
fn closure_shadowing_bool_param_is_not_flagged() {
    let src = "pub fn outer(flag: bool) {\n    let f = |flag: bool| {\n        if flag {\n            do_it();\n        }\n    };\n    f(true);\n}\n";
    assert!(
        findings_for("src/a.rs", src).is_empty(),
        "closure's own bool param must not be attributed to the outer fn"
    );
}

#[test]
fn rust_nested_fn_shadowing_bool_param_is_not_flagged() {
    let src = "pub fn outer(flag: bool) {\n    fn inner(flag: bool) {\n        if flag {\n            do_it();\n        }\n    }\n    inner(true);\n}\n";
    assert!(
        findings_for("src/a.rs", src).is_empty(),
        "nested fn's own bool param must not be attributed to the outer fn"
    );
}

#[test]
fn bool_branched_outside_closure_is_still_flagged() {
    let src = "pub fn outer(flag: bool) {\n    let f = || do_it();\n    if flag {\n        f();\n    }\n}\n";
    assert_eq!(findings_for("src/a.rs", src).len(), 1);
}

#[test]
fn similarly_named_variable_does_not_false_positive() {
    // param `flag` unused in branches; local `flagged` is branched on
    let src = "pub fn f(flag: bool) {\n    let flagged = compute();\n    if flagged {\n        a(flag);\n    }\n}\n";
    assert!(
        findings_for("src/a.rs", src).is_empty(),
        "word-boundary match must not catch 'flagged'"
    );
}

#[test]
fn pub_fn_with_mut_bool_param_branched_is_control_coupling() {
    let src = "pub fn go(mut fast: bool) {\n    if fast {\n        sprint();\n    }\n}\n";
    assert_eq!(
        findings_for("src/a.rs", src).len(),
        1,
        "mut_pattern params must look through the mut"
    );
}

#[test]
fn pub_fn_with_match_guard_on_bool_is_control_coupling() {
    let src = "pub fn pick(fast: bool, n: u32) {\n    match n {\n        _ if fast => sprint(),\n        _ => walk(),\n    }\n}\n";
    assert_eq!(
        findings_for("src/a.rs", src).len(),
        1,
        "guard arms branch on the flag just like if-expressions"
    );
}

#[test]
fn match_guard_on_local_not_param_is_not_flagged() {
    let src = "pub fn pick(fast: bool, n: u32) {\n    let faster = n > 1;\n    match n {\n        _ if faster => sprint(),\n        _ => walk(),\n    }\n    store(fast);\n}\n";
    assert!(
        findings_for("src/a.rs", src).is_empty(),
        "guard on a local must not be attributed to the param"
    );
}

// ── TS/JS common coupling ──────────────────────────────────────

#[test]
fn ts_export_let_is_common_coupling() {
    let f = findings_for("src/state.ts", "export let counter = 0;\n");
    assert_eq!(f.len(), 1);
    assert_eq!(f[0].kind, CouplingKind::Common);
}

#[test]
fn js_export_var_is_common_coupling() {
    assert_eq!(
        findings_for("src/state.js", "export var mode = 'a';\n").len(),
        1
    );
}

#[test]
fn ts_export_const_is_not_flagged() {
    assert!(findings_for("src/config.ts", "export const MAX = 10;\n").is_empty());
}

#[test]
fn js_globalthis_write_is_common_coupling() {
    let f = findings_for("src/boot.js", "globalThis.appState = {};\n");
    assert_eq!(f.len(), 1);
    assert_eq!(f[0].kind, CouplingKind::Common);
}

#[test]
fn js_window_write_is_common_coupling() {
    assert_eq!(
        findings_for("src/boot.js", "window.cache = new Map();\n").len(),
        1
    );
}

#[test]
fn js_navigation_assignment_is_not_common_coupling() {
    assert!(findings_for("src/logout.ts", "window.location.href = logoutUrl;\n").is_empty());
    assert!(findings_for("src/nav.ts", "globalThis.location.href = url;\n").is_empty());
    assert!(findings_for("src/nav.ts", "window.location = url;\n").is_empty());
}

#[test]
fn js_location_prefixed_globals_are_still_common_coupling() {
    // The navigation exemption is for window.location itself, not for
    // unrelated globals that merely share the prefix.
    assert_eq!(
        findings_for(
            "src/boot.ts",
            "window.locationService = new LocationService();\n"
        )
        .len(),
        1
    );
    assert_eq!(
        findings_for("src/boot.ts", "window.locations = [];\n").len(),
        1
    );
}

#[test]
fn js_reading_window_is_not_flagged() {
    assert!(findings_for("src/read.js", "const w = window.innerWidth;\n").is_empty());
}

#[test]
fn js_subscript_global_write_is_common_coupling() {
    let f = findings_for("src/boot.js", "window[\"cache\"] = new Map();\n");
    assert_eq!(
        f.len(),
        1,
        "computed-key global writes are still global writes"
    );
    assert_eq!(f[0].kind, CouplingKind::Common);
}

#[test]
fn js_nested_global_write_is_common_coupling() {
    assert_eq!(
        findings_for("src/boot.js", "globalThis.app.state = {};\n").len(),
        1,
        "writing through a chain rooted at globalThis mutates global state"
    );
}

#[test]
fn js_augmented_global_write_is_common_coupling() {
    assert_eq!(
        findings_for("src/boot.js", "window.count += 1;\n").len(),
        1,
        "+= is a write"
    );
}

#[test]
fn js_local_subscript_write_is_not_flagged() {
    assert!(findings_for("src/a.js", "arr[0] = 1;\n").is_empty());
}

#[test]
fn js_reading_global_subscript_is_not_flagged() {
    assert!(findings_for("src/a.js", "const v = window[\"x\"];\n").is_empty());
}

#[test]
fn ts_singleton_getinstance_is_common_coupling() {
    let src = "class Db {\n  private static instance: Db;\n  static getInstance(): Db {\n    return Db.instance;\n  }\n}\n";
    let f = findings_for("src/db.ts", src);
    assert!(!f.is_empty(), "getInstance singleton must be flagged");
    assert!(f.iter().all(|x| x.kind == CouplingKind::Common));
}

#[test]
fn js_static_instance_field_is_common_coupling() {
    let src = "class Api {\n  static instance = null;\n}\n";
    assert_eq!(findings_for("src/api.js", src).len(), 1);
}

#[test]
fn js_class_expression_singleton_is_flagged() {
    let src = "const Db = class {\n  static instance = null;\n};\n";
    assert_eq!(
        findings_for("src/db.js", src).len(),
        1,
        "the bare `class` node kind arm must work, not just class_declaration"
    );
}

#[test]
fn ts_plain_class_is_not_flagged() {
    let src = "class Point {\n  x = 0;\n  static origin() { return new Point(); }\n}\n";
    assert!(findings_for("src/p.ts", src).is_empty());
}

#[test]
fn ts_non_static_instance_field_is_not_flagged() {
    let src = "class Foo {\n  instance = null;\n}\n";
    assert!(
        findings_for("src/f.ts", src).is_empty(),
        "instance-level field named 'instance' is not the singleton pattern"
    );
}

#[test]
fn ts_non_static_getinstance_method_is_not_flagged() {
    let src = "class Foo {\n  getInstance() {\n    return this;\n  }\n}\n";
    assert!(
        findings_for("src/f.ts", src).is_empty(),
        "non-static getInstance is not the singleton pattern"
    );
}

#[test]
fn ts_export_let_destructuring_is_common_coupling() {
    let f = findings_for("src/state.ts", "export let[a, b] = pair();\n");
    assert_eq!(f.len(), 1, "destructuring let export must be flagged");
}

#[test]
fn ts_export_let_with_newline_is_common_coupling() {
    let f = findings_for("src/state.ts", "export let\n  counter = 0;\n");
    assert_eq!(f.len(), 1, "wrapped let declaration must be flagged");
}

// ── TS/JS control coupling ─────────────────────────────────────

#[test]
fn ts_exported_fn_with_branched_boolean_is_control_coupling() {
    let src =
        "export function render(compact: boolean) {\n  if (compact) {\n    short();\n  }\n}\n";
    let f = findings_for("src/r.ts", src);
    assert_eq!(f.len(), 1);
    assert_eq!(f[0].kind, CouplingKind::Control);
}

#[test]
fn ts_exported_fn_with_ternary_boolean_is_control_coupling() {
    let src = "export function pick(fast: boolean): number {\n  return fast ? 1 : 2;\n}\n";
    assert_eq!(findings_for("src/p.ts", src).len(), 1);
}

#[test]
fn js_exported_fn_with_default_bool_branched_is_control_coupling() {
    let src = "export function log(verbose = false) {\n  if (verbose) {\n    console.debug('x');\n  }\n}\n";
    assert_eq!(findings_for("src/l.js", src).len(), 1);
}

#[test]
fn ts_non_exported_fn_is_not_flagged() {
    let src = "function helper(flag: boolean) {\n  if (flag) {\n    a();\n  }\n}\n";
    assert!(findings_for("src/h.ts", src).is_empty());
}

#[test]
fn ts_exported_fn_with_stored_boolean_is_not_flagged() {
    let src = "export function setVisible(visible: boolean) {\n  state.visible = visible;\n}\n";
    assert!(findings_for("src/s.ts", src).is_empty());
}

#[test]
fn ts_nested_arrow_shadowing_bool_param_is_not_flagged() {
    let src = "export function outer(flag: boolean) {\n  const f = (flag: boolean) => {\n    if (flag) {\n      doIt();\n    }\n  };\n  f(true);\n}\n";
    assert!(
        findings_for("src/o.ts", src).is_empty(),
        "nested arrow's own shadowed bool param must not be attributed to outer fn"
    );
}

#[test]
fn ts_bool_branched_outside_nested_fn_is_still_flagged() {
    let src = "export function outer(flag: boolean) {\n  const f = () => doIt();\n  if (flag) {\n    f();\n  }\n}\n";
    assert_eq!(findings_for("src/o.ts", src).len(), 1);
}

#[test]
fn property_access_does_not_count_as_flag_use_js() {
    let src = "export function log(verbose: boolean) {\n  if (settings.verbose) {\n    console.debug('x');\n  }\n}\n";
    assert!(
        findings_for("src/l.ts", src).is_empty(),
        "settings.verbose is a property access, not the parameter"
    );
}

#[test]
fn field_access_does_not_count_as_flag_use_rust() {
    let src = "pub fn render(compact: bool, s: &Settings) {\n    if s.compact {\n        short();\n    }\n    store(compact);\n}\n";
    assert!(
        findings_for("src/a.rs", src).is_empty(),
        "s.compact is a field access, not the parameter"
    );
}

#[test]
fn ts_boolean_array_param_is_not_a_flag() {
    let src = "export function f(flags: boolean[]) {\n  if (flags) {\n    a();\n  }\n}\n";
    assert!(
        findings_for("src/f.ts", src).is_empty(),
        "boolean[] is data, not a control flag"
    );
}

#[test]
fn ts_boolean_union_param_is_not_a_flag() {
    let src =
        "export function f(flag: boolean | undefined) {\n  if (flag) {\n    a();\n  }\n}\n";
    assert!(
        findings_for("src/f.ts", src).is_empty(),
        "only an exact boolean annotation qualifies (documented decision)"
    );
}

#[test]
fn ts_exported_arrow_with_branched_boolean_is_control_coupling() {
    let src = "export const render = (compact: boolean) => {\n  if (compact) {\n    short();\n  }\n};\n";
    let f = findings_for("src/r.ts", src);
    assert_eq!(
        f.len(),
        1,
        "exported arrow functions are exported functions"
    );
    assert_eq!(f[0].kind, CouplingKind::Control);
}

#[test]
fn ts_exported_function_expression_is_control_coupling() {
    let src = "export const render = function (compact: boolean) {\n  if (compact) {\n    short();\n  }\n};\n";
    assert_eq!(findings_for("src/r.ts", src).len(), 1);
}

#[test]
fn ts_exported_const_arrow_without_flags_is_not_flagged() {
    let src = "export const add = (a: number, b: number) => a + b;\n";
    assert!(findings_for("src/a.ts", src).is_empty());
}

#[test]
fn generator_shadowing_bool_param_is_not_flagged() {
    let src = "export function outer(flag: boolean) {\n  function* gen(flag: boolean) {\n    if (flag) {\n      yield 1;\n    }\n  }\n  gen(true);\n}\n";
    assert!(
        findings_for("src/g.ts", src).is_empty(),
        "generator's own shadowed param must not be attributed to outer fn"
    );
}

#[test]
fn ts_exported_const_arrow_with_optional_boolean_is_control_coupling() {
    let src = "export const f = (flag?: boolean) => {\n  if (flag) {\n    a();\n  }\n};\n";
    let f = findings_for("src/r.ts", src);
    assert_eq!(
        f.len(),
        1,
        "exported arrow with optional boolean param is control coupling"
    );
    assert_eq!(f[0].kind, CouplingKind::Control);
}
