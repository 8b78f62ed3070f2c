# barad_dur

The analysis core of a repository analyzer, written in Verus: the
executable code carries `requires`/`ensures` contracts and the proofs
that it meets them.

## Layout

- `src/metrics/complexity/` — per-file source analysis. Files are parsed
  with tree-sitter (`ts.rs` and `treesitter.rs` wrap the parser and its
  queries), copied into the library's own `SyntaxTree` (`syntax.rs`), and
  everything else is read from that model or from the query matches: line and complexity counters, imports, Pressman
  coupling findings, class records and re-exports, TS/JS and Rust call
  edges, the line-based fallback for files without a grammar, and test
  code: `rust_test_code.rs`, `javascript_test_code.rs`,
  `python_test_code.rs`, `managed_test_code.rs` (Java, C#, Kotlin) and
  `php_test_code.rs` find the ranges that test attributes, test
  frameworks' APIs and test base classes mark, each resolved through the
  file's own imports and scopes; `test_context.rs` merges them into the
  index that classifies a range as test code.
- `src/metrics/coupling.rs` — afferent and efferent coupling scored on
  the median degree, and circular dependencies at depths one and two.
- `src/metrics/churn/` — the day-bucketed churn timeline.
- `src/field_test/` — the field-test harness logic: corpus selection,
  baselines, decision surfaces and their diffs, the audit worksheet, the
  sweep that decides each repository's step.
- `src/text.rs`, `src/sorted.rs`, `src/json.rs` — character sequences,
  sorted sequences and a small JSON value model shared by the above.
- `app/` — the command-line program: argument handling, git and file
  I/O, and the serde copies of the library's types.
- `tests/` — tests of the compiled library.

Trusted items (functions whose contracts are believed, not proved) are
the tree-sitter wrappers in `ts.rs`, one `std` UTF-8 decoding call in
`treesitter.rs`, `Path` equality and order in `coupling.rs`, the date
rendering in `churn/mod.rs`, and a few `std` character and formatting
calls in `text.rs`. What tree-sitter computes is named, not restated:
`ts_matches`, `ts_query_compiles` and `ts_capture_index` for queries, and
`ts_kind`, `ts_child_count`, `ts_start_byte` and their siblings for the
node at a path of child positions in the parse of a text with a grammar.
The file metrics, imports and the library's copy of a parse
(`is_parse_of`) are stated exactly over those names.

Not in the library: the per-function responsibility analysis, the
per-function metrics and nesting biomarkers, and the call-graph hub
ranking. The test-code ranges are character ranges into
the parsed text; whether a file is a test file as a whole is the
caller's to say.

Laws that relate several functions (for instance that identical decision
surfaces diff to nothing, or that a mutual import is always reported as a
cycle) are public proof functions named `lemma_*` beside the functions
they speak of.
