# pruner_parser

Extraction of symbols (functions, methods, classes, structs, enums, traits,
interfaces, constructors), imports and call sites from Python,
JavaScript/TypeScript/TSX, Rust and C# sources, using tree-sitter grammars,
verified with Verus.

Layout of `src/`:

- `treesitter.rs` — the tree-sitter boundary: grammars, parser, and the
  verified conversion of the tree tree-sitter builds into a `SyntaxNode`.
  What tree-sitter reports about a node is named (`ts_kind`, `ts_field_child`,
  ...) as a function of the source, the language and the node's path.
- `syntax.rs` — `SyntaxNode`, a plain syntax tree, its well-formedness, node
  text and field children.
- `python.rs`, `javascript.rs`, `rust_lang.rs`, `csharp.rs` — for each
  language, the extraction rules as spec functions, the executable extraction
  proved against them, and the proofs of the laws below.
- `parser.rs` — `parse_source`, `extract_symbols`, and the public laws:
  every result is consistent (`lemma_extraction_consistent`), lists its
  symbols in source order (`lemma_extraction_in_source_order`), is
  determined by the tree tree-sitter reports (`lemma_extraction_deterministic`),
  and depends on where a tree lies in its source only through line numbers
  (`lemma_extraction_moved`, `lemma_extraction_after_prefix`).
- the language files also state, per extraction step, that it only appends
  to the result (`*_scan_appends`, `*_calls_scan_appends`) and that the calls
  it finds lie on the lines of the node searched (`*_calls_scan_lines`).
- `consistency.rs` — what a consistent result is, and the relations between a
  result before and after an extraction step.
- `model.rs` — `ParseResult`, `Symbol`, `Import`, `Call` and their views.
- `text.rs` — trimming, prefix stripping, character search and joining, with
  specifications over character sequences.
