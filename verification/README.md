# ast_cli

Structural code navigation over tree-sitter syntax trees for Rust, C++,
TypeScript/TSX, Python and Protobuf: outlines, skeletons (function bodies
replaced by a placeholder), definition lookup by `Type::member` address or
line range, cross-file search, raw tree-sitter queries and project summaries.

- `src/` is the library, verified with Verus. Parsing is done by tree-sitter
  behind small trusted wrappers (`src/parser.rs`, `src/languages/`,
  `src/ops/query.rs`); the tree is copied into `SyntaxNode`s, and every
  operation is specified over that copy.
- `app/` is the command-line program: argument parsing, directory walks,
  file reading, printing and JSON output.
- `tests/` runs the library on sample sources in each language.
