# Arcaea

Arcaea is a small configuration and build language for the arcaeaOS system,
together with the pieces of the arcaeaOS kernel that do not depend on the
hardware. This crate holds them as a library verified with Verus, and a thin
command-line program around it.

## Library (`src/`)

- `lexer`, `token`, `grammar`, `parser`, `ast`: the tokens of a source text
  (longest match, comments and unknown characters skipped) and the grammar of
  programs, each stated as a specification and implemented against it.
- `semantics`, `interpreter`, `run`, `report`: the meaning of programs as a
  step-bounded evaluator, the tree-walking interpreter proved to follow it, the
  run of a whole program, and the report of `system` declarations.
  Floating-point arithmetic is supplied by the host through `FloatHost`, and
  the host writes the float literals of a `system` report.
- `modules`: loading a program from its files, each `use` replaced in place by
  the items of the module it names and each module loaded at most once.
- `codegen`: LLVM IR for the top-level `print` expressions of a program:
  integer and string literals, and calls of the C functions that its `bridge`
  items declare; every print names its registers after its position.
- `diagnose`, `lsp`: where a program fails to parse (the furthest failure
  reached, and what was expected there) and the diagnostic of a document,
  placed by line and column.
- `program_text`: the text that `{:?}` writes for a whole program, which the
  build protocol hashes.
- `rebuild`: the generation identifier and the build plan of a `system`
  declaration.
- `actp`: the component compiler (parsing annotated modules, pruning them
  against the environment, generating Rust modules).
- `kernel`: the page allocator, page tables, tasks, trap frames, the trap log
  and trap handler, and the console calls of the SBI.

## Program (`app/`)

`app/main.rs` runs `run`, `build`, `rebuild` and `rollback` on Arcaea files,
`lsp` as a language server on standard input and output, and `actp` as the
component compiler. It does the file, process and console work and hands plain
values to the library.
