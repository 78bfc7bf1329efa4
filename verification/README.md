# rnr

A compiler toolchain for RnR, a small statically typed language with
Rust-like syntax, written in Verus. Every stage of the pipeline is an
executable function whose contract is an exact mathematical model of what
it computes, and the properties the language promises are proved as laws
over those models.

## Layout

- `src/` — the verified library.
  - `ast.rs`, `convert.rs`: the syntax tree and its models.
  - `lex.rs`, `grammar.rs`, `parse.rs`: the lexer and the recursive-descent
    parser, each against a spec grammar.
  - `display.rs`, `text.rs`: printing syntax back to text.
  - `round_trip.rs`, `parse_forms.rs`: printing and reading back give the
    same tree, for trees in the shapes the parser builds; and every tree
    the parser builds has those shapes, unless a string literal holds a
    quote or backslash, or a `-` stands before `-0`.
  - `type_check.rs`, `tc_laws.rs`: the static type checker (scopes,
    mutability, references, overloading, hoisting) and its laws.
  - `env.rs`, `assoc.rs`, `vm.rs`, `vm_laws.rs`, `intrinsics.rs`: the
    tree-walking interpreter, its scoped environment, `println!`, and laws.
  - `codegen.rs`, `assemble.rs`, `frame_laws.rs`: MIPS code generation,
    the assembly text, its decoding into instructions, and the law that
    every local lives in its function's reserved frame.
  - `common.rs`, `error.rs`: helpers shared by tests, and the error type.
- `tests/`: tests of every stage on concrete programs.
- `app/`: the command-line driver (file I/O and flags).
