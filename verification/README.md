# nana

A small expression language: its front end, its type checker and the
decisions its evaluator makes, verified with Verus; the evaluator and the
command line around them.

## Layout

- `src/` — the verified library.
  - `text.rs` — decimal formatting and parsing, character classes, and the
    few `std` string operations it relies on.
  - `lexer.rs` — tokens of a source text (`Lexer::tokenize`) against the
    model `spec_tokenize`.
  - `ast.rs`, `parser.rs` — the syntax tree and the Pratt parser against the
    model `program`; `tags.rs` — fresh tag ids of a parse.
  - `mir.rs` — lowering of the syntax tree to MIR (`lower_expr`).
  - `types.rs` — types, unification (with and without generics),
    substitution, literal defaulting, the core module's type.
  - `checker.rs`, `typecheck.rs` — the type checker over MIR: its model
    (`check_fuel`) and the environment and checker that meet it.
  - `destructure.rs`, `args.rs`, `display.rs`, `methods.rs` — what the
    evaluator decides from plain values: destructuring plans, method-call
    arguments, literal formatting, unused-binding warnings, comparison
    methods.
  - `arith.rs` — checked integer arithmetic of every integer type and the
    narrowing conversions between integer types, with their error messages.
  - `bounds.rs` — index and range checks of the array and string methods,
    and slicing a string by byte offsets on character boundaries.
  - `labels.rs` — the field labels of struct literals: repeated names,
    positional numbering and spread fields.
- `tests/` — tests of the library.
- `app/` — the evaluator (values carry floating-point numbers), the runner
  and the command line.
