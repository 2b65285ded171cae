# numlang

A compiler front end and optimiser for a small numeric language (`i32`,
`i64`, `f64`, `bool`, fixed-size arrays, functions, `while`, `if`, `break`),
written in Verus. The functions under `src/` are verified: each contract says
what the function returns, and the proofs show that it does so without
panicking or overflowing. The one exception is the debug listings of
`src/diagnostic.rs`, which rest on the `Debug` text that `format!` writes.

## Layout

- `src/token.rs`, `src/text.rs`: the lexer, from characters to tokens.
- `src/parser/`: a Pratt parser from tokens to the syntax tree (`src/ast.rs`).
- `src/typecheck/`: scopes and function signatures (`symtab.rs`), types
  (`types.rs`) and the checker that produces the typed tree (`typed_ast.rs`).
- `src/opt/`: passes over the typed tree; `optimize_program` in
  `src/opt/mod.rs` runs them in order.
  - `bce.rs`, `range.rs`: bounds-check elimination from value ranges.
  - `const_args.rs`, `inlining.rs`: specialising calls with literal
    arguments and inlining small functions.
  - `while_unroll.rs`: unrolling `while` loops whose counter starts at a
    known value and moves by a fixed step, for at most 16 iterations, with
    constant conditions and values folded along the way.
  - `array_opt.rs`, `math_elevation.rs`, `recursion.rs`: array folding,
    closed forms for accumulator loops, and recurrences.
  - `tree_view.rs`, `value.rs`, `names.rs`: the mathematical view of the
    typed tree, the values of expressions, and name tables.
- `src/ir/`: lowering the typed tree to a block-structured IR.
- `src/codegen/`: the arithmetic that code generation relies on (division by
  constants through magic numbers) and its error type.
- `src/diagnostic.rs`: error reports and debug listings.
- `app/main.rs`: the command-line driver: arguments, reading the source,
  printing diagnostics, the typed tree or the IR. Native code generation is
  not part of this crate.
- `tests/`: tests of the library, run against the compiled crate.
