# bilda

Bilda is a small configuration language for build systems. This crate is its
verified library: every function under `src/` carries a contract that Verus
proves.

- `src/lexer.rs`, `src/grammar.rs`, `src/parser.rs`, `src/ast.rs`: the
  `vars … expr` form of the language, from text to syntax tree.
- `src/semantics.rs`, `src/runtime.rs`, `src/value.rs`: what a program means,
  and an interpreter proved to follow it.
- `src/compiler.rs`, `src/jit_ops.rs`: what the machine-code compiler of
  programs decides (module-level names, the operations of the main function
  and of each lambda's body, captured names, closure layout), with the laws
  that its operations never underflow their stack and read only bound names.
- `src/script/`: the `let … in` form of scripts: lexer, syntax tree, grammar,
  parser, arithmetic, the compiler's plan of helper calls and scopes (with
  the laws that a closed scope restores what was there and that every plan
  leaves exactly its value on the stack), and how values are written out.
- `src/errors.rs`, `src/text.rs`: errors and text utilities.

`app/` is the `bilda` command: it reads files, emits machine code with
cranelift from the library's operations and plans, one group of
instructions per step, runs it and prints the result.
`tests/` holds the tests.
