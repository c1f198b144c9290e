# lau-compilers

Compiler construction fundamentals (lexing, parsing, type checking, SSA form, IR
generation, optimization passes and an agent configuration DSL), written in Verus with
the behaviour of each stage stated as contracts and proved.

## Layout

- `src/` — the verified library.
  - `lexer.rs`, `pattern.rs`, `text.rs`: the regex-driven lexer (the `regex` crate is
    called through two trusted wrappers; `lex_step` makes one token, or error, of what
    the patterns found), token kinds and positions.
  - `ast.rs`, `ast_debug.rs`, `parser_spec.rs`, `parser.rs`: the syntax tree, its walk
    order and its debug text, the grammar as spec functions, and the recursive-descent
    parser proved against it.
  - `symbol_table.rs`, `type_checker.rs`: scopes and type inference with unification.
  - `ir.rs`, `ssa.rs`, `ssa_text.rs`: SSA IR generation, dominators, dominance
    frontiers, phi placement and the text form of functions.
  - `optimization.rs`: constant folding and dead code elimination.
  - `agent_dsl.rs`: compiling agent declarations into configurations and IR.
- `app/` — what stands around the library: float arithmetic and rendering (the library
  keeps floats as decimal text), the closure-driven AST visitor (which follows the library's walk order), and serde forms of the
  data types.
- `tests/` — the test suite.
