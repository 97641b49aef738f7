# dokusy

A small interpreted language (M0): `let` / `let mut`, `if` / `while` / blocks,
functions and calls, a built-in `print(expr);`, and the types `i64`, `bool` and
`string`. `&` and `::` are rejected by the lexer.

The library is written in Verus and proved against a mathematical model:

- `src/ast.rs` — the syntax tree and its view as spec values.
- `src/text.rs` — decimal numerals and diagnostic texts.
- `src/lexer.rs` — the token grammar as spec functions, and the lexer proved to
  produce exactly its tokens or its first error; laws: one final `Eof`, string
  literals read back, a trailing `//` comment adds no token.
- `src/grammar.rs`, `src/parser.rs` — the recursive-descent grammar as spec
  functions, and the parser proved to follow it.
- `src/semantics.rs` — a big-step semantics with a budget of calls and loop
  rounds, and its laws (the budget never changes a finished run; evaluation
  keeps the scope depth and only appends output; a block leaves the enclosing
  scopes' names, mutability and immutable values as they were; `&&`/`||`
  short-circuit; `==`/`!=` compare values of any kinds).
- `src/interpreter.rs` — the interpreter proved to compute what the semantics
  says.

`app/main.rs` is the command line: `dokusy run <file.dk>` and `dokusy repl`.
