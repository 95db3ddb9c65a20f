# kb_parser

A verified recursive-descent parser for a small BASIC-like scripting
language: `import` lines, `fn` definitions, `var`, `if`/`elif`/`else`,
`while`, `PRINT`, `GOTO`, labels and line numbers, and expressions with
precedence climbing.

- `src/grammar.rs` states the grammar as mathematical functions over a token
  sequence, including where the parser stands after each step, on success
  and on failure; `parse` in `src/parser.rs` is proved to return exactly
  what the grammar gives for its tokens, the syntax tree or the error.
- `src/laws.rs` proves properties of every parse: no reserved word is ever
  accepted as a name, every mark in a tree and every error mark is the mark
  of an input token, and a successful parse stops at `EOF`.
- `app/lib.rs` renders parse errors as the interpreter's text messages.
