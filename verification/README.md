# alshc

A front end for the ALSH scripting language, written in Verus: every parsing step is an
executable Rust function whose result is proved equal to a mathematical model.

Layout of `src/`:

- `text.rs`: character and string helpers, with their specifications.
- `lexer.rs`: the byte-level lexer (tokens with line and column).
- `token_tags.rs`: token tags and the debug text of a token kind.
- `syntax.rs`: the syntax tree (expressions, conditions, statements) and its model.
- `syntax_model.rs`: the model of the token parser; `syntax_laws.rs`: its laws.
- `token_parser.rs`: the token parser (`Parser::from_source`, `Parser::parse`).
- `control_flow.rs` and `flow_model.rs`: the line-oriented control-flow parser and its model.
- `parser.rs`: shell-style pipelines and variable expansion.
- `interpolate.rs`: `$name` references in text, dotted paths, and splicing values in.
- `lowering.rs`: the code generator's tables (standard library, C and runtime signatures).
- `diagnostics.rs`: parse errors and their texts; `cli.rs`: command-line options.

`app/` holds the `alshc` command (file and preprocessor I/O) and the run-time values, whose
numbers are floating point; it looks up the names that `interpolate.rs` finds. `tests/` holds the tests.
