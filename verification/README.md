# rever

The expression layer of the Rever language and the statements of Janus,
written in Verus with their behaviour stated as contracts and proved.

- `src/token.rs` — tokens and the one-token-lookahead stream `Tokens`.
- `src/value.rs` — values, types, terms, scopes and variable lookup.
- `src/expr.rs` — expressions and their precedence-climbing parser, with the
  grammar as spec functions and laws on precedence, grouping, and what a
  `let` value or an `if` test can be.
- `src/grammar.rs` — laws on the expression grammar: every parse takes tokens
  from the front; chains of any length group as the grammar says; `if` and
  `let` report the first error they meet.
- `src/arith.rs` — `^`, `/` and `%` on `i64` as Rust defines them.
- `src/eval.rs` — the evaluator, its spec `eval_spec`, and laws on `mod`,
  `!=`, groups and `let`.
- `src/scope.rs` — `StackFrame`, the arguments and locals of a call (with the
  distinct argument names as a type invariant), and laws
  relating `push`, `pop`, `remove`, `get` and `get_mut`.
- `src/janus.rs` — Janus statements and their parser; `src/janus_grammar.rs`
  shows that each statement parse takes tokens from the front.

Evaluation is defined wherever Rust would not panic: an overflowing
operation, a division by zero, an unsupported cast or a variable bound
nowhere is excluded by the precondition of `Expr::eval`.
