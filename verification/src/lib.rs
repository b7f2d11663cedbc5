//! Expressions of the Rever language: tokens, a precedence-climbing parser,
//! an evaluator, and the stack frames the interpreter keeps variables in;
//! and the statements of Janus built on those expressions.

pub mod arith;
pub mod eval;
pub mod eval_laws;
pub mod expr;
pub mod grammar;
pub mod janus;
pub mod janus_grammar;
pub mod janus_laws;
pub mod scope;
pub mod token;
pub mod value;

pub use expr::{BinOp, Expr};
pub use janus::{Decl, LValue, Statement};
pub use scope::StackFrame;
pub use token::{Token, Tokens};
pub use value::{EvalError, EvalResult, ParseResult, Scope, Term, Type, Value};
