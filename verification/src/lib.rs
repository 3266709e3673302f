//! A small scripting-language front end and tree-walking evaluator:
//! a scanner from source text to tokens, a recursive-descent parser
//! from tokens to statements, and an evaluator that executes the
//! statements against a single global environment.
//!
//! Scanning and parsing accumulate as many diagnostics as they can;
//! evaluation stops at its first error. Each stage's behaviour is
//! pinned to a specification function (`spec_scan`, `spec_parse`,
//! `spec_eval`, `spec_exec`) that the executable code is proved to
//! implement exactly.

use vstd::prelude::*;

pub mod config;
pub mod digits;
pub mod error;
pub mod eval;
pub mod exec;
pub mod expr;
pub mod laws;
pub mod number;
pub mod parser;
pub mod scanner;
pub mod strutil;
pub mod token;

pub use config::Config;
pub use error::Error;
pub use error::ErrorMsg;
pub use error::ErrorState;
pub use eval::Value;
pub use exec::Environment;
pub use exec::ExecState;
pub use expr::BinOp;
pub use expr::Decl;
pub use expr::Expr;
pub use expr::ExprData;
pub use expr::Program;
pub use expr::Stmt;
pub use expr::UnaryOp;
pub use parser::parse;
pub use scanner::scan;
pub use token::Token;
pub use token::TokenData;

verus! {

} // verus!
