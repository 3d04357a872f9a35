//! A small scripting language: a lexer with position tracking, a
//! recursive-descent parser and a tree-walking evaluator, each stated and
//! proved against a mathematical model of its behaviour.
pub mod error;

pub mod ast;
pub mod lang;
pub mod lexer;
pub mod parser;
pub mod runtime;
pub mod scope;
pub mod tokens;

pub use ast::{Exp, Native, OpType, Value};
pub use error::{OmgError, Position};
pub use lang::OmgLang;
pub use lexer::{lexer, Source};
pub use parser::{parse, parse_block};
pub use runtime::Runtime;
pub use scope::{add_std_lib, Scope};
pub use tokens::{Token, Tokens};
