//! A front-end compiler for a small JSON-superset configuration language:
//! a lexer and precedence-climbing parser for object/array literals extended
//! with arithmetic expressions and function/method calls, and a declarative
//! rewrite engine that lowers the expression forms into plain data objects.

pub mod element;
pub mod util;
pub mod parser;
pub mod processor;
pub mod format;
pub mod process;
