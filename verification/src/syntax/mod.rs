//! The language's syntax: tokens, the syntax tree, the parser and the
//! formatter.

pub mod ast;
pub mod token;
pub mod format;
pub mod parser;
