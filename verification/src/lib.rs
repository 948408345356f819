//! Anvomidav: a language for figure skating choreography.
//!
//! The library holds the language's lexer, parser, formatter, type system and
//! ISU rule checks, together with the skating domain types they share.

pub mod base;
pub mod cli;
pub mod debug;
pub mod ide;
pub mod ir;
pub mod syntax;
pub mod semantics;
pub mod typing;
