//! The type system: types, type environments and the type checker.

pub mod check;
pub mod env;
pub mod ty;
