//! Foundational domain types: skating primitives, source locations and
//! diagnostics.


pub mod diagnostics;
pub mod skating;
pub mod source;
pub mod text;
pub mod types;
