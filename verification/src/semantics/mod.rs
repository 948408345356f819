//! Semantic analysis: ISU rules and program validation.

pub mod rules;
pub mod validate;
