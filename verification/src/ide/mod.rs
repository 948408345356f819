//! Editor support: the positions, checks, documentation, completions,
//! outline and reformatting that a language server offers for a document.

pub mod lines;
pub mod lint;
pub mod docs;
pub mod edit;
pub mod outline;
pub mod hover;

