//! Intermediate representation: the timeline's event kinds and the
//! choreography's identifiers and classifications.

pub mod choreo;
pub mod timeline;
