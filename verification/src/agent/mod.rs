//! What agents read of a transcript.

pub mod atoms;
pub mod content_laws;
pub mod indices;
pub mod laws;
pub mod line_laws;
pub mod protocol;
pub mod refs;
pub mod render;
pub mod select;
pub mod selection_laws;
pub mod transcript;
