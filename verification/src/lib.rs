//! Verified core of a browser for assistant session transcripts: the agent protocol, the decisions
//! of the transcript loader, the key handling of the terminal interface, the tool activity summary
//! and the prompts of the semantic index.

pub mod agent;
pub mod claude;
pub mod error;
pub mod history;
pub mod json;
pub mod semantic;
pub mod text;
pub mod text_laws;
pub mod tui;
