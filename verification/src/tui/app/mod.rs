//! The state of the terminal interface, and how keys change it.

pub mod input_controller;
pub mod key_laws;
pub mod laws;
pub mod query;
pub mod state;
pub mod subagent;
pub mod subagent_laws;
