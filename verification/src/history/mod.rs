//! Finding and loading the sessions of all projects.

pub mod empty;
pub mod empty_laws;
pub mod laws;
pub mod load_laws;
pub mod loader;
pub mod names;
pub mod order;
pub mod projects;
pub mod search;
pub mod session;
pub mod streaming;
pub mod types;
