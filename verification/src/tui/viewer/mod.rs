//! The transcript viewer.

pub mod activity;
pub mod summary;
pub mod summary_laws;
pub mod types;
