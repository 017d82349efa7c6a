//! The terminal interface.

pub mod app;
pub mod viewer;
