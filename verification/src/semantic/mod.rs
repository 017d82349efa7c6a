//! The semantic index.

pub mod fastembed;
