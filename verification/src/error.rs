//! The errors of the library.

use vstd::prelude::*;

verus! {

/// What can go wrong.
#[derive(Debug, Clone)]
pub enum AppError {
    /// A request that the given options or transcripts cannot meet.
    ConfigError(String),
    /// No session has this identifier.
    SessionNotFound(String),
    /// The directory that holds the projects is not there.
    ProjectsDirNotFound(String),
    /// A file or a directory could not be read or changed.
    Io(String),
}

/// The result of an operation that can fail.
pub type Result<T> = std::result::Result<T, AppError>;

impl AppError {
    /// The text that the error carries.
    pub open spec fn spec_message(self) -> Seq<char> {
        match self {
            AppError::ConfigError(text) => text@,
            AppError::SessionNotFound(text) => text@,
            AppError::ProjectsDirNotFound(text) => text@,
            AppError::Io(text) => text@,
        }
    }

    /// The text that the error carries.
    pub fn message(&self) -> (text: String)
        ensures
            text@ == self.spec_message(),
    {
        match self {
            AppError::ConfigError(text) => text.clone(),
            AppError::SessionNotFound(text) => text.clone(),
            AppError::ProjectsDirNotFound(text) => text.clone(),
            AppError::Io(text) => text.clone(),
        }
    }
}

} // verus!
