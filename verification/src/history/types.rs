//! What is known of projects, files and conversations.

use crate::error::AppError;
use vstd::prelude::*;
use vstd::string::*;

verus! {

/// The name of a file in a directory.
#[derive(Clone, Debug)]
pub struct FileName {
    /// The whole name, where it is text.
    pub name: Option<String>,
    /// The part behind the last dot, where there is one and it is text.
    pub extension: Option<String>,
}

/// A file of a project's directory.
#[derive(Clone, Debug)]
pub struct FoundFile {
    /// The number by which the caller knows the path: equal for equal paths.
    pub file: u64,
    pub name: FileName,
    /// When the file was last changed, in nanoseconds since the epoch, where that is known.
    pub modified: Option<i128>,
    pub size: u64,
}

/// A directory and the short name that it is shown under.
#[derive(Clone, Debug)]
pub struct Place {
    pub path: String,
    pub short_name: String,
}

/// A conversation.
#[derive(Clone, Debug)]
pub struct Conversation {
    /// The number of the path of its file.
    pub file: u64,
    /// The name of its file, where it is text.
    pub name: Option<String>,
    /// When it last changed, in nanoseconds since the epoch.
    pub timestamp: i128,
    /// Its place in the list.
    pub index: usize,
    /// The directory that it was held in, where the file tells.
    pub cwd: Option<Place>,
    pub project_path: Option<String>,
    pub project_name: Option<String>,
    pub preview: String,
    pub preview_first: String,
    pub preview_last: String,
    pub full_text: String,
    /// The text in the form that searches compare.
    pub search_text_lower: String,
}

/// A project.
#[derive(Clone, Debug)]
pub struct Project {
    pub name: String,
    pub display_name: String,
    /// When its directory was last changed, in nanoseconds since the epoch.
    pub modified: i128,
}

/// The text of a file.
#[derive(Clone, Debug)]
pub struct SearchText {
    pub file: u64,
    pub full_text: String,
}

/// What the loader tells while it runs in the background.
#[derive(Debug)]
pub enum LoaderMessage {
    /// Nothing can be loaded.
    Fatal(AppError),
    /// The conversations of a project.
    Batch(Vec<Conversation>),
    /// A project could not be loaded.
    ProjectError,
    /// All projects were loaded.
    Done,
    /// The texts of a project.
    SearchBatch(Vec<SearchText>),
    /// All texts were loaded.
    SearchDone,
}

} // verus!
