//! The list of projects.

use crate::history::order::{stable_sort, stably_sorted, Ordered};
use crate::history::session::{holds_session, is_session_file};
use crate::history::types::{FileName, Project};
use vstd::prelude::*;
use vstd::string::*;

verus! {

/// An entry of the directory that holds the projects.
#[derive(Clone, Debug)]
pub struct FoundProject {
    pub is_dir: bool,
    /// The files in it, where they could be listed.
    pub files: Option<Vec<FileName>>,
    pub name: String,
    pub display_name: String,
    /// What is known of the entry: `None` where nothing is, and else when it was last changed,
    /// where that is known.
    pub modified: Option<Option<i128>>,
}

/// Whether some file in a directory holds a session of its own.
pub open spec fn some_session(files: Seq<FileName>) -> bool {
    exists|i: int| 0 <= i < files.len() && holds_session(#[trigger] files[i], true)
}

/// The project that an entry is: a directory that can be listed and looked at and that holds a
/// session.
pub open spec fn project_of(entry: FoundProject) -> Option<Project> {
    match (entry.files, entry.modified) {
        (Some(files), Some(modified)) => if entry.is_dir && some_session(files@) {
            Some(
                Project {
                    name: entry.name,
                    display_name: entry.display_name,
                    modified: match modified {
                        Some(time) => time,
                        None => 0,
                    },
                },
            )
        } else {
            None
        },
        _ => None,
    }
}

/// The projects among some entries, in order.
pub open spec fn projects_of(entries: Seq<FoundProject>) -> Seq<Project>
    decreases entries.len(),
{
    if entries.len() == 0 {
        Seq::empty()
    } else {
        let before = projects_of(entries.drop_last());
        match project_of(entries.last()) {
            Some(project) => before.push(project),
            None => before,
        }
    }
}

/// Projects stand by their times, the latest first.
impl Ordered for Project {
    open spec fn goes_before(&self, other: &Self) -> bool {
        self.modified >= other.modified
    }

    proof fn lemma_total(a: &Self, b: &Self) {
    }

    proof fn lemma_transitive(a: &Self, b: &Self, c: &Self) {
    }

    fn is_before(&self, other: &Self) -> (before: bool) {
        self.modified >= other.modified
    }
}

fn has_session(files: &Vec<FileName>) -> (found: bool)
    ensures
        found == some_session(files@),
{
    let mut i: usize = 0;
    while i < files.len()
        invariant
            i <= files@.len(),
            forall|j: int| 0 <= j < i ==> !holds_session(#[trigger] files@[j], true),
        decreases files@.len() - i,
    {
        if is_session_file(&files[i], true) {
            assert(holds_session(files@[i as int], true));
            return true;
        }
        i = i + 1;
    }
    false
}

/// Whether a list is that of the projects among some entries, the latest first.
pub open spec fn lists_projects(entries: Seq<FoundProject>, projects: Seq<Project>) -> bool {
    stably_sorted(projects_of(entries), projects)
}

/// Lists the projects among the entries of a directory, the latest first.
pub fn list_projects(entries: &Vec<FoundProject>) -> (projects: Vec<Project>)
    ensures
        lists_projects(entries@, projects@),
        stably_sorted(projects_of(entries@), projects@),
{
    let mut projects: Vec<Project> = Vec::new();
    let mut i: usize = 0;
    while i < entries.len()
        invariant
            i <= entries@.len(),
            projects@ == projects_of(entries@.take(i as int)),
        decreases entries@.len() - i,
    {
        let entry = &entries[i];
        proof {
            assert(entries@.take(i + 1).drop_last() =~= entries@.take(i as int));
            assert(entries@.take(i + 1).last() == *entry);
        }
        match (&entry.files, &entry.modified) {
            (Some(files), Some(modified)) => {
                if entry.is_dir && has_session(files) {
                    let time: i128 = match modified {
                        Some(time) => *time,
                        None => 0,
                    };
                    projects.push(
                        Project {
                            name: entry.name.clone(),
                            display_name: entry.display_name.clone(),
                            modified: time,
                        },
                    );
                }
            },
            _ => {},
        }
        i = i + 1;
    }
    assert(entries@.take(i as int) =~= entries@);
    stable_sort(projects)
}

} // verus!
