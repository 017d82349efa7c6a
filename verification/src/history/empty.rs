//! Transcripts that nobody answered.

use crate::history::order::{
    law_sorting_keeps_all_items, law_stable_order_is_unique, stable_sort, stably_sorted, Ordered,
};
use crate::history::session::{holds_session, is_session_file};
use crate::history::types::{FileName, Project};
use crate::text::{blank, is_blank, same_text, to_chars};
use vstd::prelude::*;
use vstd::string::*;

verus! {

/// Which projects are looked through for empty transcripts.
#[derive(Clone, Copy, Debug, PartialEq, Eq, Structural)]
pub enum DeleteEmptyScope {
    All,
    Local,
}

/// The path of a transcript below the directory that holds the projects.
#[derive(Clone, Debug)]
pub struct TranscriptPath {
    /// The name of the project's directory.
    pub project: String,
    /// The name of the file.
    pub file: String,
}

/// A transcript without a message of the assistant.
#[derive(Clone, Debug)]
pub struct EmptyTranscript {
    pub path: TranscriptPath,
    pub session_id: String,
    pub project_name: String,
    pub user_messages: usize,
    pub line_count: usize,
    /// The first text of the user.
    pub preview: Option<String>,
}

/// What a search for empty transcripts found and deleted.
#[derive(Clone, Debug, Default)]
pub struct DeleteEmptySummary {
    pub candidates: Vec<EmptyTranscript>,
    pub deleted: usize,
}

/// A line of a transcript, as far as it could be read.
#[derive(Clone, Debug)]
pub enum LineEntry {
    /// The line is no entry.
    Unreadable,
    /// A message of the user.
    User {
        /// What a search finds in the message.
        text: String,
        /// The same on one line.
        preview: String,
    },
    /// A message of the assistant, and whether its blocks count as a message.
    Assistant { counts: bool },
    /// The progress of a subagent: the kind of its message, and whether the message's blocks
    /// count as a message.
    Progress { message_type: String, counts: bool },
    /// An entry of another kind.
    Other,
}

/// A line of a transcript.
#[derive(Clone, Debug)]
pub struct TranscriptLine {
    pub text: String,
    pub entry: LineEntry,
}

/// Whether a line holds a message of the assistant.
pub open spec fn is_answer(line: TranscriptLine) -> bool {
    !blank(line.text@) && match line.entry {
        LineEntry::Assistant { counts } => counts,
        LineEntry::Progress { message_type, counts } => message_type@ == "assistant"@ && counts,
        _ => false,
    }
}

/// The preview of a line that holds a message of the user with a text in it.
pub open spec fn question(line: TranscriptLine) -> Option<String> {
    match line.entry {
        LineEntry::User { text, preview } => if !blank(line.text@) && !blank(text@) {
            Some(preview)
        } else {
            None
        },
        _ => None,
    }
}

/// How many lines are not blank.
pub open spec fn filled(lines: Seq<TranscriptLine>) -> nat
    decreases lines.len(),
{
    if lines.len() == 0 {
        0
    } else {
        filled(lines.drop_last()) + if blank(lines.last().text@) {
            0nat
        } else {
            1nat
        }
    }
}

/// The previews of the user's messages, in order.
pub open spec fn questions(lines: Seq<TranscriptLine>) -> Seq<String>
    decreases lines.len(),
{
    if lines.len() == 0 {
        Seq::empty()
    } else {
        let before = questions(lines.drop_last());
        match question(lines.last()) {
            Some(preview) => before.push(preview),
            None => before,
        }
    }
}

/// Whether the assistant has a message in a transcript.
pub open spec fn answered(lines: Seq<TranscriptLine>) -> bool {
    exists|i: int| 0 <= i < lines.len() && is_answer(#[trigger] lines[i])
}

/// The summary of a transcript, where the assistant has no message in it.
pub open spec fn summary_of(
    path: TranscriptPath,
    session_id: String,
    project_name: String,
    lines: Seq<TranscriptLine>,
) -> Option<EmptyTranscript> {
    if answered(lines) {
        None
    } else {
        Some(
            EmptyTranscript {
                path,
                session_id,
                project_name,
                user_messages: questions(lines).len() as usize,
                line_count: filled(lines) as usize,
                preview: if questions(lines).len() == 0 {
                    None
                } else {
                    Some(questions(lines)[0])
                },
            },
        )
    }
}

/// Sums a transcript up where the assistant has no message in it.
pub fn empty_transcript(
    path: TranscriptPath,
    session_id: String,
    project_name: String,
    lines: &Vec<TranscriptLine>,
) -> (found: Option<EmptyTranscript>)
    ensures
        found == summary_of(path, session_id, project_name, lines@),
        found matches Some(transcript) ==> transcript.line_count == filled(lines@)
            && transcript.user_messages == questions(lines@).len(),
{
    let mut line_count: usize = 0;
    let mut user_messages: usize = 0;
    let mut has_answer = false;
    let mut preview: Option<String> = None;
    let mut i: usize = 0;
    while i < lines.len()
        invariant
            i <= lines@.len(),
            line_count == filled(lines@.take(i as int)),
            line_count <= i,
            user_messages == questions(lines@.take(i as int)).len(),
            user_messages <= i,
            preview == if user_messages == 0 {
                None
            } else {
                Some(questions(lines@.take(i as int))[0])
            },
            has_answer <==> exists|j: int| 0 <= j < i && is_answer(#[trigger] lines@[j]),
        decreases lines@.len() - i,
    {
        let line = &lines[i];
        proof {
            assert(lines@.take(i + 1).drop_last() =~= lines@.take(i as int));
            assert(lines@[i as int] == *line);
        }
        if !is_blank(line.text.as_str()) {
            line_count = line_count + 1;
            match &line.entry {
                LineEntry::User { text, preview: shown } => {
                    if !is_blank(text.as_str()) {
                        user_messages = user_messages + 1;
                        if preview.is_none() {
                            preview = Some(shown.clone());
                        }
                    }
                },
                LineEntry::Assistant { counts } => {
                    if *counts {
                        has_answer = true;
                    }
                },
                LineEntry::Progress { message_type, counts } => {
                    if same_text(message_type.as_str(), "assistant") && *counts {
                        has_answer = true;
                    }
                },
                _ => {},
            }
        }
        i = i + 1;
    }
    assert(lines@.take(i as int) =~= lines@);
    if has_answer {
        return None;
    }
    Some(
        EmptyTranscript { path, session_id, project_name, user_messages, line_count, preview },
    )
}

/// Whether a text stands before another or is the same: by the first character that differs,
/// and the shorter one first where none does.
pub open spec fn text_before(a: Seq<char>, b: Seq<char>) -> bool
    decreases a.len(),
{
    if a.len() == 0 {
        true
    } else if b.len() == 0 {
        false
    } else if a[0] == b[0] {
        text_before(a.skip(1), b.skip(1))
    } else {
        a[0] < b[0]
    }
}

proof fn lemma_text_order(a: Seq<char>, b: Seq<char>)
    ensures
        text_before(a, b) || text_before(b, a),
        text_before(a, b) && text_before(b, a) ==> a == b,
    decreases a.len(),
{
    if a.len() > 0 && b.len() > 0 {
        if a[0] == b[0] {
            lemma_text_order(a.skip(1), b.skip(1));
            if text_before(a, b) && text_before(b, a) {
                assert(a =~= seq![a[0]] + a.skip(1));
                assert(b =~= seq![b[0]] + b.skip(1));
            }
        }
    } else if a.len() == 0 && b.len() == 0 {
        assert(a =~= b);
    }
}

proof fn lemma_text_transitive(a: Seq<char>, b: Seq<char>, c: Seq<char>)
    requires
        text_before(a, b),
        text_before(b, c),
    ensures
        text_before(a, c),
    decreases a.len(),
{
    if a.len() > 0 && b.len() > 0 && c.len() > 0 {
        if a[0] == b[0] && b[0] == c[0] {
            lemma_text_transitive(a.skip(1), b.skip(1), c.skip(1));
        }
    }
}

fn is_text_before(a: &str, b: &str) -> (before: bool)
    ensures
        before == text_before(a@, b@),
{
    let left = to_chars(a);
    let right = to_chars(b);
    assert(left@.skip(0) =~= left@);
    assert(right@.skip(0) =~= right@);
    let mut i: usize = 0;
    while i < left.len() && i < right.len()
        invariant
            i <= left@.len(),
            i <= right@.len(),
            left@ == a@,
            right@ == b@,
            text_before(a@, b@) == text_before(left@.skip(i as int), right@.skip(i as int)),
        decreases left@.len() - i,
    {
        assert(left@.skip(i as int).skip(1) =~= left@.skip(i + 1));
        assert(right@.skip(i as int).skip(1) =~= right@.skip(i + 1));
        if left[i] != right[i] {
            return left[i] < right[i];
        }
        i = i + 1;
    }
    i == left.len()
}

/// Whether a path stands before another or is the same: by project, then by file.
pub open spec fn path_before(a: TranscriptPath, b: TranscriptPath) -> bool {
    if a.project@ == b.project@ {
        text_before(a.file@, b.file@)
    } else {
        text_before(a.project@, b.project@)
    }
}

impl Ordered for EmptyTranscript {
    open spec fn goes_before(&self, other: &Self) -> bool {
        path_before(self.path, other.path)
    }

    proof fn lemma_total(a: &Self, b: &Self) {
        lemma_text_order(a.path.project@, b.path.project@);
        lemma_text_order(a.path.file@, b.path.file@);
    }

    proof fn lemma_transitive(a: &Self, b: &Self, c: &Self) {
        lemma_text_order(a.path.project@, b.path.project@);
        if text_before(a.path.project@, b.path.project@) && text_before(
            b.path.project@,
            c.path.project@,
        ) {
            lemma_text_transitive(a.path.project@, b.path.project@, c.path.project@);
        }
        if text_before(a.path.file@, b.path.file@) && text_before(b.path.file@, c.path.file@) {
            lemma_text_transitive(a.path.file@, b.path.file@, c.path.file@);
        }
    }

    fn is_before(&self, other: &Self) -> (before: bool) {
        if same_text(self.path.project.as_str(), other.path.project.as_str()) {
            is_text_before(self.path.file.as_str(), other.path.file.as_str())
        } else {
            is_text_before(self.path.project.as_str(), other.path.project.as_str())
        }
    }
}

/// The projects that are looked through.
pub open spec fn scope_projects(
    scope: DeleteEmptyScope,
    listed: Seq<Project>,
    local: Option<Project>,
) -> Seq<Project> {
    match (scope, local) {
        (DeleteEmptyScope::All, _) => listed,
        (DeleteEmptyScope::Local, Some(project)) => seq![project],
        (DeleteEmptyScope::Local, None) => Seq::empty(),
    }
}

/// The projects that are looked through: all that are listed, or the one of the current
/// directory, where it is there.
pub fn projects_in_scope(
    scope: DeleteEmptyScope,
    listed: Vec<Project>,
    local: Option<Project>,
) -> (projects: Vec<Project>)
    ensures
        projects@ == scope_projects(scope, listed@, local),
        match scope {
            DeleteEmptyScope::All => projects == listed,
            DeleteEmptyScope::Local => projects@ == match local {
                Some(project) => seq![project],
                None => Seq::<Project>::empty(),
            },
        },
{
    match scope {
        DeleteEmptyScope::All => listed,
        DeleteEmptyScope::Local => {
            let mut projects: Vec<Project> = Vec::new();
            if let Some(project) = local {
                projects.push(project);
            }
            projects
        },
    }
}

/// A file of a project that is looked through.
#[derive(Clone, Debug)]
pub struct ScannedFile {
    pub name: FileName,
    /// The name without its extension.
    pub session_id: String,
    /// The lines, where they could be read.
    pub lines: Option<Vec<TranscriptLine>>,
}

/// A project that is looked through. One that cannot be listed has no files.
#[derive(Clone, Debug)]
pub struct ScannedProject {
    pub name: String,
    pub display_name: String,
    pub files: Vec<ScannedFile>,
}

/// The summary of a file, where it holds a session of its own, has a name that is text, could be
/// read, and the assistant has no message in it.
pub open spec fn file_candidate(project: ScannedProject, file: ScannedFile) -> Option<
    EmptyTranscript,
> {
    match (file.name.name, file.lines) {
        (Some(name), Some(lines)) => if holds_session(file.name, false) {
            summary_of(
                (TranscriptPath { project: project.name, file: name }),
                file.session_id,
                project.display_name,
                lines@,
            )
        } else {
            None
        },
        _ => None,
    }
}

/// The summaries of the first files of a project, in order.
pub open spec fn project_candidates(project: ScannedProject, count: nat) -> Seq<EmptyTranscript>
    decreases count,
{
    if count == 0 {
        Seq::empty()
    } else {
        let before = project_candidates(project, (count - 1) as nat);
        match file_candidate(project, project.files@[count - 1]) {
            Some(transcript) => before.push(transcript),
            None => before,
        }
    }
}

/// The summaries of the files of projects, one project after another.
pub open spec fn all_candidates(projects: Seq<ScannedProject>) -> Seq<EmptyTranscript>
    decreases projects.len(),
{
    if projects.len() == 0 {
        Seq::empty()
    } else {
        all_candidates(projects.drop_last()) + project_candidates(
            projects.last(),
            projects.last().files@.len(),
        )
    }
}

fn push_candidates(found: &mut Vec<EmptyTranscript>, project: &ScannedProject)
    ensures
        final(found)@ == old(found)@ + project_candidates(*project, project.files@.len()),
{
    let ghost start = found@;
    let mut i: usize = 0;
    assert(start + project_candidates(*project, 0) =~= start);
    while i < project.files.len()
        invariant
            i <= project.files@.len(),
            found@ == start + project_candidates(*project, i as nat),
        decreases project.files@.len() - i,
    {
        let file = &project.files[i];
        if is_session_file(&file.name, false) {
            match (&file.name.name, &file.lines) {
                (Some(name), Some(lines)) => {
                    let path = TranscriptPath { project: project.name.clone(), file: name.clone() };
                    match empty_transcript(
                        path,
                        file.session_id.clone(),
                        project.display_name.clone(),
                        lines,
                    ) {
                        Some(transcript) => {
                            found.push(transcript);
                        },
                        None => {},
                    }
                },
                _ => {},
            }
        }
        assert(project_candidates(*project, (i + 1) as nat) == match file_candidate(
            *project,
            project.files@[i as int],
        ) {
            Some(transcript) => project_candidates(*project, i as nat).push(transcript),
            None => project_candidates(*project, i as nat),
        });
        assert(found@ =~= start + project_candidates(*project, (i + 1) as nat));
        i = i + 1;
    }
}

/// Finds the empty transcripts of projects, in the order of their paths.
pub fn find_empty_transcripts(projects: &Vec<ScannedProject>) -> (candidates: Vec<EmptyTranscript>)
    ensures
        stably_sorted(all_candidates(projects@), candidates@),
{
    let mut found: Vec<EmptyTranscript> = Vec::new();
    let mut i: usize = 0;
    while i < projects.len()
        invariant
            i <= projects@.len(),
            found@ == all_candidates(projects@.take(i as int)),
        decreases projects@.len() - i,
    {
        assert(projects@.take(i + 1).drop_last() =~= projects@.take(i as int));
        push_candidates(&mut found, &projects[i]);
        i = i + 1;
    }
    assert(projects@.take(i as int) =~= projects@);
    stable_sort(found)
}

/// What is removed of an empty transcript: its file, and the directory of its session beside it,
/// where there is one.
#[derive(Clone, Debug)]
pub struct Removal {
    pub file: TranscriptPath,
    pub session_dir: TranscriptPath,
}

/// What a search for empty transcripts comes to, and what is removed for it.
#[derive(Clone, Debug)]
pub struct DeletePlan {
    pub summary: DeleteEmptySummary,
    pub removals: Vec<Removal>,
}

/// What is removed of an empty transcript.
pub open spec fn removal_of(transcript: EmptyTranscript) -> Removal {
    Removal {
        file: transcript.path,
        session_dir: TranscriptPath {
            project: transcript.path.project,
            file: transcript.session_id,
        },
    }
}

/// What is removed of empty transcripts, in order.
pub open spec fn removals_of(candidates: Seq<EmptyTranscript>) -> Seq<Removal> {
    Seq::new(candidates.len(), |i: int| removal_of(candidates[i]))
}

/// Whether a plan is that for the empty transcripts of projects: they are listed by path, and
/// where they are to be deleted, each of them is removed and counted, and nothing else is.
pub open spec fn plans_deletion(
    projects: Seq<ScannedProject>,
    delete: bool,
    plan: DeletePlan,
) -> bool {
    &&& stably_sorted(all_candidates(projects), plan.summary.candidates@)
    &&& plan.summary.deleted == plan.removals@.len()
    &&& plan.removals@ == if delete {
        removals_of(plan.summary.candidates@)
    } else {
        Seq::<Removal>::empty()
    }
}

/// Finds the empty transcripts of projects, and says what is removed where they are to be deleted.
pub fn delete_empty_transcripts(projects: &Vec<ScannedProject>, delete: bool) -> (plan: DeletePlan)
    ensures
        plans_deletion(projects@, delete, plan),
{
    let candidates = find_empty_transcripts(projects);
    let mut removals: Vec<Removal> = Vec::new();
    if delete {
        let mut i: usize = 0;
        while i < candidates.len()
            invariant
                i <= candidates@.len(),
                removals@ == removals_of(candidates@).take(i as int),
            decreases candidates@.len() - i,
        {
            let transcript = &candidates[i];
            let file = TranscriptPath {
                project: transcript.path.project.clone(),
                file: transcript.path.file.clone(),
            };
            let session_dir = TranscriptPath {
                project: transcript.path.project.clone(),
                file: transcript.session_id.clone(),
            };
            removals.push(Removal { file, session_dir });
            assert(removals@ =~= removals_of(candidates@).take(i + 1));
            i = i + 1;
        }
        assert(removals@ =~= removals_of(candidates@));
    }
    let deleted = removals.len();
    DeletePlan { summary: DeleteEmptySummary { candidates, deleted }, removals }
}

/// The same transcripts are found whether or not they are to be deleted, in the order of their
/// paths. Where they are not, nothing is removed or counted; where they are, all of them are, and
/// nothing else.
pub proof fn law_deletion_removes_what_a_listing_shows(
    projects: Seq<ScannedProject>,
    listing: DeletePlan,
    deletion: DeletePlan,
)
    requires
        plans_deletion(projects, false, listing),
        plans_deletion(projects, true, deletion),
    ensures
        listing.summary.candidates@ == deletion.summary.candidates@,
        forall|i: int, j: int|
            0 <= i < j < listing.summary.candidates@.len() ==> path_before(
                #[trigger] listing.summary.candidates@[i].path,
                #[trigger] listing.summary.candidates@[j].path,
            ),
        listing.removals@.len() == 0,
        listing.summary.deleted == 0,
        deletion.summary.deleted == deletion.summary.candidates@.len(),
        deletion.removals@ == removals_of(listing.summary.candidates@),
{
    let found = listing.summary.candidates@;
    law_stable_order_is_unique(all_candidates(projects), found, deletion.summary.candidates@);
    assert forall|i: int, j: int| 0 <= i < j < found.len() implies path_before(
        #[trigger] found[i].path,
        #[trigger] found[j].path,
    ) by {
        assert(found[i].goes_before(&found[j]));
    }
}

/// Whether a summary is that of a file in which the assistant has no message.
pub open spec fn unanswered_file(
    projects: Seq<ScannedProject>,
    p: int,
    f: int,
    transcript: EmptyTranscript,
) -> bool {
    &&& 0 <= p < projects.len()
    &&& 0 <= f < projects[p].files@.len()
    &&& file_candidate(projects[p], projects[p].files@[f]) == Some(transcript)
    &&& holds_session(projects[p].files@[f].name, false)
    &&& projects[p].files@[f].lines matches Some(lines)
    &&& !answered(lines@)
}

proof fn lemma_project_candidates(
    projects: Seq<ScannedProject>,
    p: int,
    count: nat,
    transcript: EmptyTranscript,
)
    requires
        0 <= p < projects.len(),
        count <= projects[p].files@.len(),
        project_candidates(projects[p], count).contains(transcript),
    ensures
        exists|f: int| unanswered_file(projects, p, f, transcript),
    decreases count,
{
    let project = projects[p];
    let found = project_candidates(project, count);
    let at = choose|at: int| 0 <= at < found.len() && found[at] == transcript;
    let before = project_candidates(project, (count - 1) as nat);
    if at < before.len() {
        assert(before[at] == transcript);
        lemma_project_candidates(projects, p, (count - 1) as nat, transcript);
    } else {
        assert(unanswered_file(projects, p, count - 1, transcript));
    }
}

proof fn lemma_all_candidates(
    projects: Seq<ScannedProject>,
    count: int,
    transcript: EmptyTranscript,
)
    requires
        0 <= count <= projects.len(),
        all_candidates(projects.take(count)).contains(transcript),
    ensures
        exists|p: int, f: int| unanswered_file(projects, p, f, transcript),
    decreases count,
{
    let some = projects.take(count);
    let found = all_candidates(some);
    let at = choose|at: int| 0 <= at < found.len() && found[at] == transcript;
    assert(count > 0);
    assert(some.drop_last() =~= projects.take(count - 1));
    let before = all_candidates(projects.take(count - 1));
    if at < before.len() {
        assert(before[at] == transcript);
        lemma_all_candidates(projects, count - 1, transcript);
    } else {
        let own = project_candidates(some.last(), some.last().files@.len());
        assert(own[at - before.len()] == transcript);
        let p = count - 1;
        lemma_project_candidates(projects, p, some.last().files@.len(), transcript);
        let f = choose|f: int| unanswered_file(projects, p, f, transcript);
        assert(unanswered_file(projects, p, f, transcript));
    }
}

/// Every transcript that is found empty is that of a session file that was read and in which the
/// assistant has no message: an answered transcript is never offered for deletion.
pub proof fn law_answered_transcripts_are_never_offered(
    projects: Seq<ScannedProject>,
    candidates: Seq<EmptyTranscript>,
    at: int,
)
    requires
        stably_sorted(all_candidates(projects), candidates),
        0 <= at < candidates.len(),
    ensures
        exists|p: int, f: int| unanswered_file(projects, p, f, candidates[at]),
{
    law_sorting_keeps_all_items(all_candidates(projects), candidates);
    all_candidates(projects).to_multiset_ensures();
    candidates.to_multiset_ensures();
    assert(candidates.contains(candidates[at]));
    assert(candidates.to_multiset().count(candidates[at]) > 0);
    assert(all_candidates(projects).contains(candidates[at]));
    assert(projects.take(projects.len() as int) =~= projects);
    lemma_all_candidates(projects, projects.len() as int, candidates[at]);
}

/// A summary never counts more messages of the user than lines.
pub proof fn law_empty_transcripts_have_a_line_for_each_message(lines: Seq<TranscriptLine>)
    ensures
        questions(lines).len() <= filled(lines) <= lines.len(),
    decreases lines.len(),
{
    if lines.len() > 0 {
        law_empty_transcripts_have_a_line_for_each_message(lines.drop_last());
    }
}

/// Blank lines and lines that cannot be read as entries do not decide whether a transcript is
/// empty, nor what it is summed up to but for the count of lines.
pub proof fn law_unreadable_lines_change_no_message(
    lines: Seq<TranscriptLine>,
    line: TranscriptLine,
)
    requires
        blank(line.text@) || line.entry is Unreadable,
    ensures
        questions(lines.push(line)) == questions(lines),
        answered(lines.push(line)) <==> answered(lines),
        blank(line.text@) ==> filled(lines.push(line)) == filled(lines),
{
    assert(lines.push(line).drop_last() =~= lines);
    if answered(lines) {
        let i = choose|i: int| 0 <= i < lines.len() && is_answer(#[trigger] lines[i]);
        assert(is_answer(lines.push(line)[i]));
    }
    if answered(lines.push(line)) {
        let i = choose|i: int|
            0 <= i < lines.push(line).len() && is_answer(#[trigger] lines.push(line)[i]);
        assert(is_answer(lines[i]));
    }
}

} // verus!
