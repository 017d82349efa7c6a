//! Which transcripts are found empty, and what is said and removed of them.

use crate::history::empty::{
    all_candidates, answered, file_candidate, filled, is_answer, plans_deletion,
    project_candidates, questions, scope_projects, summary_of, text_before, DeleteEmptyScope,
    DeletePlan, EmptyTranscript, ScannedProject, TranscriptLine, TranscriptPath,
};
use crate::history::order::{law_sorting_keeps_all_items, Ordered};
use crate::history::session::holds_session;
use crate::history::types::Project;
use crate::text::blank;
use vstd::prelude::*;

verus! {

/// Whether a line is a message of the assistant, its own or a subagent's, that counts as one.
pub open spec fn answers(line: TranscriptLine) -> bool {
    &&& !blank(line.text@)
    &&& {
        ||| line.entry is Assistant && line.entry->Assistant_counts
        ||| line.entry is Progress && line.entry->Progress_counts && line.entry->message_type@
            == "assistant"@
    }
}

/// Whether a line is a message of the user with a text in it.
pub open spec fn asks(line: TranscriptLine) -> bool {
    &&& !blank(line.text@)
    &&& line.entry is User
    &&& !blank(line.entry->text@)
}

/// How many lines of a transcript meet a condition.
pub open spec fn how_many(lines: Seq<TranscriptLine>, holds: spec_fn(TranscriptLine) -> bool) -> nat
    decreases lines.len(),
{
    if lines.len() == 0 {
        0
    } else {
        how_many(lines.drop_last(), holds) + if holds(lines.last()) {
            1nat
        } else {
            0nat
        }
    }
}

proof fn lemma_counts(lines: Seq<TranscriptLine>)
    ensures
        filled(lines) == how_many(lines, |line: TranscriptLine| !blank(line.text@)),
        questions(lines).len() == how_many(lines, |line: TranscriptLine| asks(line)),
    decreases lines.len(),
{
    if lines.len() > 0 {
        lemma_counts(lines.drop_last());
    }
}

proof fn lemma_first_question(lines: Seq<TranscriptLine>, n: int, at: int)
    requires
        0 <= at < n <= lines.len(),
        asks(lines[at]),
        forall|i: int| 0 <= i < at ==> !asks(#[trigger] lines[i]),
    ensures
        questions(lines.take(n)).len() > 0,
        questions(lines.take(n))[0] == lines[at].entry->preview,
    decreases n,
{
    assert(lines.take(n).drop_last() =~= lines.take(n - 1));
    assert(lines.take(n).last() == lines[n - 1]);
    if n > at + 1 {
        lemma_first_question(lines, n - 1, at);
    } else {
        lemma_no_question(lines, at);
    }
}

proof fn lemma_no_question(lines: Seq<TranscriptLine>, n: int)
    requires
        0 <= n <= lines.len(),
        forall|i: int| 0 <= i < n ==> !asks(#[trigger] lines[i]),
    ensures
        questions(lines.take(n)).len() == 0,
    decreases n,
{
    if n > 0 {
        assert(lines.take(n).drop_last() =~= lines.take(n - 1));
        assert(lines.take(n).last() == lines[n - 1]);
        lemma_no_question(lines, n - 1);
    }
}

/// A transcript is empty if and only if no line of it is a message of the assistant.
pub proof fn law_transcripts_without_answers_are_empty(
    path: TranscriptPath,
    session_id: String,
    project_name: String,
    lines: Seq<TranscriptLine>,
)
    ensures
        summary_of(path, session_id, project_name, lines) is None <==> exists|i: int|
            0 <= i < lines.len() && answers(#[trigger] lines[i]),
{
    assert forall|i: int| 0 <= i < lines.len() implies is_answer(#[trigger] lines[i]) == answers(
        lines[i],
    ) by {}
    if exists|i: int| 0 <= i < lines.len() && answers(#[trigger] lines[i]) {
        let i = choose|i: int| 0 <= i < lines.len() && answers(#[trigger] lines[i]);
        assert(is_answer(lines[i]));
    }
    if answered(lines) {
        let i = choose|i: int| 0 <= i < lines.len() && is_answer(#[trigger] lines[i]);
        assert(answers(lines[i]));
    }
}

/// An empty transcript is summed up by where it is, how many lines of it are not blank, how many
/// are messages of the user with a text, and what the first of these says.
pub proof fn law_empty_transcripts_are_summed_up(
    path: TranscriptPath,
    session_id: String,
    project_name: String,
    lines: Seq<TranscriptLine>,
    at: int,
)
    requires
        lines.len() <= usize::MAX,
    ensures
        summary_of(path, session_id, project_name, lines) matches Some(summary) ==> {
            &&& summary.path == path
            &&& summary.session_id == session_id
            &&& summary.project_name == project_name
            &&& summary.line_count == how_many(lines, |line: TranscriptLine| !blank(line.text@))
            &&& summary.user_messages == how_many(lines, |line: TranscriptLine| asks(line))
            &&& summary.preview is None <==> forall|i: int|
                0 <= i < lines.len() ==> !asks(#[trigger] lines[i])
            &&& 0 <= at < lines.len() && asks(lines[at]) && (forall|i: int|
                0 <= i < at ==> !asks(#[trigger] lines[i])) ==> summary.preview == Some(
                lines[at].entry->preview,
            )
        },
{
    lemma_counts(lines);
    crate::history::empty::law_empty_transcripts_have_a_line_for_each_message(lines);
    assert(lines.take(lines.len() as int) =~= lines);
    if forall|i: int| 0 <= i < lines.len() ==> !asks(#[trigger] lines[i]) {
        lemma_no_question(lines, lines.len() as int);
    } else {
        let first = lemma_first_asking(lines, lines.len() as int);
        lemma_first_question(lines, lines.len() as int, first);
    }
    if 0 <= at < lines.len() && asks(lines[at]) && (forall|i: int|
        0 <= i < at ==> !asks(#[trigger] lines[i])) {
        lemma_first_question(lines, lines.len() as int, at);
    }
}

proof fn lemma_first_asking(lines: Seq<TranscriptLine>, n: int) -> (first: int)
    requires
        0 <= n <= lines.len(),
        exists|i: int| 0 <= i < n && asks(#[trigger] lines[i]),
    ensures
        0 <= first < n,
        asks(lines[first]),
        forall|i: int| 0 <= i < first ==> !asks(#[trigger] lines[i]),
    decreases n,
{
    if exists|i: int| 0 <= i < n - 1 && asks(#[trigger] lines[i]) {
        lemma_first_asking(lines, n - 1)
    } else {
        n - 1
    }
}

proof fn lemma_project_offers(project: ScannedProject, count: nat, f: int)
    requires
        0 <= f < count <= project.files@.len(),
        file_candidate(project, project.files@[f]) is Some,
    ensures
        project_candidates(project, count).contains(
            file_candidate(project, project.files@[f])->0,
        ),
    decreases count,
{
    let found = project_candidates(project, count);
    let before = project_candidates(project, (count - 1) as nat);
    let transcript = file_candidate(project, project.files@[f])->0;
    if f < count - 1 {
        lemma_project_offers(project, (count - 1) as nat, f);
        let i = choose|i: int| 0 <= i < before.len() && before[i] == transcript;
        assert(found[i] == transcript);
    } else {
        assert(found[found.len() - 1] == transcript);
    }
}

proof fn lemma_all_offer(projects: Seq<ScannedProject>, p: int, f: int)
    requires
        0 <= p < projects.len(),
        0 <= f < projects[p].files@.len(),
        file_candidate(projects[p], projects[p].files@[f]) is Some,
    ensures
        all_candidates(projects).contains(
            file_candidate(projects[p], projects[p].files@[f])->0,
        ),
    decreases projects.len(),
{
    let transcript = file_candidate(projects[p], projects[p].files@[f])->0;
    let all = all_candidates(projects);
    let before = all_candidates(projects.drop_last());
    if p < projects.len() - 1 {
        assert(projects.drop_last()[p] == projects[p]);
        lemma_all_offer(projects.drop_last(), p, f);
        let i = choose|i: int| 0 <= i < before.len() && before[i] == transcript;
        assert(all[i] == transcript);
    } else {
        let own = project_candidates(projects.last(), projects.last().files@.len());
        lemma_project_offers(projects.last(), projects.last().files@.len(), f);
        let i = choose|i: int| 0 <= i < own.len() && own[i] == transcript;
        assert(all[before.len() + i] == transcript);
    }
}

/// Whether what is found is the transcript of a file of a project.
pub open spec fn is_of_file(project: ScannedProject, f: int, transcript: EmptyTranscript) -> bool {
    &&& transcript.path.project == project.name
    &&& project.files@[f].name.name == Some(transcript.path.file)
    &&& transcript.session_id == project.files@[f].session_id
    &&& transcript.project_name == project.display_name
}

/// Every session file that has a name, could be read and has no message of the assistant is found,
/// under the names of its project, its file and its session.
pub proof fn law_every_unanswered_session_is_found(
    projects: Seq<ScannedProject>,
    delete: bool,
    plan: DeletePlan,
    p: int,
    f: int,
) -> (at: int)
    requires
        plans_deletion(projects, delete, plan),
        0 <= p < projects.len(),
        0 <= f < projects[p].files@.len(),
        projects[p].files@[f].name.name is Some,
        holds_session(projects[p].files@[f].name, false),
        projects[p].files@[f].lines is Some,
        forall|i: int|
            0 <= i < projects[p].files@[f].lines->0@.len() ==> !answers(
                #[trigger] projects[p].files@[f].lines->0@[i],
            ),
    ensures
        0 <= at < plan.summary.candidates@.len(),
        is_of_file(projects[p], f, plan.summary.candidates@[at]),
{
    let file = projects[p].files@[f];
    let found = plan.summary.candidates@;
    let all = all_candidates(projects);
    law_transcripts_without_answers_are_empty(
        TranscriptPath { project: projects[p].name, file: file.name.name->0 },
        file.session_id,
        projects[p].display_name,
        file.lines->0@,
    );
    let transcript = file_candidate(projects[p], file)->0;
    lemma_all_offer(projects, p, f);
    law_sorting_keeps_all_items(all, found);
    all.to_multiset_ensures();
    found.to_multiset_ensures();
    assert(all.contains(transcript));
    assert(all.to_multiset().count(transcript) > 0);
    assert(found.contains(transcript));
    choose|at: int| 0 <= at < found.len() && found[at] == transcript
}

/// Nothing is found but transcripts of session files that have a name, could be read and have no
/// message of the assistant.
pub proof fn law_nothing_but_unanswered_sessions_is_found(
    projects: Seq<ScannedProject>,
    delete: bool,
    plan: DeletePlan,
    at: int,
) -> (file: (int, int))
    requires
        plans_deletion(projects, delete, plan),
        0 <= at < plan.summary.candidates@.len(),
    ensures
        0 <= file.0 < projects.len(),
        0 <= file.1 < projects[file.0].files@.len(),
        is_of_file(projects[file.0], file.1, plan.summary.candidates@[at]),
        holds_session(projects[file.0].files@[file.1].name, false),
        projects[file.0].files@[file.1].lines is Some,
        forall|i: int|
            0 <= i < projects[file.0].files@[file.1].lines->0@.len() ==> !answers(
                #[trigger] projects[file.0].files@[file.1].lines->0@[i],
            ),
{
    let transcript = plan.summary.candidates@[at];
    crate::history::empty::law_answered_transcripts_are_never_offered(
        projects,
        plan.summary.candidates@,
        at,
    );
    let (p, f) = choose|p: int, f: int|
        crate::history::empty::unanswered_file(projects, p, f, transcript);
    let file = projects[p].files@[f];
    law_transcripts_without_answers_are_empty(
        TranscriptPath { project: projects[p].name, file: file.name.name->0 },
        file.session_id,
        projects[p].display_name,
        file.lines->0@,
    );
    (p, f)
}

/// Where all projects are looked through, each of them is, whatever the current directory is; where
/// only the current directory's is, no other is.
pub proof fn law_no_project_out_of_scope_is_looked_through(
    scope: DeleteEmptyScope,
    listed: Seq<Project>,
    local: Option<Project>,
    project: Project,
)
    ensures
        scope == DeleteEmptyScope::All ==> scope_projects(scope, listed, local) == listed,
        scope == DeleteEmptyScope::Local ==> (scope_projects(scope, listed, local).contains(
            project,
        ) <==> local == Some(project)),
        scope == DeleteEmptyScope::Local ==> scope_projects(scope, listed, local).len() <= 1,
{
    if scope == DeleteEmptyScope::Local && local == Some(project) {
        assert(scope_projects(scope, listed, local)[0] == project);
    }
}

/// Of two texts the one stands before the other that has the lesser character where they first
/// differ, or that the other one goes on from.
pub proof fn law_texts_stand_by_their_first_difference(a: Seq<char>, b: Seq<char>, n: int)
    requires
        0 <= n <= a.len(),
        n <= b.len(),
        forall|i: int| 0 <= i < n ==> #[trigger] a[i] == b[i],
    ensures
        n == a.len() ==> text_before(a, b),
        n == b.len() && n < a.len() ==> !text_before(a, b),
        n < a.len() && n < b.len() && a[n] != b[n] ==> (text_before(a, b) <==> a[n] < b[n]),
    decreases n,
{
    if n > 0 {
        assert(a[0] == b[0]);
        assert forall|i: int| 0 <= i < n - 1 implies #[trigger] a.skip(1)[i] == b.skip(1)[i] by {
            assert(a[i + 1] == b[i + 1]);
        }
        law_texts_stand_by_their_first_difference(a.skip(1), b.skip(1), n - 1);
    }
}

/// Empty transcripts are listed by the names of their projects, and those of one project by the
/// names of their files.
pub proof fn law_empty_transcripts_are_listed_by_path(
    projects: Seq<ScannedProject>,
    delete: bool,
    plan: DeletePlan,
    i: int,
    j: int,
)
    requires
        plans_deletion(projects, delete, plan),
        0 <= i < j < plan.summary.candidates@.len(),
    ensures
        ({
            let a = plan.summary.candidates@[i].path;
            let b = plan.summary.candidates@[j].path;
            &&& text_before(a.project@, b.project@)
            &&& a.project@ == b.project@ ==> text_before(a.file@, b.file@)
        }),
{
    let found = plan.summary.candidates@;
    assert(found[i].goes_before(&found[j]));
    let a = found[i].path;
    let b = found[j].path;
    if a.project@ == b.project@ {
        law_texts_stand_by_their_first_difference(a.project@, b.project@, a.project@.len() as int);
    }
}

/// A deletion removes of each transcript that is found its file and, beside it, the directory that
/// is named like its session. A listing removes nothing.
pub proof fn law_deletions_remove_files_with_their_directories(
    projects: Seq<ScannedProject>,
    delete: bool,
    plan: DeletePlan,
    i: int,
)
    requires
        plans_deletion(projects, delete, plan),
        0 <= i < plan.summary.candidates@.len(),
    ensures
        plan.summary.deleted == plan.removals@.len(),
        !delete ==> plan.removals@.len() == 0,
        delete ==> {
            let transcript = plan.summary.candidates@[i];
            &&& plan.removals@.len() == plan.summary.candidates@.len()
            &&& plan.removals@[i].file == transcript.path
            &&& plan.removals@[i].session_dir.project == transcript.path.project
            &&& plan.removals@[i].session_dir.file == transcript.session_id
        },
{
}

} // verus!
