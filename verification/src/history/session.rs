//! The names of sessions and of their files.

use crate::error::{AppError, Result};
use crate::history::types::FileName;
use crate::text::{same_text, to_chars};
use vstd::prelude::*;
use vstd::string::*;

verus! {

/// Whether a character may stand in the identifier of a session.
pub open spec fn id_char(c: char) -> bool {
    ('0' <= c && c <= '9') || ('A' <= c && c <= 'Z') || ('a' <= c && c <= 'z') || c == '-'
}

/// Whether a text is the identifier of a session: ASCII letters, digits and dashes, one at
/// least.
pub open spec fn valid_id(id: Seq<char>) -> bool {
    id.len() > 0 && forall|i: int| 0 <= i < id.len() ==> id_char(#[trigger] id[i])
}

/// Whether a text starts with another.
pub open spec fn starts(text: Seq<char>, start: Seq<char>) -> bool {
    start.len() <= text.len() && text.take(start.len() as int) == start
}

fn starts_with(text: &str, start: &str) -> (yes: bool)
    ensures
        yes == starts(text@, start@),
{
    let all = to_chars(text);
    let first = to_chars(start);
    if first.len() > all.len() {
        return false;
    }
    let mut i: usize = 0;
    while i < first.len()
        invariant
            all@ == text@,
            first@ == start@,
            i <= first@.len() <= all@.len(),
            forall|j: int| 0 <= j < i ==> all@[j] == first@[j],
        decreases first@.len() - i,
    {
        if all[i] != first[i] {
            assert(all@.take(first@.len() as int)[i as int] != first@[i as int]);
            return false;
        }
        i = i + 1;
    }
    assert(all@.take(first@.len() as int) =~= first@);
    true
}

/// Whether a lookup is refused for its identifier.
pub open spec fn refuses<T>(result: Result<T>, id: Seq<char>) -> bool {
    match result {
        Err(AppError::SessionNotFound(name)) => name@ == id,
        _ => false,
    }
}

/// Checks the identifier of a session.
pub fn validate_session_id(session_id: &str) -> (result: Result<()>)
    ensures
        valid_id(session_id@) ==> result is Ok,
        !valid_id(session_id@) ==> refuses(result, session_id@),
{
    let chars = to_chars(session_id);
    let mut valid = chars.len() > 0;
    let mut i: usize = 0;
    while i < chars.len()
        invariant
            i <= chars@.len(),
            chars@ == session_id@,
            valid == (chars@.len() > 0 && forall|j: int| 0 <= j < i ==> id_char(
                #[trigger] chars@[j],
            )),
        decreases chars@.len() - i,
    {
        let c = chars[i];
        if !(('0' <= c && c <= '9') || ('A' <= c && c <= 'Z') || ('a' <= c && c <= 'z') || c
            == '-') {
            valid = false;
        }
        i = i + 1;
    }
    if valid {
        Ok(())
    } else {
        Err(AppError::SessionNotFound(session_id.to_owned()))
    }
}

/// The name of a session's file.
pub open spec fn session_file(id: Seq<char>) -> Seq<char> {
    id + ".jsonl"@
}

/// The name of a session's file.
pub fn session_file_name(uuid: &str) -> (name: String)
    ensures
        name@ == session_file(uuid@),
{
    let mut name = uuid.to_owned();
    name.append(".jsonl");
    name
}

/// Whether a file holds a session of its own. A file whose name starts with `agent-` holds that
/// of a subagent. A name that is not text counts as the caller says.
pub open spec fn holds_session(file: FileName, unnamed: bool) -> bool {
    &&& file.extension matches Some(extension)
    &&& extension@ == "jsonl"@
    &&& match file.name {
        Some(name) => !starts(name@, "agent-"@),
        None => unnamed,
    }
}

/// Tells whether a file holds a session of its own.
pub fn is_session_file(file: &FileName, unnamed: bool) -> (yes: bool)
    ensures
        yes == holds_session(*file, unnamed),
{
    let is_jsonl = match &file.extension {
        Some(extension) => same_text(extension.as_str(), "jsonl"),
        None => false,
    };
    if !is_jsonl {
        return false;
    }
    match &file.name {
        Some(name) => !starts_with(name.as_str(), "agent-"),
        None => unnamed,
    }
}

/// An entry of the directory that holds the projects.
#[derive(Clone, Copy, Debug, PartialEq, Eq, Structural)]
pub struct ProjectEntry {
    pub is_dir: bool,
    /// Whether it holds a file of the name that is looked for.
    pub has_session: bool,
}

/// The entries that hold the session, by their place in the list.
pub open spec fn holders(entries: Seq<ProjectEntry>) -> Seq<usize>
    decreases entries.len(),
{
    if entries.len() == 0 {
        Seq::empty()
    } else {
        let before = holders(entries.drop_last());
        if entries.last().is_dir && entries.last().has_session {
            before.push((entries.len() - 1) as usize)
        } else {
            before
        }
    }
}

/// Finds all projects that hold a session. A session may stand in several.
pub fn find_all_jsonl_by_uuid(uuid: &str, entries: &Vec<ProjectEntry>) -> (result: Result<
    Vec<usize>,
>)
    ensures
        valid_id(uuid@) ==> (result matches Ok(found) && found@ == holders(entries@)),
        !valid_id(uuid@) ==> refuses(result, uuid@),
{
    match validate_session_id(uuid) {
        Ok(_) => {},
        Err(error) => {
            return Err(error);
        },
    }
    let mut found: Vec<usize> = Vec::new();
    let mut i: usize = 0;
    while i < entries.len()
        invariant
            i <= entries@.len(),
            found@ == holders(entries@.take(i as int)),
        decreases entries@.len() - i,
    {
        proof {
            assert(entries@.take(i + 1).drop_last() =~= entries@.take(i as int));
        }
        if entries[i].is_dir && entries[i].has_session {
            found.push(i);
        }
        i = i + 1;
    }
    assert(entries@.take(i as int) =~= entries@);
    Ok(found)
}

/// The first of the entries that hold the session, where one does.
pub open spec fn first_holder(entries: Seq<ProjectEntry>) -> Option<usize> {
    if holders(entries).len() == 0 {
        None
    } else {
        Some(holders(entries)[0])
    }
}

/// Finds the first project that holds a session.
pub fn find_jsonl_by_uuid(uuid: &str, entries: &Vec<ProjectEntry>) -> (result: Result<
    Option<usize>,
>)
    ensures
        valid_id(uuid@) ==> (result matches Ok(found) && found == first_holder(entries@)),
        valid_id(uuid@) ==> (result matches Ok(found) && found == if holders(entries@).len() == 0 {
            None::<usize>
        } else {
            Some(holders(entries@)[0])
        }),
        !valid_id(uuid@) ==> refuses(result, uuid@),
{
    match find_all_jsonl_by_uuid(uuid, entries) {
        Ok(found) => if found.len() == 0 {
            Ok(None)
        } else {
            Ok(Some(found[0]))
        },
        Err(error) => Err(error),
    }
}

/// What is removed of a session in a project: its file, and the directory of the session beside it,
/// where there is one.
#[derive(Clone, Debug)]
pub struct SessionRemoval {
    /// The place of the project in the list.
    pub project: usize,
    /// The name of the file.
    pub file: String,
    /// The name of the directory.
    pub session_dir: String,
}

/// Whether removals are those of a session: in each of the projects its file and its directory,
/// and nothing else.
pub open spec fn removes_session(id: Seq<char>, projects: Seq<usize>, removals: Seq<SessionRemoval>) -> bool {
    &&& removals.len() == projects.len()
    &&& forall|i: int|
        0 <= i < removals.len() ==> {
            &&& (#[trigger] removals[i]).project == projects[i]
            &&& removals[i].file@ == session_file(id)
            &&& removals[i].session_dir@ == id
        }
}

/// Whether a result is that of a deletion: what is removed wherever the session is, or a refusal where
/// it is nowhere or cannot be a session.
pub open spec fn deletes_session(
    id: Seq<char>,
    entries: Seq<ProjectEntry>,
    result: Result<Vec<SessionRemoval>>,
) -> bool {
    if valid_id(id) && holders(entries).len() > 0 {
        result matches Ok(removals) && removes_session(id, holders(entries), removals@)
    } else {
        refuses(result, id)
    }
}

/// Says what is removed where a session is deleted: its file and its directory in all projects that
/// hold it. One at least has to.
pub fn delete_session_by_uuid(uuid: &str, entries: &Vec<ProjectEntry>) -> (result: Result<
    Vec<SessionRemoval>,
>)
    ensures
        deletes_session(uuid@, entries@, result),
        valid_id(uuid@) && holders(entries@).len() > 0 ==> (result matches Ok(removals)
            && removes_session(uuid@, holders(entries@), removals@)),
        !valid_id(uuid@) || holders(entries@).len() == 0 ==> refuses(result, uuid@),
{
    let found = match find_all_jsonl_by_uuid(uuid, entries) {
        Ok(found) => found,
        Err(error) => {
            return Err(error);
        },
    };
    if found.len() == 0 {
        return Err(AppError::SessionNotFound(uuid.to_owned()));
    }
    let mut removals: Vec<SessionRemoval> = Vec::new();
    let mut i: usize = 0;
    while i < found.len()
        invariant
            i <= found@.len(),
            removes_session(uuid@, found@.take(i as int), removals@),
        decreases found@.len() - i,
    {
        removals.push(
            SessionRemoval {
                project: found[i],
                file: session_file_name(uuid),
                session_dir: uuid.to_owned(),
            },
        );
        i = i + 1;
    }
    assert(found@.take(i as int) =~= found@);
    Ok(removals)
}

proof fn lemma_holders(entries: Seq<ProjectEntry>)
    requires
        entries.len() <= usize::MAX,
    ensures
        forall|i: int|
            0 <= i < holders(entries).len() ==> #[trigger] holders(entries)[i] < entries.len()
                && entries[holders(entries)[i] as int].is_dir
                && entries[holders(entries)[i] as int].has_session,
        forall|n: int|
            0 <= n < entries.len() && (#[trigger] entries[n]).is_dir && entries[n].has_session
                ==> holders(entries).contains(n as usize),
    decreases entries.len(),
{
    if entries.len() > 0 {
        let rest = entries.drop_last();
        lemma_holders(rest);
        let before = holders(rest);
        let all = holders(entries);
        assert forall|i: int| 0 <= i < all.len() implies #[trigger] all[i] < entries.len()
            && entries[all[i] as int].is_dir && entries[all[i] as int].has_session by {
            if i < before.len() {
                assert(all[i] == before[i]);
                assert(rest[before[i] as int] == entries[before[i] as int]);
            }
        }
        assert forall|n: int|
            0 <= n < entries.len() && (#[trigger] entries[n]).is_dir
                && entries[n].has_session implies all.contains(n as usize) by {
            if n < rest.len() {
                assert(rest[n] == entries[n]);
                let i = choose|i: int| 0 <= i < before.len() && before[i] == n as usize;
                assert(all[i] == n as usize);
            } else {
                assert(all[all.len() - 1] == n as usize);
            }
        }
    }
}

/// A session is found exactly in the directories that hold its file.
pub proof fn law_sessions_are_found_where_they_are(entries: Seq<ProjectEntry>, n: int)
    requires
        0 <= n < entries.len() <= usize::MAX,
    ensures
        holders(entries).contains(n as usize) <==> entries[n].is_dir && entries[n].has_session,
{
    lemma_holders(entries);
    if holders(entries).contains(n as usize) {
        let i = choose|i: int| 0 <= i < holders(entries).len() && holders(entries)[i] == n as usize;
        assert(holders(entries)[i] < entries.len());
    }
}

/// The session that is looked for is found in the first project of the list that is a directory with
/// its file, and nowhere if none is.
pub proof fn law_the_first_project_with_the_session_is_found(entries: Seq<ProjectEntry>, n: int)
    requires
        0 <= n < entries.len() <= usize::MAX,
        entries[n].is_dir && entries[n].has_session,
    ensures
        first_holder(entries) is Some,
        first_holder(entries)->0 <= n,
        entries[first_holder(entries)->0 as int].is_dir,
        entries[first_holder(entries)->0 as int].has_session,
{
    let found = holders(entries);
    lemma_holders(entries);
    lemma_holders_rise(entries);
    let i = choose|i: int| 0 <= i < found.len() && found[i] == n as usize;
    if i > 0 {
        assert(found[0] < found[i]);
    }
    assert(found[0] < entries.len());
}

/// A valid identifier names a file of the directory itself: nothing in the name parts
/// directories, and the name is none of those that lead elsewhere.
pub proof fn law_valid_ids_stay_in_their_directory(id: Seq<char>)
    requires
        valid_id(id),
    ensures
        !session_file(id).contains('/'),
        !session_file(id).contains('\\'),
        !id.contains('.'),
        session_file(id) != "."@,
        session_file(id) != ".."@,
{
    reveal_strlit(".jsonl");
    reveal_strlit(".");
    reveal_strlit("..");
    let name = session_file(id);
    assert forall|i: int| 0 <= i < name.len() implies name[i] != '/' && name[i] != '\\' by {
        if i < id.len() {
            assert(name[i] == id[i]);
            assert(id_char(id[i]));
        } else {
            assert(name[i] == ".jsonl"@[i - id.len()]);
        }
    }
    assert forall|i: int| 0 <= i < id.len() implies id[i] != '.' by {
        assert(id_char(id[i]));
    }
    assert(name.len() > 2);
}

/// A deletion removes a session wherever it is found, and is counted once for each place: no
/// project is named twice, and each that is named holds the session.
pub proof fn law_sessions_are_deleted_where_they_are(
    id: Seq<char>,
    entries: Seq<ProjectEntry>,
    removals: Seq<SessionRemoval>,
    n: int,
)
    requires
        removes_session(id, holders(entries), removals),
        0 <= n < entries.len() <= usize::MAX,
    ensures
        (exists|i: int| 0 <= i < removals.len() && (#[trigger] removals[i]).project == n)
            <==> entries[n].is_dir && entries[n].has_session,
        forall|i: int, j: int|
            0 <= i < j < removals.len() ==> removals[i].project != removals[j].project,
{
    law_sessions_are_found_where_they_are(entries, n);
    lemma_holders_rise(entries);
    let found = holders(entries);
    if found.contains(n as usize) {
        let i = choose|i: int| 0 <= i < found.len() && found[i] == n as usize;
        assert(removals[i].project == n);
    }
    if exists|i: int| 0 <= i < removals.len() && (#[trigger] removals[i]).project == n {
        let i = choose|i: int| 0 <= i < removals.len() && (#[trigger] removals[i]).project == n;
        assert(found[i] == n as usize);
    }
}

/// A deletion is refused, under the name of the session, if the name cannot be one or no project is
/// a directory with the session's file; and else it removes something in each that is.
pub proof fn law_deletions_are_refused_where_there_is_nothing_to_delete(
    id: Seq<char>,
    entries: Seq<ProjectEntry>,
    result: Result<Vec<SessionRemoval>>,
)
    requires
        deletes_session(id, entries, result),
        entries.len() <= usize::MAX,
    ensures
        ({
            let there = exists|n: int|
                0 <= n < entries.len() && (#[trigger] entries[n]).is_dir && entries[n].has_session;
            &&& valid_id(id) && there ==> result is Ok && result->Ok_0@.len() > 0
            &&& !valid_id(id) || !there ==> result is Err && result->Err_0 is SessionNotFound
                && result->Err_0->SessionNotFound_0@ == id
        }),
{
    let found = holders(entries);
    lemma_holders(entries);
    if exists|n: int|
        0 <= n < entries.len() && (#[trigger] entries[n]).is_dir && entries[n].has_session {
        let n = choose|n: int|
            0 <= n < entries.len() && (#[trigger] entries[n]).is_dir && entries[n].has_session;
        assert(found.contains(n as usize));
    } else if found.len() > 0 {
        assert(found[0] < entries.len());
    }
}

proof fn lemma_holders_rise(entries: Seq<ProjectEntry>)
    requires
        entries.len() <= usize::MAX,
    ensures
        forall|i: int, j: int|
            0 <= i < j < holders(entries).len() ==> holders(entries)[i] < holders(entries)[j],
    decreases entries.len(),
{
    if entries.len() > 0 {
        let before = holders(entries.drop_last());
        let all = holders(entries);
        lemma_holders_rise(entries.drop_last());
        lemma_holders(entries.drop_last());
        assert forall|i: int, j: int| 0 <= i < j < all.len() implies all[i] < all[j] by {
            assert(all[i] == before[i]);
            if j < before.len() {
                assert(all[j] == before[j]);
            }
        }
    }
}

} // verus!
