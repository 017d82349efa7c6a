//! What loads, lists and caches hold of each conversation and each file.

use crate::error::AppError;
use crate::history::loader::{
    all_indexed, all_with_project, assembled, completes_load, conversation_records, empty_record,
    file_of, freshly_read, gathered, hits, inserts_of, is_stale, listed, misses, new_records,
    orders_files, plans_load, read_conversations, session_files, with_empty_records, CacheRecord,
    LoadFile, LoadPlan, Loaded, ParseOutcome, ParsedFile, ProjectLoad, ProjectsRoot,
};
use crate::history::order::{stably_sorted, those_like};
use crate::history::projects::{lists_projects, projects_of, FoundProject};
use crate::history::search::{
    fresh, texts_of, with_text, NormalizedText, SearchFile, SearchInsert,
};
use crate::history::session::{
    holders, holds_session, refuses, removes_session, valid_id, ProjectEntry, SessionRemoval,
};
use crate::history::streaming::{phase_after, tells, LoaderEvent, LoaderPhase};
use crate::history::types::{
    Conversation, FileName, FoundFile, LoaderMessage, Place, Project, SearchText,
};
use vstd::pervasive::arbitrary;
use vstd::prelude::*;

verus! {

/// Whether one conversation is another one with its project told: its own directory where that is
/// known, and else the fallback, each with its own short name.
pub open spec fn told_project(was: Conversation, fallback: Place, now: Conversation) -> bool {
    &&& was.cwd is Some ==> now.project_path == Some(was.cwd->0.path) && now.project_name == Some(
        was.cwd->0.short_name,
    )
    &&& was.cwd is None ==> now.project_path == Some(fallback.path) && now.project_name == Some(
        fallback.short_name,
    )
    &&& now.file == was.file
    &&& now.name == was.name
    &&& now.timestamp == was.timestamp
    &&& now.cwd == was.cwd
    &&& now.preview == was.preview
    &&& now.preview_first == was.preview_first
    &&& now.preview_last == was.preview_last
    &&& now.full_text == was.full_text
    &&& now.search_text_lower == was.search_text_lower
}

/// A conversation that knows its directory is listed under that directory's path and short name,
/// whatever the fallback is; one that does not, under the fallback's. Nothing else of it changes.
pub proof fn law_conversations_are_listed_under_their_own_directory(
    conversations: Seq<Conversation>,
    fallback: Place,
    other: Place,
    i: int,
)
    requires
        0 <= i < conversations.len(),
    ensures
        all_with_project(conversations, fallback).len() == conversations.len(),
        told_project(conversations[i], fallback, all_with_project(conversations, fallback)[i]),
        all_with_project(conversations, fallback)[i].index == conversations[i].index,
        conversations[i].cwd is Some ==> all_with_project(conversations, fallback)[i]
            == all_with_project(conversations, other)[i],
{
}

/// The numbers of the files of the conversations of a time, in order.
pub open spec fn of_time(list: Seq<Conversation>, time: i128) -> Seq<u64>
    decreases list.len(),
{
    if list.len() == 0 {
        Seq::empty()
    } else if list.last().timestamp == time {
        of_time(list.drop_last(), time).push(list.last().file)
    } else {
        of_time(list.drop_last(), time)
    }
}

proof fn lemma_of_time(list: Seq<Conversation>, time: i128, value: Conversation)
    requires
        value.timestamp == time,
    ensures
        of_time(list, time) == Seq::new(
            those_like(list, value).len(),
            |i: int| those_like(list, value)[i].file,
        ),
    decreases list.len(),
{
    if list.len() > 0 {
        lemma_of_time(list.drop_last(), time, value);
    }
    assert(of_time(list, time) =~= Seq::new(
        those_like(list, value).len(),
        |i: int| those_like(list, value)[i].file,
    ));
}

proof fn lemma_of_time_same(a: Seq<Conversation>, b: Seq<Conversation>, time: i128)
    requires
        a.len() == b.len(),
        forall|i: int|
            0 <= i < a.len() ==> (#[trigger] a[i]).file == b[i].file && a[i].timestamp
                == b[i].timestamp,
    ensures
        of_time(a, time) == of_time(b, time),
    decreases a.len(),
{
    if a.len() > 0 {
        assert forall|i: int| 0 <= i < a.drop_last().len() implies (
        #[trigger] a.drop_last()[i]).file == b.drop_last()[i].file && a.drop_last()[i].timestamp
            == b.drop_last()[i].timestamp by {
            assert(a[i].file == b[i].file);
        }
        lemma_of_time_same(a.drop_last(), b.drop_last(), time);
        assert(a[a.len() - 1].file == b[b.len() - 1].file);
    }
}

proof fn lemma_of_time_append(a: Seq<Conversation>, b: Seq<Conversation>, time: i128)
    ensures
        of_time(a + b, time) == of_time(a, time) + of_time(b, time),
    decreases b.len(),
{
    if b.len() == 0 {
        assert(a + b =~= a);
        assert(of_time(a, time) + of_time(b, time) =~= of_time(a, time));
    } else {
        assert((a + b).drop_last() =~= a + b.drop_last());
        lemma_of_time_append(a, b.drop_last(), time);
        assert(of_time(a + b, time) =~= of_time(a, time) + of_time(b, time));
    }
}

/// A list holds the conversations of each time in the order in which they were given, and none
/// besides.
pub proof fn law_conversations_of_one_time_keep_their_order(
    conversations: Seq<Conversation>,
    list: Seq<Conversation>,
    time: i128,
)
    requires
        listed(conversations, list),
    ensures
        of_time(list, time) == of_time(conversations, time),
{
    let sorted = choose|sorted: Seq<Conversation>| #[trigger]
        stably_sorted(conversations, sorted) && list == all_indexed(sorted);
    let value = Conversation { timestamp: time, ..arbitrary::<Conversation>() };
    lemma_of_time(conversations, time, value);
    lemma_of_time(sorted, time, value);
    assert(those_like(sorted, value) == those_like(conversations, value));
    lemma_of_time_same(list, sorted, time);
}

/// The numbers of the files that were read and hold a conversation of a time, in order.
pub open spec fn read_of_time(parsed: Seq<ParsedFile>, time: i128) -> Seq<u64>
    decreases parsed.len(),
{
    if parsed.len() == 0 {
        Seq::empty()
    } else {
        let before = read_of_time(parsed.drop_last(), time);
        match parsed.last().outcome {
            ParseOutcome::Conversation(conversation) => if conversation.timestamp == time {
                before.push(conversation.file)
            } else {
                before
            },
            _ => before,
        }
    }
}

proof fn lemma_read_of_time(parsed: Seq<ParsedFile>, show_last: bool, time: i128)
    ensures
        of_time(read_conversations(parsed, show_last), time) == read_of_time(parsed, time),
    decreases parsed.len(),
{
    if parsed.len() > 0 {
        lemma_read_of_time(parsed.drop_last(), show_last, time);
        let read = read_conversations(parsed, show_last);
        if parsed.last().outcome is Conversation {
            assert(read.drop_last() =~= read_conversations(parsed.drop_last(), show_last));
        }
    }
}

/// A load lists the conversations of the cache and those that were read. Of those of one time the
/// cached ones stand first, and each keep their order.
pub proof fn law_loads_list_cached_conversations_before_read_ones(
    cached: Seq<Conversation>,
    parsed: Seq<ParsedFile>,
    show_last: bool,
    fallback: Place,
    list: Seq<Conversation>,
    time: i128,
)
    requires
        assembled(cached, parsed, show_last, fallback, list),
    ensures
        of_time(list, time) == of_time(cached, time) + read_of_time(parsed, time),
{
    let all = cached + read_conversations(parsed, show_last);
    let ordered = choose|ordered: Seq<Conversation>| #[trigger]
        listed(all, ordered) && list == all_with_project(ordered, fallback);
    law_conversations_of_one_time_keep_their_order(all, ordered, time);
    lemma_of_time_same(list, ordered, time);
    lemma_of_time_append(cached, read_conversations(parsed, show_last), time);
    lemma_read_of_time(parsed, show_last, time);
}

/// Whether a listed conversation is a given one with its project told.
pub open spec fn comes_from(was: Conversation, fallback: Place, now: Conversation) -> bool {
    told_project(was, fallback, now)
}

/// Whether a listed conversation is one that was read: with the preview that was asked for, its end
/// or its start, and its project told.
pub open spec fn comes_from_read(
    was: Conversation,
    show_last: bool,
    fallback: Place,
    now: Conversation,
) -> bool {
    told_project(
        Conversation {
            preview: if show_last {
                was.preview_last
            } else {
                was.preview_first
            },
            ..was
        },
        fallback,
        now,
    )
}

proof fn lemma_read_item(parsed: Seq<ParsedFile>, show_last: bool, k: int) -> (j: int)
    requires
        0 <= k < read_conversations(parsed, show_last).len(),
    ensures
        0 <= j < parsed.len(),
        parsed[j].outcome is Conversation,
        read_conversations(parsed, show_last)[k] == (Conversation {
            preview: if show_last {
                parsed[j].outcome->Conversation_0.preview_last
            } else {
                parsed[j].outcome->Conversation_0.preview_first
            },
            ..parsed[j].outcome->Conversation_0
        }),
    decreases parsed.len(),
{
    let before = read_conversations(parsed.drop_last(), show_last);
    if k < before.len() {
        assert(read_conversations(parsed, show_last)[k] == before[k]);
        lemma_read_item(parsed.drop_last(), show_last, k)
    } else {
        parsed.len() - 1
    }
}

proof fn lemma_listed_item(conversations: Seq<Conversation>, list: Seq<Conversation>, k: int) -> (i:
    int)
    requires
        listed(conversations, list),
        0 <= k < list.len(),
    ensures
        0 <= i < conversations.len(),
        list[k] == (Conversation { index: k as usize, ..conversations[i] }),
{
    let sorted = choose|sorted: Seq<Conversation>| #[trigger]
        stably_sorted(conversations, sorted) && list == all_indexed(sorted);
    crate::history::order::law_sorting_keeps_all_items(conversations, sorted);
    sorted.to_multiset_ensures();
    conversations.to_multiset_ensures();
    assert(sorted.contains(sorted[k]));
    assert(sorted.to_multiset().count(sorted[k]) > 0);
    assert(conversations.contains(sorted[k]));
    choose|i: int| 0 <= i < conversations.len() && conversations[i] == sorted[k]
}

/// Every conversation that a load lists is one of the cache as it is there, or one that was read
/// with the preview that was asked for; and it stands under its own directory, or else under the
/// one that its project's name stands for.
pub proof fn law_loaded_conversations_are_what_was_cached_or_read(
    cached: Seq<Conversation>,
    parsed: Seq<ParsedFile>,
    show_last: bool,
    fallback: Place,
    list: Seq<Conversation>,
    k: int,
)
    requires
        assembled(cached, parsed, show_last, fallback, list),
        0 <= k < list.len(),
    ensures
        (exists|i: int|
            0 <= i < cached.len() && #[trigger] comes_from(cached[i], fallback, list[k])) || (
        exists|j: int|
            0 <= j < parsed.len() && (#[trigger] parsed[j]).outcome is Conversation
                && comes_from_read(
                parsed[j].outcome->Conversation_0,
                show_last,
                fallback,
                list[k],
            )),
{
    let all = cached + read_conversations(parsed, show_last);
    let ordered = choose|ordered: Seq<Conversation>| #[trigger]
        listed(all, ordered) && list == all_with_project(ordered, fallback);
    let i = lemma_listed_item(all, ordered, k);
    if i < cached.len() {
        assert(comes_from(cached[i], fallback, list[k]));
    } else {
        let j = lemma_read_item(parsed, show_last, i - cached.len());
        assert(comes_from_read(
            parsed[j].outcome->Conversation_0,
            show_last,
            fallback,
            list[k],
        ));
    }
}

proof fn lemma_gathered_item(loads: Seq<ProjectLoad>, k: int) -> (at: (int, int))
    requires
        0 <= k < gathered(loads).len(),
    ensures
        0 <= at.0 < loads.len(),
        loads[at.0].conversations is Some,
        0 <= at.1 < loads[at.0].conversations->0@.len(),
        told_project(
            loads[at.0].conversations->0@[at.1],
            loads[at.0].fallback,
            gathered(loads)[k],
        ),
    decreases loads.len(),
{
    let before = gathered(loads.drop_last());
    if k < before.len() {
        assert(gathered(loads)[k] == before[k]);
        lemma_gathered_item(loads.drop_last(), k)
    } else {
        (loads.len() - 1, k - before.len())
    }
}

/// Every conversation in the list of all projects is one that was loaded of a project. It stands
/// under its own directory, or else under the one that the name of that project stands for.
pub proof fn law_listed_conversations_are_of_their_projects(
    loads: Seq<ProjectLoad>,
    list: Seq<Conversation>,
    k: int,
) -> (at: (int, int))
    requires
        listed(gathered(loads), list),
        0 <= k < list.len(),
    ensures
        0 <= at.0 < loads.len(),
        loads[at.0].conversations is Some,
        0 <= at.1 < loads[at.0].conversations->0@.len(),
        told_project(loads[at.0].conversations->0@[at.1], loads[at.0].fallback, list[k]),
{
    let i = lemma_listed_item(gathered(loads), list, k);
    lemma_gathered_item(loads, i)
}

/// The numbers of the files of the conversations of projects of a time, one project after another.
pub open spec fn loaded_of_time(loads: Seq<ProjectLoad>, time: i128) -> Seq<u64>
    decreases loads.len(),
{
    if loads.len() == 0 {
        Seq::empty()
    } else {
        loaded_of_time(loads.drop_last(), time) + match loads.last().conversations {
            Some(conversations) => of_time(conversations@, time),
            None => Seq::empty(),
        }
    }
}

/// The list of all projects holds all conversations that could be loaded. Those of one time stand
/// in the order of their projects.
pub proof fn law_lists_hold_the_conversations_of_all_projects(
    loads: Seq<ProjectLoad>,
    list: Seq<Conversation>,
    time: i128,
)
    requires
        listed(gathered(loads), list),
    ensures
        of_time(list, time) == loaded_of_time(loads, time),
{
    law_conversations_of_one_time_keep_their_order(gathered(loads), list, time);
    lemma_gathered_of_time(loads, time);
}

proof fn lemma_gathered_of_time(loads: Seq<ProjectLoad>, time: i128)
    ensures
        of_time(gathered(loads), time) == loaded_of_time(loads, time),
    decreases loads.len(),
{
    if loads.len() > 0 {
        lemma_gathered_of_time(loads.drop_last(), time);
        let before = gathered(loads.drop_last());
        match loads.last().conversations {
            Some(conversations) => {
                let more = all_with_project(conversations@, loads.last().fallback);
                lemma_of_time_append(before, more, time);
                lemma_of_time_same(more, conversations@, time);
            },
            None => {
                assert(loaded_of_time(loads, time) =~= loaded_of_time(loads.drop_last(), time));
            },
        }
    }
}

/// A file is one of a session if it ends in `.jsonl` and its name does not start with `agent-`.
pub proof fn law_session_files_are_told_by_their_names(file: FileName, unnamed: bool)
    ensures
        holds_session(file, unnamed) <==> {
            &&& file.extension is Some
            &&& file.extension->0@ == seq!['j', 's', 'o', 'n', 'l']
            &&& file.name is None ==> unnamed
            &&& file.name is Some ==> {
                let name = file.name->0@;
                !(name.len() >= 6 && name[0] == 'a' && name[1] == 'g' && name[2] == 'e' && name[3]
                    == 'n' && name[4] == 't' && name[5] == '-')
            }
        },
{
    reveal_strlit("jsonl");
    reveal_strlit("agent-");
    assert("jsonl"@ =~= seq!['j', 's', 'o', 'n', 'l']);
    if file.name is Some {
        let name = file.name->0@;
        if name.len() >= 6 && name[0] == 'a' && name[1] == 'g' && name[2] == 'e' && name[3] == 'n'
            && name[4] == 't' && name[5] == '-' {
            assert(name.take(6) =~= "agent-"@);
        }
        if name.len() >= 6 && name.take(6) == "agent-"@ {
            assert(name[0] == name.take(6)[0]);
            assert(name[1] == name.take(6)[1]);
            assert(name[2] == name.take(6)[2]);
            assert(name[3] == name.take(6)[3]);
            assert(name[4] == name.take(6)[4]);
            assert(name[5] == name.take(6)[5]);
        }
    }
}

/// The session files of a directory are kept in the order in which they were found.
pub proof fn law_session_files_keep_their_order(
    files: Seq<FoundFile>,
    file: FoundFile,
    unnamed: bool,
)
    ensures
        session_files(Seq::empty(), unnamed) == Seq::<FoundFile>::empty(),
        session_files(files.push(file), unnamed) == if holds_session(file.name, unnamed) {
            session_files(files, unnamed).push(file)
        } else {
            session_files(files, unnamed)
        },
{
    assert(files.push(file).drop_last() =~= files);
}

/// The numbers of the files of a time, in order. A file whose time is not known is as old as the
/// epoch.
pub open spec fn files_of_time(files: Seq<FoundFile>, time: i128) -> Seq<u64>
    decreases files.len(),
{
    if files.len() == 0 {
        Seq::empty()
    } else {
        let before = files_of_time(files.drop_last(), time);
        let own: i128 = if files.last().modified is Some {
            files.last().modified->0
        } else {
            0
        };
        if own == time {
            before.push(files.last().file)
        } else {
            before
        }
    }
}

proof fn lemma_files_of_time(files: Seq<FoundFile>, time: i128, value: FoundFile)
    requires
        value.modified == Some(time),
    ensures
        files_of_time(files, time) == Seq::new(
            those_like(files, value).len(),
            |i: int| those_like(files, value)[i].file,
        ),
    decreases files.len(),
{
    if files.len() > 0 {
        lemma_files_of_time(files.drop_last(), time, value);
    }
    assert(files_of_time(files, time) =~= Seq::new(
        those_like(files, value).len(),
        |i: int| those_like(files, value)[i].file,
    ));
}

proof fn lemma_files_of_time_append(a: Seq<FoundFile>, b: Seq<FoundFile>, time: i128)
    ensures
        files_of_time(a + b, time) == files_of_time(a, time) + files_of_time(b, time),
    decreases b.len(),
{
    if b.len() == 0 {
        assert(a + b =~= a);
        assert(files_of_time(a, time) + files_of_time(b, time) =~= files_of_time(a, time));
    } else {
        assert((a + b).drop_last() =~= a + b.drop_last());
        lemma_files_of_time_append(a, b.drop_last(), time);
        assert(files_of_time(a + b, time) =~= files_of_time(a, time) + files_of_time(b, time));
    }
}

proof fn lemma_files_of_time_one(file: FoundFile, time: i128)
    ensures
        files_of_time(seq![file], time) == if (if file.modified is Some {
            file.modified->0
        } else {
            0
        }) == time {
            seq![file.file]
        } else {
            Seq::<u64>::empty()
        },
{
    let one = seq![file];
    assert(one.drop_last() =~= Seq::<FoundFile>::empty());
    assert(files_of_time(one.drop_last(), time) =~= Seq::<u64>::empty());
    assert(files_of_time(one, time) =~= if (if file.modified is Some {
        file.modified->0
    } else {
        0
    }) == time {
        seq![file.file]
    } else {
        Seq::<u64>::empty()
    });
}

proof fn lemma_files_of_time_reverse(files: Seq<FoundFile>, time: i128)
    ensures
        files_of_time(files.reverse(), time) == files_of_time(files, time).reverse(),
    decreases files.len(),
{
    if files.len() == 0 {
        assert(files.reverse() =~= Seq::<FoundFile>::empty());
        assert(files_of_time(files, time).reverse() =~= Seq::<u64>::empty());
    } else {
        let last = files.last();
        let rest = files.drop_last();
        lemma_files_of_time_reverse(rest, time);
        assert(files.reverse() =~= seq![last] + rest.reverse());
        lemma_files_of_time_append(seq![last], rest.reverse(), time);
        lemma_files_of_time_one(last, time);
        let before = files_of_time(rest, time);
        assert(before.push(last.file).reverse() =~= seq![last.file] + before.reverse());
        assert(Seq::<u64>::empty() + before.reverse() =~= before.reverse());
    }
}

/// Files are put in order with the latest first; a file whose time is not known is as old as the
/// epoch. Of those of one time the one that was found last stands first, and no file is lost.
pub proof fn law_files_of_one_time_stand_in_reverse(
    files: Seq<FoundFile>,
    ordered: Seq<FoundFile>,
    time: i128,
)
    requires
        orders_files(files, ordered),
    ensures
        files_of_time(ordered, time) == files_of_time(files, time).reverse(),
        forall|i: int, j: int|
            0 <= i < j < ordered.len() ==> (if ordered[i].modified is Some {
                ordered[i].modified->0
            } else {
                0
            }) >= (if ordered[j].modified is Some {
                ordered[j].modified->0
            } else {
                0
            }),
{
    let value = FoundFile { modified: Some(time), ..arbitrary::<FoundFile>() };
    let back = ordered.reverse();
    lemma_files_of_time(files, time, value);
    lemma_files_of_time(back, time, value);
    assert(those_like(back, value) == those_like(files, value));
    assert(back.reverse() =~= ordered);
    lemma_files_of_time_reverse(back, time);
    crate::history::laws::law_files_are_latest_first(files, ordered);
    assert forall|i: int, j: int| 0 <= i < j < ordered.len() implies (if ordered[i].modified is Some {
        ordered[i].modified->0
    } else {
        0
    }) >= (if ordered[j].modified is Some {
        ordered[j].modified->0
    } else {
        0
    }) by {
        assert(crate::history::loader::time_of(ordered[i]) >= crate::history::loader::time_of(
            ordered[j],
        ));
    }
}

/// A directory is a project if it can be listed and looked at and holds a session file. It is known
/// by its own name, and is as old as the epoch where its time is not known.
pub proof fn law_projects_are_what_their_directories_say(
    entries: Seq<FoundProject>,
    entry: FoundProject,
)
    ensures
        projects_of(Seq::empty()) == Seq::<Project>::empty(),
        ({
            let is_project = entry.is_dir && entry.files is Some && entry.modified is Some
                && exists|i: int|
                0 <= i < entry.files->0@.len() && holds_session(
                    #[trigger] entry.files->0@[i],
                    true,
                );
            projects_of(entries.push(entry)) == if is_project {
                projects_of(entries).push(
                    Project {
                        name: entry.name,
                        display_name: entry.display_name,
                        modified: if entry.modified->0 is Some {
                            entry.modified->0->0
                        } else {
                            0
                        },
                    },
                )
            } else {
                projects_of(entries)
            }
        }),
{
    assert(entries.push(entry).drop_last() =~= entries);
}

/// The names of the projects of a time, in order.
pub open spec fn projects_of_time(projects: Seq<Project>, time: i128) -> Seq<String>
    decreases projects.len(),
{
    if projects.len() == 0 {
        Seq::empty()
    } else if projects.last().modified == time {
        projects_of_time(projects.drop_last(), time).push(projects.last().name)
    } else {
        projects_of_time(projects.drop_last(), time)
    }
}

proof fn lemma_projects_of_time(projects: Seq<Project>, time: i128, value: Project)
    requires
        value.modified == time,
    ensures
        projects_of_time(projects, time) == Seq::new(
            those_like(projects, value).len(),
            |i: int| those_like(projects, value)[i].name,
        ),
    decreases projects.len(),
{
    if projects.len() > 0 {
        lemma_projects_of_time(projects.drop_last(), time, value);
    }
    assert(projects_of_time(projects, time) =~= Seq::new(
        those_like(projects, value).len(),
        |i: int| those_like(projects, value)[i].name,
    ));
}

/// Projects are listed with the latest first. Those of one time keep their order, and none is lost.
pub proof fn law_projects_are_listed_latest_first(
    entries: Seq<FoundProject>,
    list: Seq<Project>,
    time: i128,
)
    requires
        lists_projects(entries, list),
    ensures
        projects_of_time(list, time) == projects_of_time(projects_of(entries), time),
        forall|i: int, j: int|
            0 <= i < j < list.len() ==> list[i].modified >= list[j].modified,
{
    let projects = projects_of(entries);
    let value = Project { modified: time, ..arbitrary::<Project>() };
    lemma_projects_of_time(projects, time, value);
    lemma_projects_of_time(list, time, value);
    assert(those_like(list, value) == those_like(projects, value));
    assert forall|i: int, j: int| 0 <= i < j < list.len() implies list[i].modified
        >= list[j].modified by {
        assert(crate::history::order::Ordered::goes_before(&list[i], &list[j]));
    }
}

/// The cache speaks for a file whose time is known and whose entry is of the file as it is: with
/// the conversation, or with nothing where the file holds none. Every other file is read. The cache
/// is written anew where a file was read or the number of files is another.
pub proof fn law_the_cache_speaks_for_unchanged_files(
    files: Seq<LoadFile>,
    file: LoadFile,
    cached_entries: usize,
)
    ensures
        hits(Seq::empty()) == Seq::<Conversation>::empty(),
        misses(Seq::empty()) == Seq::<FoundFile>::empty(),
        ({
            let known = file.found.modified is Some && file.cached is Some;
            let all = files.push(file);
            &&& known && file.cached->0 is Conversation ==> hits(all) == hits(files).push(
                file.cached->0->Conversation_0,
            ) && misses(all) == misses(files)
            &&& known && file.cached->0 is Empty ==> hits(all) == hits(files) && misses(all)
                == misses(files)
            &&& !known || file.cached->0 is Stale ==> hits(all) == hits(files) && misses(all)
                == misses(files).push(file.found)
        }),
        is_stale(files, cached_entries) <==> misses(files).len() != 0 || files.len()
            != cached_entries,
{
    assert(files.push(file).drop_last() =~= files);
}

/// A plan takes what the cache has, names what it has not, and asks for the cache to be written anew
/// where a file has to be read or the number of files is another.
pub proof fn law_plans_follow_the_cache(
    files: Seq<LoadFile>,
    cached_entries: usize,
    plan: LoadPlan,
)
    requires
        plans_load(files, cached_entries, plan),
    ensures
        plan.conversations@ == hits(files),
        plan.files_to_parse@ == misses(files),
        plan.dirty <==> plan.files_to_parse@.len() > 0 || files.len() != cached_entries,
{
}

/// A load hands out caches if and only if its plan asks for them, and they are those of what it lists
/// and of what was read.
pub proof fn law_caches_are_written_where_the_plan_asks_for_it(
    plan: LoadPlan,
    files: Seq<FoundFile>,
    parsed: Seq<ParsedFile>,
    show_last: bool,
    fallback: Place,
    loaded: Loaded,
)
    requires
        completes_load(plan, files, parsed, show_last, fallback, loaded),
    ensures
        loaded.caches is Some <==> plan.dirty,
        loaded.caches is Some ==> loaded.caches->0.records@ == new_records(
            loaded.conversations@,
            files,
            parsed,
        ) && inserts_of(parsed, loaded.caches->0.inserts@),
        assembled(plan.conversations@, parsed, show_last, fallback, loaded.conversations@),
{
}

proof fn lemma_file_of(files: Seq<FoundFile>, f: int)
    requires
        0 <= f < files.len(),
        forall|g: int| 0 <= g < f ==> (#[trigger] files[g]).file != files[f].file,
    ensures
        file_of(files, files[f].file) == Some(files[f]),
    decreases files.len(),
{
    let rest = files.drop_last();
    if f < files.len() - 1 {
        assert forall|g: int| 0 <= g < f implies (#[trigger] rest[g]).file != rest[f].file by {
            assert(rest[g] == files[g]);
        }
        lemma_file_of(rest, f);
    } else {
        lemma_no_file_of(rest, files[f].file);
    }
}

proof fn lemma_no_file_of(files: Seq<FoundFile>, file: u64)
    requires
        forall|g: int| 0 <= g < files.len() ==> (#[trigger] files[g]).file != file,
    ensures
        file_of(files, file) is None,
    decreases files.len(),
{
    if files.len() > 0 {
        assert(files[files.len() - 1].file != file);
        assert forall|g: int| 0 <= g < files.drop_last().len() implies (
        #[trigger] files.drop_last()[g]).file != file by {
            assert(files[g].file != file);
        }
        lemma_no_file_of(files.drop_last(), file);
    }
}

/// The name under which a cache keeps a conversation or a file.
pub open spec fn kept_under(name: Option<String>) -> Seq<char> {
    if name is Some {
        name->0@
    } else {
        "unknown"@
    }
}

proof fn lemma_record_stays(
    conversations: Seq<Conversation>,
    files: Seq<FoundFile>,
    at: int,
    n: int,
)
    requires
        0 <= at < n <= conversations.len(),
        forall|i: int|
            at < i < conversations.len() ==> kept_under((#[trigger] conversations[i]).name)
                != kept_under(conversations[at].name),
    ensures
        ({
            let name = kept_under(conversations[at].name);
            let all = conversation_records(conversations.take(n), files);
            let then = conversation_records(conversations.take(at + 1), files);
            all.contains_key(name) == then.contains_key(name) && all[name] == then[name]
        }),
    decreases n,
{
    if n > at + 1 {
        lemma_record_stays(conversations, files, at, n - 1);
        assert(conversations.take(n).drop_last() =~= conversations.take(n - 1));
        assert(conversations.take(n).last() == conversations[n - 1]);
    }
}

proof fn lemma_no_record(conversations: Seq<Conversation>, files: Seq<FoundFile>, name: Seq<char>)
    requires
        forall|i: int|
            0 <= i < conversations.len() ==> kept_under((#[trigger] conversations[i]).name) != name,
    ensures
        !conversation_records(conversations, files).contains_key(name),
    decreases conversations.len(),
{
    if conversations.len() > 0 {
        assert forall|i: int| 0 <= i < conversations.drop_last().len() implies kept_under(
            (#[trigger] conversations.drop_last()[i]).name,
        ) != name by {
            assert(conversations[i] == conversations.drop_last()[i]);
        }
        lemma_no_record(conversations.drop_last(), files, name);
        assert(kept_under(conversations[conversations.len() - 1].name) != name);
    }
}

proof fn lemma_other_empties(
    records: Map<Seq<char>, CacheRecord>,
    parsed: Seq<ParsedFile>,
    name: Seq<char>,
)
    requires
        forall|i: int|
            0 <= i < parsed.len() && (#[trigger] parsed[i]).outcome is Empty ==> kept_under(
                parsed[i].found.name.name,
            ) != name,
    ensures
        ({
            let all = with_empty_records(records, parsed);
            all.contains_key(name) == records.contains_key(name) && all[name] == records[name]
        }),
    decreases parsed.len(),
{
    if parsed.len() > 0 {
        assert forall|i: int|
            0 <= i < parsed.drop_last().len() && (
            #[trigger] parsed.drop_last()[i]).outcome is Empty implies kept_under(
            parsed.drop_last()[i].found.name.name,
        ) != name by {
            assert(parsed[i] == parsed.drop_last()[i]);
        }
        lemma_other_empties(records, parsed.drop_last(), name);
        let last = parsed[parsed.len() - 1];
        assert(last == parsed.last());
    }
}

/// After a load the cache holds each conversation of a file of a known time under the file's name,
/// with its place in the list and the size and the time of the file: the last one where several share
/// a name. One of a file of unknown time is not kept.
pub proof fn law_conversations_are_cached_as_their_files_are(
    conversations: Seq<Conversation>,
    files: Seq<FoundFile>,
    parsed: Seq<ParsedFile>,
    at: int,
    f: int,
)
    requires
        0 <= at < conversations.len() <= usize::MAX,
        forall|i: int|
            at < i < conversations.len() ==> kept_under((#[trigger] conversations[i]).name)
                != kept_under(conversations[at].name),
        forall|i: int|
            0 <= i < parsed.len() && (#[trigger] parsed[i]).outcome is Empty ==> kept_under(
                parsed[i].found.name.name,
            ) != kept_under(conversations[at].name),
        0 <= f < files.len(),
        files[f].file == conversations[at].file,
        forall|g: int| 0 <= g < f ==> (#[trigger] files[g]).file != files[f].file,
    ensures
        ({
            let records = new_records(conversations, files, parsed);
            let name = kept_under(conversations[at].name);
            &&& files[f].modified is Some ==> records.contains_key(name) && records[name]
                == CacheRecord::Conversation {
                index: at as usize,
                size: files[f].size,
                mtime: files[f].modified->0,
            }
            &&& files[f].modified is None && (forall|i: int|
                0 <= i < at ==> kept_under((#[trigger] conversations[i]).name) != name)
                ==> !records.contains_key(name)
        }),
{
    let name = kept_under(conversations[at].name);
    lemma_file_of(files, f);
    lemma_record_stays(conversations, files, at, conversations.len() as int);
    assert(conversations.take(conversations.len() as int) =~= conversations);
    let upto = conversations.take(at + 1);
    assert(upto.drop_last() =~= conversations.take(at));
    assert(upto.last() == conversations[at]);
    if forall|i: int| 0 <= i < at ==> kept_under((#[trigger] conversations[i]).name) != name {
        assert forall|i: int| 0 <= i < conversations.take(at).len() implies kept_under(
            (#[trigger] conversations.take(at)[i]).name,
        ) != name by {
            assert(conversations[i] == conversations.take(at)[i]);
        }
        lemma_no_record(conversations.take(at), files, name);
    }
    lemma_other_empties(conversation_records(conversations, files), parsed, name);
}

proof fn lemma_empty_stays(
    records: Map<Seq<char>, CacheRecord>,
    parsed: Seq<ParsedFile>,
    at: int,
    n: int,
)
    requires
        0 <= at < n <= parsed.len(),
        forall|i: int|
            at < i < parsed.len() && (#[trigger] parsed[i]).outcome is Empty ==> kept_under(
                parsed[i].found.name.name,
            ) != kept_under(parsed[at].found.name.name),
    ensures
        ({
            let name = kept_under(parsed[at].found.name.name);
            let all = with_empty_records(records, parsed.take(n));
            let then = with_empty_records(records, parsed.take(at + 1));
            all.contains_key(name) == then.contains_key(name) && all[name] == then[name]
        }),
    decreases n,
{
    if n > at + 1 {
        lemma_empty_stays(records, parsed, at, n - 1);
        assert(parsed.take(n).drop_last() =~= parsed.take(n - 1));
        assert(parsed.take(n).last() == parsed[n - 1]);
    }
}

/// After a load the cache holds that a file has no conversation, with the file's size and time,
/// where the file was read and its time is known.
pub proof fn law_empty_files_are_cached_as_they_are(
    conversations: Seq<Conversation>,
    files: Seq<FoundFile>,
    parsed: Seq<ParsedFile>,
    at: int,
)
    requires
        0 <= at < parsed.len(),
        parsed[at].outcome is Empty,
        parsed[at].found.modified is Some,
        forall|i: int|
            at < i < parsed.len() && (#[trigger] parsed[i]).outcome is Empty ==> kept_under(
                parsed[i].found.name.name,
            ) != kept_under(parsed[at].found.name.name),
    ensures
        ({
            let records = new_records(conversations, files, parsed);
            let name = kept_under(parsed[at].found.name.name);
            records.contains_key(name) && records[name] == CacheRecord::Empty {
                size: parsed[at].found.size,
                mtime: parsed[at].found.modified->0,
            }
        }),
{
    let records = conversation_records(conversations, files);
    lemma_empty_stays(records, parsed, at, parsed.len() as int);
    assert(parsed.take(parsed.len() as int) =~= parsed);
    assert(parsed.take(at + 1).drop_last() =~= parsed.take(at));
    assert(parsed.take(at + 1).last() == parsed[at]);
    assert(empty_record(parsed[at]) is Some);
}

proof fn lemma_freshly_read(parsed: Seq<ParsedFile>, j: int) -> (i: int)
    requires
        0 <= j < parsed.len(),
        parsed[j].outcome is Conversation,
        parsed[j].found.modified is Some,
    ensures
        0 <= i < freshly_read(parsed).len(),
        freshly_read(parsed)[i] == j,
    decreases parsed.len(),
{
    let all = freshly_read(parsed);
    if j == parsed.len() - 1 {
        all.len() - 1
    } else {
        assert(parsed.drop_last()[j] == parsed[j]);
        let i = lemma_freshly_read(parsed.drop_last(), j);
        assert(all[i] == freshly_read(parsed.drop_last())[i]);
        i
    }
}

proof fn lemma_freshly_read_only(parsed: Seq<ParsedFile>)
    ensures
        forall|i: int|
            0 <= i < freshly_read(parsed).len() ==> {
                let j = #[trigger] freshly_read(parsed)[i];
                &&& 0 <= j < parsed.len()
                &&& parsed[j].outcome is Conversation
                &&& parsed[j].found.modified is Some
            },
        forall|i: int, k: int|
            0 <= i < k < freshly_read(parsed).len() ==> freshly_read(parsed)[i] < freshly_read(
                parsed,
            )[k],
    decreases parsed.len(),
{
    if parsed.len() > 0 {
        let rest = parsed.drop_last();
        lemma_freshly_read_only(rest);
        let before = freshly_read(rest);
        let all = freshly_read(parsed);
        assert forall|i: int| 0 <= i < all.len() implies {
            let j = #[trigger] all[i];
            &&& 0 <= j < parsed.len()
            &&& parsed[j].outcome is Conversation
            &&& parsed[j].found.modified is Some
        } by {
            if i < before.len() {
                assert(all[i] == before[i]);
                assert(rest[before[i]] == parsed[before[i]]);
            }
        }
        assert forall|i: int, k: int| 0 <= i < k < all.len() implies all[i] < all[k] by {
            assert(all[i] == before[i]);
            if k < before.len() {
                assert(all[k] == before[k]);
            }
        }
    }
}

/// Whether what goes to the search cache is the text of a file that was read.
pub open spec fn keeps_text(
    name: Option<String>,
    text: Seq<char>,
    found: FoundFile,
    unnamed: Seq<char>,
    insert: SearchInsert,
) -> bool {
    &&& insert.name@ == if name is Some {
        name->0@
    } else {
        unnamed
    }
    &&& insert.full_text@ == text
    &&& insert.size == found.size
    &&& found.modified == Some(insert.mtime)
}

/// After a load the texts of the conversations that were read go to the search cache, each under
/// the name of its file and with the file's size and time, where that is known; and no others do.
pub proof fn law_texts_that_were_read_are_cached(
    parsed: Seq<ParsedFile>,
    inserts: Seq<SearchInsert>,
)
    requires
        inserts_of(parsed, inserts),
    ensures
        forall|j: int|
            0 <= j < parsed.len() && (#[trigger] parsed[j]).outcome is Conversation
                && parsed[j].found.modified is Some ==> exists|i: int|
                0 <= i < inserts.len() && keeps_text(
                    parsed[j].found.name.name,
                    parsed[j].outcome->Conversation_0.full_text@,
                    parsed[j].found,
                    "unknown"@,
                    #[trigger] inserts[i],
                ),
        forall|i: int|
            0 <= i < inserts.len() ==> exists|j: int|
                0 <= j < parsed.len() && (#[trigger] parsed[j]).outcome is Conversation
                    && keeps_text(
                    parsed[j].found.name.name,
                    parsed[j].outcome->Conversation_0.full_text@,
                    parsed[j].found,
                    "unknown"@,
                    #[trigger] inserts[i],
                ),
        inserts.len() <= parsed.len(),
{
    lemma_freshly_read_only(parsed);
    assert forall|j: int|
        0 <= j < parsed.len() && (#[trigger] parsed[j]).outcome is Conversation
            && parsed[j].found.modified is Some implies exists|i: int|
        0 <= i < inserts.len() && keeps_text(
            parsed[j].found.name.name,
            parsed[j].outcome->Conversation_0.full_text@,
            parsed[j].found,
            "unknown"@,
            #[trigger] inserts[i],
        ) by {
        let i = lemma_freshly_read(parsed, j);
        assert(keeps_text(
            parsed[j].found.name.name,
            parsed[j].outcome->Conversation_0.full_text@,
            parsed[j].found,
            "unknown"@,
            inserts[i],
        ));
    }
    assert forall|i: int| 0 <= i < inserts.len() implies exists|j: int|
        0 <= j < parsed.len() && (#[trigger] parsed[j]).outcome is Conversation && keeps_text(
            parsed[j].found.name.name,
            parsed[j].outcome->Conversation_0.full_text@,
            parsed[j].found,
            "unknown"@,
            #[trigger] inserts[i],
        ) by {
        let j = freshly_read(parsed)[i];
        assert(parsed[j].outcome is Conversation);
    }
    lemma_freshly_read_len(parsed);
}

proof fn lemma_freshly_read_len(parsed: Seq<ParsedFile>)
    ensures
        freshly_read(parsed).len() <= parsed.len(),
    decreases parsed.len(),
{
    if parsed.len() > 0 {
        lemma_freshly_read_len(parsed.drop_last());
    }
}

/// The text of a file is that of the search cache, where the file's time is known and the entry is
/// of the file as it is; else it is what was read of the file, where anything was. What was read of
/// a file of known time, and only that, goes to the cache.
pub proof fn law_texts_are_cached_or_read(
    files: Seq<SearchFile>,
    file: SearchFile,
    read: Seq<Option<String>>,
)
    requires
        read.len() == files.len() + 1,
    ensures
        texts_of(Seq::empty(), read) == Seq::<SearchText>::empty(),
        fresh(Seq::empty(), read) == Seq::<int>::empty(),
        ({
            let hit = file.found.modified is Some && file.cached is Some && file.cached->0.matches;
            let all = files.push(file);
            &&& hit ==> texts_of(all, read) == texts_of(files, read).push(
                SearchText { file: file.found.file, full_text: file.cached->0.full_text },
            ) && fresh(all, read) == fresh(files, read)
            &&& !hit && read.last() is Some ==> texts_of(all, read) == texts_of(files, read).push(
                SearchText { file: file.found.file, full_text: read.last()->0 },
            )
            &&& !hit && read.last() is None ==> texts_of(all, read) == texts_of(files, read)
                && fresh(all, read) == fresh(files, read)
            &&& !hit && read.last() is Some ==> fresh(all, read) == if file.found.modified is Some {
                fresh(files, read).push(files.len() as int)
            } else {
                fresh(files, read)
            }
        }),
{
    assert(files.push(file).drop_last() =~= files);
}

/// What goes to the search cache of a file is the text that was read of it, under the file's name
/// and with its size and time.
pub proof fn law_texts_are_cached_under_their_files(
    found: FoundFile,
    text: Seq<char>,
    insert: SearchInsert,
)
    ensures
        crate::history::search::insert_of(found, text, insert) <==> keeps_text(
            found.name.name,
            text,
            found,
            ""@,
            insert,
        ),
{
}

/// Of the conversations of a file the first takes the text of the file, the last one where several
/// are given; every other conversation stays as it is, and nothing but the texts changes.
pub proof fn law_the_first_conversation_of_a_file_takes_its_last_text(
    conversations: Seq<Conversation>,
    texts: Seq<NormalizedText>,
    at: int,
    k: int,
)
    requires
        0 <= at < conversations.len(),
        0 <= k < texts.len(),
        texts[k].file == conversations[at].file,
        forall|j: int| k < j < texts.len() ==> (#[trigger] texts[j]).file != texts[k].file,
    ensures
        ({
            let was = conversations[at];
            let now = with_text(conversations, at, texts);
            let first = forall|i: int|
                0 <= i < at ==> (#[trigger] conversations[i]).file != was.file;
            &&& first ==> now == (Conversation {
                full_text: texts[k].full_text,
                search_text_lower: texts[k].search_text_lower,
                ..was
            })
            &&& !first ==> now == was
        }),
{
    lemma_last_text(texts, k);
}

proof fn lemma_last_text(texts: Seq<NormalizedText>, k: int)
    requires
        0 <= k < texts.len(),
        forall|j: int| k < j < texts.len() ==> (#[trigger] texts[j]).file != texts[k].file,
    ensures
        crate::history::search::text_of(texts, texts[k].file) == Some(texts[k]),
    decreases texts.len(),
{
    if k < texts.len() - 1 {
        assert(texts[texts.len() - 1].file != texts[k].file);
        let rest = texts.drop_last();
        assert forall|j: int| k < j < rest.len() implies (#[trigger] rest[j]).file != rest[k].file by {
            assert(texts[j].file != texts[k].file);
        }
        lemma_last_text(rest, k);
    }
}

/// An identifier is one of a session if it is not empty and holds ASCII letters, digits and dashes
/// alone. Any other is refused under its own name.
pub proof fn law_session_ids_are_letters_digits_and_dashes(id: Seq<char>)
    ensures
        valid_id(id) <==> id.len() != 0 && forall|i: int|
            0 <= i < id.len() ==> {
                let c = #[trigger] id[i];
                ||| c == '-'
                ||| 48 <= c as int <= 57
                ||| 65 <= c as int <= 90
                ||| 97 <= c as int <= 122
            },
{
    if valid_id(id) {
        assert forall|i: int| 0 <= i < id.len() implies {
            let c = #[trigger] id[i];
            ||| c == '-'
            ||| 48 <= c as int <= 57
            ||| 65 <= c as int <= 90
            ||| 97 <= c as int <= 122
        } by {
            assert(crate::history::session::id_char(id[i]));
        }
    }
}

/// The first project that holds a session is the first one of the list that is a directory with its
/// file, and a later one is never found before an earlier one.
pub proof fn law_sessions_are_found_from_the_first_project_on(
    entries: Seq<ProjectEntry>,
    entry: ProjectEntry,
)
    ensures
        holders(Seq::empty()) == Seq::<usize>::empty(),
        holders(entries.push(entry)) == if entry.is_dir && entry.has_session {
            holders(entries).push(entries.len() as usize)
        } else {
            holders(entries)
        },
{
    assert(entries.push(entry).drop_last() =~= entries);
}

/// A deletion removes the file that is named like the session, with the extension `.jsonl`, and the
/// directory that is named like the session, in the project where the session was found.
pub proof fn law_deletions_remove_what_is_named_like_the_session(
    id: Seq<char>,
    projects: Seq<usize>,
    removals: Seq<SessionRemoval>,
    i: int,
)
    requires
        removes_session(id, projects, removals),
        0 <= i < projects.len(),
    ensures
        removals.len() == projects.len(),
        removals[i].project == projects[i],
        removals[i].file@ == id + seq!['.', 'j', 's', 'o', 'n', 'l'],
        removals[i].session_dir@ == id,
{
    reveal_strlit(".jsonl");
    assert(".jsonl"@ =~= seq!['.', 'j', 's', 'o', 'n', 'l']);
}

/// A refusal names the session that was asked for and is no other error.
pub proof fn law_refusals_name_the_session<T>(
    result: std::result::Result<T, AppError>,
    id: Seq<char>,
)
    requires
        refuses(result, id),
    ensures
        result matches Err(error) && error is SessionNotFound && error->SessionNotFound_0@ == id,
{
}

/// A project that could not be loaded is told as an error, one with conversations as a batch of all
/// of them in order, each with its project, and one without conversations not at all.
pub proof fn law_each_project_is_told_as_it_was_loaded(
    left: usize,
    projects: usize,
    load: ProjectLoad,
    messages: Seq<LoaderMessage>,
)
    requires
        tells(LoaderPhase::Loading { left, projects }, LoaderEvent::Project(load), messages),
    ensures
        ({
            let end: nat = if left > 1 {
                0
            } else {
                1
            };
            &&& left <= 1 ==> messages.len() > 0 && messages.last() is Done
            &&& load.conversations is None ==> messages.len() == 1 + end
                && messages[0] is ProjectError
            &&& load.conversations is Some && load.conversations->0@.len() == 0 ==> messages.len()
                == end
            &&& load.conversations is Some && load.conversations->0@.len() > 0 ==> {
                &&& messages.len() == 1 + end
                &&& messages[0] is Batch
                &&& messages[0]->Batch_0@.len() == load.conversations->0@.len()
                &&& forall|i: int|
                    0 <= i < messages[0]->Batch_0@.len() ==> told_project(
                        load.conversations->0@[i],
                        load.fallback,
                        #[trigger] messages[0]->Batch_0@[i],
                    )
            }
        }),
{
    if left <= 1 {
        assert(messages.drop_last().len() == messages.len() - 1);
        if messages.len() > 1 {
            assert(messages.drop_last()[0] == messages[0]);
        }
    }
}

/// The texts of a project are told as they are, in one message, where there are any.
pub proof fn law_the_texts_of_each_project_are_told(
    left: usize,
    texts: Vec<SearchText>,
    messages: Seq<LoaderMessage>,
)
    requires
        tells(LoaderPhase::Searching { left }, LoaderEvent::Texts(texts), messages),
    ensures
        ({
            let end: nat = if left > 1 {
                0
            } else {
                1
            };
            &&& left <= 1 ==> messages.len() > 0 && messages.last() is SearchDone
            &&& texts@.len() == 0 ==> messages.len() == end
            &&& texts@.len() > 0 ==> messages.len() == 1 + end && messages[0]
                == LoaderMessage::SearchBatch(texts)
        }),
{
    if left <= 1 {
        assert(messages.drop_last().len() == messages.len() - 1);
        if messages.len() > 1 {
            assert(messages.drop_last()[0] == messages[0]);
        }
    }
}

/// Whether an event is one that the loader waits for in a phase.
pub open spec fn awaited(phase: LoaderPhase, event: LoaderEvent) -> bool {
    match phase {
        LoaderPhase::Start => event is Root,
        LoaderPhase::Listing => event is Projects,
        LoaderPhase::Loading { left, projects } => event is Project,
        LoaderPhase::Searching { left } => event is Texts,
        LoaderPhase::Ended => false,
    }
}

/// An event that the loader does not wait for changes nothing, and nothing is told of it.
pub proof fn law_events_out_of_place_are_passed_over(
    phase: LoaderPhase,
    event: LoaderEvent,
    messages: Seq<LoaderMessage>,
)
    requires
        !awaited(phase, event),
        tells(phase, event, messages),
    ensures
        phase_after(phase, event) == phase,
        messages.len() == 0,
{
}

/// Where the projects cannot be looked for or listed, the error is told as it is, and where their
/// directory is not there, that is told with its path.
pub proof fn law_what_stops_the_loader_is_told(
    root: std::result::Result<ProjectsRoot, AppError>,
    projects: std::result::Result<usize, AppError>,
    messages: Seq<LoaderMessage>,
)
    ensures
        tells(LoaderPhase::Start, LoaderEvent::Root(root), messages) ==> {
            &&& root is Err ==> messages.len() == 1 && messages[0] == LoaderMessage::Fatal(
                root->Err_0,
            )
            &&& root is Ok && root->Ok_0.exists ==> messages.len() == 0
            &&& root is Ok && !root->Ok_0.exists ==> messages.len() == 1 && messages[0]
                == LoaderMessage::Fatal(AppError::ProjectsDirNotFound(root->Ok_0.path))
        },
        tells(LoaderPhase::Listing, LoaderEvent::Projects(projects), messages) ==> {
            &&& projects is Err ==> messages.len() == 1 && messages[0] == LoaderMessage::Fatal(
                projects->Err_0,
            )
            &&& projects is Ok && projects->Ok_0 > 0 ==> messages.len() == 0
        },
{
}

} // verus!
