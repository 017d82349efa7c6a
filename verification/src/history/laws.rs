//! What holds of every load.

use crate::history::loader::{
    all_indexed, all_with_project, assembled, cached_conversation, conversation_name,
    conversation_records, empty_record, hits, is_hit, listed, misses, new_records,
    read_conversations, record_of, session_files, time_of, with_empty_records, CacheRecord,
    LoadFile, ParseOutcome, ParsedFile,
};
use crate::history::order::{law_sorting_keeps_all_items, stably_sorted, Ordered};
use crate::history::projects::{project_of, projects_of, FoundProject};
use crate::history::search::cache_name;
use crate::history::session::holds_session;
use crate::history::types::{Conversation, FoundFile, Place};
use vstd::prelude::*;

verus! {

proof fn lemma_conversation_records(
    conversations: Seq<Conversation>,
    files: Seq<FoundFile>,
    name: Seq<char>,
)
    ensures
        conversation_records(conversations, files).contains_key(name) <==> exists|i: int|
            0 <= i < conversations.len() && conversation_name(#[trigger] conversations[i]) == name
                && record_of(conversations[i], i, files) is Some,
    decreases conversations.len(),
{
    if conversations.len() > 0 {
        let rest = conversations.drop_last();
        lemma_conversation_records(rest, files, name);
        if exists|i: int|
            0 <= i < rest.len() && conversation_name(#[trigger] rest[i]) == name && record_of(
                rest[i],
                i,
                files,
            ) is Some {
            let i = choose|i: int|
                0 <= i < rest.len() && conversation_name(#[trigger] rest[i]) == name && record_of(
                    rest[i],
                    i,
                    files,
                ) is Some;
            assert(conversations[i] == rest[i]);
        }
        if exists|i: int|
            0 <= i < conversations.len() && conversation_name(#[trigger] conversations[i]) == name
                && record_of(conversations[i], i, files) is Some {
            let i = choose|i: int|
                0 <= i < conversations.len() && conversation_name(#[trigger] conversations[i])
                    == name && record_of(conversations[i], i, files) is Some;
            if i < rest.len() {
                assert(rest[i] == conversations[i]);
            }
        }
        assert(conversations[conversations.len() - 1] == conversations.last());
    }
}

proof fn lemma_empty_records(
    records: Map<Seq<char>, CacheRecord>,
    parsed: Seq<ParsedFile>,
    name: Seq<char>,
)
    ensures
        with_empty_records(records, parsed).contains_key(name) <==> records.contains_key(name)
            || exists|i: int|
            0 <= i < parsed.len() && cache_name((#[trigger] parsed[i]).found, "unknown"@) == name
                && empty_record(parsed[i]) is Some,
        (exists|i: int|
            0 <= i < parsed.len() && cache_name((#[trigger] parsed[i]).found, "unknown"@) == name
                && empty_record(parsed[i]) is Some) ==> with_empty_records(
            records,
            parsed,
        )[name] is Empty,
    decreases parsed.len(),
{
    if parsed.len() > 0 {
        let rest = parsed.drop_last();
        lemma_empty_records(records, rest, name);
        if exists|i: int|
            0 <= i < rest.len() && cache_name((#[trigger] rest[i]).found, "unknown"@) == name
                && empty_record(rest[i]) is Some {
            let i = choose|i: int|
                0 <= i < rest.len() && cache_name((#[trigger] rest[i]).found, "unknown"@) == name
                    && empty_record(rest[i]) is Some;
            assert(parsed[i] == rest[i]);
        }
        if exists|i: int|
            0 <= i < parsed.len() && cache_name((#[trigger] parsed[i]).found, "unknown"@) == name
                && empty_record(parsed[i]) is Some {
            let i = choose|i: int|
                0 <= i < parsed.len() && cache_name((#[trigger] parsed[i]).found, "unknown"@)
                    == name && empty_record(parsed[i]) is Some;
            if i < rest.len() {
                assert(rest[i] == parsed[i]);
            }
        }
        assert(parsed[parsed.len() - 1] == parsed.last());
    }
}

/// A file that could not be read leaves no entry in the cache, so that it is read again the next
/// time: a name stands in the cache only where a conversation or a file without one has it.
pub proof fn law_failures_are_not_cached(
    conversations: Seq<Conversation>,
    files: Seq<FoundFile>,
    parsed: Seq<ParsedFile>,
    at: int,
)
    requires
        0 <= at < parsed.len(),
        parsed[at].outcome is Failed,
        forall|i: int|
            0 <= i < conversations.len() ==> conversation_name(#[trigger] conversations[i])
                != cache_name(parsed[at].found, "unknown"@),
        forall|i: int|
            0 <= i < parsed.len() && i != at ==> cache_name(
                (#[trigger] parsed[i]).found,
                "unknown"@,
            ) != cache_name(parsed[at].found, "unknown"@),
    ensures
        !new_records(conversations, files, parsed).contains_key(
            cache_name(parsed[at].found, "unknown"@),
        ),
{
    let name = cache_name(parsed[at].found, "unknown"@);
    lemma_conversation_records(conversations, files, name);
    lemma_empty_records(conversation_records(conversations, files), parsed, name);
}

/// A file that was read and holds no conversation is remembered as such, where its time is known.
pub proof fn law_empty_files_are_cached(
    conversations: Seq<Conversation>,
    files: Seq<FoundFile>,
    parsed: Seq<ParsedFile>,
    at: int,
)
    requires
        0 <= at < parsed.len(),
        parsed[at].outcome is Empty,
        parsed[at].found.modified is Some,
    ensures
        new_records(conversations, files, parsed).contains_key(
            cache_name(parsed[at].found, "unknown"@),
        ),
        new_records(conversations, files, parsed)[cache_name(
            parsed[at].found,
            "unknown"@,
        )] is Empty,
{
    let name = cache_name(parsed[at].found, "unknown"@);
    assert(empty_record(parsed[at]) is Some);
    lemma_empty_records(conversation_records(conversations, files), parsed, name);
}

/// A conversation of a file with a known time is remembered.
pub proof fn law_conversations_are_cached(
    conversations: Seq<Conversation>,
    files: Seq<FoundFile>,
    parsed: Seq<ParsedFile>,
    at: int,
)
    requires
        0 <= at < conversations.len(),
        record_of(conversations[at], at, files) is Some,
    ensures
        new_records(conversations, files, parsed).contains_key(
            conversation_name(conversations[at]),
        ),
{
    let name = conversation_name(conversations[at]);
    lemma_conversation_records(conversations, files, name);
    lemma_empty_records(conversation_records(conversations, files), parsed, name);
}

/// In a list the latest conversation stands first, and each knows its place. All conversations
/// are there.
pub proof fn law_lists_are_latest_first(conversations: Seq<Conversation>, list: Seq<Conversation>)
    requires
        listed(conversations, list),
        conversations.len() <= usize::MAX,
    ensures
        list.len() == conversations.len(),
        exists|sorted: Seq<Conversation>|
            sorted.to_multiset() == conversations.to_multiset() && list == #[trigger] all_indexed(
                sorted,
            ),
        forall|i: int, j: int|
            0 <= i < j < list.len() ==> list[i].timestamp >= list[j].timestamp,
        forall|i: int| 0 <= i < list.len() ==> (#[trigger] list[i]).index == i,
{
    let sorted = choose|sorted: Seq<Conversation>| #[trigger]
        stably_sorted(conversations, sorted) && list == all_indexed(sorted);
    law_sorting_keeps_all_items(conversations, sorted);
    sorted.to_multiset_ensures();
    conversations.to_multiset_ensures();
    assert forall|i: int, j: int| 0 <= i < j < list.len() implies list[i].timestamp
        >= list[j].timestamp by {
        assert(sorted[i].goes_before(&sorted[j]));
    }
}

/// The conversations of a project stand latest first, each with its place, and each has a
/// project.
pub proof fn law_loaded_conversations_are_latest_first(
    cached: Seq<Conversation>,
    parsed: Seq<ParsedFile>,
    show_last: bool,
    fallback: Place,
    list: Seq<Conversation>,
)
    requires
        assembled(cached, parsed, show_last, fallback, list),
        cached.len() + parsed.len() <= usize::MAX,
    ensures
        forall|i: int, j: int|
            0 <= i < j < list.len() ==> list[i].timestamp >= list[j].timestamp,
        forall|i: int| 0 <= i < list.len() ==> (#[trigger] list[i]).index == i,
        forall|i: int|
            0 <= i < list.len() ==> (#[trigger] list[i]).project_path is Some
                && list[i].project_name is Some,
{
    let all = cached + read_conversations(parsed, show_last);
    let ordered = choose|ordered: Seq<Conversation>| #[trigger]
        listed(all, ordered) && list == all_with_project(ordered, fallback);
    lemma_read_len(parsed, show_last);
    law_lists_are_latest_first(all, ordered);
    assert forall|i: int, j: int| 0 <= i < j < list.len() implies list[i].timestamp
        >= list[j].timestamp by {
        assert(ordered[i].timestamp >= ordered[j].timestamp);
    }
    assert forall|i: int| 0 <= i < list.len() implies (#[trigger] list[i]).index == i by {
        assert(ordered[i].index == i);
    }
}

proof fn lemma_read_len(parsed: Seq<ParsedFile>, show_last: bool)
    ensures
        read_conversations(parsed, show_last).len() <= parsed.len(),
    decreases parsed.len(),
{
    if parsed.len() > 0 {
        lemma_read_len(parsed.drop_last(), show_last);
    }
}

/// To tell conversations their project twice is to tell them once.
pub proof fn law_projects_are_told_once(conversations: Seq<Conversation>, fallback: Place)
    ensures
        all_with_project(all_with_project(conversations, fallback), fallback) == all_with_project(
            conversations,
            fallback,
        ),
{
    assert(all_with_project(all_with_project(conversations, fallback), fallback)
        =~= all_with_project(conversations, fallback));
}

/// A file is read exactly where the cache does not describe it, and a file of an unknown time
/// always is.
pub proof fn law_every_file_is_cached_or_read(files: Seq<LoadFile>, at: int)
    requires
        0 <= at < files.len(),
    ensures
        is_hit(files[at]) || misses(files).contains(files[at].found),
        files[at].found.modified is None ==> !is_hit(files[at]),
        hits(files).len() + misses(files).len() <= files.len(),
    decreases files.len(),
{
    lemma_parts_len(files);
    let rest = files.drop_last();
    let all = misses(files);
    if at == files.len() - 1 {
        if !is_hit(files[at]) {
            assert(all[all.len() - 1] == files[at].found);
        }
    } else {
        assert(rest[at] == files[at]);
        law_every_file_is_cached_or_read(rest, at);
        if misses(rest).contains(files[at].found) {
            let i = choose|i: int|
                0 <= i < misses(rest).len() && misses(rest)[i] == files[at].found;
            assert(all[i] == files[at].found);
        }
    }
}

proof fn lemma_parts_len(files: Seq<LoadFile>)
    ensures
        hits(files).len() + misses(files).len() <= files.len(),
    decreases files.len(),
{
    if files.len() > 0 {
        lemma_parts_len(files.drop_last());
    }
}

/// Of the files of a directory exactly those are kept that hold a session of their own.
pub proof fn law_subagent_files_are_skipped(files: Seq<FoundFile>, unnamed: bool)
    ensures
        forall|i: int|
            0 <= i < session_files(files, unnamed).len() ==> holds_session(
                (#[trigger] session_files(files, unnamed)[i]).name,
                unnamed,
            ),
        forall|i: int|
            0 <= i < files.len() && holds_session((#[trigger] files[i]).name, unnamed)
                ==> session_files(files, unnamed).contains(files[i]),
    decreases files.len(),
{
    if files.len() > 0 {
        let rest = files.drop_last();
        law_subagent_files_are_skipped(rest, unnamed);
        let before = session_files(rest, unnamed);
        let kept = session_files(files, unnamed);
        assert forall|i: int| 0 <= i < kept.len() implies holds_session(
            (#[trigger] kept[i]).name,
            unnamed,
        ) by {
            if i < before.len() {
                assert(kept[i] == before[i]);
            }
        }
        assert forall|i: int|
            0 <= i < files.len() && holds_session(
                (#[trigger] files[i]).name,
                unnamed,
            ) implies kept.contains(files[i]) by {
            if i < rest.len() {
                assert(rest[i] == files[i]);
                let k = choose|k: int| 0 <= k < before.len() && before[k] == files[i];
                assert(kept[k] == files[i]);
            } else {
                assert(kept[kept.len() - 1] == files[i]);
            }
        }
    }
}

/// Files in order stand latest first.
pub proof fn law_files_are_latest_first(files: Seq<FoundFile>, ordered: Seq<FoundFile>)
    requires
        stably_sorted(files, ordered.reverse()),
    ensures
        forall|i: int, j: int|
            0 <= i < j < ordered.len() ==> time_of(ordered[i]) >= time_of(ordered[j]),
{
    let back = ordered.reverse();
    assert forall|i: int, j: int| 0 <= i < j < ordered.len() implies time_of(ordered[i]) >= time_of(
        ordered[j],
    ) by {
        assert(back[back.len() - 1 - j] == ordered[j]);
        assert(back[back.len() - 1 - i] == ordered[i]);
        assert(back[back.len() - 1 - j].goes_before(&back[back.len() - 1 - i]));
    }
}

/// Every project that is listed is one of the entries: a directory that holds a session.
pub proof fn law_projects_are_directories_with_sessions(entries: Seq<FoundProject>, at: int)
    requires
        0 <= at < projects_of(entries).len(),
    ensures
        exists|i: int|
            0 <= i < entries.len() && project_of(#[trigger] entries[i]) == Some(
                projects_of(entries)[at],
            ) && entries[i].is_dir,
    decreases entries.len(),
{
    let rest = entries.drop_last();
    let before = projects_of(rest);
    if at < before.len() {
        law_projects_are_directories_with_sessions(rest, at);
        let i = choose|i: int|
            0 <= i < rest.len() && project_of(#[trigger] rest[i]) == Some(before[at])
                && rest[i].is_dir;
        assert(entries[i] == rest[i]);
    } else {
        assert(project_of(entries[entries.len() - 1]) == Some(projects_of(entries)[at]));
    }
}

/// Whether a file is one whose conversation the cache has.
pub open spec fn is_cached_at(files: Seq<LoadFile>, i: int, file: u64) -> bool {
    &&& 0 <= i < files.len()
    &&& cached_conversation(files[i]) is Some
    &&& files[i].found.file == file
}

/// Whether a file is one that was read and holds a conversation.
pub open spec fn is_read_at(parsed: Seq<ParsedFile>, j: int, file: u64) -> bool {
    &&& 0 <= j < parsed.len()
    &&& parsed[j].outcome is Conversation
    &&& parsed[j].found.file == file
}

/// Whether the numbers of files agree: no two files share one, and each conversation has that of
/// its file.
pub open spec fn well_numbered(files: Seq<LoadFile>, parsed: Seq<ParsedFile>) -> bool {
    &&& forall|i: int, j: int|
        0 <= i < j < files.len() ==> files[i].found.file != files[j].found.file
    &&& forall|i: int|
        0 <= i < files.len() ==> (cached_conversation(#[trigger] files[i]) matches Some(
            conversation,
        ) ==> conversation.file == files[i].found.file)
    &&& forall|j: int|
        0 <= j < parsed.len() ==> ((#[trigger] parsed[j]).outcome matches ParseOutcome::Conversation(
            conversation,
        ) ==> conversation.file == parsed[j].found.file)
}

/// Whether the files that were read are those that the plan names, in order.
pub open spec fn follows_plan(files: Seq<LoadFile>, parsed: Seq<ParsedFile>) -> bool {
    &&& parsed.len() == misses(files).len()
    &&& forall|j: int| 0 <= j < parsed.len() ==> (#[trigger] parsed[j]).found == misses(files)[j]
}

proof fn lemma_rest_well_numbered(files: Seq<LoadFile>, parsed: Seq<ParsedFile>)
    requires
        well_numbered(files, parsed),
        files.len() > 0,
    ensures
        well_numbered(files.drop_last(), parsed),
{
    let rest = files.drop_last();
    assert forall|i: int, j: int| 0 <= i < j < rest.len() implies rest[i].found.file
        != rest[j].found.file by {
        assert(files[i].found.file != files[j].found.file);
    }
    assert forall|i: int| 0 <= i < rest.len() implies (cached_conversation(
        #[trigger] rest[i],
    ) matches Some(conversation) ==> conversation.file == rest[i].found.file) by {
        assert(rest[i] == files[i]);
    }
}

proof fn lemma_hit_files(files: Seq<LoadFile>, parsed: Seq<ParsedFile>)
    requires
        well_numbered(files, parsed),
    ensures
        forall|k: int|
            0 <= k < hits(files).len() ==> exists|i: int|
                is_cached_at(files, i, (#[trigger] hits(files)[k]).file),
        forall|i: int, file: u64| #[trigger]
            is_cached_at(files, i, file) ==> exists|k: int|
                0 <= k < hits(files).len() && (#[trigger] hits(files)[k]).file == file,
        forall|k: int, l: int|
            0 <= k < l < hits(files).len() ==> hits(files)[k].file != hits(files)[l].file,
    decreases files.len(),
{
    if files.len() > 0 {
        let rest = files.drop_last();
        let last = files.len() - 1;
        lemma_rest_well_numbered(files, parsed);
        lemma_hit_files(rest, parsed);
        let before = hits(rest);
        let all = hits(files);
        assert forall|k: int| 0 <= k < all.len() implies exists|i: int|
            is_cached_at(files, i, (#[trigger] all[k]).file) by {
            if k < before.len() {
                assert(all[k] == before[k]);
                let i = choose|i: int| is_cached_at(rest, i, before[k].file);
                assert(rest[i] == files[i]);
                assert(is_cached_at(files, i, all[k].file));
            } else {
                assert(is_cached_at(files, last, all[k].file));
            }
        }
        assert forall|i: int, file: u64| #[trigger] is_cached_at(files, i, file) implies exists|
            k: int,
        |
            0 <= k < all.len() && (#[trigger] all[k]).file == file by {
            if i < last {
                assert(rest[i] == files[i]);
                assert(is_cached_at(rest, i, file));
                let k = choose|k: int|
                    0 <= k < before.len() && (#[trigger] before[k]).file == file;
                assert(all[k].file == file);
            } else {
                assert(all[all.len() - 1].file == file);
            }
        }
        assert forall|k: int, l: int| 0 <= k < l < all.len() implies all[k].file != all[l].file by {
            assert(all[k] == before[k]);
            if l < before.len() {
                assert(all[l] == before[l]);
            } else {
                let i = choose|i: int| is_cached_at(rest, i, before[k].file);
                assert(files[i].found.file != files[last].found.file);
            }
        }
    }
}

proof fn lemma_missed_files(files: Seq<LoadFile>, parsed: Seq<ParsedFile>)
    requires
        well_numbered(files, parsed),
    ensures
        forall|k: int|
            0 <= k < misses(files).len() ==> exists|i: int|
                0 <= i < files.len() && !is_hit(#[trigger] files[i]) && files[i].found == (
                #[trigger] misses(files)[k]),
        forall|k: int, l: int|
            0 <= k < l < misses(files).len() ==> misses(files)[k].file != misses(files)[l].file,
    decreases files.len(),
{
    if files.len() > 0 {
        let rest = files.drop_last();
        let last = files.len() - 1;
        lemma_rest_well_numbered(files, parsed);
        lemma_missed_files(rest, parsed);
        let before = misses(rest);
        let all = misses(files);
        assert forall|k: int| 0 <= k < all.len() implies exists|i: int|
            0 <= i < files.len() && !is_hit(#[trigger] files[i]) && files[i].found == (
            #[trigger] all[k]) by {
            if k < before.len() {
                assert(all[k] == before[k]);
                let i = choose|i: int|
                    0 <= i < rest.len() && !is_hit(#[trigger] rest[i]) && rest[i].found
                        == before[k];
                assert(files[i] == rest[i]);
            } else {
                assert(files[last].found == all[k]);
            }
        }
        assert forall|k: int, l: int| 0 <= k < l < all.len() implies all[k].file != all[l].file by {
            assert(all[k] == before[k]);
            if l < before.len() {
                assert(all[l] == before[l]);
            } else {
                let i = choose|i: int|
                    0 <= i < rest.len() && !is_hit(#[trigger] rest[i]) && rest[i].found
                        == before[k];
                assert(files[i].found.file != files[last].found.file);
            }
        }
    }
}

proof fn lemma_read_files(parsed: Seq<ParsedFile>, show_last: bool)
    requires
        forall|i: int, j: int|
            0 <= i < j < parsed.len() ==> parsed[i].found.file != parsed[j].found.file,
        forall|j: int|
            0 <= j < parsed.len() ==> ((#[trigger] parsed[j]).outcome matches ParseOutcome::Conversation(
                conversation,
            ) ==> conversation.file == parsed[j].found.file),
    ensures
        forall|k: int|
            0 <= k < read_conversations(parsed, show_last).len() ==> exists|j: int|
                is_read_at(parsed, j, (#[trigger] read_conversations(parsed, show_last)[k]).file),
        forall|j: int, file: u64| #[trigger]
            is_read_at(parsed, j, file) ==> exists|k: int|
                0 <= k < read_conversations(parsed, show_last).len() && (
                #[trigger] read_conversations(parsed, show_last)[k]).file == file,
        forall|k: int, l: int|
            0 <= k < l < read_conversations(parsed, show_last).len() ==> read_conversations(
                parsed,
                show_last,
            )[k].file != read_conversations(parsed, show_last)[l].file,
    decreases parsed.len(),
{
    if parsed.len() > 0 {
        let rest = parsed.drop_last();
        let last = parsed.len() - 1;
        assert forall|i: int, j: int| 0 <= i < j < rest.len() implies rest[i].found.file
            != rest[j].found.file by {
            assert(parsed[i].found.file != parsed[j].found.file);
        }
        assert forall|j: int| 0 <= j < rest.len() implies ((
        #[trigger] rest[j]).outcome matches ParseOutcome::Conversation(conversation)
            ==> conversation.file == rest[j].found.file) by {
            assert(rest[j] == parsed[j]);
        }
        lemma_read_files(rest, show_last);
        let before = read_conversations(rest, show_last);
        let all = read_conversations(parsed, show_last);
        assert(parsed[last] == parsed.last());
        assert forall|k: int| 0 <= k < all.len() implies exists|j: int|
            is_read_at(parsed, j, (#[trigger] all[k]).file) by {
            if k < before.len() {
                assert(all[k] == before[k]);
                let j = choose|j: int| is_read_at(rest, j, before[k].file);
                assert(rest[j] == parsed[j]);
                assert(is_read_at(parsed, j, all[k].file));
            } else {
                assert(is_read_at(parsed, last, all[k].file));
            }
        }
        assert forall|j: int, file: u64| #[trigger] is_read_at(parsed, j, file) implies exists|
            k: int,
        |
            0 <= k < all.len() && (#[trigger] all[k]).file == file by {
            if j < last {
                assert(rest[j] == parsed[j]);
                assert(is_read_at(rest, j, file));
                let k = choose|k: int|
                    0 <= k < before.len() && (#[trigger] before[k]).file == file;
                assert(all[k].file == file);
            } else {
                assert(all[all.len() - 1].file == file);
            }
        }
        assert forall|k: int, l: int| 0 <= k < l < all.len() implies all[k].file != all[l].file by {
            assert(all[k] == before[k]);
            if l < before.len() {
                assert(all[l] == before[l]);
            } else {
                let j = choose|j: int| is_read_at(rest, j, before[k].file);
                assert(parsed[j].found.file != parsed[last].found.file);
            }
        }
    }
}

/// A list with the same items has the same files, each once where it stands once.
proof fn lemma_same_files(a: Seq<Conversation>, b: Seq<Conversation>)
    requires
        a.to_multiset() == b.to_multiset(),
        forall|k: int, l: int| 0 <= k < l < a.len() ==> a[k].file != a[l].file,
    ensures
        forall|k: int, l: int| 0 <= k < l < b.len() ==> b[k].file != b[l].file,
        forall|k: int|
            0 <= k < b.len() ==> exists|l: int|
                0 <= l < a.len() && (#[trigger] a[l]).file == (#[trigger] b[k]).file,
        forall|l: int|
            0 <= l < a.len() ==> exists|k: int|
                0 <= k < b.len() && (#[trigger] b[k]).file == (#[trigger] a[l]).file,
{
    a.to_multiset_ensures();
    b.to_multiset_ensures();
    assert(a.no_duplicates());
    a.lemma_multiset_has_no_duplicates();
    b.lemma_multiset_has_no_duplicates_conv();
    assert forall|k: int| 0 <= k < b.len() implies exists|l: int|
        0 <= l < a.len() && (#[trigger] a[l]).file == (#[trigger] b[k]).file by {
        assert(b.contains(b[k]));
        assert(a.to_multiset().count(b[k]) > 0);
        assert(a.contains(b[k]));
        let l = choose|l: int| 0 <= l < a.len() && a[l] == b[k];
        assert(a[l].file == b[k].file);
    }
    assert forall|l: int| 0 <= l < a.len() implies exists|k: int|
        0 <= k < b.len() && (#[trigger] b[k]).file == (#[trigger] a[l]).file by {
        assert(a.contains(a[l]));
        assert(b.to_multiset().count(a[l]) > 0);
        assert(b.contains(a[l]));
        let k = choose|k: int| 0 <= k < b.len() && b[k] == a[l];
        assert(b[k].file == a[l].file);
    }
    assert forall|k: int, l: int| 0 <= k < l < b.len() implies b[k].file != b[l].file by {
        assert(a.contains(b[k])) by {
            assert(b.contains(b[k]));
            assert(a.to_multiset().count(b[k]) > 0);
        }
        assert(a.contains(b[l])) by {
            assert(b.contains(b[l]));
            assert(a.to_multiset().count(b[l]) > 0);
        }
        let p = choose|p: int| 0 <= p < a.len() && a[p] == b[k];
        let q = choose|q: int| 0 <= q < a.len() && a[q] == b[l];
        assert(b[k] != b[l]);
        if p < q {
            assert(a[p].file != a[q].file);
        } else {
            assert(a[q].file != a[p].file);
        }
    }
}

/// Where the files that were read are those of the plan, the files of the list are exactly those
/// whose conversation the cache has and those that were read and hold one, each once.
pub proof fn law_loads_list_every_conversation_once(
    files: Seq<LoadFile>,
    parsed: Seq<ParsedFile>,
    show_last: bool,
    fallback: Place,
    list: Seq<Conversation>,
)
    requires
        well_numbered(files, parsed),
        follows_plan(files, parsed),
        assembled(hits(files), parsed, show_last, fallback, list),
    ensures
        forall|k: int, l: int| 0 <= k < l < list.len() ==> list[k].file != list[l].file,
        forall|k: int|
            0 <= k < list.len() ==> (exists|i: int|
                is_cached_at(files, i, (#[trigger] list[k]).file)) || (exists|j: int|
                is_read_at(parsed, j, list[k].file)),
        forall|i: int, file: u64| #[trigger]
            is_cached_at(files, i, file) ==> exists|k: int|
                0 <= k < list.len() && (#[trigger] list[k]).file == file,
        forall|j: int, file: u64| #[trigger]
            is_read_at(parsed, j, file) ==> exists|k: int|
                0 <= k < list.len() && (#[trigger] list[k]).file == file,
{
    let cached = hits(files);
    let read = read_conversations(parsed, show_last);
    let all = cached + read;
    let ordered = choose|ordered: Seq<Conversation>| #[trigger]
        listed(all, ordered) && list == all_with_project(ordered, fallback);
    let sorted = choose|sorted: Seq<Conversation>| #[trigger]
        stably_sorted(all, sorted) && ordered == all_indexed(sorted);
    lemma_hit_files(files, parsed);
    lemma_missed_files(files, parsed);
    assert forall|i: int, j: int| 0 <= i < j < parsed.len() implies parsed[i].found.file
        != parsed[j].found.file by {
        assert(parsed[i].found == misses(files)[i]);
        assert(parsed[j].found == misses(files)[j]);
    }
    lemma_read_files(parsed, show_last);
    assert forall|k: int, l: int| 0 <= k < l < all.len() implies all[k].file != all[l].file by {
        if l < cached.len() {
            assert(cached[k].file != cached[l].file);
        } else if k >= cached.len() {
            assert(read[k - cached.len()].file != read[l - cached.len()].file);
        } else {
            assert(all[k] == cached[k]);
            assert(all[l] == read[l - cached.len()]);
            let i = choose|i: int| is_cached_at(files, i, cached[k].file);
            let r = l - cached.len();
            let j = choose|j: int| is_read_at(parsed, j, read[r].file);
            assert(parsed[j].found == misses(files)[j]);
            let m = choose|m: int|
                0 <= m < files.len() && !is_hit(#[trigger] files[m]) && files[m].found == misses(
                    files,
                )[j];
            if i < m {
                assert(files[i].found.file != files[m].found.file);
            } else if m < i {
                assert(files[m].found.file != files[i].found.file);
            }
        }
    }
    law_sorting_keeps_all_items(all, sorted);
    lemma_same_files(all, sorted);
    assert forall|k: int| 0 <= k < list.len() implies (#[trigger] list[k]).file
        == sorted[k].file by {}
    assert forall|k: int, l: int| 0 <= k < l < list.len() implies list[k].file != list[l].file by {
        assert(sorted[k].file != sorted[l].file);
    }
    assert forall|k: int| 0 <= k < list.len() implies (exists|i: int|
        is_cached_at(files, i, (#[trigger] list[k]).file)) || (exists|j: int|
        is_read_at(parsed, j, list[k].file)) by {
        let l = choose|l: int| 0 <= l < all.len() && (#[trigger] all[l]).file == sorted[k].file;
        if l < cached.len() {
            assert(all[l] == cached[l]);
            let i = choose|i: int| is_cached_at(files, i, cached[l].file);
            assert(is_cached_at(files, i, list[k].file));
        } else {
            let r = l - cached.len();
            assert(all[l] == read[r]);
            let j = choose|j: int| is_read_at(parsed, j, read[r].file);
            assert(is_read_at(parsed, j, list[k].file));
        }
    }
    assert forall|i: int, file: u64| #[trigger] is_cached_at(files, i, file) implies exists|k: int|
        0 <= k < list.len() && (#[trigger] list[k]).file == file by {
        let l = choose|l: int| 0 <= l < cached.len() && (#[trigger] cached[l]).file == file;
        assert(all[l] == cached[l]);
        let k = choose|k: int| 0 <= k < sorted.len() && (#[trigger] sorted[k]).file == all[l].file;
        assert(list[k].file == file);
    }
    assert forall|j: int, file: u64| #[trigger] is_read_at(parsed, j, file) implies exists|k: int|
        0 <= k < list.len() && (#[trigger] list[k]).file == file by {
        let n = choose|n: int| 0 <= n < read.len() && (#[trigger] read[n]).file == file;
        let l = cached.len() + n;
        assert(all[l] == read[n]);
        let k = choose|k: int| 0 <= k < sorted.len() && (#[trigger] sorted[k]).file == all[l].file;
        assert(list[k].file == file);
    }
}

} // verus!
