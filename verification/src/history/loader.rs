//! Loading the conversations of a project, and of all projects.

use crate::error::AppError;
use crate::history::names::NameMap;
use crate::history::order::{reversed, stable_sort, stably_sorted, Ordered};
use crate::history::search::{cache_name, name_in_cache, SearchInsert};
use crate::history::session::{holds_session, is_session_file};
use crate::history::types::{Conversation, FoundFile, LoaderMessage, Place};
use vstd::prelude::*;
use vstd::string::*;

verus! {

/// The files among some that hold a session of their own.
pub open spec fn session_files(files: Seq<FoundFile>, unnamed: bool) -> Seq<FoundFile>
    decreases files.len(),
{
    if files.len() == 0 {
        Seq::empty()
    } else {
        let before = session_files(files.drop_last(), unnamed);
        if holds_session(files.last().name, unnamed) {
            before.push(files.last())
        } else {
            before
        }
    }
}

/// Keeps the files that hold a session of their own.
pub fn select_session_files(files: Vec<FoundFile>, unnamed: bool) -> (kept: Vec<FoundFile>)
    ensures
        kept@ == session_files(files@, unnamed),
{
    let ghost all = files@;
    let mut rest = reversed(files);
    let mut kept: Vec<FoundFile> = Vec::new();
    assert(all.take(0) =~= Seq::<FoundFile>::empty());
    while rest.len() > 0
        invariant
            rest@.len() <= all.len(),
            rest@ == all.reverse().take(rest@.len() as int),
            kept@ == session_files(all.take(all.len() - rest@.len()), unnamed),
        decreases rest@.len(),
    {
        let ghost done = all.len() - rest@.len();
        match rest.pop() {
            Some(file) => {
                proof {
                    assert(file == all[done]);
                    assert(all.take(done + 1).drop_last() =~= all.take(done));
                }
                if is_session_file(&file.name, unnamed) {
                    kept.push(file);
                }
            },
            None => {},
        }
        assert(rest@ =~= all.reverse().take(rest@.len() as int));
    }
    assert(all.take(all.len() as int) =~= all);
    kept
}

/// When a file was last changed: at the epoch where that is not known.
pub open spec fn time_of(file: FoundFile) -> i128 {
    match file.modified {
        Some(time) => time,
        None => 0,
    }
}

/// Files stand by their times, the earliest first.
impl Ordered for FoundFile {
    open spec fn goes_before(&self, other: &Self) -> bool {
        time_of(*self) <= time_of(*other)
    }

    proof fn lemma_total(a: &Self, b: &Self) {
    }

    proof fn lemma_transitive(a: &Self, b: &Self, c: &Self) {
    }

    fn is_before(&self, other: &Self) -> (before: bool) {
        let left: i128 = match self.modified {
            Some(time) => time,
            None => 0,
        };
        let right: i128 = match other.modified {
            Some(time) => time,
            None => 0,
        };
        left <= right
    }
}

/// Conversations stand by their times, the latest first.
impl Ordered for Conversation {
    open spec fn goes_before(&self, other: &Self) -> bool {
        self.timestamp >= other.timestamp
    }

    proof fn lemma_total(a: &Self, b: &Self) {
    }

    proof fn lemma_transitive(a: &Self, b: &Self, c: &Self) {
    }

    fn is_before(&self, other: &Self) -> (before: bool) {
        self.timestamp >= other.timestamp
    }
}

/// Whether one list of files is another one put in order, the latest first.
pub open spec fn orders_files(files: Seq<FoundFile>, ordered: Seq<FoundFile>) -> bool {
    stably_sorted(files, ordered.reverse())
}

/// Puts files in order, the latest first. Of files of one time the one that was found last
/// stands first.
pub fn order_files(files: Vec<FoundFile>) -> (ordered: Vec<FoundFile>)
    ensures
        orders_files(files@, ordered@),
        stably_sorted(files@, ordered@.reverse()),
{
    let sorted = stable_sort(files);
    assert(sorted@.reverse().reverse() =~= sorted@);
    reversed(sorted)
}

/// What the cache holds under the name of a file.
#[derive(Clone, Debug)]
pub enum CachedConversation {
    /// The entry was not made of the file as it now is.
    Stale,
    /// The file holds no conversation.
    Empty,
    /// The conversation that the entry describes.
    Conversation(Conversation),
}

/// A file with what the cache holds under its name.
#[derive(Clone, Debug)]
pub struct LoadFile {
    pub found: FoundFile,
    pub cached: Option<CachedConversation>,
}

/// Whether the cache describes a file: the file's time is known and the entry matches.
pub open spec fn is_hit(file: LoadFile) -> bool {
    match (file.found.modified, file.cached) {
        (Some(_), Some(entry)) => !(entry is Stale),
        _ => false,
    }
}

/// The conversation that the cache has of a file.
pub open spec fn cached_conversation(file: LoadFile) -> Option<Conversation> {
    match (file.found.modified, file.cached) {
        (Some(_), Some(CachedConversation::Conversation(conversation))) => Some(conversation),
        _ => None,
    }
}

/// The conversations that the cache has.
pub open spec fn hits(files: Seq<LoadFile>) -> Seq<Conversation>
    decreases files.len(),
{
    if files.len() == 0 {
        Seq::empty()
    } else {
        let before = hits(files.drop_last());
        match cached_conversation(files.last()) {
            Some(conversation) => before.push(conversation),
            None => before,
        }
    }
}

/// The files that have to be read.
pub open spec fn misses(files: Seq<LoadFile>) -> Seq<FoundFile>
    decreases files.len(),
{
    if files.len() == 0 {
        Seq::empty()
    } else {
        let before = misses(files.drop_last());
        if is_hit(files.last()) {
            before
        } else {
            before.push(files.last().found)
        }
    }
}

/// Whether the cache has to be written anew: a file had to be read, or the cache knows of
/// another number of files.
pub open spec fn is_stale(files: Seq<LoadFile>, cached_entries: usize) -> bool {
    misses(files).len() > 0 || files.len() != cached_entries
}

/// What is left to do once the cache was looked through.
#[derive(Clone, Debug)]
pub struct LoadPlan {
    pub conversations: Vec<Conversation>,
    pub files_to_parse: Vec<FoundFile>,
    pub dirty: bool,
}

/// Whether a plan is the one for some files and the number of entries that their cache has.
pub open spec fn plans_load(files: Seq<LoadFile>, cached_entries: usize, plan: LoadPlan) -> bool {
    &&& plan.conversations@ == hits(files)
    &&& plan.files_to_parse@ == misses(files)
    &&& plan.dirty == is_stale(files, cached_entries)
}

/// Parts files into those that the cache describes and those that have to be read.
pub fn plan_load(files: Vec<LoadFile>, cached_entries: usize) -> (plan: LoadPlan)
    ensures
        plans_load(files@, cached_entries, plan),
        plan.conversations@ == hits(files@),
        plan.files_to_parse@ == misses(files@),
        plan.dirty == is_stale(files@, cached_entries),
{
    let ghost all = files@;
    let count = files.len();
    let mut rest = reversed(files);
    let mut conversations: Vec<Conversation> = Vec::new();
    let mut files_to_parse: Vec<FoundFile> = Vec::new();
    let mut dirty = false;
    assert(all.take(0) =~= Seq::<LoadFile>::empty());
    while rest.len() > 0
        invariant
            rest@.len() <= all.len(),
            rest@ == all.reverse().take(rest@.len() as int),
            conversations@ == hits(all.take(all.len() - rest@.len())),
            files_to_parse@ == misses(all.take(all.len() - rest@.len())),
            dirty == (files_to_parse@.len() > 0),
        decreases rest@.len(),
    {
        let ghost done = all.len() - rest@.len();
        match rest.pop() {
            Some(file) => {
                proof {
                    assert(file == all[done]);
                    assert(all.take(done + 1).drop_last() =~= all.take(done));
                }
                match (file.found.modified, file.cached) {
                    (Some(_), Some(CachedConversation::Conversation(conversation))) => {
                        conversations.push(conversation);
                    },
                    (Some(_), Some(CachedConversation::Empty)) => {},
                    _ => {
                        dirty = true;
                        files_to_parse.push(file.found);
                    },
                }
            },
            None => {},
        }
        assert(rest@ =~= all.reverse().take(rest@.len() as int));
    }
    assert(all.take(all.len() as int) =~= all);
    if !dirty && count != cached_entries {
        dirty = true;
    }
    LoadPlan { conversations, files_to_parse, dirty }
}

/// What reading a file gave.
#[derive(Clone, Debug)]
pub enum ParseOutcome {
    Conversation(Conversation),
    /// The file holds no conversation.
    Empty,
    /// The file could not be read. It may be the next time.
    Failed,
}

/// A file that was read.
#[derive(Clone, Debug)]
pub struct ParsedFile {
    pub found: FoundFile,
    pub outcome: ParseOutcome,
}

/// A conversation with the preview that is shown.
pub open spec fn previewed(conversation: Conversation, show_last: bool) -> Conversation {
    Conversation {
        preview: if show_last {
            conversation.preview_last
        } else {
            conversation.preview_first
        },
        ..conversation
    }
}

/// Picks the preview of a conversation: its end or its start.
pub fn choose_preview(conversation: Conversation, show_last: bool) -> (shown: Conversation)
    ensures
        shown == previewed(conversation, show_last),
{
    let mut shown = conversation;
    shown.preview = if show_last {
        shown.preview_last.clone()
    } else {
        shown.preview_first.clone()
    };
    shown
}

/// The conversations that were read, with their previews.
pub open spec fn read_conversations(parsed: Seq<ParsedFile>, show_last: bool) -> Seq<Conversation>
    decreases parsed.len(),
{
    if parsed.len() == 0 {
        Seq::empty()
    } else {
        let before = read_conversations(parsed.drop_last(), show_last);
        match parsed.last().outcome {
            ParseOutcome::Conversation(conversation) => before.push(
                previewed(conversation, show_last),
            ),
            _ => before,
        }
    }
}

/// A conversation with its project: the directory that it was held in, and else the one that
/// the name of the project stands for.
pub open spec fn with_project(conversation: Conversation, fallback: Place) -> Conversation {
    let place = match conversation.cwd {
        Some(cwd) => cwd,
        None => fallback,
    };
    Conversation {
        project_name: Some(place.short_name),
        project_path: Some(place.path),
        ..conversation
    }
}

/// A conversation at its place in the list.
pub open spec fn at_index(conversation: Conversation, index: int) -> Conversation {
    Conversation { index: index as usize, ..conversation }
}

/// Conversations with their projects.
pub open spec fn all_with_project(conversations: Seq<Conversation>, fallback: Place) -> Seq<
    Conversation,
> {
    Seq::new(conversations.len(), |i: int| with_project(conversations[i], fallback))
}

/// Conversations with their places.
pub open spec fn all_indexed(conversations: Seq<Conversation>) -> Seq<Conversation> {
    Seq::new(conversations.len(), |i: int| at_index(conversations[i], i))
}

/// Whether one list is another one, the latest conversation first, with the places filled in.
pub open spec fn listed(conversations: Seq<Conversation>, list: Seq<Conversation>) -> bool {
    exists|sorted: Seq<Conversation>| #[trigger]
        stably_sorted(conversations, sorted) && list == all_indexed(sorted)
}

/// Tells each conversation its project.
pub fn inject_project(conversations: Vec<Conversation>, fallback: &Place) -> (list: Vec<
    Conversation,
>)
    ensures
        list@ == all_with_project(conversations@, *fallback),
{
    let ghost all = conversations@;
    let mut list = conversations;
    let mut i: usize = 0;
    while i < list.len()
        invariant
            i <= list@.len(),
            list@.len() == all.len(),
            forall|j: int| 0 <= j < i ==> #[trigger] list@[j] == with_project(all[j], *fallback),
            forall|j: int| i <= j < all.len() ==> #[trigger] list@[j] == all[j],
        decreases list@.len() - i,
    {
        assert(list@[i as int] == all[i as int]);
        let (path, short_name) = match &list[i].cwd {
            Some(cwd) => (cwd.path.clone(), cwd.short_name.clone()),
            None => (fallback.path.clone(), fallback.short_name.clone()),
        };
        list[i].project_name = Some(short_name);
        list[i].project_path = Some(path);
        assert(list@[i as int] == with_project(all[i as int], *fallback));
        i = i + 1;
    }
    assert(list@ =~= all_with_project(all, *fallback));
    list
}

/// Puts conversations in order, the latest first, and tells each its place.
pub fn list_conversations(conversations: Vec<Conversation>) -> (list: Vec<Conversation>)
    ensures
        listed(conversations@, list@),
{
    let ghost all = conversations@;
    let mut list = stable_sort(conversations);
    let ghost sorted = list@;
    let mut i: usize = 0;
    while i < list.len()
        invariant
            i <= list@.len(),
            list@.len() == sorted.len(),
            forall|j: int| 0 <= j < i ==> #[trigger] list@[j] == at_index(sorted[j], j),
            forall|j: int| i <= j < sorted.len() ==> #[trigger] list@[j] == sorted[j],
        decreases list@.len() - i,
    {
        assert(list@[i as int] == sorted[i as int]);
        list[i].index = i;
        assert(list@[i as int] == at_index(sorted[i as int], i as int));
        i = i + 1;
    }
    assert(list@ =~= all_indexed(sorted));
    assert(stably_sorted(all, sorted));
    list
}

/// The conversations of a project: those of the cache and those that were read, the latest
/// first, each with its place and its project.
pub open spec fn assembled(
    cached: Seq<Conversation>,
    parsed: Seq<ParsedFile>,
    show_last: bool,
    fallback: Place,
    list: Seq<Conversation>,
) -> bool {
    exists|ordered: Seq<Conversation>| #[trigger]
        listed(cached + read_conversations(parsed, show_last), ordered) && list
            == all_with_project(ordered, fallback)
}

/// What the cache is to hold under a name.
#[derive(Clone, Copy, Debug, PartialEq, Eq, Structural)]
pub enum CacheRecord {
    /// The conversation at a place of the list.
    Conversation { index: usize, size: u64, mtime: i128 },
    /// The file holds no conversation.
    Empty { size: u64, mtime: i128 },
}

/// The first file with a number.
pub open spec fn file_of(files: Seq<FoundFile>, file: u64) -> Option<FoundFile>
    decreases files.len(),
{
    if files.len() == 0 {
        None
    } else {
        match file_of(files.drop_last(), file) {
            Some(found) => Some(found),
            None => if files.last().file == file {
                Some(files.last())
            } else {
                None
            },
        }
    }
}

/// The name that the cache knows a conversation by.
pub open spec fn conversation_name(conversation: Conversation) -> Seq<char> {
    match conversation.name {
        Some(name) => name@,
        None => "unknown"@,
    }
}

/// The record of a conversation: its file is there and its time is known.
pub open spec fn record_of(conversation: Conversation, at: int, files: Seq<FoundFile>) -> Option<
    CacheRecord,
> {
    match file_of(files, conversation.file) {
        Some(found) => match found.modified {
            Some(mtime) => Some(
                CacheRecord::Conversation { index: at as usize, size: found.size, mtime },
            ),
            None => None,
        },
        None => None,
    }
}

/// The records of conversations, by name.
pub open spec fn conversation_records(
    conversations: Seq<Conversation>,
    files: Seq<FoundFile>,
) -> Map<Seq<char>, CacheRecord>
    decreases conversations.len(),
{
    if conversations.len() == 0 {
        Map::empty()
    } else {
        let before = conversation_records(conversations.drop_last(), files);
        match record_of(conversations.last(), conversations.len() - 1, files) {
            Some(record) => before.insert(conversation_name(conversations.last()), record),
            None => before,
        }
    }
}

/// The record of a file that was read and holds no conversation: its time is known.
pub open spec fn empty_record(parsed: ParsedFile) -> Option<CacheRecord> {
    match (parsed.outcome, parsed.found.modified) {
        (ParseOutcome::Empty, Some(mtime)) => Some(
            CacheRecord::Empty { size: parsed.found.size, mtime },
        ),
        _ => None,
    }
}

/// Records with those of the files that were read and hold no conversation.
pub open spec fn with_empty_records(
    records: Map<Seq<char>, CacheRecord>,
    parsed: Seq<ParsedFile>,
) -> Map<Seq<char>, CacheRecord>
    decreases parsed.len(),
{
    if parsed.len() == 0 {
        records
    } else {
        let before = with_empty_records(records, parsed.drop_last());
        match empty_record(parsed.last()) {
            Some(record) => before.insert(cache_name(parsed.last().found, "unknown"@), record),
            None => before,
        }
    }
}

/// What the cache is to hold after a load.
pub open spec fn new_records(
    conversations: Seq<Conversation>,
    files: Seq<FoundFile>,
    parsed: Seq<ParsedFile>,
) -> Map<Seq<char>, CacheRecord> {
    with_empty_records(conversation_records(conversations, files), parsed)
}

fn find_file(files: &Vec<FoundFile>, file: u64) -> (at: Option<usize>)
    ensures
        match at {
            Some(at) => at < files@.len() && file_of(files@, file) == Some(files@[at as int]),
            None => file_of(files@, file) is None,
        },
{
    let mut i: usize = 0;
    while i < files.len()
        invariant
            i <= files@.len(),
            file_of(files@.take(i as int), file) is None,
        decreases files@.len() - i,
    {
        assert(files@.take(i + 1).drop_last() =~= files@.take(i as int));
        if files[i].file == file {
            proof {
                lemma_file_stays(files@, i + 1, file);
            }
            return Some(i);
        }
        i = i + 1;
    }
    assert(files@.take(i as int) =~= files@);
    None
}

proof fn lemma_file_stays(files: Seq<FoundFile>, n: int, file: u64)
    requires
        0 <= n <= files.len(),
        file_of(files.take(n), file) is Some,
    ensures
        file_of(files, file) == file_of(files.take(n), file),
    decreases files.len() - n,
{
    if n == files.len() {
        assert(files.take(n) =~= files);
    } else {
        assert(files.take(n + 1).drop_last() =~= files.take(n));
        lemma_file_stays(files, n + 1, file);
    }
}

/// Says what the cache is to hold after a load: the conversations, and the files that hold none.
/// A file that could not be read is left out, so that it is read again.
pub fn build_cache(
    conversations: &Vec<Conversation>,
    files: &Vec<FoundFile>,
    parsed: &Vec<ParsedFile>,
) -> (records: NameMap<CacheRecord>)
    ensures
        records@ == new_records(conversations@, files@, parsed@),
{
    let mut records: NameMap<CacheRecord> = NameMap::new();
    let mut i: usize = 0;
    while i < conversations.len()
        invariant
            i <= conversations@.len(),
            records@ == conversation_records(conversations@.take(i as int), files@),
        decreases conversations@.len() - i,
    {
        assert(conversations@.take(i + 1).drop_last() =~= conversations@.take(i as int));
        match find_file(files, conversations[i].file) {
            Some(at) => match files[at].modified {
                Some(mtime) => {
                    let name = match &conversations[i].name {
                        Some(name) => name.clone(),
                        None => "unknown".to_owned(),
                    };
                    records.insert(
                        name,
                        CacheRecord::Conversation { index: i, size: files[at].size, mtime },
                    );
                },
                None => {},
            },
            None => {},
        }
        i = i + 1;
    }
    assert(conversations@.take(i as int) =~= conversations@);
    let ghost known = records@;
    let mut j: usize = 0;
    while j < parsed.len()
        invariant
            j <= parsed@.len(),
            records@ == with_empty_records(known, parsed@.take(j as int)),
        decreases parsed@.len() - j,
    {
        assert(parsed@.take(j + 1).drop_last() =~= parsed@.take(j as int));
        match (&parsed[j].outcome, parsed[j].found.modified) {
            (ParseOutcome::Empty, Some(mtime)) => {
                records.insert(
                    name_in_cache(&parsed[j].found, "unknown"),
                    CacheRecord::Empty { size: parsed[j].found.size, mtime },
                );
            },
            _ => {},
        }
        j = j + 1;
    }
    assert(parsed@.take(j as int) =~= parsed@);
    records
}

/// The places of the files whose conversations were read and have a known time: their texts go to
/// the search cache.
pub open spec fn freshly_read(parsed: Seq<ParsedFile>) -> Seq<int>
    decreases parsed.len(),
{
    if parsed.len() == 0 {
        Seq::empty()
    } else {
        let before = freshly_read(parsed.drop_last());
        if parsed.last().outcome is Conversation && parsed.last().found.modified is Some {
            before.push(parsed.len() - 1)
        } else {
            before
        }
    }
}

/// Whether an entry of the search cache is that of a file that was read.
pub open spec fn search_entry_of(parsed: ParsedFile, insert: SearchInsert) -> bool {
    match parsed.outcome {
        ParseOutcome::Conversation(conversation) => {
            &&& parsed.found.modified == Some(insert.mtime)
            &&& insert.name@ == cache_name(parsed.found, "unknown"@)
            &&& insert.full_text@ == conversation.full_text@
            &&& insert.size == parsed.found.size
        },
        _ => false,
    }
}

/// What is to be put in the search cache after a load.
pub fn search_inserts(parsed: &Vec<ParsedFile>) -> (inserts: Vec<SearchInsert>)
    ensures
        inserts@.len() == freshly_read(parsed@).len(),
        forall|i: int|
            #![trigger inserts@[i]]
            0 <= i < inserts@.len() ==> search_entry_of(
                parsed@[freshly_read(parsed@)[i]],
                inserts@[i],
            ),
{
    let mut inserts: Vec<SearchInsert> = Vec::new();
    let mut i: usize = 0;
    while i < parsed.len()
        invariant
            i <= parsed@.len(),
            inserts@.len() == freshly_read(parsed@.take(i as int)).len(),
            forall|j: int|
                #![trigger inserts@[j]]
                0 <= j < inserts@.len() ==> search_entry_of(
                    parsed@[freshly_read(parsed@.take(i as int))[j]],
                    inserts@[j],
                ),
        decreases parsed@.len() - i,
    {
        let ghost before = freshly_read(parsed@.take(i as int));
        proof {
            assert(parsed@.take(i + 1).drop_last() =~= parsed@.take(i as int));
            assert(parsed@.take(i + 1).last() == parsed@[i as int]);
        }
        match (&parsed[i].outcome, parsed[i].found.modified) {
            (ParseOutcome::Conversation(conversation), Some(mtime)) => {
                inserts.push(
                    SearchInsert {
                        name: name_in_cache(&parsed[i].found, "unknown"),
                        full_text: conversation.full_text.clone(),
                        size: parsed[i].found.size,
                        mtime,
                    },
                );
            },
            _ => {},
        }
        i = i + 1;
    }
    assert(parsed@.take(i as int) =~= parsed@);
    inserts
}

/// What a load gives: the conversations, and what the caches are to hold, where they have to be
/// written anew.
#[derive(Debug)]
pub struct Loaded {
    pub conversations: Vec<Conversation>,
    pub caches: Option<NewCaches>,
}

/// What the caches are to hold.
#[derive(Debug)]
pub struct NewCaches {
    /// All that the cache holds.
    pub records: NameMap<CacheRecord>,
    /// What is put in the search cache beside what it holds.
    pub inserts: Vec<SearchInsert>,
}

/// Whether the entries are those of the conversations that were read.
pub open spec fn inserts_of(parsed: Seq<ParsedFile>, inserts: Seq<SearchInsert>) -> bool {
    &&& inserts.len() == freshly_read(parsed).len()
    &&& forall|i: int|
        #![trigger inserts[i]]
        0 <= i < inserts.len() ==> search_entry_of(parsed[freshly_read(parsed)[i]], inserts[i])
}

/// Whether a load is what comes of a plan once its files were read.
pub open spec fn completes_load(
    plan: LoadPlan,
    files: Seq<FoundFile>,
    parsed: Seq<ParsedFile>,
    show_last: bool,
    fallback: Place,
    loaded: Loaded,
) -> bool {
    &&& assembled(plan.conversations@, parsed, show_last, fallback, loaded.conversations@)
    &&& loaded.caches is Some <==> plan.dirty
    &&& loaded.caches matches Some(caches) ==> {
        &&& caches.records@ == new_records(loaded.conversations@, files, parsed)
        &&& inserts_of(parsed, caches.inserts@)
    }
}

/// Loads the conversations of a project, once the files that the cache does not describe were
/// read.
pub fn load_conversations(
    plan: LoadPlan,
    files: &Vec<FoundFile>,
    parsed: Vec<ParsedFile>,
    show_last: bool,
    fallback: &Place,
) -> (loaded: Loaded)
    ensures
        completes_load(plan, files@, parsed@, show_last, *fallback, loaded),
        assembled(
            plan.conversations@,
            parsed@,
            show_last,
            *fallback,
            loaded.conversations@,
        ),
        loaded.caches is Some <==> plan.dirty,
        loaded.caches matches Some(caches) ==> {
            &&& caches.records@ == new_records(loaded.conversations@, files@, parsed@)
            &&& inserts_of(parsed@, caches.inserts@)
        },
{
    let ghost cached = plan.conversations@;
    let dirty = plan.dirty;
    let mut conversations = plan.conversations;
    let mut i: usize = 0;
    assert(cached + read_conversations(parsed@.take(0), show_last) =~= cached);
    while i < parsed.len()
        invariant
            i <= parsed@.len(),
            conversations@ == cached + read_conversations(parsed@.take(i as int), show_last),
        decreases parsed@.len() - i,
    {
        assert(parsed@.take(i + 1).drop_last() =~= parsed@.take(i as int));
        match &parsed[i].outcome {
            ParseOutcome::Conversation(conversation) => {
                let shown = choose_preview(copy_conversation(conversation), show_last);
                conversations.push(shown);
            },
            _ => {},
        }
        assert(conversations@ =~= cached + read_conversations(parsed@.take(i + 1), show_last));
        i = i + 1;
    }
    assert(parsed@.take(i as int) =~= parsed@);
    let ordered = list_conversations(conversations);
    let conversations = inject_project(ordered, fallback);
    let caches = if dirty {
        Some(
            NewCaches {
                records: build_cache(&conversations, files, &parsed),
                inserts: search_inserts(&parsed),
            },
        )
    } else {
        None
    };
    Loaded { conversations, caches }
}

fn copy_place(place: &Option<Place>) -> (copy: Option<Place>)
    ensures
        copy == *place,
{
    match place {
        Some(place) => Some(
            Place { path: place.path.clone(), short_name: place.short_name.clone() },
        ),
        None => None,
    }
}

fn copy_text(text: &Option<String>) -> (copy: Option<String>)
    ensures
        copy == *text,
{
    match text {
        Some(text) => Some(text.clone()),
        None => None,
    }
}

fn copy_conversation(conversation: &Conversation) -> (copy: Conversation)
    ensures
        copy == *conversation,
{
    Conversation {
        file: conversation.file,
        name: copy_text(&conversation.name),
        timestamp: conversation.timestamp,
        index: conversation.index,
        cwd: copy_place(&conversation.cwd),
        project_path: copy_text(&conversation.project_path),
        project_name: copy_text(&conversation.project_name),
        preview: conversation.preview.clone(),
        preview_first: conversation.preview_first.clone(),
        preview_last: conversation.preview_last.clone(),
        full_text: conversation.full_text.clone(),
        search_text_lower: conversation.search_text_lower.clone(),
    }
}

/// What became of the load of a project.
#[derive(Clone, Debug)]
pub struct ProjectLoad {
    /// Its conversations, where they could be loaded.
    pub conversations: Option<Vec<Conversation>>,
    /// The directory that the project's name stands for.
    pub fallback: Place,
}

/// The conversations of projects, one project after another. A project that could not be loaded
/// has none.
pub open spec fn gathered(loads: Seq<ProjectLoad>) -> Seq<Conversation>
    decreases loads.len(),
{
    if loads.len() == 0 {
        Seq::empty()
    } else {
        let before = gathered(loads.drop_last());
        match loads.last().conversations {
            Some(conversations) => before + all_with_project(
                conversations@,
                loads.last().fallback,
            ),
            None => before,
        }
    }
}

/// Puts the conversations of all projects in one list, the latest first.
pub fn load_all_conversations(loads: Vec<ProjectLoad>) -> (list: Vec<Conversation>)
    ensures
        listed(gathered(loads@), list@),
{
    let ghost all = loads@;
    let mut rest = reversed(loads);
    let mut conversations: Vec<Conversation> = Vec::new();
    assert(all.take(0) =~= Seq::<ProjectLoad>::empty());
    while rest.len() > 0
        invariant
            rest@.len() <= all.len(),
            rest@ == all.reverse().take(rest@.len() as int),
            conversations@ == gathered(all.take(all.len() - rest@.len())),
        decreases rest@.len(),
    {
        let ghost done = all.len() - rest@.len();
        match rest.pop() {
            Some(load) => {
                proof {
                    assert(load == all[done]);
                    assert(all.take(done + 1).drop_last() =~= all.take(done));
                }
                match load.conversations {
                    Some(loaded) => {
                        let mut more = inject_project(loaded, &load.fallback);
                        conversations.append(&mut more);
                    },
                    None => {},
                }
            },
            None => {},
        }
        assert(rest@ =~= all.reverse().take(rest@.len() as int));
    }
    assert(all.take(all.len() as int) =~= all);
    list_conversations(conversations)
}

/// The message on the load of a project: none where the project has no conversations.
pub fn project_message(load: ProjectLoad) -> (message: Option<LoaderMessage>)
    ensures
        match load.conversations {
            None => message == Some(LoaderMessage::ProjectError),
            Some(conversations) => if conversations@.len() == 0 {
                message is None
            } else {
                message matches Some(LoaderMessage::Batch(batch)) && batch@ == all_with_project(
                    conversations@,
                    load.fallback,
                )
            },
        },
{
    match load.conversations {
        None => Some(LoaderMessage::ProjectError),
        Some(conversations) => if conversations.len() == 0 {
            None
        } else {
            Some(LoaderMessage::Batch(inject_project(conversations, &load.fallback)))
        },
    }
}

/// The directory that holds the projects.
#[derive(Clone, Debug)]
pub struct ProjectsRoot {
    pub path: String,
    pub exists: bool,
}

/// The message that ends the load before it starts: the directory that holds the projects is not
/// known or not there.
pub fn root_message(root: Result<ProjectsRoot, AppError>) -> (message: Option<LoaderMessage>)
    ensures
        match root {
            Err(error) => message == Some(LoaderMessage::Fatal(error)),
            Ok(root) => if root.exists {
                message is None
            } else {
                message == Some(LoaderMessage::Fatal(AppError::ProjectsDirNotFound(root.path)))
            },
        },
{
    match root {
        Err(error) => Some(LoaderMessage::Fatal(error)),
        Ok(root) => if root.exists {
            None
        } else {
            Some(LoaderMessage::Fatal(AppError::ProjectsDirNotFound(root.path)))
        },
    }
}

} // verus!
