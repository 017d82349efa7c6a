//! The texts that searches look through.

use crate::history::order::reversed;
use crate::history::types::{Conversation, FoundFile, LoaderMessage, SearchText};
use std::collections::HashMap;
use vstd::prelude::*;
use vstd::string::*;

verus! {

broadcast use vstd::std_specs::hash::group_hash_axioms;

/// The text of a file, as it stands and in the form that searches compare.
#[derive(Clone, Debug)]
pub struct NormalizedText {
    pub file: u64,
    pub full_text: String,
    pub search_text_lower: String,
}

/// The last text that is given for a file.
pub open spec fn text_of(texts: Seq<NormalizedText>, file: u64) -> Option<NormalizedText>
    decreases texts.len(),
{
    if texts.len() == 0 {
        None
    } else if texts.last().file == file {
        Some(texts.last())
    } else {
        text_of(texts.drop_last(), file)
    }
}

/// Whether a conversation is the first one of its file.
pub open spec fn first_of_file(conversations: Seq<Conversation>, at: int) -> bool {
    forall|i: int| 0 <= i < at ==> (#[trigger] conversations[i]).file != conversations[at].file
}

/// A conversation with its text.
pub open spec fn hydrated(conversation: Conversation, text: NormalizedText) -> Conversation {
    Conversation {
        full_text: text.full_text,
        search_text_lower: text.search_text_lower,
        ..conversation
    }
}

/// What becomes of a conversation where texts are given: the first one of each file takes the
/// last text of the file.
pub open spec fn with_text(
    conversations: Seq<Conversation>,
    at: int,
    texts: Seq<NormalizedText>,
) -> Conversation {
    match text_of(texts, conversations[at].file) {
        Some(text) => if first_of_file(conversations, at) {
            hydrated(conversations[at], text)
        } else {
            conversations[at]
        },
        None => conversations[at],
    }
}

spec fn by_file(texts: Seq<NormalizedText>) -> Map<u64, NormalizedText>
    decreases texts.len(),
{
    if texts.len() == 0 {
        Map::empty()
    } else {
        by_file(texts.drop_last()).insert(texts.last().file, texts.last())
    }
}

proof fn lemma_by_file(texts: Seq<NormalizedText>, file: u64)
    ensures
        match text_of(texts, file) {
            Some(text) => by_file(texts).contains_key(file) && by_file(texts)[file] == text,
            None => !by_file(texts).contains_key(file),
        },
    decreases texts.len(),
{
    if texts.len() > 0 {
        lemma_by_file(texts.drop_last(), file);
    }
}

/// Gives conversations their texts.
pub fn apply_search_text(
    conversations: &mut Vec<Conversation>,
    search_data: Vec<NormalizedText>,
)
    ensures
        final(conversations)@ == Seq::new(
            old(conversations)@.len(),
            |i: int| with_text(old(conversations)@, i, search_data@),
        ),
{
    let ghost texts = search_data@;
    let ghost start = conversations@;
    let mut by_path: HashMap<u64, NormalizedText> = HashMap::new();
    let mut rest = reversed(search_data);
    assert(texts.take(0) =~= Seq::<NormalizedText>::empty());
    while rest.len() > 0
        invariant
            rest@.len() <= texts.len(),
            rest@ == texts.reverse().take(rest@.len() as int),
            by_path@ == by_file(texts.take(texts.len() - rest@.len())),
        decreases rest@.len(),
    {
        let ghost done = texts.len() - rest@.len();
        match rest.pop() {
            Some(text) => {
                proof {
                    assert(text == texts[done]);
                    assert(texts.take(done + 1).drop_last() =~= texts.take(done));
                }
                by_path.insert(text.file, text);
            },
            None => {},
        }
        assert(rest@ =~= texts.reverse().take(rest@.len() as int));
    }
    assert(texts.take(texts.len() as int) =~= texts);
    let mut i: usize = 0;
    while i < conversations.len()
        invariant
            i <= start.len(),
            conversations@.len() == start.len(),
            forall|j: int| 0 <= j < i ==> #[trigger] conversations@[j] == with_text(start, j, texts),
            forall|j: int| i <= j < start.len() ==> #[trigger] conversations@[j] == start[j],
            forall|file: u64| #[trigger]
                by_path@.contains_key(file) <==> by_file(texts).contains_key(file) && forall|j: int|
                    0 <= j < i ==> (#[trigger] start[j]).file != file,
            forall|file: u64| #[trigger]
                by_path@.contains_key(file) ==> by_path@[file] == by_file(texts)[file],
        decreases start.len() - i,
    {
        let ghost file = start[i as int].file;
        let ghost left = by_path@;
        proof {
            lemma_by_file(texts, file);
            assert(conversations@[i as int] == start[i as int]);
            assert(first_of_file(start, i as int) <==> forall|j: int|
                0 <= j < i ==> (#[trigger] start[j]).file != file);
        }
        let found = by_path.remove(&conversations[i].file);
        match found {
            Some(text) => {
                conversations[i].search_text_lower = text.search_text_lower;
                conversations[i].full_text = text.full_text;
            },
            None => {},
        }
        proof {
            assert(conversations@[i as int] == with_text(start, i as int, texts));
            assert forall|other: u64| #[trigger]
                by_path@.contains_key(other) <==> by_file(texts).contains_key(other)
                    && forall|j: int| 0 <= j < i + 1 ==> (#[trigger] start[j]).file != other by {
                assert(by_path@.contains_key(other) <==> left.contains_key(other) && other != file);
                if left.contains_key(other) && other != file {
                    assert forall|j: int| 0 <= j < i + 1 implies (#[trigger] start[j]).file
                        != other by {}
                }
                if by_file(texts).contains_key(other) && forall|j: int|
                    0 <= j < i + 1 ==> (#[trigger] start[j]).file != other {
                    assert(start[i as int].file != other);
                }
            }
        }
        i = i + 1;
    }
    assert(conversations@ =~= Seq::new(start.len(), |j: int| with_text(start, j, texts)));
}

/// What the search cache holds under the name of a file.
#[derive(Clone, Debug)]
pub struct CachedText {
    /// Whether the entry was made of the file as it now is.
    pub matches: bool,
    pub full_text: String,
}

/// A file with what the search cache holds under its name.
#[derive(Clone, Debug)]
pub struct SearchFile {
    pub found: FoundFile,
    pub cached: Option<CachedText>,
}

/// What is to be put in the search cache.
#[derive(Clone, Debug)]
pub struct SearchInsert {
    pub name: String,
    pub full_text: String,
    pub size: u64,
    pub mtime: i128,
}

/// The text of a file that the cache has: the file's time is known and the entry matches.
pub open spec fn cached_text(file: SearchFile) -> Option<String> {
    match (file.found.modified, file.cached) {
        (Some(_), Some(entry)) => if entry.matches {
            Some(entry.full_text)
        } else {
            None
        },
        _ => None,
    }
}

/// Tells whether the cache has the text of a file, so that the file is not read.
pub fn has_cached_text(file: &SearchFile) -> (hit: bool)
    ensures
        hit == cached_text(*file) is Some,
{
    match (&file.found.modified, &file.cached) {
        (Some(_), Some(entry)) => entry.matches,
        _ => false,
    }
}

/// The texts of files: those of the cache, and else those that were read, where one was.
pub open spec fn texts_of(files: Seq<SearchFile>, read: Seq<Option<String>>) -> Seq<SearchText>
    decreases files.len(),
{
    if files.len() == 0 {
        Seq::empty()
    } else {
        let before = texts_of(files.drop_last(), read);
        let file = files.last();
        match cached_text(file) {
            Some(full_text) => before.push(SearchText { file: file.found.file, full_text }),
            None => match read[files.len() - 1] {
                Some(full_text) => before.push(SearchText { file: file.found.file, full_text }),
                None => before,
            },
        }
    }
}

/// A text of a file as it is put in the cache: under the file's name, where the file's time is
/// known.
pub open spec fn insert_of(found: FoundFile, full_text: Seq<char>, insert: SearchInsert) -> bool {
    &&& found.modified == Some(insert.mtime)
    &&& insert.name@ == cache_name(found, ""@)
    &&& insert.full_text@ == full_text
    &&& insert.size == found.size
}

/// The name that a cache knows a file by.
pub open spec fn cache_name(found: FoundFile, unnamed: Seq<char>) -> Seq<char> {
    match found.name.name {
        Some(name) => name@,
        None => unnamed,
    }
}

/// The places of the files whose texts were read and have a known time: they go to the cache.
pub open spec fn fresh(files: Seq<SearchFile>, read: Seq<Option<String>>) -> Seq<int>
    decreases files.len(),
{
    if files.len() == 0 {
        Seq::empty()
    } else {
        let before = fresh(files.drop_last(), read);
        let at = files.len() - 1;
        if cached_text(files[at]) is None && read[at] is Some && files[at].found.modified is Some {
            before.push(at)
        } else {
            before
        }
    }
}

/// The texts of a project and what is to be put in the search cache. The cache is written where
/// there is anything to put in.
#[derive(Clone, Debug)]
pub struct SearchLoad {
    pub texts: Vec<SearchText>,
    pub inserts: Vec<SearchInsert>,
}

/// The name that a cache knows a file by.
pub fn name_in_cache(found: &FoundFile, unnamed: &str) -> (name: String)
    ensures
        name@ == cache_name(*found, unnamed@),
{
    match &found.name.name {
        Some(name) => name.clone(),
        None => unnamed.to_owned(),
    }
}

/// Gathers the texts of a project: from the cache, and from the files that had to be read.
pub fn load_project_search_data(files: &Vec<SearchFile>, read: &Vec<Option<String>>) -> (load:
    SearchLoad)
    requires
        read@.len() == files@.len(),
    ensures
        load.texts@ == texts_of(files@, read@),
        load.inserts@.len() == fresh(files@, read@).len(),
        forall|i: int|
            #![trigger load.inserts@[i]]
            0 <= i < load.inserts@.len() ==> insert_of(
                files@[fresh(files@, read@)[i]].found,
                read@[fresh(files@, read@)[i]]->0@,
                load.inserts@[i],
            ),
{
    let mut texts: Vec<SearchText> = Vec::new();
    let mut inserts: Vec<SearchInsert> = Vec::new();
    let mut i: usize = 0;
    while i < files.len()
        invariant
            i <= files@.len(),
            read@.len() == files@.len(),
            texts@ == texts_of(files@.take(i as int), read@),
            inserts@.len() == fresh(files@.take(i as int), read@).len(),
            forall|j: int|
                #![trigger inserts@[j]]
                0 <= j < inserts@.len() ==> insert_of(
                    files@[fresh(files@.take(i as int), read@)[j]].found,
                    read@[fresh(files@.take(i as int), read@)[j]]->0@,
                    inserts@[j],
                ),
        decreases files@.len() - i,
    {
        let file = &files[i];
        let ghost before = fresh(files@.take(i as int), read@);
        proof {
            assert(files@.take(i + 1).drop_last() =~= files@.take(i as int));
            assert(files@.take(i + 1).last() == *file);
        }
        if has_cached_text(file) {
            match &file.cached {
                Some(entry) => {
                    texts.push(
                        SearchText { file: file.found.file, full_text: entry.full_text.clone() },
                    );
                },
                None => {},
            }
        } else {
            match &read[i] {
                Some(full_text) => {
                    match file.found.modified {
                        Some(mtime) => {
                            inserts.push(
                                SearchInsert {
                                    name: name_in_cache(&file.found, ""),
                                    full_text: full_text.clone(),
                                    size: file.found.size,
                                    mtime,
                                },
                            );
                        },
                        None => {},
                    }
                    texts.push(
                        SearchText { file: file.found.file, full_text: full_text.clone() },
                    );
                },
                None => {},
            }
        }
        i = i + 1;
    }
    assert(files@.take(i as int) =~= files@);
    SearchLoad { texts, inserts }
}

/// The message on the texts of a project: none where there are none.
pub fn search_message(texts: Vec<SearchText>) -> (message: Option<LoaderMessage>)
    ensures
        message == if texts@.len() == 0 {
            None::<LoaderMessage>
        } else {
            Some(LoaderMessage::SearchBatch(texts))
        },
{
    if texts.len() == 0 {
        None
    } else {
        Some(LoaderMessage::SearchBatch(texts))
    }
}

/// Where no file has two texts and no two conversations are of one file, each text reaches the
/// conversation of its file, and a conversation without a text stays as it is.
pub proof fn law_texts_reach_their_conversations(
    conversations: Seq<Conversation>,
    texts: Seq<NormalizedText>,
    at: int,
)
    requires
        0 <= at < conversations.len(),
        forall|i: int, j: int|
            0 <= i < j < conversations.len() ==> conversations[i].file != conversations[j].file,
        forall|i: int, j: int| 0 <= i < j < texts.len() ==> texts[i].file != texts[j].file,
    ensures
        forall|k: int|
            0 <= k < texts.len() && (#[trigger] texts[k]).file == conversations[at].file
                ==> with_text(conversations, at, texts) == hydrated(conversations[at], texts[k]),
        (forall|k: int|
            0 <= k < texts.len() ==> (#[trigger] texts[k]).file != conversations[at].file)
            ==> with_text(conversations, at, texts) == conversations[at],
{
    let file = conversations[at].file;
    assert(first_of_file(conversations, at));
    lemma_text_of(texts, file);
    match text_of(texts, file) {
        Some(text) => {
            let n = choose|n: int| 0 <= n < texts.len() && texts[n] == text && text.file == file;
            assert forall|k: int| 0 <= k < texts.len() && (#[trigger] texts[k]).file == file implies k
                == n by {
                if k < n {
                    assert(texts[k].file != texts[n].file);
                } else if n < k {
                    assert(texts[n].file != texts[k].file);
                }
            }
        },
        None => {},
    }
}

proof fn lemma_text_of(texts: Seq<NormalizedText>, file: u64)
    ensures
        match text_of(texts, file) {
            Some(text) => exists|n: int|
                0 <= n < texts.len() && texts[n] == text && text.file == file,
            None => forall|n: int| 0 <= n < texts.len() ==> (#[trigger] texts[n]).file != file,
        },
    decreases texts.len(),
{
    if texts.len() > 0 {
        let rest = texts.drop_last();
        lemma_text_of(rest, file);
        if texts.last().file == file {
            assert(texts[texts.len() - 1] == texts.last());
        } else {
            match text_of(rest, file) {
                Some(text) => {
                    let n = choose|n: int|
                        0 <= n < rest.len() && rest[n] == text && text.file == file;
                    assert(texts[n] == text);
                },
                None => {
                    assert forall|n: int| 0 <= n < texts.len() implies (#[trigger] texts[n]).file
                        != file by {
                        if n < rest.len() {
                            assert(rest[n] == texts[n]);
                        }
                    }
                },
            }
        }
    }
}

/// Every file whose text the cache has, or was read, has its text among those that are gathered.
pub proof fn law_known_texts_are_gathered(
    files: Seq<SearchFile>,
    read: Seq<Option<String>>,
    at: int,
)
    requires
        0 <= at < files.len(),
        cached_text(files[at]) is Some || read[at] is Some,
    ensures
        texts_of(files, read).contains(
            (SearchText {
                file: files[at].found.file,
                full_text: match cached_text(files[at]) {
                    Some(text) => text,
                    None => read[at]->0,
                },
            }),
        ),
    decreases files.len(),
{
    let text = SearchText {
        file: files[at].found.file,
        full_text: match cached_text(files[at]) {
            Some(text) => text,
            None => read[at]->0,
        },
    };
    let all = texts_of(files, read);
    let before = texts_of(files.drop_last(), read);
    if at == files.len() - 1 {
        assert(all[all.len() - 1] == text);
    } else {
        assert(files.drop_last()[at] == files[at]);
        law_known_texts_are_gathered(files.drop_last(), read, at);
        let i = choose|i: int| 0 <= i < before.len() && before[i] == text;
        assert(all[i] == text);
    }
}

/// The files of gathered texts are among the files that were looked through, each once where those
/// are.
proof fn lemma_text_files(files: Seq<SearchFile>, read: Seq<Option<String>>)
    requires
        forall|i: int, j: int|
            0 <= i < j < files.len() ==> files[i].found.file != files[j].found.file,
    ensures
        forall|k: int|
            0 <= k < texts_of(files, read).len() ==> exists|i: int|
                0 <= i < files.len() && (#[trigger] files[i]).found.file == (
                #[trigger] texts_of(files, read)[k]).file,
        forall|k: int, l: int|
            0 <= k < l < texts_of(files, read).len() ==> texts_of(files, read)[k].file != texts_of(
                files,
                read,
            )[l].file,
    decreases files.len(),
{
    if files.len() > 0 {
        let rest = files.drop_last();
        assert forall|i: int, j: int| 0 <= i < j < rest.len() implies rest[i].found.file
            != rest[j].found.file by {
            assert(files[i].found.file != files[j].found.file);
        }
        lemma_text_files(rest, read);
        let before = texts_of(rest, read);
        let all = texts_of(files, read);
        assert forall|k: int| 0 <= k < all.len() implies exists|i: int|
            0 <= i < files.len() && (#[trigger] files[i]).found.file == (#[trigger] all[k]).file by {
            if k < before.len() {
                assert(all[k] == before[k]);
                let i = choose|i: int|
                    0 <= i < rest.len() && (#[trigger] rest[i]).found.file == before[k].file;
                assert(files[i].found.file == all[k].file);
            } else {
                assert(files[files.len() - 1].found.file == all[k].file);
            }
        }
        assert forall|k: int, l: int| 0 <= k < l < all.len() implies all[k].file != all[l].file by {
            assert(all[k] == before[k]);
            if l < before.len() {
                assert(all[l] == before[l]);
            } else {
                let i = choose|i: int|
                    0 <= i < rest.len() && (#[trigger] rest[i]).found.file == before[k].file;
                assert(files[i].found.file != files[files.len() - 1].found.file);
            }
        }
    }
}

/// Whether texts are those that were gathered, each with the form that searches compare.
pub open spec fn normalized(texts: Seq<NormalizedText>, gathered: Seq<SearchText>) -> bool {
    &&& texts.len() == gathered.len()
    &&& forall|i: int|
        0 <= i < texts.len() ==> (#[trigger] texts[i]).file == gathered[i].file
            && texts[i].full_text == gathered[i].full_text
}

/// Once the texts of a project's files were gathered and given out, every conversation of a file
/// whose text is known holds that text: what was loaded can be searched.
pub proof fn law_loaded_conversations_can_be_searched(
    conversations: Seq<Conversation>,
    files: Seq<SearchFile>,
    read: Seq<Option<String>>,
    texts: Seq<NormalizedText>,
    at: int,
    k: int,
)
    requires
        0 <= at < conversations.len(),
        0 <= k < files.len(),
        forall|i: int, j: int|
            0 <= i < j < conversations.len() ==> conversations[i].file != conversations[j].file,
        forall|i: int, j: int|
            0 <= i < j < files.len() ==> files[i].found.file != files[j].found.file,
        normalized(texts, texts_of(files, read)),
        files[k].found.file == conversations[at].file,
        cached_text(files[k]) is Some || read[k] is Some,
    ensures
        with_text(conversations, at, texts).full_text == match cached_text(files[k]) {
            Some(text) => text,
            None => read[k]->0,
        },
{
    let gathered = texts_of(files, read);
    law_known_texts_are_gathered(files, read, k);
    lemma_text_files(files, read);
    let text = SearchText {
        file: files[k].found.file,
        full_text: match cached_text(files[k]) {
            Some(text) => text,
            None => read[k]->0,
        },
    };
    let n = choose|n: int| 0 <= n < gathered.len() && gathered[n] == text;
    assert(texts[n].file == conversations[at].file);
    assert forall|i: int, j: int| 0 <= i < j < texts.len() implies texts[i].file
        != texts[j].file by {
        assert(gathered[i].file != gathered[j].file);
    }
    law_texts_reach_their_conversations(conversations, texts, at);
}

} // verus!
