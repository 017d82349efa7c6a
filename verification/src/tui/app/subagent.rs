//! Which subagent's transcript the focused message leads to.

use crate::claude::{ContentBlock, LogEntry};
use crate::text::same_text;
use crate::tui::app::state::{SubagentPath, ViewState};
use crate::tui::viewer::types::RenderableEntry;
use vstd::prelude::*;
use vstd::string::*;

verus! {

/// The file of the subagent that a tool call started: the first one given for the call.
pub open spec fn path_of(paths: Seq<SubagentPath>, id: Seq<char>) -> Option<String>
    decreases paths.len(),
{
    if paths.len() == 0 {
        None
    } else {
        match path_of(paths.drop_last(), id) {
            Some(path) => Some(path),
            None => if paths.last().tool_use_id@ == id {
                Some(paths.last().path)
            } else {
                None
            },
        }
    }
}

/// The subagent that a block leads to: the block calls one and its transcript is known.
pub open spec fn block_target(block: ContentBlock, paths: Seq<SubagentPath>) -> Option<
    SubagentPath,
> {
    match block {
        ContentBlock::ToolUse { id, name, input } => if name@ == "Task"@ || name@ == "Agent"@ {
            match path_of(paths, id@) {
                Some(path) => Some(SubagentPath { tool_use_id: id, path }),
                None => None,
            }
        } else {
            None
        },
        _ => None,
    }
}

/// The subagents that the blocks of a message lead to, in order.
pub open spec fn block_targets(blocks: Seq<ContentBlock>, paths: Seq<SubagentPath>) -> Seq<
    SubagentPath,
>
    decreases blocks.len(),
{
    if blocks.len() == 0 {
        Seq::empty()
    } else {
        let before = block_targets(blocks.drop_last(), paths);
        match block_target(blocks.last(), paths) {
            Some(target) => before.push(target),
            None => before,
        }
    }
}

/// The subagents that an entry leads to.
pub open spec fn entry_targets(entry: LogEntry, paths: Seq<SubagentPath>) -> Seq<SubagentPath> {
    match entry {
        LogEntry::Assistant { message, timestamp, parent_tool_use_id } => block_targets(
            message.content@,
            paths,
        ),
        _ => Seq::empty(),
    }
}

/// The subagents that the entries with an index in a range lead to, in order.
pub open spec fn targets(
    entries: Seq<RenderableEntry>,
    first: usize,
    last: usize,
    paths: Seq<SubagentPath>,
) -> Seq<SubagentPath>
    decreases entries.len(),
{
    if entries.len() == 0 {
        Seq::empty()
    } else {
        let before = targets(entries.drop_last(), first, last, paths);
        if first <= entries.last().entry_index <= last {
            before + entry_targets(entries.last().entry, paths)
        } else {
            before
        }
    }
}

/// The first item of a list, where it has one.
pub open spec fn head(list: Seq<SubagentPath>) -> Option<SubagentPath> {
    if list.len() == 0 {
        None
    } else {
        Some(list[0])
    }
}

/// The subagent that Enter leads to: while messages are walked through, the first one that
/// the focused message leads to.
pub open spec fn target(state: ViewState) -> Option<SubagentPath> {
    match (state.focused_message, state.parsed_entries) {
        (Some(at), Some(entries)) => if state.message_nav_active && at
            < state.message_ranges@.len() {
            let range = state.message_ranges@[at as int];
            head(
                targets(
                    entries@,
                    range.entry_index,
                    range.last_entry_index,
                    state.subagent_paths@,
                ),
            )
        } else {
            None
        },
        _ => None,
    }
}

fn find_path(paths: &Vec<SubagentPath>, id: &str) -> (path: Option<String>)
    ensures
        path == path_of(paths@, id@),
{
    let mut i: usize = 0;
    while i < paths.len()
        invariant
            i <= paths@.len(),
            path_of(paths@.take(i as int), id@) is None,
        decreases paths@.len() - i,
    {
        proof {
            assert(paths@.take(i + 1).drop_last() =~= paths@.take(i as int));
        }
        if same_text(paths[i].tool_use_id.as_str(), id) {
            proof {
                lemma_path_stays(paths@, i + 1, id@);
            }
            return Some(paths[i].path.clone());
        }
        i = i + 1;
    }
    assert(paths@.take(i as int) =~= paths@);
    None
}

proof fn lemma_path_stays(paths: Seq<SubagentPath>, n: int, id: Seq<char>)
    requires
        0 <= n <= paths.len(),
        path_of(paths.take(n), id) is Some,
    ensures
        path_of(paths, id) == path_of(paths.take(n), id),
    decreases paths.len() - n,
{
    if n == paths.len() {
        assert(paths.take(n) =~= paths);
    } else {
        assert(paths.take(n + 1).drop_last() =~= paths.take(n));
        lemma_path_stays(paths, n + 1, id);
    }
}

proof fn lemma_block_targets_start(blocks: Seq<ContentBlock>, n: int, paths: Seq<SubagentPath>)
    requires
        0 <= n <= blocks.len(),
        block_targets(blocks.take(n), paths).len() > 0,
    ensures
        head(block_targets(blocks, paths)) == head(block_targets(blocks.take(n), paths)),
    decreases blocks.len() - n,
{
    if n == blocks.len() {
        assert(blocks.take(n) =~= blocks);
    } else {
        assert(blocks.take(n + 1).drop_last() =~= blocks.take(n));
        lemma_block_targets_start(blocks, n + 1, paths);
    }
}

proof fn lemma_targets_start(
    entries: Seq<RenderableEntry>,
    n: int,
    first: usize,
    last: usize,
    paths: Seq<SubagentPath>,
)
    requires
        0 <= n <= entries.len(),
        targets(entries.take(n), first, last, paths).len() > 0,
    ensures
        head(targets(entries, first, last, paths)) == head(
            targets(entries.take(n), first, last, paths),
        ),
    decreases entries.len() - n,
{
    if n == entries.len() {
        assert(entries.take(n) =~= entries);
    } else {
        assert(entries.take(n + 1).drop_last() =~= entries.take(n));
        lemma_targets_start(entries, n + 1, first, last, paths);
    }
}

fn first_block_target(blocks: &Vec<ContentBlock>, paths: &Vec<SubagentPath>) -> (found: Option<
    SubagentPath,
>)
    ensures
        found == head(block_targets(blocks@, paths@)),
{
    let mut i: usize = 0;
    while i < blocks.len()
        invariant
            i <= blocks@.len(),
            block_targets(blocks@.take(i as int), paths@).len() == 0,
        decreases blocks@.len() - i,
    {
        proof {
            assert(blocks@.take(i + 1).drop_last() =~= blocks@.take(i as int));
        }
        match &blocks[i] {
            ContentBlock::ToolUse { id, name, .. } => {
                if same_text(name.as_str(), "Task") || same_text(name.as_str(), "Agent") {
                    match find_path(paths, id.as_str()) {
                        Some(path) => {
                            proof {
                                lemma_block_targets_start(blocks@, i + 1, paths@);
                            }
                            return Some(SubagentPath { tool_use_id: id.clone(), path });
                        },
                        None => {},
                    }
                }
            },
            _ => {},
        }
        i = i + 1;
    }
    assert(blocks@.take(i as int) =~= blocks@);
    None
}

/// The subagent that Enter leads to from a transcript.
pub fn subagent_to_enter(state: &ViewState) -> (found: Option<SubagentPath>)
    ensures
        found == target(*state),
{
    if !state.message_nav_active {
        return None;
    }
    let at = match state.focused_message {
        Some(at) => at,
        None => {
            return None;
        },
    };
    if at >= state.message_ranges.len() {
        return None;
    }
    let first = state.message_ranges[at].entry_index;
    let last = state.message_ranges[at].last_entry_index;
    let paths = &state.subagent_paths;
    match &state.parsed_entries {
        Some(entries) => {
            let mut i: usize = 0;
            while i < entries.len()
                invariant
                    i <= entries@.len(),
                    targets(entries@.take(i as int), first, last, paths@).len() == 0,
                    paths@ == state.subagent_paths@,
                    state.message_nav_active,
                    state.focused_message == Some(at),
                    state.parsed_entries == Some(*entries),
                    at < state.message_ranges@.len(),
                    first == state.message_ranges@[at as int].entry_index,
                    last == state.message_ranges@[at as int].last_entry_index,
                decreases entries@.len() - i,
            {
                proof {
                    assert(entries@.take(i + 1).drop_last() =~= entries@.take(i as int));
                }
                let entry = &entries[i];
                if first <= entry.entry_index && entry.entry_index <= last {
                    match &entry.entry {
                        LogEntry::Assistant { message, .. } => {
                            let found = first_block_target(&message.content, paths);
                            if found.is_some() {
                                proof {
                                    let before = targets(entries@.take(i as int), first, last, paths@);
                                    assert(before + entry_targets(entry.entry, paths@)
                                        =~= entry_targets(entry.entry, paths@));
                                    lemma_targets_start(entries@, i + 1, first, last, paths@);
                                }
                                return found;
                            }
                        },
                        _ => {},
                    }
                }
                i = i + 1;
            }
            assert(entries@.take(i as int) =~= entries@);
            None
        },
        None => None,
    }
}

} // verus!
