//! Which subagent a message leads to.

use crate::claude::{ContentBlock, };
use crate::tui::app::state::{SubagentPath, ViewState};
use crate::tui::app::subagent::{
    block_target, block_targets, entry_targets, path_of, target, targets,
};
use crate::tui::viewer::types::RenderableEntry;
use vstd::prelude::*;

verus! {

/// Whether a block calls a subagent, by the identifier of the call.
pub open spec fn calls_subagent(block: ContentBlock, id: Seq<char>) -> bool {
    &&& block is ToolUse
    &&& block->ToolUse_id@ == id
    &&& block->name@ == seq!['T', 'a', 's', 'k'] || block->name@ == seq!['A', 'g', 'e', 'n', 't']
}

/// Whether a file is the one that is known for a call: the first that is given for it.
pub open spec fn file_is_known(paths: Seq<SubagentPath>, id: Seq<char>, p: int) -> bool {
    &&& 0 <= p < paths.len()
    &&& paths[p].tool_use_id@ == id
    &&& forall|q: int| 0 <= q < p ==> (#[trigger] paths[q]).tool_use_id@ != id
}

/// Whether a block of an entry leads to the transcript of a subagent.
pub open spec fn leads(
    entries: Seq<RenderableEntry>,
    e: int,
    b: int,
    paths: Seq<SubagentPath>,
) -> bool {
    &&& 0 <= e < entries.len()
    &&& entries[e].entry is Assistant
    &&& 0 <= b < entries[e].entry->Assistant_message.content@.len()
    &&& {
        let block = entries[e].entry->Assistant_message.content@[b];
        block is ToolUse && calls_subagent(block, block->ToolUse_id@) && exists|p: int|
            file_is_known(paths, block->ToolUse_id@, p)
    }
}

proof fn lemma_path_of(paths: Seq<SubagentPath>, id: Seq<char>)
    ensures
        path_of(paths, id) is Some <==> exists|p: int| file_is_known(paths, id, p),
        forall|p: int| #[trigger]
            file_is_known(paths, id, p) ==> path_of(paths, id) == Some(paths[p].path),
    decreases paths.len(),
{
    if paths.len() > 0 {
        let rest = paths.drop_last();
        lemma_path_of(rest, id);
        assert forall|p: int| #[trigger] file_is_known(paths, id, p) implies path_of(paths, id)
            == Some(paths[p].path) by {
            if p < rest.len() {
                assert forall|q: int| 0 <= q < p implies (#[trigger] rest[q]).tool_use_id@ != id by {
                    assert(paths[q] == rest[q]);
                }
                assert(file_is_known(rest, id, p));
            } else {
                if exists|q: int| file_is_known(rest, id, q) {
                    let q = choose|q: int| file_is_known(rest, id, q);
                    assert(paths[q] == rest[q]);
                }
            }
        }
        if path_of(paths, id) is Some {
            if path_of(rest, id) is Some {
                let p = choose|p: int| file_is_known(rest, id, p);
                assert forall|q: int| 0 <= q < p implies (#[trigger] paths[q]).tool_use_id@
                    != id by {
                    assert(paths[q] == rest[q]);
                }
                assert(file_is_known(paths, id, p));
            } else {
                let p = paths.len() - 1;
                assert forall|q: int| 0 <= q < p implies (#[trigger] paths[q]).tool_use_id@
                    != id by {
                    if paths[q].tool_use_id@ == id {
                        let first = lemma_first_known(rest, id, q);
                        assert(file_is_known(rest, id, first));
                    }
                }
                assert(file_is_known(paths, id, p));
            }
        }
    }
}

proof fn lemma_first_known(paths: Seq<SubagentPath>, id: Seq<char>, q: int) -> (p: int)
    requires
        0 <= q < paths.len(),
        paths[q].tool_use_id@ == id,
    ensures
        file_is_known(paths, id, p),
    decreases q,
{
    if exists|r: int| 0 <= r < q && (#[trigger] paths[r]).tool_use_id@ == id {
        let r = choose|r: int| 0 <= r < q && (#[trigger] paths[r]).tool_use_id@ == id;
        lemma_first_known(paths, id, r)
    } else {
        q
    }
}

/// Whether a block has a subagent to lead to.
spec fn has_target(block: ContentBlock, paths: Seq<SubagentPath>) -> bool {
    block is ToolUse && calls_subagent(block, block->ToolUse_id@) && exists|p: int|
        file_is_known(paths, block->ToolUse_id@, p)
}

proof fn lemma_block_target(block: ContentBlock, paths: Seq<SubagentPath>)
    ensures
        block_target(block, paths) is Some <==> has_target(block, paths),
        block_target(block, paths) is Some ==> block_target(block, paths)->0.tool_use_id
            == block->ToolUse_id && (forall|p: int| #[trigger]
            file_is_known(paths, block->ToolUse_id@, p) ==> block_target(block, paths)->0.path
                == paths[p].path),
{
    reveal_strlit("Task");
    reveal_strlit("Agent");
    assert("Task"@ =~= seq!['T', 'a', 's', 'k']);
    assert("Agent"@ =~= seq!['A', 'g', 'e', 'n', 't']);
    if block is ToolUse {
        lemma_path_of(paths, block->ToolUse_id@);
    }
}

proof fn lemma_block_targets(blocks: Seq<ContentBlock>, paths: Seq<SubagentPath>, b: int)
    requires
        0 <= b <= blocks.len(),
        forall|c: int| 0 <= c < b ==> !has_target(#[trigger] blocks[c], paths),
    ensures
        b == blocks.len() ==> block_targets(blocks, paths).len() == 0,
        b < blocks.len() && has_target(blocks[b], paths) ==> block_targets(blocks, paths).len() > 0
            && block_target(blocks[b], paths) == Some(block_targets(blocks, paths)[0]),
    decreases blocks.len(),
{
    if blocks.len() > 0 {
        let rest = blocks.drop_last();
        lemma_block_target(blocks.last(), paths);
        if b <= rest.len() {
            assert forall|c: int| 0 <= c < b implies !has_target(#[trigger] rest[c], paths) by {
                assert(blocks[c] == rest[c]);
            }
            lemma_block_targets(rest, paths, b);
        } else {
            assert(!has_target(blocks[blocks.len() - 1], paths));
            assert forall|c: int| 0 <= c < rest.len() implies !has_target(
                #[trigger] rest[c],
                paths,
            ) by {
                assert(blocks[c] == rest[c]);
            }
            lemma_block_targets(rest, paths, rest.len() as int);
        }
    }
}

/// Whether an entry is one of a message.
pub open spec fn of_message(
    entries: Seq<RenderableEntry>,
    e: int,
    first: usize,
    last: usize,
) -> bool {
    0 <= e < entries.len() && first <= entries[e].entry_index && entries[e].entry_index <= last
}

proof fn lemma_no_targets(
    entries: Seq<RenderableEntry>,
    first: usize,
    last: usize,
    paths: Seq<SubagentPath>,
)
    requires
        forall|e: int, b: int|
            of_message(entries, e, first, last) ==> !#[trigger] leads(entries, e, b, paths),
    ensures
        targets(entries, first, last, paths).len() == 0,
    decreases entries.len(),
{
    if entries.len() > 0 {
        let rest = entries.drop_last();
        let at = entries.len() - 1;
        assert forall|e: int, b: int| of_message(rest, e, first, last) implies !#[trigger] leads(
            rest,
            e,
            b,
            paths,
        ) by {
            assert(entries[e] == rest[e]);
            assert(of_message(entries, e, first, last));
            assert(!leads(entries, e, b, paths));
        }
        lemma_no_targets(rest, first, last, paths);
        if of_message(entries, at, first, last) && entries[at].entry is Assistant {
            let blocks = entries[at].entry->Assistant_message.content@;
            assert forall|c: int| 0 <= c < blocks.len() implies !has_target(
                #[trigger] blocks[c],
                paths,
            ) by {
                assert(!leads(entries, at, c, paths));
            }
            lemma_block_targets(blocks, paths, blocks.len() as int);
        }
    }
}

proof fn lemma_first_target(
    entries: Seq<RenderableEntry>,
    first: usize,
    last: usize,
    paths: Seq<SubagentPath>,
    e: int,
    b: int,
)
    requires
        of_message(entries, e, first, last),
        leads(entries, e, b, paths),
        forall|f: int, c: int|
            of_message(entries, f, first, last) && (f < e || (f == e && c < b)) ==> !#[trigger] leads(
                entries,
                f,
                c,
                paths,
            ),
    ensures
        targets(entries, first, last, paths).len() > 0,
        block_target(entries[e].entry->Assistant_message.content@[b], paths) == Some(
            targets(entries, first, last, paths)[0],
        ),
    decreases entries.len(),
{
    let rest = entries.drop_last();
    if e < rest.len() {
        assert(rest[e] == entries[e]);
        assert forall|f: int, c: int|
            of_message(rest, f, first, last) && (f < e || (f == e && c < b)) implies !#[trigger] leads(
            rest,
            f,
            c,
            paths,
        ) by {
            assert(entries[f] == rest[f]);
            assert(of_message(entries, f, first, last));
            assert(!leads(entries, f, c, paths));
        }
        lemma_first_target(rest, first, last, paths, e, b);
    } else {
        assert forall|f: int, c: int| of_message(rest, f, first, last) implies !#[trigger] leads(
            rest,
            f,
            c,
            paths,
        ) by {
            assert(entries[f] == rest[f]);
            assert(of_message(entries, f, first, last));
            assert(!leads(entries, f, c, paths));
        }
        lemma_no_targets(rest, first, last, paths);
        let blocks = entries[e].entry->Assistant_message.content@;
        assert forall|c: int| 0 <= c < b implies !has_target(#[trigger] blocks[c], paths) by {
            assert(!leads(entries, e, c, paths));
        }
        lemma_block_targets(blocks, paths, b);
        assert(targets(entries, first, last, paths) =~= entry_targets(entries[e].entry, paths));
    }
}

/// While messages are walked through, Enter leads to the transcript of the first call of a subagent
/// in the focused message whose file is known.
pub proof fn law_enter_leads_to_the_first_subagent_of_the_message(
    state: ViewState,
    e: int,
    b: int,
    p: int,
)
    requires
        state.message_nav_active,
        state.focused_message is Some,
        state.focused_message->0 < state.message_ranges@.len(),
        state.parsed_entries is Some,
        ({
            let range = state.message_ranges@[state.focused_message->0 as int];
            let entries = state.parsed_entries->0@;
            &&& of_message(entries, e, range.entry_index, range.last_entry_index)
            &&& leads(entries, e, b, state.subagent_paths@)
            &&& forall|f: int, c: int|
                of_message(entries, f, range.entry_index, range.last_entry_index) && (f < e || (f
                    == e && c < b)) ==> !#[trigger] leads(entries, f, c, state.subagent_paths@)
            &&& file_is_known(
                state.subagent_paths@,
                entries[e].entry->Assistant_message.content@[b]->ToolUse_id@,
                p,
            )
        }),
    ensures
        target(state) is Some,
        target(state)->0.path == state.subagent_paths@[p].path,
        target(state)->0.tool_use_id
            == state.parsed_entries->0@[e].entry->Assistant_message.content@[b]->ToolUse_id,
{
    let range = state.message_ranges@[state.focused_message->0 as int];
    let entries = state.parsed_entries->0@;
    lemma_first_target(
        entries,
        range.entry_index,
        range.last_entry_index,
        state.subagent_paths@,
        e,
        b,
    );
    lemma_block_target(
        entries[e].entry->Assistant_message.content@[b],
        state.subagent_paths@,
    );
}

/// Enter leads nowhere where no message is walked through or focused, or where the focused message
/// calls no subagent whose file is known.
pub proof fn law_enter_leads_nowhere_without_a_subagent(state: ViewState)
    requires
        !state.message_nav_active || state.focused_message is None || state.parsed_entries is None
            || state.focused_message->0 >= state.message_ranges@.len() || ({
            let range = state.message_ranges@[state.focused_message->0 as int];
            let entries = state.parsed_entries->0@;
            forall|e: int, b: int|
                of_message(entries, e, range.entry_index, range.last_entry_index)
                    ==> !#[trigger] leads(entries, e, b, state.subagent_paths@)
        }),
    ensures
        target(state) is None,
{
    if state.message_nav_active && state.focused_message is Some && state.parsed_entries is Some
        && state.focused_message->0 < state.message_ranges@.len() {
        let range = state.message_ranges@[state.focused_message->0 as int];
        lemma_no_targets(
            state.parsed_entries->0@,
            range.entry_index,
            range.last_entry_index,
            state.subagent_paths@,
        );
    }
}

} // verus!
