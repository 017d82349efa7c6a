//! What a summary says of a run of tool calls, and what it shows of them.

use crate::claude::{ContentBlock, LogEntry, };
use crate::json::{json_field, json_str, opt_text};
use crate::text::{decimal, joined, present};
use crate::text_laws::{law_numerals_stand_for_their_numbers, number};
use crate::tui::viewer::activity::{
    activity_of, agent_text, capitalized, consistent, kind_of, law_activity_is_consistent, spans,
    summary_items, uppercase, Activity, Call, ToolKind,
};
use crate::tui::viewer::summary::{
    block_detail, calls_in, details_of, entry_details, flushes, group_details, groups_of,
    only_hands_back, plans_summary, shown_stamp, spaced_groups, summed_up, sums_up, with_summary,
    Detail, PendingToolSummary, RenderedSummary, SummaryPlan,
};
use crate::tui::viewer::types::{
    lines_of, linked, opt_key, spans_of, LineStyle, LineView, MessageRange, OutputKey,
    RenderOptions, RenderableEntry, Theme, ToolOutputId, ToolOutputKind,
};
use vstd::prelude::*;

verus! {

/// Whether a block is a call of the tool with a given name.
pub open spec fn calls_tool(block: ContentBlock, name: Seq<char>) -> bool {
    block is ToolUse && block->name@ == name
}

/// Whether a block sends an agent out.
pub open spec fn sends_agent(block: ContentBlock) -> bool {
    calls_tool(block, "Task"@) || calls_tool(block, "Agent"@)
}

/// Whether a block is a call that leads to the transcript of a subagent: one of the links is of its
/// tool and its call.
pub open spec fn leads_to_subagent(block: ContentBlock, options: RenderOptions) -> bool {
    &&& block is ToolUse
    &&& exists|i: int|
        0 <= i < options.subagent_links@.len() && (
        #[trigger] options.subagent_links@[i]).tool_name@ == block->name@
            && options.subagent_links@[i].tool_use_id@ == block->ToolUse_id@
}

/// Whether a block is a call of a tool that is counted under no name of its own.
pub open spec fn calls_other_tool(block: ContentBlock) -> bool {
    &&& block is ToolUse
    &&& !sends_agent(block)
    &&& !calls_tool(block, "Bash"@)
    &&& !calls_tool(block, "Read"@)
    &&& !calls_tool(block, "Grep"@)
    &&& !calls_tool(block, "Glob"@)
    &&& !calls_tool(block, "Edit"@)
    &&& !calls_tool(block, "Write"@)
    &&& !calls_tool(block, "WebFetch"@)
    &&& !calls_tool(block, "WebSearch"@)
}

/// How many blocks meet a condition.
pub open spec fn how_many(blocks: Seq<ContentBlock>, holds: spec_fn(ContentBlock) -> bool) -> nat
    decreases blocks.len(),
{
    if blocks.len() == 0 {
        0
    } else {
        how_many(blocks.drop_last(), holds) + if holds(blocks.last()) {
            1nat
        } else {
            0nat
        }
    }
}

/// What the agents of some blocks were sent to do, as far as their calls say so in a text.
pub open spec fn errands(blocks: Seq<ContentBlock>) -> Seq<Seq<char>>
    decreases blocks.len(),
{
    if blocks.len() == 0 {
        Seq::empty()
    } else {
        let before = errands(blocks.drop_last());
        let block = blocks.last();
        if sends_agent(block) {
            let said = json_field(block->input, "description"@);
            if said is Some && json_str(said->0) is Some {
                before.push(json_str(said->0)->0)
            } else {
                before
            }
        } else {
            before
        }
    }
}

proof fn lemma_names_differ()
    ensures
        kind_of("Bash"@) == ToolKind::Shell,
        kind_of("Read"@) == ToolKind::Read,
        kind_of("Grep"@) == ToolKind::Grep,
        kind_of("Glob"@) == ToolKind::Glob,
        kind_of("Edit"@) == ToolKind::Edit,
        kind_of("Write"@) == ToolKind::Write,
        kind_of("Task"@) == ToolKind::Agent,
        kind_of("Agent"@) == ToolKind::Agent,
        kind_of("WebFetch"@) == ToolKind::Fetch,
        kind_of("WebSearch"@) == ToolKind::WebSearch,
{
    reveal_strlit("Bash");
    reveal_strlit("Read");
    reveal_strlit("Grep");
    reveal_strlit("Glob");
    reveal_strlit("Edit");
    reveal_strlit("Write");
    reveal_strlit("Task");
    reveal_strlit("Agent");
    reveal_strlit("WebFetch");
    reveal_strlit("WebSearch");
    assert("Bash"@[0] == 'B');
    assert("Read"@[0] == 'R');
    assert("Grep"@[1] == 'r');
    assert("Glob"@[1] == 'l');
    assert("Edit"@[0] == 'E');
    assert("Write"@[0] == 'W');
    assert("Task"@[0] == 'T');
    assert("Agent"@[0] == 'A');
    assert("Grep"@[0] == 'G');
    assert("Glob"@[0] == 'G');
    assert("WebFetch"@[3] == 'F');
    assert("WebSearch"@[3] == 'S');
    assert("Write"@.len() == 5);
    assert("WebFetch"@.len() == 8);
    assert("WebSearch"@.len() == 9);
}

/// A summary counts each call once, under the name of its tool: shell commands, files that were read,
/// edited or written, patterns and file patterns that were searched for, agents and those of them
/// that lead to a transcript, pages that were fetched, searches of the web, and all others.
pub proof fn law_calls_are_counted_by_the_names_of_their_tools(
    blocks: Seq<ContentBlock>,
    options: RenderOptions,
)
    ensures
        ({
            let activity = activity_of(calls_in(blocks, options));
            &&& activity.tool_calls == how_many(blocks, |b: ContentBlock| b is ToolUse)
            &&& activity.shell_commands == how_many(blocks, |b: ContentBlock| calls_tool(b, "Bash"@))
            &&& activity.read_files == how_many(blocks, |b: ContentBlock| calls_tool(b, "Read"@))
            &&& activity.searched_patterns == how_many(
                blocks,
                |b: ContentBlock| calls_tool(b, "Grep"@),
            )
            &&& activity.searched_file_patterns == how_many(
                blocks,
                |b: ContentBlock| calls_tool(b, "Glob"@),
            )
            &&& activity.edited_files == how_many(blocks, |b: ContentBlock| calls_tool(b, "Edit"@))
            &&& activity.wrote_files == how_many(blocks, |b: ContentBlock| calls_tool(b, "Write"@))
            &&& activity.fetched_urls == how_many(
                blocks,
                |b: ContentBlock| calls_tool(b, "WebFetch"@),
            )
            &&& activity.web_searches == how_many(
                blocks,
                |b: ContentBlock| calls_tool(b, "WebSearch"@),
            )
            &&& activity.other_tools == how_many(blocks, |b: ContentBlock| calls_other_tool(b))
            &&& activity.agents == how_many(blocks, |b: ContentBlock| sends_agent(b))
            &&& activity.linked_agents == how_many(
                blocks,
                |b: ContentBlock| sends_agent(b) && leads_to_subagent(b, options),
            )
            &&& activity.agent_descriptions == errands(blocks)
        }),
    decreases blocks.len(),
{
    lemma_names_differ();
    if blocks.len() > 0 {
        let rest = blocks.drop_last();
        law_calls_are_counted_by_the_names_of_their_tools(rest, options);
        let calls = calls_in(blocks, options);
        if blocks.last() is ToolUse {
            assert(calls.drop_last() =~= calls_in(rest, options));
            let name = blocks.last()->name@;
            let id = blocks.last()->ToolUse_id@;
            assert(linked(options.subagent_links@, name, id) == leads_to_subagent(
                blocks.last(),
                options,
            ));
            lemma_kind_by_name(name);
        }
    } else {
        assert(calls_in(blocks, options) =~= Seq::<Call>::empty());
        assert(activity_of(calls_in(blocks, options)).agent_descriptions =~= errands(blocks));
    }
}

proof fn lemma_kind_by_name(name: Seq<char>)
    ensures
        kind_of(name) == ToolKind::Shell <==> name == "Bash"@,
        kind_of(name) == ToolKind::Read <==> name == "Read"@,
        kind_of(name) == ToolKind::Grep <==> name == "Grep"@,
        kind_of(name) == ToolKind::Glob <==> name == "Glob"@,
        kind_of(name) == ToolKind::Edit <==> name == "Edit"@,
        kind_of(name) == ToolKind::Write <==> name == "Write"@,
        kind_of(name) == ToolKind::Agent <==> name == "Task"@ || name == "Agent"@,
        kind_of(name) == ToolKind::Fetch <==> name == "WebFetch"@,
        kind_of(name) == ToolKind::WebSearch <==> name == "WebSearch"@,
{
    lemma_names_differ();
}

/// A summary leads to a subagent if and only if it is of a single call and that call does.
pub proof fn law_a_single_call_leads_to_its_subagent(
    blocks: Seq<ContentBlock>,
    options: RenderOptions,
    at: int,
)
    requires
        0 <= at < blocks.len(),
        blocks[at] is ToolUse,
    ensures
        ({
            let id = activity_of(calls_in(blocks, options)).direct_subagent_id;
            let single = how_many(blocks, |b: ContentBlock| b is ToolUse) == 1;
            &&& single && leads_to_subagent(blocks[at], options) ==> id == Some(
                blocks[at]->ToolUse_id@,
            )
            &&& !single || !leads_to_subagent(blocks[at], options) ==> id is None
        }),
    decreases blocks.len(),
{
    let rest = blocks.drop_last();
    let calls = calls_in(blocks, options);
    let tools = |b: ContentBlock| b is ToolUse;
    law_calls_are_counted_by_the_names_of_their_tools(blocks, options);
    law_calls_are_counted_by_the_names_of_their_tools(rest, options);
    if blocks.last() is ToolUse {
        assert(calls.drop_last() =~= calls_in(rest, options));
        let name = blocks.last()->name@;
        let id = blocks.last()->ToolUse_id@;
        assert(linked(options.subagent_links@, name, id) == leads_to_subagent(
            blocks.last(),
            options,
        ));
        if at < rest.len() {
            lemma_some(rest, at);
        }
    } else {
        assert(rest[at] == blocks[at]);
        law_a_single_call_leads_to_its_subagent(rest, options, at);
    }
}

proof fn lemma_some(blocks: Seq<ContentBlock>, at: int)
    requires
        0 <= at < blocks.len(),
        blocks[at] is ToolUse,
    ensures
        how_many(blocks, |b: ContentBlock| b is ToolUse) >= 1,
    decreases blocks.len(),
{
    if at < blocks.len() - 1 {
        assert(blocks.drop_last()[at] == blocks[at]);
        lemma_some(blocks.drop_last(), at);
    }
}

/// Whether a run has calls that are no agents.
pub open spec fn has_other_calls(activity: Activity) -> bool {
    ||| activity.searched_patterns > 0
    ||| activity.searched_file_patterns > 0
    ||| activity.read_files > 0
    ||| activity.shell_commands > 0
    ||| activity.edited_files > 0
    ||| activity.wrote_files > 0
    ||| activity.fetched_urls > 0
    ||| activity.web_searches > 0
    ||| activity.other_tools > 0
}

/// What is said of a number of things: nothing of none, one thing in the singular, several in the
/// plural.
pub open spec fn said(count: nat, verb: Seq<char>, one: Seq<char>, many: Seq<char>) -> Option<
    Seq<char>,
> {
    if count == 0 {
        None
    } else if count == 1 {
        Some(verb + "1"@ + one)
    } else {
        Some(verb + decimal(count) + many)
    }
}

/// What is said of the calls of a run that are no agents, kind by kind.
pub open spec fn said_of_calls(activity: Activity) -> Seq<Option<Seq<char>>> {
    seq![
        said(activity.searched_patterns, "Searched for "@, " pattern"@, " patterns"@),
        said(
            activity.searched_file_patterns,
            "Searched for "@,
            " file pattern"@,
            " file patterns"@,
        ),
        said(activity.read_files, "read "@, " file"@, " files"@),
        said(activity.shell_commands, "ran "@, " shell command"@, " shell commands"@),
        said(activity.edited_files, "edited "@, " file"@, " files"@),
        said(activity.wrote_files, "wrote "@, " file"@, " files"@),
        said(activity.fetched_urls, "fetched "@, " URL"@, " URLs"@),
        said(activity.web_searches, "searched "@, " web"@, " webs"@),
        said(activity.other_tools, "called "@, " tool"@, " tools"@),
    ]
}

proof fn lemma_said(
    count: nat,
    verb: Seq<char>,
    noun: Seq<char>,
    with_space: Seq<char>,
    one: Seq<char>,
    many: Seq<char>,
)
    requires
        with_space == verb + seq![' '],
        one == seq![' '] + noun,
        many == seq![' '] + noun + seq!['s'],
    ensures
        crate::tui::viewer::activity::summary_item(count, verb, noun) == said(
            count,
            with_space,
            one,
            many,
        ),
{
    reveal_strlit(" ");
    reveal_strlit("");
    reveal_strlit("s");
    reveal_strlit("1");
    assert(decimal(1) =~= seq!['1']);
    assert("1"@ =~= seq!['1']);
    if count > 0 {
        let item = crate::tui::viewer::activity::summary_item(count, verb, noun)->0;
        assert(item =~= said(count, with_space, one, many)->0);
    }
}

proof fn lemma_said_of_calls(activity: Activity)
    ensures
        summary_items(activity) == said_of_calls(activity),
{
    reveal_strlit("Searched for");
    reveal_strlit("Searched for ");
    reveal_strlit("pattern");
    reveal_strlit(" pattern");
    reveal_strlit(" patterns");
    assert("Searched for "@ =~= "Searched for"@ + seq![' ']);
    assert(" pattern"@ =~= seq![' '] + "pattern"@);
    assert(" patterns"@ =~= seq![' '] + "pattern"@ + seq!['s']);
    lemma_said(
        activity.searched_patterns,
        "Searched for"@,
        "pattern"@,
        "Searched for "@,
        " pattern"@,
        " patterns"@,
    );
    reveal_strlit("file pattern");
    reveal_strlit(" file pattern");
    reveal_strlit(" file patterns");
    assert(" file pattern"@ =~= seq![' '] + "file pattern"@);
    assert(" file patterns"@ =~= seq![' '] + "file pattern"@ + seq!['s']);
    lemma_said(
        activity.searched_file_patterns,
        "Searched for"@,
        "file pattern"@,
        "Searched for "@,
        " file pattern"@,
        " file patterns"@,
    );
    lemma_said_of_files(activity);
    lemma_said_of_others(activity);
    assert(summary_items(activity) =~= said_of_calls(activity));
}

proof fn lemma_said_of_files(activity: Activity)
    ensures
        forall|k: int|
            2 <= k < 6 ==> #[trigger] summary_items(activity)[k] == said_of_calls(activity)[k],
{
    reveal_strlit("file");
    reveal_strlit(" file");
    reveal_strlit(" files");
    assert(" file"@ =~= seq![' '] + "file"@);
    assert(" files"@ =~= seq![' '] + "file"@ + seq!['s']);
    reveal_strlit("read");
    reveal_strlit("read ");
    assert("read "@ =~= "read"@ + seq![' ']);
    lemma_said(activity.read_files, "read"@, "file"@, "read "@, " file"@, " files"@);
    reveal_strlit("edited");
    reveal_strlit("edited ");
    assert("edited "@ =~= "edited"@ + seq![' ']);
    lemma_said(activity.edited_files, "edited"@, "file"@, "edited "@, " file"@, " files"@);
    reveal_strlit("wrote");
    reveal_strlit("wrote ");
    assert("wrote "@ =~= "wrote"@ + seq![' ']);
    lemma_said(activity.wrote_files, "wrote"@, "file"@, "wrote "@, " file"@, " files"@);
    reveal_strlit("ran");
    reveal_strlit("ran ");
    reveal_strlit("shell command");
    reveal_strlit(" shell command");
    reveal_strlit(" shell commands");
    assert("ran "@ =~= "ran"@ + seq![' ']);
    assert(" shell command"@ =~= seq![' '] + "shell command"@);
    assert(" shell commands"@ =~= seq![' '] + "shell command"@ + seq!['s']);
    lemma_said(
        activity.shell_commands,
        "ran"@,
        "shell command"@,
        "ran "@,
        " shell command"@,
        " shell commands"@,
    );
}

proof fn lemma_said_of_others(activity: Activity)
    ensures
        forall|k: int|
            6 <= k < 9 ==> #[trigger] summary_items(activity)[k] == said_of_calls(activity)[k],
{
    reveal_strlit("fetched");
    reveal_strlit("fetched ");
    reveal_strlit("URL");
    reveal_strlit(" URL");
    reveal_strlit(" URLs");
    assert("fetched "@ =~= "fetched"@ + seq![' ']);
    assert(" URL"@ =~= seq![' '] + "URL"@);
    assert(" URLs"@ =~= seq![' '] + "URL"@ + seq!['s']);
    lemma_said(activity.fetched_urls, "fetched"@, "URL"@, "fetched "@, " URL"@, " URLs"@);
    reveal_strlit("searched");
    reveal_strlit("searched ");
    reveal_strlit("web");
    reveal_strlit(" web");
    reveal_strlit(" webs");
    assert("searched "@ =~= "searched"@ + seq![' ']);
    assert(" web"@ =~= seq![' '] + "web"@);
    assert(" webs"@ =~= seq![' '] + "web"@ + seq!['s']);
    lemma_said(activity.web_searches, "searched"@, "web"@, "searched "@, " web"@, " webs"@);
    reveal_strlit("called");
    reveal_strlit("called ");
    reveal_strlit("tool");
    reveal_strlit(" tool");
    reveal_strlit(" tools");
    assert("called "@ =~= "called"@ + seq![' ']);
    assert(" tool"@ =~= seq![' '] + "tool"@);
    assert(" tools"@ =~= seq![' '] + "tool"@ + seq!['s']);
    lemma_said(activity.other_tools, "called"@, "tool"@, "called "@, " tool"@, " tools"@);
}

proof fn lemma_present_none(items: Seq<Option<Seq<char>>>)
    ensures
        present(items).len() == 0 <==> forall|i: int|
            0 <= i < items.len() ==> #[trigger] items[i] is None,
    decreases items.len(),
{
    if items.len() > 0 {
        lemma_present_none(items.drop_last());
        assert(items[items.len() - 1] == items.last());
        if forall|i: int| 0 <= i < items.drop_last().len() ==> #[trigger] items.drop_last()[i] is None {
            assert forall|i: int| 0 <= i < items.len() - 1 implies #[trigger] items[i] is None by {
                assert(items.drop_last()[i] is None);
            }
        }
        if forall|i: int| 0 <= i < items.len() ==> #[trigger] items[i] is None {
            assert forall|i: int|
                0 <= i < items.drop_last().len() implies #[trigger] items.drop_last()[i] is None by {
                assert(items[i] is None);
            }
        }
    }
}

proof fn lemma_has_other_calls(activity: Activity)
    ensures
        present(said_of_calls(activity)).len() > 0 <==> has_other_calls(activity),
{
    let items = said_of_calls(activity);
    lemma_present_none(items);
    assert(items[0] is None <==> activity.searched_patterns == 0);
    assert(items[1] is None <==> activity.searched_file_patterns == 0);
    assert(items[2] is None <==> activity.read_files == 0);
    assert(items[3] is None <==> activity.shell_commands == 0);
    assert(items[4] is None <==> activity.edited_files == 0);
    assert(items[5] is None <==> activity.wrote_files == 0);
    assert(items[6] is None <==> activity.fetched_urls == 0);
    assert(items[7] is None <==> activity.web_searches == 0);
    assert(items[8] is None <==> activity.other_tools == 0);
}

/// To put the first character of a text in upper case leaves the others as they are, and the empty
/// text empty.
pub proof fn law_capitals_change_the_first_character_alone(text: Seq<char>)
    ensures
        text.len() == 0 ==> capitalized(text) == text,
        text.len() > 0 ==> capitalized(text) == uppercase(text[0]) + text.subrange(
            1,
            text.len() as int,
        ),
{
    if text.len() > 0 {
        assert(text.skip(1) =~= text.subrange(1, text.len() as int));
    }
}

/// Whether a text is another one with its first letter in upper case.
pub open spec fn opens_with_capital(text: Seq<char>, plain: Seq<char>) -> bool {
    &&& text.len() == plain.len()
    &&& plain.len() > 0 ==> text[0] == if 'a' <= plain[0] <= 'z' {
        (plain[0] as u32 - 32) as char
    } else {
        plain[0]
    }
    &&& forall|i: int| 1 <= i < plain.len() ==> #[trigger] text[i] == plain[i]
}

/// A summary says first, in dim text and with a capital, how many calls there were of each kind that
/// is no agent; and behind a comma, or alone, what is said of the agents, in the accent colour. It
/// says nothing of what there was none of.
pub proof fn law_summaries_say_what_was_done(activity: Activity, theme: Theme)
    ensures
        ({
            let list = spans(activity, theme);
            let calls = joined(present(said_of_calls(activity)), seq![',', ' ']);
            let others = has_other_calls(activity);
            let agents = activity.agents > 0;
            &&& list.len() == (if others {
                1int
            } else {
                0
            }) + (if agents {
                1int
            } else {
                0
            })
            &&& others ==> list[0].1 == (LineStyle {
                fg: Some(theme.tool_text),
                bold: false,
                dimmed: true,
            })
            &&& others && !agents ==> opens_with_capital(list[0].0, calls)
            &&& others && agents ==> opens_with_capital(list[0].0, calls + seq![',', ' '])
            &&& agents ==> list.last().1 == (LineStyle {
                fg: Some(theme.accent),
                bold: false,
                dimmed: false,
            })
        }),
{
    reveal_strlit(", ");
    assert(", "@ =~= seq![',', ' ']);
    lemma_said_of_calls(activity);
    lemma_has_other_calls(activity);
    let items = present(said_of_calls(activity));
    let calls = joined(items, ", "@);
    if has_other_calls(activity) {
        lemma_calls_text(activity);
        let list = spans(activity, theme);
        if activity.agents > 0 {
            assert(opens_with_capital(list[0].0, calls + seq![',', ' ']));
        } else {
            assert(opens_with_capital(list[0].0, calls));
        }
    }
}

proof fn lemma_calls_text(activity: Activity)
    requires
        has_other_calls(activity),
    ensures
        joined(present(said_of_calls(activity)), ", "@).len() > 0,
{
    lemma_has_other_calls(activity);
    let items = said_of_calls(activity);
    reveal_strlit("Searched for ");
    reveal_strlit("read ");
    reveal_strlit("ran ");
    reveal_strlit("edited ");
    reveal_strlit("wrote ");
    reveal_strlit("fetched ");
    reveal_strlit("searched ");
    reveal_strlit("called ");
    lemma_present_items(items);
    lemma_joined_len(present(items), ", "@);
}

proof fn lemma_present_items(items: Seq<Option<Seq<char>>>)
    requires
        forall|i: int|
            0 <= i < items.len() && #[trigger] items[i] is Some ==> items[i]->0.len() > 0,
    ensures
        forall|k: int| 0 <= k < present(items).len() ==> (#[trigger] present(items)[k]).len() > 0,
    decreases items.len(),
{
    if items.len() > 0 {
        let rest = items.drop_last();
        assert forall|i: int| 0 <= i < rest.len() && #[trigger] rest[i] is Some implies rest[i]->0.len()
            > 0 by {
            assert(rest[i] == items[i]);
        }
        lemma_present_items(rest);
        let last = items[items.len() - 1];
        let before = present(rest);
        let now = present(items);
        assert(now == match last {
            Some(text) => before.push(text),
            None => before,
        });
        assert forall|k: int| 0 <= k < now.len() implies (#[trigger] now[k]).len() > 0 by {
            if k < before.len() {
                assert(now[k] == before[k]);
            } else {
                assert(last is Some);
            }
        }
    }
}

proof fn lemma_joined_len(parts: Seq<Seq<char>>, sep: Seq<char>)
    requires
        parts.len() > 0,
        parts[0].len() > 0,
    ensures
        joined(parts, sep).len() > 0,
    decreases parts.len(),
{
    if parts.len() > 1 {
        lemma_joined_len(parts.drop_last(), sep);
    }
}

/// The text that a summary says of the agents.
pub open spec fn agent_span(activity: Activity, theme: Theme) -> Seq<char> {
    spans(activity, theme).last().0
}

/// Of several agents, of which none or all lead to a transcript, a summary says how many were
/// dispatched, with a capital where that opens the line.
pub proof fn law_summaries_name_the_number_of_agents(activity: Activity, theme: Theme)
    requires
        consistent(activity),
        activity.agents >= 2,
        activity.linked_agents == 0 || activity.linked_agents == activity.agents,
    ensures
        agent_span(activity, theme) == (if has_other_calls(activity) {
            "dispatched "@
        } else {
            "Dispatched "@
        }) + decimal(activity.agents) + " agents"@,
{
    lemma_said_of_calls(activity);
    lemma_has_other_calls(activity);
    reveal_strlit("dispatched ");
    reveal_strlit("Dispatched ");
    reveal_strlit(" agent");
    reveal_strlit(" agents");
    reveal_strlit("s");
    let text = agent_text(activity)->0;
    assert(text =~= "dispatched "@ + decimal(activity.agents) + " agents"@);
    assert(seq!['D'] + text.skip(1) =~= "Dispatched "@ + decimal(activity.agents) + " agents"@);
    assert(('d' as u32 - 32) as char == 'D');
}

/// Runs with different numbers of agents, of which none or all lead to a transcript, are told apart
/// by what is said of the agents.
pub proof fn law_summaries_tell_numbers_of_agents_apart(a: Activity, b: Activity, theme: Theme)
    requires
        consistent(a),
        consistent(b),
        a.agents >= 2,
        b.agents >= 2,
        a.linked_agents == 0 || a.linked_agents == a.agents,
        b.linked_agents == 0 || b.linked_agents == b.agents,
        a.agents != b.agents,
    ensures
        agent_span(a, theme) != agent_span(b, theme),
{
    law_summaries_name_the_number_of_agents(a, theme);
    law_summaries_name_the_number_of_agents(b, theme);
    law_numerals_stand_for_their_numbers(a.agents);
    law_numerals_stand_for_their_numbers(b.agents);
    reveal_strlit("dispatched ");
    reveal_strlit("Dispatched ");
    reveal_strlit(" agents");
    let x = agent_span(a, theme);
    let y = agent_span(b, theme);
    if x == y {
        assert(x.subrange(11, x.len() - 7) =~= decimal(a.agents));
        assert(y.subrange(11, y.len() - 7) =~= decimal(b.agents));
        assert(number(decimal(a.agents)) == number(decimal(b.agents)));
    }
}

/// Of a run of calls in which several agents were sent out, none or all of them to a transcript, the
/// summary names how many there were, whatever other calls stand among them.
pub proof fn law_runs_are_summed_up_with_the_number_of_their_agents(
    blocks: Seq<ContentBlock>,
    options: RenderOptions,
    theme: Theme,
)
    requires
        how_many(blocks, |b: ContentBlock| sends_agent(b)) >= 2,
        how_many(blocks, |b: ContentBlock| sends_agent(b) && leads_to_subagent(b, options)) == 0
            || how_many(
            blocks,
            |b: ContentBlock| sends_agent(b) && leads_to_subagent(b, options),
        ) == how_many(blocks, |b: ContentBlock| sends_agent(b)),
    ensures
        ({
            let agents = how_many(blocks, |b: ContentBlock| sends_agent(b));
            let all = how_many(blocks, |b: ContentBlock| b is ToolUse);
            spans(activity_of(calls_in(blocks, options)), theme).last().0 == (if all > agents {
                "dispatched "@
            } else {
                "Dispatched "@
            }) + decimal(agents) + " agents"@
        }),
{
    let activity = activity_of(calls_in(blocks, options));
    law_calls_are_counted_by_the_names_of_their_tools(blocks, options);
    law_activity_is_consistent(calls_in(blocks, options));
    law_summaries_name_the_number_of_agents(activity, theme);
}

/// Of agents of which some lead to a transcript and some do not, a summary says how many do and how
/// many were dispatched.
pub proof fn law_summaries_name_the_linked_agents(activity: Activity, theme: Theme)
    requires
        consistent(activity),
        0 < activity.linked_agents < activity.agents,
    ensures
        agent_span(activity, theme) == decimal(activity.linked_agents) + (if activity.linked_agents
            == 1 {
            " linked agent ("@
        } else {
            " linked agents ("@
        }) + decimal(activity.agents) + " dispatched)"@,
{
    lemma_said_of_calls(activity);
    lemma_has_other_calls(activity);
    reveal_strlit(" linked agent");
    reveal_strlit(" linked agent (");
    reveal_strlit(" linked agents (");
    reveal_strlit(" (");
    reveal_strlit("s");
    reveal_strlit("");
    law_numerals_stand_for_their_numbers(activity.linked_agents);
    let text = agent_text(activity)->0;
    let wanted = decimal(activity.linked_agents) + (if activity.linked_agents == 1 {
        " linked agent ("@
    } else {
        " linked agents ("@
    }) + decimal(activity.agents) + " dispatched)"@;
    assert(text =~= wanted);
    let digits = decimal(activity.linked_agents);
    assert(text[0] == digits[0]);
    assert(seq![text[0]] + text.skip(1) =~= text);
}

/// A single agent is named by what it was sent to do, where its call says so: as the way to its
/// transcript where it is the only call and leads to one, and as dispatched where it leads to none.
pub proof fn law_a_single_agent_is_named_by_its_errand(activity: Activity, theme: Theme)
    requires
        consistent(activity),
        activity.agents == 1,
    ensures
        ({
            let text = agent_span(activity, theme);
            let errand = activity.agent_descriptions;
            let alone = activity.direct_subagent_id is Some;
            let opens = !has_other_calls(activity);
            let dispatched = if opens {
                "Dispatched "@
            } else {
                "dispatched "@
            };
            &&& alone && errand.len() == 1 ==> text == "[→ subagent] "@ + errand[0]
            &&& alone && errand.len() == 0 ==> text == "[→ subagent] dispatched agent"@
            &&& !alone && activity.linked_agents == 0 && errand.len() == 1 ==> text == dispatched
                + "agent: "@ + errand[0]
            &&& !alone && activity.linked_agents == 0 && errand.len() == 0 ==> text == dispatched
                + "1 agent"@
            &&& !alone && activity.linked_agents == 1 ==> text == dispatched + "1 agent"@
        }),
{
    lemma_said_of_calls(activity);
    lemma_has_other_calls(activity);
    reveal_strlit("[→ subagent] ");
    reveal_strlit("[→ subagent] dispatched agent");
    reveal_strlit("dispatched ");
    reveal_strlit("Dispatched ");
    reveal_strlit("dispatched agent: ");
    reveal_strlit("agent: ");
    reveal_strlit(" agent");
    reveal_strlit("1 agent");
    reveal_strlit("");
    assert(decimal(1) =~= seq!['1']);
    assert(('d' as u32 - 32) as char == 'D');
    let text = agent_text(activity)->0;
    let alone = activity.direct_subagent_id is Some;
    let errand = activity.agent_descriptions;
    assert(seq![text[0]] + text.skip(1) =~= text);
    if !alone {
        if activity.linked_agents == 0 && errand.len() == 1 {
            assert(text =~= "dispatched "@ + "agent: "@ + errand[0]);
            assert(seq!['D'] + text.skip(1) =~= "Dispatched "@ + "agent: "@ + errand[0]);
        } else {
            assert(text =~= "dispatched "@ + "1 agent"@);
            assert(seq!['D'] + text.skip(1) =~= "Dispatched "@ + "1 agent"@);
        }
    }
}

/// An entry is summed up if it is the assistant's and holds calls and nothing else. Entries of a
/// subagent are left out unless thoughts are shown.
pub proof fn law_entries_that_only_call_tools_are_summed_up(
    entry: LogEntry,
    options: RenderOptions,
)
    ensures
        summed_up(entry, options) <==> {
            &&& entry is Assistant
            &&& entry->Assistant_parent_tool_use_id is None || options.show_thinking
            &&& entry->Assistant_message.content@.len() > 0
            &&& forall|i: int|
                0 <= i < entry->Assistant_message.content@.len() ==> (
                #[trigger] entry->Assistant_message.content@[i]) is ToolUse
        },
{
}

/// The summary of an entry is of its own calls, under its own parent and time.
pub proof fn law_entries_are_summed_up_under_their_own_parent_and_time(
    entry: LogEntry,
    options: RenderOptions,
    parent: Option<Seq<char>>,
    time: Option<Seq<char>>,
    activity: Activity,
)
    requires
        sums_up(entry, options, parent, time, activity),
    ensures
        entry is Assistant,
        parent == opt_text(entry->Assistant_parent_tool_use_id),
        time == opt_text(entry->Assistant_timestamp),
        activity == activity_of(calls_in(entry->Assistant_message.content@, options)),
{
}

/// An entry only hands results back if it is the user's and holds results and nothing else. Entries
/// of a subagent are left out unless thoughts are shown.
pub proof fn law_entries_that_only_hand_results_back(entry: LogEntry, options: RenderOptions)
    ensures
        only_hands_back(entry, options) <==> {
            &&& entry is User
            &&& entry->User_parent_tool_use_id is None || options.show_thinking
            &&& entry->User_message.content is Blocks
            &&& entry->User_message.content->Blocks_0@.len() > 0
            &&& forall|i: int|
                0 <= i < entry->User_message.content->Blocks_0@.len() ==> (
                #[trigger] entry->User_message.content->Blocks_0@[i]) is ToolResult
        },
{
}

/// The parent of an entry that is a message.
pub open spec fn parent_of(entry: LogEntry) -> Option<Seq<char>> {
    if entry is Assistant {
        opt_text(entry->Assistant_parent_tool_use_id)
    } else {
        opt_text(entry->User_parent_tool_use_id)
    }
}

/// An expanded summary shows what its entries hold, entry by entry. An entry of another parent than
/// the summary's, or of another kind than a message, is passed over.
pub proof fn law_expanded_summaries_show_the_entries_of_their_parent(
    entries: Seq<RenderableEntry>,
    first: int,
    upto: int,
    parent: Option<Seq<char>>,
    options: RenderOptions,
)
    requires
        0 <= first <= upto < entries.len(),
    ensures
        group_details(entries, first, first, parent, options) == Seq::<Detail>::empty(),
        ({
            let entry = entries[upto];
            let before = group_details(entries, first, upto, parent, options);
            let now = group_details(entries, first, upto + 1, parent, options);
            let own = (entry.entry is Assistant || entry.entry is User) && parent_of(entry.entry)
                == parent;
            &&& !own ==> now == before
            &&& own && entry.entry is Assistant ==> now == before + entry_details(
                entry,
                upto,
                entry.entry->Assistant_message.content@.len() as int,
                parent,
                options,
            )
            &&& own && entry.entry is User ==> now == before + entry_details(
                entry,
                upto,
                if entry.entry->User_message.content is Blocks {
                    entry.entry->User_message.content->Blocks_0@.len() as int
                } else {
                    0
                },
                parent,
                options,
            )
        }),
{
}

/// An expanded summary shows each call of the assistant's entries and each result of the user's, in
/// order, under its place, its parent and the identifier of the call. It is expanded where that is
/// asked for, and leads to a subagent where it is a call that does.
pub proof fn law_expanded_summaries_show_calls_and_results(
    entry: RenderableEntry,
    parsed_idx: int,
    at: int,
    parent: Option<Seq<char>>,
    options: RenderOptions,
)
    requires
        0 <= at <= usize::MAX,
        entry.entry is Assistant || (entry.entry is User
            && entry.entry->User_message.content is Blocks),
    ensures
        entry_details(entry, parsed_idx, 0, parent, options) == Seq::<Detail>::empty(),
        ({
            let block = if entry.entry is Assistant {
                entry.entry->Assistant_message.content@[at]
            } else {
                entry.entry->User_message.content->Blocks_0@[at]
            };
            let before = entry_details(entry, parsed_idx, at, parent, options);
            let now = entry_details(entry, parsed_idx, at + 1, parent, options);
            let call = entry.entry is Assistant && block is ToolUse;
            let result = entry.entry is User && block is ToolResult;
            &&& !call && !result ==> now == before
            &&& call || result ==> {
                &&& now.len() == before.len() + 1
                &&& now.drop_last() == before
                &&& now.last().parsed_idx == parsed_idx
                &&& now.last().block_idx == at
                &&& now.last().key.entry_index == entry.entry_index
                &&& now.last().key.parent_id == parent
                &&& now.last().key.block_index == at
                &&& now.last().key.kind == (if call {
                    ToolOutputKind::ToolCall
                } else {
                    ToolOutputKind::ToolResult
                })
                &&& now.last().key.tool_use_id == Some(
                    if call {
                        block->ToolUse_id@
                    } else {
                        block->tool_use_id@
                    },
                )
                &&& now.last().expanded <==> exists|i: int|
                    0 <= i < options.expanded_tool_outputs@.len() && (
                    #[trigger] options.expanded_tool_outputs@[i])@ == now.last().key
                &&& now.last().has_subagent <==> call && leads_to_subagent(block, options)
            }
        }),
{
    let before = entry_details(entry, parsed_idx, at, parent, options);
    let now = entry_details(entry, parsed_idx, at + 1, parent, options);
    if block_detail(entry, parsed_idx, at, parent, options) is Some {
        assert(now.drop_last() =~= before);
        law_outputs_are_expanded_where_they_are_listed(options, now.last().key);
    }
}

/// A piece of tool output is expanded if and only if it is among those that are listed as such.
pub proof fn law_outputs_are_expanded_where_they_are_listed(options: RenderOptions, key: OutputKey)
    ensures
        options.expands(key) <==> exists|i: int|
            0 <= i < options.expanded_tool_outputs@.len() && (
            #[trigger] options.expanded_tool_outputs@[i])@ == key,
{
    let list = options.expanded_tool_outputs@;
    let keys = crate::tui::viewer::types::keys_of(list);
    if keys.contains(key) {
        let i = choose|i: int| 0 <= i < keys.len() && keys[i] == key;
        assert(list[i]@ == key);
    }
    if exists|i: int| 0 <= i < list.len() && (#[trigger] list[i])@ == key {
        let i = choose|i: int| 0 <= i < list.len() && (#[trigger] list[i])@ == key;
        assert(keys[i] == key);
    }
}

/// Two pieces of tool output are the same if they are of the same place, parent, kind and call.
pub proof fn law_outputs_are_told_by_place_parent_kind_and_call(a: ToolOutputId, b: ToolOutputId)
    ensures
        a@ == b@ <==> {
            &&& a.entry_index == b.entry_index
            &&& a.block_index == b.block_index
            &&& a.kind == b.kind
            &&& opt_text(a.parent_id) == opt_text(b.parent_id)
            &&& opt_text(a.tool_use_id) == opt_text(b.tool_use_id)
        },
{
}

/// A time is shown where times are asked for, and then as it is.
pub proof fn law_times_are_shown_where_asked_for(stamp: Option<Seq<char>>, options: RenderOptions)
    ensures
        options.show_timing ==> shown_stamp(stamp, options) == stamp,
        !options.show_timing ==> shown_stamp(stamp, options) is None,
{
}

/// A summary that is expanded is shown call by call, and one that is not in a row that leads back to
/// it. The row says what the summary says, is dim where the calls are a subagent's, and has a time
/// where times are shown. Without calls there is no row.
pub proof fn law_summaries_are_shown_in_full_or_in_a_row(
    pending: PendingToolSummary,
    entries: Seq<RenderableEntry>,
    options: RenderOptions,
    theme: Theme,
    label: Seq<char>,
    stamp: Option<Seq<char>>,
    plan: SummaryPlan,
)
    requires
        plans_summary(pending, entries, options, theme, label, stamp, plan),
    ensures
        plan is Details <==> exists|i: int|
            0 <= i < options.expanded_tool_outputs@.len() && (
            #[trigger] options.expanded_tool_outputs@[i])@ == pending.id@,
        plan is Details ==> {
            &&& plan->look.label@ == label
            &&& plan->look.label_color == theme.accent_dim
            &&& plan->look.dimmed
            &&& plan->look.truncated
            &&& plan->look.pad_timing == options.show_timing
            &&& plan->details@.len() == group_details(
                entries,
                pending.first_parsed_idx as int,
                pending.last_parsed_idx + 1,
                opt_text(pending.parent_id),
                options,
            ).len()
        },
        plan is Row ==> (plan->Row_0 is None <==> pending.summary@.tool_calls == 0),
        plan is Row && plan->Row_0 is Some ==> {
            let row = plan->Row_0->0;
            &&& row.label@ == label
            &&& row.label_color == theme.accent_dim
            &&& row.dimmed == pending.parent_id is Some
            &&& opt_text(row.stamp) == if options.show_timing {
                stamp
            } else {
                None
            }
            &&& spans_of(row.content@) == spans(pending.summary@, theme)
            &&& row.clickable
            &&& row.tool_output_id is Some
            &&& row.tool_output_id->0@ == pending.id@
        },
{
    law_outputs_are_expanded_where_they_are_listed(options, pending.id@);
    if plan is Row && plan->Row_0 is Some {
        let row = plan->Row_0->0;
        assert(row@.content == spans_of(row.content@));
        assert(opt_key(row.tool_output_id) == Some(pending.id@));
    }
    if plan is Details {
        assert(details_of(plan->details@).len() == plan->details@.len());
    }
}

/// A flush of a summary that takes up lines makes them one message, from its first entry to its last
/// one and from the first of its lines to the last, and puts one empty line behind them that is of
/// no message. A flush of anything else makes no message. What was there stays in front.
pub proof fn law_flushed_summaries_become_one_message(
    lines: Seq<LineView>,
    messages: Seq<MessageRange>,
    pending: Option<PendingToolSummary>,
    rendered: RenderedSummary,
    entries: Seq<RenderableEntry>,
    lines_after: Seq<LineView>,
    messages_after: Seq<MessageRange>,
)
    requires
        flushes(lines, messages, pending, rendered, entries, lines_after, messages_after),
        lines_after.len() <= usize::MAX,
    ensures
        pending is None ==> lines_after == lines && messages_after == messages,
        pending is Some ==> {
            let shown = with_summary(lines, rendered, pending->0);
            &&& shown.len() == lines.len() ==> messages_after == messages && lines_after == shown
            &&& shown.len() > lines.len() ==> {
                &&& messages_after.len() == messages.len() + 1
                &&& messages_after.drop_last() == messages
                &&& messages_after.last().entry_index == pending->0.first_entry_index
                &&& messages_after.last().last_entry_index
                    == entries[pending->0.last_parsed_idx as int].entry_index
                &&& messages_after.last().start_line == lines.len()
                &&& messages_after.last().end_line == shown.len()
                &&& lines_after.len() == shown.len() + 1
                &&& lines_after.drop_last() == shown
                &&& lines_after.last().spans.len() == 0
                &&& lines_after.last().tool_output_id is None
                &&& lines_after.last().subagent_tool_use_id is None
                &&& !lines_after.last().clickable
            }
        },
{
    if pending is Some {
        let shown = with_summary(lines, rendered, pending->0);
        if shown.len() > lines.len() {
            assert(messages_after.drop_last() =~= messages);
            assert(lines_after.drop_last() =~= shown);
        }
    }
}

/// Groups of lines keep their order, with one empty line between each two that leads nowhere.
pub proof fn law_groups_are_parted_by_empty_lines(groups: Seq<Seq<LineView>>, group: Seq<LineView>)
    ensures
        spaced_groups(Seq::empty()) == Seq::<LineView>::empty(),
        spaced_groups(seq![group]) == group,
        groups.len() > 0 ==> spaced_groups(groups.push(group)) == spaced_groups(groups) + seq![
            LineView {
                spans: Seq::<(Seq<char>, LineStyle)>::empty(),
                tool_output_id: None,
                clickable: false,
                subagent_tool_use_id: None,
            },
        ] + group,
{
    if groups.len() > 0 {
        assert(groups.push(group).drop_last() =~= groups);
        assert(spaced_groups(groups.push(group)) =~= spaced_groups(groups) + seq![
            LineView {
                spans: Seq::<(Seq<char>, LineStyle)>::empty(),
                tool_output_id: None,
                clickable: false,
                subagent_tool_use_id: None,
            },
        ] + group);
    }
}

/// The lines of an expanded summary stand behind those that were there. The first of them leads back
/// to the summary, unless it leads somewhere already; nothing else of them changes.
pub proof fn law_expanded_summaries_lead_back_to_themselves(
    lines: Seq<LineView>,
    rendered: RenderedSummary,
    pending: PendingToolSummary,
    i: int,
)
    requires
        rendered is Details,
    ensures
        ({
            let body = spaced_groups(groups_of(rendered->Details_0@));
            let after = with_summary(lines, rendered, pending);
            &&& after.len() == lines.len() + body.len()
            &&& 0 <= i < lines.len() ==> after[i] == lines[i]
            &&& 0 < i < body.len() ==> after[lines.len() + i] == body[i]
            &&& body.len() > 0 && body[0].clickable ==> after[lines.len() as int] == body[0]
            &&& body.len() > 0 && !body[0].clickable ==> after[lines.len() as int] == (LineView {
                spans: body[0].spans,
                tool_output_id: Some(pending.id@),
                clickable: true,
                subagent_tool_use_id: body[0].subagent_tool_use_id,
            })
        }),
{
}

/// The lines of a row stand behind those that were there, and the last line then leads to the
/// subagent of the summary, where there is one; nothing else of them changes.
pub proof fn law_rows_lead_to_their_subagent(
    lines: Seq<LineView>,
    rendered: RenderedSummary,
    pending: PendingToolSummary,
    i: int,
)
    requires
        rendered is Row,
    ensures
        ({
            let row = if rendered->Row_0 is Some {
                lines_of(rendered->Row_0->0@)
            } else {
                Seq::<LineView>::empty()
            };
            let after = with_summary(lines, rendered, pending);
            let id = pending.summary@.direct_subagent_id;
            let last = lines.len() + row.len() - 1;
            let all = lines + row;
            &&& after.len() == lines.len() + row.len()
            &&& 0 <= i < last ==> after[i] == all[i]
            &&& rendered->Row_0 is None || id is None ==> after == all
            &&& rendered->Row_0 is Some && id is Some && last >= 0 ==> after[last] == (LineView {
                spans: all[last].spans,
                tool_output_id: all[last].tool_output_id,
                clickable: all[last].clickable,
                subagent_tool_use_id: id,
            })
        }),
{
    let after = with_summary(lines, rendered, pending);
    if rendered->Row_0 is None {
        assert(lines + Seq::<LineView>::empty() =~= lines);
    }
}

} // verus!
