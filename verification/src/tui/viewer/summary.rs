//! Tool calls summed up in the viewer: which entries count, what a summary shows, and what it shows
//! when it is expanded.

use crate::claude::{ContentBlock, LogEntry, UserContent};
use crate::json::opt_text;
use crate::tui::viewer::activity::{
    activity_of, call_of, consistent, law_activity_is_consistent,
    law_merging_summaries_sums_up_both_runs, merged, spans, summary_items, Activity, Call,
    ToolActivitySummary,
};
use crate::tui::viewer::types::{
    copy_opt_text, empty_line, lines_of, linked, opt_key, same_opt_text, spans_of, LineStyle,
    LineView, MessageRange, OutputKey, RenderOptions, RenderableEntry, RenderedLine, Theme,
    ToolOutputId, ToolOutputKind,
};
use vstd::prelude::*;

verus! {

/// A summary that further tool calls can still join.
#[derive(Debug)]
pub struct PendingToolSummary {
    pub id: ToolOutputId,
    /// The place in the file of the first entry summed up.
    pub first_entry_index: usize,
    /// The first of the parsed entries summed up.
    pub first_parsed_idx: usize,
    /// The last of the parsed entries summed up.
    pub last_parsed_idx: usize,
    /// The tool call that the entries belong to, where they are a subagent's.
    pub parent_id: Option<String>,
    pub timestamp: Option<String>,
    pub summary: ToolActivitySummary,
}

/// The tool calls among a list of blocks.
pub open spec fn calls_in(blocks: Seq<ContentBlock>, options: RenderOptions) -> Seq<Call>
    decreases blocks.len(),
{
    if blocks.len() == 0 {
        seq![]
    } else {
        let before = calls_in(blocks.drop_last(), options);
        match blocks.last() {
            ContentBlock::ToolUse { id, name, input } => before.push(
                call_of(
                    name@,
                    id@,
                    Some(&input),
                    linked(options.subagent_links@, name@, id@),
                ),
            ),
            _ => before,
        }
    }
}

/// Sums up the tool calls among a list of blocks.
pub fn summarize_tool_calls(blocks: &[ContentBlock], options: &RenderOptions) -> (summary:
    ToolActivitySummary)
    ensures
        summary@ == activity_of(calls_in(blocks@, *options)),
        consistent(summary@),
{
    let mut summary = ToolActivitySummary::default();
    let mut i: usize = 0;
    assert(calls_in(blocks@.take(0), *options) =~= Seq::<Call>::empty());
    while i < blocks.len()
        invariant
            i <= blocks@.len(),
            summary@ == activity_of(calls_in(blocks@.take(i as int), *options)),
            consistent(summary@),
            summary@.tool_calls <= i,
        decreases blocks@.len() - i,
    {
        assert(blocks@.take(i + 1).drop_last() =~= blocks@.take(i as int));
        let ghost before = calls_in(blocks@.take(i as int), *options);
        if let ContentBlock::ToolUse { id, name, input } = &blocks[i] {
            let linked_subagent = options.has_subagent_link(name.as_str(), id.as_str());
            let ghost call = call_of(name@, id@, Some(input), linked_subagent);
            summary.add_call(name.as_str(), id.as_str(), Some(input), linked_subagent);
            assert(before.push(call).drop_last() =~= before);
        }
        i = i + 1;
    }
    assert(blocks@.take(blocks@.len() as int) =~= blocks@);
    summary
}

/// Whether a list of blocks holds nothing but tool calls.
pub open spec fn only_tool_calls(blocks: Seq<ContentBlock>) -> bool {
    forall|i: int| 0 <= i < blocks.len() ==> (#[trigger] blocks[i]) is ToolUse
}

/// Whether a list of blocks holds nothing but tool results.
pub open spec fn only_tool_results(blocks: Seq<ContentBlock>) -> bool {
    forall|i: int| 0 <= i < blocks.len() ==> (#[trigger] blocks[i]) is ToolResult
}

/// Whether a list of blocks holds nothing but tool calls.
pub fn assistant_blocks_are_tool_only(blocks: &[ContentBlock]) -> (r: bool)
    ensures
        r == only_tool_calls(blocks@),
{
    let mut i: usize = 0;
    while i < blocks.len()
        invariant
            i <= blocks@.len(),
            forall|j: int| 0 <= j < i ==> (#[trigger] blocks@[j]) is ToolUse,
        decreases blocks@.len() - i,
    {
        match &blocks[i] {
            ContentBlock::ToolUse { .. } => {},
            _ => {
                return false;
            },
        }
        i = i + 1;
    }
    true
}

proof fn lemma_only_calls(blocks: Seq<ContentBlock>, options: RenderOptions)
    requires
        only_tool_calls(blocks),
    ensures
        calls_in(blocks, options).len() == blocks.len(),
    decreases blocks.len(),
{
    if blocks.len() > 0 {
        assert(blocks[blocks.len() - 1] is ToolUse);
        lemma_only_calls(blocks.drop_last(), options);
    }
}

/// Whether an entry of the assistant is summed up: one that is shown, and that consists of tool
/// calls.
pub open spec fn summed_up(entry: LogEntry, options: RenderOptions) -> bool {
    match entry {
        LogEntry::Assistant { message, timestamp, parent_tool_use_id } => {
            &&& parent_tool_use_id is Some ==> options.show_thinking
            &&& message.content@.len() > 0
            &&& only_tool_calls(message.content@)
        },
        _ => false,
    }
}

/// The text of an optional string slice.
pub open spec fn opt_str(text: Option<&str>) -> Option<Seq<char>> {
    match text {
        Some(text) => Some(text@),
        None => None,
    }
}

fn opt_as_str(text: &Option<String>) -> (r: Option<&str>)
    ensures
        opt_str(r) == opt_text(*text),
{
    match text {
        Some(text) => Some(text.as_str()),
        None => None,
    }
}

/// Whether a parent, a time and an activity are those of an entry.
pub open spec fn sums_up(
    entry: LogEntry,
    options: RenderOptions,
    parent: Option<Seq<char>>,
    time: Option<Seq<char>>,
    activity: Activity,
) -> bool {
    &&& entry matches LogEntry::Assistant { message, timestamp, parent_tool_use_id }
    &&& parent == opt_text(parent_tool_use_id)
    &&& time == opt_text(timestamp)
    &&& activity == activity_of(calls_in(message.content@, options))
}

/// The parent, the time and the calls of an entry that is summed up.
pub fn tool_only_assistant_summary<'a>(entry: &'a LogEntry, options: &RenderOptions) -> (summary:
    Option<(Option<&'a str>, Option<&'a str>, ToolActivitySummary)>)
    ensures
        summary matches Some((parent, time, activity)) ==> sums_up(
            *entry,
            *options,
            opt_str(parent),
            opt_str(time),
            activity@,
        ),
        summary is Some <==> summed_up(*entry, *options),
        summary matches Some((parent, time, activity)) ==> {
            &&& *entry matches LogEntry::Assistant { message, timestamp, parent_tool_use_id }
            &&& opt_str(parent) == opt_text(parent_tool_use_id)
            &&& opt_str(time) == opt_text(timestamp)
            &&& activity@ == activity_of(calls_in(message.content@, *options))
            &&& consistent(activity@)
        },
{
    match entry {
        LogEntry::Assistant { message, timestamp, parent_tool_use_id } => {
            if parent_tool_use_id.is_some() && !options.show_thinking {
                return None;
            }
            if message.content.len() == 0 || !assistant_blocks_are_tool_only(
                message.content.as_slice(),
            ) {
                return None;
            }
            let summary = summarize_tool_calls(message.content.as_slice(), options);
            proof {
                lemma_only_calls(message.content@, *options);
                law_activity_is_consistent(calls_in(message.content@, *options));
            }
            if summary.is_empty() {
                None
            } else {
                Some((opt_as_str(parent_tool_use_id), opt_as_str(timestamp), summary))
            }
        },
        _ => None,
    }
}

/// Whether a list of blocks holds nothing but tool results.
fn user_blocks_are_tool_results(blocks: &[ContentBlock]) -> (r: bool)
    ensures
        r == only_tool_results(blocks@),
{
    let mut i: usize = 0;
    while i < blocks.len()
        invariant
            i <= blocks@.len(),
            forall|j: int| 0 <= j < i ==> (#[trigger] blocks@[j]) is ToolResult,
        decreases blocks@.len() - i,
    {
        match &blocks[i] {
            ContentBlock::ToolResult { .. } => {},
            _ => {
                return false;
            },
        }
        i = i + 1;
    }
    true
}

/// Whether an entry of the user is shown and consists of tool results.
pub open spec fn only_hands_back(entry: LogEntry, options: RenderOptions) -> bool {
    match entry {
        LogEntry::User { message, timestamp, parent_tool_use_id } => {
            &&& parent_tool_use_id is Some ==> options.show_thinking
            &&& message.content matches UserContent::Blocks(blocks) && blocks@.len() > 0
                && only_tool_results(blocks@)
        },
        _ => false,
    }
}

/// Whether an entry of the user is shown and consists of tool results.
pub fn user_entry_is_only_tool_results(entry: &LogEntry, options: &RenderOptions) -> (r: bool)
    ensures
        r == only_hands_back(*entry, *options),
{
    match entry {
        LogEntry::User { message, timestamp: _, parent_tool_use_id } => {
            if parent_tool_use_id.is_some() && !options.show_thinking {
                return false;
            }
            match &message.content {
                UserContent::Blocks(blocks) => blocks.len() > 0 && user_blocks_are_tool_results(
                    blocks.as_slice(),
                ),
                _ => false,
            }
        },
        _ => false,
    }
}

/// A tool call or tool result that an expanded summary shows.
#[derive(Debug)]
pub struct DetailSpec {
    /// The parsed entry that holds the block.
    pub parsed_idx: usize,
    /// The block within its entry.
    pub block_idx: usize,
    pub output_id: ToolOutputId,
    pub expanded: bool,
    /// Whether the block is a call that leads to a subagent's transcript.
    pub has_subagent: bool,
}

/// What is known of a tool call or tool result that an expanded summary shows.
pub struct Detail {
    pub parsed_idx: int,
    pub block_idx: int,
    pub key: OutputKey,
    pub expanded: bool,
    pub has_subagent: bool,
}

impl View for DetailSpec {
    type V = Detail;

    open spec fn view(&self) -> Detail {
        Detail {
            parsed_idx: self.parsed_idx as int,
            block_idx: self.block_idx as int,
            key: self.output_id@,
            expanded: self.expanded,
            has_subagent: self.has_subagent,
        }
    }
}

/// What is known of a list of details.
pub open spec fn details_of(list: Seq<DetailSpec>) -> Seq<Detail> {
    Seq::new(list.len(), |i: int| list[i]@)
}

/// The blocks in which an expanded summary looks for details.
pub open spec fn detail_blocks(entry: LogEntry) -> Seq<ContentBlock> {
    match entry {
        LogEntry::Assistant { message, timestamp, parent_tool_use_id } => message.content@,
        LogEntry::User { message, timestamp, parent_tool_use_id } => match message.content {
            UserContent::Blocks(blocks) => blocks@,
            UserContent::Text(_) => seq![],
        },
        LogEntry::Other => seq![],
    }
}

/// Whether an entry is a message under a given parent.
pub open spec fn belongs_to(entry: LogEntry, parent: Option<Seq<char>>) -> bool {
    match entry {
        LogEntry::Assistant { message, timestamp, parent_tool_use_id } => opt_text(
            parent_tool_use_id,
        ) == parent,
        LogEntry::User { message, timestamp, parent_tool_use_id } => opt_text(parent_tool_use_id)
            == parent,
        LogEntry::Other => false,
    }
}

/// The detail that a block of an entry is: a call where the assistant speaks, a result where the
/// user does.
pub open spec fn block_detail(
    entry: RenderableEntry,
    parsed_idx: int,
    block_idx: int,
    parent: Option<Seq<char>>,
    options: RenderOptions,
) -> Option<Detail> {
    match (entry.entry is Assistant, detail_blocks(entry.entry)[block_idx]) {
        (true, ContentBlock::ToolUse { id, name, input }) => {
            let key = OutputKey {
                entry_index: entry.entry_index,
                parent_id: parent,
                block_index: block_idx as usize,
                kind: ToolOutputKind::ToolCall,
                tool_use_id: Some(id@),
            };
            Some(
                Detail {
                    parsed_idx,
                    block_idx,
                    key,
                    expanded: options.expands(key),
                    has_subagent: linked(options.subagent_links@, name@, id@),
                },
            )
        },
        (false, ContentBlock::ToolResult { tool_use_id, content }) => {
            let key = OutputKey {
                entry_index: entry.entry_index,
                parent_id: parent,
                block_index: block_idx as usize,
                kind: ToolOutputKind::ToolResult,
                tool_use_id: Some(tool_use_id@),
            };
            Some(
                Detail {
                    parsed_idx,
                    block_idx,
                    key,
                    expanded: options.expands(key),
                    has_subagent: false,
                },
            )
        },
        _ => None,
    }
}

/// The details among the first blocks of an entry.
pub open spec fn entry_details(
    entry: RenderableEntry,
    parsed_idx: int,
    upto: int,
    parent: Option<Seq<char>>,
    options: RenderOptions,
) -> Seq<Detail>
    decreases upto,
{
    if upto <= 0 {
        seq![]
    } else {
        let before = entry_details(entry, parsed_idx, upto - 1, parent, options);
        match block_detail(entry, parsed_idx, upto - 1, parent, options) {
            Some(detail) => before.push(detail),
            None => before,
        }
    }
}

/// The details among the entries of a run that belong to a parent.
pub open spec fn group_details(
    entries: Seq<RenderableEntry>,
    first: int,
    upto: int,
    parent: Option<Seq<char>>,
    options: RenderOptions,
) -> Seq<Detail>
    decreases upto - first,
{
    if upto <= first {
        seq![]
    } else {
        let before = group_details(entries, first, upto - 1, parent, options);
        let entry = entries[upto - 1];
        if belongs_to(entry.entry, parent) {
            before + entry_details(
                entry,
                upto - 1,
                detail_blocks(entry.entry).len() as int,
                parent,
                options,
            )
        } else {
            before
        }
    }
}

/// The detail that a block of an entry is.
fn plan_block(
    entry: &RenderableEntry,
    blocks: &Vec<ContentBlock>,
    parsed_idx: usize,
    block_idx: usize,
    parent: &Option<String>,
    options: &RenderOptions,
) -> (detail: Option<DetailSpec>)
    requires
        blocks@ == detail_blocks(entry.entry),
        block_idx < blocks@.len(),
    ensures
        (match detail {
            Some(detail) => block_detail(
                *entry,
                parsed_idx as int,
                block_idx as int,
                opt_text(*parent),
                *options,
            ) == Some(detail@),
            None => block_detail(
                *entry,
                parsed_idx as int,
                block_idx as int,
                opt_text(*parent),
                *options,
            ) is None,
        }),
{
    let by_assistant = match &entry.entry {
        LogEntry::Assistant { .. } => true,
        _ => false,
    };
    match &blocks[block_idx] {
        ContentBlock::ToolUse { id, name, input: _ } => {
            if !by_assistant {
                return None;
            }
            let output_id = ToolOutputId {
                entry_index: entry.entry_index,
                parent_id: copy_opt_text(parent),
                block_index: block_idx,
                kind: ToolOutputKind::ToolCall,
                tool_use_id: Some(id.clone()),
            };
            let expanded = options.is_expanded(&output_id);
            let has_subagent = options.has_subagent_link(name.as_str(), id.as_str());
            Some(DetailSpec { parsed_idx, block_idx, output_id, expanded, has_subagent })
        },
        ContentBlock::ToolResult { tool_use_id, content: _ } => {
            if by_assistant {
                return None;
            }
            let output_id = ToolOutputId {
                entry_index: entry.entry_index,
                parent_id: copy_opt_text(parent),
                block_index: block_idx,
                kind: ToolOutputKind::ToolResult,
                tool_use_id: Some(tool_use_id.clone()),
            };
            let expanded = options.is_expanded(&output_id);
            Some(DetailSpec { parsed_idx, block_idx, output_id, expanded, has_subagent: false })
        },
        _ => None,
    }
}

/// Appends the details among the blocks of an entry.
fn plan_blocks(
    list: &mut Vec<DetailSpec>,
    entry: &RenderableEntry,
    blocks: &Vec<ContentBlock>,
    parsed_idx: usize,
    parent: &Option<String>,
    options: &RenderOptions,
)
    requires
        blocks@ == detail_blocks(entry.entry),
    ensures
        details_of(final(list)@) == details_of(old(list)@) + entry_details(
            *entry,
            parsed_idx as int,
            blocks@.len() as int,
            opt_text(*parent),
            *options,
        ),
{
    let ghost start = details_of(list@);
    let mut i: usize = 0;
    assert(start + entry_details(*entry, parsed_idx as int, 0, opt_text(*parent), *options)
        =~= start);
    while i < blocks.len()
        invariant
            i <= blocks@.len(),
            blocks@ == detail_blocks(entry.entry),
            details_of(list@) == start + entry_details(
                *entry,
                parsed_idx as int,
                i as int,
                opt_text(*parent),
                *options,
            ),
        decreases blocks@.len() - i,
    {
        let ghost before = details_of(list@);
        if let Some(detail) = plan_block(entry, blocks, parsed_idx, i, parent, options) {
            let ghost view = detail@;
            list.push(detail);
            assert(details_of(list@) =~= before.push(view));
        }
        i = i + 1;
        assert(details_of(list@) =~= start + entry_details(
            *entry,
            parsed_idx as int,
            i as int,
            opt_text(*parent),
            *options,
        ));
    }
}

/// What an expanded summary shows.
pub fn plan_details(
    entries: &[RenderableEntry],
    pending: &PendingToolSummary,
    options: &RenderOptions,
) -> (list: Vec<DetailSpec>)
    requires
        pending.last_parsed_idx < entries@.len(),
    ensures
        details_of(list@) == group_details(
            entries@,
            pending.first_parsed_idx as int,
            pending.last_parsed_idx + 1,
            opt_text(pending.parent_id),
            *options,
        ),
{
    let ghost parent = opt_text(pending.parent_id);
    let ghost first = pending.first_parsed_idx as int;
    let mut list: Vec<DetailSpec> = Vec::new();
    assert(details_of(list@) =~= Seq::<Detail>::empty());
    let mut i: usize = pending.first_parsed_idx;
    while i <= pending.last_parsed_idx
        invariant
            pending.last_parsed_idx < entries@.len(),
            first == pending.first_parsed_idx,
            first <= i,
            i <= pending.last_parsed_idx + 1 || i == first,
            parent == opt_text(pending.parent_id),
            details_of(list@) == group_details(entries@, first, i as int, parent, *options),
        decreases pending.last_parsed_idx + 1 - i,
    {
        let entry = &entries[i];
        let ghost before = details_of(list@);
        match &entry.entry {
            LogEntry::Assistant { message, timestamp: _, parent_tool_use_id } => {
                if same_opt_text(parent_tool_use_id, &pending.parent_id) {
                    plan_blocks(
                        &mut list,
                        entry,
                        &message.content,
                        i,
                        &pending.parent_id,
                        options,
                    );
                }
            },
            LogEntry::User { message, timestamp: _, parent_tool_use_id } => {
                if same_opt_text(parent_tool_use_id, &pending.parent_id) {
                    match &message.content {
                        UserContent::Blocks(blocks) => {
                            plan_blocks(&mut list, entry, blocks, i, &pending.parent_id, options);
                        },
                        UserContent::Text(_) => {
                            assert(before + entry_details(*entry, i as int, 0, parent, *options)
                                =~= before);
                        },
                    }
                }
            },
            LogEntry::Other => {},
        }
        i = i + 1;
    }
    list
}

/// The row that a summary takes up while it is not expanded.
#[derive(Debug)]
pub struct LedgerRow {
    pub label: String,
    pub label_color: (u8, u8, u8),
    /// Whether the label and the separator are dimmed.
    pub dimmed: bool,
    /// The time shown before the label.
    pub stamp: Option<String>,
    pub content: Vec<(String, LineStyle)>,
    pub tool_output_id: Option<ToolOutputId>,
    pub clickable: bool,
}

/// What a row shows, and where it leads.
pub struct RowView {
    pub label: Seq<char>,
    pub label_color: (u8, u8, u8),
    pub dimmed: bool,
    pub stamp: Option<Seq<char>>,
    pub content: Seq<(Seq<char>, LineStyle)>,
    pub tool_output_id: Option<OutputKey>,
    pub clickable: bool,
}

impl View for LedgerRow {
    type V = RowView;

    open spec fn view(&self) -> RowView {
        RowView {
            label: self.label@,
            label_color: self.label_color,
            dimmed: self.dimmed,
            stamp: opt_text(self.stamp),
            content: spans_of(self.content@),
            tool_output_id: opt_key(self.tool_output_id),
            clickable: self.clickable,
        }
    }
}

/// The row for a summary, where there is anything to sum up.
pub fn tool_activity_row(
    label: &str,
    label_color: (u8, u8, u8),
    dimmed: bool,
    stamp: Option<String>,
    summary: &ToolActivitySummary,
    theme: &Theme,
    tool_output_id: Option<&ToolOutputId>,
) -> (row: Option<LedgerRow>)
    ensures
        row is Some <==> summary@.tool_calls > 0,
        row matches Some(row) ==> row@ == (RowView {
            label: label@,
            label_color,
            dimmed,
            stamp: opt_text(stamp),
            content: spans(summary@, *theme),
            tool_output_id: match tool_output_id {
                Some(id) => Some(id@),
                None => None,
            },
            clickable: tool_output_id is Some,
        }),
{
    if summary.is_empty() {
        return None;
    }
    let content = summary.styled_spans(theme);
    let (tool_output_id, clickable) = match tool_output_id {
        Some(id) => (Some(id.copy()), true),
        None => (None, false),
    };
    Some(
        LedgerRow {
            label: label.to_owned(),
            label_color,
            dimmed,
            stamp,
            content,
            tool_output_id,
            clickable,
        },
    )
}

/// How the calls and results of an expanded summary look.
#[derive(Debug)]
pub struct DetailLook {
    /// The label before each call.
    pub label: String,
    pub label_color: (u8, u8, u8),
    pub dimmed: bool,
    /// Whether room is left for a time.
    pub pad_timing: bool,
    /// Whether long texts are cut unless they are expanded.
    pub truncated: bool,
}

/// What has to be rendered to flush a summary.
#[derive(Debug)]
pub enum SummaryPlan {
    /// Each of the calls and results that an expanded summary shows.
    Details { look: DetailLook, details: Vec<DetailSpec> },
    /// The row of a summary that is not expanded, where there is anything to sum up.
    Row(Option<LedgerRow>),
}

/// The time that a summary shows: only where times are shown at all.
pub open spec fn shown_stamp(stamp: Option<Seq<char>>, options: RenderOptions) -> Option<Seq<char>> {
    if options.show_timing {
        stamp
    } else {
        None
    }
}

/// Whether a plan is the one for a summary: its details where it is expanded, and else its row.
pub open spec fn plans_summary(
    pending: PendingToolSummary,
    entries: Seq<RenderableEntry>,
    options: RenderOptions,
    theme: Theme,
    label: Seq<char>,
    stamp: Option<Seq<char>>,
    plan: SummaryPlan,
) -> bool {
    match plan {
        SummaryPlan::Details { look, details } => {
            &&& options.expands(pending.id@)
            &&& details_of(details@) == group_details(
                entries,
                pending.first_parsed_idx as int,
                pending.last_parsed_idx + 1,
                opt_text(pending.parent_id),
                options,
            )
            &&& look.label@ == label
            &&& look.label_color == theme.accent_dim
            &&& look.dimmed
            &&& look.pad_timing == options.show_timing
            &&& look.truncated
        },
        SummaryPlan::Row(row) => {
            &&& !options.expands(pending.id@)
            &&& row is Some <==> pending.summary@.tool_calls > 0
            &&& row matches Some(row) ==> row@ == (RowView {
                label,
                label_color: theme.accent_dim,
                dimmed: pending.parent_id is Some,
                stamp: shown_stamp(stamp, options),
                content: spans(pending.summary@, theme),
                tool_output_id: Some(pending.id@),
                clickable: true,
            })
        },
    }
}

/// Says what has to be rendered to flush a summary. The label and the formatted time are those for
/// the summary's parent and timestamp.
pub fn plan_tool_summary(
    pending: &PendingToolSummary,
    entries: &[RenderableEntry],
    options: &RenderOptions,
    theme: &Theme,
    label: &str,
    stamp: Option<String>,
) -> (plan: SummaryPlan)
    requires
        options.expands(pending.id@) ==> pending.last_parsed_idx < entries@.len(),
    ensures
        plans_summary(*pending, entries@, *options, *theme, label@, opt_text(stamp), plan),
        plan is Details <==> options.expands(pending.id@),
        plan matches SummaryPlan::Details { look, details } ==> {
            &&& details_of(details@) == group_details(
                entries@,
                pending.first_parsed_idx as int,
                pending.last_parsed_idx + 1,
                opt_text(pending.parent_id),
                *options,
            )
            &&& look.label@ == label@
            &&& look.label_color == theme.accent_dim
            &&& look.dimmed
            &&& look.pad_timing == options.show_timing
            &&& look.truncated
        },
        plan matches SummaryPlan::Row(row) ==> {
            &&& row is Some <==> pending.summary@.tool_calls > 0
            &&& row matches Some(row) ==> row@ == (RowView {
                label: label@,
                label_color: theme.accent_dim,
                dimmed: pending.parent_id is Some,
                stamp: shown_stamp(opt_text(stamp), *options),
                content: spans(pending.summary@, *theme),
                tool_output_id: Some(pending.id@),
                clickable: true,
            })
        },
{
    if options.is_expanded(&pending.id) {
        let look = DetailLook {
            label: label.to_owned(),
            label_color: theme.accent_dim,
            dimmed: true,
            pad_timing: options.show_timing,
            truncated: true,
        };
        return SummaryPlan::Details { look, details: plan_details(entries, pending, options) };
    }
    let stamp = if options.show_timing {
        stamp
    } else {
        None
    };
    SummaryPlan::Row(
        tool_activity_row(
            label,
            theme.accent_dim,
            pending.parent_id.is_some(),
            stamp,
            &pending.summary,
            theme,
            Some(&pending.id),
        ),
    )
}

/// The lines that came of a plan.
#[derive(Debug)]
pub enum RenderedSummary {
    /// The lines of each call and result.
    Details(Vec<Vec<RenderedLine>>),
    /// The lines of the row.
    Row(Option<Vec<RenderedLine>>),
}

/// What each of a list of groups of lines shows.
pub open spec fn groups_of(groups: Seq<Vec<RenderedLine>>) -> Seq<Seq<LineView>> {
    Seq::new(groups.len(), |i: int| lines_of(groups[i]@))
}

/// Groups of lines one after the other, with an empty line between neighbours.
pub open spec fn spaced_groups(groups: Seq<Seq<LineView>>) -> Seq<LineView>
    decreases groups.len(),
{
    if groups.len() == 0 {
        seq![]
    } else if groups.len() == 1 {
        groups[0]
    } else {
        spaced_groups(groups.drop_last()).push(empty_line()) + groups.last()
    }
}

/// Lines of which the first leads to a tool output, unless it already leads somewhere.
pub open spec fn first_leads_to(lines: Seq<LineView>, key: OutputKey) -> Seq<LineView> {
    if lines.len() == 0 || lines[0].clickable {
        lines
    } else {
        lines.update(0, LineView { tool_output_id: Some(key), clickable: true, ..lines[0] })
    }
}

/// Lines of which the last leads to the subagent of a tool call.
pub open spec fn last_leads_to(lines: Seq<LineView>, id: Option<Seq<char>>) -> Seq<LineView> {
    if id is None || lines.len() == 0 {
        lines
    } else {
        lines.update(lines.len() - 1, LineView { subagent_tool_use_id: id, ..lines.last() })
    }
}

/// The lines of the viewer with those of a summary behind them.
pub open spec fn with_summary(
    lines: Seq<LineView>,
    rendered: RenderedSummary,
    pending: PendingToolSummary,
) -> Seq<LineView> {
    match rendered {
        RenderedSummary::Details(groups) => lines + first_leads_to(
            spaced_groups(groups_of(groups@)),
            pending.id@,
        ),
        RenderedSummary::Row(None) => lines,
        RenderedSummary::Row(Some(row)) => last_leads_to(
            lines + lines_of(row@),
            pending.summary@.direct_subagent_id,
        ),
    }
}

/// Appends lines.
fn push_all(lines: &mut Vec<RenderedLine>, more: Vec<RenderedLine>)
    ensures
        lines_of(final(lines)@) == lines_of(old(lines)@) + lines_of(more@),
{
    let ghost shown = lines_of(more@);
    let mut more = more;
    lines.append(&mut more);
    assert(lines_of(lines@) =~= lines_of(old(lines)@) + shown);
}

/// Appends the row of a summary, and lets its last line lead to the subagent, where there is one.
pub fn render_tool_activity_summary(
    lines: &mut Vec<RenderedLine>,
    row: Vec<RenderedLine>,
    subagent_tool_use_id: Option<&str>,
)
    ensures
        lines_of(final(lines)@) == last_leads_to(
            lines_of(old(lines)@) + lines_of(row@),
            opt_str(subagent_tool_use_id),
        ),
{
    push_all(lines, row);
    if let Some(id) = subagent_tool_use_id {
        let ghost before = lines@;
        let ghost shown = lines_of(before);
        if let Some(last) = lines.pop() {
            let mut last = last;
            last.subagent_tool_use_id = Some(id.to_owned());
            let ghost view = last@;
            assert(view == (LineView { subagent_tool_use_id: Some(id@), ..shown.last() }));
            lines.push(last);
            assert(lines_of(lines@) =~= shown.update(shown.len() - 1, view));
        }
    }
}

/// Appends what an expanded summary shows, and lets its first line lead back to the summary.
pub fn render_summary_group_details(
    lines: &mut Vec<RenderedLine>,
    groups: Vec<Vec<RenderedLine>>,
    id: &ToolOutputId,
)
    ensures
        lines_of(final(lines)@) == lines_of(old(lines)@) + first_leads_to(
            spaced_groups(groups_of(groups@)),
            id@,
        ),
{
    let ghost all = groups_of(groups@);
    let total = groups.len();
    let mut groups = groups;
    // The groups are taken from the last to the first, and put in order again.
    let mut reversed: Vec<Vec<RenderedLine>> = Vec::new();
    while groups.len() > 0
        invariant
            groups@.len() + reversed@.len() == total,
            all.len() == total,
            groups_of(groups@) == all.take(groups@.len() as int),
            forall|i: int|
                0 <= i < reversed@.len() ==> lines_of((#[trigger] reversed@[i])@) == all[total - 1
                    - i],
        decreases groups@.len(),
    {
        let ghost before = groups@;
        assert(groups_of(before)[before.len() - 1] == all[before.len() - 1]);
        if let Some(group) = groups.pop() {
            assert(lines_of(group@) == groups_of(before)[before.len() - 1]);
            reversed.push(group);
        }
        assert(groups_of(groups@) =~= all.take(groups@.len() as int));
    }
    let mut body: Vec<RenderedLine> = Vec::new();
    assert(lines_of(body@) =~= spaced_groups(all.take(0)));
    let mut done: usize = 0;
    while reversed.len() > 0
        invariant
            done + reversed@.len() == total,
            all.len() == total,
            forall|i: int|
                0 <= i < reversed@.len() ==> lines_of((#[trigger] reversed@[i])@) == all[total - 1
                    - i],
            lines_of(body@) == spaced_groups(all.take(done as int)),
        decreases reversed@.len(),
    {
        let ghost upto = all.take(done + 1);
        let ghost before = lines_of(body@);
        assert(upto.drop_last() =~= all.take(done as int));
        if let Some(group) = reversed.pop() {
            assert(lines_of(group@) == all[done as int]);
            if done > 0 {
                body.push(RenderedLine::empty());
                assert(lines_of(body@) =~= before.push(empty_line()));
            }
            push_all(&mut body, group);
            assert(lines_of(body@) =~= spaced_groups(upto));
        }
        done = done + 1;
    }
    assert(all.take(total as int) =~= all);
    let ghost shown = lines_of(body@);
    if body.len() > 0 && !body[0].clickable {
        let mut first = body.remove(0);
        first.tool_output_id = Some(id.copy());
        first.clickable = true;
        let ghost view = first@;
        assert(view == (LineView { tool_output_id: Some(id@), clickable: true, ..shown[0] }));
        body.insert(0, first);
        assert(lines_of(body@) =~= shown.update(0, view));
    }
    push_all(lines, body);
}

/// Whether lines and messages are those after a flush: where the summary takes up lines, they stand
/// behind the others with an empty line behind them, and are one message more.
pub open spec fn flushes(
    lines: Seq<LineView>,
    messages: Seq<MessageRange>,
    pending: Option<PendingToolSummary>,
    rendered: RenderedSummary,
    entries: Seq<RenderableEntry>,
    lines_after: Seq<LineView>,
    messages_after: Seq<MessageRange>,
) -> bool {
    match pending {
        None => lines_after == lines && messages_after == messages,
        Some(pending) => {
            let shown = with_summary(lines, rendered, pending);
            if shown.len() > lines.len() {
                &&& lines_after == shown.push(empty_line())
                &&& messages_after == messages.push(
                    MessageRange {
                        entry_index: pending.first_entry_index,
                        last_entry_index: entries[pending.last_parsed_idx as int].entry_index,
                        start_line: lines.len() as usize,
                        end_line: shown.len() as usize,
                    },
                )
            } else {
                lines_after == shown && messages_after == messages
            }
        },
    }
}

/// Puts the lines of a pending summary into the viewer, and an empty line behind them. The summary
/// is then no longer pending.
pub fn flush_tool_summary(
    lines: &mut Vec<RenderedLine>,
    messages: &mut Vec<MessageRange>,
    pending: &mut Option<PendingToolSummary>,
    rendered: RenderedSummary,
    entries: &[RenderableEntry],
)
    requires
        *old(pending) matches Some(pending) ==> (with_summary(
            lines_of(old(lines)@),
            rendered,
            pending,
        ).len() > old(lines)@.len() ==> pending.last_parsed_idx < entries@.len()),
    ensures
        *final(pending) is None,
        flushes(
            lines_of(old(lines)@),
            old(messages)@,
            *old(pending),
            rendered,
            entries@,
            lines_of(final(lines)@),
            final(messages)@,
        ),
        (match *old(pending) {
            None => final(lines)@ == old(lines)@ && final(messages)@ == old(messages)@,
            Some(pending) => {
                let before = lines_of(old(lines)@);
                let after = with_summary(before, rendered, pending);
                if after.len() > before.len() {
                    &&& lines_of(final(lines)@) == after.push(empty_line())
                    &&& final(messages)@ == old(messages)@.push(
                        MessageRange {
                            entry_index: pending.first_entry_index,
                            last_entry_index: entries@[pending.last_parsed_idx as int].entry_index,
                            start_line: before.len() as usize,
                            end_line: after.len() as usize,
                        },
                    )
                } else {
                    &&& lines_of(final(lines)@) == after
                    &&& final(messages)@ == old(messages)@
                }
            },
        }),
{
    let taken = pending.take();
    let pending = match taken {
        Some(pending) => pending,
        None => {
            return ;
        },
    };
    let start_line = lines.len();
    match rendered {
        RenderedSummary::Details(groups) => {
            render_summary_group_details(lines, groups, &pending.id);
        },
        RenderedSummary::Row(None) => {},
        RenderedSummary::Row(Some(row)) => {
            render_tool_activity_summary(lines, row, pending.summary.direct_subagent_id());
        },
    }
    let end_line = lines.len();
    if end_line > start_line {
        let last_entry_index = entries[pending.last_parsed_idx].entry_index;
        messages.push(
            MessageRange {
                entry_index: pending.first_entry_index,
                last_entry_index,
                start_line,
                end_line,
            },
        );
        let ghost after = lines_of(lines@);
        lines.push(RenderedLine::empty());
        assert(lines_of(lines@) =~= after.push(empty_line()));
    }
}

/// Whether the lines that messages take up lie one behind the other within a number of lines.
pub open spec fn ranges_in_order(messages: Seq<MessageRange>, line_count: nat) -> bool {
    &&& forall|i: int|
        0 <= i < messages.len() ==> (#[trigger] messages[i]).start_line < messages[i].end_line
            <= line_count
    &&& forall|i: int, j: int|
        0 <= i < j < messages.len() ==> (#[trigger] messages[i]).end_line <= (
        #[trigger] messages[j]).start_line
}

/// A flush leaves the lines that were there in place, and the messages' lines one behind the other.
pub proof fn law_flush_keeps_ranges_in_order(
    messages: Seq<MessageRange>,
    before: Seq<LineView>,
    rendered: RenderedSummary,
    pending: PendingToolSummary,
    last_entry_index: usize,
)
    requires
        ranges_in_order(messages, before.len()),
        with_summary(before, rendered, pending).len() <= usize::MAX,
    ensures
        ({
            let after = with_summary(before, rendered, pending);
            let range = MessageRange {
                entry_index: pending.first_entry_index,
                last_entry_index,
                start_line: before.len() as usize,
                end_line: after.len() as usize,
            };
            &&& after.len() >= before.len()
            &&& after.len() > before.len() ==> ranges_in_order(
                messages.push(range),
                after.push(empty_line()).len(),
            )
            &&& after.len() > before.len() ==> forall|i: int|
                0 <= i < before.len() ==> after[i] == #[trigger] before[i]
        }),
{
}

proof fn lemma_present_some(items: Seq<Option<Seq<char>>>, k: int)
    requires
        0 <= k < items.len(),
        items[k] is Some,
    ensures
        crate::text::present(items).len() > 0,
    decreases items.len(),
{
    if k < items.len() - 1 {
        lemma_present_some(items.drop_last(), k);
    }
}

/// A summary of at least one call says something.
pub proof fn law_summaries_of_calls_say_something(activity: Activity, theme: Theme)
    requires
        consistent(activity),
        activity.tool_calls > 0,
    ensures
        spans(activity, theme).len() > 0,
{
    let items = summary_items(activity);
    if activity.agents == 0 {
        if activity.searched_patterns > 0 {
            lemma_present_some(items, 0);
        } else if activity.searched_file_patterns > 0 {
            lemma_present_some(items, 1);
        } else if activity.read_files > 0 {
            lemma_present_some(items, 2);
        } else if activity.shell_commands > 0 {
            lemma_present_some(items, 3);
        } else if activity.edited_files > 0 {
            lemma_present_some(items, 4);
        } else if activity.wrote_files > 0 {
            lemma_present_some(items, 5);
        } else if activity.fetched_urls > 0 {
            lemma_present_some(items, 6);
        } else if activity.web_searches > 0 {
            lemma_present_some(items, 7);
        } else {
            lemma_present_some(items, 8);
        }
    }
}

proof fn lemma_calls_append(a: Seq<ContentBlock>, b: Seq<ContentBlock>, options: RenderOptions)
    ensures
        calls_in(a + b, options) == calls_in(a, options) + calls_in(b, options),
    decreases b.len(),
{
    if b.len() == 0 {
        assert(a + b =~= a);
        assert(calls_in(a, options) + calls_in(b, options) =~= calls_in(a, options));
    } else {
        assert((a + b).drop_last() =~= a + b.drop_last());
        lemma_calls_append(a, b.drop_last(), options);
        assert(calls_in(a + b, options) =~= calls_in(a, options) + calls_in(b, options));
    }
}

/// To sum up the blocks of two messages and merge the summaries is to sum up the blocks as those
/// of one message.
pub proof fn law_merged_messages_are_summed_up_as_one(
    first: Seq<ContentBlock>,
    second: Seq<ContentBlock>,
    options: RenderOptions,
)
    ensures
        merged(activity_of(calls_in(first, options)), activity_of(calls_in(second, options)))
            == activity_of(calls_in(first + second, options)),
{
    lemma_calls_append(first, second, options);
    law_merging_summaries_sums_up_both_runs(calls_in(first, options), calls_in(second, options));
}

} // verus!
