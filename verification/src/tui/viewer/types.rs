//! What the viewer renders, and how.

use crate::claude::LogEntry;
use crate::json::opt_text;
use crate::text::same_text;
use vstd::prelude::*;

verus! {

/// How a span of a line looks.
#[derive(Clone, Copy, Debug, PartialEq, Eq)]
pub struct LineStyle {
    pub fg: Option<(u8, u8, u8)>,
    pub bold: bool,
    pub dimmed: bool,
}

/// The colours of the viewer.
#[derive(Clone, Copy, Debug, PartialEq, Eq)]
pub struct Theme {
    pub tool_text: (u8, u8, u8),
    pub accent: (u8, u8, u8),
    pub accent_dim: (u8, u8, u8),
}

/// Which side of a tool call an output shows.
#[derive(Clone, Copy, Debug, PartialEq, Eq, Structural)]
pub enum ToolOutputKind {
    ToolCall,
    ToolResult,
}

/// The identity of a piece of tool output that can be expanded.
#[derive(Clone, Debug)]
pub struct ToolOutputId {
    pub entry_index: usize,
    pub parent_id: Option<String>,
    pub block_index: usize,
    pub kind: ToolOutputKind,
    pub tool_use_id: Option<String>,
}

/// What makes two pieces of tool output the same.
pub struct OutputKey {
    pub entry_index: usize,
    pub parent_id: Option<Seq<char>>,
    pub block_index: usize,
    pub kind: ToolOutputKind,
    pub tool_use_id: Option<Seq<char>>,
}

impl View for ToolOutputId {
    type V = OutputKey;

    open spec fn view(&self) -> OutputKey {
        OutputKey {
            entry_index: self.entry_index,
            parent_id: opt_text(self.parent_id),
            block_index: self.block_index,
            kind: self.kind,
            tool_use_id: opt_text(self.tool_use_id),
        }
    }
}

/// The keys of a list of tool outputs.
pub open spec fn keys_of(ids: Seq<ToolOutputId>) -> Seq<OutputKey> {
    Seq::new(ids.len(), |i: int| ids[i]@)
}

/// A call of a tool that a subagent's transcript belongs to.
#[derive(Clone, Debug)]
pub struct SubagentLink {
    pub tool_name: String,
    pub tool_use_id: String,
}

/// What the viewer shows, and what of it is expanded.
#[derive(Clone, Debug)]
pub struct RenderOptions {
    pub show_timing: bool,
    pub show_thinking: bool,
    /// The pieces of tool output that are expanded.
    pub expanded_tool_outputs: Vec<ToolOutputId>,
    /// The tool calls that lead to a subagent's transcript.
    pub subagent_links: Vec<SubagentLink>,
}

/// Whether a list of links holds one for a tool call.
pub open spec fn linked(links: Seq<SubagentLink>, name: Seq<char>, id: Seq<char>) -> bool {
    exists|i: int|
        0 <= i < links.len() && (#[trigger] links[i]).tool_name@ == name && links[i].tool_use_id@
            == id
}

/// An entry of the log with its place in the file.
#[derive(Debug)]
pub struct RenderableEntry {
    pub entry_index: usize,
    pub entry: LogEntry,
}

/// A line of the viewer.
#[derive(Clone, Debug)]
pub struct RenderedLine {
    pub spans: Vec<(String, LineStyle)>,
    /// The tool output that the line belongs to.
    pub tool_output_id: Option<ToolOutputId>,
    pub clickable: bool,
    /// The tool call whose subagent the line leads to.
    pub subagent_tool_use_id: Option<String>,
}

/// The lines that a message takes up in the viewer.
#[derive(Clone, Copy, Debug, PartialEq, Eq, Structural)]
pub struct MessageRange {
    pub entry_index: usize,
    pub last_entry_index: usize,
    pub start_line: usize,
    pub end_line: usize,
}

/// What a line of the viewer shows, and where it leads.
pub struct LineView {
    pub spans: Seq<(Seq<char>, LineStyle)>,
    pub tool_output_id: Option<OutputKey>,
    pub clickable: bool,
    pub subagent_tool_use_id: Option<Seq<char>>,
}

/// The texts and styles of a list of spans.
pub open spec fn spans_of(list: Seq<(String, LineStyle)>) -> Seq<(Seq<char>, LineStyle)> {
    Seq::new(list.len(), |i: int| (list[i].0@, list[i].1))
}

/// The key of an optional tool output.
pub open spec fn opt_key(id: Option<ToolOutputId>) -> Option<OutputKey> {
    match id {
        Some(id) => Some(id@),
        None => None,
    }
}

impl View for RenderedLine {
    type V = LineView;

    open spec fn view(&self) -> LineView {
        LineView {
            spans: spans_of(self.spans@),
            tool_output_id: opt_key(self.tool_output_id),
            clickable: self.clickable,
            subagent_tool_use_id: opt_text(self.subagent_tool_use_id),
        }
    }
}

/// What a list of lines shows.
pub open spec fn lines_of(lines: Seq<RenderedLine>) -> Seq<LineView> {
    Seq::new(lines.len(), |i: int| lines[i]@)
}

/// An empty line that leads nowhere.
pub open spec fn empty_line() -> LineView {
    LineView {
        spans: seq![],
        tool_output_id: None,
        clickable: false,
        subagent_tool_use_id: None,
    }
}

impl RenderedLine {
    /// An empty line that leads nowhere.
    pub fn empty() -> (line: RenderedLine)
        ensures
            line@ == empty_line(),
    {
        let line = RenderedLine {
            spans: Vec::new(),
            tool_output_id: None,
            clickable: false,
            subagent_tool_use_id: None,
        };
        assert(line@.spans =~= empty_line().spans);
        line
    }
}

/// Whether two optional texts are the same.
pub fn same_opt_text(a: &Option<String>, b: &Option<String>) -> (same: bool)
    ensures
        same == (opt_text(*a) == opt_text(*b)),
{
    match (a, b) {
        (Some(a), Some(b)) => same_text(a.as_str(), b.as_str()),
        (None, None) => true,
        _ => false,
    }
}

/// A copy of an optional text.
pub fn copy_opt_text(text: &Option<String>) -> (copy: Option<String>)
    ensures
        opt_text(copy) == opt_text(*text),
        copy is Some <==> text is Some,
{
    match text {
        Some(text) => Some(text.clone()),
        None => None,
    }
}

impl ToolOutputId {
    /// Whether two identities are the same.
    pub fn same(&self, other: &ToolOutputId) -> (same: bool)
        ensures
            same == (self@ == other@),
    {
        self.entry_index == other.entry_index && self.block_index == other.block_index && self.kind
            == other.kind && same_opt_text(&self.parent_id, &other.parent_id) && same_opt_text(
            &self.tool_use_id,
            &other.tool_use_id,
        )
    }

    /// A copy of the identity.
    pub fn copy(&self) -> (id: ToolOutputId)
        ensures
            id@ == self@,
    {
        ToolOutputId {
            entry_index: self.entry_index,
            parent_id: copy_opt_text(&self.parent_id),
            block_index: self.block_index,
            kind: self.kind,
            tool_use_id: copy_opt_text(&self.tool_use_id),
        }
    }
}

impl RenderOptions {
    /// Whether a piece of tool output is expanded.
    pub open spec fn expands(self, key: OutputKey) -> bool {
        keys_of(self.expanded_tool_outputs@).contains(key)
    }

    /// Whether a piece of tool output is expanded.
    pub fn is_expanded(&self, id: &ToolOutputId) -> (r: bool)
        ensures
            r == self.expands(id@),
    {
        let ghost keys = keys_of(self.expanded_tool_outputs@);
        let mut i: usize = 0;
        while i < self.expanded_tool_outputs.len()
            invariant
                i <= self.expanded_tool_outputs@.len(),
                keys == keys_of(self.expanded_tool_outputs@),
                forall|j: int| 0 <= j < i ==> #[trigger] keys[j] != id@,
            decreases self.expanded_tool_outputs@.len() - i,
        {
            if self.expanded_tool_outputs[i].same(id) {
                assert(keys[i as int] == id@);
                return true;
            }
            i = i + 1;
        }
        false
    }

    /// Whether a tool call leads to a subagent's transcript.
    pub fn has_subagent_link(&self, name: &str, id: &str) -> (r: bool)
        ensures
            r == linked(self.subagent_links@, name@, id@),
    {
        let mut i: usize = 0;
        while i < self.subagent_links.len()
            invariant
                i <= self.subagent_links@.len(),
                forall|j: int|
                    0 <= j < i ==> !((#[trigger] self.subagent_links@[j]).tool_name@ == name@
                        && self.subagent_links@[j].tool_use_id@ == id@),
            decreases self.subagent_links@.len() - i,
        {
            let link = &self.subagent_links[i];
            if same_text(link.tool_name.as_str(), name) && same_text(link.tool_use_id.as_str(), id) {
                return true;
            }
            i = i + 1;
        }
        false
    }
}

} // verus!
