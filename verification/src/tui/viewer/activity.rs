//! How a run of tool calls is summed up.

use crate::json::{field_text, json_field_text, opt_text};
use crate::text::{
    decimal, from_chars, join, joined, lemma_decimal_digits, present, push_decimal, same_text, texts, to_chars,
};
use crate::tui::viewer::types::{spans_of, LineStyle, Theme};
use vstd::prelude::*;
use vstd::string::*;

verus! {

/// What a tool call counts as.
#[derive(Clone, Copy, Debug, PartialEq, Eq, Structural)]
pub enum ToolKind {
    Shell,
    Read,
    Grep,
    Glob,
    Edit,
    Write,
    Agent,
    Fetch,
    WebSearch,
    Other,
}

/// What a call of the tool with a given name counts as.
pub open spec fn kind_of(name: Seq<char>) -> ToolKind {
    if name == "Bash"@ {
        ToolKind::Shell
    } else if name == "Read"@ {
        ToolKind::Read
    } else if name == "Grep"@ {
        ToolKind::Grep
    } else if name == "Glob"@ {
        ToolKind::Glob
    } else if name == "Edit"@ {
        ToolKind::Edit
    } else if name == "Write"@ {
        ToolKind::Write
    } else if name == "Task"@ || name == "Agent"@ {
        ToolKind::Agent
    } else if name == "WebFetch"@ {
        ToolKind::Fetch
    } else if name == "WebSearch"@ {
        ToolKind::WebSearch
    } else {
        ToolKind::Other
    }
}

/// What a call of the tool with a given name counts as.
pub fn tool_kind(name: &str) -> (kind: ToolKind)
    ensures
        kind == kind_of(name@),
{
    if same_text(name, "Bash") {
        ToolKind::Shell
    } else if same_text(name, "Read") {
        ToolKind::Read
    } else if same_text(name, "Grep") {
        ToolKind::Grep
    } else if same_text(name, "Glob") {
        ToolKind::Glob
    } else if same_text(name, "Edit") {
        ToolKind::Edit
    } else if same_text(name, "Write") {
        ToolKind::Write
    } else if same_text(name, "Task") || same_text(name, "Agent") {
        ToolKind::Agent
    } else if same_text(name, "WebFetch") {
        ToolKind::Fetch
    } else if same_text(name, "WebSearch") {
        ToolKind::WebSearch
    } else {
        ToolKind::Other
    }
}

/// What a summary knows of a tool call.
pub struct Call {
    pub kind: ToolKind,
    pub id: Seq<char>,
    /// What an agent was sent to do.
    pub description: Option<Seq<char>>,
    /// Whether the call leads to a subagent's transcript.
    pub linked: bool,
}

/// What a run of tool calls comes to.
#[verifier::ext_equal]
pub struct Activity {
    pub searched_patterns: nat,
    pub searched_file_patterns: nat,
    pub read_files: nat,
    pub shell_commands: nat,
    pub edited_files: nat,
    pub wrote_files: nat,
    pub agents: nat,
    pub linked_agents: nat,
    pub tool_calls: nat,
    /// The only call, where there is one and it leads to a subagent.
    pub direct_subagent_id: Option<Seq<char>>,
    pub agent_descriptions: Seq<Seq<char>>,
    pub fetched_urls: nat,
    pub web_searches: nat,
    pub other_tools: nat,
}

/// No calls.
pub open spec fn no_activity() -> Activity {
    Activity {
        searched_patterns: 0,
        searched_file_patterns: 0,
        read_files: 0,
        shell_commands: 0,
        edited_files: 0,
        wrote_files: 0,
        agents: 0,
        linked_agents: 0,
        tool_calls: 0,
        direct_subagent_id: None,
        agent_descriptions: seq![],
        fetched_urls: 0,
        web_searches: 0,
        other_tools: 0,
    }
}

/// One call more.
pub open spec fn with_call(activity: Activity, call: Call) -> Activity {
    let counted = Activity {
        tool_calls: activity.tool_calls + 1,
        direct_subagent_id: if activity.tool_calls == 0 && call.linked {
            Some(call.id)
        } else {
            None
        },
        ..activity
    };
    match call.kind {
        ToolKind::Shell => Activity { shell_commands: activity.shell_commands + 1, ..counted },
        ToolKind::Read => Activity { read_files: activity.read_files + 1, ..counted },
        ToolKind::Grep => Activity {
            searched_patterns: activity.searched_patterns + 1,
            ..counted
        },
        ToolKind::Glob => Activity {
            searched_file_patterns: activity.searched_file_patterns + 1,
            ..counted
        },
        ToolKind::Edit => Activity { edited_files: activity.edited_files + 1, ..counted },
        ToolKind::Write => Activity { wrote_files: activity.wrote_files + 1, ..counted },
        ToolKind::Agent => Activity {
            agents: activity.agents + 1,
            linked_agents: if call.linked {
                activity.linked_agents + 1
            } else {
                activity.linked_agents
            },
            agent_descriptions: match call.description {
                Some(description) => activity.agent_descriptions.push(description),
                None => activity.agent_descriptions,
            },
            ..counted
        },
        ToolKind::Fetch => Activity { fetched_urls: activity.fetched_urls + 1, ..counted },
        ToolKind::WebSearch => Activity { web_searches: activity.web_searches + 1, ..counted },
        ToolKind::Other => Activity { other_tools: activity.other_tools + 1, ..counted },
    }
}

/// What a run of calls comes to.
pub open spec fn activity_of(calls: Seq<Call>) -> Activity
    decreases calls.len(),
{
    if calls.len() == 0 {
        no_activity()
    } else {
        with_call(activity_of(calls.drop_last()), calls.last())
    }
}

/// What two runs come to, one after the other.
pub open spec fn merged(a: Activity, b: Activity) -> Activity {
    Activity {
        searched_patterns: a.searched_patterns + b.searched_patterns,
        searched_file_patterns: a.searched_file_patterns + b.searched_file_patterns,
        read_files: a.read_files + b.read_files,
        shell_commands: a.shell_commands + b.shell_commands,
        edited_files: a.edited_files + b.edited_files,
        wrote_files: a.wrote_files + b.wrote_files,
        agents: a.agents + b.agents,
        linked_agents: a.linked_agents + b.linked_agents,
        tool_calls: a.tool_calls + b.tool_calls,
        direct_subagent_id: if a.tool_calls + b.tool_calls != 1 {
            None
        } else if a.tool_calls == 0 {
            b.direct_subagent_id
        } else {
            a.direct_subagent_id
        },
        agent_descriptions: a.agent_descriptions + b.agent_descriptions,
        fetched_urls: a.fetched_urls + b.fetched_urls,
        web_searches: a.web_searches + b.web_searches,
        other_tools: a.other_tools + b.other_tools,
    }
}

/// How many calls the counts hold together.
pub open spec fn counted(activity: Activity) -> nat {
    activity.searched_patterns + activity.searched_file_patterns + activity.read_files
        + activity.shell_commands + activity.edited_files + activity.wrote_files + activity.agents
        + activity.fetched_urls + activity.web_searches + activity.other_tools
}

/// Whether an activity can come from a run of calls: each call is counted once, agents are linked
/// and described at most once each, and only a single call leads to a subagent directly.
pub open spec fn consistent(activity: Activity) -> bool {
    &&& counted(activity) == activity.tool_calls
    &&& activity.linked_agents <= activity.agents
    &&& activity.agent_descriptions.len() <= activity.agents
    &&& activity.direct_subagent_id is Some ==> activity.tool_calls == 1
}

/// The counts of a run of tool calls.
#[derive(Debug)]
struct Tally {
    searched_patterns: usize,
    searched_file_patterns: usize,
    read_files: usize,
    shell_commands: usize,
    edited_files: usize,
    wrote_files: usize,
    agents: usize,
    linked_agents: usize,
    tool_calls: usize,
    direct_subagent_id: Option<String>,
    agent_descriptions: Vec<String>,
    fetched_urls: usize,
    web_searches: usize,
    other_tools: usize,
}

impl View for Tally {
    type V = Activity;

    closed spec fn view(&self) -> Activity {
        Activity {
            searched_patterns: self.searched_patterns as nat,
            searched_file_patterns: self.searched_file_patterns as nat,
            read_files: self.read_files as nat,
            shell_commands: self.shell_commands as nat,
            edited_files: self.edited_files as nat,
            wrote_files: self.wrote_files as nat,
            agents: self.agents as nat,
            linked_agents: self.linked_agents as nat,
            tool_calls: self.tool_calls as nat,
            direct_subagent_id: opt_text(self.direct_subagent_id),
            agent_descriptions: texts(self.agent_descriptions@),
            fetched_urls: self.fetched_urls as nat,
            web_searches: self.web_searches as nat,
            other_tools: self.other_tools as nat,
        }
    }
}

/// A summary of a run of tool calls.
#[derive(Debug)]
pub struct ToolActivitySummary {
    tally: Tally,
}

impl View for ToolActivitySummary {
    type V = Activity;

    closed spec fn view(&self) -> Activity {
        self.tally@
    }
}

impl Default for ToolActivitySummary {
    fn default() -> (summary: Self)
        ensures
            summary@ == no_activity(),
    {
        ToolActivitySummary { tally: Tally::new() }
    }
}

impl Tally {
    /// No calls.
    fn new() -> (tally: Self)
        ensures
            tally@ == no_activity(),
    {
        let tally = Tally {
            searched_patterns: 0,
            searched_file_patterns: 0,
            read_files: 0,
            shell_commands: 0,
            edited_files: 0,
            wrote_files: 0,
            agents: 0,
            linked_agents: 0,
            tool_calls: 0,
            direct_subagent_id: None,
            agent_descriptions: Vec::new(),
            fetched_urls: 0,
            web_searches: 0,
            other_tools: 0,
        };
        assert(tally@ =~= no_activity());
        tally
    }
}

/// What a summary knows of a call with a given input.
pub open spec fn call_of(
    name: Seq<char>,
    id: Seq<char>,
    input: Option<&serde_json::Value>,
    linked: bool,
) -> Call {
    Call {
        kind: kind_of(name),
        id,
        description: match input {
            Some(input) => json_field_text(*input, "description"@),
            None => None,
        },
        linked,
    }
}

impl Tally {
    /// Counts one more call.
    fn add(&mut self, kind: ToolKind, id: &str, description: Option<String>, linked: bool)
        requires
            consistent(old(self)@),
            old(self)@.tool_calls < usize::MAX,
        ensures
            final(self)@ == with_call(
                old(self)@,
                (Call { kind, id: id@, description: opt_text(description), linked }),
            ),
            consistent(final(self)@),
    {
        let ghost call = Call { kind, id: id@, description: opt_text(description), linked };
        self.tool_calls = self.tool_calls + 1;
        self.direct_subagent_id =
        if self.tool_calls == 1 && linked {
            Some(id.to_owned())
        } else {
            None
        };
        match kind {
            ToolKind::Shell => {
                self.shell_commands = self.shell_commands + 1;
            },
            ToolKind::Read => {
                self.read_files = self.read_files + 1;
            },
            ToolKind::Grep => {
                self.searched_patterns = self.searched_patterns + 1;
            },
            ToolKind::Glob => {
                self.searched_file_patterns = self.searched_file_patterns + 1;
            },
            ToolKind::Edit => {
                self.edited_files = self.edited_files + 1;
            },
            ToolKind::Write => {
                self.wrote_files = self.wrote_files + 1;
            },
            ToolKind::Agent => {
                self.agents = self.agents + 1;
                if linked {
                    self.linked_agents = self.linked_agents + 1;
                }
                if let Some(description) = description {
                    let ghost before = texts(self.agent_descriptions@);
                    let ghost text = description@;
                    self.agent_descriptions.push(description);
                    assert(texts(self.agent_descriptions@) =~= before.push(text));
                }
            },
            ToolKind::Fetch => {
                self.fetched_urls = self.fetched_urls + 1;
            },
            ToolKind::WebSearch => {
                self.web_searches = self.web_searches + 1;
            },
            ToolKind::Other => {
                self.other_tools = self.other_tools + 1;
            },
        }
        assert(self@ =~= with_call(old(self)@, call));
    }

    /// Adds the calls of another run that came after this one.
    fn merge(&mut self, other: Self)
        requires
            consistent(old(self)@),
            consistent(other@),
            old(self)@.tool_calls + other@.tool_calls <= usize::MAX,
        ensures
            final(self)@ == merged(old(self)@, other@),
            consistent(final(self)@),
    {
        let ghost later = other@;
        let mut other = other;
        if self.tool_calls == 0 {
            self.direct_subagent_id = other.direct_subagent_id;
        }
        self.tool_calls = self.tool_calls + other.tool_calls;
        if self.tool_calls != 1 {
            self.direct_subagent_id = None;
        }
        self.searched_patterns = self.searched_patterns + other.searched_patterns;
        self.searched_file_patterns = self.searched_file_patterns + other.searched_file_patterns;
        self.read_files = self.read_files + other.read_files;
        self.shell_commands = self.shell_commands + other.shell_commands;
        self.edited_files = self.edited_files + other.edited_files;
        self.wrote_files = self.wrote_files + other.wrote_files;
        self.agents = self.agents + other.agents;
        self.linked_agents = self.linked_agents + other.linked_agents;
        let ghost before = texts(self.agent_descriptions@);
        self.agent_descriptions.append(&mut other.agent_descriptions);
        assert(texts(self.agent_descriptions@) =~= before + later.agent_descriptions);
        self.fetched_urls = self.fetched_urls + other.fetched_urls;
        self.web_searches = self.web_searches + other.web_searches;
        self.other_tools = self.other_tools + other.other_tools;
        assert(self@ =~= merged(old(self)@, later));
    }
}

impl ToolActivitySummary {
    /// The counts of the calls agree with each other.
    #[verifier::type_invariant]
    spec fn well_formed(self) -> bool {
        consistent(self.tally@)
    }

    /// Counts one more call.
    pub fn add_call(
        &mut self,
        name: &str,
        id: &str,
        input: Option<&serde_json::Value>,
        linked_subagent: bool,
    )
        requires
            old(self)@.tool_calls < usize::MAX,
        ensures
            final(self)@ == with_call(old(self)@, call_of(name@, id@, input, linked_subagent)),
    {
        proof {
            use_type_invariant(&*self);
        }
        let description = match input {
            Some(input) => field_text(input, "description"),
            None => None,
        };
        let mut tally = Tally::new();
        std::mem::swap(&mut tally, &mut self.tally);
        tally.add(tool_kind(name), id, description, linked_subagent);
        self.tally = tally;
    }

    /// Adds the calls of another run that came after this one.
    pub fn merge(&mut self, other: Self)
        requires
            old(self)@.tool_calls + other@.tool_calls <= usize::MAX,
        ensures
            final(self)@ == merged(old(self)@, other@),
    {
        proof {
            use_type_invariant(&*self);
            use_type_invariant(&other);
        }
        let mut tally = Tally::new();
        std::mem::swap(&mut tally, &mut self.tally);
        tally.merge(other.tally);
        self.tally = tally;
    }

    /// Whether there were no calls.
    pub fn is_empty(&self) -> (r: bool)
        ensures
            r == (counted(self@) == 0),
            r == (self@.tool_calls == 0),
    {
        proof {
            use_type_invariant(self);
        }
        let tally = &self.tally;
        tally.searched_patterns + tally.searched_file_patterns + tally.read_files
            + tally.shell_commands + tally.edited_files + tally.wrote_files + tally.agents
            + tally.fetched_urls + tally.web_searches + tally.other_tools == 0
    }

    /// The only call, where there is one and it leads to a subagent.
    pub fn direct_subagent_id(&self) -> (id: Option<&str>)
        ensures
            (match id {
                Some(id) => self@.direct_subagent_id == Some(id@),
                None => self@.direct_subagent_id is None,
            }),
    {
        match &self.tally.direct_subagent_id {
            Some(id) => Some(id.as_str()),
            None => None,
        }
    }
}

proof fn lemma_merged_call(a: Activity, b: Activity, call: Call)
    requires
        consistent(a),
        consistent(b),
    ensures
        with_call(merged(a, b), call) == merged(a, with_call(b, call)),
{
    let left = with_call(merged(a, b), call);
    let right = merged(a, with_call(b, call));
    assert(left.agent_descriptions =~= right.agent_descriptions);
    assert(left =~= right);
}

/// What comes of a run of calls is consistent.
pub proof fn law_activity_is_consistent(calls: Seq<Call>)
    ensures
        consistent(activity_of(calls)),
        activity_of(calls).tool_calls == calls.len(),
    decreases calls.len(),
{
    if calls.len() > 0 {
        law_activity_is_consistent(calls.drop_last());
    }
}

/// To sum up two runs and merge the summaries is to sum up the runs as one.
pub proof fn law_merging_summaries_sums_up_both_runs(first: Seq<Call>, second: Seq<Call>)
    ensures
        merged(activity_of(first), activity_of(second)) == activity_of(first + second),
    decreases second.len(),
{
    law_activity_is_consistent(first);
    if second.len() == 0 {
        assert(first + second =~= first);
        let a = activity_of(first);
        assert(merged(a, no_activity()).agent_descriptions =~= a.agent_descriptions);
        assert(merged(a, no_activity()) =~= a);
    } else {
        let rest = second.drop_last();
        law_merging_summaries_sums_up_both_runs(first, rest);
        law_activity_is_consistent(rest);
        assert((first + second).drop_last() =~= first + rest);
        lemma_merged_call(activity_of(first), activity_of(rest), second.last());
    }
}

/// What `char::to_uppercase` gives for a character.
pub uninterp spec fn uppercase(c: char) -> Seq<char>;

/// The upper-case letter for an ASCII letter; any other ASCII character as it is.
pub open spec fn ascii_uppercase(c: char) -> char {
    if 'a' <= c <= 'z' {
        (c as u32 - 32) as char
    } else {
        c
    }
}

/// `char::to_uppercase` of the standard library: the upper-case form of a character, which can be
/// more than one. The contract claims that it depends on the character alone, and says which it is
/// for ASCII characters.
#[verifier::external_body]
fn upper(c: char) -> (text: String)
    ensures
        text@ == uppercase(c),
        c <= '\u{7f}' ==> text@ == seq![ascii_uppercase(c)],
{
    c.to_uppercase().to_string()
}

/// A text with its first character in upper case.
pub open spec fn capitalized(text: Seq<char>) -> Seq<char> {
    if text.len() == 0 {
        text
    } else {
        uppercase(text[0]) + text.skip(1)
    }
}

/// Puts the first character of a text in upper case.
pub fn capitalize_first(text: String) -> (result: String)
    ensures
        result@ == capitalized(text@),
        text@.len() > 0 && text@[0] <= '\u{7f}' ==> result@ == seq![ascii_uppercase(text@[0])]
            + text@.skip(1),
{
    let chars = to_chars(text.as_str());
    if chars.len() == 0 {
        return text;
    }
    let mut result = upper(chars[0]);
    let rest = from_chars(&chars, 1, chars.len());
    result.append(rest.as_str());
    assert(rest@ =~= text@.skip(1));
    result
}

/// The ending of a noun for a number of things.
pub open spec fn plural(count: nat) -> Seq<char> {
    if count == 1 {
        ""@
    } else {
        "s"@
    }
}

/// What is said of a number of calls of one kind: nothing where there were none.
pub open spec fn summary_item(count: nat, verb: Seq<char>, noun: Seq<char>) -> Option<Seq<char>> {
    if count == 0 {
        None
    } else {
        Some(verb + " "@ + decimal(count) + " "@ + noun + plural(count))
    }
}

/// What is said of each kind of call but agents.
pub open spec fn summary_items(activity: Activity) -> Seq<Option<Seq<char>>> {
    seq![
        summary_item(activity.searched_patterns, "Searched for"@, "pattern"@),
        summary_item(activity.searched_file_patterns, "Searched for"@, "file pattern"@),
        summary_item(activity.read_files, "read"@, "file"@),
        summary_item(activity.shell_commands, "ran"@, "shell command"@),
        summary_item(activity.edited_files, "edited"@, "file"@),
        summary_item(activity.wrote_files, "wrote"@, "file"@),
        summary_item(activity.fetched_urls, "fetched"@, "URL"@),
        summary_item(activity.web_searches, "searched"@, "web"@),
        summary_item(activity.other_tools, "called"@, "tool"@),
    ]
}

/// What is said of a number of agents.
pub open spec fn dispatched(agents: nat) -> Seq<char> {
    "dispatched "@ + decimal(agents) + " agent"@ + plural(agents)
}

/// What is said of the agents: nothing where there were none.
pub open spec fn agent_text(activity: Activity) -> Option<Seq<char>> {
    if activity.agents == 0 {
        None
    } else if activity.direct_subagent_id is Some {
        if activity.agent_descriptions.len() == 1 {
            Some("[→ subagent] "@ + activity.agent_descriptions[0])
        } else {
            Some("[→ subagent] dispatched agent"@)
        }
    } else if activity.linked_agents == 0 {
        if activity.agents == 1 && activity.agent_descriptions.len() == 1 {
            Some("dispatched agent: "@ + activity.agent_descriptions[0])
        } else {
            Some(dispatched(activity.agents))
        }
    } else if activity.linked_agents == activity.agents {
        Some(dispatched(activity.agents))
    } else {
        Some(
            decimal(activity.linked_agents) + " linked agent"@ + plural(activity.linked_agents)
                + " ("@ + decimal(activity.agents) + " dispatched)"@,
        )
    }
}

/// The style of what is said of other calls than agents.
pub open spec fn dim_style(theme: Theme) -> LineStyle {
    LineStyle { fg: Some(theme.tool_text), bold: false, dimmed: true }
}

/// The style of what is said of agents.
pub open spec fn accent_style(theme: Theme) -> LineStyle {
    LineStyle { fg: Some(theme.accent), bold: false, dimmed: false }
}

/// A text with its first letter in upper case, where that is an ASCII letter.
pub open spec fn sentence(text: Seq<char>) -> Seq<char> {
    if text.len() == 0 {
        text
    } else {
        seq![ascii_uppercase(text[0])] + text.skip(1)
    }
}

/// The spans of a summary: first the other calls, then the agents.
pub open spec fn spans(activity: Activity, theme: Theme) -> Seq<(Seq<char>, LineStyle)> {
    let items = present(summary_items(activity));
    let agent = agent_text(activity);
    let first = if items.len() == 0 {
        seq![]
    } else {
        let text = sentence(joined(items, ", "@));
        seq![
            (
                if agent is Some {
                    text + ", "@
                } else {
                    text
                },
                dim_style(theme),
            ),
        ]
    };
    let second = match agent {
        Some(text) => seq![
            (
                if items.len() == 0 {
                    sentence(text)
                } else {
                    text
                },
                accent_style(theme),
            ),
        ],
        None => seq![],
    };
    first + second
}

/// Appends the ending of a noun for a number of things.
fn push_plural(text: &mut String, count: usize)
    ensures
        final(text)@ == old(text)@ + plural(count as nat),
{
    if count == 1 {
        text.append("");
    } else {
        text.append("s");
    }
}

/// Appends what is said of a number of calls of one kind.
pub fn push_summary_item(parts: &mut Vec<String>, count: usize, verb: &str, noun: &str)
    ensures
        texts(final(parts)@) == (match summary_item(count as nat, verb@, noun@) {
            Some(item) => texts(old(parts)@).push(item),
            None => texts(old(parts)@),
        }),
{
    if count == 0 {
        return ;
    }
    let mut item = String::new();
    item.append(verb);
    item.append(" ");
    push_decimal(&mut item, count as u128);
    item.append(" ");
    item.append(noun);
    push_plural(&mut item, count);
    let ghost text = item@;
    assert(text =~= verb@ + " "@ + decimal(count as nat) + " "@ + noun@ + plural(count as nat));
    parts.push(item);
    assert(texts(parts@) =~= texts(old(parts)@).push(text));
}

/// What is said of a number of agents.
fn format_dispatched(agents: usize) -> (text: String)
    ensures
        text@ == dispatched(agents as nat),
{
    let mut text = String::new();
    text.append("dispatched ");
    push_decimal(&mut text, agents as u128);
    text.append(" agent");
    push_plural(&mut text, agents);
    assert(text@ =~= dispatched(agents as nat));
    text
}

proof fn lemma_present_step(items: Seq<Option<Seq<char>>>, i: int)
    requires
        0 <= i < items.len(),
    ensures
        present(items.take(i + 1)) == (match items[i] {
            Some(text) => present(items.take(i)).push(text),
            None => present(items.take(i)),
        }),
{
    assert(items.take(i + 1).drop_last() =~= items.take(i));
}

/// Whether a text starts with an ASCII character.
spec fn starts_ascii(text: Seq<char>) -> bool {
    text.len() > 0 && text[0] <= '\u{7f}'
}

proof fn lemma_present_starts(items: Seq<Option<Seq<char>>>)
    requires
        forall|i: int|
            0 <= i < items.len() && #[trigger] items[i] is Some ==> starts_ascii(items[i]->0),
    ensures
        forall|k: int| 0 <= k < present(items).len() ==> starts_ascii(#[trigger] present(items)[k]),
    decreases items.len(),
{
    if items.len() > 0 {
        let rest = items.drop_last();
        assert forall|i: int| 0 <= i < rest.len() && #[trigger] rest[i] is Some implies starts_ascii(
            rest[i]->0,
        ) by {
            assert(rest[i] == items[i]);
        }
        lemma_present_starts(rest);
        let last = items[items.len() - 1];
        let before = present(rest);
        let now = present(items);
        assert(now == match last {
            Some(text) => before.push(text),
            None => before,
        });
        assert forall|k: int| 0 <= k < now.len() implies starts_ascii(#[trigger] now[k]) by {
            if k < before.len() {
                assert(now[k] == before[k]);
            } else {
                assert(last is Some);
            }
        }
    }
}

proof fn lemma_joined_start(parts: Seq<Seq<char>>, sep: Seq<char>)
    requires
        parts.len() > 0,
        starts_ascii(parts[0]),
    ensures
        starts_ascii(joined(parts, sep)),
    decreases parts.len(),
{
    if parts.len() > 1 {
        lemma_joined_start(parts.drop_last(), sep);
    }
}

proof fn lemma_item_starts(count: nat, verb: Seq<char>, noun: Seq<char>)
    requires
        starts_ascii(verb),
    ensures
        summary_item(count, verb, noun) is Some ==> starts_ascii(
            summary_item(count, verb, noun)->0,
        ),
{
    if count > 0 {
        assert(summary_item(count, verb, noun)->0[0] == verb[0]);
    }
}

/// What a summary says of other calls than agents starts with an ASCII character.
proof fn lemma_items_start(activity: Activity)
    ensures
        present(summary_items(activity)).len() > 0 ==> starts_ascii(
            joined(present(summary_items(activity)), ", "@),
        ),
{
    reveal_strlit("Searched for");
    reveal_strlit("read");
    reveal_strlit("ran");
    reveal_strlit("edited");
    reveal_strlit("wrote");
    reveal_strlit("fetched");
    reveal_strlit("searched");
    reveal_strlit("called");
    lemma_item_starts(activity.searched_patterns, "Searched for"@, "pattern"@);
    lemma_item_starts(activity.searched_file_patterns, "Searched for"@, "file pattern"@);
    lemma_item_starts(activity.read_files, "read"@, "file"@);
    lemma_item_starts(activity.shell_commands, "ran"@, "shell command"@);
    lemma_item_starts(activity.edited_files, "edited"@, "file"@);
    lemma_item_starts(activity.wrote_files, "wrote"@, "file"@);
    lemma_item_starts(activity.fetched_urls, "fetched"@, "URL"@);
    lemma_item_starts(activity.web_searches, "searched"@, "web"@);
    lemma_item_starts(activity.other_tools, "called"@, "tool"@);
    let items = summary_items(activity);
    lemma_present_starts(items);
    if present(items).len() > 0 {
        lemma_joined_start(present(items), ", "@);
    }
}

/// What a summary says of agents starts with an ASCII character.
proof fn lemma_agent_text_starts(activity: Activity)
    ensures
        agent_text(activity) matches Some(text) ==> starts_ascii(text),
{
    reveal_strlit("dispatched ");
    reveal_strlit("dispatched agent: ");
    reveal_strlit("[→ subagent] ");
    reveal_strlit("[→ subagent] dispatched agent");
    lemma_decimal_digits(activity.linked_agents);
    if let Some(text) = agent_text(activity) {
        let digits = decimal(activity.linked_agents);
        if activity.direct_subagent_id is None && activity.linked_agents != 0
            && activity.linked_agents != activity.agents {
            assert(text[0] == digits[0]);
        }
    }
}

impl Tally {
    /// What is said of each kind of call but agents.
    fn summary_parts(&self) -> (parts: Vec<String>)
        ensures
            texts(parts@) == present(summary_items(self@)),
    {
        let ghost all = summary_items(self@);
        let mut parts: Vec<String> = Vec::new();
        assert(texts(parts@) =~= present(all.take(0)));
        proof {
            lemma_present_step(all, 0);
            lemma_present_step(all, 1);
            lemma_present_step(all, 2);
            lemma_present_step(all, 3);
            lemma_present_step(all, 4);
            lemma_present_step(all, 5);
            lemma_present_step(all, 6);
            lemma_present_step(all, 7);
            lemma_present_step(all, 8);
        }
        push_summary_item(&mut parts, self.searched_patterns, "Searched for", "pattern");
        push_summary_item(&mut parts, self.searched_file_patterns, "Searched for", "file pattern");
        push_summary_item(&mut parts, self.read_files, "read", "file");
        push_summary_item(&mut parts, self.shell_commands, "ran", "shell command");
        push_summary_item(&mut parts, self.edited_files, "edited", "file");
        push_summary_item(&mut parts, self.wrote_files, "wrote", "file");
        push_summary_item(&mut parts, self.fetched_urls, "fetched", "URL");
        push_summary_item(&mut parts, self.web_searches, "searched", "web");
        push_summary_item(&mut parts, self.other_tools, "called", "tool");
        assert(all.take(9) =~= all);
        parts
    }

    /// What is said of the agents.
    fn agent_part(&self) -> (text: Option<String>)
        ensures
            opt_text(text) == agent_text(self@),
    {
        if self.agents == 0 {
            None
        } else if self.direct_subagent_id.is_some() {
            if self.agent_descriptions.len() == 1 {
                Some("[→ subagent] ".to_owned().concat(self.agent_descriptions[0].as_str()))
            } else {
                Some("[→ subagent] dispatched agent".to_owned())
            }
        } else if self.linked_agents == 0 {
            if self.agents == 1 && self.agent_descriptions.len() == 1 {
                Some("dispatched agent: ".to_owned().concat(self.agent_descriptions[0].as_str()))
            } else {
                Some(format_dispatched(self.agents))
            }
        } else if self.linked_agents == self.agents {
            Some(format_dispatched(self.agents))
        } else {
            let mut text = String::new();
            push_decimal(&mut text, self.linked_agents as u128);
            text.append(" linked agent");
            push_plural(&mut text, self.linked_agents);
            text.append(" (");
            push_decimal(&mut text, self.agents as u128);
            text.append(" dispatched)");
            assert(text@ =~= agent_text(self@)->0);
            Some(text)
        }
    }
}

impl ToolActivitySummary {
    /// The spans of the summary.
    pub fn styled_spans(&self, theme: &Theme) -> (list: Vec<(String, LineStyle)>)
        ensures
            spans_of(list@) == spans(self@, *theme),
    {
        let dim = LineStyle { fg: Some(theme.tool_text), bold: false, dimmed: true };
        let accent = LineStyle { fg: Some(theme.accent), bold: false, dimmed: false };
        let parts = self.tally.summary_parts();
        let agent = self.tally.agent_part();
        proof {
            lemma_items_start(self@);
            lemma_agent_text_starts(self@);
        }
        let mut list: Vec<(String, LineStyle)> = Vec::new();
        if parts.len() > 0 {
            let mut text = capitalize_first(join(&parts, ", "));
            if agent.is_some() {
                text.append(", ");
            }
            list.push((text, dim));
        }
        if let Some(text) = agent {
            let text = if parts.len() == 0 {
                capitalize_first(text)
            } else {
                text
            };
            list.push((text, accent));
        }
        assert(spans_of(list@) =~= spans(self@, *theme));
        list
    }
}

} // verus!
