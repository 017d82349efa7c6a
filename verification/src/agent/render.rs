//! From messages to the bodies that output shows.

use crate::agent::refs::{MessageRange, ResolvedConversation};
use crate::agent::transcript::{AgentMessage, AgentMessagePart, AgentMessageRole, AgentTranscript};
use crate::error::{AppError, Result};
use crate::json::{tool_result, tool_result_text};
use crate::text::{blank, decimal, is_blank, join, joined, push_decimal, texts};
use vstd::prelude::*;
use vstd::string::*;

verus! {

/// What output shows, and how long it may be.
#[derive(Clone, Copy, Debug, PartialEq, Eq, Structural)]
pub struct ProtocolOptions {
    /// The most characters that output may have.
    pub budget: Option<usize>,
    /// Whether calls of tools are shown.
    pub tools: bool,
    /// Whether what tools handed back is shown.
    pub tool_results: bool,
    /// Whether thoughts are shown.
    pub thinking: bool,
    /// Whether messages of subagents are shown.
    pub subagents: bool,
}

/// A message with the body that output shows for it.
#[derive(Clone, Debug)]
pub struct RenderedMessage<'a> {
    pub conversation: &'a ResolvedConversation,
    pub message: &'a AgentMessage,
    pub body: String,
}

/// What output needs of a rendered message.
pub struct Entry {
    pub uuid: Seq<char>,
    pub canonical: Seq<char>,
    pub full_ref: Seq<char>,
    pub path: Seq<char>,
    pub ordinal: usize,
    pub role: AgentMessageRole,
    pub line: usize,
    pub body: Seq<char>,
}

impl<'a> View for RenderedMessage<'a> {
    type V = Entry;

    open spec fn view(&self) -> Entry {
        entry_of(*self.conversation, *self.message, self.body@)
    }
}

/// The entry for a message of a conversation with a given body.
pub open spec fn entry_of(
    conversation: ResolvedConversation,
    message: AgentMessage,
    body: Seq<char>,
) -> Entry {
    Entry {
        uuid: conversation.reference.uuid@,
        canonical: conversation.reference.canonical@,
        full_ref: conversation.reference.full_ref@,
        path: conversation.key.session_filename@,
        ordinal: message.ordinal,
        role: message.role,
        line: message.jsonl_line,
        body,
    }
}

/// The entries for a list of rendered messages.
pub open spec fn entries_of(messages: Seq<RenderedMessage>) -> Seq<Entry> {
    Seq::new(messages.len(), |i: int| messages[i]@)
}

/// The text that a part adds to its message, where the options show the part.
pub open spec fn part_text(part: AgentMessagePart, options: ProtocolOptions) -> Option<Seq<char>> {
    match part {
        AgentMessagePart::Text { text } => Some(text@),
        AgentMessagePart::ToolUse { id, name, summary } => if options.tools {
            Some(summary@)
        } else {
            None
        },
        AgentMessagePart::ToolResult { tool_use_id, content } => match content {
            Some(content) => if options.tool_results {
                Some(tool_result(content))
            } else {
                None
            },
            None => None,
        },
        AgentMessagePart::Thinking { thinking } => if options.thinking {
            Some("thinking: "@ + thinking@)
        } else {
            None
        },
    }
}

/// The texts that the shown parts of a message add, in order. Blank ones add nothing.
pub open spec fn shown(parts: Seq<AgentMessagePart>, options: ProtocolOptions) -> Seq<Seq<char>>
    decreases parts.len(),
{
    if parts.len() == 0 {
        seq![]
    } else {
        let before = shown(parts.drop_last(), options);
        match part_text(parts.last(), options) {
            Some(text) => if blank(text) {
                before
            } else {
                before.push(text)
            },
            None => before,
        }
    }
}

/// The body that output shows for a message.
pub open spec fn message_body(message: AgentMessage, options: ProtocolOptions) -> Seq<char> {
    joined(shown(message.parts@, options), "\n"@)
}

/// Whether output shows a message: not one of a subagent, unless asked for, and not one without a
/// body.
pub open spec fn visible(message: AgentMessage, options: ProtocolOptions) -> bool {
    &&& message.parent_tool_use_id is Some ==> options.subagents
    &&& message_body(message, options).len() > 0
}

/// The entries for the visible ones of a list of messages, in order.
pub open spec fn visible_entries(
    conversation: ResolvedConversation,
    messages: Seq<AgentMessage>,
    options: ProtocolOptions,
) -> Seq<Entry>
    decreases messages.len(),
{
    if messages.len() == 0 {
        seq![]
    } else {
        let before = visible_entries(conversation, messages.drop_last(), options);
        if visible(messages.last(), options) {
            before.push(
                entry_of(conversation, messages.last(), message_body(messages.last(), options)),
            )
        } else {
            before
        }
    }
}

/// Whether a range, where there is one, holds an ordinal.
pub open spec fn range_holds(range: Option<MessageRange>, ordinal: usize) -> bool {
    match range {
        Some(range) => range.holds(ordinal),
        None => true,
    }
}

/// The messages whose ordinals a range holds, in order.
pub open spec fn in_range(messages: Seq<AgentMessage>, range: Option<MessageRange>) -> Seq<
    AgentMessage,
>
    decreases messages.len(),
{
    if messages.len() == 0 {
        seq![]
    } else {
        let before = in_range(messages.drop_last(), range);
        if range_holds(range, messages.last().ordinal) {
            before.push(messages.last())
        } else {
            before
        }
    }
}

/// Whether a range ends within a transcript.
pub open spec fn range_fits(transcript: AgentTranscript, range: Option<MessageRange>) -> bool {
    match range {
        Some(range) => range.end <= transcript.messages@.len(),
        None => true,
    }
}

/// What is said of a range that ends behind its transcript.
pub open spec fn range_complaint(range: MessageRange, max: nat) -> Seq<char> {
    "message range m"@ + decimal(range.start as nat) + "..m"@ + decimal(range.end as nat)
        + " exceeds transcript length m"@ + decimal(max)
}

/// The messages behind a list of references.
pub open spec fn pointees(messages: Seq<&AgentMessage>) -> Seq<AgentMessage> {
    Seq::new(messages.len(), |i: int| *messages[i])
}

/// The messages of a transcript whose ordinals a range holds.
pub fn selected_messages(transcript: &AgentTranscript, range: Option<MessageRange>) -> (selected:
    Result<Vec<&AgentMessage>>)
    ensures
        selected is Ok <==> range_fits(*transcript, range),
        selected matches Ok(list) ==> pointees(list@) == in_range(transcript.messages@, range),
        selected matches Err(error) ==> error matches AppError::ConfigError(text) && text@
            == range_complaint(range->0, transcript.messages@.len()),
{
    let max = transcript.messages.len();
    if let Some(range) = range {
        if range.end > max {
            let mut text = String::new();
            text.append("message range m");
            push_decimal(&mut text, range.start as u128);
            text.append("..m");
            push_decimal(&mut text, range.end as u128);
            text.append(" exceeds transcript length m");
            push_decimal(&mut text, max as u128);
            assert(text@ =~= range_complaint(range, max as nat));
            return Err(AppError::ConfigError(text));
        }
    }
    let mut list: Vec<&AgentMessage> = Vec::new();
    let ghost all = transcript.messages@;
    let mut i: usize = 0;
    assert(pointees(list@) =~= in_range(all.take(0), range));
    while i < transcript.messages.len()
        invariant
            i <= transcript.messages@.len(),
            all == transcript.messages@,
            pointees(list@) == in_range(all.take(i as int), range),
        decreases transcript.messages@.len() - i,
    {
        assert(all.take(i + 1).drop_last() =~= all.take(i as int));
        let message = &transcript.messages[i];
        let held = match range {
            Some(range) => range.contains(message.ordinal),
            None => true,
        };
        let ghost before = pointees(list@);
        if held {
            list.push(message);
            assert(pointees(list@) =~= before.push(*message));
        }
        i = i + 1;
    }
    assert(all.take(all.len() as int) =~= all);
    Ok(list)
}

/// The text that a part adds to its message, where the options show the part.
fn shown_part(part: &AgentMessagePart, options: ProtocolOptions) -> (text: Option<String>)
    ensures
        crate::json::opt_text(text) == part_text(*part, options),
{
    match part {
        AgentMessagePart::Text { text } => Some(text.clone()),
        AgentMessagePart::ToolUse { id: _, name: _, summary } => if options.tools {
            Some(summary.clone())
        } else {
            None
        },
        AgentMessagePart::ToolResult { tool_use_id: _, content } => match content {
            Some(content) => if options.tool_results {
                Some(tool_result_text(content))
            } else {
                None
            },
            None => None,
        },
        AgentMessagePart::Thinking { thinking } => if options.thinking {
            Some("thinking: ".to_owned().concat(thinking.as_str()))
        } else {
            None
        },
    }
}

/// Renders a message, where output shows it.
pub fn render_message<'a>(
    conversation: &'a ResolvedConversation,
    message: &'a AgentMessage,
    options: ProtocolOptions,
) -> (rendered: Option<RenderedMessage<'a>>)
    ensures
        rendered is Some <==> visible(*message, options),
        rendered matches Some(rendered) ==> {
            &&& rendered.conversation == conversation
            &&& rendered.message == message
            &&& rendered.body@ == message_body(*message, options)
        },
{
    if message.parent_tool_use_id.is_some() && !options.subagents {
        return None;
    }
    let mut parts: Vec<String> = Vec::new();
    let ghost all = message.parts@;
    let mut i: usize = 0;
    assert(texts(parts@) =~= shown(all.take(0), options));
    while i < message.parts.len()
        invariant
            i <= message.parts@.len(),
            all == message.parts@,
            texts(parts@) == shown(all.take(i as int), options),
        decreases message.parts@.len() - i,
    {
        assert(all.take(i + 1).drop_last() =~= all.take(i as int));
        let ghost before = texts(parts@);
        if let Some(text) = shown_part(&message.parts[i], options) {
            if !is_blank(text.as_str()) {
                parts.push(text);
                assert(texts(parts@) =~= before.push(text@));
            }
        }
        i = i + 1;
    }
    assert(all.take(all.len() as int) =~= all);
    let body = join(&parts, "\n");
    if body.as_str().is_empty() {
        None
    } else {
        Some(RenderedMessage { conversation, message, body })
    }
}

/// Appends the visible ones of a list of messages, rendered.
pub fn render_all<'a>(
    rendered: &mut Vec<RenderedMessage<'a>>,
    conversation: &'a ResolvedConversation,
    messages: &Vec<&'a AgentMessage>,
    options: ProtocolOptions,
)
    ensures
        entries_of(final(rendered)@) == entries_of(old(rendered)@) + visible_entries(
            *conversation,
            pointees(messages@),
            options,
        ),
{
    let ghost all = pointees(messages@);
    let ghost start = entries_of(rendered@);
    let mut i: usize = 0;
    assert(entries_of(rendered@) =~= start + visible_entries(*conversation, all.take(0), options));
    while i < messages.len()
        invariant
            i <= messages@.len(),
            all == pointees(messages@),
            entries_of(rendered@) == start + visible_entries(
                *conversation,
                all.take(i as int),
                options,
            ),
        decreases messages@.len() - i,
    {
        assert(all.take(i + 1).drop_last() =~= all.take(i as int));
        let ghost before = entries_of(rendered@);
        if let Some(one) = render_message(conversation, messages[i], options) {
            let ghost view = one@;
            rendered.push(one);
            assert(entries_of(rendered@) =~= before.push(view));
        }
        assert(entries_of(rendered@) =~= start + visible_entries(
            *conversation,
            all.take(i + 1),
            options,
        ));
        i = i + 1;
    }
    assert(all.take(all.len() as int) =~= all);
}

proof fn lemma_hidden_part(parts: Seq<AgentMessagePart>, k: int, options: ProtocolOptions)
    requires
        0 <= k < parts.len(),
        part_text(parts[k], options) is None,
    ensures
        shown(parts.remove(k), options) == shown(parts, options),
    decreases parts.len(),
{
    let fewer = parts.remove(k);
    if k == parts.len() - 1 {
        assert(fewer =~= parts.drop_last());
    } else {
        lemma_hidden_part(parts.drop_last(), k, options);
        assert(fewer.drop_last() =~= parts.drop_last().remove(k));
        assert(fewer.last() == parts.last());
    }
}

/// A part that the options do not show leaves no trace: without it the message has the same body and
/// is as visible as with it. So it is for tool calls, tool results and thoughts unless the options
/// ask for them.
pub proof fn law_hidden_parts_leave_no_trace(
    message: AgentMessage,
    other: AgentMessage,
    k: int,
    options: ProtocolOptions,
)
    requires
        0 <= k < message.parts@.len(),
        other.parts@ == message.parts@.remove(k),
        other.parent_tool_use_id is Some == message.parent_tool_use_id is Some,
        ({
            ||| message.parts@[k] is ToolUse && !options.tools
            ||| message.parts@[k] is ToolResult && !options.tool_results
            ||| message.parts@[k] is Thinking && !options.thinking
        }),
    ensures
        message_body(other, options) == message_body(message, options),
        visible(other, options) == visible(message, options),
{
    lemma_hidden_part(message.parts@, k, options);
}

/// A message of a subagent leaves no trace in output that does not ask for subagents.
pub proof fn law_subagent_messages_are_hidden(
    conversation: ResolvedConversation,
    messages: Seq<AgentMessage>,
    k: int,
    options: ProtocolOptions,
)
    requires
        0 <= k < messages.len(),
        messages[k].parent_tool_use_id is Some,
        !options.subagents,
    ensures
        visible_entries(conversation, messages.remove(k), options) == visible_entries(
            conversation,
            messages,
            options,
        ),
    decreases messages.len(),
{
    let fewer = messages.remove(k);
    if k == messages.len() - 1 {
        assert(fewer =~= messages.drop_last());
    } else {
        law_subagent_messages_are_hidden(conversation, messages.drop_last(), k, options);
        assert(fewer.drop_last() =~= messages.drop_last().remove(k));
        assert(fewer.last() == messages.last());
    }
}

} // verus!
