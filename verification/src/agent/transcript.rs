//! Transcripts, as agents see them.

use vstd::prelude::*;

verus! {

/// Who wrote a message.
#[derive(Clone, Copy, Debug, PartialEq, Eq, Structural)]
pub enum AgentMessageRole {
    User,
    Assistant,
}

/// One part of a message.
#[derive(Clone, Debug)]
pub enum AgentMessagePart {
    /// Plain text.
    Text { text: String },
    /// A call of a tool, with the bounded summary that stands for its input.
    ToolUse { id: String, name: String, summary: String },
    /// What a tool handed back.
    ToolResult { tool_use_id: String, content: Option<serde_json::Value> },
    /// What the assistant thought.
    Thinking { thinking: String },
}

/// One message of a transcript.
#[derive(Clone, Debug)]
pub struct AgentMessage {
    /// The number of the message in its transcript.
    pub ordinal: usize,
    /// The line of the session's file that the message was read from.
    pub jsonl_line: usize,
    pub role: AgentMessageRole,
    /// The tool call that the message belongs to, where a subagent wrote it.
    pub parent_tool_use_id: Option<String>,
    pub parts: Vec<AgentMessagePart>,
}

/// The messages of a conversation.
#[derive(Clone, Debug)]
pub struct AgentTranscript {
    pub messages: Vec<AgentMessage>,
}

} // verus!
