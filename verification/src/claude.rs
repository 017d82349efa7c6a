//! The entries of a session's log.

use vstd::prelude::*;

verus! {

/// One block of a message.
#[derive(Debug)]
pub enum ContentBlock {
    Text { text: String },
    /// A call of a tool.
    ToolUse { id: String, name: String, input: serde_json::Value },
    /// What a tool handed back.
    ToolResult { tool_use_id: String, content: Option<serde_json::Value> },
    Thinking { thinking: String },
    /// A block of another kind.
    Other,
}

/// What a user's message holds.
#[derive(Debug)]
pub enum UserContent {
    Text(String),
    Blocks(Vec<ContentBlock>),
}

/// A message of a user.
#[derive(Debug)]
pub struct UserMessage {
    pub content: UserContent,
}

/// A message of the assistant.
#[derive(Debug)]
pub struct AssistantMessage {
    pub content: Vec<ContentBlock>,
}

/// One entry of the log.
#[allow(inconsistent_fields)]
#[derive(Debug)]
pub enum LogEntry {
    User {
        message: UserMessage,
        timestamp: Option<String>,
        /// The tool call that the entry belongs to, where it is a subagent's.
        parent_tool_use_id: Option<String>,
    },
    Assistant {
        message: AssistantMessage,
        timestamp: Option<String>,
        parent_tool_use_id: Option<String>,
    },
    /// An entry of another kind.
    Other,
}

} // verus!
