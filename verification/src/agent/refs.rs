//! References to conversations and to ranges of their messages.

use vstd::prelude::*;

verus! {

/// The messages of a conversation whose ordinals lie between two bounds, both included.
#[derive(Clone, Copy, Debug, PartialEq, Eq, Structural)]
pub struct MessageRange {
    pub start: usize,
    pub end: usize,
}

impl MessageRange {
    /// Whether the range holds an ordinal.
    pub open spec fn holds(self, ordinal: usize) -> bool {
        self.start <= ordinal <= self.end
    }

    /// The range of one message.
    pub fn single(ordinal: usize) -> (range: MessageRange)
        ensures
            range.start == ordinal,
            range.end == ordinal,
    {
        MessageRange { start: ordinal, end: ordinal }
    }

    /// Whether the range holds an ordinal.
    pub fn contains(&self, ordinal: usize) -> (r: bool)
        ensures
            r == self.holds(ordinal),
    {
        self.start <= ordinal && ordinal <= self.end
    }
}

/// The names under which a conversation can be asked for.
#[derive(Clone, Debug)]
pub struct AgentConversationRef {
    /// The identifier of the session.
    pub uuid: String,
    /// The reference that output shows.
    pub canonical: String,
    /// The reference that no other conversation has.
    pub full_ref: String,
}

/// Where a conversation is kept.
#[derive(Clone, Debug)]
pub struct AgentConversationKey {
    /// The name of the session's file.
    pub session_filename: String,
}

/// A conversation that a reference was resolved to.
#[derive(Clone, Debug)]
pub struct ResolvedConversation {
    pub reference: AgentConversationRef,
    pub key: AgentConversationKey,
}

} // verus!
