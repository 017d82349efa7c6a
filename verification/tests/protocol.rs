use claude_history::agent::atoms::{escape_atom, snippet, SNIPPET_LIMIT};
use claude_history::agent::protocol::{format_outline, format_read, ReadRequest};
use claude_history::agent::refs::{
    AgentConversationKey, AgentConversationRef, MessageRange, ResolvedConversation,
};
use claude_history::agent::render::ProtocolOptions;
use claude_history::agent::select::ProtocolFocus;
use claude_history::agent::transcript::{
    AgentMessage, AgentMessagePart, AgentMessageRole, AgentTranscript,
};

fn resolved(filename: &str) -> ResolvedConversation {
    let stem = filename.strip_suffix(".jsonl").unwrap_or(filename);
    ResolvedConversation {
        reference: AgentConversationRef {
            uuid: stem.to_string(),
            canonical: format!("c:{stem}"),
            full_ref: format!("project with space/{filename}"),
        },
        key: AgentConversationKey {
            session_filename: filename.to_string(),
        },
    }
}

fn text_message(ordinal: usize, role: AgentMessageRole, text: &str) -> AgentMessage {
    AgentMessage {
        ordinal,
        jsonl_line: ordinal,
        role,
        parent_tool_use_id: None,
        parts: vec![AgentMessagePart::Text {
            text: text.to_string(),
        }],
    }
}

fn transcript(messages: Vec<AgentMessage>) -> AgentTranscript {
    AgentTranscript { messages }
}

fn options() -> ProtocolOptions {
    ProtocolOptions {
        budget: Some(6000),
        tools: false,
        tool_results: false,
        thinking: false,
        subagents: false,
    }
}

#[test]
fn escapes_header_atom_delimiters() {
    assert_eq!(escape_atom("a b%c=d|e\tf\ng"), "a%20b%25c%3Dd%7Ce%09f%0Ag");
}

#[test]
fn read_defaults_hide_non_text_parts_and_frame_body_lines() {
    let resolved = resolved("session file.jsonl");
    let mut message = text_message(1, AgentMessageRole::Assistant, "hello\nprotocol fake");
    message.parts.push(AgentMessagePart::ToolUse {
        id: "toolu_1".to_string(),
        name: "Bash".to_string(),
        summary: "tool Bash command=pwd".to_string(),
    });
    message.parts.push(AgentMessagePart::Thinking {
        thinking: "secret".to_string(),
    });
    let transcript = transcript(vec![message]);
    let output = format_read(
        &[ReadRequest {
            resolved: &resolved,
            transcript: &transcript,
            range: None,
        }],
        None,
        options(),
    )
    .unwrap();

    assert!(output.starts_with("protocol agent-read v=1 cut=none budget=6000\n"));
    assert!(output.contains("path=session%20file.jsonl"));
    assert!(output.contains("| hello\n| protocol fake\n"));
    assert!(!output.contains("pwd"));
    assert!(!output.contains("secret"));
    assert!(!output.contains("\x1b["));
}

#[test]
fn read_preserves_focus_when_budget_truncates() {
    let resolved = resolved("session.jsonl");
    let transcript = transcript(
        (1..=7)
            .map(|index| {
                text_message(
                    index,
                    AgentMessageRole::User,
                    &format!("message {index} with padding padding padding"),
                )
            })
            .collect(),
    );
    let output = format_read(
        &[ReadRequest {
            resolved: &resolved,
            transcript: &transcript,
            range: Some(MessageRange { start: 1, end: 7 }),
        }],
        Some(ProtocolFocus {
            conversation_full_ref: None,
            range: MessageRange::single(4),
        }),
        ProtocolOptions {
            budget: Some(260),
            ..options()
        },
    )
    .unwrap();

    assert!(output.starts_with("protocol agent-read v=1 cut=head+focus+tail budget=260\n"));
    assert!(output.contains("message m4 role=user"));
    assert!(output.contains("message 4 with padding"));
}

#[test]
fn focused_read_output_stays_within_budget() {
    let resolved = resolved("session.jsonl");
    let transcript = transcript(
        (1..=3)
            .map(|index| {
                text_message(
                    index,
                    AgentMessageRole::User,
                    &format!("focused message {index} {}", "padding ".repeat(8)),
                )
            })
            .collect(),
    );
    let budget = 250;

    let output = format_read(
        &[ReadRequest {
            resolved: &resolved,
            transcript: &transcript,
            range: Some(MessageRange { start: 1, end: 3 }),
        }],
        Some(ProtocolFocus {
            conversation_full_ref: None,
            range: MessageRange { start: 1, end: 3 },
        }),
        ProtocolOptions {
            budget: Some(budget),
            ..options()
        },
    )
    .unwrap();

    assert!(output.chars().count() <= budget);
    assert!(output.contains("message m1 role=user"));
    assert!(!output.contains("message m3 role=user"));
}

#[test]
fn single_focused_message_exceeding_budget_errors() {
    let resolved = resolved("session.jsonl");
    let transcript = transcript(vec![text_message(
        1,
        AgentMessageRole::User,
        &"oversized ".repeat(40),
    )]);

    let error = format_read(
        &[ReadRequest {
            resolved: &resolved,
            transcript: &transcript,
            range: None,
        }],
        Some(ProtocolFocus {
            conversation_full_ref: None,
            range: MessageRange::single(1),
        }),
        ProtocolOptions {
            budget: Some(120),
            ..options()
        },
    )
    .unwrap_err();

    assert!(error.message().contains("focus range exceeds budget"));
}

#[test]
fn no_budget_read_emits_full_output_with_no_cut() {
    let resolved = resolved("session.jsonl");
    let transcript = transcript(vec![
        text_message(1, AgentMessageRole::User, "one"),
        text_message(2, AgentMessageRole::Assistant, "two"),
    ]);
    let output = format_read(
        &[ReadRequest {
            resolved: &resolved,
            transcript: &transcript,
            range: None,
        }],
        None,
        ProtocolOptions {
            budget: None,
            ..options()
        },
    )
    .unwrap();

    assert!(output.starts_with("protocol agent-read v=1 cut=none budget=none\n"));
    assert!(output.contains("message m1 role=user"));
    assert!(output.contains("message m2 role=assistant"));
}

#[test]
fn non_focused_oversized_read_respects_budget_with_header_only_cut() {
    let resolved = resolved("session.jsonl");
    let transcript = transcript(vec![text_message(
        1,
        AgentMessageRole::User,
        &"x".repeat(500),
    )]);
    let output = format_read(
        &[ReadRequest {
            resolved: &resolved,
            transcript: &transcript,
            range: None,
        }],
        None,
        ProtocolOptions {
            budget: Some(80),
            ..options()
        },
    )
    .unwrap();

    assert_eq!(output, "protocol agent-read v=1 cut=tail budget=80\n");
}

#[test]
fn qualified_focus_only_matches_target_conversation() {
    let first = resolved("first.jsonl");
    let second = resolved("second.jsonl");
    let first_transcript = transcript(vec![
        text_message(1, AgentMessageRole::User, "first one padding padding"),
        text_message(2, AgentMessageRole::User, "first two padding padding"),
    ]);
    let second_transcript = transcript(vec![
        text_message(1, AgentMessageRole::User, "second one padding padding"),
        text_message(2, AgentMessageRole::User, "second two padding padding"),
    ]);
    let output = format_read(
        &[
            ReadRequest {
                resolved: &first,
                transcript: &first_transcript,
                range: None,
            },
            ReadRequest {
                resolved: &second,
                transcript: &second_transcript,
                range: None,
            },
        ],
        Some(ProtocolFocus {
            conversation_full_ref: Some(second.reference.full_ref.clone()),
            range: MessageRange::single(2),
        }),
        ProtocolOptions {
            budget: Some(190),
            ..options()
        },
    )
    .unwrap();

    assert!(output.contains("second two padding padding"));
    assert!(!output.contains("first two padding padding"));
}

#[test]
fn snippet_truncates_to_eighty_characters() {
    assert_eq!(snippet(&"a".repeat(100)).chars().count(), SNIPPET_LIMIT);
}

#[test]
fn subagent_messages_are_hidden_by_default_and_visible_with_option() {
    let resolved = resolved("session.jsonl");
    let mut subagent = text_message(2, AgentMessageRole::Assistant, "subagent hidden text");
    subagent.parent_tool_use_id = Some("agent-abcdef".to_string());
    let transcript = transcript(vec![
        text_message(1, AgentMessageRole::User, "question"),
        subagent,
        text_message(3, AgentMessageRole::Assistant, "answer"),
    ]);

    let hidden = format_read(
        &[ReadRequest {
            resolved: &resolved,
            transcript: &transcript,
            range: None,
        }],
        None,
        options(),
    )
    .unwrap();
    let visible = format_read(
        &[ReadRequest {
            resolved: &resolved,
            transcript: &transcript,
            range: None,
        }],
        None,
        ProtocolOptions {
            subagents: true,
            ..options()
        },
    )
    .unwrap();

    assert!(!hidden.contains("subagent hidden text"));
    assert!(visible.contains("message m2 role=assistant"));
    assert!(visible.contains("subagent hidden text"));
}

#[test]
fn short_outline_emits_one_line_per_message() {
    let resolved = resolved("session.jsonl");
    let transcript = transcript(vec![
        text_message(1, AgentMessageRole::User, "one"),
        text_message(2, AgentMessageRole::Assistant, "two"),
    ]);
    let output = format_outline(&resolved, &transcript, options());

    assert!(output.contains("m1 role=user c~3 one\n"));
    assert!(output.contains("m2 role=assistant c~3 two\n"));
    assert!(!output.contains("seg "));
}

#[test]
fn long_outline_emits_deterministic_segments() {
    let resolved = resolved("session.jsonl");
    let transcript = transcript(
        (1..=21)
            .map(|index| {
                text_message(index, AgentMessageRole::User, &format!("message {index}"))
            })
            .collect(),
    );
    let output = format_outline(&resolved, &transcript, options());

    assert!(output.contains("seg m1..m10 c~91 message 1 / message 10\n"));
    assert!(output.contains("seg m11..m20 c~100 message 11 / message 20\n"));
    assert!(output.contains("seg m21..m21 c~10 message 21 / message 21\n"));
    assert!(!output.contains("summary"));
}

#[test]
fn phase3_default_read_excludes_tools() {
    let resolved = resolved("session-tools.jsonl");
    let mut message = text_message(1, AgentMessageRole::Assistant, "no tool output here");
    message.parts.push(AgentMessagePart::ToolUse {
        id: "toolu_x".to_string(),
        name: "Bash".to_string(),
        summary: "tool Bash command=should-not-appear".to_string(),
    });
    let transcript = transcript(vec![message]);
    let output = format_read(
        &[ReadRequest {
            resolved: &resolved,
            transcript: &transcript,
            range: None,
        }],
        None,
        options(),
    )
    .unwrap();

    assert!(
        !output.contains("should-not-appear"),
        "default read must hide tool input, got: {output}"
    );
}

#[test]
fn phase3_default_read_excludes_thinking() {
    let resolved = resolved("session-thinking.jsonl");
    let mut message = text_message(1, AgentMessageRole::Assistant, "body text only");
    message.parts.push(AgentMessagePart::Thinking {
        thinking: "secret-thought-must-not-leak".to_string(),
    });
    let transcript = transcript(vec![message]);
    let output = format_read(
        &[ReadRequest {
            resolved: &resolved,
            transcript: &transcript,
            range: None,
        }],
        None,
        options(),
    )
    .unwrap();

    assert!(
        !output.contains("secret-thought-must-not-leak"),
        "default read must hide thinking, got: {output}"
    );
}

#[test]
fn phase3_subagents_flag_gates_rendering() {
    let resolved = resolved("session-subagents-gate.jsonl");
    let mut message = text_message(
        1,
        AgentMessageRole::Assistant,
        "subagent-body-must-gate-on-flag",
    );
    message.parent_tool_use_id = Some("toolu_main".to_string());
    let transcript = transcript(vec![message]);

    let hidden = format_read(
        &[ReadRequest {
            resolved: &resolved,
            transcript: &transcript,
            range: None,
        }],
        None,
        options(),
    )
    .unwrap();
    assert!(
        !hidden.contains("subagent-body-must-gate-on-flag"),
        "default read must hide subagent body, got: {hidden}"
    );

    let mut opts = options();
    opts.subagents = true;
    let shown = format_read(
        &[ReadRequest {
            resolved: &resolved,
            transcript: &transcript,
            range: None,
        }],
        None,
        opts,
    )
    .unwrap();
    assert!(
        shown.contains("subagent-body-must-gate-on-flag"),
        "subagents: true must reveal subagent body, got: {shown}"
    );
}

#[test]
fn phase3_tools_flag_gates_rendering() {
    let resolved = resolved("session-tools-gate.jsonl");
    let mut message = text_message(1, AgentMessageRole::Assistant, "");
    message.parts.push(AgentMessagePart::ToolUse {
        id: "toolu_gate".to_string(),
        name: "Bash".to_string(),
        summary: "tool Bash input_keys=command".to_string(),
    });
    let transcript = transcript(vec![message]);

    let hidden = format_read(
        &[ReadRequest {
            resolved: &resolved,
            transcript: &transcript,
            range: None,
        }],
        None,
        options(),
    )
    .unwrap();
    assert!(
        !hidden.contains("input_keys=command"),
        "default read must hide tool input keys, got: {hidden}"
    );
    assert!(
        !hidden.lines().any(|l| l.contains("tool Bash")),
        "default read must not emit a `tool Bash` frame, got: {hidden}"
    );

    let mut opts = options();
    opts.tools = true;
    let shown = format_read(
        &[ReadRequest {
            resolved: &resolved,
            transcript: &transcript,
            range: None,
        }],
        None,
        opts,
    )
    .unwrap();
    assert!(
        shown.contains("Bash"),
        "tools flag must render the tool name, got: {shown}"
    );
    assert!(
        shown.contains("input_keys=command"),
        "tools flag must render the input key list, got: {shown}"
    );
}

#[test]
fn phase3_thinking_flag_includes_thinking() {
    let resolved = resolved("session-thinking-on.jsonl");
    let mut message = text_message(1, AgentMessageRole::Assistant, "");
    message.parts.push(AgentMessagePart::Thinking {
        thinking: "thinking-on-marker".to_string(),
    });
    let transcript = transcript(vec![message]);
    let mut opts = options();
    opts.thinking = true;
    let output = format_read(
        &[ReadRequest {
            resolved: &resolved,
            transcript: &transcript,
            range: None,
        }],
        None,
        opts,
    )
    .unwrap();
    assert!(
        output.contains("thinking-on-marker"),
        "thinking flag must render the thinking block, got: {output}"
    );
}

#[test]
fn phase3_protocol_headers_include_version() {
    let resolved = resolved("session-header.jsonl");
    let transcript = transcript(vec![text_message(1, AgentMessageRole::User, "hi")]);
    let output = format_read(
        &[ReadRequest {
            resolved: &resolved,
            transcript: &transcript,
            range: None,
        }],
        None,
        options(),
    )
    .unwrap();
    assert!(
        output.starts_with("protocol agent-read v=1 cut=none budget=6000\n"),
        "output must start with the versioned header, got first 80 chars: {:?}",
        &output[..output.len().min(80)]
    );
}
#[test]
fn escape_atom_percent_encodes_utf8_without_per_byte_formatting() {
    assert_eq!(escape_atom("你好 space"), "%E4%BD%A0%E5%A5%BD%20space");
}
