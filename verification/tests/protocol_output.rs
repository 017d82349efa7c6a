use claude_history::agent::atoms::{budget_atom, escape_atom, push_body, role_atom, snippet};
use claude_history::agent::protocol::{format_outline, format_read, ReadRequest};
use claude_history::agent::refs::{
    AgentConversationKey, AgentConversationRef, MessageRange, ResolvedConversation,
};
use claude_history::agent::render::{render_message, ProtocolOptions, RenderedMessage};
use claude_history::agent::select::{
    cut_marker, render_selected_messages, rendered_len, try_expand, ProtocolFocus,
};
use claude_history::agent::transcript::{
    AgentMessage, AgentMessagePart, AgentMessageRole, AgentTranscript,
};
use claude_history::error::AppError;
use claude_history::json::{field_text, tool_result_text};
use serde_json::Value;
use std::collections::BTreeSet;

fn conversation(name: &str) -> ResolvedConversation {
    ResolvedConversation {
        reference: AgentConversationRef {
            uuid: name.to_string(),
            canonical: format!("c:{name}"),
            full_ref: format!("p/{name}"),
        },
        key: AgentConversationKey {
            session_filename: format!("{name}.jsonl"),
        },
    }
}

fn message(ordinal: usize, role: AgentMessageRole, parts: Vec<AgentMessagePart>) -> AgentMessage {
    AgentMessage {
        ordinal,
        jsonl_line: ordinal + 10,
        role,
        parent_tool_use_id: None,
        parts,
    }
}

fn text(value: &str) -> AgentMessagePart {
    AgentMessagePart::Text {
        text: value.to_string(),
    }
}

fn options(budget: Option<usize>) -> ProtocolOptions {
    ProtocolOptions {
        budget,
        tools: true,
        tool_results: true,
        thinking: true,
        subagents: true,
    }
}

fn object(pairs: Vec<(&str, Value)>) -> Value {
    Value::Object(
        pairs
            .into_iter()
            .map(|(key, value)| (key.to_string(), value))
            .collect(),
    )
}

#[test]
fn a_read_is_spelled_out_exactly() {
    let resolved = conversation("s 1");
    let transcript = AgentTranscript {
        messages: vec![
            message(1, AgentMessageRole::User, vec![text("one\n\ntwo")]),
            message(
                2,
                AgentMessageRole::Assistant,
                vec![
                    text("  \t"),
                    AgentMessagePart::ToolUse {
                        id: "t".to_string(),
                        name: "Bash".to_string(),
                        summary: "tool Bash".to_string(),
                    },
                    AgentMessagePart::ToolResult {
                        tool_use_id: "t".to_string(),
                        content: Some(Value::Array(vec![
                            Value::String("first".to_string()),
                            object(vec![("text", Value::String("second".to_string()))]),
                            Value::Bool(true),
                        ])),
                    },
                    AgentMessagePart::Thinking {
                        thinking: "hm".to_string(),
                    },
                ],
            ),
        ],
    };
    let output = format_read(
        &[ReadRequest {
            resolved: &resolved,
            transcript: &transcript,
            range: None,
        }],
        None,
        options(None),
    )
    .unwrap();
    assert_eq!(
        output,
        "protocol agent-read v=1 cut=none budget=none\n\
         conversation uuid=s%201 ref=c:s%201 path=s%201.jsonl\n\
         message m1 role=user line=11\n| one\n|\n| two\n\
         message m2 role=assistant line=12\n| tool Bash\n| first\n| second\n| thinking: hm\n"
    );
}

#[test]
fn a_range_beyond_the_transcript_is_refused() {
    let resolved = conversation("s");
    let transcript = AgentTranscript {
        messages: vec![message(1, AgentMessageRole::User, vec![text("one")])],
    };
    let error = format_read(
        &[ReadRequest {
            resolved: &resolved,
            transcript: &transcript,
            range: Some(MessageRange { start: 1, end: 2 }),
        }],
        None,
        options(None),
    )
    .unwrap_err();
    assert!(matches!(error, AppError::ConfigError(_)));
    assert_eq!(
        error.message(),
        "message range m1..m2 exceeds transcript length m1"
    );
}

#[test]
fn a_range_keeps_its_messages_only() {
    let resolved = conversation("s");
    let transcript = AgentTranscript {
        messages: vec![
            message(1, AgentMessageRole::User, vec![text("one")]),
            message(2, AgentMessageRole::User, vec![text("two")]),
            message(3, AgentMessageRole::User, vec![text("three")]),
        ],
    };
    let output = format_read(
        &[ReadRequest {
            resolved: &resolved,
            transcript: &transcript,
            range: Some(MessageRange::single(2)),
        }],
        None,
        options(None),
    )
    .unwrap();
    assert!(output.contains("| two\n"));
    assert!(!output.contains("| one\n"));
    assert!(!output.contains("| three\n"));
    assert!(MessageRange { start: 2, end: 3 }.contains(3));
    assert!(!MessageRange { start: 2, end: 3 }.contains(1));
}

#[test]
fn a_focus_that_cannot_fit_names_the_message_and_the_budget() {
    let resolved = conversation("s");
    let transcript = AgentTranscript {
        messages: vec![
            message(1, AgentMessageRole::User, vec![text("one")]),
            message(2, AgentMessageRole::User, vec![text(&"x".repeat(90))]),
        ],
    };
    let error = format_read(
        &[ReadRequest {
            resolved: &resolved,
            transcript: &transcript,
            range: None,
        }],
        Some(ProtocolFocus {
            conversation_full_ref: Some("p/s".to_string()),
            range: MessageRange::single(2),
        }),
        options(Some(100)),
    )
    .unwrap_err();
    let head = "protocol agent-read v=1 cut=head+focus+tail budget=100\n".len();
    let line = "conversation uuid=s ref=c:s path=s.jsonl\n".len();
    let body = "message m2 role=user line=12\n| ".len() + 91;
    assert_eq!(
        error.message(),
        format!(
            "focus range exceeds budget: message m2 alone renders to {} chars, over budget 100; raise --budget or narrow the focus range",
            head + line + body
        )
    );
}

#[test]
fn reads_stay_within_budget_and_cannot_be_widened() {
    let resolved = conversation("s");
    let messages: Vec<AgentMessage> = (1..=9)
        .map(|n| message(n, AgentMessageRole::User, vec![text(&"y".repeat(n * 7))]))
        .collect();
    let transcript = AgentTranscript { messages };
    for budget in 60..700 {
        let output = format_read(
            &[ReadRequest {
                resolved: &resolved,
                transcript: &transcript,
                range: None,
            }],
            None,
            options(Some(budget)),
        )
        .unwrap();
        assert!(output.chars().count() <= budget, "{budget}");
    }
    let whole = format_read(
        &[ReadRequest {
            resolved: &resolved,
            transcript: &transcript,
            range: None,
        }],
        None,
        options(Some(700)),
    )
    .unwrap();
    assert!(whole.starts_with("protocol agent-read v=1 cut=none budget=700\n"));
    assert!(whole.contains("message m9 role=user"));
}

#[test]
fn a_header_longer_than_the_budget_is_still_written() {
    let resolved = conversation("s");
    let transcript = AgentTranscript {
        messages: vec![message(1, AgentMessageRole::User, vec![text("one")])],
    };
    let output = format_read(
        &[ReadRequest {
            resolved: &resolved,
            transcript: &transcript,
            range: None,
        }],
        None,
        options(Some(10)),
    )
    .unwrap();
    assert_eq!(output, "protocol agent-read v=1 cut=tail budget=10\n");
}

#[test]
fn a_conversation_is_named_again_only_when_it_changes() {
    let first = conversation("a");
    let second = conversation("b");
    let transcript = AgentTranscript {
        messages: vec![
            message(1, AgentMessageRole::User, vec![text("one")]),
            message(2, AgentMessageRole::User, vec![text("two")]),
        ],
    };
    let output = format_read(
        &[
            ReadRequest {
                resolved: &first,
                transcript: &transcript,
                range: None,
            },
            ReadRequest {
                resolved: &second,
                transcript: &transcript,
                range: None,
            },
        ],
        None,
        options(None),
    )
    .unwrap();
    assert_eq!(output.matches("conversation uuid=").count(), 2);
    assert_eq!(output.matches("message m").count(), 4);
}

#[test]
fn cut_markers_say_what_is_missing() {
    assert_eq!(cut_marker(3, &vec![0, 1, 2]), "none");
    assert_eq!(cut_marker(3, &vec![]), "tail");
    assert_eq!(cut_marker(3, &vec![0]), "tail");
    assert_eq!(cut_marker(3, &vec![2]), "head");
    assert_eq!(cut_marker(3, &vec![1]), "head+focus+tail");
    assert_eq!(cut_marker(3, &vec![0, 2]), "focus");
    assert_eq!(cut_marker(4, &vec![1, 3]), "head+focus");
    assert_eq!(cut_marker(0, &vec![]), "none");
    assert_eq!(cut_marker(4, &vec![3, 1]), "head+focus+tail");
}

#[test]
fn outlines_are_cut_at_a_line() {
    let resolved = conversation("s");
    let transcript = AgentTranscript {
        messages: vec![
            message(1, AgentMessageRole::User, vec![text("one  two\nthree")]),
            message(2, AgentMessageRole::Assistant, vec![text("four")]),
        ],
    };
    let whole = format_outline(&resolved, &transcript, options(None));
    assert_eq!(
        whole,
        "protocol agent-outline v=1 cut=none budget=none\n\
         conversation uuid=s ref=c:s path=s.jsonl\n\
         m1 role=user c~14 one two three\n\
         m2 role=assistant c~4 four\n"
    );
    let cut = format_outline(&resolved, &transcript, options(Some(125)));
    assert_eq!(
        cut,
        "protocol agent-outline v=1 cut=tail budget=125\n\
         conversation uuid=s ref=c:s path=s.jsonl\n\
         m1 role=user c~14 one two three\n"
    );
    for budget in 48..200 {
        assert!(
            format_outline(&resolved, &transcript, options(Some(budget)))
                .chars()
                .count()
                <= budget
        );
    }
}

#[test]
fn atoms_of_texts_can_be_told_apart() {
    let texts = ["", " ", "%20", "a=b", "a|b", "ä", "a/b", "\u{7f}"];
    for a in texts {
        for b in texts {
            assert_eq!(escape_atom(a) == escape_atom(b), a == b);
        }
        for delimiter in [' ', '=', '|', '\n', '\t'] {
            assert!(!escape_atom(a).contains(delimiter));
        }
    }
    assert_eq!(escape_atom("Az09._~:/+-"), "Az09._~:/+-");
    assert_eq!(escape_atom("é"), "%C3%A9");
}

#[test]
fn bodies_are_framed_line_by_line() {
    let mut output = String::from(">");
    push_body(&mut output, "a\n\nb\n");
    assert_eq!(output, ">| a\n|\n| b\n|\n");
    let mut empty = String::new();
    push_body(&mut empty, "");
    assert_eq!(empty, "|\n");
}

#[test]
fn small_atoms_are_spelled_out() {
    assert_eq!(role_atom(AgentMessageRole::User), "user");
    assert_eq!(role_atom(AgentMessageRole::Assistant), "assistant");
    assert_eq!(budget_atom(None), "none");
    assert_eq!(budget_atom(Some(0)), "0");
    assert_eq!(budget_atom(Some(usize::MAX)), usize::MAX.to_string());
}

#[test]
fn snippets_are_on_one_line() {
    assert_eq!(snippet("  a \n\t b\u{3000}c "), "a b c");
    assert_eq!(snippet(""), "");
    assert_eq!(snippet(&"ß".repeat(81)), "ß".repeat(80));
}

#[test]
fn tool_results_are_read_as_text() {
    assert_eq!(tool_result_text(&Value::String("plain".to_string())), "plain");
    let items = Value::Array(vec![
        Value::String("a".to_string()),
        object(vec![("text", Value::String("b".to_string()))]),
        object(vec![("text", Value::Bool(false))]),
        object(vec![("other", Value::String("c".to_string()))]),
        Value::Null,
        Value::String(String::new()),
    ]);
    assert_eq!(tool_result_text(&items), "a\nb\n");
    assert_eq!(tool_result_text(&Value::Null), "null");
    assert_eq!(tool_result_text(&Value::Bool(true)), "true");
    assert_eq!(
        tool_result_text(&object(vec![("k", Value::from(1))])),
        "{\"k\":1}"
    );
}

#[test]
fn fields_are_read_as_text() {
    let value = object(vec![
        ("description", Value::String("look".to_string())),
        ("count", Value::from(3)),
    ]);
    assert_eq!(field_text(&value, "description"), Some("look".to_string()));
    assert_eq!(field_text(&value, "count"), None);
    assert_eq!(field_text(&value, "absent"), None);
    assert_eq!(field_text(&Value::String("description".to_string()), "description"), None);
}

fn rendered_messages<'a>(
    resolved: &'a ResolvedConversation,
    messages: &'a [AgentMessage],
) -> Vec<RenderedMessage<'a>> {
    messages
        .iter()
        .filter_map(|message| render_message(resolved, message, options(None)))
        .collect()
}

#[test]
fn a_selection_takes_any_entry_that_fits() {
    let resolved = conversation("s");
    let texts: Vec<AgentMessage> = (1..=5)
        .map(|n| message(n, AgentMessageRole::User, vec![text(&"z".repeat(n))]))
        .collect();
    let messages = rendered_messages(&resolved, &texts);
    let starts: [&[usize]; 5] = [&[], &[2], &[4, 0], &[1, 3], &[0, 1, 3, 4]];
    for start in starts {
        for candidate in 0..5 {
            let start: BTreeSet<usize> = start.iter().copied().collect();
            let mut wider = start.clone();
            wider.insert(candidate);
            let mut narrower = start.clone();
            narrower.remove(&candidate);
            let list: Vec<usize> = wider.iter().copied().collect();
            let length = rendered_len(&messages, &list, "head+focus+tail", 100)
                .chars()
                .count();
            let mut selected = start.clone();
            assert!(try_expand(&mut selected, candidate, &messages, length.max(100)));
            assert_eq!(selected, wider);
            let mut selected = start.clone();
            assert!(!try_expand(&mut selected, candidate, &messages, 99));
            assert_eq!(selected, narrower);
        }
    }
}

#[test]
fn a_conversation_that_goes_on_is_not_named_again() {
    let first = conversation("a");
    let second = conversation("b");
    let texts = [message(1, AgentMessageRole::User, vec![text("one")])];
    let mut messages = rendered_messages(&first, &texts);
    messages.extend(rendered_messages(&second, &texts));
    let line = "message m1 role=user line=11\n| one\n";

    let mut output = String::new();
    let mut last_ref = Some("c:a".to_string());
    render_selected_messages(&mut output, &messages, &vec![0], &mut last_ref);
    assert_eq!(output, line);
    assert_eq!(last_ref.as_deref(), Some("c:a"));
    render_selected_messages(&mut output, &messages, &vec![1], &mut last_ref);
    assert_eq!(
        output,
        format!("{line}conversation uuid=b ref=c:b path=b.jsonl\n{line}")
    );
    assert_eq!(last_ref.as_deref(), Some("c:b"));
    let mut untouched = None;
    render_selected_messages(&mut output, &messages, &Vec::new(), &mut untouched);
    assert_eq!(untouched, None);
}
