use claude_history::claude::{
    AssistantMessage, ContentBlock, LogEntry, UserContent, UserMessage,
};
use claude_history::tui::viewer::activity::{
    capitalize_first, push_summary_item, tool_kind, ToolActivitySummary, ToolKind,
};
use claude_history::tui::viewer::summary::{
    assistant_blocks_are_tool_only, flush_tool_summary, plan_tool_summary, summarize_tool_calls,
    tool_only_assistant_summary, user_entry_is_only_tool_results, PendingToolSummary,
    RenderedSummary, SummaryPlan,
};
use claude_history::tui::viewer::types::{
    LineStyle, RenderOptions, RenderableEntry, RenderedLine, SubagentLink, Theme, ToolOutputId,
    ToolOutputKind,
};
use serde_json::Value;

const THEME: Theme = Theme {
    tool_text: (1, 1, 1),
    accent: (2, 2, 2),
    accent_dim: (3, 3, 3),
};

fn described(text: &str) -> Value {
    let fields = vec![("description".to_string(), Value::String(text.to_string()))];
    Value::Object(fields.into_iter().collect())
}

fn tool(name: &str, id: &str, input: Value) -> ContentBlock {
    ContentBlock::ToolUse {
        id: id.to_string(),
        name: name.to_string(),
        input,
    }
}

fn options() -> RenderOptions {
    RenderOptions {
        show_timing: false,
        show_thinking: false,
        expanded_tool_outputs: Vec::new(),
        subagent_links: Vec::new(),
    }
}

fn texts(summary: &ToolActivitySummary) -> Vec<String> {
    summary
        .styled_spans(&THEME)
        .into_iter()
        .map(|(text, _)| text)
        .collect()
}

fn assistant(blocks: Vec<ContentBlock>, parent: Option<&str>) -> LogEntry {
    LogEntry::Assistant {
        message: AssistantMessage { content: blocks },
        timestamp: Some("noon".to_string()),
        parent_tool_use_id: parent.map(|id| id.to_string()),
    }
}

fn result(id: &str) -> ContentBlock {
    ContentBlock::ToolResult {
        tool_use_id: id.to_string(),
        content: None,
    }
}

fn user(content: UserContent, parent: Option<&str>) -> LogEntry {
    LogEntry::User {
        message: UserMessage { content },
        timestamp: None,
        parent_tool_use_id: parent.map(|id| id.to_string()),
    }
}

#[test]
fn each_kind_of_call_is_counted() {
    let mut blocks = Vec::new();
    for name in [
        "Grep", "Glob", "Glob", "Read", "Bash", "Bash", "Edit", "Write", "WebFetch", "WebSearch",
        "Other", "More",
    ] {
        blocks.push(tool(name, "id", Value::Null));
    }
    blocks.push(ContentBlock::Other);
    let summary = summarize_tool_calls(&blocks, &options());
    assert_eq!(
        texts(&summary),
        vec![
            "Searched for 1 pattern, Searched for 2 file patterns, read 1 file, ran 2 shell commands, \
             edited 1 file, wrote 1 file, fetched 1 URL, searched 1 web, called 2 tools"
                .to_string()
        ]
    );
    assert_eq!(
        summary.styled_spans(&THEME)[0].1,
        LineStyle {
            fg: Some((1, 1, 1)),
            bold: false,
            dimmed: true
        }
    );
    assert!(matches!(tool_kind("Agent"), ToolKind::Agent));
    assert!(matches!(tool_kind("Task"), ToolKind::Agent));
    assert!(matches!(tool_kind("bash"), ToolKind::Other));
}

#[test]
fn agents_are_described() {
    let one = summarize_tool_calls(&[tool("Task", "a", described("look"))], &options());
    assert_eq!(texts(&one), vec!["Dispatched agent: look".to_string()]);
    assert_eq!(one.direct_subagent_id(), None);
    let two = summarize_tool_calls(
        &[
            tool("Task", "a", described("look")),
            tool("Agent", "b", Value::Null),
        ],
        &options(),
    );
    assert_eq!(texts(&two), vec!["Dispatched 2 agents".to_string()]);
    let plain = summarize_tool_calls(&[tool("Task", "a", Value::Null)], &options());
    assert_eq!(texts(&plain), vec!["Dispatched 1 agent".to_string()]);

    let mut linked = options();
    linked.subagent_links = vec![SubagentLink {
        tool_name: "Task".to_string(),
        tool_use_id: "a".to_string(),
    }];
    let direct = summarize_tool_calls(&[tool("Task", "a", described("look"))], &linked);
    assert_eq!(direct.direct_subagent_id(), Some("a"));
    assert_eq!(texts(&direct), vec!["[→ subagent] look".to_string()]);
    let bare = summarize_tool_calls(&[tool("Task", "a", Value::Null)], &linked);
    assert_eq!(
        texts(&bare),
        vec!["[→ subagent] dispatched agent".to_string()]
    );
    let mixed = summarize_tool_calls(
        &[
            tool("Read", "r", Value::Null),
            tool("Task", "a", Value::Null),
            tool("Task", "b", Value::Null),
        ],
        &linked,
    );
    assert_eq!(mixed.direct_subagent_id(), None);
    assert_eq!(
        texts(&mixed),
        vec![
            "Read 1 file, ".to_string(),
            "1 linked agent (2 dispatched)".to_string()
        ]
    );
    assert_eq!(mixed.styled_spans(&THEME)[1].1.fg, Some((2, 2, 2)));
}

#[test]
fn merging_sums_up_both_runs() {
    let first = [tool("Bash", "1", Value::Null)];
    let second = [
        tool("Bash", "2", Value::Null),
        tool("Task", "3", described("look")),
    ];
    let mut merged = summarize_tool_calls(&first, &options());
    merged.merge(summarize_tool_calls(&second, &options()));
    assert_eq!(
        texts(&merged),
        vec![
            "Ran 2 shell commands, ".to_string(),
            "dispatched agent: look".to_string()
        ]
    );
    let mut linked = options();
    linked.subagent_links = vec![SubagentLink {
        tool_name: "Task".to_string(),
        tool_use_id: "3".to_string(),
    }];
    let mut empty = ToolActivitySummary::default();
    assert!(empty.is_empty());
    assert!(empty.styled_spans(&THEME).is_empty());
    empty.merge(summarize_tool_calls(
        &[tool("Task", "3", Value::Null)],
        &linked,
    ));
    assert_eq!(empty.direct_subagent_id(), Some("3"));
    empty.merge(ToolActivitySummary::default());
    assert_eq!(empty.direct_subagent_id(), Some("3"));
    empty.merge(summarize_tool_calls(&first, &linked));
    assert_eq!(empty.direct_subagent_id(), None);
    assert!(!empty.is_empty());
}

#[test]
fn first_letters_are_capitalized() {
    assert_eq!(capitalize_first("read".to_string()), "Read");
    assert_eq!(capitalize_first("éa".to_string()), "Éa");
    assert_eq!(capitalize_first("ßa".to_string()), "SSa");
    assert_eq!(capitalize_first("[a".to_string()), "[a");
    assert_eq!(capitalize_first(String::new()), "");
    for code in 0..128_u8 {
        let c = code as char;
        assert_eq!(
            capitalize_first(c.to_string()),
            c.to_ascii_uppercase().to_string()
        );
    }
}

#[test]
fn items_are_counted_in_words() {
    let mut parts = Vec::new();
    push_summary_item(&mut parts, 0, "read", "file");
    push_summary_item(&mut parts, 1, "read", "file");
    push_summary_item(&mut parts, 2, "read", "file");
    assert_eq!(
        parts,
        vec!["read 1 file".to_string(), "read 2 files".to_string()]
    );
}

#[test]
fn tool_only_messages_are_summed_up() {
    let calls = vec![tool("Bash", "1", Value::Null)];
    assert!(assistant_blocks_are_tool_only(&calls));
    let entry = assistant(calls, None);
    let (parent, time, summary) = tool_only_assistant_summary(&entry, &options()).unwrap();
    assert_eq!((parent, time), (None, Some("noon")));
    assert_eq!(texts(&summary), vec!["Ran 1 shell command".to_string()]);
    let mixed = assistant(
        vec![
            tool("Bash", "1", Value::Null),
            ContentBlock::Text {
                text: "x".to_string(),
            },
        ],
        None,
    );
    assert!(tool_only_assistant_summary(&mixed, &options()).is_none());
    assert!(tool_only_assistant_summary(&assistant(Vec::new(), None), &options()).is_none());
    assert!(tool_only_assistant_summary(&LogEntry::Other, &options()).is_none());
    let sub = assistant(vec![tool("Bash", "1", Value::Null)], Some("p"));
    assert!(tool_only_assistant_summary(&sub, &options()).is_none());
    let mut thinking = options();
    thinking.show_thinking = true;
    assert_eq!(
        tool_only_assistant_summary(&sub, &thinking).unwrap().0,
        Some("p")
    );
}

#[test]
fn tool_results_are_recognized() {
    let results = user(UserContent::Blocks(vec![result("1")]), None);
    assert!(user_entry_is_only_tool_results(&results, &options()));
    let text = user(UserContent::Text("x".to_string()), None);
    assert!(!user_entry_is_only_tool_results(&text, &options()));
    let none = user(UserContent::Blocks(Vec::new()), None);
    assert!(!user_entry_is_only_tool_results(&none, &options()));
    let mixed = user(
        UserContent::Blocks(vec![result("1"), ContentBlock::Other]),
        None,
    );
    assert!(!user_entry_is_only_tool_results(&mixed, &options()));
    let sub = user(UserContent::Blocks(vec![result("1")]), Some("p"));
    assert!(!user_entry_is_only_tool_results(&sub, &options()));
    assert!(!user_entry_is_only_tool_results(&LogEntry::Other, &options()));
}

fn output_id(entry_index: usize, block_index: usize, kind: ToolOutputKind) -> ToolOutputId {
    ToolOutputId {
        entry_index,
        parent_id: None,
        block_index,
        kind,
        tool_use_id: None,
    }
}

fn pending(summary: ToolActivitySummary) -> PendingToolSummary {
    PendingToolSummary {
        id: output_id(4, 0, ToolOutputKind::ToolCall),
        first_entry_index: 4,
        first_parsed_idx: 0,
        last_parsed_idx: 1,
        parent_id: None,
        timestamp: Some("noon".to_string()),
        summary,
    }
}

fn entries() -> Vec<RenderableEntry> {
    vec![
        RenderableEntry {
            entry_index: 4,
            entry: assistant(
                vec![
                    ContentBlock::Other,
                    tool("Bash", "1", Value::Null),
                    tool("Read", "2", Value::Null),
                ],
                None,
            ),
        },
        RenderableEntry {
            entry_index: 7,
            entry: user(UserContent::Blocks(vec![result("1")]), None),
        },
    ]
}

#[test]
fn a_summary_is_planned_as_a_row_or_in_detail() {
    let entries = entries();
    let blocks = [tool("Bash", "1", Value::Null)];
    let mut timed = options();
    timed.show_timing = true;
    let row = match plan_tool_summary(
        &pending(summarize_tool_calls(&blocks, &options())),
        &entries,
        &timed,
        &THEME,
        "Helper",
        Some("12:00".to_string()),
    ) {
        SummaryPlan::Row(Some(row)) => row,
        _ => panic!("expected a row"),
    };
    assert_eq!(row.label, "Helper");
    assert_eq!(row.label_color, (3, 3, 3));
    assert_eq!(row.stamp.as_deref(), Some("12:00"));
    assert!(!row.dimmed);
    assert!(row.clickable);
    assert_eq!(row.content[0].0, "Ran 1 shell command");

    let mut expanded = options();
    expanded.expanded_tool_outputs = vec![output_id(4, 0, ToolOutputKind::ToolCall)];
    let (look, details) = match plan_tool_summary(
        &pending(summarize_tool_calls(&blocks, &options())),
        &entries,
        &expanded,
        &THEME,
        "Helper",
        None,
    ) {
        SummaryPlan::Details { look, details } => (look, details),
        SummaryPlan::Row(_) => panic!("expected details"),
    };
    assert_eq!(look.label, "Helper");
    assert_eq!(look.label_color, (3, 3, 3));
    assert!(look.dimmed && look.truncated && !look.pad_timing);
    let places: Vec<(usize, usize, usize)> = details
        .iter()
        .map(|d| (d.parsed_idx, d.block_idx, d.output_id.entry_index))
        .collect();
    assert_eq!(places, vec![(0, 1, 4), (0, 2, 4), (1, 0, 7)]);
    assert_eq!(details[2].output_id.kind, ToolOutputKind::ToolResult);
    assert_eq!(details[2].output_id.tool_use_id.as_deref(), Some("1"));
    assert!(details.iter().all(|d| !d.expanded && !d.has_subagent));

    assert!(matches!(
        plan_tool_summary(
            &pending(ToolActivitySummary::default()),
            &entries,
            &options(),
            &THEME,
            "Helper",
            None,
        ),
        SummaryPlan::Row(None)
    ));
}

fn text_line(text: &str) -> RenderedLine {
    let mut line = RenderedLine::empty();
    line.spans.push((
        text.to_string(),
        LineStyle {
            fg: None,
            bold: false,
            dimmed: false,
        },
    ));
    line
}

#[test]
fn a_flush_writes_the_summary_and_its_range() {
    let entries = entries();
    let mut linked = options();
    linked.subagent_links = vec![SubagentLink {
        tool_name: "Task".to_string(),
        tool_use_id: "9".to_string(),
    }];
    let summary = summarize_tool_calls(&[tool("Task", "9", Value::Null)], &linked);
    let mut lines = vec![text_line("above")];
    let mut messages = Vec::new();
    let mut waiting = Some(pending(summary));
    flush_tool_summary(
        &mut lines,
        &mut messages,
        &mut waiting,
        RenderedSummary::Row(Some(vec![text_line("row")])),
        &entries,
    );
    assert!(waiting.is_none());
    assert_eq!(lines.len(), 3);
    assert_eq!(lines[1].subagent_tool_use_id.as_deref(), Some("9"));
    assert!(lines[2].spans.is_empty());
    assert_eq!(messages.len(), 1);
    assert_eq!(messages[0].entry_index, 4);
    assert_eq!(messages[0].last_entry_index, 7);
    assert_eq!((messages[0].start_line, messages[0].end_line), (1, 2));

    flush_tool_summary(
        &mut lines,
        &mut messages,
        &mut waiting,
        RenderedSummary::Row(None),
        &entries,
    );
    assert_eq!((lines.len(), messages.len()), (3, 1));

    let mut waiting = Some(pending(ToolActivitySummary::default()));
    flush_tool_summary(
        &mut lines,
        &mut messages,
        &mut waiting,
        RenderedSummary::Details(vec![
            vec![text_line("a")],
            vec![text_line("b"), text_line("c")],
        ]),
        &entries,
    );
    assert_eq!(lines.len(), 8);
    assert!(lines[3].clickable);
    assert_eq!(lines[3].tool_output_id.as_ref().unwrap().entry_index, 4);
    assert!(lines[4].spans.is_empty());
    assert_eq!(lines[5].spans[0].0, "b");
    assert_eq!((messages[1].start_line, messages[1].end_line), (3, 7));
}

#[test]
fn rows_need_no_entries() {
    let mut waiting = pending(summarize_tool_calls(
        &[tool("Bash", "1", Value::Null)],
        &options(),
    ));
    waiting.last_parsed_idx = 9;
    assert!(matches!(
        plan_tool_summary(&waiting, &[], &options(), &THEME, "Helper", None),
        SummaryPlan::Row(Some(_))
    ));
    let mut lines = Vec::new();
    let mut messages = Vec::new();
    let mut waiting = Some(waiting);
    flush_tool_summary(
        &mut lines,
        &mut messages,
        &mut waiting,
        RenderedSummary::Row(None),
        &[],
    );
    assert!(waiting.is_none() && lines.is_empty() && messages.is_empty());
}
