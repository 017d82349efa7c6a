use claude_history::claude::{AssistantMessage, ContentBlock, LogEntry};
use claude_history::tui::app::input_controller::{path_copy_status, session_id_copy_status};
use claude_history::tui::app::state::{
    Action, App, AppMode, BoundKeys, DialogMode, Effect, KeyCode, KeyModifiers, ListSearchMode,
    Outcome, SubagentPath, ViewSearchMode, ViewState,
};
use claude_history::tui::app::subagent::subagent_to_enter;
use claude_history::tui::viewer::types::{MessageRange, RenderableEntry};
use serde_json::Value;

const PLAIN: KeyModifiers = KeyModifiers {
    control: false,
    alt: false,
};
const CONTROL: KeyModifiers = KeyModifiers {
    control: true,
    alt: false,
};
const ALT: KeyModifiers = KeyModifiers {
    control: false,
    alt: true,
};
const UNBOUND: BoundKeys = BoundKeys {
    delete: false,
    resume: false,
    fork: false,
    rename: false,
};

fn list(query: &str) -> App {
    App {
        query: query.to_string(),
        cursor_pos: query.chars().count(),
        word_separators: vec![' ', '-', '/'],
        dialog_mode: DialogMode::Closed,
        app_mode: AppMode::List,
        list_search_mode: ListSearchMode::Text,
        semantic_result_selected: false,
        semantic_toggle_available: false,
        loading: false,
        selected_path: Some("/s.jsonl".to_string()),
        single_file_mode: false,
        select_mode: false,
        mouse_capture_enabled: true,
    }
}

fn view() -> App {
    let mut app = list("");
    app.app_mode = AppMode::View {
        state: ViewState {
            conversation_path: "/c.jsonl".to_string(),
            session_id: Some("c".to_string()),
            search_mode: ViewSearchMode::Off,
            total_lines: 100,
            scroll_offset: 50,
            message_nav_active: false,
            focused_message: None,
            message_ranges: Vec::new(),
            parsed_entries: None,
            subagent_paths: Vec::new(),
        },
        depth: 1,
    };
    app
}

fn state(app: &mut App) -> &mut ViewState {
    match &mut app.app_mode {
        AppMode::View { state, .. } => state,
        AppMode::List => panic!("no transcript is open"),
    }
}

fn press(app: &mut App, code: KeyCode, modifiers: KeyModifiers) -> Outcome {
    app.handle_key(code, modifiers, UNBOUND, 20)
}

fn effect(outcome: Outcome) -> Option<Effect> {
    assert_eq!(outcome.action, None);
    outcome.effect
}

fn action(outcome: Outcome) -> Option<Action> {
    assert_eq!(outcome.effect, None);
    outcome.action
}

#[test]
fn typing_edits_the_query_and_searches() {
    let mut app = list("");
    for c in "aß".chars() {
        let outcome = press(&mut app, KeyCode::Char(c), PLAIN);
        assert_eq!(effect(outcome), Some(Effect::DispatchSearch));
    }
    assert_eq!((app.query.as_str(), app.cursor_pos), ("aß", 2));
    press(&mut app, KeyCode::Left, PLAIN);
    press(&mut app, KeyCode::Char('x'), PLAIN);
    assert_eq!((app.query.as_str(), app.cursor_pos), ("axß", 2));
    let outcome = press(&mut app, KeyCode::Backspace, PLAIN);
    assert_eq!(effect(outcome), Some(Effect::DispatchSearch));
    assert_eq!((app.query.as_str(), app.cursor_pos), ("aß", 1));
    press(&mut app, KeyCode::Delete, PLAIN);
    assert_eq!((app.query.as_str(), app.cursor_pos), ("a", 1));
    assert_eq!(effect(press(&mut app, KeyCode::Delete, PLAIN)), None);
}

#[test]
fn editing_at_the_ends_changes_nothing() {
    let mut app = list("ab");
    app.cursor_pos = 0;
    assert!(!app.backspace_query());
    assert!(!app.kill_to_start());
    assert!(!app.delete_word_backwards());
    app.cursor_left();
    assert_eq!(app.cursor_pos, 0);
    app.cursor_end();
    assert!(!app.kill_to_end());
    assert!(!app.delete_query_char());
    app.cursor_right();
    assert_eq!((app.query.as_str(), app.cursor_pos), ("ab", 2));
    app.cursor_home();
    assert_eq!(app.cursor_pos, 0);
}

#[test]
fn words_are_stepped_over_and_deleted() {
    let mut app = list("one two/three  ");
    app.cursor_word_left();
    assert_eq!(app.cursor_pos, 8);
    app.cursor_word_left();
    assert_eq!(app.cursor_pos, 4);
    app.cursor_word_right();
    assert_eq!(app.cursor_pos, 8);
    app.cursor_word_right();
    assert_eq!(app.cursor_pos, 15);
    assert!(app.delete_word_backwards());
    assert_eq!((app.query.as_str(), app.cursor_pos), ("one two/", 8));
    assert!(app.delete_word_backwards());
    assert_eq!((app.query.as_str(), app.cursor_pos), ("one ", 4));
}

#[test]
fn kills_part_the_query_at_the_cursor() {
    let mut start = list("abcd");
    start.cursor_pos = 1;
    assert!(start.kill_to_end());
    assert_eq!((start.query.as_str(), start.cursor_pos), ("a", 1));
    let mut end = list("abcd");
    end.cursor_pos = 1;
    assert!(end.kill_to_start());
    assert_eq!((end.query.as_str(), end.cursor_pos), ("bcd", 0));
}

#[test]
fn a_cursor_behind_the_query_counts_as_its_end() {
    let mut app = list("ab");
    app.cursor_pos = 9;
    assert!(!app.backspace_query());
    app.insert_query_char('c');
    assert_eq!((app.query.as_str(), app.cursor_pos), ("abc", 10));
    assert!(app.kill_to_start());
    assert_eq!((app.query.as_str(), app.cursor_pos), ("", 0));
}

#[test]
fn control_keys_edit_the_query() {
    let mut app = list("ab cd");
    press(&mut app, KeyCode::Char('a'), CONTROL);
    assert_eq!(app.cursor_pos, 0);
    press(&mut app, KeyCode::Char('f'), CONTROL);
    assert_eq!(app.cursor_pos, 1);
    press(&mut app, KeyCode::Char('f'), ALT);
    assert_eq!(app.cursor_pos, 3);
    press(&mut app, KeyCode::Char('e'), CONTROL);
    assert_eq!(app.cursor_pos, 5);
    press(&mut app, KeyCode::Char('b'), CONTROL);
    assert_eq!(app.cursor_pos, 4);
    press(&mut app, KeyCode::Char('b'), ALT);
    assert_eq!(app.cursor_pos, 3);
    press(&mut app, KeyCode::Char('k'), CONTROL);
    assert_eq!(app.query, "ab ");
    press(&mut app, KeyCode::Char('w'), CONTROL);
    assert_eq!(app.query, "");
    app.query = "xy".to_string();
    app.cursor_pos = 1;
    press(&mut app, KeyCode::Char('u'), CONTROL);
    assert_eq!(app.query, "y");
    press(&mut app, KeyCode::Right, CONTROL);
    assert_eq!(app.cursor_pos, 1);
    press(&mut app, KeyCode::Left, CONTROL);
    assert_eq!(app.cursor_pos, 0);
}

#[test]
fn escape_clears_the_query_and_then_quits() {
    let mut app = list("ab");
    assert_eq!(
        effect(press(&mut app, KeyCode::Esc, PLAIN)),
        Some(Effect::DispatchSearch)
    );
    assert_eq!((app.query.as_str(), app.cursor_pos), ("", 0));
    assert_eq!(
        action(press(&mut app, KeyCode::Esc, PLAIN)),
        Some(Action::Quit)
    );
}

#[test]
fn list_keys_move_the_selection() {
    for (code, modifiers, expected) in [
        (KeyCode::Up, PLAIN, Effect::SelectPrev),
        (KeyCode::Down, PLAIN, Effect::SelectNext),
        (KeyCode::Char('n'), CONTROL, Effect::SelectNext),
        (KeyCode::Char('p'), CONTROL, Effect::SelectPrev),
        (KeyCode::PageUp, PLAIN, Effect::SelectPageUp),
        (KeyCode::PageDown, PLAIN, Effect::SelectPageDown),
        (KeyCode::Home, PLAIN, Effect::SelectFirst),
        (KeyCode::End, PLAIN, Effect::SelectLast),
        (KeyCode::Char('d'), CONTROL, Effect::SelectHalfPageDown),
        (KeyCode::Tab, PLAIN, Effect::ToggleWorkspaceFilter),
    ] {
        let mut app = list("q");
        assert_eq!(effect(press(&mut app, code, modifiers)), Some(expected));
        assert_eq!(app.query, "q");
    }
    let mut app = list("q");
    assert_eq!(effect(press(&mut app, KeyCode::Enter, PLAIN)), None);
    assert_eq!(
        action(press(&mut app, KeyCode::Char('o'), CONTROL)),
        Some(Action::Select("/s.jsonl".to_string()))
    );
    assert_eq!(
        action(press(&mut app, KeyCode::Char('c'), CONTROL)),
        Some(Action::Quit)
    );
    assert_eq!(effect(press(&mut app, KeyCode::Char('t'), CONTROL)), None);
    app.semantic_toggle_available = true;
    assert_eq!(
        effect(press(&mut app, KeyCode::Char('t'), CONTROL)),
        Some(Effect::ToggleListSearchMode)
    );
    press(&mut app, KeyCode::Char('?'), PLAIN);
    assert_eq!(app.dialog_mode, DialogMode::Help { scroll: 0 });
}

#[test]
fn bound_keys_act_on_the_selected_session() {
    let delete = BoundKeys {
        delete: true,
        ..UNBOUND
    };
    let resume = BoundKeys {
        resume: true,
        ..UNBOUND
    };
    let fork = BoundKeys {
        fork: true,
        ..UNBOUND
    };
    let rename = BoundKeys {
        rename: true,
        ..UNBOUND
    };
    let key = KeyCode::Char('x');
    let path = "/s.jsonl".to_string();
    let mut app = list("");
    assert_eq!(
        action(app.handle_key(key, CONTROL, resume, 20)),
        Some(Action::Resume(path.clone()))
    );
    assert_eq!(
        action(app.handle_key(key, CONTROL, fork, 20)),
        Some(Action::ForkResume(path))
    );
    assert_eq!(
        effect(app.handle_key(key, CONTROL, rename, 20)),
        Some(Effect::StartRename)
    );
    app.handle_key(key, CONTROL, delete, 20);
    assert_eq!(app.dialog_mode, DialogMode::ConfirmDelete);

    let mut app = list("");
    app.selected_path = None;
    for bound in [delete, resume, fork, rename] {
        let outcome = app.handle_key(key, CONTROL, bound, 20);
        assert_eq!(
            outcome,
            Outcome {
                action: None,
                effect: None
            }
        );
    }
    assert_eq!(app.dialog_mode, DialogMode::Closed);

    let mut loading = list("");
    loading.loading = true;
    assert_eq!(loading.handle_key(key, PLAIN, delete, 20).effect, None);
    assert_eq!(loading.dialog_mode, DialogMode::Closed);
    assert_eq!(loading.query, "x");

    let mut alone = view();
    alone.single_file_mode = true;
    for bound in [delete, resume, fork] {
        assert_eq!(action(alone.handle_key(key, CONTROL, bound, 20)), None);
    }
    assert_eq!(alone.dialog_mode, DialogMode::Closed);
    let mut open = view();
    open.handle_key(key, CONTROL, delete, 20);
    assert_eq!(open.dialog_mode, DialogMode::ConfirmDelete);
}

#[test]
fn dialogs_take_every_key() {
    for (dialog, expected) in [
        (DialogMode::ConfirmDelete, Some(Effect::ConfirmKey)),
        (DialogMode::ExportMenu { selected: 1 }, Some(Effect::MenuKey)),
        (DialogMode::YankMenu { selected: 1 }, Some(Effect::MenuKey)),
        (DialogMode::Help { scroll: 3 }, Some(Effect::HelpKey)),
        (DialogMode::Rename, Some(Effect::RenameKey)),
    ] {
        let mut app = list("q");
        app.dialog_mode = dialog;
        assert_eq!(
            effect(press(&mut app, KeyCode::Char('x'), PLAIN)),
            expected
        );
        assert_eq!(app.query, "q");
        assert_eq!(app.dialog_mode, dialog);
    }
    let mut app = list("q");
    app.list_search_mode = ListSearchMode::Semantic;
    app.semantic_result_selected = true;
    press(&mut app, KeyCode::Char('s'), CONTROL);
    assert_eq!(app.dialog_mode, DialogMode::SemanticDebug);
    press(&mut app, KeyCode::Char('x'), PLAIN);
    assert_eq!(app.dialog_mode, DialogMode::Closed);
    assert_eq!(app.query, "q");
}

#[test]
fn scrolling_stays_in_the_transcript() {
    for (code, modifiers, from, to) in [
        (KeyCode::Down, PLAIN, 50, 51),
        (KeyCode::Char('j'), PLAIN, 80, 80),
        (KeyCode::Up, PLAIN, 50, 49),
        (KeyCode::Char('k'), PLAIN, 0, 0),
        (KeyCode::Char('d'), PLAIN, 50, 60),
        (KeyCode::Char('d'), CONTROL, 75, 80),
        (KeyCode::Char('u'), PLAIN, 50, 40),
        (KeyCode::Char('u'), CONTROL, 3, 0),
        (KeyCode::PageDown, PLAIN, 50, 70),
        (KeyCode::PageUp, PLAIN, 10, 0),
        (KeyCode::Char('g'), PLAIN, 50, 0),
        (KeyCode::Home, PLAIN, 50, 0),
        (KeyCode::Char('G'), PLAIN, 50, 80),
        (KeyCode::End, PLAIN, 50, 80),
        (KeyCode::PageDown, PLAIN, usize::MAX, 80),
    ] {
        let mut app = view();
        state(&mut app).scroll_offset = from;
        assert_eq!(
            effect(press(&mut app, code, modifiers)),
            Some(Effect::SyncFocusAfterScroll)
        );
        assert_eq!(state(&mut app).scroll_offset, to);
    }
    let mut short = view();
    state(&mut short).total_lines = 5;
    press(&mut short, KeyCode::End, PLAIN);
    assert_eq!(state(&mut short).scroll_offset, 0);
}

#[test]
fn transcript_keys_ask_for_their_effects() {
    for (code, modifiers, expected) in [
        (KeyCode::Char('J'), PLAIN, Some(Effect::FocusNextMessage)),
        (KeyCode::Char(']'), PLAIN, Some(Effect::FocusNextMessage)),
        (KeyCode::Char('K'), PLAIN, Some(Effect::FocusPrevMessage)),
        (KeyCode::Char('['), PLAIN, Some(Effect::FocusPrevMessage)),
        (KeyCode::Char('/'), PLAIN, Some(Effect::StartViewSearch)),
        (KeyCode::Char('t'), PLAIN, Some(Effect::ToggleViewTools)),
        (KeyCode::Char('T'), PLAIN, Some(Effect::ToggleViewThinking)),
        (KeyCode::Char('i'), PLAIN, Some(Effect::ToggleViewTiming)),
        (
            KeyCode::Char('p'),
            PLAIN,
            Some(Effect::ShowStatus("/c.jsonl".to_string())),
        ),
        (
            KeyCode::Char('Y'),
            PLAIN,
            Some(Effect::CopyPath("/c.jsonl".to_string())),
        ),
        (
            KeyCode::Char('I'),
            PLAIN,
            Some(Effect::CopySessionId("c".to_string())),
        ),
        (KeyCode::Char('n'), PLAIN, None),
        (KeyCode::Char('N'), PLAIN, None),
        (KeyCode::Char('c'), PLAIN, None),
        (KeyCode::Tab, PLAIN, None),
    ] {
        let mut app = view();
        assert_eq!(effect(press(&mut app, code, modifiers)), expected);
    }
    let mut searching = view();
    state(&mut searching).search_mode = ViewSearchMode::Active;
    assert_eq!(
        effect(press(&mut searching, KeyCode::Char('n'), PLAIN)),
        Some(Effect::NextSearchMatch)
    );
    assert_eq!(effect(press(&mut searching, KeyCode::Char('n'), CONTROL)), None);
    assert_eq!(
        effect(press(&mut searching, KeyCode::Char('N'), PLAIN)),
        Some(Effect::PrevSearchMatch)
    );
    let mut unnamed = view();
    state(&mut unnamed).session_id = None;
    assert_eq!(effect(press(&mut unnamed, KeyCode::Char('I'), PLAIN)), None);
    let mut app = view();
    assert_eq!(
        action(press(&mut app, KeyCode::Char('c'), CONTROL)),
        Some(Action::Quit)
    );
    assert_eq!(
        action(press(&mut app, KeyCode::Char('M'), PLAIN)),
        Some(Action::ToggleMouse)
    );
    assert!(!app.mouse_capture_enabled);
}

#[test]
fn transcript_keys_open_dialogs() {
    for (c, dialog) in [
        ('e', DialogMode::ExportMenu { selected: 0 }),
        ('y', DialogMode::YankMenu { selected: 0 }),
        ('?', DialogMode::Help { scroll: 0 }),
    ] {
        let mut app = view();
        assert_eq!(effect(press(&mut app, KeyCode::Char(c), PLAIN)), None);
        assert_eq!(app.dialog_mode, dialog);
    }
    let mut walking = view();
    state(&mut walking).message_nav_active = true;
    assert_eq!(
        effect(press(&mut walking, KeyCode::Char('y'), PLAIN)),
        Some(Effect::CopyFocusedMessage)
    );
    assert_eq!(walking.dialog_mode, DialogMode::Closed);
    assert_eq!(
        effect(press(&mut walking, KeyCode::Down, PLAIN)),
        Some(Effect::FocusNextMessage)
    );
    assert_eq!(
        effect(press(&mut walking, KeyCode::Up, PLAIN)),
        Some(Effect::FocusPrevMessage)
    );
    assert_eq!(state(&mut walking).scroll_offset, 50);
}

#[test]
fn escape_leaves_one_level_at_a_time() {
    let mut app = view();
    state(&mut app).message_nav_active = true;
    state(&mut app).search_mode = ViewSearchMode::Active;
    if let AppMode::View { depth, .. } = &mut app.app_mode {
        *depth = 2;
    }
    assert_eq!(effect(press(&mut app, KeyCode::Esc, PLAIN)), None);
    assert!(!state(&mut app).message_nav_active);
    assert_eq!(
        effect(press(&mut app, KeyCode::Esc, PLAIN)),
        Some(Effect::ClearViewSearch)
    );
    state(&mut app).search_mode = ViewSearchMode::Off;
    assert_eq!(
        effect(press(&mut app, KeyCode::Esc, PLAIN)),
        Some(Effect::PopView)
    );
    if let AppMode::View { depth, .. } = &mut app.app_mode {
        *depth = 1;
    }
    assert_eq!(effect(press(&mut app, KeyCode::Esc, PLAIN)), None);
    assert!(matches!(app.app_mode, AppMode::List));

    let mut closed = view();
    press(&mut closed, KeyCode::Char('q'), PLAIN);
    assert!(matches!(closed.app_mode, AppMode::List));
    for code in [KeyCode::Esc, KeyCode::Char('q')] {
        let mut alone = view();
        alone.single_file_mode = true;
        assert_eq!(action(press(&mut alone, code, PLAIN)), Some(Action::Quit));
        assert!(matches!(alone.app_mode, AppMode::View { .. }));
    }
}

#[test]
fn a_search_takes_the_keys_while_it_is_typed() {
    for (code, modifiers, expected) in [
        (KeyCode::Char('c'), CONTROL, Some(Effect::ClearViewSearch)),
        (KeyCode::Char('u'), CONTROL, Some(Effect::ClearViewSearchQuery)),
        (KeyCode::Char('w'), CONTROL, Some(Effect::DeleteViewSearchWord)),
        (
            KeyCode::Char('q'),
            PLAIN,
            Some(Effect::PushViewSearchChar('q')),
        ),
        (KeyCode::Backspace, PLAIN, Some(Effect::BackspaceViewSearch)),
        (KeyCode::Enter, PLAIN, Some(Effect::CommitViewSearch)),
        (KeyCode::Esc, PLAIN, Some(Effect::ClearViewSearch)),
        (KeyCode::Up, PLAIN, None),
    ] {
        let mut app = view();
        state(&mut app).search_mode = ViewSearchMode::Typing;
        assert_eq!(effect(press(&mut app, code, modifiers)), expected);
        assert!(matches!(app.app_mode, AppMode::View { .. }));
    }
}

#[test]
fn enter_picks_the_session_or_walks_the_messages() {
    let mut picking = view();
    picking.select_mode = true;
    assert_eq!(
        action(press(&mut picking, KeyCode::Enter, PLAIN)),
        Some(Action::Select("/c.jsonl".to_string()))
    );
    let mut empty = view();
    assert_eq!(effect(press(&mut empty, KeyCode::Enter, PLAIN)), None);
    assert!(!state(&mut empty).message_nav_active);
    let mut app = view();
    state(&mut app).message_ranges = vec![MessageRange {
        entry_index: 1,
        last_entry_index: 2,
        start_line: 0,
        end_line: 3,
    }];
    assert_eq!(
        effect(press(&mut app, KeyCode::Enter, PLAIN)),
        Some(Effect::SyncFocusToScroll)
    );
    assert!(state(&mut app).message_nav_active);
    assert_eq!(effect(press(&mut app, KeyCode::Enter, PLAIN)), None);
}

fn call(index: usize, ids: Vec<(&str, &str)>) -> RenderableEntry {
    RenderableEntry {
        entry_index: index,
        entry: LogEntry::Assistant {
            message: AssistantMessage {
                content: ids
                    .into_iter()
                    .map(|(name, id)| ContentBlock::ToolUse {
                        id: id.to_string(),
                        name: name.to_string(),
                        input: Value::Null,
                    })
                    .collect(),
            },
            timestamp: None,
            parent_tool_use_id: None,
        },
    }
}

#[test]
fn enter_leads_to_the_first_linked_subagent_of_the_message() {
    let mut app = view();
    let view_state = state(&mut app);
    view_state.message_nav_active = true;
    view_state.focused_message = Some(0);
    view_state.message_ranges = vec![MessageRange {
        entry_index: 2,
        last_entry_index: 3,
        start_line: 0,
        end_line: 3,
    }];
    view_state.parsed_entries = Some(vec![
        call(1, vec![("Task", "early")]),
        call(2, vec![("Bash", "shell"), ("Task", "unlinked")]),
        call(3, vec![("Agent", "linked"), ("Task", "later")]),
    ]);
    view_state.subagent_paths = ["early", "shell", "linked", "later", "linked"]
        .iter()
        .enumerate()
        .map(|(n, id)| SubagentPath {
            tool_use_id: id.to_string(),
            path: format!("/{n}"),
        })
        .collect();
    let found = subagent_to_enter(view_state).unwrap();
    assert_eq!((found.path.as_str(), found.tool_use_id.as_str()), ("/2", "linked"));
    view_state.focused_message = Some(1);
    assert!(subagent_to_enter(view_state).is_none());
    view_state.focused_message = Some(0);
    assert_eq!(
        effect(press(&mut app, KeyCode::Enter, PLAIN)),
        Some(Effect::PushView {
            path: "/2".to_string(),
            tool_use_id: "linked".to_string()
        })
    );
    state(&mut app).message_nav_active = false;
    assert!(subagent_to_enter(state(&mut app)).is_none());
}

#[test]
fn the_clipboard_is_reported() {
    assert_eq!(path_copy_status(Ok(())), "Path copied to clipboard");
    assert_eq!(
        session_id_copy_status(Ok(())),
        "Session ID copied to clipboard"
    );
    assert_eq!(path_copy_status(Err("no".to_string())), "no");
    assert_eq!(session_id_copy_status(Err("no".to_string())), "no");
}

#[test]
fn a_page_up_takes_a_page_down_back() {
    let mut app = view();
    press(&mut app, KeyCode::PageDown, PLAIN);
    assert_eq!(state(&mut app).scroll_offset, 70);
    press(&mut app, KeyCode::PageUp, PLAIN);
    assert_eq!(state(&mut app).scroll_offset, 50);
    app.query = "kept".to_string();
    press(&mut app, KeyCode::Char('x'), PLAIN);
    assert_eq!(app.query, "kept");
}

#[test]
fn typing_and_backspace_leave_the_query_as_it_was() {
    for cursor in 0..=3 {
        let mut app = list("aßc");
        app.cursor_pos = cursor;
        app.insert_query_char('→');
        assert!(app.backspace_query());
        assert_eq!((app.query.as_str(), app.cursor_pos), ("aßc", cursor));
    }
}

#[test]
fn only_typing_needs_room_for_the_cursor() {
    let app = list("a");
    assert!(app.types_into_query(KeyCode::Char('x'), PLAIN, UNBOUND));
    assert!(app.types_into_query(KeyCode::Char('x'), CONTROL, UNBOUND));
    for (code, modifiers) in [
        (KeyCode::Char('?'), PLAIN),
        (KeyCode::Char('c'), CONTROL),
        (KeyCode::Char('d'), CONTROL),
        (KeyCode::Char('k'), CONTROL),
        (KeyCode::Backspace, PLAIN),
        (KeyCode::Esc, PLAIN),
    ] {
        assert!(!app.types_into_query(code, modifiers, UNBOUND));
    }
    let bound = BoundKeys {
        rename: true,
        ..UNBOUND
    };
    assert!(!app.types_into_query(KeyCode::Char('x'), PLAIN, bound));
    let mut loading = list("a");
    loading.loading = true;
    assert!(loading.types_into_query(KeyCode::Char('d'), CONTROL, bound));
    assert!(!view().types_into_query(KeyCode::Char('x'), PLAIN, UNBOUND));

    let mut full = list("ab");
    full.cursor_pos = usize::MAX;
    press(&mut full, KeyCode::Left, PLAIN);
    assert_eq!(full.cursor_pos, usize::MAX - 1);
}
