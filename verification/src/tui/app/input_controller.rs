//! What each key does.

use crate::tui::app::query::{changes_text, edited, query_of, same_but_query, Edit, Query};
use crate::tui::app::state::{
    Action, App, AppMode, BoundKeys, DialogMode, Effect, KeyCode, KeyModifiers, ListSearchMode,
    Outcome, ViewSearchMode, ViewState,
};
use crate::tui::app::subagent::{subagent_to_enter, target};
use vstd::prelude::*;
use vstd::string::*;

verus! {

/// Nothing more is asked for.
pub open spec fn quiet() -> Outcome {
    Outcome { action: None, effect: None }
}

/// The program is asked to act.
pub open spec fn acting(action: Action) -> Outcome {
    Outcome { action: Some(action), effect: None }
}

/// The rest of the interface is asked to act.
pub open spec fn asking(effect: Effect) -> Outcome {
    Outcome { action: None, effect: Some(effect) }
}

fn nothing() -> (outcome: Outcome)
    ensures
        outcome == quiet(),
{
    Outcome { action: None, effect: None }
}

fn act(action: Action) -> (outcome: Outcome)
    ensures
        outcome == acting(action),
{
    Outcome { action: Some(action), effect: None }
}

fn ask(effect: Effect) -> (outcome: Outcome)
    ensures
        outcome == asking(effect),
{
    Outcome { action: None, effect: Some(effect) }
}

/// What a key does in a transcript.
#[derive(Clone, Copy, Debug, PartialEq, Eq, Structural)]
pub enum ViewCommand {
    /// Step back: out of the messages, the search, the subagent or the transcript.
    Back,
    /// Close the transcript.
    Close,
    Down,
    Up,
    NextMessage,
    PrevMessage,
    HalfPageDown,
    HalfPageUp,
    PageDown,
    PageUp,
    Top,
    Bottom,
    Search,
    /// Enter a subagent's transcript, or walk through the messages.
    Enter,
    NextMatch,
    PrevMatch,
    ToggleTools,
    ToggleThinking,
    ToggleTiming,
    ShowPath,
    CopyPath,
    CopySessionId,
    Export,
    Yank,
    Help,
    Interrupt,
    ToggleMouse,
    Ignore,
}

/// The keys of a transcript.
pub open spec fn view_command(code: KeyCode, modifiers: KeyModifiers) -> ViewCommand {
    match code {
        KeyCode::Esc => ViewCommand::Back,
        KeyCode::Down => ViewCommand::Down,
        KeyCode::Up => ViewCommand::Up,
        KeyCode::PageDown => ViewCommand::PageDown,
        KeyCode::PageUp => ViewCommand::PageUp,
        KeyCode::Home => ViewCommand::Top,
        KeyCode::End => ViewCommand::Bottom,
        KeyCode::Enter => ViewCommand::Enter,
        KeyCode::Char(c) => if c == 'q' {
            ViewCommand::Close
        } else if c == 'j' {
            ViewCommand::Down
        } else if c == 'k' {
            ViewCommand::Up
        } else if c == 'J' || c == ']' {
            ViewCommand::NextMessage
        } else if c == 'K' || c == '[' {
            ViewCommand::PrevMessage
        } else if c == 'd' {
            ViewCommand::HalfPageDown
        } else if c == 'u' {
            ViewCommand::HalfPageUp
        } else if c == 'g' {
            ViewCommand::Top
        } else if c == 'G' {
            ViewCommand::Bottom
        } else if c == '/' {
            ViewCommand::Search
        } else if c == 'n' && !modifiers.control {
            ViewCommand::NextMatch
        } else if c == 'N' {
            ViewCommand::PrevMatch
        } else if c == 't' {
            ViewCommand::ToggleTools
        } else if c == 'T' {
            ViewCommand::ToggleThinking
        } else if c == 'i' {
            ViewCommand::ToggleTiming
        } else if c == 'p' {
            ViewCommand::ShowPath
        } else if c == 'Y' {
            ViewCommand::CopyPath
        } else if c == 'I' {
            ViewCommand::CopySessionId
        } else if c == 'e' {
            ViewCommand::Export
        } else if c == 'y' {
            ViewCommand::Yank
        } else if c == '?' {
            ViewCommand::Help
        } else if c == 'c' && modifiers.control {
            ViewCommand::Interrupt
        } else if c == 'M' {
            ViewCommand::ToggleMouse
        } else {
            ViewCommand::Ignore
        },
        _ => ViewCommand::Ignore,
    }
}

fn decode_view_key(code: KeyCode, modifiers: KeyModifiers) -> (command: ViewCommand)
    ensures
        command == view_command(code, modifiers),
{
    match code {
        KeyCode::Esc => ViewCommand::Back,
        KeyCode::Char('q') => ViewCommand::Close,
        KeyCode::Down | KeyCode::Char('j') => ViewCommand::Down,
        KeyCode::Up | KeyCode::Char('k') => ViewCommand::Up,
        KeyCode::Char('J') | KeyCode::Char(']') => ViewCommand::NextMessage,
        KeyCode::Char('K') | KeyCode::Char('[') => ViewCommand::PrevMessage,
        KeyCode::Char('d') => ViewCommand::HalfPageDown,
        KeyCode::Char('u') => ViewCommand::HalfPageUp,
        KeyCode::PageDown => ViewCommand::PageDown,
        KeyCode::PageUp => ViewCommand::PageUp,
        KeyCode::Char('g') | KeyCode::Home => ViewCommand::Top,
        KeyCode::Char('G') | KeyCode::End => ViewCommand::Bottom,
        KeyCode::Char('/') => ViewCommand::Search,
        KeyCode::Enter => ViewCommand::Enter,
        KeyCode::Char('n') => if modifiers.control {
            ViewCommand::Ignore
        } else {
            ViewCommand::NextMatch
        },
        KeyCode::Char('N') => ViewCommand::PrevMatch,
        KeyCode::Char('t') => ViewCommand::ToggleTools,
        KeyCode::Char('T') => ViewCommand::ToggleThinking,
        KeyCode::Char('i') => ViewCommand::ToggleTiming,
        KeyCode::Char('p') => ViewCommand::ShowPath,
        KeyCode::Char('Y') => ViewCommand::CopyPath,
        KeyCode::Char('I') => ViewCommand::CopySessionId,
        KeyCode::Char('e') => ViewCommand::Export,
        KeyCode::Char('y') => ViewCommand::Yank,
        KeyCode::Char('?') => ViewCommand::Help,
        KeyCode::Char('c') => if modifiers.control {
            ViewCommand::Interrupt
        } else {
            ViewCommand::Ignore
        },
        KeyCode::Char('M') => ViewCommand::ToggleMouse,
        _ => ViewCommand::Ignore,
    }
}

/// The last line that a transcript can be scrolled to.
pub open spec fn max_scroll(state: ViewState, viewport_height: usize) -> int {
    if state.total_lines >= viewport_height {
        state.total_lines - viewport_height
    } else {
        0
    }
}

/// The first line shown after scrolling down by some lines.
pub open spec fn scrolled_down(state: ViewState, by: int, viewport_height: usize) -> int {
    if state.scroll_offset + by <= max_scroll(state, viewport_height) {
        state.scroll_offset + by
    } else {
        max_scroll(state, viewport_height)
    }
}

/// The first line shown after scrolling up by some lines.
pub open spec fn scrolled_up(state: ViewState, by: int) -> int {
    if state.scroll_offset >= by {
        state.scroll_offset - by
    } else {
        0
    }
}

/// A transcript that shows another line first.
pub open spec fn scrolled(state: ViewState, to: int) -> ViewState {
    ViewState { scroll_offset: to as usize, ..state }
}

/// What a command makes of a transcript, where it stays open.
pub open spec fn view_after(
    state: ViewState,
    command: ViewCommand,
    viewport_height: usize,
) -> ViewState {
    let half = viewport_height as int / 2;
    match command {
        ViewCommand::Back => if state.message_nav_active {
            ViewState { message_nav_active: false, ..state }
        } else {
            state
        },
        ViewCommand::Down => if state.message_nav_active {
            state
        } else {
            scrolled(state, scrolled_down(state, 1, viewport_height))
        },
        ViewCommand::Up => if state.message_nav_active {
            state
        } else {
            scrolled(state, scrolled_up(state, 1))
        },
        ViewCommand::HalfPageDown => scrolled(state, scrolled_down(state, half, viewport_height)),
        ViewCommand::HalfPageUp => scrolled(state, scrolled_up(state, half)),
        ViewCommand::PageDown => scrolled(
            state,
            scrolled_down(state, viewport_height as int, viewport_height),
        ),
        ViewCommand::PageUp => scrolled(state, scrolled_up(state, viewport_height as int)),
        ViewCommand::Top => scrolled(state, 0),
        ViewCommand::Bottom => scrolled(state, max_scroll(state, viewport_height)),
        ViewCommand::Enter => if !state.message_nav_active && state.message_ranges@.len() > 0 {
            ViewState { message_nav_active: true, ..state }
        } else {
            state
        },
        _ => state,
    }
}

/// Whether a command steps out of the transcript altogether.
pub open spec fn leaves(state: ViewState, depth: usize, command: ViewCommand) -> bool {
    match command {
        ViewCommand::Back => !state.message_nav_active && state.search_mode
            != ViewSearchMode::Active && depth <= 1,
        ViewCommand::Close => true,
        _ => false,
    }
}

/// The dialog that is open after a command.
pub open spec fn dialog_after(
    dialog: DialogMode,
    state: ViewState,
    command: ViewCommand,
) -> DialogMode {
    match command {
        ViewCommand::Export => DialogMode::ExportMenu { selected: 0 },
        ViewCommand::Yank => if state.message_nav_active {
            dialog
        } else {
            DialogMode::YankMenu { selected: 0 }
        },
        ViewCommand::Help => DialogMode::Help { scroll: 0 },
        _ => dialog,
    }
}

/// What a command asks for.
pub open spec fn view_outcome(
    app: App,
    state: ViewState,
    depth: usize,
    command: ViewCommand,
) -> Outcome {
    match command {
        ViewCommand::Back => if state.message_nav_active {
            quiet()
        } else if state.search_mode == ViewSearchMode::Active {
            asking(Effect::ClearViewSearch)
        } else if depth > 1 {
            asking(Effect::PopView)
        } else if app.single_file_mode {
            acting(Action::Quit)
        } else {
            quiet()
        },
        ViewCommand::Close => if app.single_file_mode {
            acting(Action::Quit)
        } else {
            quiet()
        },
        ViewCommand::Down => if state.message_nav_active {
            asking(Effect::FocusNextMessage)
        } else {
            asking(Effect::SyncFocusAfterScroll)
        },
        ViewCommand::Up => if state.message_nav_active {
            asking(Effect::FocusPrevMessage)
        } else {
            asking(Effect::SyncFocusAfterScroll)
        },
        ViewCommand::NextMessage => asking(Effect::FocusNextMessage),
        ViewCommand::PrevMessage => asking(Effect::FocusPrevMessage),
        ViewCommand::HalfPageDown
        | ViewCommand::HalfPageUp
        | ViewCommand::PageDown
        | ViewCommand::PageUp
        | ViewCommand::Top
        | ViewCommand::Bottom => asking(Effect::SyncFocusAfterScroll),
        ViewCommand::Search => asking(Effect::StartViewSearch),
        ViewCommand::Enter => match target(state) {
            Some(found) => asking(
                Effect::PushView { path: found.path, tool_use_id: found.tool_use_id },
            ),
            None => if !state.message_nav_active && state.message_ranges@.len() > 0 {
                asking(Effect::SyncFocusToScroll)
            } else {
                quiet()
            },
        },
        ViewCommand::NextMatch => if state.search_mode == ViewSearchMode::Active {
            asking(Effect::NextSearchMatch)
        } else {
            quiet()
        },
        ViewCommand::PrevMatch => if state.search_mode == ViewSearchMode::Active {
            asking(Effect::PrevSearchMatch)
        } else {
            quiet()
        },
        ViewCommand::ToggleTools => asking(Effect::ToggleViewTools),
        ViewCommand::ToggleThinking => asking(Effect::ToggleViewThinking),
        ViewCommand::ToggleTiming => asking(Effect::ToggleViewTiming),
        ViewCommand::ShowPath => asking(Effect::ShowStatus(state.conversation_path)),
        ViewCommand::CopyPath => asking(Effect::CopyPath(state.conversation_path)),
        ViewCommand::CopySessionId => match state.session_id {
            Some(id) => asking(Effect::CopySessionId(id)),
            None => quiet(),
        },
        ViewCommand::Yank => if state.message_nav_active {
            asking(Effect::CopyFocusedMessage)
        } else {
            quiet()
        },
        ViewCommand::Interrupt => acting(Action::Quit),
        ViewCommand::ToggleMouse => acting(Action::ToggleMouse),
        ViewCommand::Export | ViewCommand::Help | ViewCommand::Ignore => quiet(),
    }
}

/// The interface after a command in a transcript, and what the command asks for.
pub open spec fn view_run(
    app: App,
    state: ViewState,
    depth: usize,
    command: ViewCommand,
    viewport_height: usize,
) -> (App, Outcome) {
    let mode = if leaves(state, depth, command) && !app.single_file_mode {
        AppMode::List
    } else {
        AppMode::View { state: view_after(state, command, viewport_height), depth }
    };
    let mouse_capture_enabled = if command == ViewCommand::ToggleMouse {
        !app.mouse_capture_enabled
    } else {
        app.mouse_capture_enabled
    };
    (
        App {
            app_mode: mode,
            dialog_mode: dialog_after(app.dialog_mode, state, command),
            mouse_capture_enabled,
            ..app
        },
        view_outcome(app, state, depth, command),
    )
}

/// What a key asks for while a search is typed.
pub open spec fn typing_outcome(code: KeyCode, modifiers: KeyModifiers) -> Outcome {
    match code {
        KeyCode::Char(c) => if c == 'c' && modifiers.control {
            asking(Effect::ClearViewSearch)
        } else if c == 'u' && modifiers.control {
            asking(Effect::ClearViewSearchQuery)
        } else if c == 'w' && modifiers.control {
            asking(Effect::DeleteViewSearchWord)
        } else {
            asking(Effect::PushViewSearchChar(c))
        },
        KeyCode::Backspace => asking(Effect::BackspaceViewSearch),
        KeyCode::Enter => asking(Effect::CommitViewSearch),
        KeyCode::Esc => asking(Effect::ClearViewSearch),
        _ => quiet(),
    }
}

/// Whether a search is being typed.
pub open spec fn typing(app: App) -> bool {
    match app.app_mode {
        AppMode::View { state, depth } => state.search_mode == ViewSearchMode::Typing,
        AppMode::List => false,
    }
}

/// An action on the selected session, where one is selected.
pub open spec fn resuming(path: Option<String>) -> Outcome {
    match path {
        Some(path) => acting(Action::Resume(path)),
        None => quiet(),
    }
}

pub open spec fn forking(path: Option<String>) -> Outcome {
    match path {
        Some(path) => acting(Action::ForkResume(path)),
        None => quiet(),
    }
}

pub open spec fn selecting(path: Option<String>) -> Outcome {
    match path {
        Some(path) => acting(Action::Select(path)),
        None => quiet(),
    }
}

/// The interface after a key in a transcript, and what the key asks for.
pub open spec fn view_step(
    app: App,
    code: KeyCode,
    modifiers: KeyModifiers,
    bound: BoundKeys,
    viewport_height: usize,
) -> (App, Outcome) {
    if typing(app) {
        (app, typing_outcome(code, modifiers))
    } else if bound.delete {
        if app.single_file_mode {
            (app, quiet())
        } else {
            (App { dialog_mode: DialogMode::ConfirmDelete, ..app }, quiet())
        }
    } else if bound.resume {
        if app.single_file_mode {
            (app, quiet())
        } else {
            (app, resuming(app.selected_path))
        }
    } else if bound.fork {
        if app.single_file_mode {
            (app, quiet())
        } else {
            (app, forking(app.selected_path))
        }
    } else {
        match app.app_mode {
            AppMode::List => (app, quiet()),
            AppMode::View { state, depth } => if app.select_mode && code == KeyCode::Enter {
                (app, acting(Action::Select(state.conversation_path)))
            } else {
                view_run(app, state, depth, view_command(code, modifiers), viewport_height)
            },
        }
    }
}

/// The edit that a key stands for in the list.
pub open spec fn edit_of(code: KeyCode, modifiers: KeyModifiers) -> Option<Edit> {
    match code {
        KeyCode::Char(c) => if c == '?' {
            None
        } else if c == 'a' && modifiers.control {
            Some(Edit::Home)
        } else if c == 'e' && modifiers.control {
            Some(Edit::End)
        } else if c == 'b' && modifiers.control {
            Some(Edit::Left)
        } else if c == 'f' && modifiers.control {
            Some(Edit::Right)
        } else if c == 'b' && modifiers.alt {
            Some(Edit::WordLeft)
        } else if c == 'f' && modifiers.alt {
            Some(Edit::WordRight)
        } else if c == 'k' && modifiers.control {
            Some(Edit::KillToEnd)
        } else if c == 'u' && modifiers.control {
            Some(Edit::KillToStart)
        } else if c == 'w' && modifiers.control {
            Some(Edit::DeleteWord)
        } else {
            Some(Edit::Insert(c))
        },
        KeyCode::Backspace => Some(Edit::Backspace),
        KeyCode::Delete => Some(Edit::Delete),
        _ => None,
    }
}

/// Whether a key stands for a character that goes into the query.
pub open spec fn types_char(code: KeyCode, modifiers: KeyModifiers) -> bool {
    edit_of(code, modifiers) matches Some(Edit::Insert(_))
}

/// Whether a key is that of a letter, held with Control.
pub open spec fn is_control(code: KeyCode, modifiers: KeyModifiers, letter: char) -> bool {
    code == KeyCode::Char(letter) && modifiers.control
}

/// Whether a key that works alike whether or not the list is loading types a character.
pub open spec fn common_types_char(code: KeyCode, modifiers: KeyModifiers) -> bool {
    types_char(code, modifiers) && !is_control(code, modifiers, 'c') && !is_control(
        code,
        modifiers,
        't',
    ) && !is_control(code, modifiers, 'n') && !is_control(code, modifiers, 'p')
}

/// Whether a key types a character in the list.
pub open spec fn list_types_char(
    app: App,
    code: KeyCode,
    modifiers: KeyModifiers,
    bound: BoundKeys,
) -> bool {
    common_types_char(code, modifiers) && (app.loading || !(bound.delete || bound.resume
        || bound.fork || bound.rename || is_control(code, modifiers, 'd') || is_control(
        code,
        modifiers,
        'o',
    )))
}

/// Whether a key types a character: the list is shown, no dialog is open, and the key is not
/// taken otherwise.
pub open spec fn key_types_char(
    app: App,
    code: KeyCode,
    modifiers: KeyModifiers,
    bound: BoundKeys,
) -> bool {
    app.dialog_mode == DialogMode::Closed && !opens_debug(app, code, modifiers) && app.app_mode is List
        && list_types_char(app, code, modifiers, bound)
}

/// The list after a key: the query, the dialog, and what the key asks for.
pub struct ListStep {
    pub query: Query,
    pub dialog: DialogMode,
    pub outcome: Outcome,
}

/// The list stays as it is.
pub open spec fn list_same(app: App, outcome: Outcome) -> ListStep {
    ListStep { query: query_of(app), dialog: app.dialog_mode, outcome }
}

/// The query is edited, and searched for where it has changed and is to be.
pub open spec fn list_edit(app: App, edit: Edit, dispatch_search: bool) -> ListStep {
    ListStep {
        query: edited(query_of(app), edit, app.word_separators@),
        dialog: app.dialog_mode,
        outcome: if changes_text(query_of(app), edit) && dispatch_search {
            asking(Effect::DispatchSearch)
        } else {
            quiet()
        },
    }
}

/// What a key does that works alike whether or not the list is loading.
pub open spec fn common_step(
    app: App,
    code: KeyCode,
    modifiers: KeyModifiers,
    dispatch_search: bool,
) -> ListStep {
    match code {
        KeyCode::Esc => if app.query@.len() == 0 {
            list_same(app, acting(Action::Quit))
        } else {
            ListStep {
                query: Query { text: Seq::empty(), cursor: 0 },
                dialog: app.dialog_mode,
                outcome: asking(Effect::DispatchSearch),
            }
        },
        KeyCode::Left => if modifiers.control {
            list_edit(app, Edit::WordLeft, false)
        } else {
            list_edit(app, Edit::Left, false)
        },
        KeyCode::Right => if modifiers.control {
            list_edit(app, Edit::WordRight, false)
        } else {
            list_edit(app, Edit::Right, false)
        },
        KeyCode::Up => list_same(app, asking(Effect::SelectPrev)),
        KeyCode::Down => list_same(app, asking(Effect::SelectNext)),
        KeyCode::PageUp => list_same(app, asking(Effect::SelectPageUp)),
        KeyCode::PageDown => list_same(app, asking(Effect::SelectPageDown)),
        KeyCode::Tab => list_same(app, asking(Effect::ToggleWorkspaceFilter)),
        KeyCode::Char(c) => if c == 'c' && modifiers.control {
            list_same(app, acting(Action::Quit))
        } else if c == 't' && modifiers.control {
            if app.semantic_toggle_available {
                list_same(app, asking(Effect::ToggleListSearchMode))
            } else {
                list_same(app, quiet())
            }
        } else if c == 'n' && modifiers.control {
            list_same(app, asking(Effect::SelectNext))
        } else if c == 'p' && modifiers.control {
            list_same(app, asking(Effect::SelectPrev))
        } else if c == '?' {
            ListStep {
                query: query_of(app),
                dialog: DialogMode::Help { scroll: 0 },
                outcome: quiet(),
            }
        } else {
            match edit_of(code, modifiers) {
                Some(edit) => list_edit(app, edit, dispatch_search),
                None => list_same(app, quiet()),
            }
        },
        _ => match edit_of(code, modifiers) {
            Some(edit) => list_edit(app, edit, dispatch_search),
            None => list_same(app, quiet()),
        },
    }
}

/// What a key does in the list.
pub open spec fn list_step(
    app: App,
    code: KeyCode,
    modifiers: KeyModifiers,
    bound: BoundKeys,
) -> ListStep {
    if app.loading {
        common_step(app, code, modifiers, false)
    } else if bound.delete {
        if app.selected_path is Some {
            ListStep {
                query: query_of(app),
                dialog: DialogMode::ConfirmDelete,
                outcome: quiet(),
            }
        } else {
            list_same(app, quiet())
        }
    } else if bound.resume {
        list_same(app, resuming(app.selected_path))
    } else if bound.fork {
        list_same(app, forking(app.selected_path))
    } else if bound.rename {
        if app.selected_path is Some {
            list_same(app, asking(Effect::StartRename))
        } else {
            list_same(app, quiet())
        }
    } else if code == KeyCode::Enter {
        list_same(app, quiet())
    } else if code == KeyCode::Home {
        list_same(app, asking(Effect::SelectFirst))
    } else if code == KeyCode::End {
        list_same(app, asking(Effect::SelectLast))
    } else if code == KeyCode::Char('d') && modifiers.control {
        list_same(app, asking(Effect::SelectHalfPageDown))
    } else if code == KeyCode::Char('o') && modifiers.control {
        list_same(app, selecting(app.selected_path))
    } else {
        common_step(app, code, modifiers, true)
    }
}

/// Whether two states differ in the query and the dialog at most.
pub open spec fn same_but_list(a: App, b: App) -> bool {
    b == (App { query: b.query, cursor_pos: b.cursor_pos, dialog_mode: b.dialog_mode, ..a })
}

/// Whether a state and an outcome are those of a step in the list.
pub open spec fn takes_step(before: App, after: App, outcome: Outcome, step: ListStep) -> bool {
    &&& query_of(after) == step.query
    &&& after.dialog_mode == step.dialog
    &&& outcome == step.outcome
    &&& same_but_list(before, after)
}

/// What a key asks of the open dialog.
pub open spec fn dialog_outcome(dialog: DialogMode) -> Outcome {
    match dialog {
        DialogMode::ConfirmDelete => asking(Effect::ConfirmKey),
        DialogMode::ExportMenu { selected } => asking(Effect::MenuKey),
        DialogMode::YankMenu { selected } => asking(Effect::MenuKey),
        DialogMode::Help { scroll } => asking(Effect::HelpKey),
        DialogMode::Rename => asking(Effect::RenameKey),
        DialogMode::SemanticDebug => quiet(),
        DialogMode::Closed => quiet(),
    }
}

/// Whether a key opens the details of how a session was found by meaning.
pub open spec fn opens_debug(app: App, code: KeyCode, modifiers: KeyModifiers) -> bool {
    app.list_search_mode == ListSearchMode::Semantic && app.semantic_result_selected && code
        == KeyCode::Char('s') && modifiers.control
}

/// Whether a state and an outcome are those after a key: the open dialog takes it, else it opens the
/// details of how a session was found, else the transcript or the list takes it.
pub open spec fn handles_key(
    before: App,
    after: App,
    outcome: Outcome,
    code: KeyCode,
    modifiers: KeyModifiers,
    bound: BoundKeys,
    viewport_height: usize,
) -> bool {
    if before.dialog_mode != DialogMode::Closed {
        &&& outcome == dialog_outcome(before.dialog_mode)
        &&& after == if before.dialog_mode == DialogMode::SemanticDebug {
            App { dialog_mode: DialogMode::Closed, ..before }
        } else {
            before
        }
    } else if opens_debug(before, code, modifiers) {
        &&& outcome == quiet()
        &&& after == (App { dialog_mode: DialogMode::SemanticDebug, ..before })
    } else {
        match before.app_mode {
            AppMode::View { state, depth } => (after, outcome) == view_step(
                before,
                code,
                modifiers,
                bound,
                viewport_height,
            ),
            AppMode::List => takes_step(
                before,
                after,
                outcome,
                list_step(before, code, modifiers, bound),
            ),
        }
    }
}

fn decode_edit_key(code: KeyCode, modifiers: KeyModifiers) -> (edit: Option<Edit>)
    ensures
        edit == edit_of(code, modifiers),
{
    match code {
        KeyCode::Char('?') => None,
        KeyCode::Char(c) => if modifiers.control && c == 'a' {
            Some(Edit::Home)
        } else if modifiers.control && c == 'e' {
            Some(Edit::End)
        } else if modifiers.control && c == 'b' {
            Some(Edit::Left)
        } else if modifiers.control && c == 'f' {
            Some(Edit::Right)
        } else if modifiers.alt && c == 'b' {
            Some(Edit::WordLeft)
        } else if modifiers.alt && c == 'f' {
            Some(Edit::WordRight)
        } else if modifiers.control && c == 'k' {
            Some(Edit::KillToEnd)
        } else if modifiers.control && c == 'u' {
            Some(Edit::KillToStart)
        } else if modifiers.control && c == 'w' {
            Some(Edit::DeleteWord)
        } else {
            Some(Edit::Insert(c))
        },
        KeyCode::Backspace => Some(Edit::Backspace),
        KeyCode::Delete => Some(Edit::Delete),
        _ => None,
    }
}

fn scroll_down(offset: usize, by: usize, max: usize) -> (to: usize)
    ensures
        to == if offset + by <= max {
            offset + by
        } else {
            max as int
        },
{
    if offset <= max && by <= max - offset {
        offset + by
    } else {
        max
    }
}

fn opt_action(path: &Option<String>, fork: bool) -> (outcome: Outcome)
    ensures
        outcome == if fork {
            forking(*path)
        } else {
            resuming(*path)
        },
{
    match path {
        Some(path) => if fork {
            act(Action::ForkResume(path.clone()))
        } else {
            act(Action::Resume(path.clone()))
        },
        None => nothing(),
    }
}

impl ViewState {
    /// Changes the transcript as a command says.
    fn change(&mut self, command: ViewCommand, viewport_height: usize)
        ensures
            *final(self) == view_after(*old(self), command, viewport_height),
    {
        let max_scroll: usize = self.total_lines.saturating_sub(viewport_height);
        let half: usize = viewport_height / 2;
        match command {
            ViewCommand::Back => {
                self.message_nav_active = false;
            },
            ViewCommand::Down => {
                if !self.message_nav_active {
                    self.scroll_offset = scroll_down(self.scroll_offset, 1, max_scroll);
                }
            },
            ViewCommand::Up => {
                if !self.message_nav_active {
                    self.scroll_offset = self.scroll_offset.saturating_sub(1);
                }
            },
            ViewCommand::HalfPageDown => {
                self.scroll_offset = scroll_down(self.scroll_offset, half, max_scroll);
            },
            ViewCommand::HalfPageUp => {
                self.scroll_offset = self.scroll_offset.saturating_sub(half);
            },
            ViewCommand::PageDown => {
                self.scroll_offset = scroll_down(self.scroll_offset, viewport_height, max_scroll);
            },
            ViewCommand::PageUp => {
                self.scroll_offset = self.scroll_offset.saturating_sub(viewport_height);
            },
            ViewCommand::Top => {
                self.scroll_offset = 0;
            },
            ViewCommand::Bottom => {
                self.scroll_offset = max_scroll;
            },
            ViewCommand::Enter => {
                if self.message_ranges.len() > 0 {
                    self.message_nav_active = true;
                }
            },
            _ => {},
        }
    }
}

impl App {
    /// Carries an edit of the query out, and tells whether the text changed.
    fn edit_query(&mut self, edit: Edit) -> (changed: bool)
        requires
            edit is Insert ==> old(self).cursor_pos < usize::MAX,
        ensures
            query_of(*final(self)) == edited(
                query_of(*old(self)),
                edit,
                old(self).word_separators@,
            ),
            changed == changes_text(query_of(*old(self)), edit),
            same_but_query(*old(self), *final(self)),
    {
        match edit {
            Edit::Left => {
                self.cursor_left();
                false
            },
            Edit::Right => {
                self.cursor_right();
                false
            },
            Edit::Home => {
                self.cursor_home();
                false
            },
            Edit::End => {
                self.cursor_end();
                false
            },
            Edit::WordLeft => {
                self.cursor_word_left();
                false
            },
            Edit::WordRight => {
                self.cursor_word_right();
                false
            },
            Edit::KillToEnd => self.kill_to_end(),
            Edit::KillToStart => self.kill_to_start(),
            Edit::DeleteWord => self.delete_word_backwards(),
            Edit::Insert(c) => {
                self.insert_query_char(c);
                true
            },
            Edit::Backspace => self.backspace_query(),
            Edit::Delete => self.delete_query_char(),
        }
    }

    /// Edits the query where a key stands for an edit, and tells whether it does.
    pub fn handle_list_query_edit_key(
        &mut self,
        code: KeyCode,
        modifiers: KeyModifiers,
        dispatch_search: bool,
    ) -> (handled: (bool, Outcome))
        requires
            types_char(code, modifiers) ==> old(self).cursor_pos < usize::MAX,
        ensures
            handled.0 == edit_of(code, modifiers) is Some,
            takes_step(
                *old(self),
                *final(self),
                handled.1,
                match edit_of(code, modifiers) {
                    Some(edit) => list_edit(*old(self), edit, dispatch_search),
                    None => list_same(*old(self), quiet()),
                },
            ),
    {
        match decode_edit_key(code, modifiers) {
            Some(edit) => {
                let changed = self.edit_query(edit);
                if changed && dispatch_search {
                    (true, ask(Effect::DispatchSearch))
                } else {
                    (true, nothing())
                }
            },
            None => (false, nothing()),
        }
    }

    /// Handles a key that works alike whether or not the list is loading.
    pub fn handle_common_list_key(
        &mut self,
        code: KeyCode,
        modifiers: KeyModifiers,
        dispatch_search: bool,
    ) -> (outcome: Outcome)
        requires
            common_types_char(code, modifiers) ==> old(self).cursor_pos < usize::MAX,
        ensures
            takes_step(
                *old(self),
                *final(self),
                outcome,
                common_step(*old(self), code, modifiers, dispatch_search),
            ),
    {
        match code {
            KeyCode::Esc => {
                if self.query.as_str().unicode_len() == 0 {
                    act(Action::Quit)
                } else {
                    self.query = String::new();
                    self.cursor_pos = 0;
                    assert(self.query@ =~= Seq::<char>::empty());
                    ask(Effect::DispatchSearch)
                }
            },
            KeyCode::Left => {
                if modifiers.control {
                    self.cursor_word_left();
                } else {
                    self.cursor_left();
                }
                nothing()
            },
            KeyCode::Right => {
                if modifiers.control {
                    self.cursor_word_right();
                } else {
                    self.cursor_right();
                }
                nothing()
            },
            KeyCode::Up => ask(Effect::SelectPrev),
            KeyCode::Down => ask(Effect::SelectNext),
            KeyCode::PageUp => ask(Effect::SelectPageUp),
            KeyCode::PageDown => ask(Effect::SelectPageDown),
            KeyCode::Tab => ask(Effect::ToggleWorkspaceFilter),
            KeyCode::Char('?') => {
                self.dialog_mode = DialogMode::Help { scroll: 0 };
                nothing()
            },
            KeyCode::Char(c) => {
                if modifiers.control && c == 'c' {
                    act(Action::Quit)
                } else if modifiers.control && c == 't' {
                    if self.semantic_toggle_available {
                        ask(Effect::ToggleListSearchMode)
                    } else {
                        nothing()
                    }
                } else if modifiers.control && c == 'n' {
                    ask(Effect::SelectNext)
                } else if modifiers.control && c == 'p' {
                    ask(Effect::SelectPrev)
                } else {
                    self.handle_list_query_edit_key(code, modifiers, dispatch_search).1
                }
            },
            _ => self.handle_list_query_edit_key(code, modifiers, dispatch_search).1,
        }
    }

    /// Handles a key in the list.
    pub fn handle_list_key(
        &mut self,
        code: KeyCode,
        modifiers: KeyModifiers,
        bound: BoundKeys,
    ) -> (outcome: Outcome)
        requires
            list_types_char(*old(self), code, modifiers, bound) ==> old(self).cursor_pos
                < usize::MAX,
        ensures
            takes_step(
                *old(self),
                *final(self),
                outcome,
                list_step(*old(self), code, modifiers, bound),
            ),
    {
        if self.loading {
            return self.handle_common_list_key(code, modifiers, false);
        }
        if bound.delete {
            if self.selected_path.is_some() {
                self.dialog_mode = DialogMode::ConfirmDelete;
            }
            return nothing();
        }
        if bound.resume {
            return opt_action(&self.selected_path, false);
        }
        if bound.fork {
            return opt_action(&self.selected_path, true);
        }
        if bound.rename {
            return if self.selected_path.is_some() {
                ask(Effect::StartRename)
            } else {
                nothing()
            };
        }
        match code {
            KeyCode::Enter => nothing(),
            KeyCode::Home => ask(Effect::SelectFirst),
            KeyCode::End => ask(Effect::SelectLast),
            KeyCode::Char(c) => {
                if modifiers.control && c == 'd' {
                    ask(Effect::SelectHalfPageDown)
                } else if modifiers.control && c == 'o' {
                    match &self.selected_path {
                        Some(path) => act(Action::Select(path.clone())),
                        None => nothing(),
                    }
                } else {
                    self.handle_common_list_key(code, modifiers, true)
                }
            },
            _ => self.handle_common_list_key(code, modifiers, true),
        }
    }

    /// Handles a key while a search in a transcript is typed.
    pub fn handle_search_typing_key(&self, code: KeyCode, modifiers: KeyModifiers) -> (outcome:
        Outcome)
        ensures
            outcome == typing_outcome(code, modifiers),
    {
        match code {
            KeyCode::Char(c) => if modifiers.control && c == 'c' {
                ask(Effect::ClearViewSearch)
            } else if modifiers.control && c == 'u' {
                ask(Effect::ClearViewSearchQuery)
            } else if modifiers.control && c == 'w' {
                ask(Effect::DeleteViewSearchWord)
            } else {
                ask(Effect::PushViewSearchChar(c))
            },
            KeyCode::Backspace => ask(Effect::BackspaceViewSearch),
            KeyCode::Enter => ask(Effect::CommitViewSearch),
            KeyCode::Esc => ask(Effect::ClearViewSearch),
            _ => nothing(),
        }
    }

    /// What a command in a transcript asks for.
    fn answer_view_command(&self, state: &ViewState, depth: usize, command: ViewCommand) -> (outcome:
        Outcome)
        ensures
            outcome == view_outcome(*self, *state, depth, command),
    {
        match command {
            ViewCommand::Back => {
                if state.message_nav_active {
                    nothing()
                } else if state.search_mode == ViewSearchMode::Active {
                    ask(Effect::ClearViewSearch)
                } else if depth > 1 {
                    ask(Effect::PopView)
                } else if self.single_file_mode {
                    act(Action::Quit)
                } else {
                    nothing()
                }
            },
            ViewCommand::Close => {
                if self.single_file_mode {
                    act(Action::Quit)
                } else {
                    nothing()
                }
            },
            ViewCommand::Down => {
                if state.message_nav_active {
                    ask(Effect::FocusNextMessage)
                } else {
                    ask(Effect::SyncFocusAfterScroll)
                }
            },
            ViewCommand::Up => {
                if state.message_nav_active {
                    ask(Effect::FocusPrevMessage)
                } else {
                    ask(Effect::SyncFocusAfterScroll)
                }
            },
            ViewCommand::NextMessage => ask(Effect::FocusNextMessage),
            ViewCommand::PrevMessage => ask(Effect::FocusPrevMessage),
            ViewCommand::HalfPageDown
            | ViewCommand::HalfPageUp
            | ViewCommand::PageDown
            | ViewCommand::PageUp
            | ViewCommand::Top
            | ViewCommand::Bottom => ask(Effect::SyncFocusAfterScroll),
            ViewCommand::Search => ask(Effect::StartViewSearch),
            ViewCommand::Enter => match subagent_to_enter(state) {
                Some(found) => ask(
                    Effect::PushView { path: found.path, tool_use_id: found.tool_use_id },
                ),
                None => {
                    if !state.message_nav_active && state.message_ranges.len() > 0 {
                        ask(Effect::SyncFocusToScroll)
                    } else {
                        nothing()
                    }
                },
            },
            ViewCommand::NextMatch => {
                if state.search_mode == ViewSearchMode::Active {
                    ask(Effect::NextSearchMatch)
                } else {
                    nothing()
                }
            },
            ViewCommand::PrevMatch => {
                if state.search_mode == ViewSearchMode::Active {
                    ask(Effect::PrevSearchMatch)
                } else {
                    nothing()
                }
            },
            ViewCommand::ToggleTools => ask(Effect::ToggleViewTools),
            ViewCommand::ToggleThinking => ask(Effect::ToggleViewThinking),
            ViewCommand::ToggleTiming => ask(Effect::ToggleViewTiming),
            ViewCommand::ShowPath => ask(Effect::ShowStatus(state.conversation_path.clone())),
            ViewCommand::CopyPath => ask(Effect::CopyPath(state.conversation_path.clone())),
            ViewCommand::CopySessionId => match &state.session_id {
                Some(id) => ask(Effect::CopySessionId(id.clone())),
                None => nothing(),
            },
            ViewCommand::Yank => {
                if state.message_nav_active {
                    ask(Effect::CopyFocusedMessage)
                } else {
                    nothing()
                }
            },
            ViewCommand::Interrupt => act(Action::Quit),
            ViewCommand::ToggleMouse => act(Action::ToggleMouse),
            ViewCommand::Export | ViewCommand::Help | ViewCommand::Ignore => nothing(),
        }
    }

    /// Carries a command in a transcript out. The transcript is handed over and, where it
    /// stays open, put back.
    fn run_view_command(
        &mut self,
        start: ViewState,
        depth: usize,
        command: ViewCommand,
        viewport_height: usize,
    ) -> (outcome: Outcome)
        ensures
            (*final(self), outcome) == view_run(
                *old(self),
                start,
                depth,
                command,
                viewport_height,
            ),
    {
        let mut state = start;
        let outcome = self.answer_view_command(&state, depth, command);
        match command {
            ViewCommand::Back => {
                if !state.message_nav_active && state.search_mode != ViewSearchMode::Active
                    && depth <= 1 && !self.single_file_mode {
                    self.app_mode = AppMode::List;
                    return outcome;
                }
            },
            ViewCommand::Close => {
                if !self.single_file_mode {
                    self.app_mode = AppMode::List;
                    return outcome;
                }
            },
            ViewCommand::Export => {
                self.dialog_mode = DialogMode::ExportMenu { selected: 0 };
            },
            ViewCommand::Yank => {
                if !state.message_nav_active {
                    self.dialog_mode = DialogMode::YankMenu { selected: 0 };
                }
            },
            ViewCommand::Help => {
                self.dialog_mode = DialogMode::Help { scroll: 0 };
            },
            ViewCommand::ToggleMouse => {
                self.mouse_capture_enabled = !self.mouse_capture_enabled;
            },
            _ => {},
        }
        state.change(command, viewport_height);
        self.app_mode = AppMode::View { state, depth };
        outcome
    }

    /// Handles a key in a transcript.
    pub fn handle_view_key(
        &mut self,
        code: KeyCode,
        modifiers: KeyModifiers,
        bound: BoundKeys,
        viewport_height: usize,
    ) -> (outcome: Outcome)
        ensures
            (*final(self), outcome) == view_step(
                *old(self),
                code,
                modifiers,
                bound,
                viewport_height,
            ),
    {
        let is_typing = match &self.app_mode {
            AppMode::View { state, .. } => state.search_mode == ViewSearchMode::Typing,
            AppMode::List => false,
        };
        if is_typing {
            return self.handle_search_typing_key(code, modifiers);
        }
        if bound.delete {
            if !self.single_file_mode {
                self.dialog_mode = DialogMode::ConfirmDelete;
            }
            return nothing();
        }
        if bound.resume {
            return if self.single_file_mode {
                nothing()
            } else {
                opt_action(&self.selected_path, false)
            };
        }
        if bound.fork {
            return if self.single_file_mode {
                nothing()
            } else {
                opt_action(&self.selected_path, true)
            };
        }
        if self.select_mode && code == KeyCode::Enter {
            return match &self.app_mode {
                AppMode::View { state, .. } => act(
                    Action::Select(state.conversation_path.clone()),
                ),
                AppMode::List => nothing(),
            };
        }
        let mut mode = AppMode::List;
        std::mem::swap(&mut mode, &mut self.app_mode);
        match mode {
            AppMode::List => nothing(),
            AppMode::View { state, depth } => self.run_view_command(
                state,
                depth,
                decode_view_key(code, modifiers),
                viewport_height,
            ),
        }
    }

    /// Tells whether a key types a character into the query, which takes room for the cursor to
    /// move on.
    pub fn types_into_query(&self, code: KeyCode, modifiers: KeyModifiers, bound: BoundKeys) -> (types:
        bool)
        ensures
            types == key_types_char(*self, code, modifiers, bound),
    {
        let open = match self.dialog_mode {
            DialogMode::Closed => false,
            _ => true,
        };
        let opens_debug = self.list_search_mode == ListSearchMode::Semantic
            && self.semantic_result_selected && code == KeyCode::Char('s') && modifiers.control;
        let shows_list = match &self.app_mode {
            AppMode::View { .. } => false,
            AppMode::List => true,
        };
        if open || opens_debug || !shows_list {
            return false;
        }
        let c = match (code, decode_edit_key(code, modifiers)) {
            (KeyCode::Char(c), Some(Edit::Insert(_))) => c,
            _ => {
                return false;
            },
        };
        if modifiers.control && (c == 'c' || c == 't' || c == 'n' || c == 'p') {
            return false;
        }
        self.loading || !(bound.delete || bound.resume || bound.fork || bound.rename || (
        modifiers.control && (c == 'd' || c == 'o')))
    }

    /// Handles a key.
    pub fn handle_key(
        &mut self,
        code: KeyCode,
        modifiers: KeyModifiers,
        bound: BoundKeys,
        viewport_height: usize,
    ) -> (outcome: Outcome)
        requires
            key_types_char(*old(self), code, modifiers, bound) ==> old(self).cursor_pos
                < usize::MAX,
        ensures
            handles_key(
                *old(self),
                *final(self),
                outcome,
                code,
                modifiers,
                bound,
                viewport_height,
            ),
            old(self).dialog_mode != DialogMode::Closed ==> {
                &&& outcome == dialog_outcome(old(self).dialog_mode)
                &&& *final(self) == if old(self).dialog_mode == DialogMode::SemanticDebug {
                    App { dialog_mode: DialogMode::Closed, ..*old(self) }
                } else {
                    *old(self)
                }
            },
            old(self).dialog_mode == DialogMode::Closed && opens_debug(
                *old(self),
                code,
                modifiers,
            ) ==> {
                &&& outcome == quiet()
                &&& *final(self) == (App { dialog_mode: DialogMode::SemanticDebug, ..*old(self) })
            },
            old(self).dialog_mode == DialogMode::Closed && !opens_debug(
                *old(self),
                code,
                modifiers,
            ) ==> match old(self).app_mode {
                AppMode::View { state, depth } => (*final(self), outcome) == view_step(
                    *old(self),
                    code,
                    modifiers,
                    bound,
                    viewport_height,
                ),
                AppMode::List => takes_step(
                    *old(self),
                    *final(self),
                    outcome,
                    list_step(*old(self), code, modifiers, bound),
                ),
            },
    {
        match self.dialog_mode {
            DialogMode::ConfirmDelete => {
                return ask(Effect::ConfirmKey);
            },
            DialogMode::ExportMenu { .. } | DialogMode::YankMenu { .. } => {
                return ask(Effect::MenuKey);
            },
            DialogMode::Help { .. } => {
                return ask(Effect::HelpKey);
            },
            DialogMode::SemanticDebug => {
                self.dialog_mode = DialogMode::Closed;
                return nothing();
            },
            DialogMode::Rename => {
                return ask(Effect::RenameKey);
            },
            DialogMode::Closed => {},
        }
        if self.list_search_mode == ListSearchMode::Semantic && self.semantic_result_selected
            && code == KeyCode::Char('s') && modifiers.control {
            self.dialog_mode = DialogMode::SemanticDebug;
            return nothing();
        }
        let shows_view = match &self.app_mode {
            AppMode::View { .. } => true,
            AppMode::List => false,
        };
        if shows_view {
            self.handle_view_key(code, modifiers, bound, viewport_height)
        } else {
            self.handle_list_key(code, modifiers, bound)
        }
    }
}

/// What the status line says once something was handed to the clipboard: that it was, or why not.
pub open spec fn copy_status(copied: Result<(), String>, done: Seq<char>) -> Seq<char> {
    match copied {
        Ok(_) => done,
        Err(error) => error@,
    }
}

/// What the status line says once a path was handed to the clipboard.
pub fn path_copy_status(copied: Result<(), String>) -> (text: String)
    ensures
        text@ == copy_status(copied, "Path copied to clipboard"@),
        text@ == match copied {
            Ok(_) => "Path copied to clipboard"@,
            Err(error) => error@,
        },
{
    match copied {
        Ok(_) => "Path copied to clipboard".to_owned(),
        Err(error) => error,
    }
}

/// What the status line says once a session's identifier was handed to the clipboard.
pub fn session_id_copy_status(copied: Result<(), String>) -> (text: String)
    ensures
        text@ == copy_status(copied, "Session ID copied to clipboard"@),
        text@ == match copied {
            Ok(_) => "Session ID copied to clipboard"@,
            Err(error) => error@,
        },
{
    match copied {
        Ok(_) => "Session ID copied to clipboard".to_owned(),
        Err(error) => error,
    }
}

} // verus!
