//! What the interface knows when a key is pressed, and what a key can ask for.

use crate::tui::viewer::types::{MessageRange, RenderableEntry};
use vstd::prelude::*;

verus! {

/// A key.
#[derive(Clone, Copy, Debug, PartialEq, Eq, Structural)]
pub enum KeyCode {
    Char(char),
    Esc,
    Enter,
    Backspace,
    Delete,
    Tab,
    Left,
    Right,
    Up,
    Down,
    Home,
    End,
    PageUp,
    PageDown,
    /// A key that the interface has no use for.
    Other,
}

/// The modifiers held with a key.
#[derive(Clone, Copy, Debug, PartialEq, Eq, Structural)]
pub struct KeyModifiers {
    pub control: bool,
    pub alt: bool,
}

/// Which of the configured bindings a key with its modifiers matches.
#[derive(Clone, Copy, Debug, PartialEq, Eq, Structural)]
pub struct BoundKeys {
    pub delete: bool,
    pub resume: bool,
    pub fork: bool,
    pub rename: bool,
}

/// What the whole program does next.
#[derive(Debug, PartialEq, Eq)]
pub enum Action {
    Quit,
    /// Resume the session in a file.
    Resume(String),
    /// Fork the session in a file and resume the fork.
    ForkResume(String),
    /// Hand the file of a session back to the caller.
    Select(String),
    /// Turn the capture of the mouse on or off.
    ToggleMouse,
}

/// What the rest of the interface does next.
#[derive(Debug, PartialEq, Eq)]
pub enum Effect {
    /// The open dialog takes the key.
    ConfirmKey,
    MenuKey,
    HelpKey,
    RenameKey,
    /// Bring the focused message in line with the lines shown.
    SyncFocusAfterScroll,
    SyncFocusToScroll,
    FocusNextMessage,
    FocusPrevMessage,
    CopyFocusedMessage,
    /// Show the transcript of a subagent on top of the current one.
    PushView { path: String, tool_use_id: String },
    /// Go back to the transcript below.
    PopView,
    StartViewSearch,
    ClearViewSearch,
    ClearViewSearchQuery,
    DeleteViewSearchWord,
    PushViewSearchChar(char),
    BackspaceViewSearch,
    CommitViewSearch,
    NextSearchMatch,
    PrevSearchMatch,
    ToggleViewTools,
    ToggleViewThinking,
    ToggleViewTiming,
    /// Show a text in the status line.
    ShowStatus(String),
    /// Put the path of the session's file on the clipboard.
    CopyPath(String),
    /// Put the identifier of the session on the clipboard.
    CopySessionId(String),
    StartRename,
    SelectFirst,
    SelectLast,
    SelectHalfPageDown,
    SelectNext,
    SelectPrev,
    SelectPageUp,
    SelectPageDown,
    /// Search for what the query now says.
    DispatchSearch,
    ToggleListSearchMode,
    ToggleWorkspaceFilter,
}

/// What a key asks for.
#[derive(Debug, PartialEq, Eq)]
pub struct Outcome {
    pub action: Option<Action>,
    pub effect: Option<Effect>,
}

/// The dialog that is open.
#[derive(Clone, Copy, Debug, PartialEq, Eq, Structural)]
pub enum DialogMode {
    Closed,
    ConfirmDelete,
    ExportMenu { selected: usize },
    YankMenu { selected: usize },
    Help { scroll: usize },
    SemanticDebug,
    Rename,
}

/// How the list is searched.
#[derive(Clone, Copy, Debug, PartialEq, Eq, Structural)]
pub enum ListSearchMode {
    Text,
    Semantic,
}

/// How far a search in a transcript has got.
#[derive(Clone, Copy, Debug, PartialEq, Eq, Structural)]
pub enum ViewSearchMode {
    Off,
    Typing,
    Active,
}

/// The transcript of the subagent that a tool call started.
#[derive(Debug)]
pub struct SubagentPath {
    pub tool_use_id: String,
    pub path: String,
}

/// A transcript that is shown.
#[derive(Debug)]
pub struct ViewState {
    pub conversation_path: String,
    /// The stem of the file's name, which is the session's identifier.
    pub session_id: Option<String>,
    pub search_mode: ViewSearchMode,
    pub total_lines: usize,
    /// The first line shown.
    pub scroll_offset: usize,
    /// Whether keys move from message to message.
    pub message_nav_active: bool,
    pub focused_message: Option<usize>,
    pub message_ranges: Vec<MessageRange>,
    pub parsed_entries: Option<Vec<RenderableEntry>>,
    pub subagent_paths: Vec<SubagentPath>,
}

/// What the interface shows.
#[derive(Debug)]
pub enum AppMode {
    /// The list of sessions.
    List,
    /// A transcript, with how many are open on top of each other.
    View { state: ViewState, depth: usize },
}

/// The state of the interface.
#[derive(Debug)]
pub struct App {
    /// What the list is searched for.
    pub query: String,
    /// Where in the query the cursor stands, in characters.
    pub cursor_pos: usize,
    /// The characters that part words.
    pub word_separators: Vec<char>,
    pub dialog_mode: DialogMode,
    pub app_mode: AppMode,
    pub list_search_mode: ListSearchMode,
    /// Whether the selected session was found by meaning.
    pub semantic_result_selected: bool,
    pub semantic_toggle_available: bool,
    pub loading: bool,
    /// The file of the selected session.
    pub selected_path: Option<String>,
    /// Whether the interface shows a single file only.
    pub single_file_mode: bool,
    /// Whether a session is to be picked for the caller.
    pub select_mode: bool,
    pub mouse_capture_enabled: bool,
}

} // verus!
