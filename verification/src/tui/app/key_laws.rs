//! What each key does, key by key.

use crate::tui::app::input_controller::{
    copy_status, dialog_outcome, handles_key, key_types_char, list_step, opens_debug,
    typing_outcome, view_step, ListStep,
};
use crate::tui::app::query::{query_of, Query};
use crate::tui::app::state::{
    Action, App, AppMode, BoundKeys, DialogMode, Effect, KeyCode, KeyModifiers, ListSearchMode,
    Outcome, ViewSearchMode, ViewState,
};
use vstd::prelude::*;

verus! {

/// Whether an outcome asks for nothing.
pub open spec fn asks_nothing(outcome: Outcome) -> bool {
    outcome.action is None && outcome.effect is None
}

/// Whether an outcome asks for an effect and no action.
pub open spec fn asks_for(outcome: Outcome, effect: Effect) -> bool {
    outcome.action is None && outcome.effect == Some(effect)
}

/// Whether an outcome asks for an action and no effect.
pub open spec fn acts(outcome: Outcome, action: Action) -> bool {
    outcome.action == Some(action) && outcome.effect is None
}

/// Whether no search is typed in a transcript that is shown.
pub open spec fn shows_view(app: App, state: ViewState, depth: usize) -> bool {
    app.app_mode == (AppMode::View { state, depth }) && state.search_mode != ViewSearchMode::Typing
}

/// In a transcript the key that is bound to delete offers to delete, the one bound to resume
/// resumes the selected session, and the one bound to fork forks it. Where a key is bound to
/// several, the first of these counts. In single-file mode they do nothing.
pub proof fn law_bound_keys_act_on_the_selected_session(
    app: App,
    state: ViewState,
    depth: usize,
    code: KeyCode,
    modifiers: KeyModifiers,
    bound: BoundKeys,
    viewport_height: usize,
)
    requires
        shows_view(app, state, depth),
    ensures
        ({
            let (after, outcome) = view_step(app, code, modifiers, bound, viewport_height);
            let some = bound.delete || bound.resume || bound.fork;
            &&& some && app.single_file_mode ==> after == app && asks_nothing(outcome)
            &&& bound.delete && !app.single_file_mode ==> after == (App {
                dialog_mode: DialogMode::ConfirmDelete,
                ..app
            }) && asks_nothing(outcome)
            &&& !bound.delete && some ==> after == app
            &&& !bound.delete && bound.resume && !app.single_file_mode ==> {
                &&& app.selected_path is Some ==> acts(
                    outcome,
                    Action::Resume(app.selected_path->0),
                )
                &&& app.selected_path is None ==> asks_nothing(outcome)
            }
            &&& !bound.delete && !bound.resume && bound.fork && !app.single_file_mode ==> {
                &&& app.selected_path is Some ==> acts(
                    outcome,
                    Action::ForkResume(app.selected_path->0),
                )
                &&& app.selected_path is None ==> asks_nothing(outcome)
            }
        }),
{
}

/// No key in a transcript resumes, forks or offers to delete a session but the one that is bound to
/// it, and no key hands a session back but Enter where one is to be picked.
pub proof fn law_sessions_are_touched_by_their_keys_alone(
    app: App,
    state: ViewState,
    depth: usize,
    code: KeyCode,
    modifiers: KeyModifiers,
    bound: BoundKeys,
    viewport_height: usize,
)
    requires
        app.app_mode == (AppMode::View { state, depth }),
    ensures
        ({
            let (after, outcome) = view_step(app, code, modifiers, bound, viewport_height);
            let typing = state.search_mode == ViewSearchMode::Typing;
            &&& outcome.action is Some && outcome.action->0 is Resume ==> bound.resume
                && !bound.delete && !app.single_file_mode && !typing && app.selected_path == Some(
                outcome.action->0->Resume_0,
            )
            &&& outcome.action is Some && outcome.action->0 is ForkResume ==> bound.fork
                && !bound.resume && !bound.delete && !app.single_file_mode && !typing
                && app.selected_path == Some(outcome.action->0->ForkResume_0)
            &&& outcome.action is Some && outcome.action->0 is Select ==> app.select_mode && code
                == KeyCode::Enter && !typing && outcome.action->0->Select_0
                == state.conversation_path
            &&& after.dialog_mode == DialogMode::ConfirmDelete && app.dialog_mode
                != DialogMode::ConfirmDelete ==> bound.delete && !app.single_file_mode && !typing
        }),
{
}

/// Whether no configured binding takes a key.
pub open spec fn unbound(bound: BoundKeys) -> bool {
    !bound.delete && !bound.resume && !bound.fork
}

/// The interface with another first line of the transcript shown.
pub open spec fn showing_from(app: App, state: ViewState, depth: usize, line: usize) -> App {
    App {
        app_mode: AppMode::View {
            state: ViewState { scroll_offset: line, ..state },
            depth,
        },
        ..app
    }
}

/// Whether a line is the one that lies some lines further down, but no further than that the last
/// line of the transcript is the last one shown.
pub open spec fn lies_below(
    state: ViewState,
    viewport_height: usize,
    by: int,
    line: usize,
) -> bool {
    let last = if state.total_lines > viewport_height {
        state.total_lines - viewport_height
    } else {
        0
    };
    &&& state.scroll_offset + by <= last ==> line == state.scroll_offset + by
    &&& state.scroll_offset + by > last ==> line == last
}

/// Whether a line is the one that lies some lines further up, but no further than the first one.
pub open spec fn lies_above(state: ViewState, by: int, line: usize) -> bool {
    &&& state.scroll_offset >= by ==> line == state.scroll_offset - by
    &&& state.scroll_offset < by ==> line == 0
}

/// The keys that scroll show the transcript from another line on, and bring the focused message in
/// line. Nothing else changes.
pub proof fn law_scroll_keys_scroll(
    app: App,
    state: ViewState,
    depth: usize,
    code: KeyCode,
    modifiers: KeyModifiers,
    bound: BoundKeys,
    viewport_height: usize,
) -> (line: usize)
    requires
        shows_view(app, state, depth),
        unbound(bound),
    ensures
        ({
            let (after, outcome) = view_step(app, code, modifiers, bound, viewport_height);
            let down = code == KeyCode::Down || code == KeyCode::Char('j');
            let up = code == KeyCode::Up || code == KeyCode::Char('k');
            let page_down = code == KeyCode::PageDown;
            let page_up = code == KeyCode::PageUp;
            let half_down = code == KeyCode::Char('d');
            let half_up = code == KeyCode::Char('u');
            let top = code == KeyCode::Char('g') || code == KeyCode::Home;
            let bottom = code == KeyCode::Char('G') || code == KeyCode::End;
            let scrolls = page_down || page_up || half_down || half_up || top || bottom || ((down
                || up) && !state.message_nav_active);
            &&& scrolls ==> after == showing_from(app, state, depth, line) && asks_for(
                outcome,
                Effect::SyncFocusAfterScroll,
            )
            &&& scrolls && down ==> lies_below(state, viewport_height, 1, line)
            &&& scrolls && up ==> lies_above(state, 1, line)
            &&& page_down ==> lies_below(state, viewport_height, viewport_height as int, line)
            &&& page_up ==> lies_above(state, viewport_height as int, line)
            &&& half_down ==> lies_below(state, viewport_height, viewport_height as int / 2, line)
            &&& half_up ==> lies_above(state, viewport_height as int / 2, line)
            &&& top ==> line == 0
            &&& bottom ==> lies_below(state, viewport_height, state.total_lines as int, line)
            &&& down && state.message_nav_active ==> after == app && asks_for(
                outcome,
                Effect::FocusNextMessage,
            )
            &&& up && state.message_nav_active ==> after == app && asks_for(
                outcome,
                Effect::FocusPrevMessage,
            )
        }),
{
    let (after, outcome) = view_step(app, code, modifiers, bound, viewport_height);
    match after.app_mode {
        AppMode::View { state, depth } => state.scroll_offset,
        AppMode::List => 0,
    }
}

/// The keys that ask for one thing each do so, and change nothing themselves.
pub proof fn law_view_keys_ask_for_one_thing_each(
    app: App,
    state: ViewState,
    depth: usize,
    modifiers: KeyModifiers,
    bound: BoundKeys,
    viewport_height: usize,
)
    requires
        shows_view(app, state, depth),
        unbound(bound),
    ensures
        ({
            let at = |c: char| view_step(app, KeyCode::Char(c), modifiers, bound, viewport_height);
            let asks = |c: char, effect: Effect| at(c).0 == app && asks_for(at(c).1, effect);
            let found = state.search_mode == ViewSearchMode::Active;
            &&& asks('J', Effect::FocusNextMessage)
            &&& asks(']', Effect::FocusNextMessage)
            &&& asks('K', Effect::FocusPrevMessage)
            &&& asks('[', Effect::FocusPrevMessage)
            &&& asks('/', Effect::StartViewSearch)
            &&& asks('t', Effect::ToggleViewTools)
            &&& asks('T', Effect::ToggleViewThinking)
            &&& asks('i', Effect::ToggleViewTiming)
            &&& asks('p', Effect::ShowStatus(state.conversation_path))
            &&& asks('Y', Effect::CopyPath(state.conversation_path))
            &&& state.session_id is Some ==> asks('I', Effect::CopySessionId(state.session_id->0))
            &&& state.session_id is None ==> at('I').0 == app && asks_nothing(at('I').1)
            &&& found && !modifiers.control ==> asks('n', Effect::NextSearchMatch)
            &&& found ==> asks('N', Effect::PrevSearchMatch)
            &&& !found || modifiers.control ==> at('n').0 == app && asks_nothing(at('n').1)
            &&& !found ==> at('N').0 == app && asks_nothing(at('N').1)
            &&& state.message_nav_active ==> asks('y', Effect::CopyFocusedMessage)
            &&& !state.message_nav_active ==> asks_nothing(at('y').1) && at('y').0 == (App {
                dialog_mode: DialogMode::YankMenu { selected: 0 },
                ..app
            })
            &&& asks_nothing(at('e').1) && at('e').0 == (App {
                dialog_mode: DialogMode::ExportMenu { selected: 0 },
                ..app
            })
            &&& asks_nothing(at('?').1) && at('?').0 == (App {
                dialog_mode: DialogMode::Help { scroll: 0 },
                ..app
            })
            &&& at('M').0 == (App { mouse_capture_enabled: !app.mouse_capture_enabled, ..app })
                && acts(at('M').1, Action::ToggleMouse)
            &&& modifiers.control ==> at('c').0 == app && acts(at('c').1, Action::Quit)
            &&& !modifiers.control ==> at('c').0 == app && asks_nothing(at('c').1)
        }),
{
}

/// In a transcript `q` closes it, and Esc does where nothing else is left to step out of: to the
/// list, or out of the program where a single file is shown.
pub proof fn law_transcripts_are_closed_to_the_list(
    app: App,
    state: ViewState,
    depth: usize,
    modifiers: KeyModifiers,
    bound: BoundKeys,
    viewport_height: usize,
)
    requires
        shows_view(app, state, depth),
        unbound(bound),
    ensures
        ({
            let (after, outcome) = view_step(
                app,
                KeyCode::Char('q'),
                modifiers,
                bound,
                viewport_height,
            );
            &&& app.single_file_mode ==> after == app && acts(outcome, Action::Quit)
            &&& !app.single_file_mode ==> after == (App { app_mode: AppMode::List, ..app })
                && asks_nothing(outcome)
        }),
        ({
            let (after, outcome) = view_step(app, KeyCode::Esc, modifiers, bound, viewport_height);
            let last = !state.message_nav_active && state.search_mode == ViewSearchMode::Off
                && depth <= 1;
            &&& state.message_nav_active ==> asks_nothing(outcome) && after == (App {
                app_mode: AppMode::View {
                    state: ViewState { message_nav_active: false, ..state },
                    depth,
                },
                ..app
            })
            &&& !state.message_nav_active && state.search_mode == ViewSearchMode::Active ==> after
                == app && asks_for(outcome, Effect::ClearViewSearch)
            &&& !state.message_nav_active && state.search_mode == ViewSearchMode::Off && depth > 1
                ==> after == app && asks_for(outcome, Effect::PopView)
            &&& last && app.single_file_mode ==> after == app && acts(outcome, Action::Quit)
            &&& last && !app.single_file_mode ==> after == (App { app_mode: AppMode::List, ..app })
                && asks_nothing(outcome)
        }),
{
}

/// Enter picks the transcript where one is to be picked. Else it starts a walk through the messages,
/// and in such a walk enters the subagent that the focused message leads to.
pub proof fn law_enter_picks_or_goes_deeper(
    app: App,
    state: ViewState,
    depth: usize,
    modifiers: KeyModifiers,
    bound: BoundKeys,
    viewport_height: usize,
)
    requires
        shows_view(app, state, depth),
        unbound(bound),
    ensures
        ({
            let (after, outcome) = view_step(
                app,
                KeyCode::Enter,
                modifiers,
                bound,
                viewport_height,
            );
            let found = crate::tui::app::subagent::target(state);
            let walks = !state.message_nav_active && state.message_ranges@.len() > 0;
            &&& app.select_mode ==> after == app && acts(
                outcome,
                Action::Select(state.conversation_path),
            )
            &&& !app.select_mode && state.message_nav_active && found is Some ==> after == app
                && asks_for(
                outcome,
                Effect::PushView { path: found->0.path, tool_use_id: found->0.tool_use_id },
            )
            &&& !app.select_mode && state.message_nav_active && found is None ==> after == app
                && asks_nothing(outcome)
            &&& !app.select_mode && walks ==> asks_for(outcome, Effect::SyncFocusToScroll) && after
                == (App {
                app_mode: AppMode::View {
                    state: ViewState { message_nav_active: true, ..state },
                    depth,
                },
                ..app
            })
            &&& !app.select_mode && !state.message_nav_active && !walks ==> after == app
                && asks_nothing(outcome)
        }),
{
}

/// Whether a key has a use in a transcript.
pub open spec fn used_in_view(code: KeyCode) -> bool {
    match code {
        KeyCode::Char(c) => {
            ||| c == 'q' || c == 'j' || c == 'k' || c == 'J' || c == ']' || c == 'K' || c == '['
            ||| c == 'd' || c == 'u' || c == 'g' || c == 'G' || c == '/' || c == 'n' || c == 'N'
            ||| c == 't' || c == 'T' || c == 'i' || c == 'p' || c == 'Y' || c == 'I' || c == 'e'
            ||| c == 'y' || c == '?' || c == 'c' || c == 'M'
        },
        KeyCode::Esc | KeyCode::Enter | KeyCode::Up | KeyCode::Down => true,
        KeyCode::Home | KeyCode::End | KeyCode::PageUp | KeyCode::PageDown => true,
        _ => false,
    }
}

/// A key without a use in a transcript does nothing there.
pub proof fn law_other_keys_do_nothing_in_a_transcript(
    app: App,
    state: ViewState,
    depth: usize,
    code: KeyCode,
    modifiers: KeyModifiers,
    bound: BoundKeys,
    viewport_height: usize,
)
    requires
        shows_view(app, state, depth),
        unbound(bound),
        !used_in_view(code),
    ensures
        view_step(app, code, modifiers, bound, viewport_height).0 == app,
        asks_nothing(view_step(app, code, modifiers, bound, viewport_height).1),
{
}

/// While a search is typed, every character goes into it but the three that are held with Control;
/// bindings do not count, and the transcript stays as it is.
pub proof fn law_typed_characters_go_into_the_search(
    app: App,
    state: ViewState,
    depth: usize,
    code: KeyCode,
    modifiers: KeyModifiers,
    bound: BoundKeys,
    viewport_height: usize,
)
    requires
        app.app_mode == (AppMode::View { state, depth }),
        state.search_mode == ViewSearchMode::Typing,
    ensures
        ({
            let (after, outcome) = view_step(app, code, modifiers, bound, viewport_height);
            &&& after == app
            &&& outcome == typing_outcome(code, modifiers)
            &&& code == KeyCode::Esc ==> asks_for(outcome, Effect::ClearViewSearch)
            &&& code == KeyCode::Enter ==> asks_for(outcome, Effect::CommitViewSearch)
            &&& code == KeyCode::Backspace ==> asks_for(outcome, Effect::BackspaceViewSearch)
            &&& code is Char ==> {
                let c = code->Char_0;
                let held = modifiers.control && (c == 'c' || c == 'u' || c == 'w');
                &&& !held ==> asks_for(outcome, Effect::PushViewSearchChar(c))
                &&& held && c == 'c' ==> asks_for(outcome, Effect::ClearViewSearch)
                &&& held && c == 'u' ==> asks_for(outcome, Effect::ClearViewSearchQuery)
                &&& held && c == 'w' ==> asks_for(outcome, Effect::DeleteViewSearchWord)
            }
            &&& !(code is Char) && code != KeyCode::Esc && code != KeyCode::Enter && code
                != KeyCode::Backspace ==> asks_nothing(outcome)
        }),
{
}

/// Whether a step in the list leaves the query and the dialog as they are.
pub open spec fn stays(app: App, step: ListStep) -> bool {
    step.query.text == app.query@ && step.query.cursor == app.cursor_pos && step.dialog
        == app.dialog_mode
}

/// In the list that has been loaded, the key that is bound to delete offers to delete, the one bound
/// to resume resumes, the one bound to fork forks and the one bound to rename renames the selected
/// session. Where a key is bound to several, the first of these counts; without a selected session
/// they do nothing.
pub proof fn law_bound_keys_act_on_the_selected_session_of_the_list(
    app: App,
    code: KeyCode,
    modifiers: KeyModifiers,
    bound: BoundKeys,
)
    requires
        !app.loading,
        bound.delete || bound.resume || bound.fork || bound.rename,
    ensures
        ({
            let step = list_step(app, code, modifiers, bound);
            let path = app.selected_path;
            &&& path is None ==> stays(app, step) && asks_nothing(step.outcome)
            &&& path is Some && bound.delete ==> asks_nothing(step.outcome) && step.dialog
                == DialogMode::ConfirmDelete && step.query.text == app.query@ && step.query.cursor
                == app.cursor_pos
            &&& path is Some && !bound.delete ==> stays(app, step)
            &&& path is Some && !bound.delete && bound.resume ==> acts(
                step.outcome,
                Action::Resume(path->0),
            )
            &&& path is Some && !bound.delete && !bound.resume && bound.fork ==> acts(
                step.outcome,
                Action::ForkResume(path->0),
            )
            &&& path is Some && !bound.delete && !bound.resume && !bound.fork ==> asks_for(
                step.outcome,
                Effect::StartRename,
            )
        }),
{
}

/// No key in the list resumes, forks, deletes or renames a session but the one that is bound to it,
/// and none hands a session back but `o` with Control.
pub proof fn law_listed_sessions_are_touched_by_their_keys_alone(
    app: App,
    code: KeyCode,
    modifiers: KeyModifiers,
    bound: BoundKeys,
)
    ensures
        ({
            let step = list_step(app, code, modifiers, bound);
            let action = step.outcome.action;
            &&& action is Some && action->0 is Resume ==> !app.loading && bound.resume
                && !bound.delete && app.selected_path == Some(action->0->Resume_0)
            &&& action is Some && action->0 is ForkResume ==> !app.loading && bound.fork
                && !bound.resume && !bound.delete && app.selected_path == Some(
                action->0->ForkResume_0,
            )
            &&& action is Some && action->0 is Select ==> !app.loading && code == KeyCode::Char('o')
                && modifiers.control && app.selected_path == Some(action->0->Select_0)
            &&& step.outcome.effect == Some(Effect::StartRename) ==> !app.loading && bound.rename
                && app.selected_path is Some
            &&& step.dialog == DialogMode::ConfirmDelete && app.dialog_mode
                != DialogMode::ConfirmDelete ==> !app.loading && bound.delete
                && app.selected_path is Some
        }),
{
}

/// Whether no configured binding takes a key in the list: none does while the list is loading.
pub open spec fn unbound_in_list(app: App, bound: BoundKeys) -> bool {
    app.loading || !(bound.delete || bound.resume || bound.fork || bound.rename)
}

/// The keys of the list that move the selection, quit, switch a mode or open the help.
pub proof fn law_list_keys_do_one_thing_each(
    app: App,
    code: KeyCode,
    modifiers: KeyModifiers,
    bound: BoundKeys,
)
    requires
        unbound_in_list(app, bound),
    ensures
        ({
            let step = list_step(app, code, modifiers, bound);
            let asks = |effect: Effect| stays(app, step) && asks_for(step.outcome, effect);
            let held = |c: char| code == KeyCode::Char(c) && modifiers.control;
            &&& code == KeyCode::Up || held('p') ==> asks(Effect::SelectPrev)
            &&& code == KeyCode::Down || held('n') ==> asks(Effect::SelectNext)
            &&& code == KeyCode::PageUp ==> asks(Effect::SelectPageUp)
            &&& code == KeyCode::PageDown ==> asks(Effect::SelectPageDown)
            &&& code == KeyCode::Tab ==> asks(Effect::ToggleWorkspaceFilter)
            &&& held('c') ==> stays(app, step) && acts(step.outcome, Action::Quit)
            &&& held('t') && app.semantic_toggle_available ==> asks(Effect::ToggleListSearchMode)
            &&& held('t') && !app.semantic_toggle_available ==> stays(app, step) && asks_nothing(
                step.outcome,
            )
            &&& code == KeyCode::Char('?') ==> asks_nothing(step.outcome) && step.dialog == (
            DialogMode::Help { scroll: 0 }) && step.query.text == app.query@ && step.query.cursor
                == app.cursor_pos
            &&& code == KeyCode::Esc && app.query@.len() == 0 ==> stays(app, step) && acts(
                step.outcome,
                Action::Quit,
            )
            &&& code == KeyCode::Esc && app.query@.len() > 0 ==> step.query.text.len() == 0
                && step.query.cursor == 0 && step.dialog == app.dialog_mode && asks_for(
                step.outcome,
                Effect::DispatchSearch,
            )
            &&& code == KeyCode::Enter || code == KeyCode::Other ==> stays(app, step)
                && asks_nothing(step.outcome)
            &&& !app.loading && code == KeyCode::Home ==> asks(Effect::SelectFirst)
            &&& !app.loading && code == KeyCode::End ==> asks(Effect::SelectLast)
            &&& app.loading && (code == KeyCode::Home || code == KeyCode::End) ==> stays(app, step)
                && asks_nothing(step.outcome)
            &&& !app.loading && held('d') ==> asks(Effect::SelectHalfPageDown)
            &&& !app.loading && held('o') && app.selected_path is Some ==> stays(app, step) && acts(
                step.outcome,
                Action::Select(app.selected_path->0),
            )
            &&& !app.loading && held('o') && app.selected_path is None ==> stays(app, step)
                && asks_nothing(step.outcome)
        }),
{
}

/// Whether a key types a character of its own into the query of the list: a character, and none
/// that has another use there.
pub open spec fn types_itself(app: App, code: KeyCode, modifiers: KeyModifiers) -> bool {
    code is Char && {
        let c = code->Char_0;
        let taken = c == 'a' || c == 'e' || c == 'b' || c == 'f' || c == 'k' || c == 'u' || c == 'w'
            || c == 'c' || c == 't' || c == 'n' || c == 'p' || (!app.loading && (c == 'd' || c
            == 'o'));
        &&& c != '?'
        &&& !(modifiers.control && taken)
        &&& !(modifiers.alt && (c == 'b' || c == 'f'))
    }
}

/// The place of the cursor in the query: at its end where it would stand behind it.
pub open spec fn cursor_place(app: App) -> int {
    if app.cursor_pos <= app.query@.len() {
        app.cursor_pos as int
    } else {
        app.query@.len() as int
    }
}

/// A character that is typed in the list goes into the query where the cursor stands, and the cursor
/// moves behind it. The list is searched for it, unless it is still loading.
pub proof fn law_typed_characters_go_into_the_query(
    app: App,
    code: KeyCode,
    modifiers: KeyModifiers,
    bound: BoundKeys,
)
    requires
        unbound_in_list(app, bound),
        types_itself(app, code, modifiers),
    ensures
        ({
            let step = list_step(app, code, modifiers, bound);
            let at = cursor_place(app);
            &&& step.query.text == app.query@.take(at) + seq![code->Char_0] + app.query@.skip(at)
            &&& step.query.cursor == app.cursor_pos + 1
            &&& step.dialog == app.dialog_mode
            &&& !app.loading ==> asks_for(step.outcome, Effect::DispatchSearch)
            &&& app.loading ==> asks_nothing(step.outcome)
        }),
{
    let step = list_step(app, code, modifiers, bound);
    let at = cursor_place(app);
    assert(step.query.text =~= app.query@.take(at) + seq![code->Char_0] + app.query@.skip(at));
}

/// A key is said to type into the query exactly where it makes the query longer: no other key needs
/// room for the cursor to move on.
pub proof fn law_keys_that_type_make_the_query_longer(
    app: App,
    code: KeyCode,
    modifiers: KeyModifiers,
    bound: BoundKeys,
)
    ensures
        key_types_char(app, code, modifiers, bound) <==> app.dialog_mode == DialogMode::Closed
            && app.app_mode is List && !(app.list_search_mode == ListSearchMode::Semantic
            && app.semantic_result_selected && code == KeyCode::Char('s') && modifiers.control)
            && unbound_in_list(app, bound) && types_itself(app, code, modifiers),
        app.app_mode is List && list_step(app, code, modifiers, bound).query.text.len()
            > app.query@.len() ==> unbound_in_list(app, bound) && types_itself(
            app,
            code,
            modifiers,
        ),
{
    let text = app.query@;
    let at = cursor_place(app);
    crate::tui::app::query::lemma_words_around(text, app.word_separators@, at);
}

/// Whether a word starts at a position of a text: a separator stands right before it and none at it.
pub open spec fn starts_word(text: Seq<char>, separators: Seq<char>, at: int) -> bool {
    0 < at < text.len() && separators.contains(text[at - 1]) && !separators.contains(text[at])
}

/// Whether a position is the nearest start of a word before another one, or the start of the text
/// where there is none.
pub open spec fn nearest_word_before(
    text: Seq<char>,
    separators: Seq<char>,
    at: int,
    to: int,
) -> bool {
    &&& 0 <= to <= at
    &&& at > 0 ==> to < at
    &&& to == 0 || starts_word(text, separators, to)
    &&& forall|k: int| to < k < at ==> !#[trigger] starts_word(text, separators, k)
}

/// Whether a position is the nearest start of a word behind another one, or the end of the text
/// where there is none.
pub open spec fn nearest_word_behind(
    text: Seq<char>,
    separators: Seq<char>,
    at: int,
    to: int,
) -> bool {
    &&& at <= to <= text.len()
    &&& at < text.len() ==> at < to
    &&& to == text.len() || starts_word(text, separators, to)
    &&& forall|k: int| at < k < to ==> !#[trigger] starts_word(text, separators, k)
}

proof fn lemma_run_start_all(text: Seq<char>, separators: Seq<char>, at: int, parting: bool)
    requires
        0 <= at <= text.len(),
    ensures
        ({
            let from = crate::tui::app::query::run_start(text, separators, at, parting);
            &&& 0 <= from <= at
            &&& forall|k: int|
                from <= k < at ==> separators.contains(#[trigger] text[k]) == parting
            &&& from > 0 ==> separators.contains(text[from - 1]) != parting
        }),
    decreases at,
{
    if 0 < at && separators.contains(text[at - 1]) == parting {
        lemma_run_start_all(text, separators, at - 1, parting);
    }
}

proof fn lemma_run_end_all(text: Seq<char>, separators: Seq<char>, at: int, parting: bool)
    requires
        0 <= at <= text.len(),
    ensures
        ({
            let to = crate::tui::app::query::run_end(text, separators, at, parting);
            &&& at <= to <= text.len()
            &&& forall|k: int| at <= k < to ==> separators.contains(#[trigger] text[k]) == parting
            &&& to < text.len() ==> separators.contains(text[to]) != parting
        }),
    decreases text.len() - at,
{
    if at < text.len() && separators.contains(text[at]) == parting {
        lemma_run_end_all(text, separators, at + 1, parting);
    }
}

proof fn lemma_nearest_words(text: Seq<char>, separators: Seq<char>, at: int)
    requires
        0 <= at <= text.len(),
    ensures
        nearest_word_before(
            text,
            separators,
            at,
            crate::tui::app::query::word_left(text, separators, at),
        ),
        nearest_word_behind(
            text,
            separators,
            at,
            crate::tui::app::query::word_right(text, separators, at),
        ),
{
    let skipped = crate::tui::app::query::run_start(text, separators, at, true);
    lemma_run_start_all(text, separators, at, true);
    lemma_run_start_all(text, separators, skipped, false);
    let left = crate::tui::app::query::word_left(text, separators, at);
    assert forall|k: int| left < k < at implies !#[trigger] starts_word(text, separators, k) by {
        if k < skipped {
            assert(!separators.contains(text[k - 1]));
        } else {
            assert(separators.contains(text[k]));
        }
    }
    if at > 0 && left == at {
        assert(skipped == at);
        assert(separators.contains(text[at - 1]));
        assert(!separators.contains(text[at - 1]));
    }
    let passed = crate::tui::app::query::run_end(text, separators, at, false);
    lemma_run_end_all(text, separators, at, false);
    lemma_run_end_all(text, separators, passed, true);
    let right = crate::tui::app::query::word_right(text, separators, at);
    assert forall|k: int| at < k < right implies !#[trigger] starts_word(text, separators, k) by {
        if k < passed {
            assert(!separators.contains(text[k - 1]));
        } else {
            assert(separators.contains(text[k]));
        }
    }
    if left > 0 {
        assert(separators.contains(text[left - 1]));
        if left < skipped {
            assert(!separators.contains(text[left]));
        }
    }
    if right < text.len() {
        assert(!separators.contains(text[right]));
        if right > passed {
            assert(separators.contains(text[right - 1]));
        }
    }
}

/// Whether a key moves the cursor by a word to the left.
pub open spec fn goes_word_left(code: KeyCode, modifiers: KeyModifiers) -> bool {
    ||| code == KeyCode::Left && modifiers.control
    ||| code == KeyCode::Char('b') && modifiers.alt && !modifiers.control
}

/// Whether a key moves the cursor by a word to the right.
pub open spec fn goes_word_right(code: KeyCode, modifiers: KeyModifiers) -> bool {
    ||| code == KeyCode::Right && modifiers.control
    ||| code == KeyCode::Char('f') && modifiers.alt && !modifiers.control
}

/// The keys that move the cursor move it by a character, by a word or to an end of the query. The
/// query stays as it is and is not searched for anew.
pub proof fn law_cursor_keys_move_the_cursor(
    app: App,
    code: KeyCode,
    modifiers: KeyModifiers,
    bound: BoundKeys,
)
    requires
        unbound_in_list(app, bound),
    ensures
        ({
            let step = list_step(app, code, modifiers, bound);
            let held = |c: char| code == KeyCode::Char(c) && modifiers.control;
            let left = (code == KeyCode::Left && !modifiers.control) || held('b');
            let right = (code == KeyCode::Right && !modifiers.control) || held('f');
            let moves = left || right || held('a') || held('e') || goes_word_left(code, modifiers)
                || goes_word_right(code, modifiers);
            &&& moves ==> step.query.text == app.query@ && step.dialog == app.dialog_mode
                && asks_nothing(step.outcome)
            &&& left && app.cursor_pos > 0 ==> step.query.cursor == app.cursor_pos - 1
            &&& left && app.cursor_pos == 0 ==> step.query.cursor == 0
            &&& right && app.cursor_pos < app.query@.len() ==> step.query.cursor == app.cursor_pos
                + 1
            &&& right && app.cursor_pos >= app.query@.len() ==> step.query.cursor == app.cursor_pos
            &&& held('a') ==> step.query.cursor == 0
            &&& held('e') ==> step.query.cursor == app.query@.len()
            &&& goes_word_left(code, modifiers) ==> nearest_word_before(
                app.query@,
                app.word_separators@,
                cursor_place(app),
                step.query.cursor,
            )
            &&& goes_word_right(code, modifiers) ==> nearest_word_behind(
                app.query@,
                app.word_separators@,
                cursor_place(app),
                step.query.cursor,
            )
        }),
{
    lemma_nearest_words(app.query@, app.word_separators@, cursor_place(app));
}

/// Whether a query is another one without the characters from one position up to another, with the
/// cursor at a position.
pub open spec fn cuts(app: App, from: int, to: int, cursor: int, query: Query) -> bool {
    &&& query.text == app.query@.take(from) + app.query@.skip(to)
    &&& query.cursor == cursor
}

/// The keys that delete take away the character before or at the cursor, the word before it, or
/// what stands before or behind it. Where something was taken away, the list is searched anew unless
/// it is still loading; else nothing changes.
#[verifier::spinoff_prover]
pub proof fn law_deleting_keys_shorten_the_query(
    app: App,
    code: KeyCode,
    modifiers: KeyModifiers,
    bound: BoundKeys,
)
    requires
        unbound_in_list(app, bound),
        app.cursor_pos <= app.query@.len(),
    ensures
        ({
            let step = list_step(app, code, modifiers, bound);
            let held = |c: char| code == KeyCode::Char(c) && modifiers.control;
            let at = app.cursor_pos as int;
            let end = app.query@.len() as int;
            let deletes = code == KeyCode::Backspace || code == KeyCode::Delete || held('k')
                || held('u') || held('w');
            &&& deletes ==> step.dialog == app.dialog_mode && step.outcome.action is None
            &&& deletes && step.query.text != app.query@ && !app.loading ==> asks_for(
                step.outcome,
                Effect::DispatchSearch,
            )
            &&& deletes && (step.query.text == app.query@ || app.loading) ==> asks_nothing(
                step.outcome,
            )
            &&& code == KeyCode::Backspace && at > 0 ==> cuts(app, at - 1, at, at - 1, step.query)
            &&& code == KeyCode::Backspace && at == 0 ==> cuts(app, 0, 0, 0, step.query)
            &&& code == KeyCode::Delete && at < end ==> cuts(app, at, at + 1, at, step.query)
            &&& code == KeyCode::Delete && at == end ==> cuts(app, end, end, at, step.query)
            &&& held('k') ==> cuts(app, at, end, at, step.query)
            &&& held('u') ==> cuts(app, 0, at, 0, step.query)
            &&& held('w') ==> cuts(app, step.query.cursor, at, step.query.cursor, step.query)
                && nearest_word_before(app.query@, app.word_separators@, at, step.query.cursor)
        }),
{
    let step = list_step(app, code, modifiers, bound);
    let text = app.query@;
    let at = app.cursor_pos as int;
    let end = text.len() as int;
    lemma_nearest_words(text, app.word_separators@, at);
    assert(text.take(0) + text.skip(0) =~= text);
    assert(text.take(at) + text.skip(end) =~= text.take(at));
    assert(text.take(end) + text.skip(end) =~= text);
    assert(text.take(0) + text.skip(at) =~= text.skip(at));
    if at > 0 {
        assert(text.take(at - 1) + text.skip(at) =~= text.remove(at - 1));
        assert(text.remove(at - 1).len() != text.len());
    }
    if at < end {
        assert(text.take(at) + text.skip(at + 1) =~= text.remove(at));
        assert(text.remove(at).len() != text.len());
    }
    assert(text.take(at).len() == at);
    assert(text.skip(at).len() == end - at);
    if at == 0 {
        assert(text.skip(at) =~= text);
    }
    if at == end {
        assert(text.take(at) =~= text);
    }
}

/// Where the cursor stands behind the end of the query, there is nothing at it, before it or behind it
/// to be taken away but what a cursor at the end would take.
pub proof fn law_a_cursor_behind_the_query_deletes_from_its_end(
    app: App,
    code: KeyCode,
    modifiers: KeyModifiers,
    bound: BoundKeys,
)
    requires
        unbound_in_list(app, bound),
        app.cursor_pos > app.query@.len(),
    ensures
        ({
            let step = list_step(app, code, modifiers, bound);
            let held = |c: char| code == KeyCode::Char(c) && modifiers.control;
            let end = app.query@.len() as int;
            &&& code == KeyCode::Backspace || code == KeyCode::Delete || held('k') ==> stays(
                app,
                step,
            ) && asks_nothing(step.outcome)
            &&& held('u') ==> step.query.text.len() == 0 && step.query.cursor == 0
            &&& held('w') && end > 0 ==> cuts(
                app,
                step.query.cursor,
                end,
                step.query.cursor,
                step.query,
            ) && nearest_word_before(app.query@, app.word_separators@, end, step.query.cursor)
            &&& held('w') && end == 0 ==> stays(app, step) && asks_nothing(step.outcome)
        }),
{
    let text = app.query@;
    let end = text.len() as int;
    lemma_nearest_words(text, app.word_separators@, end);
    assert(text.take(end) =~= text);
}

/// An open dialog takes every key, the details of how a session was found are closed by any, and
/// none is open where no dialog is.
pub proof fn law_open_dialogs_take_every_key(dialog: DialogMode)
    ensures
        dialog == DialogMode::ConfirmDelete ==> asks_for(dialog_outcome(dialog), Effect::ConfirmKey),
        dialog is ExportMenu || dialog is YankMenu ==> asks_for(
            dialog_outcome(dialog),
            Effect::MenuKey,
        ),
        dialog is Help ==> asks_for(dialog_outcome(dialog), Effect::HelpKey),
        dialog == DialogMode::Rename ==> asks_for(dialog_outcome(dialog), Effect::RenameKey),
        dialog == DialogMode::SemanticDebug || dialog == DialogMode::Closed ==> asks_nothing(
            dialog_outcome(dialog),
        ),
{
}

/// The details of how a session was found are opened by `s` with Control, where the list is searched
/// by meaning and the selected session was found so, and by no other key.
pub proof fn law_details_are_opened_where_a_session_was_found_by_meaning(
    app: App,
    code: KeyCode,
    modifiers: KeyModifiers,
)
    ensures
        opens_debug(app, code, modifiers) <==> app.list_search_mode == ListSearchMode::Semantic
            && app.semantic_result_selected && code == KeyCode::Char('s') && modifiers.control,
{
}

/// A key goes to the dialog that is open, and nowhere else; one that finds the details of how a
/// session was found open closes them. Without a dialog it goes to the transcript that is shown, or
/// else to the list, where it changes nothing but the query and the dialog.
pub proof fn law_keys_go_to_what_is_in_front(
    before: App,
    after: App,
    outcome: Outcome,
    code: KeyCode,
    modifiers: KeyModifiers,
    bound: BoundKeys,
    viewport_height: usize,
)
    requires
        handles_key(before, after, outcome, code, modifiers, bound, viewport_height),
    ensures
        ({
            let open = before.dialog_mode;
            let details = before.list_search_mode == ListSearchMode::Semantic
                && before.semantic_result_selected && code == KeyCode::Char('s')
                && modifiers.control;
            let step = list_step(before, code, modifiers, bound);
            &&& open == DialogMode::ConfirmDelete ==> after == before && asks_for(
                outcome,
                Effect::ConfirmKey,
            )
            &&& open is ExportMenu || open is YankMenu ==> after == before && asks_for(
                outcome,
                Effect::MenuKey,
            )
            &&& open is Help ==> after == before && asks_for(outcome, Effect::HelpKey)
            &&& open == DialogMode::Rename ==> after == before && asks_for(
                outcome,
                Effect::RenameKey,
            )
            &&& open == DialogMode::SemanticDebug ==> asks_nothing(outcome) && after == (App {
                dialog_mode: DialogMode::Closed,
                ..before
            })
            &&& open == DialogMode::Closed && details ==> asks_nothing(outcome) && after == (App {
                dialog_mode: DialogMode::SemanticDebug,
                ..before
            })
            &&& open == DialogMode::Closed && !details && before.app_mode is View ==> (
                after,
                outcome,
            ) == view_step(before, code, modifiers, bound, viewport_height)
            &&& open == DialogMode::Closed && !details && before.app_mode is List ==> {
                &&& after.query@ == step.query.text
                &&& after.cursor_pos == step.query.cursor
                &&& after.dialog_mode == step.dialog
                &&& outcome == step.outcome
                &&& after == (App {
                    query: after.query,
                    cursor_pos: after.cursor_pos,
                    dialog_mode: after.dialog_mode,
                    ..before
                })
            }
        }),
{
}

/// What could not be copied is told with the reason, and what was copied as such.
pub proof fn law_failed_copies_are_told_with_the_reason(
    copied: std::result::Result<(), String>,
    done: Seq<char>,
)
    ensures
        copied is Err ==> copy_status(copied, done) == copied->Err_0@,
        copied is Ok ==> copy_status(copied, done) == done,
{
}

/// The query of the interface is its text with its cursor.
pub proof fn law_the_query_is_text_and_cursor(app: App)
    ensures
        query_of(app).text == app.query@,
        query_of(app).cursor == app.cursor_pos,
{
}

} // verus!
