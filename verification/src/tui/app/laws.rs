//! What holds of every key.

use crate::tui::app::input_controller::{
    asking, list_step, max_scroll, quiet, view_after, view_step, ViewCommand,
};
use crate::tui::app::query::{
    changes_text, edited, lemma_words_around, query_of, run_end, run_start, separates, word_left,
    word_right, Edit, Query,
};
use crate::tui::app::state::{
    Action, App, AppMode, BoundKeys, DialogMode, Effect, KeyCode, KeyModifiers, Outcome,
    ViewSearchMode, ViewState,
};
use vstd::prelude::*;

verus! {

/// Whether the cursor stands in the text or right behind it.
pub open spec fn cursor_in_text(query: Query) -> bool {
    0 <= query.cursor <= query.text.len()
}

/// No edit moves the cursor out of the text, and an edit counts as a change exactly where the
/// text is another one afterwards.
pub proof fn law_edits_keep_the_cursor_in_the_text(query: Query, edit: Edit, separators: Seq<char>)
    requires
        cursor_in_text(query),
    ensures
        cursor_in_text(edited(query, edit, separators)),
        changes_text(query, edit) <==> edited(query, edit, separators).text != query.text,
{
    let after = edited(query, edit, separators);
    lemma_words_around(query.text, separators, query.cursor);
    if changes_text(query, edit) {
        assert(after.text.len() != query.text.len());
    } else {
        assert(after.text =~= query.text);
    }
}

/// Backspace takes a character that was just typed away again.
pub proof fn law_backspace_undoes_typing(query: Query, c: char, separators: Seq<char>)
    requires
        cursor_in_text(query),
    ensures
        edited(edited(query, Edit::Insert(c), separators), Edit::Backspace, separators) == query,
{
    let typed = edited(query, Edit::Insert(c), separators);
    let back = edited(typed, Edit::Backspace, separators);
    assert(back.text =~= query.text);
}

/// Killing to the end and killing to the start leave the two parts of the text that the cursor
/// stands between.
pub proof fn law_kills_part_the_text(query: Query, separators: Seq<char>)
    requires
        cursor_in_text(query),
    ensures
        edited(query, Edit::KillToEnd, separators).text + edited(
            query,
            Edit::KillToStart,
            separators,
        ).text == query.text,
        edited(query, Edit::KillToEnd, separators).text.len() == query.cursor,
{
    assert(query.text.take(query.cursor) + query.text.skip(query.cursor) =~= query.text);
}

/// Whether a word starts at a position: a separator ends right before it.
pub open spec fn word_starts(text: Seq<char>, separators: Seq<char>, at: int) -> bool {
    0 < at < text.len() && separates(separators, text[at - 1]) && !separates(separators, text[at])
}

/// A step to the left by words ends at the start of the text or of a word; a step to the right
/// ends at the end of the text or at the start of a word. Away from the ends both move.
pub proof fn law_word_steps_reach_words(text: Seq<char>, separators: Seq<char>, at: int)
    requires
        0 <= at <= text.len(),
    ensures
        word_left(text, separators, at) == 0 || word_starts(
            text,
            separators,
            word_left(text, separators, at),
        ),
        word_right(text, separators, at) == text.len() || word_starts(
            text,
            separators,
            word_right(text, separators, at),
        ),
        at > 0 ==> word_left(text, separators, at) < at,
        at < text.len() ==> word_right(text, separators, at) > at,
{
    lemma_words_around(text, separators, at);
    let skipped = run_start(text, separators, at, true);
    lemma_run_start_stops(text, separators, at, true);
    lemma_run_start_stops(text, separators, skipped, false);
    let passed = run_end(text, separators, at, false);
    lemma_run_end_stops(text, separators, at, false);
    lemma_run_end_stops(text, separators, passed, true);
}

proof fn lemma_run_start_stops(text: Seq<char>, separators: Seq<char>, at: int, parting: bool)
    requires
        0 <= at <= text.len(),
    ensures
        ({
            let from = run_start(text, separators, at, parting);
            &&& 0 <= from <= at
            &&& from > 0 ==> separates(separators, text[from - 1]) != parting
            &&& from < at ==> separates(separators, text[from]) == parting
            &&& at > 0 && separates(separators, text[at - 1]) == parting ==> from < at
        }),
    decreases at,
{
    if 0 < at && separates(separators, text[at - 1]) == parting {
        lemma_run_start_stops(text, separators, at - 1, parting);
    }
}

proof fn lemma_run_end_stops(text: Seq<char>, separators: Seq<char>, at: int, parting: bool)
    requires
        0 <= at <= text.len(),
    ensures
        ({
            let to = run_end(text, separators, at, parting);
            &&& at <= to <= text.len()
            &&& to < text.len() ==> separates(separators, text[to]) != parting
            &&& to > at ==> separates(separators, text[to - 1]) == parting
            &&& at < text.len() && separates(separators, text[at]) == parting ==> to > at
        }),
    decreases text.len() - at,
{
    if at < text.len() && separates(separators, text[at]) == parting {
        lemma_run_end_stops(text, separators, at + 1, parting);
    }
}

/// No key in the list moves the cursor out of the query.
pub proof fn law_list_keys_keep_the_cursor_in_the_query(
    app: App,
    code: KeyCode,
    modifiers: KeyModifiers,
    bound: BoundKeys,
)
    requires
        cursor_in_text(query_of(app)),
    ensures
        cursor_in_text(list_step(app, code, modifiers, bound).query),
{
    assert forall|edit: Edit|
        cursor_in_text(#[trigger] edited(query_of(app), edit, app.word_separators@)) by {
        law_edits_keep_the_cursor_in_the_text(query_of(app), edit, app.word_separators@);
    }
}

/// While the list is loading, a key acts on no session: it quits at most, opens the help at
/// most, and a search is started only when the query is cleared.
pub proof fn law_loading_list_leaves_sessions_alone(
    app: App,
    code: KeyCode,
    modifiers: KeyModifiers,
    bound: BoundKeys,
)
    requires
        app.loading,
    ensures
        ({
            let step = list_step(app, code, modifiers, bound);
            &&& step.outcome.action is None || step.outcome.action == Some(Action::Quit)
            &&& step.dialog == app.dialog_mode || step.dialog == (DialogMode::Help { scroll: 0 })
            &&& step.outcome.effect == Some(Effect::DispatchSearch) ==> code == KeyCode::Esc
        }),
{
}

/// Whether a transcript shows nothing beyond its last line, as far as it is long enough.
pub open spec fn scroll_in_range(state: ViewState, viewport_height: usize) -> bool {
    state.scroll_offset <= max_scroll(state, viewport_height)
}

/// No command scrolls a transcript beyond its last page.
pub proof fn law_commands_keep_the_scroll_in_range(
    state: ViewState,
    command: ViewCommand,
    viewport_height: usize,
)
    requires
        scroll_in_range(state, viewport_height),
    ensures
        scroll_in_range(view_after(state, command, viewport_height), viewport_height),
{
}

/// A page up takes a page down back where the transcript had a whole page to go.
pub proof fn law_page_up_undoes_page_down(state: ViewState, viewport_height: usize)
    requires
        state.scroll_offset + viewport_height <= max_scroll(state, viewport_height),
    ensures
        view_after(
            view_after(state, ViewCommand::PageDown, viewport_height),
            ViewCommand::PageUp,
            viewport_height,
        ) == state,
{
}

/// Whether an outcome resumes or forks a session.
pub open spec fn resumes(outcome: Outcome) -> bool {
    match outcome.action {
        Some(Action::Resume(_)) => true,
        Some(Action::ForkResume(_)) => true,
        _ => false,
    }
}

/// Where the interface shows a single file, no key in it resumes, forks or offers to delete a
/// session, and none leads to the list.
pub proof fn law_single_file_stays_alone(
    app: App,
    code: KeyCode,
    modifiers: KeyModifiers,
    bound: BoundKeys,
    viewport_height: usize,
)
    requires
        app.single_file_mode,
        app.app_mode is View,
        app.dialog_mode == DialogMode::Closed,
    ensures
        ({
            let (after, outcome) = view_step(app, code, modifiers, bound, viewport_height);
            &&& !resumes(outcome)
            &&& after.dialog_mode != DialogMode::ConfirmDelete
            &&& after.app_mode is View
        }),
{
}

/// A key in a transcript leaves the query of the list alone.
pub proof fn law_view_keys_keep_the_query(
    app: App,
    code: KeyCode,
    modifiers: KeyModifiers,
    bound: BoundKeys,
    viewport_height: usize,
)
    ensures
        query_of(view_step(app, code, modifiers, bound, viewport_height).0) == query_of(app),
{
}

/// Esc steps out of the walk through the messages first, then out of the search, then out of each
/// subagent's transcript, and leaves the transcript or the program only then.
pub proof fn law_escape_leaves_one_level_at_a_time(
    app: App,
    modifiers: KeyModifiers,
    bound: BoundKeys,
    viewport_height: usize,
)
    requires
        app.app_mode is View,
        bound == (BoundKeys { delete: false, resume: false, fork: false, rename: false }),
    ensures
        ({
            let (after, outcome) = view_step(app, KeyCode::Esc, modifiers, bound, viewport_height);
            match app.app_mode {
                AppMode::View { state, depth } => {
                    &&& after.app_mode is List || outcome.action is Some ==> state.search_mode
                        == ViewSearchMode::Off && !state.message_nav_active && depth <= 1
                    &&& state.search_mode == ViewSearchMode::Typing ==> after == app && outcome
                        == asking(Effect::ClearViewSearch)
                    &&& state.search_mode != ViewSearchMode::Typing && state.message_nav_active
                        ==> outcome == quiet() && after.app_mode == (AppMode::View {
                        state: ViewState { message_nav_active: false, ..state },
                        depth,
                    })
                    &&& state.search_mode == ViewSearchMode::Active && !state.message_nav_active
                        ==> after == app && outcome == asking(Effect::ClearViewSearch)
                    &&& state.search_mode == ViewSearchMode::Off && !state.message_nav_active
                        && depth > 1 ==> after == app && outcome == asking(Effect::PopView)
                },
                AppMode::List => true,
            }
        }),
{
}

} // verus!
