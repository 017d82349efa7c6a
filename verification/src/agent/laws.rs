//! What holds of every read: what is selected, and how long the output gets.

use crate::agent::atoms::{atom, atom_byte, budget_text, escaped};
use crate::agent::protocol::read_output;
use crate::agent::render::Entry;
use crate::agent::select::{
    all_indices, cut_measure, cut_text, fits, focus_indices, focus_too_long, focuses, grown,
    grown_left, grown_right, kept_focus, lemma_focus_indices, lemma_shrunk, ordered, read_header,
    rendered, room, seed, selection, selection_text, shrunk, ProtocolFocus,
};
use crate::text::decimal;
use vstd::prelude::*;
use vstd::utf8::{encode_utf8, is_ascii_chars, is_ascii_chars_encode_utf8};

verus! {

/// What a grown selection is: in order if its seed was, fitting if its seed fitted, no shorter, and
/// with no neighbour left that would fit.
proof fn lemma_grown(entries: Seq<Entry>, selected: Seq<usize>, budget: usize)
    requires
        entries.len() <= usize::MAX,
        ordered(selected, entries.len()),
    ensures
        ordered(grown(entries, selected, budget), entries.len()),
        selected.len() > 0 ==> grown(entries, selected, budget).len() > 0,
        selected.len() == 0 ==> grown(entries, selected, budget).len() == 0,
        fits(entries, selected, budget) ==> fits(
            entries,
            grown(entries, selected, budget),
            budget,
        ),
        forall|k: usize| #[trigger]
            selected.contains(k) ==> grown(entries, selected, budget).contains(k),
        ({
            let done = grown(entries, selected, budget);
            &&& grown_left(entries, done, budget) == done
            &&& grown_right(entries, done, budget) == done
        }),
    decreases room(entries, selected),
{
    let left = grown_left(entries, selected, budget);
    let next = grown_right(entries, left, budget);
    assert(forall|k: usize| #[trigger] selected.contains(k) ==> next.contains(k)) by {
        assert forall|k: usize| #[trigger] selected.contains(k) implies next.contains(k) by {
            let at = choose|at: int| 0 <= at < selected.len() && selected[at] == k;
            if left.len() == selected.len() {
                assert(next[at] == k);
            } else {
                assert(left[at + 1] == k);
                assert(next[at + 1] == k);
            }
        }
    }
    if next.len() > selected.len() {
        lemma_grown(entries, next, budget);
    }
}

/// What a selection is: some of the entries, each once and in order.
pub proof fn law_selection_is_ordered(
    entries: Seq<Entry>,
    focus: Option<ProtocolFocus>,
    budget: Option<usize>,
)
    requires
        entries.len() <= usize::MAX,
    ensures
        selection(entries, focus, budget) matches Ok(selected) ==> ordered(
            selected,
            entries.len(),
        ),
{
    if let Some(budget) = budget {
        lemma_seed(entries, focus, budget);
        lemma_grown(entries, seed(entries, focus, budget), budget);
    }
}

/// The selection to grow from is in order, and fits unless the focus is too long or it is empty.
proof fn lemma_seed(entries: Seq<Entry>, focus: Option<ProtocolFocus>, budget: usize)
    requires
        entries.len() <= usize::MAX,
    ensures
        ordered(seed(entries, focus, budget), entries.len()),
        !focus_too_long(entries, focus, budget) && seed(entries, focus, budget).len() > 0 ==> fits(
            entries,
            seed(entries, focus, budget),
            budget,
        ),
{
    if let Some(focus) = focus {
        lemma_focus_indices(entries, focus);
        lemma_shrunk(entries, focus_indices(entries, focus), budget);
    }
}

proof fn lemma_escaped_plain(bytes: Seq<u8>)
    requires
        forall|i: int| 0 <= i < bytes.len() ==> atom_byte(#[trigger] bytes[i]),
    ensures
        escaped(bytes) == Seq::new(bytes.len(), |i: int| bytes[i] as char),
    decreases bytes.len(),
{
    if bytes.len() > 0 {
        lemma_escaped_plain(bytes.drop_last());
    }
    assert(escaped(bytes) =~= Seq::new(bytes.len(), |i: int| bytes[i] as char));
}

/// A text that holds only characters an atom may show stands for itself.
pub proof fn law_plain_atoms_stand_for_themselves(value: Seq<char>)
    requires
        forall|i: int|
            0 <= i < value.len() ==> '\0' <= #[trigger] value[i] <= '\u{7f}' && atom_byte(
                value[i] as u8,
            ),
    ensures
        atom(value) == value,
{
    assert(is_ascii_chars(value));
    is_ascii_chars_encode_utf8(value);
    let bytes = encode_utf8(value);
    assert(bytes =~= Seq::new(value.len(), |i: int| value[i] as u8));
    lemma_escaped_plain(bytes);
    assert(atom(value) =~= value);
}

/// Cut markers are no longer than the one that selections are measured with, and need no escapes.
proof fn lemma_cut_text(total: nat, selected: Seq<usize>)
    ensures
        cut_text(total, selected).len() <= cut_measure().len(),
        atom(cut_text(total, selected)) == cut_text(total, selected),
{
    reveal_strlit("none");
    reveal_strlit("tail");
    reveal_strlit("head");
    reveal_strlit("focus");
    reveal_strlit("head+tail");
    reveal_strlit("focus+tail");
    reveal_strlit("head+focus");
    reveal_strlit("head+focus+tail");
    law_plain_atoms_stand_for_themselves(cut_text(total, selected));
}

/// A read stays within its budget whenever it shows a message. One that shows none is its header
/// alone.
pub proof fn law_read_stays_within_budget(
    entries: Seq<Entry>,
    focus: Option<ProtocolFocus>,
    budget: usize,
)
    requires
        entries.len() <= usize::MAX,
    ensures
        selection(entries, focus, Some(budget)) matches Ok(selected) ==> {
            let output = read_output(entries, selected, Some(budget));
            &&& selected.len() > 0 ==> output.len() <= budget
            &&& selected.len() == 0 ==> output == read_header(
                cut_text(entries.len(), selected),
                decimal(budget as nat),
            )
        },
{
    if let Ok(selected) = selection(entries, focus, Some(budget)) {
        let output = read_output(entries, selected, Some(budget));
        lemma_cut_text(entries.len(), selected);
        lemma_seed(entries, focus, budget);
        lemma_grown(entries, seed(entries, focus, budget), budget);
        if selected.len() == 0 {
            assert(output =~= read_header(
                cut_text(entries.len(), selected),
                decimal(budget as nat),
            ));
        }
        assert(all_indices(entries.len()).len() == entries.len());
    }
}

/// A read without a budget, and one that fits its budget as a whole, show every entry and say that
/// nothing was cut.
pub proof fn law_read_that_fits_shows_everything(
    entries: Seq<Entry>,
    focus: Option<ProtocolFocus>,
    budget: Option<usize>,
)
    requires
        budget matches Some(budget) ==> rendered(
            entries,
            all_indices(entries.len()),
            "none"@,
            budget,
        ).len() <= budget,
    ensures
        selection(entries, focus, budget) == Ok::<Seq<usize>, Seq<char>>(
            all_indices(entries.len()),
        ),
        read_output(entries, all_indices(entries.len()), budget) == read_header(
            "none"@,
            budget_text(budget),
        ) + selection_text(entries, all_indices(entries.len())),
{
    lemma_cut_text(entries.len(), all_indices(entries.len()));
}

/// The first of the entries that a focus is on is the first one that its indices list.
proof fn lemma_first_focus(entries: Seq<Entry>, focus: ProtocolFocus, k: int)
    requires
        entries.len() <= usize::MAX,
        0 <= k < entries.len(),
        focuses(focus, entries[k]),
        forall|j: int| 0 <= j < k ==> !focuses(focus, #[trigger] entries[j]),
    ensures
        focus_indices(entries, focus).len() > 0,
        focus_indices(entries, focus)[0] == k,
{
    let found = focus_indices(entries, focus);
    lemma_focus_indices(entries, focus);
    assert(found.contains(k as usize));
    let at = choose|at: int| 0 <= at < found.len() && found[at] == k as usize;
    assert(found[0] <= found[at]);
    assert(focuses(focus, entries[found[0] as int]));
}

/// A read shows all that is kept of the focus. With a budget that is the longest start of the
/// focused messages that fits, but at least the first of them; without one, or where everything
/// fits, it is all of them.
pub proof fn law_read_keeps_the_focus(
    entries: Seq<Entry>,
    focus: ProtocolFocus,
    budget: Option<usize>,
    k: usize,
)
    requires
        entries.len() <= usize::MAX,
        match budget {
            Some(budget) => kept_focus(entries, Some(focus), budget).contains(k),
            None => focus_indices(entries, focus).contains(k),
        },
    ensures
        selection(entries, Some(focus), budget) matches Ok(selected) ==> selected.contains(k),
{
    let found = focus_indices(entries, focus);
    lemma_focus_indices(entries, focus);
    match budget {
        Some(budget) => {
            lemma_shrunk(entries, found, budget);
            let start = shrunk(entries, found, budget);
            let at = choose|at: int| 0 <= at < start.len() && start[at] == k;
            assert(found[at] == k);
            assert(start == seed(entries, Some(focus), budget));
            lemma_seed(entries, Some(focus), budget);
            lemma_grown(entries, start, budget);
        },
        None => {},
    }
    assert(k < entries.len());
    assert(all_indices(entries.len())[k as int] == k);
}

/// A read never loses the first of the messages that the focus is on.
pub proof fn law_read_keeps_the_first_focused_message(
    entries: Seq<Entry>,
    focus: ProtocolFocus,
    budget: Option<usize>,
    k: int,
)
    requires
        entries.len() <= usize::MAX,
        0 <= k < entries.len(),
        focuses(focus, entries[k]),
        forall|j: int| 0 <= j < k ==> !focuses(focus, #[trigger] entries[j]),
    ensures
        selection(entries, Some(focus), budget) matches Ok(selected) ==> selected.contains(
            k as usize,
        ),
{
    let found = focus_indices(entries, focus);
    lemma_first_focus(entries, focus, k);
    if let Some(budget) = budget {
        lemma_shrunk(entries, found, budget);
        assert(shrunk(entries, found, budget)[0] == k as usize);
    }
    law_read_keeps_the_focus(entries, focus, budget, k as usize);
}

/// A read that had to cut could not have shown the message before its first one or the one behind
/// its last one as well.
pub proof fn law_read_cannot_be_widened(
    entries: Seq<Entry>,
    focus: Option<ProtocolFocus>,
    budget: usize,
)
    requires
        entries.len() <= usize::MAX,
        rendered(entries, all_indices(entries.len()), "none"@, budget).len() > budget,
    ensures
        selection(entries, focus, Some(budget)) matches Ok(selected) ==> selected.len() > 0 ==> {
            &&& selected[0] > 0 ==> !fits(
                entries,
                seq![(selected[0] - 1) as usize] + selected,
                budget,
            )
            &&& selected.last() + 1 < entries.len() ==> !fits(
                entries,
                selected.push((selected.last() + 1) as usize),
                budget,
            )
        },
{
    lemma_seed(entries, focus, budget);
    let start = seed(entries, focus, budget);
    lemma_grown(entries, start, budget);
    let done = grown(entries, start, budget);
    if done.len() > 0 {
        if done[0] > 0 {
            assert((seq![(done[0] - 1) as usize] + done).len() == done.len() + 1);
        }
        assert(done.push((done.last() + 1) as usize).len() == done.len() + 1);
    }
}

} // verus!
