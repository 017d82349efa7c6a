//! Which messages a read shows when not all of them fit the budget.

use crate::agent::atoms::{
    atom, escape_atom, framed, push_body, role_atom, role_text,
};
use crate::agent::indices::{
    ascending, ascending_of, law_sets_have_one_ascending_list, put, rising, set_of, take_out,
};
use crate::agent::refs::MessageRange;
use crate::agent::render::{entries_of, Entry, RenderedMessage};
use crate::error::{AppError, Result};
use crate::json::opt_text;
use crate::text::{decimal, decimal_string, push_decimal};
use std::collections::BTreeSet;
use vstd::prelude::*;
use vstd::string::*;

verus! {

/// The messages that a read must not lose first.
#[derive(Clone, Debug)]
pub struct ProtocolFocus {
    /// The conversation that the focus is on, by its full reference; any conversation where absent.
    pub conversation_full_ref: Option<String>,
    pub range: MessageRange,
}

/// The longest cut marker. Selections are measured with it, so that the marker of the output can
/// only be shorter.
pub open spec fn cut_measure() -> Seq<char> {
    "head+focus+tail"@
}

/// The first line of a read.
pub open spec fn read_header(cut: Seq<char>, budget: Seq<char>) -> Seq<char> {
    "protocol agent-read v=1 cut="@ + cut + " budget="@ + budget + "\n"@
}

/// The line that opens the messages of a conversation.
pub open spec fn conversation_line(uuid: Seq<char>, canonical: Seq<char>, path: Seq<char>) -> Seq<
    char,
> {
    "conversation uuid="@ + atom(uuid) + " ref="@ + atom(canonical) + " path="@ + atom(path)
        + "\n"@
}

/// The line that opens a message.
pub open spec fn message_line(entry: Entry) -> Seq<char> {
    "message m"@ + decimal(entry.ordinal as nat) + " role="@ + role_text(entry.role) + " line="@
        + decimal(entry.line as nat) + "\n"@
}

/// The conversation that the last of a selection belongs to, by its canonical reference; the one
/// given where nothing is selected.
pub open spec fn ref_after(
    entries: Seq<Entry>,
    selected: Seq<usize>,
    last_ref: Option<Seq<char>>,
) -> Option<Seq<char>> {
    if selected.len() == 0 {
        last_ref
    } else {
        Some(entries[selected.last() as int].canonical)
    }
}

/// Whether the last of a selection belongs to the same conversation as the one before it, or as
/// the one given where none is before it.
pub open spec fn continues(
    entries: Seq<Entry>,
    selected: Seq<usize>,
    last_ref: Option<Seq<char>>,
) -> bool {
    ref_after(entries, selected.drop_last(), last_ref) == Some(
        entries[selected.last() as int].canonical,
    )
}

/// The selected entries, one after the other, with a line wherever the conversation changes. What
/// stands before them belongs to the conversation given.
pub open spec fn text_behind(
    entries: Seq<Entry>,
    selected: Seq<usize>,
    last_ref: Option<Seq<char>>,
) -> Seq<char>
    decreases selected.len(),
{
    if selected.len() == 0 {
        seq![]
    } else {
        let entry = entries[selected.last() as int];
        let opening = if continues(entries, selected, last_ref) {
            seq![]
        } else {
            conversation_line(entry.uuid, entry.canonical, entry.path)
        };
        text_behind(entries, selected.drop_last(), last_ref) + opening + message_line(entry)
            + framed(entry.body)
    }
}

/// The selected entries, one after the other, with a line wherever the conversation changes.
pub open spec fn selection_text(entries: Seq<Entry>, selected: Seq<usize>) -> Seq<char> {
    text_behind(entries, selected, None)
}

/// A read of the selected entries under a given cut marker and budget.
pub open spec fn rendered(
    entries: Seq<Entry>,
    selected: Seq<usize>,
    cut: Seq<char>,
    budget: usize,
) -> Seq<char> {
    read_header(cut, decimal(budget as nat)) + selection_text(entries, selected)
}

/// Whether a selection that may still be cut fits the budget.
pub open spec fn fits(entries: Seq<Entry>, selected: Seq<usize>, budget: usize) -> bool {
    rendered(entries, selected, cut_measure(), budget).len() <= budget
}

/// The indices of a list of `n` entries.
pub open spec fn all_indices(n: nat) -> Seq<usize> {
    Seq::new(n, |i: int| i as usize)
}

/// Whether the focus is on an entry.
pub open spec fn focuses(focus: ProtocolFocus, entry: Entry) -> bool {
    &&& focus.conversation_full_ref matches Some(target) ==> target@ == entry.full_ref
    &&& focus.range.holds(entry.ordinal)
}

/// The indices of the entries that the focus is on, in order.
pub open spec fn focus_indices(entries: Seq<Entry>, focus: ProtocolFocus) -> Seq<usize>
    decreases entries.len(),
{
    if entries.len() == 0 {
        seq![]
    } else {
        let before = focus_indices(entries.drop_last(), focus);
        if focuses(focus, entries.last()) {
            before.push((entries.len() - 1) as usize)
        } else {
            before
        }
    }
}

/// The longest start of a selection that fits, but at least its first.
pub open spec fn shrunk(entries: Seq<Entry>, selected: Seq<usize>, budget: usize) -> Seq<usize>
    decreases selected.len(),
{
    if selected.len() > 1 && !fits(entries, selected, budget) {
        shrunk(entries, selected.drop_last(), budget)
    } else {
        selected
    }
}

/// What is kept of the focus.
pub open spec fn kept_focus(entries: Seq<Entry>, focus: Option<ProtocolFocus>, budget: usize) -> Seq<
    usize,
> {
    match focus {
        Some(focus) => shrunk(entries, focus_indices(entries, focus), budget),
        None => seq![],
    }
}

/// Whether the focus comes down to one message, and even that does not fit.
pub open spec fn focus_too_long(
    entries: Seq<Entry>,
    focus: Option<ProtocolFocus>,
    budget: usize,
) -> bool {
    let kept = kept_focus(entries, focus, budget);
    kept.len() == 1 && !fits(entries, kept, budget)
}

/// What is said of a focus that does not fit.
pub open spec fn focus_complaint(ordinal: usize, length: nat, budget: usize) -> Seq<char> {
    "focus range exceeds budget: message m"@ + decimal(ordinal as nat) + " alone renders to "@
        + decimal(length) + " chars, over budget "@ + decimal(budget as nat)
        + "; raise --budget or narrow the focus range"@
}

/// The selection to grow from: what is kept of the focus, or else the first entry if it fits.
pub open spec fn seed(entries: Seq<Entry>, focus: Option<ProtocolFocus>, budget: usize) -> Seq<
    usize,
> {
    let kept = kept_focus(entries, focus, budget);
    if kept.len() > 0 || entries.len() == 0 || !fits(entries, seq![0usize], budget) {
        kept
    } else {
        seq![0usize]
    }
}

/// A selection with the entry before its first one, where there is one and it fits.
pub open spec fn grown_left(entries: Seq<Entry>, selected: Seq<usize>, budget: usize) -> Seq<
    usize,
> {
    if selected.len() > 0 && selected[0] > 0 && fits(
        entries,
        seq![(selected[0] - 1) as usize] + selected,
        budget,
    ) {
        seq![(selected[0] - 1) as usize] + selected
    } else {
        selected
    }
}

/// A selection with the entry behind its last one, where there is one and it fits.
pub open spec fn grown_right(entries: Seq<Entry>, selected: Seq<usize>, budget: usize) -> Seq<
    usize,
> {
    if selected.len() > 0 && selected.last() + 1 < entries.len() && fits(
        entries,
        selected.push((selected.last() + 1) as usize),
        budget,
    ) {
        selected.push((selected.last() + 1) as usize)
    } else {
        selected
    }
}

/// How far a selection can still grow on both sides.
pub open spec fn room(entries: Seq<Entry>, selected: Seq<usize>) -> nat {
    if selected.len() == 0 {
        0
    } else {
        (selected[0] + if selected.last() < entries.len() {
            entries.len() - selected.last()
        } else {
            0
        }) as nat
    }
}

/// A selection grown by one entry at a time, before its first and behind its last in turn, until
/// neither fits.
pub open spec fn grown(entries: Seq<Entry>, selected: Seq<usize>, budget: usize) -> Seq<usize>
    decreases room(entries, selected),
        when entries.len() <= usize::MAX
{
    let next = grown_right(entries, grown_left(entries, selected, budget), budget);
    if next.len() <= selected.len() {
        selected
    } else {
        grown(entries, next, budget)
    }
}

/// The indices of the entries that a read shows, or what is said of a focus that does not fit.
pub open spec fn selection(
    entries: Seq<Entry>,
    focus: Option<ProtocolFocus>,
    budget: Option<usize>,
) -> std::result::Result<Seq<usize>, Seq<char>> {
    let all = all_indices(entries.len());
    match budget {
        None => Ok(all),
        Some(budget) => if rendered(entries, all, "none"@, budget).len() <= budget {
            Ok(all)
        } else if focus_too_long(entries, focus, budget) {
            let only = kept_focus(entries, focus, budget);
            Err(
                focus_complaint(
                    entries[only[0] as int].ordinal,
                    rendered(entries, only, cut_measure(), budget).len(),
                    budget,
                ),
            )
        } else {
            Ok(grown(entries, seed(entries, focus, budget), budget))
        },
    }
}

/// Whether a selection lists some of `n` entries, each once and in order.
pub open spec fn ordered(selected: Seq<usize>, n: nat) -> bool {
    &&& forall|i: int| 0 <= i < selected.len() ==> (#[trigger] selected[i]) < n
    &&& forall|i: int, j: int|
        0 <= i < j < selected.len() ==> #[trigger] selected[i] < #[trigger] selected[j]
}

/// Whether a selection leaves out an entry between its first and its last.
pub open spec fn has_gap(selected: Seq<usize>) -> bool {
    exists|i: int|
        0 <= i && i + 1 < selected.len() && #[trigger] selected[i] + 1 != selected[i + 1]
}

/// Where a selection was cut: before it, inside it or around it, behind it.
pub open spec fn cut_text(total: nat, selected: Seq<usize>) -> Seq<char> {
    if selected.len() == total {
        "none"@
    } else if selected.len() == 0 {
        "tail"@
    } else {
        let head = selected[0] > 0;
        let tail = selected.last() + 1 < total;
        let focus = has_gap(selected) || (head && tail);
        match (head, focus, tail) {
            (true, true, true) => "head+focus+tail"@,
            (true, true, false) => "head+focus"@,
            (true, false, true) => "head+tail"@,
            (true, false, false) => "head"@,
            (false, true, true) => "focus+tail"@,
            (false, true, false) => "focus"@,
            (false, false, true) => "tail"@,
            (false, false, false) => "none"@,
        }
    }
}

/// Appends the line that opens the messages of a conversation.
pub fn push_conversation_line(output: &mut String, uuid: &str, canonical: &str, path: &str)
    ensures
        final(output)@ == old(output)@ + conversation_line(uuid@, canonical@, path@),
{
    output.append("conversation uuid=");
    output.append(escape_atom(uuid).as_str());
    output.append(" ref=");
    output.append(escape_atom(canonical).as_str());
    output.append(" path=");
    output.append(escape_atom(path).as_str());
    output.append("\n");
    assert(output@ =~= old(output)@ + conversation_line(uuid@, canonical@, path@));
}

/// Appends the line that opens a message.
fn push_message_line(output: &mut String, rendered: &RenderedMessage<'_>)
    ensures
        final(output)@ == old(output)@ + message_line(rendered@),
{
    output.append("message m");
    push_decimal(output, rendered.message.ordinal as u128);
    output.append(" role=");
    output.append(role_atom(rendered.message.role));
    output.append(" line=");
    push_decimal(output, rendered.message.jsonl_line as u128);
    output.append("\n");
    assert(output@ =~= old(output)@ + message_line(rendered@));
}

/// Appends the selected messages behind what belongs to a conversation, where one is given, and
/// hands back the conversation that the last of them belongs to.
pub fn render_selected_messages(
    output: &mut String,
    messages: &Vec<RenderedMessage<'_>>,
    selected: &Vec<usize>,
    last_ref: &mut Option<String>,
)
    requires
        forall|i: int| 0 <= i < selected@.len() ==> (#[trigger] selected@[i]) < messages@.len(),
    ensures
        final(output)@ == old(output)@ + text_behind(
            entries_of(messages@),
            selected@,
            opt_text(*old(last_ref)),
        ),
        opt_text(*final(last_ref)) == ref_after(
            entries_of(messages@),
            selected@,
            opt_text(*old(last_ref)),
        ),
{
    let ghost entries = entries_of(messages@);
    let ghost start = output@;
    let ghost first_ref = opt_text(*last_ref);
    let mut i: usize = 0;
    assert(start + text_behind(entries, selected@.take(0), first_ref) =~= start);
    while i < selected.len()
        invariant
            i <= selected@.len(),
            entries == entries_of(messages@),
            forall|j: int| 0 <= j < selected@.len() ==> (#[trigger] selected@[j]) < messages@.len(),
            output@ == start + text_behind(entries, selected@.take(i as int), first_ref),
            opt_text(*last_ref) == ref_after(entries, selected@.take(i as int), first_ref),
        decreases selected@.len() - i,
    {
        let ghost upto = selected@.take(i + 1);
        assert(upto.drop_last() =~= selected@.take(i as int));
        let one = &messages[selected[i]];
        let reference = &one.conversation.reference;
        let same = match &*last_ref {
            Some(last) => *last == reference.canonical,
            None => false,
        };
        assert(same == continues(entries, upto, first_ref));
        if !same {
            push_conversation_line(
                output,
                reference.uuid.as_str(),
                reference.canonical.as_str(),
                one.conversation.key.session_filename.as_str(),
            );
            *last_ref = Some(reference.canonical.clone());
        }
        push_message_line(output, one);
        push_body(output, one.body.as_str());
        assert(output@ =~= start + text_behind(entries, upto, first_ref));
        i = i + 1;
    }
    assert(selected@.take(selected@.len() as int) =~= selected@);
}

/// Renders the selected messages under a given cut marker and budget, to measure them.
pub fn rendered_len(
    messages: &Vec<RenderedMessage<'_>>,
    selected: &Vec<usize>,
    cut: &str,
    budget: usize,
) -> (output: String)
    requires
        forall|i: int| 0 <= i < selected@.len() ==> (#[trigger] selected@[i]) < messages@.len(),
    ensures
        output@ == rendered(entries_of(messages@), selected@, cut@, budget),
{
    let mut output = String::new();
    push_read_header(&mut output, cut, decimal_string(budget).as_str());
    let mut last_ref: Option<String> = None;
    render_selected_messages(&mut output, messages, selected, &mut last_ref);
    assert(output@ =~= rendered(entries_of(messages@), selected@, cut@, budget));
    output
}

/// Appends the first line of a read.
pub fn push_read_header(output: &mut String, cut: &str, budget: &str)
    ensures
        final(output)@ == old(output)@ + read_header(cut@, budget@),
{
    output.append("protocol agent-read v=1 cut=");
    output.append(cut);
    output.append(" budget=");
    output.append(budget);
    output.append("\n");
    assert(output@ =~= old(output)@ + read_header(cut@, budget@));
}

/// Measures a selection that may still be cut.
fn measure(messages: &Vec<RenderedMessage<'_>>, selected: &Vec<usize>, budget: usize) -> (length:
    usize)
    requires
        forall|i: int| 0 <= i < selected@.len() ==> (#[trigger] selected@[i]) < messages@.len(),
    ensures
        length == rendered(entries_of(messages@), selected@, cut_measure(), budget).len(),
        length <= budget <==> fits(entries_of(messages@), selected@, budget),
{
    rendered_len(messages, selected, "head+focus+tail", budget).as_str().unicode_len()
}

/// Adds an entry to a selection, where the selection then fits. Where it does not, the selection is
/// left without the entry. Says which.
pub fn try_expand(
    selected: &mut BTreeSet<usize>,
    candidate: usize,
    messages: &Vec<RenderedMessage<'_>>,
    budget: usize,
) -> (expanded: bool)
    requires
        forall|k: usize| #[trigger] old(selected)@.contains(k) ==> k < messages@.len(),
        candidate < messages@.len(),
    ensures
        expanded == fits(
            entries_of(messages@),
            ascending_of(old(selected)@.insert(candidate)),
            budget,
        ),
        final(selected)@ == if expanded {
            old(selected)@.insert(candidate)
        } else {
            old(selected)@.remove(candidate)
        },
        !expanded && !old(selected)@.contains(candidate) ==> final(selected)@ == old(selected)@,
{
    put(selected, candidate);
    let list = ascending(selected);
    proof {
        law_sets_have_one_ascending_list(selected@, list@);
        assert forall|i: int| 0 <= i < list@.len() implies (#[trigger] list@[i])
            < messages@.len() by {
            assert(list@.contains(list@[i]));
        }
    }
    if measure(messages, &list, budget) > budget {
        take_out(selected, candidate);
        assert(selected@ =~= old(selected)@.remove(candidate));
        assert(!old(selected)@.contains(candidate) ==> selected@ =~= old(selected)@);
        false
    } else {
        true
    }
}

/// The focus is on entries that are there, each listed once and in order.
pub proof fn lemma_focus_indices(entries: Seq<Entry>, focus: ProtocolFocus)
    requires
        entries.len() <= usize::MAX,
    ensures
        ordered(focus_indices(entries, focus), entries.len()),
        forall|i: int|
            0 <= i < focus_indices(entries, focus).len() ==> focuses(
                focus,
                entries[#[trigger] focus_indices(entries, focus)[i] as int],
            ),
        forall|k: int|
            0 <= k < entries.len() && focuses(focus, #[trigger] entries[k]) ==> focus_indices(
                entries,
                focus,
            ).contains(k as usize),
    decreases entries.len(),
{
    if entries.len() > 0 {
        let rest = entries.drop_last();
        let before = focus_indices(rest, focus);
        let now = focus_indices(entries, focus);
        lemma_focus_indices(rest, focus);
        assert forall|k: int|
            0 <= k < entries.len() && focuses(focus, #[trigger] entries[k]) implies now.contains(
            k as usize,
        ) by {
            if k < rest.len() {
                assert(entries[k] == rest[k]);
                assert(before.contains(k as usize));
                let at = choose|at: int| 0 <= at < before.len() && before[at] == k as usize;
                assert(now[at] == k as usize);
            } else {
                assert(now.last() == k as usize);
            }
        }
        assert forall|i: int| 0 <= i < now.len() implies focuses(
            focus,
            entries[#[trigger] now[i] as int],
        ) by {
            if i < before.len() {
                assert(now[i] == before[i]);
                assert(entries[before[i] as int] == rest[before[i] as int]);
            }
        }
    }
}

/// What is kept of a selection is a start of it, and fits unless it is a single entry or nothing.
pub proof fn lemma_shrunk(entries: Seq<Entry>, selected: Seq<usize>, budget: usize)
    ensures
        shrunk(entries, selected, budget).len() <= selected.len(),
        shrunk(entries, selected, budget) == selected.take(
            shrunk(entries, selected, budget).len() as int,
        ),
        selected.len() > 0 ==> shrunk(entries, selected, budget).len() > 0,
        shrunk(entries, selected, budget).len() > 1 ==> fits(
            entries,
            shrunk(entries, selected, budget),
            budget,
        ),
    decreases selected.len(),
{
    let kept = shrunk(entries, selected, budget);
    if selected.len() > 1 && !fits(entries, selected, budget) {
        lemma_shrunk(entries, selected.drop_last(), budget);
        assert(kept =~= selected.take(kept.len() as int));
    } else {
        assert(kept =~= selected.take(kept.len() as int));
    }
}

/// The indices of the entries that a focus is on.
fn find_focus(messages: &Vec<RenderedMessage<'_>>, focus: &ProtocolFocus) -> (found: Vec<usize>)
    ensures
        found@ == focus_indices(entries_of(messages@), *focus),
{
    let ghost entries = entries_of(messages@);
    let mut found: Vec<usize> = Vec::new();
    let mut i: usize = 0;
    while i < messages.len()
        invariant
            i <= messages@.len(),
            entries == entries_of(messages@),
            found@ == focus_indices(entries.take(i as int), *focus),
        decreases messages@.len() - i,
    {
        assert(entries.take(i + 1).drop_last() =~= entries.take(i as int));
        let one = &messages[i];
        let conversation_matches = match &focus.conversation_full_ref {
            Some(target) => one.conversation.reference.full_ref == *target,
            None => true,
        };
        if conversation_matches && focus.range.contains(one.message.ordinal) {
            found.push(i);
        }
        i = i + 1;
    }
    assert(entries.take(entries.len() as int) =~= entries);
    found
}

/// Drops the last of a selection until it fits or is down to one entry.
fn shrink(selected: &mut Vec<usize>, messages: &Vec<RenderedMessage<'_>>, budget: usize)
    requires
        ordered(old(selected)@, messages@.len()),
    ensures
        final(selected)@ == shrunk(entries_of(messages@), old(selected)@, budget),
        ordered(final(selected)@, messages@.len()),
{
    while selected.len() > 1 && measure(messages, selected, budget) > budget
        invariant
            ordered(selected@, messages@.len()),
            shrunk(entries_of(messages@), selected@, budget) == shrunk(
                entries_of(messages@),
                old(selected)@,
                budget,
            ),
        decreases selected@.len(),
    {
        let ghost wider = selected@;
        selected.pop();
        assert(selected@ =~= wider.drop_last());
    }
}

/// A selection is the list of its set, and goes on being one with a neighbour at an end.
proof fn lemma_ends(selected: Seq<usize>, n: nat)
    requires
        ordered(selected, n),
        n <= usize::MAX,
    ensures
        ascending_of(selected.to_set()) == selected,
        selected.len() > 0 && selected[0] > 0 ==> {
            let candidate = (selected[0] - 1) as usize;
            &&& !selected.to_set().contains(candidate)
            &&& (seq![candidate] + selected).to_set() == selected.to_set().insert(candidate)
            &&& ascending_of(selected.to_set().insert(candidate)) == seq![candidate] + selected
            &&& ordered(seq![candidate] + selected, n)
        },
        selected.len() > 0 && selected.last() + 1 < n ==> {
            let candidate = (selected.last() + 1) as usize;
            &&& !selected.to_set().contains(candidate)
            &&& selected.push(candidate).to_set() == selected.to_set().insert(candidate)
            &&& ascending_of(selected.to_set().insert(candidate)) == selected.push(candidate)
            &&& ordered(selected.push(candidate), n)
        },
{
    let set = selected.to_set();
    assert forall|k: usize| #[trigger] selected.contains(k) <==> set.contains(k) by {}
    law_sets_have_one_ascending_list(set, selected);
    if selected.len() > 0 && selected[0] > 0 {
        let candidate = (selected[0] - 1) as usize;
        let wider = seq![candidate] + selected;
        assert forall|i: int| 0 <= i < selected.len() implies (#[trigger] selected[i])
            > candidate by {
            if i > 0 {
                assert(selected[0] < selected[i]);
            }
        }
        assert forall|i: int, j: int| 0 <= i < j < wider.len() implies #[trigger] wider[i]
            < #[trigger] wider[j] by {
            assert(wider[j] == selected[j - 1]);
            if i > 0 {
                assert(wider[i] == selected[i - 1]);
            }
        }
        lemma_one_more(selected, candidate, wider);
    }
    if selected.len() > 0 && selected.last() + 1 < n {
        let candidate = (selected.last() + 1) as usize;
        let wider = selected.push(candidate);
        assert forall|i: int| 0 <= i < selected.len() implies (#[trigger] selected[i])
            < candidate by {
            if i < selected.len() - 1 {
                assert(selected[i] < selected[selected.len() - 1]);
            }
        }
        lemma_one_more(selected, candidate, wider);
    }
}

/// A rising list with one entry more is the list of the set with that entry.
proof fn lemma_one_more(selected: Seq<usize>, candidate: usize, wider: Seq<usize>)
    requires
        rising(wider),
        wider == seq![candidate] + selected || wider == selected.push(candidate),
    ensures
        wider.to_set() == selected.to_set().insert(candidate),
        ascending_of(selected.to_set().insert(candidate)) == wider,
{
    let set = selected.to_set().insert(candidate);
    assert forall|k: usize| #[trigger] wider.contains(k) <==> set.contains(k) by {
        if wider.contains(k) {
            let i = choose|i: int| 0 <= i < wider.len() && wider[i] == k;
            if wider == seq![candidate] + selected {
                if i > 0 {
                    assert(selected[i - 1] == k);
                }
            } else if i < selected.len() {
                assert(selected[i] == k);
            }
        }
        if selected.contains(k) {
            let i = choose|i: int| 0 <= i < selected.len() && selected[i] == k;
            if wider == seq![candidate] + selected {
                assert(wider[i + 1] == k);
            } else {
                assert(wider[i] == k);
            }
        }
        if wider == seq![candidate] + selected {
            assert(wider[0] == candidate);
        } else {
            assert(wider[selected.len() as int] == candidate);
        }
    }
    assert(wider.to_set() =~= set);
    law_sets_have_one_ascending_list(set, wider);
}

/// Grows a selection by one entry at a time until neither neighbour fits.
fn grow(start: &Vec<usize>, messages: &Vec<RenderedMessage<'_>>, budget: usize) -> (done: Vec<
    usize,
>)
    requires
        ordered(start@, messages@.len()),
    ensures
        done@ == grown(entries_of(messages@), start@, budget),
        ordered(done@, messages@.len()),
{
    let ghost entries = entries_of(messages@);
    let total = messages.len();
    let mut selected = set_of(start);
    let ghost mut list = start@;
    let mut changed = true;
    while changed
        invariant
            total == messages@.len(),
            entries == entries_of(messages@),
            entries.len() == total,
            ordered(list, messages@.len()),
            selected@ == list.to_set(),
            changed ==> grown(entries, list, budget) == grown(entries, start@, budget),
            !changed ==> list == grown(entries, start@, budget),
        decreases room(entries, list), (if changed { 1int } else { 0int }),
    {
        changed = false;
        proof {
            lemma_ends(list, total as nat);
        }
        let current = ascending(&selected);
        assert(current@ == list);
        if current.len() > 0 && current[0] > 0 {
            if try_expand(&mut selected, current[0] - 1, messages, budget) {
                changed = true;
            }
        }
        let ghost left = grown_left(entries, list, budget);
        assert(selected@ == left.to_set());
        proof {
            lemma_ends(left, total as nat);
        }
        let current = ascending(&selected);
        assert(current@ == left);
        if current.len() > 0 && current[current.len() - 1] < total - 1 {
            if try_expand(&mut selected, current[current.len() - 1] + 1, messages, budget) {
                changed = true;
            }
        }
        let ghost next = grown_right(entries, left, budget);
        assert(selected@ == next.to_set());
        proof {
            list = next;
        }
    }
    proof {
        lemma_ends(list, total as nat);
    }
    ascending(&selected)
}

/// The indices of the messages that a read shows.
pub fn select_for_budget(
    messages: &Vec<RenderedMessage<'_>>,
    focus: &Option<ProtocolFocus>,
    budget: Option<usize>,
) -> (selected: Result<Vec<usize>>)
    ensures
        (match selection(entries_of(messages@), *focus, budget) {
            Ok(indices) => selected matches Ok(list) && list@ == indices,
            Err(complaint) => selected matches Err(AppError::ConfigError(text)) && text@
                == complaint,
        }),
        selected matches Ok(list) ==> ordered(list@, messages@.len()),
{
    let ghost entries = entries_of(messages@);
    let mut all: Vec<usize> = Vec::new();
    let mut i: usize = 0;
    while i < messages.len()
        invariant
            i <= messages@.len(),
            all@ == all_indices(i as nat),
        decreases messages@.len() - i,
    {
        all.push(i);
        i = i + 1;
        assert(all@ =~= all_indices(i as nat));
    }
    let budget: usize = match budget {
        Some(budget) => budget,
        None => {
            return Ok(all);
        },
    };
    if rendered_len(messages, &all, "none", budget).as_str().unicode_len() <= budget {
        return Ok(all);
    }
    let mut selected: Vec<usize> = Vec::new();
    if let Some(focus) = focus {
        selected = find_focus(messages, focus);
        proof {
            lemma_focus_indices(entries, *focus);
        }
        shrink(&mut selected, messages, budget);
        if selected.len() == 1 {
            let length = measure(messages, &selected, budget);
            if length > budget {
                let mut text = String::new();
                text.append("focus range exceeds budget: message m");
                push_decimal(&mut text, messages[selected[0]].message.ordinal as u128);
                text.append(" alone renders to ");
                push_decimal(&mut text, length as u128);
                text.append(" chars, over budget ");
                push_decimal(&mut text, budget as u128);
                text.append("; raise --budget or narrow the focus range");
                assert(text@ =~= focus_complaint(
                    entries[selected@[0] as int].ordinal,
                    length as nat,
                    budget,
                ));
                return Err(AppError::ConfigError(text));
            }
        }
    }
    assert(selected@ =~= kept_focus(entries, *focus, budget));
    if selected.len() == 0 && messages.len() > 0 {
        selected.push(0);
        assert(selected@ =~= seq![0usize]);
        if measure(messages, &selected, budget) > budget {
            selected.pop();
            assert(selected@ =~= Seq::<usize>::empty());
        }
    }
    assert(selected@ =~= seed(entries, *focus, budget));
    Ok(grow(&selected, messages, budget))
}

/// Says where a selection was cut.
pub fn cut_marker(total: usize, selected: &Vec<usize>) -> (cut: &'static str)
    requires
        forall|i: int| 0 <= i < selected@.len() ==> (#[trigger] selected@[i]) < usize::MAX,
    ensures
        cut@ == cut_text(total as nat, selected@),
{
    if selected.len() == total {
        return "none";
    }
    if selected.len() == 0 {
        return "tail";
    }
    let first = selected[0];
    let last = selected[selected.len() - 1];
    let mut gap = false;
    let mut i: usize = 1;
    while i < selected.len()
        invariant
            1 <= i <= selected@.len(),
            forall|j: int| 0 <= j < selected@.len() ==> (#[trigger] selected@[j]) < usize::MAX,
            gap <==> exists|j: int|
                0 <= j && j + 1 < i && #[trigger] selected@[j] + 1 != selected@[j + 1],
        decreases selected@.len() - i,
    {
        assert(selected@[i - 1] < usize::MAX);
        if selected[i] != selected[i - 1] + 1 {
            gap = true;
        }
        assert(gap <==> exists|j: int|
            0 <= j && j + 1 < i + 1 && #[trigger] selected@[j] + 1 != selected@[j + 1]) by {
            if gap && selected@[i - 1] + 1 == selected@[i as int] {
                let j = choose|j: int|
                    0 <= j && j + 1 < i && #[trigger] selected@[j] + 1 != selected@[j + 1];
                assert(selected@[j] + 1 != selected@[j + 1]);
            }
        }
        i = i + 1;
    }
    let head = first > 0;
    assert(selected@.last() < usize::MAX);
    let tail = last + 1 < total;
    let focus = gap || (head && tail);
    match (head, focus, tail) {
        (true, true, true) => "head+focus+tail",
        (true, true, false) => "head+focus",
        (true, false, true) => "head+tail",
        (true, false, false) => "head",
        (false, true, true) => "focus+tail",
        (false, true, false) => "focus",
        (false, false, true) => "tail",
        (false, false, false) => "none",
    }
}

} // verus!
