//! What a read shows when not all of it fits: the start of the conversation, or the focus with what
//! stands around it.

use crate::agent::indices::{lemma_rising_unique, rising};
use crate::agent::render::Entry;
use crate::agent::select::{
    all_indices, conversation_line, continues, cut_measure, fits, focus_indices,
    focus_too_long, focuses, grown, grown_left, grown_right, kept_focus, lemma_focus_indices,
    message_line, ordered, rendered, room, seed, selection, selection_text,
    shrunk, ProtocolFocus,
};
use crate::agent::atoms::framed;
use crate::text::decimal;
use vstd::prelude::*;

verus! {

/// How long a read of some entries gets under the longest of all headers.
pub open spec fn needed(entries: Seq<Entry>, selected: Seq<usize>, budget: usize) -> nat {
    "protocol agent-read v=1 cut=head+focus+tail budget="@.len() + decimal(budget as nat).len() + 1
        + selection_text(entries, selected).len()
}

/// How long a read of all entries gets.
pub open spec fn needed_for_all(entries: Seq<Entry>, budget: usize) -> nat {
    "protocol agent-read v=1 cut=none budget="@.len() + decimal(budget as nat).len() + 1
        + selection_text(entries, Seq::new(entries.len(), |i: int| i as usize)).len()
}

/// The first of a list of indices.
pub open spec fn first_indices(k: nat) -> Seq<usize> {
    Seq::new(k, |i: int| i as usize)
}

/// Whether an entry is one that a focus asks for: of its conversation, where it names one, and with
/// an ordinal from the start to the end of its range.
pub open spec fn asked_for(focus: ProtocolFocus, entry: Entry) -> bool {
    &&& focus.conversation_full_ref is Some ==> focus.conversation_full_ref->0@ == entry.full_ref
    &&& focus.range.start <= entry.ordinal
    &&& entry.ordinal <= focus.range.end
}

/// Whether a list holds the indices of the entries that a focus asks for, in order.
pub open spec fn lists_focus(entries: Seq<Entry>, focus: ProtocolFocus, found: Seq<usize>) -> bool {
    &&& forall|i: int| 0 <= i < found.len() ==> (#[trigger] found[i]) < entries.len() && asked_for(
        focus,
        entries[found[i] as int],
    )
    &&& forall|k: int|
        0 <= k < entries.len() && asked_for(focus, #[trigger] entries[k]) ==> found.contains(
            k as usize,
        )
    &&& forall|i: int, j: int|
        0 <= i < j < found.len() ==> #[trigger] found[i] < #[trigger] found[j]
}

/// A selection with as many entries before its first and behind its last as given.
pub open spec fn around(kept: Seq<usize>, before: nat, behind: nat) -> Seq<usize> {
    Seq::new(before, |i: int| (kept[0] - before + i) as usize) + kept + Seq::new(
        behind,
        |i: int| (kept.last() + 1 + i) as usize,
    )
}

proof fn lemma_needed(entries: Seq<Entry>, selected: Seq<usize>, budget: usize)
    ensures
        fits(entries, selected, budget) <==> needed(entries, selected, budget) <= budget,
        rendered(entries, selected, cut_measure(), budget).len() == needed(
            entries,
            selected,
            budget,
        ),
        rendered(entries, all_indices(entries.len()), "none"@, budget).len() == needed_for_all(
            entries,
            budget,
        ),
{
    reveal_strlit("protocol agent-read v=1 cut=head+focus+tail budget=");
    reveal_strlit("protocol agent-read v=1 cut=none budget=");
    reveal_strlit("protocol agent-read v=1 cut=");
    reveal_strlit("head+focus+tail");
    reveal_strlit("none");
    reveal_strlit(" budget=");
    reveal_strlit("\n");
    assert(all_indices(entries.len()) =~= Seq::new(entries.len(), |i: int| i as usize));
}

/// What stands behind a selection only adds to its text.
proof fn lemma_more_behind(entries: Seq<Entry>, selected: Seq<usize>, more: Seq<usize>)
    ensures
        selection_text(entries, selected).len() <= selection_text(entries, selected + more).len(),
    decreases more.len(),
{
    if more.len() == 0 {
        assert(selected + more =~= selected);
    } else {
        assert((selected + more).drop_last() =~= selected + more.drop_last());
        lemma_more_behind(entries, selected, more.drop_last());
    }
}

proof fn lemma_grown_start(entries: Seq<Entry>, selected: Seq<usize>, budget: usize)
    requires
        entries.len() <= usize::MAX,
        0 < selected.len() <= entries.len(),
        forall|i: int| 0 <= i < selected.len() ==> #[trigger] selected[i] == i,
        fits(entries, selected, budget),
    ensures
        ({
            let done = grown(entries, selected, budget);
            &&& selected.len() <= done.len() <= entries.len()
            &&& forall|i: int| 0 <= i < done.len() ==> #[trigger] done[i] == i
            &&& fits(entries, done, budget)
            &&& done.len() < entries.len() ==> !fits(
                entries,
                first_indices(done.len() + 1),
                budget,
            )
        }),
    decreases room(entries, selected),
{
    let next = grown_right(entries, grown_left(entries, selected, budget), budget);
    if next.len() > selected.len() {
        lemma_grown_start(entries, next, budget);
    } else if selected.len() < entries.len() {
        assert(first_indices(selected.len() + 1) =~= selected.push(
            (selected.last() + 1) as usize,
        ));
    }
}

/// Where a start of the entries does not fit, no longer one does.
proof fn lemma_no_longer_start(entries: Seq<Entry>, n: nat, budget: usize)
    requires
        n < entries.len() ==> !fits(entries, first_indices(n + 1), budget),
    ensures
        forall|k: nat|
            1 <= k <= entries.len() && needed(entries, #[trigger] first_indices(k), budget)
                <= budget ==> k <= n,
{
    let least = first_indices(n + 1);
    lemma_needed(entries, least, budget);
    assert forall|k: nat|
        1 <= k <= entries.len() && needed(entries, #[trigger] first_indices(k), budget)
            <= budget implies k <= n by {
        if k > n {
            let extra = first_indices(k).skip(n as int + 1);
            lemma_more_behind(entries, least, extra);
            assert(least + extra =~= first_indices(k));
        }
    }
}

/// A read that no focus is on shows its messages from the first one on, without a gap, and as many
/// of them as fit.
#[verifier::spinoff_prover]
#[verifier::rlimit(40)]
pub proof fn law_unfocused_reads_show_the_start(
    entries: Seq<Entry>,
    focus: Option<ProtocolFocus>,
    budget: Option<usize>,
)
    requires
        entries.len() <= usize::MAX,
        focus is Some ==> forall|k: int|
            0 <= k < entries.len() ==> !asked_for(focus->0, #[trigger] entries[k]),
    ensures
        selection(entries, focus, budget) matches Ok(shown) && {
            &&& shown.len() <= entries.len()
            &&& forall|i: int| 0 <= i < shown.len() ==> #[trigger] shown[i] == i
            &&& budget is None ==> shown.len() == entries.len()
            &&& budget is Some && needed_for_all(entries, budget->0) <= budget->0 ==> shown.len()
                == entries.len()
            &&& budget is Some && 0 < shown.len() < entries.len() ==> needed(
                entries,
                shown,
                budget->0,
            ) <= budget->0
            &&& budget is Some ==> forall|k: nat|
                1 <= k <= entries.len() && needed(
                    entries,
                    #[trigger] first_indices(k),
                    budget->0,
                ) <= budget->0 ==> k <= shown.len()
        },
{
    if let Some(focus) = focus {
        lemma_focus_indices(entries, focus);
        let found = focus_indices(entries, focus);
        if found.len() > 0 {
            assert(focuses(focus, entries[found[0] as int]));
            assert(asked_for(focus, entries[found[0] as int]));
        }
    }
    if let Some(b) = budget {
        lemma_needed(entries, all_indices(entries.len()), b);
        assert(kept_focus(entries, focus, b).len() == 0);
        let start = seed(entries, focus, b);
        lemma_needed(entries, seq![0usize], b);
        if start.len() > 0 {
            lemma_grown_start(entries, start, b);
        }
        if needed_for_all(entries, b) > b {
            let done = grown(entries, start, b);
            assert(selection(entries, focus, budget) == Ok::<Seq<usize>, Seq<char>>(done));
            lemma_needed(entries, done, b);
            assert(first_indices(1) =~= seq![0usize]);
            lemma_no_longer_start(entries, done.len(), b);
        }
    }
}

/// What is kept of a list of indices is the longest start of it that fits, but at least the first.
proof fn lemma_kept(entries: Seq<Entry>, found: Seq<usize>, budget: usize) -> (n: int)
    requires
        found.len() > 0,
    ensures
        1 <= n <= found.len(),
        shrunk(entries, found, budget) == found.take(n),
        n == 1 || fits(entries, found.take(n), budget),
        forall|m: int|
            n < m <= found.len() ==> !fits(entries, #[trigger] found.take(m), budget),
    decreases found.len(),
{
    if found.len() > 1 && !fits(entries, found, budget) {
        let fewer = found.drop_last();
        let n = lemma_kept(entries, fewer, budget);
        assert(fewer.take(n) =~= found.take(n));
        assert forall|m: int| n < m <= found.len() implies !fits(
            entries,
            #[trigger] found.take(m),
            budget,
        ) by {
            if m == found.len() {
                assert(found.take(m) =~= found);
            } else {
                assert(fewer.take(m) =~= found.take(m));
            }
        }
        n
    } else {
        assert(found.take(found.len() as int) =~= found);
        found.len() as int
    }
}

proof fn lemma_found(entries: Seq<Entry>, focus: ProtocolFocus, found: Seq<usize>)
    requires
        entries.len() <= usize::MAX,
        lists_focus(entries, focus, found),
    ensures
        focus_indices(entries, focus) == found,
{
    let listed = focus_indices(entries, focus);
    lemma_focus_indices(entries, focus);
    assert(rising(listed));
    assert(rising(found));
    assert forall|k: usize| #[trigger] listed.contains(k) <==> found.contains(k) by {
        if listed.contains(k) {
            let i = choose|i: int| 0 <= i < listed.len() && listed[i] == k;
            assert(focuses(focus, entries[listed[i] as int]));
            assert(asked_for(focus, entries[k as int]));
        }
        if found.contains(k) {
            let i = choose|i: int| 0 <= i < found.len() && found[i] == k;
            assert(asked_for(focus, entries[found[i] as int]));
            assert(focuses(focus, entries[k as int]));
        }
    }
    lemma_rising_unique(listed, found);
}

/// Whether a selection of a list is the whole of it with entries around it.
proof fn lemma_widen(kept: Seq<usize>, before: nat, behind: nat)
    requires
        kept.len() > 0,
        before <= kept[0],
        kept.last() + behind <= usize::MAX,
    ensures
        around(kept, before, behind).len() == before + kept.len() + behind,
        around(kept, before, behind)[0] == kept[0] - before,
        around(kept, before, behind).last() == kept.last() + behind,
        before < kept[0] ==> around(kept, before + 1, behind) == seq![
            (kept[0] - before - 1) as usize,
        ] + around(kept, before, behind),
        kept.last() + behind < usize::MAX ==> around(kept, before, behind + 1) == around(
            kept,
            before,
            behind,
        ).push((kept.last() + behind + 1) as usize),
{
    let now = around(kept, before, behind);
    if before < kept[0] {
        assert(around(kept, before + 1, behind) =~= seq![(kept[0] - before - 1) as usize] + now);
    }
    if kept.last() + behind < usize::MAX {
        assert(around(kept, before, behind + 1) =~= now.push((kept.last() + behind + 1) as usize));
    }
    assert(now[0] == kept[0] - before);
    assert(now.last() == kept.last() + behind);
}

/// Whether all entries are of the same conversation.
pub open spec fn one_conversation(entries: Seq<Entry>) -> bool {
    forall|i: int, j: int|
        0 <= i < entries.len() && 0 <= j < entries.len() ==> (#[trigger] entries[i]).uuid == (
        #[trigger] entries[j]).uuid && entries[i].canonical == entries[j].canonical
            && entries[i].path == entries[j].path
}

/// How long the selected messages are without the lines that name their conversations.
spec fn weight(entries: Seq<Entry>, selected: Seq<usize>) -> nat
    decreases selected.len(),
{
    if selected.len() == 0 {
        0
    } else {
        let entry = entries[selected.last() as int];
        weight(entries, selected.drop_last()) + message_line(entry).len() + framed(entry.body).len()
    }
}

proof fn lemma_weight_front(entries: Seq<Entry>, first: usize, selected: Seq<usize>)
    ensures
        weight(entries, seq![first] + selected) >= weight(entries, selected),
    decreases selected.len(),
{
    let more = seq![first] + selected;
    if selected.len() > 0 {
        lemma_weight_front(entries, first, selected.drop_last());
        assert(more.drop_last() =~= seq![first] + selected.drop_last());
        assert(more.last() == selected.last());
    }
}

proof fn lemma_weight(entries: Seq<Entry>, selected: Seq<usize>)
    requires
        one_conversation(entries),
        selected.len() > 0,
        forall|i: int| 0 <= i < selected.len() ==> (#[trigger] selected[i]) < entries.len(),
    ensures
        selection_text(entries, selected).len() == conversation_line(
            entries[0].uuid,
            entries[0].canonical,
            entries[0].path,
        ).len() + weight(entries, selected),
    decreases selected.len(),
{
    let fewer = selected.drop_last();
    assert(selected.last() < entries.len());
    if selected.len() > 1 {
        lemma_weight(entries, fewer);
        assert(fewer.last() < entries.len());
        assert(continues(entries, selected, None));
    } else {
        assert(weight(entries, fewer) == 0);
        assert(!continues(entries, selected, None));
        assert(selection_text(entries, fewer).len() == 0);
    }
}

/// With all entries of one conversation, what stands before a selection adds to its text.
proof fn lemma_more_before(entries: Seq<Entry>, first: usize, selected: Seq<usize>)
    requires
        one_conversation(entries),
        first < entries.len(),
        forall|i: int| 0 <= i < selected.len() ==> (#[trigger] selected[i]) < entries.len(),
    ensures
        selection_text(entries, selected).len() <= selection_text(
            entries,
            seq![first] + selected,
        ).len(),
{
    let more = seq![first] + selected;
    if selected.len() > 0 {
        assert forall|i: int| 0 <= i < more.len() implies (#[trigger] more[i]) < entries.len() by {
            if i > 0 {
                assert(more[i] == selected[i - 1]);
            }
        }
        lemma_weight(entries, selected);
        lemma_weight(entries, more);
        lemma_weight_front(entries, first, selected);
    }
}

/// Whether one side of what is shown around a selection lags behind the other only because it could
/// not keep up.
pub open spec fn balanced(
    entries: Seq<Entry>,
    kept: Seq<usize>,
    before: nat,
    behind: nat,
    budget: usize,
) -> bool {
    &&& before < behind ==> before == kept[0] || needed(
        entries,
        around(kept, before + 1, before),
        budget,
    ) > budget
    &&& behind < before ==> kept.last() + behind + 1 == entries.len() || needed(
        entries,
        around(kept, behind + 1, behind + 1),
        budget,
    ) > budget
}

/// What is around a selection lies among the entries.
proof fn lemma_around_ordered(kept: Seq<usize>, before: nat, behind: nat, n: nat)
    requires
        kept.len() > 0,
        ordered(kept, n),
        before <= kept[0],
        kept.last() + behind < n,
        n <= usize::MAX,
    ensures
        ordered(around(kept, before, behind), n),
{
    let all = around(kept, before, behind);
    assert forall|i: int, j: int| 0 <= i < j < all.len() implies #[trigger] all[i]
        < #[trigger] all[j] by {
        lemma_around_at(kept, before, behind, n, i);
        lemma_around_at(kept, before, behind, n, j);
        if before <= i && j < before + kept.len() {
            assert(kept[i - before] < kept[j - before]);
        }
    }
    assert forall|i: int| 0 <= i < all.len() implies (#[trigger] all[i]) < n by {
        lemma_around_at(kept, before, behind, n, i);
    }
}

proof fn lemma_around_at(kept: Seq<usize>, before: nat, behind: nat, n: nat, i: int)
    requires
        kept.len() > 0,
        ordered(kept, n),
        before <= kept[0],
        kept.last() + behind < n,
        n <= usize::MAX,
        0 <= i < before + kept.len() + behind,
    ensures
        ({
            let at = around(kept, before, behind)[i];
            &&& i < before ==> at == kept[0] - before + i
            &&& before <= i < before + kept.len() ==> at == kept[i - before] && kept[0] <= at
                <= kept.last()
            &&& before + kept.len() <= i ==> at == kept.last() + 1 + (i - before - kept.len())
        }),
{
    if before <= i < before + kept.len() {
        let j = i - before;
        if j > 0 {
            assert(kept[0] < kept[j]);
        }
        if j < kept.len() - 1 {
            assert(kept[j] < kept[kept.len() - 1]);
        }
    }
}

/// More around a selection makes a longer text, where all entries are of one conversation.
proof fn lemma_more_around(
    entries: Seq<Entry>,
    kept: Seq<usize>,
    before: nat,
    behind: nat,
    more: nat,
)
    requires
        one_conversation(entries),
        kept.len() > 0,
        ordered(kept, entries.len()),
        before <= more <= kept[0],
        kept.last() + behind < entries.len(),
        entries.len() <= usize::MAX,
    ensures
        selection_text(entries, around(kept, before, behind)).len() <= selection_text(
            entries,
            around(kept, more, behind),
        ).len(),
    decreases more,
{
    if before < more {
        let less = (more - 1) as nat;
        lemma_more_around(entries, kept, before, behind, less);
        lemma_widen(kept, less, behind);
        lemma_around_ordered(kept, less, behind, entries.len());
        lemma_more_before(
            entries,
            (kept[0] - less - 1) as usize,
            around(kept, less, behind),
        );
    }
}

proof fn lemma_grown_around(
    entries: Seq<Entry>,
    kept: Seq<usize>,
    before: nat,
    behind: nat,
    budget: usize,
) -> (shape: (nat, nat))
    requires
        entries.len() <= usize::MAX,
        kept.len() > 0,
        ordered(kept, entries.len()),
        before <= kept[0],
        kept.last() + behind < entries.len(),
    ensures
        shape.0 <= kept[0],
        kept.last() + shape.1 < entries.len(),
        grown(entries, around(kept, before, behind), budget) == around(kept, shape.0, shape.1),
        one_conversation(entries) && balanced(entries, kept, before, behind, budget) ==> balanced(
            entries,
            kept,
            shape.0,
            shape.1,
            budget,
        ),
    decreases room(entries, around(kept, before, behind)),
{
    let now = around(kept, before, behind);
    lemma_widen(kept, before, behind);
    let left = grown_left(entries, now, budget);
    let l = if left.len() > now.len() {
        before + 1
    } else {
        before
    };
    assert(left == around(kept, l, behind));
    lemma_widen(kept, l, behind);
    let next = grown_right(entries, left, budget);
    let r = if next.len() > left.len() {
        behind + 1
    } else {
        behind
    };
    assert(next == around(kept, l, r));
    lemma_widen(kept, l, r);
    if one_conversation(entries) && balanced(entries, kept, before, behind, budget) {
        lemma_round(entries, kept, before, behind, budget, l, r);
    }
    if next.len() <= now.len() {
        (before, behind)
    } else {
        lemma_grown_around(entries, kept, l, r, budget)
    }
}

/// One round of growth keeps what is shown around a selection balanced.
proof fn lemma_round(
    entries: Seq<Entry>,
    kept: Seq<usize>,
    before: nat,
    behind: nat,
    budget: usize,
    l: nat,
    r: nat,
)
    requires
        entries.len() <= usize::MAX,
        one_conversation(entries),
        kept.len() > 0,
        ordered(kept, entries.len()),
        before <= kept[0],
        kept.last() + behind < entries.len(),
        l == if before < kept[0] && fits(entries, around(kept, before + 1, behind), budget) {
            before + 1
        } else {
            before
        },
        r == if kept.last() + behind + 1 < entries.len() && fits(
            entries,
            around(kept, l, behind + 1),
            budget,
        ) {
            behind + 1
        } else {
            behind
        },
        balanced(entries, kept, before, behind, budget),
    ensures
        balanced(entries, kept, l, r, budget),
{
    lemma_needed(entries, around(kept, before + 1, behind), budget);
    lemma_needed(entries, around(kept, l, behind + 1), budget);
    if before < behind && before < kept[0] {
        let least = around(kept, before + 1, before);
        let extra = around(kept, before + 1, behind).skip(least.len() as int);
        lemma_more_behind(entries, least, extra);
        assert(least + extra =~= around(kept, before + 1, behind));
        assert(l == before);
    }
    if behind < before && kept.last() + behind + 1 < entries.len() {
        lemma_more_around(entries, kept, behind + 1, behind + 1, l);
        assert(r == behind);
    }
}

/// A read with a focus is refused if and only if not even the first focused message fits, and then
/// says so. Else it shows the longest start of the focused messages that fits, with the messages
/// right before and right behind it and no others. In one conversation it shows as many before as
/// behind, unless one side came to the end or to a message that did not fit.
#[verifier::spinoff_prover]
#[verifier::rlimit(40)]
pub proof fn law_focused_reads_show_the_focus_in_its_context(
    entries: Seq<Entry>,
    focus: ProtocolFocus,
    found: Seq<usize>,
    budget: usize,
) -> (shape: (int, nat, nat))
    requires
        entries.len() <= usize::MAX,
        lists_focus(entries, focus, found),
        found.len() > 0,
        needed_for_all(entries, budget) > budget,
    ensures
        selection(entries, Some(focus), Some(budget)) is Err <==> needed(
            entries,
            seq![found[0]],
            budget,
        ) > budget,
        selection(entries, Some(focus), Some(budget)) matches Err(text) ==> text
            == "focus range exceeds budget: message m"@ + decimal(
            entries[found[0] as int].ordinal as nat,
        ) + " alone renders to "@ + decimal(needed(entries, seq![found[0]], budget))
            + " chars, over budget "@ + decimal(budget as nat)
            + "; raise --budget or narrow the focus range"@,
        1 <= shape.0 <= found.len(),
        selection(entries, Some(focus), Some(budget)) matches Ok(shown) ==> {
            let kept = found.take(shape.0);
            &&& needed(entries, kept, budget) <= budget
            &&& forall|m: int|
                shape.0 < m <= found.len() ==> needed(
                    entries,
                    #[trigger] found.take(m),
                    budget,
                ) > budget
            &&& shape.1 <= found[0]
            &&& kept.last() + shape.2 < entries.len()
            &&& shown == around(kept, shape.1, shape.2)
            &&& one_conversation(entries) ==> balanced(entries, kept, shape.1, shape.2, budget)
        },
{
    lemma_found(entries, focus, found);
    lemma_focus_indices(entries, focus);
    let n = lemma_kept(entries, found, budget);
    let kept = found.take(n);
    assert(kept == kept_focus(entries, Some(focus), budget));
    lemma_needed(entries, all_indices(entries.len()), budget);
    lemma_needed(entries, kept, budget);
    lemma_needed(entries, seq![found[0]], budget);
    assert(found.take(1) =~= seq![found[0]]);
    lemma_more_behind(entries, seq![found[0]], kept.skip(1));
    assert(seq![found[0]] + kept.skip(1) =~= kept);
    assert forall|m: int| n < m <= found.len() implies needed(
        entries,
        #[trigger] found.take(m),
        budget,
    ) > budget by {
        lemma_needed(entries, found.take(m), budget);
    }
    if focus_too_long(entries, Some(focus), budget) {
        (n, 0, 0)
    } else {
        assert(seed(entries, Some(focus), budget) == kept);
        assert(around(kept, 0, 0) =~= kept);
        assert(ordered(kept, entries.len()));
        let (before, behind) = lemma_grown_around(entries, kept, 0, 0, budget);
        (n, before, behind)
    }
}

/// A read without a budget, or with room for everything, shows every message in order.
pub proof fn law_reads_with_room_show_everything(
    entries: Seq<Entry>,
    focus: Option<ProtocolFocus>,
    budget: Option<usize>,
)
    requires
        budget is Some ==> needed_for_all(entries, budget->0) <= budget->0,
    ensures
        selection(entries, focus, budget) matches Ok(shown) && shown.len() == entries.len() && (
        forall|i: int| 0 <= i < shown.len() ==> #[trigger] shown[i] == i as usize),
{
    if let Some(b) = budget {
        lemma_needed(entries, all_indices(entries.len()), b);
    }
}

} // verus!
