//! Sets of indices, and the lists that they stand for.

use std::collections::BTreeSet;
use vstd::laws_cmp::group_laws_cmp;
use vstd::prelude::*;
use vstd::std_specs::btree::{group_btree_axioms, increasing_seq, spec_btree_keys_iter};
use vstd::std_specs::iter::IteratorSpec;

verus! {

/// Whether a list of indices rises from each to the next.
pub open spec fn rising(list: Seq<usize>) -> bool {
    forall|i: int, j: int| 0 <= i < j < list.len() ==> #[trigger] list[i] < #[trigger] list[j]
}

/// The indices below a bound that a set holds, in order.
pub open spec fn listed_below(set: Set<usize>, bound: nat) -> Seq<usize>
    decreases bound,
{
    if bound == 0 {
        Seq::empty()
    } else {
        let before = listed_below(set, (bound - 1) as nat);
        if set.contains((bound - 1) as usize) {
            before.push((bound - 1) as usize)
        } else {
            before
        }
    }
}

/// The indices that a set holds, in order.
pub open spec fn ascending_of(set: Set<usize>) -> Seq<usize> {
    listed_below(set, (usize::MAX + 1) as nat)
}

proof fn lemma_listed_below(set: Set<usize>, bound: nat)
    requires
        bound <= usize::MAX + 1,
    ensures
        rising(listed_below(set, bound)),
        forall|k: usize| #[trigger]
            listed_below(set, bound).contains(k) <==> set.contains(k) && k < bound,
    decreases bound,
{
    if bound > 0 {
        let last = (bound - 1) as usize;
        let before = listed_below(set, (bound - 1) as nat);
        let all = listed_below(set, bound);
        lemma_listed_below(set, (bound - 1) as nat);
        assert forall|i: int, j: int| 0 <= i < j < all.len() implies #[trigger] all[i]
            < #[trigger] all[j] by {
            assert(all[i] == before[i]);
            assert(before.contains(before[i]));
            if j < before.len() {
                assert(all[j] == before[j]);
            }
        }
        assert forall|k: usize| #[trigger] all.contains(k) <==> set.contains(k) && k < bound by {
            if all.contains(k) {
                let i = choose|i: int| 0 <= i < all.len() && all[i] == k;
                if i < before.len() {
                    assert(before[i] == k);
                    assert(before.contains(k));
                }
            }
            if set.contains(k) && k < bound {
                if k < last {
                    assert(before.contains(k));
                    let i = choose|i: int| 0 <= i < before.len() && before[i] == k;
                    assert(all[i] == k);
                } else {
                    assert(all[all.len() - 1] == k);
                }
            }
        }
    }
}

/// Two lists that rise and hold the same indices are the same.
pub proof fn lemma_rising_unique(a: Seq<usize>, b: Seq<usize>)
    requires
        rising(a),
        rising(b),
        forall|k: usize| #[trigger] a.contains(k) <==> b.contains(k),
    ensures
        a == b,
    decreases a.len(),
{
    if a.len() == 0 {
        if b.len() > 0 {
            assert(b.contains(b[0]));
            assert(a.contains(b[0]));
        }
        assert(a =~= b);
    } else {
        assert(a.contains(a.last()));
        assert(b.contains(a.last()));
        let p = choose|p: int| 0 <= p < b.len() && b[p] == a.last();
        assert(b.contains(b.last()));
        assert(a.contains(b.last()));
        let q = choose|q: int| 0 <= q < a.len() && a[q] == b.last();
        if p < b.len() - 1 {
            assert(b[p] < b[b.len() - 1]);
            if q < a.len() - 1 {
                assert(a[q] < a[a.len() - 1]);
            }
        }
        let ra = a.drop_last();
        let rb = b.drop_last();
        assert forall|k: usize| #[trigger] ra.contains(k) <==> rb.contains(k) by {
            if ra.contains(k) {
                let i = choose|i: int| 0 <= i < ra.len() && ra[i] == k;
                assert(a[i] < a[a.len() - 1]);
                assert(a.contains(k));
                assert(b.contains(k));
                let j = choose|j: int| 0 <= j < b.len() && b[j] == k;
                assert(rb[j] == k);
            }
            if rb.contains(k) {
                let i = choose|i: int| 0 <= i < rb.len() && rb[i] == k;
                assert(b[i] < b[b.len() - 1]);
                assert(b.contains(k));
                assert(a.contains(k));
                let j = choose|j: int| 0 <= j < a.len() && a[j] == k;
                assert(ra[j] == k);
            }
        }
        lemma_rising_unique(ra, rb);
        assert(a =~= ra.push(a.last()));
        assert(b =~= rb.push(b.last()));
    }
}

/// The list of a set rises and holds what the set holds, and no other list does.
pub proof fn law_sets_have_one_ascending_list(set: Set<usize>, list: Seq<usize>)
    ensures
        rising(ascending_of(set)),
        forall|k: usize| #[trigger] ascending_of(set).contains(k) <==> set.contains(k),
        rising(list) && (forall|k: usize| #[trigger] list.contains(k) <==> set.contains(k))
            ==> list == ascending_of(set),
{
    lemma_listed_below(set, (usize::MAX + 1) as nat);
    if rising(list) && (forall|k: usize| #[trigger] list.contains(k) <==> set.contains(k)) {
        assert forall|k: usize| #[trigger] list.contains(k) <==> ascending_of(set).contains(k) by {}
        lemma_rising_unique(list, ascending_of(set));
    }
}

/// Lists the indices of a set.
pub(crate) fn ascending(set: &BTreeSet<usize>) -> (list: Vec<usize>)
    ensures
        list@ == ascending_of(set@),
{
    broadcast use group_btree_axioms;
    broadcast use group_laws_cmp;

    let mut list: Vec<usize> = Vec::new();
    let ghost all = IteratorSpec::remaining(&spec_btree_keys_iter(set));
    for k in it: set.iter()
        invariant
            list@ == it.seq().unref().take(it.index()),
            it.seq() == all,
    {
        assert(it.seq().unref().take(it.index() + 1) =~= it.seq().unref().take(it.index()).push(
            *k,
        ));
        list.push(*k);
    }
    proof {
        assert(list@ =~= all.unref());
        assert(increasing_seq(all));
        assert(vstd::laws_cmp::obeys_cmp::<&usize>());
        assert forall|i: int, j: int| 0 <= i < j < list@.len() implies #[trigger] list@[i]
            < #[trigger] list@[j] by {
            assert(vstd::std_specs::cmp::OrdSpec::cmp_spec(&all[i], &all[j]) is Less);
        }
        assert forall|k: usize| #[trigger] list@.contains(k) <==> set@.contains(k) by {
            assert(list@.to_set().contains(k) <==> list@.contains(k));
        }
        law_sets_have_one_ascending_list(set@, list@);
    }
    list
}

/// Puts an index into a set.
pub(crate) fn put(set: &mut BTreeSet<usize>, index: usize)
    ensures
        final(set)@ == old(set)@.insert(index),
{
    broadcast use group_btree_axioms;
    broadcast use group_laws_cmp;

    set.insert(index);
}

/// Takes an index out of a set.
pub(crate) fn take_out(set: &mut BTreeSet<usize>, index: usize)
    ensures
        final(set)@ == old(set)@.remove(index),
{
    broadcast use group_btree_axioms;
    broadcast use group_laws_cmp;

    set.remove(&index);
}

/// The set of a list of indices.
pub(crate) fn set_of(list: &Vec<usize>) -> (set: BTreeSet<usize>)
    ensures
        set@ == list@.to_set(),
{
    let mut set: BTreeSet<usize> = BTreeSet::new();
    let mut i: usize = 0;
    assert(list@.take(0).to_set() =~= Set::<usize>::empty());
    while i < list.len()
        invariant
            i <= list@.len(),
            set@ == list@.take(i as int).to_set(),
        decreases list@.len() - i,
    {
        put(&mut set, list[i]);
        assert(list@.take(i + 1) =~= list@.take(i as int).push(list@[i as int]));
        assert(list@.take(i + 1).to_set() =~= list@.take(i as int).to_set().insert(
            list@[i as int],
        )) by {
            broadcast use vstd::seq_lib::group_seq_properties;

        }
        i = i + 1;
    }
    assert(list@.take(i as int) =~= list@);
    set
}

} // verus!
