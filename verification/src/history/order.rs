//! Putting lists in order.

use vstd::prelude::*;

verus! {

/// An order on the values of a type. Two values that stand before each other are alike in it.
pub trait Ordered: Sized {
    /// Whether a value may stand before another.
    spec fn goes_before(&self, other: &Self) -> bool;

    /// Of two values at least one may stand before the other.
    proof fn lemma_total(a: &Self, b: &Self)
        ensures
            a.goes_before(b) || b.goes_before(a),
    ;

    /// What may stand before a value may stand before all that follow it.
    proof fn lemma_transitive(a: &Self, b: &Self, c: &Self)
        requires
            a.goes_before(b),
            b.goes_before(c),
        ensures
            a.goes_before(c),
    ;

    /// Tells whether the value may stand before another.
    fn is_before(&self, other: &Self) -> (before: bool)
        ensures
            before == self.goes_before(other),
    ;
}

/// Whether two values are alike in their order.
pub open spec fn alike<T: Ordered>(a: T, b: T) -> bool {
    a.goes_before(&b) && b.goes_before(&a)
}

/// Whether a list is in order.
pub open spec fn in_order<T: Ordered>(list: Seq<T>) -> bool {
    forall|i: int, j: int| 0 <= i < j < list.len() ==> list[i].goes_before(&list[j])
}

/// The items of a list that are like a value, in the order in which they stand.
pub open spec fn those_like<T: Ordered>(list: Seq<T>, value: T) -> Seq<T>
    decreases list.len(),
{
    if list.len() == 0 {
        Seq::empty()
    } else {
        let before = those_like(list.drop_last(), value);
        if alike(list.last(), value) {
            before.push(list.last())
        } else {
            before
        }
    }
}

/// Whether one list is another one put in order, where items that are alike keep the order in
/// which they stood.
pub open spec fn stably_sorted<T: Ordered>(list: Seq<T>, sorted: Seq<T>) -> bool {
    &&& in_order(sorted)
    &&& forall|value: T| #[trigger] those_like(sorted, value) == those_like(list, value)
}

proof fn lemma_those_like_push<T: Ordered>(list: Seq<T>, item: T, value: T)
    ensures
        those_like(list.push(item), value) == if alike(item, value) {
            those_like(list, value).push(item)
        } else {
            those_like(list, value)
        },
{
    assert(list.push(item).drop_last() =~= list);
}

proof fn lemma_those_like_append<T: Ordered>(a: Seq<T>, b: Seq<T>, value: T)
    ensures
        those_like(a + b, value) == those_like(a, value) + those_like(b, value),
    decreases b.len(),
{
    if b.len() == 0 {
        assert(a + b =~= a);
        assert(those_like(a, value) + those_like(b, value) =~= those_like(a, value));
    } else {
        assert((a + b).drop_last() =~= a + b.drop_last());
        lemma_those_like_append(a, b.drop_last(), value);
        assert(those_like(a + b, value) =~= those_like(a, value) + those_like(b, value));
    }
}

/// A list of which nothing may stand before an item holds nothing like it.
proof fn lemma_none_like<T: Ordered>(a: Seq<T>, item: T, value: T)
    requires
        forall|i: int| 0 <= i < a.len() ==> !item.goes_before(&#[trigger] a[i]),
        alike(item, value),
    ensures
        those_like(a, value).len() == 0,
    decreases a.len(),
{
    if a.len() > 0 {
        assert forall|i: int| 0 <= i < a.drop_last().len() implies !item.goes_before(
            &#[trigger] a.drop_last()[i],
        ) by {
            assert(a.drop_last()[i] == a[i]);
        }
        lemma_none_like(a.drop_last(), item, value);
        if alike(a.last(), value) {
            T::lemma_transitive(&item, &value, &a.last());
            assert(!item.goes_before(&a[a.len() - 1]));
        }
    }
}

/// The items of a list from the last to the first.
pub fn reversed<T>(list: Vec<T>) -> (back: Vec<T>)
    ensures
        back@ == list@.reverse(),
{
    let ghost all = list@;
    let mut rest = list;
    let mut back: Vec<T> = Vec::new();
    while rest.len() > 0
        invariant
            rest@.len() + back@.len() == all.len(),
            rest@ == all.take(rest@.len() as int),
            forall|i: int| 0 <= i < back@.len() ==> back@[i] == all[all.len() - 1 - i],
        decreases rest@.len(),
    {
        match rest.pop() {
            Some(item) => {
                back.push(item);
            },
            None => {},
        }
        assert(rest@ =~= all.take(rest@.len() as int));
    }
    assert(back@ =~= all.reverse());
    back
}

/// What is left of two lists that are merged from the back, and the merged end.
spec fn merging<T: Ordered>(a0: Seq<T>, b0: Seq<T>, a: Seq<T>, b: Seq<T>, tail: Seq<T>) -> bool {
    &&& in_order(a)
    &&& in_order(b)
    &&& in_order(tail)
    &&& forall|i: int, j: int|
        0 <= i < a.len() && 0 <= j < tail.len() ==> a[i].goes_before(&tail[j])
    &&& forall|i: int, j: int|
        0 <= i < b.len() && 0 <= j < tail.len() ==> b[i].goes_before(&tail[j])
    &&& forall|value: T| #[trigger]
        those_like(a0 + b0, value) == those_like(a, value) + those_like(b, value) + those_like(
            tail,
            value,
        )
}

/// The last item of the second list can go to the front of the merged end where nothing of the
/// first list has to stand behind it.
proof fn lemma_take_second<T: Ordered>(
    a0: Seq<T>,
    b0: Seq<T>,
    a: Seq<T>,
    b: Seq<T>,
    tail: Seq<T>,
)
    requires
        merging(a0, b0, a, b, tail),
        b.len() > 0,
        a.len() > 0 ==> a.last().goes_before(&b.last()),
    ensures
        merging(a0, b0, a, b.drop_last(), seq![b.last()] + tail),
{
    let x = b.last();
    let next = seq![x] + tail;
    assert forall|i: int, j: int| 0 <= i < j < next.len() implies next[i].goes_before(&next[j]) by {
        if i == 0 {
            assert(next[j] == tail[j - 1]);
            assert(b[b.len() - 1].goes_before(&tail[j - 1]));
        } else {
            assert(tail[i - 1].goes_before(&tail[j - 1]));
        }
    }
    assert forall|i: int, j: int| 0 <= i < a.len() && 0 <= j < next.len() implies a[i].goes_before(
        &next[j],
    ) by {
        if j == 0 {
            if i < a.len() - 1 {
                assert(a[i].goes_before(&a[a.len() - 1]));
                T::lemma_transitive(&a[i], &a.last(), &x);
            }
        } else {
            assert(a[i].goes_before(&tail[j - 1]));
        }
    }
    let left = b.drop_last();
    assert forall|i: int, j: int|
        0 <= i < left.len() && 0 <= j < next.len() implies left[i].goes_before(&next[j]) by {
        if j == 0 {
            assert(b[i].goes_before(&b[b.len() - 1]));
        } else {
            assert(b[i].goes_before(&tail[j - 1]));
        }
    }
    assert forall|value: T| #[trigger]
        those_like(a0 + b0, value) == those_like(a, value) + those_like(left, value) + those_like(
            next,
            value,
        ) by {
        lemma_those_like_one(x, tail, value);
        assert(those_like(a0 + b0, value) =~= those_like(a, value) + those_like(left, value)
            + those_like(next, value));
    }
}

/// The last item of the first list can go to the front of the merged end where it may not stand
/// before the last item of the second.
proof fn lemma_take_first<T: Ordered>(a0: Seq<T>, b0: Seq<T>, a: Seq<T>, b: Seq<T>, tail: Seq<T>)
    requires
        merging(a0, b0, a, b, tail),
        a.len() > 0,
        b.len() > 0 ==> !a.last().goes_before(&b.last()),
    ensures
        merging(a0, b0, a.drop_last(), b, seq![a.last()] + tail),
{
    let x = a.last();
    let next = seq![x] + tail;
    assert forall|i: int| 0 <= i < b.len() implies !x.goes_before(&#[trigger] b[i]) by {
        if i < b.len() - 1 {
            assert(b[i].goes_before(&b[b.len() - 1]));
            if x.goes_before(&b[i]) {
                T::lemma_transitive(&x, &b[i], &b.last());
            }
        }
    }
    assert forall|i: int, j: int| 0 <= i < j < next.len() implies next[i].goes_before(&next[j]) by {
        if i == 0 {
            assert(next[j] == tail[j - 1]);
            assert(a[a.len() - 1].goes_before(&tail[j - 1]));
        } else {
            assert(tail[i - 1].goes_before(&tail[j - 1]));
        }
    }
    assert forall|i: int, j: int| 0 <= i < b.len() && 0 <= j < next.len() implies b[i].goes_before(
        &next[j],
    ) by {
        if j == 0 {
            T::lemma_total(&b[i], &x);
        } else {
            assert(b[i].goes_before(&tail[j - 1]));
        }
    }
    let left = a.drop_last();
    assert forall|i: int, j: int|
        0 <= i < left.len() && 0 <= j < next.len() implies left[i].goes_before(&next[j]) by {
        if j == 0 {
            assert(a[i].goes_before(&a[a.len() - 1]));
        } else {
            assert(a[i].goes_before(&tail[j - 1]));
        }
    }
    assert forall|value: T| #[trigger]
        those_like(a0 + b0, value) == those_like(left, value) + those_like(b, value) + those_like(
            next,
            value,
        ) by {
        lemma_those_like_one(x, tail, value);
        if alike(x, value) {
            lemma_none_like(b, x, value);
        }
        assert(those_like(a0 + b0, value) =~= those_like(left, value) + those_like(b, value)
            + those_like(next, value));
    }
}

proof fn lemma_those_like_one<T: Ordered>(item: T, tail: Seq<T>, value: T)
    ensures
        those_like(seq![item] + tail, value) == if alike(item, value) {
            seq![item] + those_like(tail, value)
        } else {
            those_like(tail, value)
        },
{
    lemma_those_like_append(seq![item], tail, value);
    lemma_those_like_push(Seq::<T>::empty(), item, value);
    assert(Seq::<T>::empty().push(item) =~= seq![item]);
    assert(those_like(Seq::<T>::empty(), value) =~= Seq::<T>::empty());
    assert(Seq::<T>::empty() + those_like(tail, value) =~= those_like(tail, value));
}

/// Merges two lists that are in order. Of items that are alike those of the first list stand
/// first.
fn merge<T: Ordered>(first: Vec<T>, second: Vec<T>) -> (merged: Vec<T>)
    requires
        in_order(first@),
        in_order(second@),
    ensures
        stably_sorted(first@ + second@, merged@),
{
    let ghost a0 = first@;
    let ghost b0 = second@;
    let mut a = first;
    let mut b = second;
    let mut back: Vec<T> = Vec::new();
    let ghost mut tail = Seq::<T>::empty();
    proof {
        assert forall|value: T| #[trigger]
            those_like(a0 + b0, value) == those_like(a0, value) + those_like(b0, value)
                + those_like(tail, value) by {
            lemma_those_like_append(a0, b0, value);
            assert(those_like(tail, value) =~= Seq::<T>::empty());
            assert(those_like(a0, value) + those_like(b0, value) + Seq::<T>::empty()
                =~= those_like(a0, value) + those_like(b0, value));
        }
        assert(back@ =~= tail.reverse());
    }
    while a.len() > 0 || b.len() > 0
        invariant
            merging(a0, b0, a@, b@, tail),
            back@ == tail.reverse(),
        decreases a@.len() + b@.len(),
    {
        let second_last = if b.len() == 0 {
            false
        } else if a.len() == 0 {
            true
        } else {
            a[a.len() - 1].is_before(&b[b.len() - 1])
        };
        let ghost before = tail;
        if second_last {
            proof {
                lemma_take_second(a0, b0, a@, b@, tail);
                tail = seq![b@.last()] + tail;
            }
            match b.pop() {
                Some(item) => {
                    back.push(item);
                },
                None => {},
            }
        } else {
            proof {
                lemma_take_first(a0, b0, a@, b@, tail);
                tail = seq![a@.last()] + tail;
            }
            match a.pop() {
                Some(item) => {
                    back.push(item);
                },
                None => {},
            }
        }
        assert(back@ =~= tail.reverse());
    }
    proof {
        assert(tail.reverse().reverse() =~= tail);
        assert forall|value: T| #[trigger]
            those_like(tail, value) == those_like(a0 + b0, value) by {
            assert(those_like(a@, value) =~= Seq::<T>::empty());
            assert(those_like(b@, value) =~= Seq::<T>::empty());
            assert(Seq::<T>::empty() + Seq::<T>::empty() + those_like(tail, value) =~= those_like(
                tail,
                value,
            ));
        }
    }
    reversed(back)
}

/// Puts a list in order. Items that are alike keep the order in which they stood.
pub fn stable_sort<T: Ordered>(list: Vec<T>) -> (sorted: Vec<T>)
    ensures
        stably_sorted(list@, sorted@),
    decreases list@.len(),
{
    let len = list.len();
    if len <= 1 {
        return list;
    }
    let ghost all = list@;
    let half: usize = len / 2;
    let mut first = list;
    let second = first.split_off(half);
    let a = stable_sort(first);
    let b = stable_sort(second);
    let merged = merge(a, b);
    proof {
        assert(all =~= first@ + second@);
        assert forall|value: T| #[trigger]
            those_like(merged@, value) == those_like(all, value) by {
            lemma_those_like_append(a@, b@, value);
            lemma_those_like_append(first@, second@, value);
        }
    }
    merged
}

proof fn lemma_count_alike<T: Ordered>(list: Seq<T>, item: T)
    ensures
        those_like(list, item).to_multiset().count(item) == list.to_multiset().count(item),
    decreases list.len(),
{
    broadcast use vstd::seq_lib::group_to_multiset_ensures;

    if list.len() > 0 {
        lemma_count_alike(list.drop_last(), item);
        assert(list.drop_last().push(list.last()) =~= list);
        T::lemma_total(&item, &item);
    }
}

/// A list that is put in order keeps all its items.
pub proof fn law_sorting_keeps_all_items<T: Ordered>(list: Seq<T>, sorted: Seq<T>)
    requires
        stably_sorted(list, sorted),
    ensures
        sorted.to_multiset() == list.to_multiset(),
{
    assert forall|item: T| sorted.to_multiset().count(item) == list.to_multiset().count(item) by {
        lemma_count_alike(list, item);
        lemma_count_alike(sorted, item);
    }
    assert(sorted.to_multiset() =~= list.to_multiset());
}

proof fn lemma_first_of_alike<T: Ordered>(list: Seq<T>)
    requires
        list.len() > 0,
    ensures
        those_like(list, list[0]).len() > 0,
        those_like(list, list[0])[0] == list[0],
{
    T::lemma_total(&list[0], &list[0]);
    assert(list =~= seq![list[0]] + list.skip(1));
    lemma_those_like_one(list[0], list.skip(1), list[0]);
}

/// There is only one way to put a list in order such that items that are alike keep theirs.
pub proof fn law_stable_order_is_unique<T: Ordered>(list: Seq<T>, a: Seq<T>, b: Seq<T>)
    requires
        stably_sorted(list, a),
        stably_sorted(list, b),
    ensures
        a == b,
{
    assert forall|value: T| #[trigger] those_like(a, value) == those_like(b, value) by {
        assert(those_like(a, value) == those_like(list, value));
        assert(those_like(b, value) == those_like(list, value));
    }
    lemma_same_order(a, b);
}

proof fn lemma_same_order<T: Ordered>(a: Seq<T>, b: Seq<T>)
    requires
        in_order(a),
        in_order(b),
        forall|value: T| #[trigger] those_like(a, value) == those_like(b, value),
    ensures
        a == b,
    decreases a.len(),
{
    if a.len() == 0 {
        if b.len() > 0 {
            lemma_first_of_alike(b);
            assert(those_like(a, b[0]) == those_like(b, b[0]));
        }
        assert(a =~= b);
    } else {
        lemma_first_of_alike(a);
        assert(those_like(a, a[0]) == those_like(b, a[0]));
        if b.len() == 0 {
            assert(false);
        }
        lemma_first_of_alike(b);
        assert(those_like(a, b[0]) == those_like(b, b[0]));
        lemma_like_is_member(b, a[0]);
        lemma_like_is_member(a, b[0]);
        assert(alike(a[0], b[0]));
        lemma_like_same(a, a[0], b[0]);
        assert(a[0] == b[0]);
        let x = a[0];
        let ra = a.skip(1);
        let rb = b.skip(1);
        assert forall|value: T| #[trigger] those_like(ra, value) == those_like(rb, value) by {
            assert(a =~= seq![x] + ra);
            assert(b =~= seq![x] + rb);
            lemma_those_like_one(x, ra, value);
            lemma_those_like_one(x, rb, value);
            assert(those_like(a, value) == those_like(b, value));
            if alike(x, value) {
                assert((seq![x] + those_like(ra, value)).skip(1) =~= those_like(ra, value));
                assert((seq![x] + those_like(rb, value)).skip(1) =~= those_like(rb, value));
            }
        }
        assert forall|i: int, j: int| 0 <= i < j < ra.len() implies ra[i].goes_before(&ra[j]) by {
            assert(a[i + 1].goes_before(&a[j + 1]));
        }
        assert forall|i: int, j: int| 0 <= i < j < rb.len() implies rb[i].goes_before(&rb[j]) by {
            assert(b[i + 1].goes_before(&b[j + 1]));
        }
        lemma_same_order(ra, rb);
        assert(a =~= seq![x] + ra);
        assert(b =~= seq![x] + rb);
    }
}

/// The first item of a list in order may stand before each value that an item of it is like.
proof fn lemma_like_is_member<T: Ordered>(list: Seq<T>, value: T)
    requires
        in_order(list),
        those_like(list, value).len() > 0,
    ensures
        list.len() > 0,
        list[0].goes_before(&value),
    decreases list.len(),
{
    if alike(list.last(), value) {
        if list.len() > 1 {
            assert(list[0].goes_before(&list[list.len() - 1]));
            T::lemma_transitive(&list[0], &list.last(), &value);
        }
    } else {
        let rest = list.drop_last();
        assert(in_order(rest)) by {
            assert forall|i: int, j: int| 0 <= i < j < rest.len() implies rest[i].goes_before(
                &rest[j],
            ) by {
                assert(list[i].goes_before(&list[j]));
            }
        }
        lemma_like_is_member(rest, value);
    }
}

/// Values that are alike are like the same items.
proof fn lemma_like_same<T: Ordered>(list: Seq<T>, a: T, b: T)
    requires
        alike(a, b),
    ensures
        those_like(list, a) == those_like(list, b),
    decreases list.len(),
{
    if list.len() > 0 {
        lemma_like_same(list.drop_last(), a, b);
        let x = list.last();
        if alike(x, a) {
            T::lemma_transitive(&x, &a, &b);
            T::lemma_transitive(&b, &a, &x);
        }
        if alike(x, b) {
            T::lemma_transitive(&x, &b, &a);
            T::lemma_transitive(&a, &b, &x);
        }
    }
}

} // verus!
