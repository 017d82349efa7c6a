//! Values by the name of a file.

use crate::text::same_text;
use vstd::prelude::*;
use vstd::string::*;

verus! {

/// Values by name. Each name stands once.
#[derive(Debug)]
pub struct NameMap<V> {
    items: Vec<(String, V)>,
}

/// What a list of names with their values amounts to.
spec fn collected<V>(items: Seq<(String, V)>) -> Map<Seq<char>, V>
    decreases items.len(),
{
    if items.len() == 0 {
        Map::empty()
    } else {
        collected(items.drop_last()).insert(items.last().0@, items.last().1)
    }
}

/// Whether no name stands twice.
spec fn distinct<V>(items: Seq<(String, V)>) -> bool {
    forall|i: int, j: int| 0 <= i < j < items.len() ==> items[i].0@ != items[j].0@
}

proof fn lemma_collected<V>(items: Seq<(String, V)>)
    requires
        distinct(items),
    ensures
        collected(items).dom().finite(),
        collected(items).dom().len() == items.len(),
        forall|name: Seq<char>|
            collected(items).contains_key(name) <==> exists|i: int|
                0 <= i < items.len() && (#[trigger] items[i]).0@ == name,
        forall|i: int|
            0 <= i < items.len() ==> collected(items)[(#[trigger] items[i]).0@] == items[i].1,
    decreases items.len(),
{
    if items.len() > 0 {
        let rest = items.drop_last();
        assert(distinct(rest)) by {
            assert forall|i: int, j: int| 0 <= i < j < rest.len() implies rest[i].0@
                != rest[j].0@ by {
                assert(items[i].0@ != items[j].0@);
            }
        }
        lemma_collected(rest);
        let last = items.last();
        assert forall|i: int| 0 <= i < rest.len() implies (#[trigger] rest[i]).0@ != last.0@ by {
            assert(items[i].0@ != items[items.len() - 1].0@);
        }
        assert(!collected(rest).contains_key(last.0@));
        assert forall|name: Seq<char>|
            collected(items).contains_key(name) <==> exists|i: int|
                0 <= i < items.len() && (#[trigger] items[i]).0@ == name by {
            if name == last.0@ {
                assert(items[items.len() - 1].0@ == name);
            } else {
                if collected(items).contains_key(name) {
                    let i = choose|i: int| 0 <= i < rest.len() && (#[trigger] rest[i]).0@ == name;
                    assert(items[i].0@ == name);
                }
                if exists|i: int| 0 <= i < items.len() && (#[trigger] items[i]).0@ == name {
                    let i = choose|i: int| 0 <= i < items.len() && (#[trigger] items[i]).0@ == name;
                    assert(rest[i].0@ == name);
                }
            }
        }
        assert forall|i: int| 0 <= i < items.len() implies collected(items)[(
        #[trigger] items[i]).0@] == items[i].1 by {
            if i < rest.len() {
                assert(rest[i].0@ != last.0@);
            }
        }
    }
}

proof fn lemma_collected_update<V>(items: Seq<(String, V)>, at: int, item: (String, V))
    requires
        distinct(items),
        0 <= at < items.len(),
        item.0@ == items[at].0@,
    ensures
        distinct(items.update(at, item)),
        collected(items.update(at, item)) == collected(items).insert(item.0@, item.1),
{
    let next = items.update(at, item);
    assert forall|i: int, j: int| 0 <= i < j < next.len() implies next[i].0@ != next[j].0@ by {
        assert(items[i].0@ != items[j].0@);
    }
    lemma_collected(items);
    lemma_collected(next);
    let a = collected(next);
    let b = collected(items).insert(item.0@, item.1);
    assert forall|name: Seq<char>| a.contains_key(name) <==> b.contains_key(name) by {
        if a.contains_key(name) {
            let i = choose|i: int| 0 <= i < next.len() && (#[trigger] next[i]).0@ == name;
            assert(items[i].0@ == name);
        }
        if b.contains_key(name) {
            if name == item.0@ {
                assert(next[at].0@ == name);
            } else {
                let i = choose|i: int| 0 <= i < items.len() && (#[trigger] items[i]).0@ == name;
                assert(next[i].0@ == name);
            }
        }
    }
    assert forall|name: Seq<char>| a.contains_key(name) implies a[name] == b[name] by {
        let i = choose|i: int| 0 <= i < next.len() && (#[trigger] next[i]).0@ == name;
        assert(a[next[i].0@] == next[i].1);
        if i != at {
            assert(items[i].0@ != items[at].0@) by {
                if i < at {
                    assert(items[i].0@ != items[at].0@);
                } else {
                    assert(items[at].0@ != items[i].0@);
                }
            }
            assert(collected(items)[items[i].0@] == items[i].1);
        }
    }
    assert(a =~= b);
}

impl<V> NameMap<V> {
    #[verifier::type_invariant]
    spec fn well_formed(self) -> bool {
        distinct(self.items@)
    }

    /// The values by name.
    pub closed spec fn view(&self) -> Map<Seq<char>, V> {
        collected(self.items@)
    }

    /// No values.
    pub fn new() -> (map: Self)
        ensures
            map@ == Map::<Seq<char>, V>::empty(),
    {
        NameMap { items: Vec::new() }
    }

    /// How many names there are.
    pub fn len(&self) -> (len: usize)
        ensures
            self@.dom().finite(),
            len == self@.dom().len(),
    {
        proof {
            use_type_invariant(self);
            lemma_collected(self.items@);
        }
        self.items.len()
    }

    fn position(&self, name: &str) -> (at: Option<usize>)
        ensures
            match at {
                Some(at) => at < self.items@.len() && self.items@[at as int].0@ == name@,
                None => forall|i: int|
                    0 <= i < self.items@.len() ==> (#[trigger] self.items@[i]).0@ != name@,
            },
    {
        let mut i: usize = 0;
        while i < self.items.len()
            invariant
                i <= self.items@.len(),
                forall|j: int| 0 <= j < i ==> (#[trigger] self.items@[j]).0@ != name@,
            decreases self.items@.len() - i,
        {
            if same_text(self.items[i].0.as_str(), name) {
                return Some(i);
            }
            i = i + 1;
        }
        None
    }

    /// The value under a name.
    pub fn get(&self, name: &str) -> (value: Option<&V>)
        ensures
            match value {
                Some(value) => self@.contains_key(name@) && self@[name@] == *value,
                None => !self@.contains_key(name@),
            },
    {
        proof {
            use_type_invariant(self);
            lemma_collected(self.items@);
        }
        match self.position(name) {
            Some(at) => Some(&self.items[at].1),
            None => None,
        }
    }

    /// Puts a value under a name, in place of the one that may stand there.
    pub fn insert(&mut self, name: String, value: V)
        ensures
            final(self)@ == old(self)@.insert(name@, value),
    {
        proof {
            use_type_invariant(&*self);
        }
        let at = self.position(name.as_str());
        let mut items: Vec<(String, V)> = Vec::new();
        std::mem::swap(&mut items, &mut self.items);
        let ghost before = items@;
        match at {
            Some(at) => {
                proof {
                    lemma_collected_update(before, at as int, (name, value));
                }
                items.set(at, (name, value));
            },
            None => {
                items.push((name, value));
                proof {
                    assert(items@.drop_last() =~= before);
                    assert(distinct(items@));
                }
            },
        }
        self.items = items;
    }

    /// The names with their values, each name once.
    pub fn into_items(self) -> (items: Vec<(String, V)>)
        ensures
            items@.len() == self@.dom().len(),
            forall|i: int, j: int| 0 <= i < j < items@.len() ==> items@[i].0@ != items@[j].0@,
            forall|i: int|
                0 <= i < items@.len() ==> self@.contains_key((#[trigger] items@[i]).0@)
                    && self@[items@[i].0@] == items@[i].1,
    {
        proof {
            use_type_invariant(&self);
            lemma_collected(self.items@);
        }
        self.items
    }
}

} // verus!
