//! Things by name: each name once, in the order of the names.

use crate::text::{comes_before, lemma_text_order, same, text_before};
use vstd::prelude::*;

verus! {

/// Whether these stand in the order of their names, no name twice.
pub open spec fn ordered<T>(entries: Seq<(String, T)>) -> bool {
    forall|i: int, j: int|
        0 <= i < j < entries.len() ==> text_before(
            (#[trigger] entries[i]).0@,
            (#[trigger] entries[j]).0@,
        )
}

/// Things by name.
#[derive(Debug)]
pub struct Table<T> {
    entries: Vec<(String, T)>,
}

impl<T> View for Table<T> {
    type V = Seq<(String, T)>;

    closed spec fn view(&self) -> Seq<(String, T)> {
        self.entries@
    }
}

/// Where a name goes: at the first entry, from `from` on, that does not stand before it.
pub open spec fn slot<T>(entries: Seq<(String, T)>, name: Seq<char>, from: int) -> int
    decreases entries.len() - from,
{
    if from < 0 || from >= entries.len() || !text_before(entries[from].0@, name) {
        from
    } else {
        slot(entries, name, from + 1)
    }
}

/// The same entries and one more, in the place of the one of that name where there is one.
pub open spec fn inserted<T>(entries: Seq<(String, T)>, name: String, value: T) -> Seq<
    (String, T),
> {
    let at = slot(entries, name@, 0);
    if at < entries.len() && entries[at].0@ == name@ {
        entries.update(at, (name, value))
    } else {
        entries.insert(at, (name, value))
    }
}

proof fn lemma_slot<T>(entries: Seq<(String, T)>, name: Seq<char>, from: int)
    requires
        0 <= from <= entries.len(),
    ensures
        from <= slot(entries, name, from) <= entries.len(),
        forall|i: int|
            from <= i < slot(entries, name, from) ==> text_before(
                (#[trigger] entries[i]).0@,
                name,
            ),
        slot(entries, name, from) < entries.len() ==> !text_before(
            entries[slot(entries, name, from)].0@,
            name,
        ),
    decreases entries.len() - from,
{
    if from < entries.len() && text_before(entries[from].0@, name) {
        lemma_slot(entries, name, from + 1);
    }
}

proof fn lemma_inserted<T>(entries: Seq<(String, T)>, name: String, value: T)
    requires
        ordered(entries),
    ensures
        ordered(inserted(entries, name, value)),
{
    let at = slot(entries, name@, 0);
    lemma_slot(entries, name@, 0);
    let after = inserted(entries, name, value);
    if at < entries.len() && entries[at].0@ == name@ {
        assert forall|i: int, j: int| 0 <= i < j < after.len() implies text_before(
            (#[trigger] after[i]).0@,
            (#[trigger] after[j]).0@,
        ) by {
            assert(after[i].0@ == entries[i].0@ && after[j].0@ == entries[j].0@);
        }
    } else {
        assert forall|k: int| at <= k < entries.len() implies text_before(
            name@,
            (#[trigger] entries[k]).0@,
        ) by {
            let first = entries[at].0@;
            lemma_text_order(first, name@, name@);
            assert(text_before(name@, first));
            if k > at {
                assert(text_before(first, entries[k].0@));
                lemma_text_order(name@, first, entries[k].0@);
            }
        }
        assert forall|i: int, j: int| 0 <= i < j < after.len() implies text_before(
            (#[trigger] after[i]).0@,
            (#[trigger] after[j]).0@,
        ) by {
            if i != at {
                assert(after[i] == entries[if i < at { i } else { i - 1 }]);
            }
            if j != at {
                assert(after[j] == entries[if j < at { j } else { j - 1 }]);
            }
        }
    }
}

/// What has the names of a table, one for one, is in order too.
pub proof fn lemma_same_names<T, U>(entries: Seq<(String, T)>, others: Seq<(String, U)>)
    requires
        ordered(entries),
        others.len() <= entries.len(),
        forall|i: int| 0 <= i < others.len() ==> (#[trigger] others[i]).0@ == entries[i].0@,
    ensures
        ordered(others),
{
    assert forall|i: int, j: int| 0 <= i < j < others.len() implies text_before(
        (#[trigger] others[i]).0@,
        (#[trigger] others[j]).0@,
    ) by {
        assert(text_before(entries[i].0@, entries[j].0@));
    }
}

impl<T> Table<T> {
    #[verifier::type_invariant]
    pub closed spec fn wf(self) -> bool {
        ordered(self.entries@)
    }

    pub fn new() -> (t: Table<T>)
        ensures
            t@ == Seq::<(String, T)>::empty(),
    {
        Table { entries: Vec::new() }
    }

    /// What already stands in order, as a table.
    pub fn of(entries: Vec<(String, T)>) -> (t: Table<T>)
        requires
            ordered(entries@),
        ensures
            t@ == entries@,
    {
        Table { entries }
    }

    /// What is in the table, in the order of the names.
    pub fn entries(&self) -> (r: &Vec<(String, T)>)
        ensures
            r@ == self@,
            ordered(r@),
    {
        proof {
            use_type_invariant(self);
        }
        &self.entries
    }

    pub fn len(&self) -> (n: usize)
        ensures
            n == self@.len(),
    {
        self.entries.len()
    }

    pub fn is_empty(&self) -> (r: bool)
        ensures
            r == (self@.len() == 0),
    {
        self.entries.len() == 0
    }

    /// Put something under a name, in the place of what was there.
    pub fn insert(self, name: String, value: T) -> (t: Table<T>)
        ensures
            t@ == inserted(self@, name, value),
    {
        proof {
            use_type_invariant(&self);
            lemma_inserted(self.entries@, name, value);
        }
        let mut entries = self.entries;
        let ghost all = entries@;
        let mut at: usize = 0;
        while at < entries.len() && comes_before(entries[at].0.as_str(), name.as_str())
            invariant
                at <= entries@.len(),
                entries@ == all,
                slot(all, name@, 0) == slot(all, name@, at as int),
            decreases entries@.len() - at,
        {
            at = at + 1;
        }
        if at < entries.len() && same(entries[at].0.as_str(), name.as_str()) {
            entries.set(at, (name, value));
        } else {
            entries.insert(at, (name, value));
        }
        Table { entries }
    }
}

impl<T> Default for Table<T> {
    fn default() -> (t: Table<T>)
        ensures
            t@ == Seq::<(String, T)>::empty(),
    {
        Table::new()
    }
}

/// No name stands twice in a table.
pub proof fn law_a_name_stands_once<T>(entries: Seq<(String, T)>, i: int, j: int)
    requires
        ordered(entries),
        0 <= i < j < entries.len(),
    ensures
        entries[i].0@ != entries[j].0@,
{
    lemma_text_order(entries[i].0@, entries[j].0@, entries[i].0@);
    assert(text_before(entries[i].0@, entries[j].0@));
}

} // verus!
