//! A map from names to values that keeps its names in the order in which they
//! were first set.

use crate::text;
use vstd::prelude::*;

verus! {

/// A map from names to values.
#[derive(Debug)]
pub struct NameTable<V> {
    entries: Vec<(String, V)>,
}

/// Whether no name stands twice in `items`.
pub open spec fn distinct_names<V>(items: Seq<(String, V)>) -> bool {
    forall|i: int, j: int|
        0 <= i < j < items.len() ==> (#[trigger] items[i]).0@ != (#[trigger] items[j]).0@
}

impl<V> NameTable<V> {
    /// The entries, in order.
    pub closed spec fn items(self) -> Seq<(String, V)> {
        self.entries@
    }

    /// Whether no name stands twice.
    pub open spec fn wf(self) -> bool {
        distinct_names(self.items())
    }

    #[verifier::type_invariant]
    spec fn inv(self) -> bool {
        self.wf()
    }

    /// Whether entry `i` is that of `name`.
    pub open spec fn is_at(self, name: Seq<char>, i: int) -> bool {
        0 <= i < self.items().len() && self.items()[i].0@ == name
    }

    /// Whether the table has `name`.
    pub open spec fn has(self, name: Seq<char>) -> bool {
        exists|i: int| self.is_at(name, i)
    }
}

impl<V> View for NameTable<V> {
    type V = Map<Seq<char>, V>;

    open spec fn view(&self) -> Map<Seq<char>, V> {
        Map::new(
            |name: Seq<char>| self.has(name),
            |name: Seq<char>| self.items()[choose|i: int| self.is_at(name, i)].1,
        )
    }
}

impl<V> NameTable<V> {
    /// Entry `i` of a table is what the table maps its name to.
    pub proof fn lemma_entry(self, i: int)
        requires
            self.wf(),
            0 <= i < self.items().len(),
        ensures
            self@.dom().contains(self.items()[i].0@),
            self@[self.items()[i].0@] == self.items()[i].1,
    {
        let name = self.items()[i].0@;
        assert(self.is_at(name, i));
        let k = choose|k: int| self.is_at(name, k);
        assert(self.is_at(name, k));
        if k < i {
            assert(self.items()[k].0@ != self.items()[i].0@);
        } else if i < k {
            assert(self.items()[i].0@ != self.items()[k].0@);
        }
    }

    /// A name in the table has an entry.
    pub proof fn lemma_position(self, name: Seq<char>) -> (i: int)
        requires
            self.wf(),
            self@.dom().contains(name),
        ensures
            0 <= i < self.items().len(),
            self.items()[i].0@ == name,
            self.items()[i].1 == self@[name],
    {
        let i = choose|i: int| self.is_at(name, i);
        assert(self.is_at(name, i));
        self.lemma_entry(i);
        i
    }

    /// The empty table.
    pub fn new() -> (table: Self)
        ensures
            table.wf(),
            table.items() == Seq::<(String, V)>::empty(),
            table@ == Map::<Seq<char>, V>::empty(),
    {
        let table = NameTable { entries: Vec::new() };
        assert(table@ =~= Map::<Seq<char>, V>::empty());
        table
    }

    /// The position of `name`.
    fn position(&self, name: &str) -> (found: Option<usize>)
        requires
            self.wf(),
        ensures
            found matches Some(i) ==> {
                &&& i < self.items().len()
                &&& self.items()[i as int].0@ == name@
                &&& self@.dom().contains(name@)
                &&& self@[name@] == self.items()[i as int].1
            },
            found is None ==> !self@.dom().contains(name@),
    {
        let mut i: usize = 0;
        while i < self.entries.len()
            invariant
                self.wf(),
                i <= self.entries@.len(),
                forall|k: int| 0 <= k < i ==> (#[trigger] self.items()[k]).0@ != name@,
            decreases self.entries@.len() - i,
        {
            if text::same_text(self.entries[i].0.as_str(), name) {
                proof {
                    self.lemma_entry(i as int);
                }
                return Some(i);
            }
            assert(self.items()[i as int].0@ != name@);
            i = i + 1;
        }
        proof {
            if self@.dom().contains(name@) {
                let k = self.lemma_position(name@);
                assert(self.items()[k].0@ != name@);
            }
        }
        None
    }

    /// The value of `name`.
    pub fn get(&self, name: &str) -> (value: Option<&V>)
        ensures
            self.wf(),
            value is Some <==> self@.dom().contains(name@),
            value matches Some(v) ==> *v == self@[name@],
    {
        proof {
            use_type_invariant(self);
        }
        match self.position(name) {
            Some(i) => Some(&self.entries[i].1),
            None => None,
        }
    }

    /// Gives `name` the value `value`.
    pub fn set(&mut self, name: String, value: V)
        ensures
            old(self).wf(),
            final(self).wf(),
            final(self)@ == old(self)@.insert(name@, value),
            old(self)@.dom().contains(name@) ==> final(self).items().len()
                == old(self).items().len() && forall|i: int|
                0 <= i < old(self).items().len() ==> (#[trigger] final(self).items()[i]).0@
                    == old(self).items()[i].0@,
            !old(self)@.dom().contains(name@) ==> final(self).items() == old(self).items().push(
                (name, value),
            ),
    {
        proof {
            use_type_invariant(&*self);
        }
        let ghost before = *self;
        let found = self.position(name.as_str());
        let mut entries: Vec<(String, V)> = Vec::new();
        std::mem::swap(&mut entries, &mut self.entries);
        match found {
            Some(i) => {
                let key = entries[i].0.clone();
                entries.set(i, (key, value));
                assert(entries@ =~= before.items().update(i as int, (key, value)));
                assert(distinct_names(entries@));
                self.entries = entries;
                proof {
                    self.lemma_entry(i as int);
                    assert forall|k: Seq<char>| self@.dom().contains(k) == before@.insert(
                        name@,
                        value,
                    ).dom().contains(k) by {
                        if self.has(k) {
                            let j = choose|j: int| self.is_at(k, j);
                            assert(before.is_at(k, j));
                        }
                        if before.has(k) {
                            let j = choose|j: int| before.is_at(k, j);
                            assert(self.is_at(k, j));
                        }
                    }
                    assert forall|k: Seq<char>| #[trigger] self@.dom().contains(k) implies self@[k]
                        == before@.insert(name@, value)[k] by {
                        let j = self.lemma_position(k);
                        before.lemma_entry(j);
                    }
                    assert(self@ =~= before@.insert(name@, value));
                }
            },
            None => {
                let ghost n = before.items().len() as int;
                entries.push((name, value));
                assert forall|i: int, j: int| 0 <= i < j < entries@.len() implies (
                #[trigger] entries@[i]).0@ != (#[trigger] entries@[j]).0@ by {
                    assert(entries@[i] == before.items()[i]);
                    if j == n {
                        before.lemma_entry(i);
                    } else {
                        assert(entries@[j] == before.items()[j]);
                    }
                }
                self.entries = entries;
                proof {
                    assert forall|k: Seq<char>| self@.dom().contains(k) == before@.insert(
                        name@,
                        value,
                    ).dom().contains(k) by {
                        if self.has(k) {
                            let j = choose|j: int| self.is_at(k, j);
                            if j < n {
                                assert(before.is_at(k, j));
                            }
                        }
                        if before.has(k) {
                            let j = choose|j: int| before.is_at(k, j);
                            assert(self.is_at(k, j));
                        }
                        assert(self.is_at(name@, n));
                    }
                    assert forall|k: Seq<char>| #[trigger] self@.dom().contains(k) implies self@[k]
                        == before@.insert(name@, value)[k] by {
                        let j = self.lemma_position(k);
                        if j < n {
                            before.lemma_entry(j);
                        }
                    }
                    assert(self@ =~= before@.insert(name@, value));
                }
            },
        }
    }

    /// Takes `name` out.
    pub fn remove(&mut self, name: &str) -> (value: Option<V>)
        ensures
            old(self).wf(),
            final(self).wf(),
            final(self)@ == old(self)@.remove(name@),
            value is Some <==> old(self)@.dom().contains(name@),
            value matches Some(v) ==> v == old(self)@[name@],
            value is Some ==> exists|i: int|
                old(self).is_at(name@, i) && final(self).items() == old(self).items().remove(i),
            value is None ==> final(self).items() == old(self).items(),
    {
        proof {
            use_type_invariant(&*self);
        }
        let ghost before = *self;
        match self.position(name) {
            Some(i) => {
                let mut entries: Vec<(String, V)> = Vec::new();
                std::mem::swap(&mut entries, &mut self.entries);
                let (_, value) = entries.remove(i);
                assert(entries@ =~= before.items().remove(i as int));
                assert forall|a: int, b: int| 0 <= a < b < entries@.len() implies (
                #[trigger] entries@[a]).0@ != (#[trigger] entries@[b]).0@ by {
                    let x = if a < i {
                        a
                    } else {
                        a + 1
                    };
                    let y = if b < i {
                        b
                    } else {
                        b + 1
                    };
                    assert(before.items()[x].0@ != before.items()[y].0@);
                }
                self.entries = entries;
                proof {
                    assert(before.is_at(name@, i as int));
                    assert forall|k: Seq<char>| self@.dom().contains(k) == before@.remove(
                        name@,
                    ).dom().contains(k) by {
                        if self.has(k) {
                            let j = choose|j: int| self.is_at(k, j);
                            let x = if j < i {
                                j
                            } else {
                                j + 1
                            };
                            assert(before.is_at(k, x));
                            if x < i {
                                assert(before.items()[x].0@ != before.items()[i as int].0@);
                            } else {
                                assert(before.items()[i as int].0@ != before.items()[x].0@);
                            }
                        }
                        if before.has(k) && k != name@ {
                            let j = choose|j: int| before.is_at(k, j);
                            let x = if j < i {
                                j
                            } else {
                                j - 1
                            };
                            assert(self.is_at(k, x));
                        }
                    }
                    assert forall|k: Seq<char>| #[trigger] self@.dom().contains(k) implies self@[k]
                        == before@.remove(name@)[k] by {
                        let j = self.lemma_position(k);
                        before.lemma_entry(
                            if j < i {
                                j
                            } else {
                                j + 1
                            },
                        );
                    }
                    assert(self@ =~= before@.remove(name@));
                }
                Some(value)
            },
            None => {
                assert(before@ =~= before@.remove(name@));
                None
            },
        }
    }

    /// Takes every name out.
    pub fn clear(&mut self)
        ensures
            final(self).wf(),
            final(self).items() == Seq::<(String, V)>::empty(),
            final(self)@ == Map::<Seq<char>, V>::empty(),
    {
        self.entries = Vec::new();
        assert(self@ =~= Map::<Seq<char>, V>::empty());
    }

    /// How many names the table has.
    pub fn len(&self) -> (count: usize)
        ensures
            self.wf(),
            count == self.items().len(),
    {
        proof {
            use_type_invariant(self);
        }
        self.entries.len()
    }

    /// Whether the table has no names.
    pub fn is_empty(&self) -> (empty: bool)
        ensures
            empty == (self.items().len() == 0),
            empty <==> self@ == Map::<Seq<char>, V>::empty(),
    {
        proof {
            use_type_invariant(self);
            if self.items().len() == 0 {
                assert(self@ =~= Map::<Seq<char>, V>::empty());
            } else {
                self.lemma_entry(0);
            }
        }
        self.entries.len() == 0
    }

    /// The entry at position `i`.
    pub fn entry(&self, i: usize) -> (entry: (&str, &V))
        requires
            i < self.items().len(),
        ensures
            entry.0@ == self.items()[i as int].0@,
            *entry.1 == self.items()[i as int].1,
            self@.dom().contains(entry.0@),
            self@[entry.0@] == *entry.1,
    {
        proof {
            use_type_invariant(self);
            self.lemma_entry(i as int);
        }
        (self.entries[i].0.as_str(), &self.entries[i].1)
    }

    /// Takes the entries, in order.
    pub fn into_entries(self) -> (entries: Vec<(String, V)>)
        ensures
            self.wf(),
            entries@ == self.items(),
    {
        proof {
            use_type_invariant(&self);
        }
        self.entries
    }
}

} // verus!
