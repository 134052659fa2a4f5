//! A table from names to values, searched by exact, case-sensitive match.
use vstd::prelude::*;

verus! {

/// One entry of a [`NameTable`].
pub struct NameEntry<V> {
    pub name: String,
    pub value: V,
}

/// A table from names to values in which no name stands twice.
pub struct NameTable<V> {
    pub entries: Vec<NameEntry<V>>,
}

impl<V: Copy> NameTable<V> {
    /// No name stands twice.
    pub open spec fn wf(&self) -> bool {
        forall|i: int, j: int|
            0 <= i < j < self.entries.len() ==> (#[trigger] self.entries[i]).name@ != (
            #[trigger] self.entries[j]).name@
    }

    /// Whether entry `i` exists and holds `name`.
    pub open spec fn holds_at(&self, i: int, name: Seq<char>) -> bool {
        0 <= i < self.entries.len() && self.entries[i].name@ == name
    }

    /// The table as a map from names to values.
    pub open spec fn view(&self) -> Map<Seq<char>, V> {
        Map::new(
            |name: Seq<char>| exists|i: int| self.holds_at(i, name),
            |name: Seq<char>| self.entries[choose|i: int| self.holds_at(i, name)].value,
        )
    }

    /// In a well-formed table the entry that holds a name gives the map's value.
    pub proof fn lemma_entry_is_value(&self, i: int)
        requires
            self.wf(),
            0 <= i < self.entries.len(),
        ensures
            self@.contains_key(self.entries[i].name@),
            self@[self.entries[i].name@] == self.entries[i].value,
    {
        let name = self.entries[i].name@;
        assert(self.holds_at(i, name));
        let j = choose|j: int| self.holds_at(j, name);
        assert(self.holds_at(j, name));
        if i < j {
            assert(self.entries[i].name@ != self.entries[j].name@);
        } else if j < i {
            assert(self.entries[j].name@ != self.entries[i].name@);
        }
    }

    /// An empty table.
    pub fn new() -> (table: NameTable<V>)
        ensures
            table.wf(),
            table@ == Map::<Seq<char>, V>::empty(),
            table.entries@.len() == 0,
    {
        let table = NameTable { entries: Vec::new() };
        assert(table@ =~= Map::<Seq<char>, V>::empty()) by {
            assert forall|name: Seq<char>| !table@.contains_key(name) by {
                if table@.contains_key(name) {
                    let i = choose|i: int| table.holds_at(i, name);
                    assert(table.holds_at(i, name));
                }
            }
        }
        table
    }

    /// Where `name` stands in the table, if it does.
    pub fn position(&self, name: &String) -> (r: Option<usize>)
        requires
            self.wf(),
        ensures
            match r {
                Some(i) => self.holds_at(i as int, name@),
                None => !self@.contains_key(name@),
            },
            r is Some == self@.contains_key(name@),
    {
        let mut i: usize = 0;
        while i < self.entries.len()
            invariant
                i <= self.entries.len(),
                forall|j: int| 0 <= j < i ==> !self.holds_at(j, name@),
            decreases self.entries.len() - i,
        {
            if self.entries[i].name == *name {
                assert(self.holds_at(i as int, name@));
                return Some(i);
            }
            i += 1;
        }
        assert(!self@.contains_key(name@)) by {
            if self@.contains_key(name@) {
                let j = choose|j: int| self.holds_at(j, name@);
                assert(self.holds_at(j, name@));
            }
        }
        None
    }

    /// The value that stands under `name`, if any.
    pub fn get(&self, name: &String) -> (r: Option<V>)
        requires
            self.wf(),
        ensures
            r == (if self@.contains_key(name@) {
                Some(self@[name@])
            } else {
                None
            }),
    {
        match self.position(name) {
            Some(i) => {
                proof {
                    self.lemma_entry_is_value(i as int);
                }
                Some(self.entries[i].value)
            },
            None => None,
        }
    }

    /// Whether a value stands under `name`.
    pub fn contains(&self, name: &String) -> (r: bool)
        requires
            self.wf(),
        ensures
            r == self@.contains_key(name@),
    {
        self.position(name).is_some()
    }

    /// Puts `value` under `name`, in place of what stood there before.
    pub fn insert(&mut self, name: String, value: V)
        requires
            old(self).wf(),
        ensures
            final(self).wf(),
            final(self)@ == old(self)@.insert(name@, value),
    {
        let ghost before = *self;
        let ghost key = name@;
        match self.position(&name) {
            Some(i) => {
                self.entries[i] = NameEntry { name, value };
                proof {
                    let after = *self;
                    assert(after.entries@ == before.entries@.update(
                        i as int,
                        after.entries@[i as int],
                    ));
                    assert forall|j: int, n: Seq<char>| after.holds_at(j, n) == before.holds_at(
                        j,
                        n,
                    ) by {
                        if 0 <= j < before.entries.len() {
                            if j == i {
                                assert(after.entries[j].name@ == key);
                                assert(before.entries[j].name@ == key);
                            } else {
                                assert(after.entries[j] == before.entries[j]);
                            }
                        }
                    }
                    assert(after.wf()) by {
                        assert forall|a: int, b: int| 0 <= a < b < after.entries.len() implies (
                        #[trigger] after.entries[a]).name@ != (#[trigger] after.entries[b]).name@ by {
                            assert(after.holds_at(a, after.entries[a].name@));
                            assert(before.holds_at(a, after.entries[a].name@));
                            assert(after.holds_at(b, after.entries[b].name@));
                            assert(before.holds_at(b, after.entries[b].name@));
                            assert(before.entries[a].name@ != before.entries[b].name@);
                        }
                    }
                    after.lemma_entry_is_value(i as int);
                    assert(after@ =~= before@.insert(key, value)) by {
                        assert forall|n: Seq<char>| after@.contains_key(n) == before@.insert(
                            key,
                            value,
                        ).contains_key(n) by {
                            if after@.contains_key(n) {
                                let j = choose|j: int| after.holds_at(j, n);
                                assert(before.holds_at(j, n));
                            }
                            if before@.contains_key(n) {
                                let j = choose|j: int| before.holds_at(j, n);
                                assert(after.holds_at(j, n));
                            }
                            if n == key {
                                assert(after.holds_at(i as int, n));
                            }
                        }
                        assert forall|n: Seq<char>| after@.contains_key(n) implies after@[n]
                            == before@.insert(key, value)[n] by {
                            if n != key {
                                let j = choose|j: int| after.holds_at(j, n);
                                assert(after.holds_at(j, n));
                                assert(j != i);
                                after.lemma_entry_is_value(j);
                                before.lemma_entry_is_value(j);
                            }
                        }
                    }
                }
            },
            None => {
                self.entries.push(NameEntry { name, value });
                proof {
                    let after = *self;
                    let last = before.entries.len() as int;
                    assert(after.entries@ == before.entries@.push(after.entries@[last]));
                    assert(after.entries@[last].name@ == key);
                    assert forall|j: int, n: Seq<char>| after.holds_at(j, n) == (before.holds_at(
                        j,
                        n,
                    ) || (j == last && n == key)) by {
                        if 0 <= j < last {
                            assert(after.entries[j] == before.entries[j]);
                        }
                    }
                    assert(after.wf()) by {
                        assert forall|a: int, b: int| 0 <= a < b < after.entries.len() implies (
                        #[trigger] after.entries[a]).name@ != (#[trigger] after.entries[b]).name@ by {
                            if b == last {
                                if after.entries[a].name@ == key {
                                    assert(before.holds_at(a, key));
                                    assert(before@.contains_key(key));
                                }
                            } else {
                                assert(after.entries[a] == before.entries[a]);
                                assert(after.entries[b] == before.entries[b]);
                                assert(before.entries[a].name@ != before.entries[b].name@);
                            }
                        }
                    }
                    assert(after@ =~= before@.insert(key, value)) by {
                        assert forall|n: Seq<char>| after@.contains_key(n) == before@.insert(
                            key,
                            value,
                        ).contains_key(n) by {
                            if after@.contains_key(n) {
                                let j = choose|j: int| after.holds_at(j, n);
                                assert(after.holds_at(j, n));
                                if n != key {
                                    assert(before.holds_at(j, n));
                                }
                            }
                            if before@.contains_key(n) {
                                let j = choose|j: int| before.holds_at(j, n);
                                assert(after.holds_at(j, n));
                            }
                            if n == key {
                                assert(after.holds_at(last, n));
                            }
                        }
                        assert forall|n: Seq<char>| after@.contains_key(n) implies after@[n]
                            == before@.insert(key, value)[n] by {
                            let j = choose|j: int| after.holds_at(j, n);
                            assert(after.holds_at(j, n));
                            after.lemma_entry_is_value(j);
                            if n != key {
                                assert(j != last);
                                before.lemma_entry_is_value(j);
                            } else {
                                after.lemma_entry_is_value(last);
                            }
                        }
                    }
                }
            },
        }
    }

    /// How many names the table holds.
    pub fn len(&self) -> (r: usize)
        ensures
            r == self.entries@.len(),
    {
        self.entries.len()
    }
}

} // verus!
