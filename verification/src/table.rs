//! Tables from names to values, kept in the order in which the names came.
use crate::text::same_str;
use vstd::prelude::*;

verus! {

/// A name and what it stands for.
pub struct Entry<V> {
    pub name: String,
    pub value: V,
}

/// A table in which no name stands twice.
pub struct Table<V> {
    pub entries: Vec<Entry<V>>,
}

/// `k` is the name of the entry at `i`.
pub open spec fn named_at<V>(s: Seq<Entry<V>>, k: Seq<char>, i: int) -> bool {
    0 <= i < s.len() && s[i].name@ == k
}

/// What a list of entries says of each name.
pub open spec fn as_map<V>(s: Seq<Entry<V>>) -> Map<Seq<char>, V> {
    Map::new(
        |k: Seq<char>| exists|i: int| named_at(s, k, i),
        |k: Seq<char>| s[choose|i: int| named_at(s, k, i)].value,
    )
}

impl<V> View for Table<V> {
    type V = Map<Seq<char>, V>;

    open spec fn view(&self) -> Map<Seq<char>, V> {
        as_map(self.entries@)
    }
}

/// What a table says, values by their content.
pub open spec fn contents<V: View>(t: Table<V>) -> Map<Seq<char>, V::V> {
    t@.map_values(|v: V| v@)
}

impl<V> Table<V> {
    /// No name stands twice.
    pub open spec fn wf(&self) -> bool {
        forall|i: int, j: int|
            0 <= i < j < self.entries@.len() ==> #[trigger] self.entries@[i].name@
                != #[trigger] self.entries@[j].name@
    }

    pub fn new() -> (t: Self)
        ensures
            t.wf(),
            t@ == Map::<Seq<char>, V>::empty(),
            t.entries@.len() == 0,
    {
        let t = Table { entries: Vec::new() };
        proof {
            assert(t@ =~= Map::<Seq<char>, V>::empty());
        }
        t
    }

    /// Where `name` stands in the table.
    pub fn position(&self, name: &str) -> (r: Option<usize>)
        ensures
            match r {
                Some(i) => named_at(self.entries@, name@, i as int),
                None => !self@.contains_key(name@),
            },
    {
        for i in 0..self.entries.len()
            invariant
                forall|j: int| 0 <= j < i ==> self.entries@[j].name@ != name@,
        {
            if same_str(self.entries[i].name.as_str(), name) {
                return Some(i);
            }
        }
        None
    }

    pub fn contains_key(&self, name: &str) -> (r: bool)
        ensures
            r == self@.contains_key(name@),
    {
        self.position(name).is_some()
    }

    pub fn get(&self, name: &str) -> (r: Option<&V>)
        requires
            self.wf(),
        ensures
            match r {
                Some(v) => self@.contains_key(name@) && *v == self@[name@],
                None => !self@.contains_key(name@),
            },
    {
        match self.position(name) {
            Some(i) => {
                proof {
                    entry_is_value(*self, i as int);
                }
                Some(&self.entries[i].value)
            },
            None => None,
        }
    }

    /// Gives `name` the value `value`, in place of the one it had.
    pub fn insert(&mut self, name: String, value: V)
        requires
            old(self).wf(),
        ensures
            final(self).wf(),
            final(self)@ == old(self)@.insert(name@, value),
            !old(self)@.contains_key(name@) ==> final(self).entries@ == old(self).entries@.push(
                (Entry { name, value }),
            ),
    {
        let ghost before = *self;
        match self.position(name.as_str()) {
            Some(i) => {
                self.entries.set(i, Entry { name, value });
                proof {
                    assert forall|a: int, b: int| 0 <= a < b < self.entries@.len() implies #[trigger] self.entries@[a].name@
                        != #[trigger] self.entries@[b].name@ by {
                        assert(before.entries@[a].name@ != before.entries@[b].name@);
                    }
                    assert(self@ =~= before@.insert(name@, value)) by {
                        assert forall|k: Seq<char>| self@.contains_key(k) <==> #[trigger] before@.insert(name@, value).contains_key(k) by {
                            if self@.contains_key(k) {
                                let a = choose|a: int| named_at(self.entries@, k, a);
                                if k != name@ {
                                    assert(named_at(before.entries@, k, a));
                                }
                            }
                            if before@.insert(name@, value).contains_key(k) {
                                if k == name@ {
                                    assert(named_at(self.entries@, k, i as int));
                                } else {
                                    let a = choose|a: int| named_at(before.entries@, k, a);
                                    assert(named_at(self.entries@, k, a));
                                }
                            }
                        }
                        assert forall|k: Seq<char>| #[trigger] self@.contains_key(k) implies self@[k] == before@.insert(name@, value)[k] by {
                            let a = choose|a: int| named_at(self.entries@, k, a);
                            entry_is_value(*self, a);
                            if k != name@ {
                                entry_is_value(before, a);
                            } else {
                                entry_is_value(*self, i as int);
                            }
                        }
                    }
                }
            },
            None => {
                self.entries.push(Entry { name, value });
                proof {
                    let n = before.entries@.len() as int;
                    assert forall|a: int, b: int| 0 <= a < b < self.entries@.len() implies #[trigger] self.entries@[a].name@
                        != #[trigger] self.entries@[b].name@ by {
                        if b == n {
                            assert(!named_at(before.entries@, name@, a));
                        } else {
                            assert(before.entries@[a].name@ != before.entries@[b].name@);
                        }
                    }
                    assert(self@ =~= before@.insert(name@, value)) by {
                        assert forall|k: Seq<char>| self@.contains_key(k) <==> #[trigger] before@.insert(name@, value).contains_key(k) by {
                            if self@.contains_key(k) {
                                let a = choose|a: int| named_at(self.entries@, k, a);
                                if a < n {
                                    assert(named_at(before.entries@, k, a));
                                }
                            }
                            if before@.insert(name@, value).contains_key(k) {
                                if k == name@ {
                                    assert(named_at(self.entries@, k, n));
                                } else {
                                    let a = choose|a: int| named_at(before.entries@, k, a);
                                    assert(named_at(self.entries@, k, a));
                                }
                            }
                        }
                        assert forall|k: Seq<char>| #[trigger] self@.contains_key(k) implies self@[k] == before@.insert(name@, value)[k] by {
                            let a = choose|a: int| named_at(self.entries@, k, a);
                            entry_is_value(*self, a);
                            if a < n {
                                entry_is_value(before, a);
                            }
                        }
                    }
                }
            },
        }
    }

    /// Gives `name` the value `value` unless it has one.
    pub fn or_insert(&mut self, name: String, value: V)
        requires
            old(self).wf(),
        ensures
            final(self).wf(),
            old(self)@.contains_key(name@) ==> *final(self) == *old(self),
            !old(self)@.contains_key(name@) ==> final(self)@ == old(self)@.insert(name@, value)
                && final(self).entries@ == old(self).entries@.push((Entry { name, value })),
    {
        if !self.contains_key(name.as_str()) {
            self.insert(name, value);
        }
    }

    /// Takes `name` out of the table.
    pub fn remove(&mut self, name: &str) -> (r: Option<V>)
        requires
            old(self).wf(),
        ensures
            final(self).wf(),
            final(self)@ == old(self)@.remove(name@),
            match r {
                Some(v) => old(self)@.contains_key(name@) && v == old(self)@[name@],
                None => !old(self)@.contains_key(name@) && *final(self) == *old(self),
            },
    {
        let ghost before = *self;
        match self.position(name) {
            Some(i) => {
                let e = self.entries.remove(i);
                proof {
                    entry_is_value(before, i as int);
                    assert forall|a: int, b: int| 0 <= a < b < self.entries@.len() implies #[trigger] self.entries@[a].name@
                        != #[trigger] self.entries@[b].name@ by {
                        let a0 = if a < i { a } else { a + 1 };
                        let b0 = if b < i { b } else { b + 1 };
                        assert(before.entries@[a0].name@ != before.entries@[b0].name@);
                    }
                    assert(self@ =~= before@.remove(name@)) by {
                        assert forall|k: Seq<char>| self@.contains_key(k) <==> #[trigger] before@.remove(name@).contains_key(k) by {
                            if self@.contains_key(k) {
                                let a = choose|a: int| named_at(self.entries@, k, a);
                                let a0 = if a < i { a } else { a + 1 };
                                assert(named_at(before.entries@, k, a0));
                                if k == name@ {
                                    assert(before.entries@[a0].name@ == before.entries@[i as int].name@);
                                }
                            }
                            if before@.remove(name@).contains_key(k) {
                                let a = choose|a: int| named_at(before.entries@, k, a);
                                let a1 = if a < i { a } else { a - 1 };
                                assert(named_at(self.entries@, k, a1));
                            }
                        }
                        assert forall|k: Seq<char>| #[trigger] self@.contains_key(k) implies self@[k] == before@.remove(name@)[k] by {
                            let a = choose|a: int| named_at(self.entries@, k, a);
                            let a0 = if a < i { a } else { a + 1 };
                            entry_is_value(*self, a);
                            entry_is_value(before, a0);
                        }
                    }
                }
                Some(e.value)
            },
            None => {
                proof {
                    assert(before@.remove(name@) =~= before@);
                }
                None
            },
        }
    }
}

/// In a table without duplicates, the entry at `i` says what its name stands for.
pub proof fn entry_is_value<V>(t: Table<V>, i: int)
    requires
        t.wf(),
        0 <= i < t.entries@.len(),
    ensures
        t@.contains_key(t.entries@[i].name@),
        t@[t.entries@[i].name@] == t.entries@[i].value,
{
    let k = t.entries@[i].name@;
    assert(named_at(t.entries@, k, i));
    let j = choose|j: int| named_at(t.entries@, k, j);
    if j < i {
        assert(t.entries@[j].name@ != t.entries@[i].name@);
    } else if i < j {
        assert(t.entries@[i].name@ != t.entries@[j].name@);
    }
}

}
