//! Values kept by name, in the order the names first came.

use crate::text::same;
use vstd::prelude::*;

verus! {

/// Values by name. A name occurs once; the first to come stays first.
#[derive(Debug)]
pub struct Keyed<V> {
    pub entries: Vec<(String, V)>,
}

/// The names of the entries.
pub open spec fn entry_names<V>(entries: Seq<(String, V)>) -> Seq<Seq<char>> {
    Seq::new(entries.len(), |i: int| entries[i].0@)
}

impl<V> Keyed<V> {
    /// The names in order.
    pub open spec fn names(self) -> Seq<Seq<char>> {
        entry_names(self.entries@)
    }

    /// No name occurs twice.
    pub open spec fn distinct(self) -> bool {
        self.names().no_duplicates()
    }

    /// Whether there is a value for `name`.
    pub open spec fn has(self, name: Seq<char>) -> bool {
        self.names().contains(name)
    }

    /// The position of `name`.
    pub open spec fn position_of(self, name: Seq<char>) -> int {
        self.names().index_of(name)
    }

    /// The value for `name`, which must be there.
    pub open spec fn value(self, name: Seq<char>) -> V {
        self.entries@[self.position_of(name)].1
    }

    /// The value for `name`, if there is one.
    pub open spec fn lookup(self, name: Seq<char>) -> Option<V> {
        if self.has(name) {
            Some(self.value(name))
        } else {
            None
        }
    }

    /// The values by name.
    pub open spec fn map(self) -> Map<Seq<char>, V> {
        Map::new(|name: Seq<char>| self.has(name), |name: Seq<char>| self.value(name))
    }

    /// No values.
    pub fn new() -> (r: Keyed<V>)
        ensures
            r.entries@ == Seq::<(String, V)>::empty(),
            r.distinct(),
            r.map() == Map::<Seq<char>, V>::empty(),
    {
        let r = Keyed { entries: Vec::new() };
        proof {
            assert(r.names() =~= Seq::empty());
        }
        r
    }

    /// The position of the entry for `name`.
    pub fn find(&self, name: &str) -> (r: Option<usize>)
        requires
            self.distinct(),
        ensures
            match r {
                Some(i) => self.has(name@) && i == self.position_of(name@) && i
                    < self.entries@.len() && self.entries@[i as int].0@ == name@,
                None => !self.has(name@),
            },
    {
        let mut i: usize = 0;
        while i < self.entries.len()
            invariant
                self.distinct(),
                i <= self.entries@.len(),
                forall|k: int| 0 <= k < i ==> #[trigger] self.names()[k] != name@,
            decreases self.entries@.len() - i,
        {
            if same(self.entries[i].0.as_str(), name) {
                proof {
                    assert(self.names()[i as int] == name@);
                    self.lemma_position(i as int);
                }
                return Some(i);
            }
            proof {
                assert(self.names()[i as int] == self.entries@[i as int].0@);
            }
            i = i + 1;
        }
        None
    }

    /// The value for `name`, if there is one.
    pub fn get(&self, name: &str) -> (r: Option<&V>)
        requires
            self.distinct(),
        ensures
            match r {
                Some(v) => self.lookup(name@) == Some(*v),
                None => self.lookup(name@) is None,
            },
    {
        match self.find(name) {
            Some(i) => Some(&self.entries[i].1),
            None => None,
        }
    }

    /// Puts `value` under `name`, in place of the value it had or at the end.
    pub fn put(&mut self, name: &str, value: V)
        requires
            old(self).distinct(),
        ensures
            final(self).distinct(),
            final(self).map() == old(self).map().insert(name@, value),
            final(self).lookup(name@) == Some(value),
            forall|other: Seq<char>|
                other != name@ ==> #[trigger] final(self).lookup(other) == old(self).lookup(other),
            old(self).has(name@) ==> final(self).names() == old(self).names(),
            old(self).has(name@) ==> final(self).entries@.len() == old(self).entries@.len(),
            forall|i: int|
                0 <= i < old(self).entries@.len() && old(self).names()[i] != name@
                    ==> #[trigger] final(self).entries@[i] == old(self).entries@[i],
            !old(self).has(name@) ==> final(self).names() == old(self).names().push(name@),
    {
        let ghost before = *self;
        match self.find(name) {
            Some(i) => {
                self.entries.set(i, (name.to_string(), value));
                proof {
                    assert(self.names() =~= before.names());
                    assert(before.names()[i as int] == name@);
                    self.lemma_position(i as int);
                    assert forall|other: Seq<char>| other != name@ implies #[trigger] self.lookup(
                        other,
                    ) == before.lookup(other) by {
                        if before.has(other) {
                            let k = before.position_of(other);
                            assert(before.names()[k] == other);
                            assert(k != i);
                        }
                    }
                }
            },
            None => {
                self.entries.push((name.to_string(), value));
                proof {
                    assert(self.names() =~= before.names().push(name@));
                    let n = before.entries@.len() as int;
                    assert(self.names()[n] == name@);
                    assert(self.names().no_duplicates()) by {
                        assert forall|a: int, b: int|
                            0 <= a < self.names().len() && 0 <= b < self.names().len() && a
                                != b implies self.names()[a] != self.names()[b] by {
                            if a < n && b < n {
                                assert(before.names()[a] != before.names()[b]);
                            } else if a < n {
                                assert(before.names().contains(before.names()[a]));
                            } else {
                                assert(before.names().contains(before.names()[b]));
                            }
                        }
                    }
                    self.lemma_position(n);
                    assert forall|other: Seq<char>| other != name@ implies #[trigger] self.lookup(
                        other,
                    ) == before.lookup(other) by {
                        if before.has(other) {
                            let k = before.position_of(other);
                            assert(before.names()[k] == other);
                            assert(self.names()[k] == other);
                            self.lemma_position(k);
                        } else if self.has(other) {
                            let k = self.names().index_of(other);
                            assert(self.names()[k] == other);
                            assert(k < n);
                            assert(before.names()[k] == other);
                        }
                    }
                }
            },
        }
        proof {
            assert forall|n: Seq<char>| #[trigger]
                self.map().dom().contains(n) == before.map().insert(name@, value).dom().contains(
                    n,
                ) by {
                if n != name@ {
                    assert(self.lookup(n) == before.lookup(n));
                }
            }
            assert forall|n: Seq<char>| #[trigger] self.map().dom().contains(n) implies self.map()[n]
                == before.map().insert(name@, value)[n] by {
                if n != name@ {
                    assert(self.lookup(n) == before.lookup(n));
                }
            }
            assert(self.map() =~= before.map().insert(name@, value));
        }
    }

    /// Drops every value.
    pub fn clear(&mut self)
        ensures
            final(self).entries@ == Seq::<(String, V)>::empty(),
            final(self).distinct(),
            final(self).map() == Map::<Seq<char>, V>::empty(),
    {
        self.entries.clear();
        proof {
            assert(self.names() =~= Seq::empty());
        }
    }

    /// The entry at `i` is the one its name finds.
    pub proof fn lemma_position(self, i: int)
        requires
            self.distinct(),
            0 <= i < self.entries@.len(),
        ensures
            self.has(self.names()[i]),
            self.position_of(self.names()[i]) == i,
            self.lookup(self.names()[i]) == Some(self.entries@[i].1),
    {
        let name = self.names()[i];
        assert(self.names().contains(name));
        let k = self.names().index_of(name);
        assert(self.names()[k] == name);
        assert(k == i);
    }
}

/// A name is looked up to the value that stands with it, and to none where it does not occur.
pub proof fn law_a_name_is_looked_up_to_its_value<V>(keyed: Keyed<V>, name: Seq<char>, value: V)
    requires
        keyed.distinct(),
    ensures
        keyed.lookup(name) == Some(value) <==> exists|i: int|
            0 <= i < keyed.entries@.len() && (#[trigger] keyed.entries@[i]).0@ == name
                && keyed.entries@[i].1 == value,
        keyed.lookup(name) is None <==> forall|i: int|
            0 <= i < keyed.entries@.len() ==> (#[trigger] keyed.entries@[i]).0@ != name,
        keyed.map().dom().contains(name) <==> keyed.lookup(name) is Some,
        keyed.lookup(name) is Some ==> keyed.map()[name] == keyed.lookup(name)->0,
{
    if keyed.lookup(name) == Some(value) {
        let i = keyed.position_of(name);
        assert(keyed.names()[i] == name);
        assert(keyed.entries@[i].0@ == name && keyed.entries@[i].1 == value);
    }
    if exists|i: int|
        0 <= i < keyed.entries@.len() && (#[trigger] keyed.entries@[i]).0@ == name
            && keyed.entries@[i].1 == value {
        let i = choose|i: int|
            0 <= i < keyed.entries@.len() && (#[trigger] keyed.entries@[i]).0@ == name
                && keyed.entries@[i].1 == value;
        keyed.lemma_position(i);
    }
    if keyed.lookup(name) is Some {
        let i = keyed.position_of(name);
        assert(keyed.names()[i] == name);
        assert(keyed.entries@[i].0@ == name);
    } else {
        assert forall|i: int| 0 <= i < keyed.entries@.len() implies (
        #[trigger] keyed.entries@[i]).0@ != name by {
            assert(keyed.names()[i] == keyed.entries@[i].0@);
            assert(keyed.names().contains(keyed.names()[i]));
        }
    }
}

} // verus!
