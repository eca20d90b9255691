//! A small map from interface names to byte counters.
use vstd::prelude::*;

verus! {

/// Byte counters keyed by name; each name occurs at most once.
pub struct CounterTable {
    entries: Vec<(String, u64)>,
}

impl CounterTable {
    /// No entry holds a name that another entry holds.
    pub closed spec fn wf(&self) -> bool {
        forall|i: int, j: int|
            0 <= i < self.entries@.len() && 0 <= j < self.entries@.len() && i != j
                ==> #[trigger] self.entries@[i].0@ != #[trigger] self.entries@[j].0@
    }

    pub closed spec fn has_name_at(&self, k: Seq<char>, i: int) -> bool {
        0 <= i < self.entries@.len() && self.entries@[i].0@ == k
    }

    /// The counters, by name.
    pub closed spec fn view(&self) -> Map<Seq<char>, u64> {
        Map::new(
            |k: Seq<char>| exists|i: int| self.has_name_at(k, i),
            |k: Seq<char>| self.entries@[choose|i: int| self.has_name_at(k, i)].1,
        )
    }

    /// An empty table.
    pub fn new() -> (r: CounterTable)
        ensures
            r.wf(),
            r.view() == Map::<Seq<char>, u64>::empty(),
    {
        let r = CounterTable { entries: Vec::new() };
        assert(r.view() =~= Map::<Seq<char>, u64>::empty());
        r
    }

    fn position(&self, name: &String) -> (r: Option<usize>)
        ensures
            match r {
                Some(i) => self.has_name_at(name@, i as int),
                None => forall|i: int| !self.has_name_at(name@, i),
            },
    {
        let n = self.entries.len();
        let mut i: usize = 0;
        while i < n
            invariant
                n == self.entries@.len(),
                i <= n,
                forall|j: int| 0 <= j < i ==> !self.has_name_at(name@, j),
            decreases n - i,
        {
            if self.entries[i].0 == *name {
                return Some(i);
            }
            i = i + 1;
        }
        None
    }

    /// The counter stored under `name`, if any.
    pub fn get(&self, name: &String) -> (r: Option<u64>)
        requires
            self.wf(),
        ensures
            r == (if self.view().contains_key(name@) {
                Some(self.view()[name@])
            } else {
                None
            }),
    {
        match self.position(name) {
            Some(i) => {
                proof {
                    let j = choose|j: int| self.has_name_at(name@, j);
                    assert(j == i as int);
                }
                Some(self.entries[i].1)
            },
            None => None,
        }
    }

    /// Stores `value` under `name`, replacing what was there.
    pub fn insert(&mut self, name: String, value: u64)
        requires
            old(self).wf(),
        ensures
            final(self).wf(),
            final(self).view() == old(self).view().insert(name@, value),
    {
        let ghost key = name@;
        match self.position(&name) {
            Some(i) => {
                self.entries.set(i, (name, value));
                proof {
                    assert forall|a: int, b: int|
                        0 <= a < self.entries@.len() && 0 <= b < self.entries@.len() && a != b
                            implies #[trigger] self.entries@[a].0@ != #[trigger] self.entries@[b].0@ by {
                        assert(old(self).entries@[a].0@ != old(self).entries@[b].0@);
                    }
                    assert forall|k: Seq<char>| #[trigger]
                        self.view().contains_key(k) == old(self).view().insert(key, value).contains_key(k) by {
                        if exists|j: int| self.has_name_at(k, j) {
                            let j = choose|j: int| self.has_name_at(k, j);
                            assert(old(self).has_name_at(k, j));
                        }
                        if exists|j: int| old(self).has_name_at(k, j) {
                            let j = choose|j: int| old(self).has_name_at(k, j);
                            assert(self.has_name_at(k, j));
                        }
                        if k == key {
                            assert(self.has_name_at(k, i as int));
                        }
                    }
                    assert forall|k: Seq<char>| #[trigger] self.view().contains_key(k) implies
                        self.view()[k] == old(self).view().insert(key, value)[k] by {
                        let j = choose|j: int| self.has_name_at(k, j);
                        if k == key {
                            assert(j == i as int);
                        } else {
                            let j0 = choose|j0: int| old(self).has_name_at(k, j0);
                            assert(self.has_name_at(k, j0));
                            assert(j0 == j);
                        }
                    }
                    assert(self.view() =~= old(self).view().insert(key, value));
                }
            },
            None => {
                self.entries.push((name, value));
                proof {
                    let n = old(self).entries@.len() as int;
                    assert forall|a: int, b: int|
                        0 <= a < self.entries@.len() && 0 <= b < self.entries@.len() && a != b
                            implies #[trigger] self.entries@[a].0@ != #[trigger] self.entries@[b].0@ by {
                        if a == n {
                            assert(!old(self).has_name_at(key, b));
                        } else if b == n {
                            assert(!old(self).has_name_at(key, a));
                        } else {
                            assert(old(self).entries@[a] == self.entries@[a]);
                            assert(old(self).entries@[b] == self.entries@[b]);
                        }
                    }
                    assert(self.has_name_at(key, n));
                    assert forall|k: Seq<char>| #[trigger]
                        self.view().contains_key(k) == old(self).view().insert(key, value).contains_key(k) by {
                        if exists|j: int| self.has_name_at(k, j) {
                            let j = choose|j: int| self.has_name_at(k, j);
                            if j < n {
                                assert(old(self).has_name_at(k, j));
                            }
                        }
                        if exists|j: int| old(self).has_name_at(k, j) {
                            let j = choose|j: int| old(self).has_name_at(k, j);
                            assert(self.has_name_at(k, j));
                        }
                    }
                    assert forall|k: Seq<char>| #[trigger] self.view().contains_key(k) implies
                        self.view()[k] == old(self).view().insert(key, value)[k] by {
                        let j = choose|j: int| self.has_name_at(k, j);
                        if k == key {
                            if j < n {
                                assert(old(self).has_name_at(key, j));
                            }
                            assert(j == n);
                        } else {
                            let j0 = choose|j0: int| old(self).has_name_at(k, j0);
                            assert(self.has_name_at(k, j0));
                            assert(j0 == j);
                        }
                    }
                    assert(self.view() =~= old(self).view().insert(key, value));
                }
            },
        }
    }
}

} // verus!
