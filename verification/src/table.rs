use vstd::prelude::*;

verus! {

/// A map from names to values: the lookup tables of the assembler (symbols
/// to addresses, mnemonics to bit patterns). Each name occurs at most once.
pub struct Table<V> {
    entries: Vec<(String, V)>,
}

impl<V> View for Table<V> {
    type V = Map<Seq<char>, V>;

    closed spec fn view(&self) -> Map<Seq<char>, V> {
        Map::new(
            |k: Seq<char>| exists|i: int| 0 <= i < self.entries@.len() && #[trigger] self.entries@[i].0@ == k,
            |k: Seq<char>|
                self.entries@[choose|i: int| 0 <= i < self.entries@.len() && #[trigger] self.entries@[i].0@ == k].1,
        )
    }
}

impl<V> Table<V> {
    /// No name occurs twice.
    pub closed spec fn wf(&self) -> bool {
        forall|i: int, j: int|
            0 <= i < j < self.entries@.len() ==> #[trigger] self.entries@[i].0@ != #[trigger] self.entries@[j].0@
    }

    proof fn lemma_entry(&self, i: int)
        requires
            self.wf(),
            0 <= i < self.entries@.len(),
        ensures
            self@.contains_key(self.entries@[i].0@),
            self@[self.entries@[i].0@] == self.entries@[i].1,
    {
        let k = self.entries@[i].0@;
        assert(self@.dom().contains(k));
        let c = choose|c: int| 0 <= c < self.entries@.len() && #[trigger] self.entries@[c].0@ == k;
        if c != i {
            if c < i {
                assert(self.entries@[c].0@ != self.entries@[i].0@);
            } else {
                assert(self.entries@[i].0@ != self.entries@[c].0@);
            }
        }
    }

    /// An empty table.
    pub fn new() -> (t: Self)
        ensures
            t.wf(),
            t@ == Map::<Seq<char>, V>::empty(),
    {
        let t = Table { entries: Vec::new() };
        assert(t@ =~= Map::<Seq<char>, V>::empty());
        t
    }

    /// Where `key` stands in the table, if it does.
    fn position(&self, key: &String) -> (r: Option<usize>)
        requires
            self.wf(),
        ensures
            r matches Some(i) ==> i < self.entries@.len() && self.entries@[i as int].0@ == key@,
            r is None ==> !self@.contains_key(key@),
    {
        let mut i: usize = 0;
        while i < self.entries.len()
            invariant
                i <= self.entries@.len(),
                forall|j: int| 0 <= j < i ==> self.entries@[j].0@ != key@,
            decreases self.entries.len() - i,
        {
            if self.entries[i].0 == *key {
                return Some(i);
            }
            i = i + 1;
        }
        None
    }

    /// The value of `key`, if the table has one.
    pub fn get(&self, key: &str) -> (r: Option<&V>)
        requires
            self.wf(),
        ensures
            r matches Some(v) ==> self@.contains_key(key@) && *v == self@[key@],
            r is None ==> !self@.contains_key(key@),
    {
        let k: String = key.to_owned();
        match self.position(&k) {
            Some(i) => {
                proof {
                    self.lemma_entry(i as int);
                }
                Some(&self.entries[i].1)
            },
            None => None,
        }
    }

    /// Whether the table has a value for `key`.
    pub fn contains_key(&self, key: &str) -> (b: bool)
        requires
            self.wf(),
        ensures
            b == self@.contains_key(key@),
    {
        let k: String = key.to_owned();
        match self.position(&k) {
            Some(i) => {
                proof {
                    self.lemma_entry(i as int);
                }
                true
            },
            None => false,
        }
    }

    /// Sets the value of `key` to `value`, replacing any earlier value.
    pub fn insert(&mut self, key: String, value: V)
        requires
            old(self).wf(),
        ensures
            final(self).wf(),
            final(self)@ == old(self)@.insert(key@, value),
    {
        let ghost k = key@;
        match self.position(&key) {
            Some(i) => {
                let ghost before = self.entries@;
                self.entries.set(i, (key, value));
                proof {
                    assert forall|a: int, b: int|
                        0 <= a < b < self.entries@.len() implies #[trigger] self.entries@[a].0@
                        != #[trigger] self.entries@[b].0@ by {
                        assert(before[a].0@ != before[b].0@);
                    }
                    assert forall|x: Seq<char>| #[trigger] self@.contains_key(x) == old(self)@.insert(
                        k,
                        value,
                    ).contains_key(x) by {
                        if x != k && self@.contains_key(x) {
                            let c = choose|c: int|
                                0 <= c < self.entries@.len() && #[trigger] self.entries@[c].0@ == x;
                            assert(before[c].0@ == x);
                        }
                        if x != k && old(self)@.contains_key(x) {
                            let c = choose|c: int|
                                0 <= c < before.len() && #[trigger] before[c].0@ == x;
                            assert(self.entries@[c].0@ == x);
                        }
                        if x == k {
                            assert(self.entries@[i as int].0@ == k);
                        }
                    }
                    assert forall|x: Seq<char>| #[trigger] self@.contains_key(x) implies self@[x]
                        == old(self)@.insert(k, value)[x] by {
                        let c = choose|c: int|
                            0 <= c < self.entries@.len() && #[trigger] self.entries@[c].0@ == x;
                        self.lemma_entry(c);
                        if x != k {
                            old(self).lemma_entry(c);
                        } else {
                            self.lemma_entry(i as int);
                        }
                    }
                    assert(self@ =~= old(self)@.insert(k, value));
                }
            },
            None => {
                let ghost before = self.entries@;
                self.entries.push((key, value));
                proof {
                    let n = before.len() as int;
                    assert forall|a: int, b: int|
                        0 <= a < b < self.entries@.len() implies #[trigger] self.entries@[a].0@
                        != #[trigger] self.entries@[b].0@ by {
                        if b == n {
                            assert(!old(self)@.contains_key(k));
                            assert(before[a].0@ != k);
                        } else {
                            assert(before[a].0@ != before[b].0@);
                        }
                    }
                    assert forall|x: Seq<char>| #[trigger] self@.contains_key(x) == old(self)@.insert(
                        k,
                        value,
                    ).contains_key(x) by {
                        if x != k && self@.contains_key(x) {
                            let c = choose|c: int|
                                0 <= c < self.entries@.len() && #[trigger] self.entries@[c].0@ == x;
                            assert(before[c].0@ == x);
                        }
                        if x != k && old(self)@.contains_key(x) {
                            let c = choose|c: int|
                                0 <= c < before.len() && #[trigger] before[c].0@ == x;
                            assert(self.entries@[c].0@ == x);
                        }
                        if x == k {
                            assert(self.entries@[n].0@ == k);
                        }
                    }
                    assert forall|x: Seq<char>| #[trigger] self@.contains_key(x) implies self@[x]
                        == old(self)@.insert(k, value)[x] by {
                        let c = choose|c: int|
                            0 <= c < self.entries@.len() && #[trigger] self.entries@[c].0@ == x;
                        self.lemma_entry(c);
                        if x != k {
                            old(self).lemma_entry(c);
                        } else {
                            self.lemma_entry(n);
                        }
                    }
                    assert(self@ =~= old(self)@.insert(k, value));
                }
            },
        }
    }
}

} // verus!
