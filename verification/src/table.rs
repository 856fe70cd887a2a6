//! A table from texts to values.
use vstd::prelude::*;
use vstd::string::*;


verus! {

/// A table from texts to values, in the order in which the keys came.
pub struct Table<V> {
    pub entries: Vec<(String, V)>,
}

/// Whether a key stands at a position.
pub open spec fn key_at<V>(entries: Seq<(String, V)>, i: int, key: Seq<char>) -> bool {
    0 <= i < entries.len() && entries[i].0@ == key
}

pub open spec fn has_key<V>(entries: Seq<(String, V)>, key: Seq<char>) -> bool {
    exists|i: int| key_at(entries, i, key)
}

impl<V> View for Table<V> {
    type V = Map<Seq<char>, V>;

    open spec fn view(&self) -> Map<Seq<char>, V> {
        Map::new(
            |key: Seq<char>| has_key(self.entries@, key),
            |key: Seq<char>| self.entries@[choose|i: int| key_at(self.entries@, i, key)].1,
        )
    }
}

impl<V> Table<V> {
    /// No key stands twice.
    pub open spec fn wf(self) -> bool {
        forall|i: int, j: int|
            0 <= i < j < self.entries.len() ==> #[trigger] self.entries[i].0@
                != #[trigger] self.entries[j].0@
    }

    pub proof fn lemma_entry(self, i: int)
        requires
            self.wf(),
            0 <= i < self.entries.len(),
        ensures
            self@.contains_key(self.entries[i].0@),
            self@[self.entries[i].0@] == self.entries[i].1,
    {
        let key = self.entries[i].0@;
        assert(key_at(self.entries@, i, key));
        let k = choose|k: int| key_at(self.entries@, k, key);
        assert(k == i) by {
            if k < i {
                assert(self.entries[k].0@ != self.entries[i].0@);
            } else if i < k {
                assert(self.entries[i].0@ != self.entries[k].0@);
            }
        }
    }

    pub fn new() -> (t: Self)
        ensures
            t.wf(),
            t@ == Map::<Seq<char>, V>::empty(),
    {
        let t = Table { entries: Vec::new() };
        assert(t@ =~= Map::<Seq<char>, V>::empty());
        t
    }

    /// The position of a key.
    pub fn position(&self, key: &String) -> (r: Option<usize>)
        requires
            self.wf(),
        ensures
            match r {
                Some(i) => key_at(self.entries@, i as int, key@) && self@.contains_key(key@)
                    && self@[key@] == self.entries[i as int].1,
                None => !self@.contains_key(key@),
            },
    {
        for i in 0..self.entries.len()
            invariant
                self.wf(),
                forall|j: int| 0 <= j < i ==> !key_at(self.entries@, j, key@),
        {
            if self.entries[i].0 == *key {
                proof {
                    self.lemma_entry(i as int);
                }
                return Some(i);
            }
        }
        None
    }

    pub fn contains(&self, key: &String) -> (b: bool)
        requires
            self.wf(),
        ensures
            b == self@.contains_key(key@),
    {
        self.position(key).is_some()
    }

    pub fn get(&self, key: &String) -> (r: Option<&V>)
        requires
            self.wf(),
        ensures
            match r {
                Some(v) => self@.contains_key(key@) && *v == self@[key@],
                None => !self@.contains_key(key@),
            },
    {
        match self.position(key) {
            Some(i) => Some(&self.entries[i].1),
            None => None,
        }
    }

    /// Sets the value of a key.
    pub fn insert(&mut self, key: String, value: V)
        requires
            old(self).wf(),
        ensures
            final(self).wf(),
            final(self)@ == old(self)@.insert(key@, value),
    {
        let ghost before = *self;
        match self.position(&key) {
            Some(i) => {
                let _ = self.entries.remove(i);
                self.entries.insert(i, (key, value));
                proof {
                    assert(self.entries@ =~= before.entries@.update(i as int, (key, value)));
                    assert forall|a: int, b: int| 0 <= a < b < self.entries.len() implies
                        #[trigger] self.entries[a].0@ != #[trigger] self.entries[b].0@ by {
                        assert(before.entries[a].0@ != before.entries[b].0@);
                    }
                    lemma_updated(before, *self, i as int, key, value);
                }
            },
            None => {
                self.entries.push((key, value));
                proof {
                    assert forall|a: int, b: int| 0 <= a < b < self.entries.len() implies
                        #[trigger] self.entries[a].0@ != #[trigger] self.entries[b].0@ by {
                        if b == before.entries.len() {
                            assert(!key_at(before.entries@, a, key@));
                        } else {
                            assert(before.entries[a].0@ != before.entries[b].0@);
                        }
                    }
                    lemma_updated(before, *self, before.entries.len() as int, key, value);
                }
            },
        }
    }
}

proof fn lemma_updated<V>(before: Table<V>, after: Table<V>, i: int, key: String, value: V)
    requires
        before.wf(),
        after.wf(),
        0 <= i < after.entries.len(),
        after.entries[i] == (key, value),
        i < before.entries.len() ==> after.entries.len() == before.entries.len()
            && before.entries[i].0@ == key@,
        i == before.entries.len() ==> after.entries.len() == before.entries.len() + 1,
        i <= before.entries.len(),
        forall|j: int|
            0 <= j < before.entries.len() && j != i ==> #[trigger] after.entries[j]
                == before.entries[j],
    ensures
        after@ == before@.insert(key@, value),
{
    let want = before@.insert(key@, value);
    after.lemma_entry(i);
    assert forall|k: Seq<char>| after@.contains_key(k) == want.contains_key(k) by {
        if after@.contains_key(k) {
            let j = choose|j: int| key_at(after.entries@, j, k);
            if j != i {
                assert(after.entries[j] == before.entries[j]);
                assert(key_at(before.entries@, j, k));
            }
        }
        if before@.contains_key(k) && k != key@ {
            let j = choose|j: int| key_at(before.entries@, j, k);
            assert(after.entries[j] == before.entries[j]);
            assert(key_at(after.entries@, j, k));
        }
    }
    assert forall|k: Seq<char>| after@.contains_key(k) implies #[trigger] after@[k] == want[k] by {
        assert(after@.contains_key(k) == want.contains_key(k));
        if k != key@ {
            assert(before@.contains_key(k));
            let j = choose|j: int| key_at(before.entries@, j, k);
            assert(after.entries[j] == before.entries[j]);
            after.lemma_entry(j);
            before.lemma_entry(j);
        }
    }
    assert(after@ =~= want);
}

} // verus!
