//! A table from texts to values.

use vstd::prelude::*;

use crate::text;

verus! {

/// A table whose keys are texts, each of which occurs once. Entries stand in
/// the order in which their keys first came in.
#[derive(Debug)]
pub struct Table<V> {
    entries: Vec<(String, V)>,
}

/// Entry `i` has the key `k`.
spec fn key_at<V>(entries: Seq<(String, V)>, k: Seq<char>, i: int) -> bool {
    0 <= i < entries.len() && entries[i].0@ == k
}

spec fn unique_keys<V>(entries: Seq<(String, V)>) -> bool {
    forall|i: int, j: int|
        0 <= i < entries.len() && 0 <= j < entries.len() && #[trigger] entries[i].0@
            == #[trigger] entries[j].0@ ==> i == j
}

spec fn table_of<V>(entries: Seq<(String, V)>) -> Map<Seq<char>, V> {
    Map::new(
        |k: Seq<char>| exists|i: int| key_at(entries, k, i),
        |k: Seq<char>| entries[choose|i: int| key_at(entries, k, i)].1,
    )
}

impl<V> View for Table<V> {
    type V = Map<Seq<char>, V>;

    closed spec fn view(&self) -> Map<Seq<char>, V> {
        table_of(self.entries@)
    }
}

impl<V: DeepView> DeepView for Table<V> {
    type V = Map<Seq<char>, V::V>;

    open spec fn deep_view(&self) -> Map<Seq<char>, V::V> {
        Map::new(|k: Seq<char>| self@.contains_key(k), |k: Seq<char>| self@[k].deep_view())
    }
}

impl<V> Table<V> {
    #[verifier::type_invariant]
    spec fn well_formed(self) -> bool {
        unique_keys(self.entries@)
    }

    pub fn new() -> (r: Self)
        ensures
            r@ == Map::<Seq<char>, V>::empty(),
    {
        let r = Table { entries: Vec::new() };
        assert(r@ =~= Map::<Seq<char>, V>::empty()) by {
            assert forall|k: Seq<char>| !r@.contains_key(k) by {
                assert(forall|i: int| !key_at(r.entries@, k, i));
            }
        }
        r
    }

    /// The entries, one for each key.
    pub fn entries(&self) -> (r: &Vec<(String, V)>)
        ensures
            forall|i: int|
                0 <= i < r@.len() ==> self@.contains_key((#[trigger] r@[i]).0@) && self@[r@[i].0@]
                    == r@[i].1,
            forall|k: Seq<char>| #[trigger]
                self@.contains_key(k) ==> exists|i: int|
                    0 <= i < r@.len() && (#[trigger] r@[i]).0@ == k,
            forall|i: int, j: int|
                0 <= i < j < r@.len() ==> (#[trigger] r@[i]).0@ != (#[trigger] r@[j]).0@,
    {
        proof {
            use_type_invariant(self);
            assert forall|i: int| 0 <= i < self.entries@.len() implies self@.contains_key(
                (#[trigger] self.entries@[i]).0@,
            ) && self@[self.entries@[i].0@] == self.entries@[i].1 by {
                lemma_found(self.entries@, self.entries@[i].0@, i);
            }
            assert forall|k: Seq<char>| #[trigger] self@.contains_key(k) implies exists|i: int|
                0 <= i < self.entries@.len() && (#[trigger] self.entries@[i]).0@ == k by {
                let i = choose|i: int| key_at(self.entries@, k, i);
                assert(self.entries@[i].0@ == k);
            }
        }
        &self.entries
    }

    fn find(&self, key: &str) -> (r: Option<usize>)
        ensures
            match r {
                Some(i) => key_at(self.entries@, key@, i as int),
                None => forall|i: int| !key_at(self.entries@, key@, i),
            },
    {
        let n: usize = self.entries.len();
        let mut i: usize = 0;
        while i < n
            invariant
                n == self.entries@.len(),
                i <= n,
                forall|j: int| 0 <= j < i ==> !key_at(self.entries@, key@, j),
            decreases n - i,
        {
            if text::same_text(self.entries[i].0.as_str(), key) {
                return Some(i);
            }
            i += 1;
        }
        None
    }

    /// The value of a key.
    pub fn get(&self, key: &str) -> (r: Option<&V>)
        ensures
            match r {
                Some(v) => self@.contains_key(key@) && *v == self@[key@],
                None => !self@.contains_key(key@),
            },
    {
        proof {
            use_type_invariant(self);
        }
        match self.find(key) {
            Some(i) => {
                proof {
                    lemma_found(self.entries@, key@, i as int);
                }
                Some(&self.entries[i].1)
            },
            None => None,
        }
    }

    pub fn contains_key(&self, key: &str) -> (r: bool)
        ensures
            r == self@.contains_key(key@),
    {
        self.get(key).is_some()
    }

    /// Gives a key a value, in place of the one that it may have.
    pub fn insert(&mut self, key: String, value: V)
        ensures
            final(self)@ == old(self)@.insert(key@, value),
    {
        proof {
            use_type_invariant(&*self);
        }
        let found = self.find(key.as_str());
        let mut entries: Vec<(String, V)> = Vec::new();
        std::mem::swap(&mut entries, &mut self.entries);
        let ghost before = entries@;
        match found {
            Some(i) => {
                entries.set(i, (key, value));
                proof {
                    let after = entries@;
                    assert(forall|a: int|
                        0 <= a < before.len() ==> (#[trigger] after[a]).0@ == before[a].0@);
                    assert(unique_keys(after));
                    assert forall|k: Seq<char>| table_of(after).contains_key(k) == table_of(
                        before,
                    ).insert(key@, value).contains_key(k) by {
                        assert forall|a: int| key_at(after, k, a) == key_at(before, k, a) by {}
                        if table_of(before).contains_key(k) {
                            let a = choose|a: int| key_at(before, k, a);
                            assert(key_at(after, k, a));
                        }
                        if table_of(after).contains_key(k) {
                            let a = choose|a: int| key_at(after, k, a);
                            assert(key_at(before, k, a));
                        }
                        assert(key_at(after, key@, i as int));
                    }
                    assert forall|k: Seq<char>| table_of(after).contains_key(k) implies table_of(
                        after,
                    )[k] == table_of(before).insert(key@, value)[k] by {
                        let a = choose|a: int| key_at(after, k, a);
                        lemma_found(after, k, a);
                        assert(key_at(before, k, a));
                        lemma_found(before, k, a);
                    }
                    assert(table_of(after) =~= table_of(before).insert(key@, value));
                }
            },
            None => {
                entries.push((key, value));
                proof {
                    let after = entries@;
                    let last = before.len() as int;
                    assert(forall|a: int|
                        0 <= a < last ==> key_at(before, #[trigger] before[a].0@, a));
                    assert(unique_keys(after)) by {
                        assert forall|a: int, b: int|
                            0 <= a < after.len() && 0 <= b < after.len() && #[trigger] after[a].0@
                                == #[trigger] after[b].0@ implies a == b by {
                            if a < last {
                                assert(after[a] == before[a]);
                                assert(!key_at(before, key@, a));
                            }
                            if b < last {
                                assert(after[b] == before[b]);
                                assert(!key_at(before, key@, b));
                            }
                        }
                    }
                    assert forall|k: Seq<char>| table_of(after).contains_key(k) == table_of(
                        before,
                    ).insert(key@, value).contains_key(k) by {
                        if table_of(before).contains_key(k) {
                            let a = choose|a: int| key_at(before, k, a);
                            assert(key_at(after, k, a));
                        }
                        if table_of(after).contains_key(k) {
                            let a = choose|a: int| key_at(after, k, a);
                            if a < last {
                                assert(key_at(before, k, a));
                            }
                        }
                        assert(key_at(after, key@, last));
                    }
                    assert forall|k: Seq<char>| table_of(after).contains_key(k) implies table_of(
                        after,
                    )[k] == table_of(before).insert(key@, value)[k] by {
                        let a = choose|a: int| key_at(after, k, a);
                        lemma_found(after, k, a);
                        if a < last {
                            assert(key_at(before, k, a));
                            lemma_found(before, k, a);
                        }
                    }
                    assert(table_of(after) =~= table_of(before).insert(key@, value));
                }
            },
        }
        self.entries = entries;
    }
}

impl<V> Default for Table<V> {
    fn default() -> (r: Self)
        ensures
            r@ == Map::<Seq<char>, V>::empty(),
    {
        Table::new()
    }
}

proof fn lemma_found<V>(entries: Seq<(String, V)>, k: Seq<char>, i: int)
    requires
        unique_keys(entries),
        key_at(entries, k, i),
    ensures
        table_of(entries).contains_key(k),
        table_of(entries)[k] == entries[i].1,
{
    let j = choose|j: int| key_at(entries, k, j);
    assert(entries[i].0@ == entries[j].0@);
}

} // verus!
