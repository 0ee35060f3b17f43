//! A map from strings to values.

use vstd::prelude::*;

verus! {

/// A map keyed by strings. No key occurs twice.
pub struct StringMap<V> {
    entries: Vec<(String, V)>,
}

/// No two entries have the same key.
pub open spec fn distinct_keys<W>(entries: Seq<(Seq<char>, W)>) -> bool {
    forall|i: int, j: int|
        #![trigger entries[i], entries[j]]
        0 <= i < j < entries.len() ==> entries[i].0 != entries[j].0
}

/// Some entry has the key `key`.
pub open spec fn has_key<W>(entries: Seq<(Seq<char>, W)>, key: Seq<char>) -> bool {
    exists|i: int| #![trigger entries[i]] 0 <= i < entries.len() && entries[i].0 == key
}

/// `map` holds what `entries` lists: each entry's value under its key, and
/// nothing else.
pub open spec fn lists<W>(entries: Seq<(Seq<char>, W)>, map: Map<Seq<char>, W>) -> bool {
    &&& distinct_keys(entries)
    &&& forall|i: int|
        #![trigger entries[i]]
        0 <= i < entries.len() ==> map.contains_key(entries[i].0) && map[entries[i].0]
            == entries[i].1
    &&& forall|key: Seq<char>| #[trigger] map.contains_key(key) ==> has_key(entries, key)
}

/// The map that a list of entries stands for.
spec fn entry_map<W>(entries: Seq<(Seq<char>, W)>) -> Map<Seq<char>, W> {
    Map::new(
        |key: Seq<char>| has_key(entries, key),
        |key: Seq<char>|
            entries[choose|i: int|
                #![trigger entries[i]]
                0 <= i < entries.len() && entries[i].0 == key].1,
    )
}

proof fn lemma_entry_map<W>(entries: Seq<(Seq<char>, W)>)
    requires
        distinct_keys(entries),
    ensures
        lists(entries, entry_map(entries)),
{
    let map = entry_map(entries);
    assert forall|i: int| #![trigger entries[i]] 0 <= i < entries.len() implies map.contains_key(
        entries[i].0,
    ) && map[entries[i].0] == entries[i].1 by {
        let key = entries[i].0;
        assert(has_key(entries, key));
        let k = choose|k: int| #![trigger entries[k]] 0 <= k < entries.len() && entries[k].0 == key;
        assert(entries[k].0 == entries[i].0);
    }
}

proof fn lemma_lists_unique<W>(
    entries: Seq<(Seq<char>, W)>,
    left: Map<Seq<char>, W>,
    right: Map<Seq<char>, W>,
)
    requires
        lists(entries, left),
        lists(entries, right),
    ensures
        left == right,
{
    assert forall|key: Seq<char>| #[trigger] left.contains_key(key) == right.contains_key(key) by {
        if has_key(entries, key) {
            let i = choose|i: int|
                #![trigger entries[i]]
                0 <= i < entries.len() && entries[i].0 == key;
            assert(entries[i].0 == key);
        }
    }
    assert forall|key: Seq<char>| #[trigger] left.contains_key(key) implies left[key]
        == right[key] by {
        let i = choose|i: int| #![trigger entries[i]] 0 <= i < entries.len() && entries[i].0 == key;
        assert(entries[i].0 == key);
    }
    assert(left =~= right);
}

proof fn lemma_update<W>(entries: Seq<(Seq<char>, W)>, i: int, value: W)
    requires
        distinct_keys(entries),
        0 <= i < entries.len(),
    ensures
        entry_map(entries.update(i, (entries[i].0, value))) == entry_map(entries).insert(
            entries[i].0,
            value,
        ),
        distinct_keys(entries.update(i, (entries[i].0, value))),
{
    let after = entries.update(i, (entries[i].0, value));
    let map = entry_map(entries).insert(entries[i].0, value);
    lemma_entry_map(entries);
    assert(distinct_keys(after)) by {
        assert forall|a: int, b: int|
            #![trigger after[a], after[b]]
            0 <= a < b < after.len() implies after[a].0 != after[b].0 by {
            assert(after[a].0 == entries[a].0 && after[b].0 == entries[b].0);
        }
    }
    assert forall|j: int| #![trigger after[j]] 0 <= j < after.len() implies map.contains_key(
        after[j].0,
    ) && map[after[j].0] == after[j].1 by {
        assert(after[j].0 == entries[j].0);
        assert(entries[i].0 == entries[i].0);
    }
    assert forall|key: Seq<char>| #[trigger] map.contains_key(key) implies has_key(after, key) by {
        if has_key(entries, key) {
            let j = choose|j: int|
                #![trigger entries[j]]
                0 <= j < entries.len() && entries[j].0 == key;
            assert(after[j].0 == key);
        } else {
            assert(after[i].0 == key);
        }
    }
    lemma_entry_map(after);
    lemma_lists_unique(after, entry_map(after), map);
}

proof fn lemma_push<W>(entries: Seq<(Seq<char>, W)>, key: Seq<char>, value: W)
    requires
        distinct_keys(entries),
        !has_key(entries, key),
    ensures
        entry_map(entries.push((key, value))) == entry_map(entries).insert(key, value),
        distinct_keys(entries.push((key, value))),
{
    let after = entries.push((key, value));
    let map = entry_map(entries).insert(key, value);
    lemma_entry_map(entries);
    assert(distinct_keys(after)) by {
        assert forall|a: int, b: int|
            #![trigger after[a], after[b]]
            0 <= a < b < after.len() implies after[a].0 != after[b].0 by {
            assert(after[a] == entries[a]);
            if b < entries.len() {
                assert(after[b] == entries[b]);
            }
        }
    }
    assert forall|j: int| #![trigger after[j]] 0 <= j < after.len() implies map.contains_key(
        after[j].0,
    ) && map[after[j].0] == after[j].1 by {
        if j < entries.len() {
            assert(after[j] == entries[j]);
        }
    }
    assert forall|k: Seq<char>| #[trigger] map.contains_key(k) implies has_key(after, k) by {
        if has_key(entries, k) {
            let j = choose|j: int| #![trigger entries[j]] 0 <= j < entries.len() && entries[j].0 == k;
            assert(after[j].0 == k);
        } else {
            assert(after[entries.len() as int].0 == k);
        }
    }
    lemma_entry_map(after);
    lemma_lists_unique(after, entry_map(after), map);
}

proof fn lemma_remove<W>(entries: Seq<(Seq<char>, W)>, i: int)
    requires
        distinct_keys(entries),
        0 <= i < entries.len(),
    ensures
        entry_map(entries.remove(i)) == entry_map(entries).remove(entries[i].0),
        distinct_keys(entries.remove(i)),
{
    let after = entries.remove(i);
    let map = entry_map(entries).remove(entries[i].0);
    lemma_entry_map(entries);
    assert forall|j: int| #![trigger after[j]] 0 <= j < after.len() implies after[j] == entries[if j
        < i {
        j
    } else {
        j + 1
    }] by {}
    assert(distinct_keys(after)) by {
        assert forall|a: int, b: int|
            #![trigger after[a], after[b]]
            0 <= a < b < after.len() implies after[a].0 != after[b].0 by {
            let x = if a < i {
                a
            } else {
                a + 1
            };
            let y = if b < i {
                b
            } else {
                b + 1
            };
            assert(entries[x].0 != entries[y].0);
        }
    }
    assert forall|j: int| #![trigger after[j]] 0 <= j < after.len() implies map.contains_key(
        after[j].0,
    ) && map[after[j].0] == after[j].1 by {
        let x = if j < i {
            j
        } else {
            j + 1
        };
        assert(entries[x] == after[j]);
        if x < i {
            assert(entries[x].0 != entries[i].0);
        } else {
            assert(entries[i].0 != entries[x].0);
        }
    }
    assert forall|k: Seq<char>| #[trigger] map.contains_key(k) implies has_key(after, k) by {
        let j = choose|j: int| #![trigger entries[j]] 0 <= j < entries.len() && entries[j].0 == k;
        assert(has_key(entries, k));
        assert(j != i);
        assert(after[if j < i {
            j
        } else {
            j - 1
        }].0 == k);
    }
    lemma_entry_map(after);
    lemma_lists_unique(after, entry_map(after), map);
}

/// What a list of entries lists: keys and values by their views.
spec fn listing<V: View>(entries: Seq<(String, V)>) -> Seq<(Seq<char>, V::V)> {
    Seq::new(entries.len(), |i: int| (entries[i].0@, entries[i].1@))
}

impl<V> StringMap<V> {
    /// No two entries have the same key.
    #[verifier::type_invariant]
    pub closed spec fn inv(&self) -> bool {
        forall|i: int, j: int|
            #![trigger self.entries@[i], self.entries@[j]]
            0 <= i < j < self.entries@.len() ==> self.entries@[i].0@ != self.entries@[j].0@
    }
}

impl<V: View> View for StringMap<V> {
    type V = Map<Seq<char>, V::V>;

    closed spec fn view(&self) -> Map<Seq<char>, V::V> {
        entry_map(listing(self.entries@))
    }
}

impl<V: View> StringMap<V> {
    /// The entries, each once, in the order in which they are visited.
    pub closed spec fn listed(&self) -> Seq<(Seq<char>, V::V)> {
        listing(self.entries@)
    }

    /// The visited entries are the entries of the map.
    pub proof fn lemma_listed(&self)
        requires
            self.inv(),
        ensures
            lists(self.listed(), self@),
    {
        self.lemma_distinct();
        lemma_entry_map(self.listed());
    }

    proof fn lemma_distinct(&self)
        requires
            self.inv(),
        ensures
            distinct_keys(self.listed()),
    {
        let listed = self.listed();
        assert forall|i: int, j: int|
            #![trigger listed[i], listed[j]]
            0 <= i < j < listed.len() implies listed[i].0 != listed[j].0 by {
            assert(self.entries@[i].0@ != self.entries@[j].0@);
        }
    }

    /// A map without entries.
    pub fn new() -> (result: Self)
        ensures
            result@ == Map::<Seq<char>, V::V>::empty(),
    {
        let result = StringMap { entries: Vec::new() };
        proof {
            assert(result@ =~= Map::<Seq<char>, V::V>::empty());
        }
        result
    }

    /// The number of entries.
    pub fn len(&self) -> (result: usize)
        ensures
            result == self.listed().len(),
    {
        self.entries.len()
    }

    /// The map has no entries.
    pub fn is_empty(&self) -> (result: bool)
        ensures
            result == (self@ == Map::<Seq<char>, V::V>::empty()),
    {
        proof {
            use_type_invariant(self);
            self.lemma_listed();
            if self.entries@.len() == 0 {
                assert(self@ =~= Map::<Seq<char>, V::V>::empty());
            } else {
                assert(self@.contains_key(self.listed()[0].0));
            }
        }
        self.entries.len() == 0
    }

    /// The key of the entry visited at `i`.
    pub fn key_at(&self, i: usize) -> (result: &String)
        requires
            i < self.listed().len(),
        ensures
            result@ == self.listed()[i as int].0,
    {
        &self.entries[i].0
    }

    /// The value of the entry visited at `i`.
    pub fn value_at(&self, i: usize) -> (result: &V)
        requires
            i < self.listed().len(),
        ensures
            result@ == self.listed()[i as int].1,
    {
        &self.entries[i].1
    }

    fn position(&self, key: &String) -> (result: Option<usize>)
        ensures
            match result {
                Some(i) => i < self.entries@.len() && self.entries@[i as int].0@ == key@
                    && self@.contains_key(key@) && self@[key@] == self.entries@[i as int].1@,
                None => !self@.contains_key(key@) && !has_key(self.listed(), key@),
            },
    {
        proof {
            use_type_invariant(self);
            self.lemma_listed();
        }
        let mut i: usize = 0;
        while i < self.entries.len()
            invariant
                i <= self.entries@.len(),
                lists(self.listed(), self@),
                forall|j: int| 0 <= j < i ==> (#[trigger] self.entries@[j]).0@ != key@,
            decreases self.entries@.len() - i,
        {
            if self.entries[i].0 == *key {
                proof {
                    assert(self.listed()[i as int].0 == key@);
                }
                return Some(i);
            }
            i += 1;
        }
        proof {
            if has_key(self.listed(), key@) {
                let listed = self.listed();
                let j = choose|j: int|
                    #![trigger listed[j]]
                    0 <= j < listed.len() && listed[j].0 == key@;
                assert(self.entries@[j].0@ == key@);
            }
        }
        None
    }

    /// The map has the key `key`.
    pub fn contains_key(&self, key: &String) -> (result: bool)
        ensures
            result == self@.contains_key(key@),
    {
        self.position(key).is_some()
    }

    /// The value under `key`, if there is one.
    pub fn get(&self, key: &String) -> (result: Option<&V>)
        ensures
            match result {
                Some(value) => self@.contains_key(key@) && self@[key@] == value@,
                None => !self@.contains_key(key@),
            },
    {
        match self.position(key) {
            Some(i) => Some(&self.entries[i].1),
            None => None,
        }
    }

    /// Puts `value` under `key`, in place of what was there.
    pub fn insert(&mut self, key: String, value: V)
        ensures
            final(self)@ == old(self)@.insert(key@, value@),
    {
        proof {
            use_type_invariant(&*self);
            self.lemma_distinct();
        }
        let place = self.position(&key);
        let ghost before = self.listed();
        let ghost (k, w) = (key@, value@);
        let mut entries: Vec<(String, V)> = Vec::new();
        std::mem::swap(&mut entries, &mut self.entries);
        match place {
            Some(i) => {
                let kept = entries[i].0.clone();
                entries.set(i, (kept, value));
                proof {
                    lemma_update(before, i as int, w);
                    assert(listing(entries@) =~= before.update(i as int, (before[i as int].0, w)));
                }
            },
            None => {
                entries.push((key, value));
                proof {
                    lemma_push(before, k, w);
                    assert(listing(entries@) =~= before.push((k, w)));
                }
            },
        }
        proof {
            let after = listing(entries@);
            assert forall|i: int, j: int|
                #![trigger entries@[i], entries@[j]]
                0 <= i < j < entries@.len() implies entries@[i].0@ != entries@[j].0@ by {
                assert(after[i].0 != after[j].0);
            }
        }
        self.entries = entries;
    }

    /// Takes the entry of `key` out, if there is one.
    pub fn remove(&mut self, key: &String) -> (result: Option<V>)
        ensures
            final(self)@ == old(self)@.remove(key@),
            match result {
                Some(value) => old(self)@.contains_key(key@) && old(self)@[key@] == value@,
                None => !old(self)@.contains_key(key@),
            },
    {
        proof {
            use_type_invariant(&*self);
            self.lemma_distinct();
        }
        match self.position(key) {
            None => {
                proof {
                    assert(self@.remove(key@) =~= self@);
                }
                None
            },
            Some(i) => {
                let ghost before = self.listed();
                let mut entries: Vec<(String, V)> = Vec::new();
                std::mem::swap(&mut entries, &mut self.entries);
                let (_, value) = entries.remove(i);
                proof {
                    lemma_remove(before, i as int);
                    assert(listing(entries@) =~= before.remove(i as int));
                    let after = listing(entries@);
                    assert forall|a: int, b: int|
                        #![trigger entries@[a], entries@[b]]
                        0 <= a < b < entries@.len() implies entries@[a].0@ != entries@[b].0@ by {
                        assert(after[a].0 != after[b].0);
                    }
                }
                self.entries = entries;
                Some(value)
            },
        }
    }

    /// Takes every entry out.
    pub fn clear(&mut self)
        ensures
            final(self)@ == Map::<Seq<char>, V::V>::empty(),
    {
        self.entries = Vec::new();
        proof {
            assert(self@ =~= Map::<Seq<char>, V::V>::empty());
        }
    }
}

} // verus!
