//! A map from strings to strings, such as a process environment.
use vstd::prelude::*;
use crate::text::{chars_eq, chars_of};

verus! {

/// A map from string keys to string values, keeping the order in which keys were first
/// inserted.
#[derive(Debug)]
pub struct StringMap {
    entries: Vec<(String, String)>,
}

impl StringMap {
    /// The entries as character sequences, in insertion order.
    pub closed spec fn entries_view(&self) -> Seq<(Seq<char>, Seq<char>)> {
        self.entries@.map_values(|e: (String, String)| (e.0@, e.1@))
    }

    /// No key occurs twice.
    #[verifier::type_invariant]
    closed spec fn keys_unique(self) -> bool {
        forall|i: int, j: int|
            0 <= i < j < self.entries@.len() ==> self.entries@[i].0@ != self.entries@[j].0@
    }

    pub open spec fn has_key_at(&self, k: Seq<char>, i: int) -> bool {
        0 <= i < self.entries_view().len() && self.entries_view()[i].0 == k
    }
}

impl Clone for StringMap {
    fn clone(&self) -> (c: Self)
        ensures
            c@ == self@,
            c.entries_view() == self.entries_view(),
    {
        proof {
            use_type_invariant(self);
        }
        let mut entries: Vec<(String, String)> = Vec::new();
        let mut i: usize = 0;
        while i < self.entries.len()
            invariant
                i <= self.entries@.len(),
                entries@ == self.entries@.take(i as int),
            decreases self.entries@.len() - i,
        {
            let (k, v) = &self.entries[i];
            entries.push((k.clone(), v.clone()));
            i = i + 1;
            assert(entries@ =~= self.entries@.take(i as int));
        }
        assert(self.entries@.take(self.entries@.len() as int) == self.entries@);
        let c = StringMap { entries };
        proof {
            use_type_invariant(&c);
            assert(c.entries_view() == self.entries_view());
            assert forall|k: Seq<char>| #[trigger] c@.contains_key(k) == self@.contains_key(k) by {
                if c@.contains_key(k) {
                    let i = choose|i: int| c.has_key_at(k, i);
                    assert(self.has_key_at(k, i));
                }
                if self@.contains_key(k) {
                    let i = choose|i: int| self.has_key_at(k, i);
                    assert(c.has_key_at(k, i));
                }
            }
            assert forall|k: Seq<char>| #[trigger] c@.contains_key(k) implies c@[k] == self@[k] by {
                let i = choose|i: int| c.has_key_at(k, i);
                c.lemma_entry_in_view(i);
                self.lemma_entry_in_view(i);
            }
            assert(c@ =~= self@);
        }
        c
    }
}

impl View for StringMap {
    type V = Map<Seq<char>, Seq<char>>;

    open spec fn view(&self) -> Map<Seq<char>, Seq<char>> {
        Map::new(
            |k: Seq<char>| exists|i: int| self.has_key_at(k, i),
            |k: Seq<char>| self.entries_view()[choose|i: int| self.has_key_at(k, i)].1,
        )
    }
}

impl StringMap {
    /// An empty map.
    pub fn new() -> (m: Self)
        ensures
            m@ == Map::<Seq<char>, Seq<char>>::empty(),
            m.entries_view().len() == 0,
    {
        let m = StringMap { entries: Vec::new() };
        assert(m@ =~= Map::<Seq<char>, Seq<char>>::empty());
        m
    }

    /// The keys, in insertion order.
    pub closed spec fn keys_view(&self) -> Seq<Seq<char>> {
        self.entries_view().map_values(|e: (Seq<char>, Seq<char>)| e.0)
    }

    /// The number of keys.
    pub fn len(&self) -> (n: usize)
        ensures
            n == self.entries_view().len(),
            n == self@.len(),
    {
        proof {
            use_type_invariant(self);
            let ks = self.keys_view();
            assert(ks.no_duplicates()) by {
                assert forall|i: int, j: int| 0 <= i < ks.len() && 0 <= j < ks.len() && i != j implies ks[i] != ks[j] by {
                    if i < j {
                        assert(self.entries@[i].0@ != self.entries@[j].0@);
                    } else {
                        assert(self.entries@[j].0@ != self.entries@[i].0@);
                    }
                }
            }
            ks.unique_seq_to_set();
            assert(self@.dom() =~= ks.to_set()) by {
                assert forall|k: Seq<char>| self@.dom().contains(k) implies ks.to_set().contains(k) by {
                    let i = choose|i: int| self.has_key_at(k, i);
                    assert(ks[i] == k);
                }
                assert forall|k: Seq<char>| ks.to_set().contains(k) implies self@.dom().contains(k) by {
                    let i = choose|i: int| 0 <= i < ks.len() && ks[i] == k;
                    assert(self.has_key_at(k, i));
                }
            }
        }
        self.entries.len()
    }

    proof fn lemma_entry_in_view(&self, i: int)
        requires
            self.keys_unique(),
            0 <= i < self.entries_view().len(),
        ensures
            self@.contains_key(self.entries_view()[i].0),
            self@[self.entries_view()[i].0] == self.entries_view()[i].1,
    {
        let k = self.entries_view()[i].0;
        assert(self.has_key_at(k, i));
        let j = choose|j: int| self.has_key_at(k, j);
        assert(j == i) by {
            if j < i {
                assert(self.entries@[j].0@ != self.entries@[i].0@);
            }
            if i < j {
                assert(self.entries@[i].0@ != self.entries@[j].0@);
            }
        }
    }

    /// The key and value of the `i`-th entry, in insertion order.
    pub fn entry(&self, i: usize) -> (kv: (&String, &String))
        requires
            i < self.entries_view().len(),
        ensures
            kv.0@ == self.entries_view()[i as int].0,
            kv.1@ == self.entries_view()[i as int].1,
            self@.contains_key(kv.0@),
            self@[kv.0@] == kv.1@,
    {
        proof {
            use_type_invariant(self);
            self.lemma_entry_in_view(i as int);
        }
        let e = &self.entries[i];
        (&e.0, &e.1)
    }

    /// Every key of the map is the key of some entry.
    pub proof fn lemma_key_has_entry(&self, k: Seq<char>)
        requires
            self@.contains_key(k),
        ensures
            exists|i: int| self.has_key_at(k, i),
    {
    }

    fn find(&self, key: &Vec<char>) -> (r: Option<usize>)
        ensures
            match r {
                Some(i) => self.has_key_at(key@, i as int),
                None => !self@.contains_key(key@),
            },
    {
        let mut i: usize = 0;
        while i < self.entries.len()
            invariant
                i <= self.entries@.len(),
                forall|j: int| 0 <= j < i ==> !self.has_key_at(key@, j),
            decreases self.entries@.len() - i,
        {
            let k = chars_of(self.entries[i].0.as_str());
            if chars_eq(&k, key) {
                return Some(i);
            }
            i = i + 1;
        }
        None
    }

    /// The value of `key`, if present.
    pub fn get(&self, key: &str) -> (r: Option<&String>)
        ensures
            match r {
                Some(v) => self@.contains_key(key@) && self@[key@] == v@,
                None => !self@.contains_key(key@),
            },
    {
        let k = chars_of(key);
        match self.find(&k) {
            Some(i) => {
                let (_, v) = self.entry(i);
                Some(v)
            },
            None => None,
        }
    }

    /// Sets `key` to `value`, replacing an earlier value; returns the earlier value.
    pub fn insert(&mut self, key: String, value: String) -> (old_value: Option<String>)
        ensures
            final(self)@ == old(self)@.insert(key@, value@),
            match old_value {
                Some(v) => old(self)@.contains_key(key@) && old(self)@[key@] == v@,
                None => !old(self)@.contains_key(key@),
            },
    {
        proof {
            use_type_invariant(&*self);
        }
        let ghost old_self = *self;
        let ghost old_map = self@;
        let ghost old_entries = self.entries_view();
        let k = chars_of(key.as_str());
        match self.find(&k) {
            Some(i) => {
                proof {
                    self.lemma_entry_in_view(i as int);
                }
                let mut entries: Vec<(String, String)> = Vec::new();
                std::mem::swap(&mut entries, &mut self.entries);
                let prev = entries[i].1.clone();
                entries.set(i, (key, value));
                let ghost new_entries = entries@.map_values(|e: (String, String)| (e.0@, e.1@));
                assert(forall|j: int| 0 <= j < new_entries.len() ==> new_entries[j].0 == old_entries[j].0);
                assert(forall|j: int| 0 <= j < new_entries.len() && j != i ==> new_entries[j] == old_entries[j]);
                self.entries = entries;
                proof {
                    use_type_invariant(&*self);
                    self.lemma_entry_in_view(i as int);
                    assert forall|q: Seq<char>| #[trigger] self@.contains_key(q) == old_map.insert(key@, value@).contains_key(q) by {
                        if self@.contains_key(q) {
                            let j = choose|j: int| self.has_key_at(q, j);
                            assert(old_entries[j].0 == q);
                            assert(old_self.has_key_at(q, j));
                        }
                        if old_map.contains_key(q) && q != key@ {
                            let j = choose|j: int| old_self.has_key_at(q, j);
                            assert(self.has_key_at(q, j));
                        }
                    }
                    assert forall|q: Seq<char>| #[trigger] self@.contains_key(q) implies self@[q] == old_map.insert(key@, value@)[q] by {
                        let j = choose|j: int| self.has_key_at(q, j);
                        self.lemma_entry_in_view(j);
                        if q != key@ {
                            assert(j != i);
                            assert(old_entries[j] == self.entries_view()[j]);
                            assert(old_self.has_key_at(q, j));
                            old_self.lemma_entry_in_view(j);
                        }
                    }
                    assert(self@ =~= old_map.insert(key@, value@));
                }
                Some(prev)
            },
            None => {
                let mut entries: Vec<(String, String)> = Vec::new();
                std::mem::swap(&mut entries, &mut self.entries);
                let ghost kv = key@;
                entries.push((key, value));
                assert forall|j: int| 0 <= j < old_entries.len() implies #[trigger] entries@[j].0@ != kv by {
                    assert(entries@[j].0@ == old_entries[j].0);
                    if entries@[j].0@ == kv {
                        assert(old_self.has_key_at(kv, j));
                    }
                }
                self.entries = entries;
                proof {
                    use_type_invariant(&*self);
                    let n = old_entries.len() as int;
                    assert(self.entries_view() =~= old_entries.push((key@, value@)));
                    self.lemma_entry_in_view(n);
                    assert forall|q: Seq<char>| #[trigger] self@.contains_key(q) == old_map.insert(key@, value@).contains_key(q) by {
                        if self@.contains_key(q) && q != key@ {
                            let j = choose|j: int| self.has_key_at(q, j);
                            assert(j < n);
                            assert(old_self.has_key_at(q, j));
                        }
                        if old_map.contains_key(q) {
                            let j = choose|j: int| old_self.has_key_at(q, j);
                            assert(self.has_key_at(q, j));
                        }
                        if q == key@ {
                            assert(self.has_key_at(q, n));
                        }
                    }
                    assert forall|q: Seq<char>| #[trigger] self@.contains_key(q) implies self@[q] == old_map.insert(key@, value@)[q] by {
                        let j = choose|j: int| self.has_key_at(q, j);
                        self.lemma_entry_in_view(j);
                        if q != key@ {
                            assert(j < n);
                            assert(old_self.has_key_at(q, j));
                            old_self.lemma_entry_in_view(j);
                        }
                    }
                    assert(self@ =~= old_map.insert(key@, value@));
                }
                None
            },
        }
    }
}

} // verus!
