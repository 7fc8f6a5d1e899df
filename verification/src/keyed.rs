//! Values kept by a name: a PCI address, say.
use vstd::prelude::*;

use crate::text::same;

verus! {

/// One value per key; a later value for a key replaces the earlier.
pub struct Keyed<V> {
    entries: Vec<(String, V)>,
}

impl<V> View for Keyed<V> {
    type V = Map<Seq<char>, V>;

    closed spec fn view(&self) -> Map<Seq<char>, V> {
        Map::new(
            |key: Seq<char>| exists|i: int| self.stands_at(i, key),
            |key: Seq<char>| self.entries@[choose|i: int| self.stands_at(i, key)].1,
        )
    }
}

impl<V> Keyed<V> {
    closed spec fn stands_at(self, i: int, key: Seq<char>) -> bool {
        0 <= i < self.entries@.len() && self.entries@[i].0@ == key
    }

    /// No key stands in it twice.
    #[verifier::type_invariant]
    closed spec fn distinct(self) -> bool {
        forall|i: int, j: int|
            0 <= i < j < self.entries@.len() ==> (#[trigger] self.entries@[i]).0@ != (
            #[trigger] self.entries@[j]).0@
    }

    pub fn new() -> (r: Self)
        ensures
            r@ == Map::<Seq<char>, V>::empty(),
            r.keys() == Seq::<Seq<char>>::empty(),
    {
        let r = Keyed { entries: Vec::new() };
        assert(r.keys() =~= Seq::<Seq<char>>::empty());
        assert(r@ =~= Map::<Seq<char>, V>::empty()) by {
            assert forall|key: Seq<char>| !r@.dom().contains(key) by {
                assert(forall|i: int| !r.stands_at(i, key));
            }
        }
        r
    }

    fn position(&self, key: &str) -> (r: Option<usize>)
        ensures
            match r {
                Some(i) => self.stands_at(i as int, key@),
                None => forall|i: int| !self.stands_at(i, key@),
            },
    {
        for i in 0..self.entries.len()
            invariant
                forall|j: int| 0 <= j < i ==> !self.stands_at(j, key@),
        {
            if same(self.entries[i].0.as_str(), key) {
                return Some(i);
            }
        }
        None
    }

    /// The value kept for `key`.
    pub fn get(&self, key: &str) -> (r: Option<&V>)
        ensures
            r is Some == self@.contains_key(key@),
            r matches Some(value) ==> *value == self@[key@],
    {
        proof {
            use_type_invariant(self);
        }
        match self.position(key) {
            Some(i) => {
                proof {
                    assert(self.stands_at(i as int, key@));
                    let k = choose|k: int| self.stands_at(k, key@);
                    assert(k == i);
                }
                Some(&self.entries[i].1)
            },
            None => None,
        }
    }

    /// Keep `value` for `key`, in place of what was kept for it.
    pub fn insert(&mut self, key: String, value: V)
        ensures
            final(self)@ == old(self)@.insert(key@, value),
            final(self).keys() == (if old(self)@.contains_key(key@) {
                old(self).keys()
            } else {
                old(self).keys().push(key@)
            }),
    {
        proof {
            use_type_invariant(&*self);
        }
        let ghost before = *self;
        let ghost name = key@;
        let found = self.position(key.as_str());
        let mut entries: Vec<(String, V)> = Vec::new();
        std::mem::swap(&mut entries, &mut self.entries);
        match found {
            Some(i) => {
                entries.set(i, (key, value));
            },
            None => {
                entries.push((key, value));
            },
        }
        proof {
            assert forall|i: int, j: int| 0 <= i < j < entries@.len() implies (
            #[trigger] entries@[i]).0@ != (#[trigger] entries@[j]).0@ by {
                if j == before.entries@.len() {
                    assert(!before.stands_at(i, name));
                } else {
                    assert(before.entries@[i].0@ != before.entries@[j].0@);
                }
            }
        }
        self.entries = entries;
        proof {
            let at = match found {
                Some(i) => i as int,
                None => before.entries@.len() as int,
            };
            assert(self.stands_at(at, name));
            assert forall|k: Seq<char>|
                #![trigger self@.dom().contains(k)]
                self@.dom().contains(k) == before@.insert(name, value).dom().contains(k) && (
                self@.dom().contains(k) ==> self@[k] == before@.insert(name, value)[k]) by {
                if k == name {
                    let j = choose|j: int| self.stands_at(j, k);
                    assert(self.stands_at(j, k));
                    assert(j == at);
                } else {
                    if before@.dom().contains(k) {
                        let j = choose|j: int| before.stands_at(j, k);
                        assert(before.stands_at(j, k));
                        assert(self.stands_at(j, k));
                        let m = choose|m: int| self.stands_at(m, k);
                        assert(m == j);
                    }
                    if self@.dom().contains(k) {
                        let j = choose|j: int| self.stands_at(j, k);
                        assert(self.stands_at(j, k));
                        assert(before.stands_at(j, k));
                    }
                }
            }
            assert(self@ =~= before@.insert(name, value));
            match found {
                Some(i) => {
                    assert(before@.contains_key(name));
                    assert(self.keys() =~= before.keys());
                },
                None => {
                    assert(!before@.contains_key(name));
                    assert(self.keys() =~= before.keys().push(name));
                },
            }
        }
    }

    /// The keys that have a value, in the order in which they first got one.
    pub closed spec fn keys(self) -> Seq<Seq<char>> {
        self.entries@.map_values(|entry: (String, V)| entry.0@)
    }

    /// How many keys have a value.
    pub fn len(&self) -> (r: usize)
        ensures
            r == self.keys().len(),
            self.keys().no_duplicates(),
            forall|key: Seq<char>| #[trigger]
                self@.contains_key(key) <==> self.keys().contains(key),
    {
        proof {
            use_type_invariant(self);
            assert forall|key: Seq<char>| #[trigger]
                self@.contains_key(key) <==> self.keys().contains(key) by {
                if self@.contains_key(key) {
                    let i = choose|i: int| self.stands_at(i, key);
                    assert(self.keys()[i] == key);
                }
                if self.keys().contains(key) {
                    let i = choose|i: int|
                        0 <= i < self.keys().len() && self.keys()[i] == key;
                    assert(self.stands_at(i, key));
                }
            }
            assert forall|i: int, j: int|
                0 <= i < self.keys().len() && 0 <= j < self.keys().len() && i
                    != j implies self.keys()[i] != self.keys()[j] by {
                if i < j {
                    assert(self.entries@[i].0@ != self.entries@[j].0@);
                } else {
                    assert(self.entries@[j].0@ != self.entries@[i].0@);
                }
            }
        }
        self.entries.len()
    }

    /// The key at `i`, and its value.
    pub fn entry(&self, i: usize) -> (r: (&str, &V))
        requires
            i < self.keys().len(),
        ensures
            r.0@ == self.keys()[i as int],
            self@.contains_key(r.0@),
            *r.1 == self@[r.0@],
    {
        proof {
            use_type_invariant(self);
        }
        let entry = &self.entries[i];
        proof {
            assert(self.stands_at(i as int, entry.0@));
            let k = choose|k: int| self.stands_at(k, entry.0@);
            assert(k == i);
        }
        (entry.0.as_str(), &entry.1)
    }
}

} // verus!
