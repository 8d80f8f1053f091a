use vstd::hash_map::StringHashMap;
use vstd::prelude::*;

use crate::text::texts;

verus! {

/// A value with its name.
#[derive(Debug)]
pub struct Entry<V> {
    pub name: String,
    pub value: V,
}

/// Values by name, each of which can be taken out once.
pub struct NamedTable<V> {
    index: StringHashMap<usize>,
    slots: Vec<Option<Entry<V>>>,
}

impl<V> NamedTable<V> {
    /// The values that are still there.
    pub closed spec fn view(&self) -> Map<Seq<char>, V> {
        self.index@.map_values(|i: usize| self.slots@[i as int]->0.value)
    }

    /// Names and filled slots go together, one for one.
    pub closed spec fn wf(&self) -> bool {
        &&& forall|k: Seq<char>| #[trigger]
            self.index@.contains_key(k) ==> self.index@[k] < self.slots@.len()
                && self.slots@[self.index@[k] as int] is Some
                && self.slots@[self.index@[k] as int]->0.name@ == k
        &&& forall|i: int|
            0 <= i < self.slots@.len() && #[trigger] self.slots@[i] is Some
                ==> self.index@.contains_key(self.slots@[i]->0.name@)
                && self.index@[self.slots@[i]->0.name@] == i
    }

    pub fn new() -> (table: Self)
        ensures
            table.wf(),
            table@ == Map::<Seq<char>, V>::empty(),
    {
        let table = NamedTable { index: StringHashMap::new(), slots: Vec::new() };
        assert(table@ =~= Map::<Seq<char>, V>::empty());
        table
    }

    /// Put a value under a name, in place of what was there.
    pub fn insert(&mut self, name: String, value: V)
        requires
            old(self).wf(),
        ensures
            final(self).wf(),
            final(self)@ == old(self)@.insert(name@, value),
    {
        let ghost before = *self;
        let ghost key = name@;
        let found: Option<usize> = match self.index.get(name.as_str()) {
            Some(at) => Some(*at),
            None => None,
        };
        match found {
            Some(at) => {
                self.slots.set(at, Some(Entry { name, value }));
            },
            None => {
                let at: usize = self.slots.len();
                self.index.insert(name.clone(), at);
                self.slots.push(Some(Entry { name, value }));
            },
        }
        proof {
            assert forall|k: Seq<char>| #[trigger] self.index@.contains_key(k) implies self.index@[k]
                < self.slots@.len() && self.slots@[self.index@[k] as int] is Some
                && self.slots@[self.index@[k] as int]->0.name@ == k by {
                if k != key {
                    assert(before.index@.contains_key(k));
                }
            }
            assert forall|i: int|
                0 <= i < self.slots@.len() && #[trigger] self.slots@[i] is Some implies self.index@.contains_key(
                self.slots@[i]->0.name@,
            ) && self.index@[self.slots@[i]->0.name@] == i by {
                if self.index@[key] != i {
                    assert(before.slots@[i] is Some);
                }
            }
            assert forall|k: Seq<char>| before.index@.contains_key(k) && k != key implies #[trigger]
                self@[k] == before@[k] by {
                assert(self.index@[k] == before.index@[k]);
                assert(self.slots@[self.index@[k] as int] == before.slots@[before.index@[k] as int]);
            }
            assert(self@ =~= before@.insert(key, value));
        }
    }

    pub fn contains(&self, name: &str) -> (r: bool)
        ensures
            r == self@.contains_key(name@),
    {
        self.index.contains_key(name)
    }

    pub fn is_empty(&self) -> (r: bool)
        ensures
            r == (self@ == Map::<Seq<char>, V>::empty()),
    {
        let r = self.index.is_empty();
        proof {
            if r {
                assert(self@ =~= Map::<Seq<char>, V>::empty());
            } else {
                let k = choose|k: Seq<char>| self.index@.contains_key(k);
                if !self.index@.contains_key(k) {
                    assert(self.index@ =~= Map::<Seq<char>, usize>::empty());
                }
                assert(self@.contains_key(k));
            }
        }
        r
    }

    /// Take the value of a name out.
    pub fn take(&mut self, name: &str) -> (value: Option<V>)
        requires
            old(self).wf(),
        ensures
            final(self).wf(),
            final(self)@ == old(self)@.remove(name@),
            value == if old(self)@.contains_key(name@) {
                Some(old(self)@[name@])
            } else {
                None
            },
    {
        let ghost before = *self;
        let at: usize = match self.index.get(name) {
            Some(at) => *at,
            None => {
                assert(self@.remove(name@) =~= self@);
                return None;
            },
        };
        let mut taken: Option<Entry<V>> = None;
        core::mem::swap(&mut taken, &mut self.slots[at]);
        self.index.remove(name);
        proof {
            assert forall|k: Seq<char>| #[trigger] self.index@.contains_key(k) implies self.index@[k]
                < self.slots@.len() && self.slots@[self.index@[k] as int] is Some
                && self.slots@[self.index@[k] as int]->0.name@ == k && self@[k] == before@[k] by {
                assert(before.index@.contains_key(k));
                assert(self.index@[k] == before.index@[k]);
                assert(before.index@[k] != at);
            }
            assert forall|i: int|
                0 <= i < self.slots@.len() && #[trigger] self.slots@[i] is Some implies self.index@.contains_key(
                self.slots@[i]->0.name@,
            ) && self.index@[self.slots@[i]->0.name@] == i by {
                assert(before.slots@[i] is Some);
            }
            assert(self@ =~= before@.remove(name@));
        }
        match taken {
            Some(entry) => Some(entry.value),
            None => None,
        }
    }

    /// The names of the values that are still there, in the order in which they came.
    pub fn names(&self) -> (names: Vec<String>)
        requires
            self.wf(),
        ensures
            texts(names@).no_duplicates(),
            forall|k: Seq<char>|
                self@.contains_key(k) <==> #[trigger] texts(names@).contains(k),
    {
        let mut names: Vec<String> = Vec::new();
        let ghost mut places: Seq<int> = Seq::empty();
        let mut p: usize = 0;
        while p < self.slots.len()
            invariant
                p <= self.slots@.len(),
                places.len() == names@.len(),
                forall|i: int|
                    0 <= i < names@.len() ==> 0 <= #[trigger] places[i] < p && self.slots@[places[i]]
                        is Some && self.slots@[places[i]]->0.name@ == names@[i]@,
                forall|i: int, j: int|
                    0 <= i < j < names@.len() ==> #[trigger] places[i] < #[trigger] places[j],
                forall|q: int|
                    0 <= q < p && #[trigger] self.slots@[q] is Some ==> places.contains(q),
            decreases self.slots@.len() - p,
        {
            let ghost listed = places;
            if let Some(entry) = &self.slots[p] {
                names.push(entry.name.clone());
                proof {
                    places = places.push(p as int);
                    assert(places[listed.len() as int] == p);
                }
            }
            proof {
                assert forall|q: int|
                    0 <= q < p + 1 && #[trigger] self.slots@[q] is Some implies places.contains(q) by {
                    if q < p {
                        let i = choose|i: int| 0 <= i < listed.len() && listed[i] == q;
                        assert(places[i] == q);
                    }
                }
            }
            p = p + 1;
        }
        proof {
            let list = texts(names@);
            assert forall|i: int, j: int| 0 <= i < list.len() && 0 <= j < list.len() && i != j implies list[i]
                != list[j] by {
                assert(self.slots@[places[i]] is Some && self.slots@[places[j]] is Some);
                if i < j {
                    assert(places[i] < places[j]);
                } else {
                    assert(places[j] < places[i]);
                }
            }
            assert forall|k: Seq<char>|
                self@.contains_key(k) <==> #[trigger] list.contains(k) by {
                if self@.contains_key(k) {
                    let q = self.index@[k] as int;
                    assert(self.slots@[q] is Some);
                    let i = choose|i: int| 0 <= i < places.len() && places[i] == q;
                    assert(list[i] == k);
                }
                if list.contains(k) {
                    let i = choose|i: int| 0 <= i < list.len() && list[i] == k;
                    assert(self.slots@[places[i]] is Some);
                }
            }
        }
        names
    }
}

} // verus!
