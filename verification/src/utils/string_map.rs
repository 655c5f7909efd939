//! A map keyed by text that remembers the order in which its keys arrived.

use vstd::prelude::*;
use crate::utils::text::str_eq;

verus! {

/// A finite map from text to values. No key occurs twice; a key keeps the
/// place of its first insertion.
pub struct StringMap<V> {
    keys: Vec<String>,
    values: Vec<V>,
}

impl<V> View for StringMap<V> {
    type V = Map<Seq<char>, V>;

    closed spec fn view(&self) -> Map<Seq<char>, V> {
        Map::new(
            |k: Seq<char>| self.order().contains(k),
            |k: Seq<char>| self.values@[self.order().index_of(k)],
        )
    }
}

impl<V> StringMap<V> {
    #[verifier::type_invariant]
    closed spec fn inv(&self) -> bool {
        self.wf()
    }

    /// The keys are distinct and each has one value.
    pub closed spec fn wf(&self) -> bool {
        &&& self.keys.len() == self.values.len()
        &&& self.order().no_duplicates()
    }

    /// The keys in the order of their first insertion.
    pub closed spec fn order(&self) -> Seq<Seq<char>> {
        Seq::new(self.keys.len() as nat, |i: int| self.keys@[i]@)
    }

    /// The values, each at the place of its key in `order`.
    pub closed spec fn items(&self) -> Seq<V> {
        self.values@
    }

    /// How the ordered keys and values relate to the map.
    pub proof fn lemma_wf(&self)
        requires
            self.wf(),
        ensures
            self.order().no_duplicates(),
            self.order().len() == self.items().len(),
            self@.dom() == self.order().to_set(),
            self@.dom().finite(),
            forall|i: int|
                0 <= i < self.order().len() ==> self@.contains_key(#[trigger] self.order()[i])
                    && self@[self.order()[i]] == self.items()[i],
            forall|k: Seq<char>| #[trigger]
                self@.contains_key(k) <==> self.order().contains(k),
    {
        assert(self@.dom() =~= self.order().to_set());
        vstd::seq_lib::seq_to_set_is_finite(self.order());
        assert forall|i: int| 0 <= i < self.order().len() implies self@.contains_key(
            #[trigger] self.order()[i],
        ) && self@[self.order()[i]] == self.items()[i] by {
            let k = self.order()[i];
            assert(self.order().contains(k));
            let j = self.order().index_of(k);
            assert(self.order()[j] == k);
        }
    }

    /// An empty map.
    pub fn new() -> (m: StringMap<V>)
        ensures
            m.wf(),
            m@ == Map::<Seq<char>, V>::empty(),
            m.order() == Seq::<Seq<char>>::empty(),
            m.items() == Seq::<V>::empty(),
    {
        let m = StringMap { keys: Vec::new(), values: Vec::new() };
        assert(m.order() =~= Seq::<Seq<char>>::empty());
        assert(m@ =~= Map::<Seq<char>, V>::empty());
        m
    }

    /// The number of keys.
    pub fn len(&self) -> (n: usize)
        ensures
            self.wf(),
            n == self.order().len(),
            n == self.items().len(),
            n == self@.len(),
    {
        proof {
            use_type_invariant(self);
            self.lemma_wf();
            self.order().unique_seq_to_set();
        }
        self.keys.len()
    }

    /// The key at place `i`.
    pub fn key(&self, i: usize) -> (k: &String)
        requires
            i < self.order().len(),
        ensures
            self.wf(),
            k@ == self.order()[i as int],
    {
        proof {
            use_type_invariant(self);
        }
        &self.keys[i]
    }

    /// The value at place `i`.
    pub fn value(&self, i: usize) -> (v: &V)
        requires
            i < self.order().len(),
        ensures
            self.wf(),
            *v == self.items()[i as int],
            *v == self@[self.order()[i as int]],
    {
        proof {
            use_type_invariant(self);
            self.lemma_wf();
        }
        &self.values[i]
    }

    /// The place of `key`, if the map holds it.
    pub fn position(&self, key: &str) -> (r: Option<usize>)
        ensures
            self.wf(),
            match r {
                Some(i) => i < self.order().len() && self.order()[i as int] == key@,
                None => !self.order().contains(key@),
            },
            r.is_some() == self@.contains_key(key@),
    {
        proof {
            use_type_invariant(self);
            self.lemma_wf();
        }
        let mut i: usize = 0;
        while i < self.keys.len()
            invariant
                i <= self.keys.len(),
                self.wf(),
                self.keys.len() == self.order().len(),
                forall|j: int| 0 <= j < i ==> self.order()[j] != key@,
            decreases self.keys.len() - i,
        {
            if str_eq(self.keys[i].as_str(), key) {
                proof {
                    self.lemma_wf();
                    assert(self.order()[i as int] == key@);
                }
                return Some(i);
            }
            i += 1;
        }
        proof {
            self.lemma_wf();
        }
        None
    }

    /// Whether the map holds `key`.
    pub fn contains_key(&self, key: &str) -> (r: bool)
        ensures
            self.wf(),
            r == self@.contains_key(key@),
    {
        self.position(key).is_some()
    }

    /// The value of `key`, if the map holds it.
    pub fn get(&self, key: &str) -> (r: Option<&V>)
        ensures
            self.wf(),
            match r {
                Some(v) => self@.contains_key(key@) && *v == self@[key@],
                None => !self@.contains_key(key@),
            },
    {
        match self.position(key) {
            Some(i) => {
                proof {
                    use_type_invariant(self);
                    self.lemma_wf();
                }
                Some(&self.values[i])
            },
            None => None,
        }
    }

    /// Sets the value of `key`. A new key goes to the end; a key already held
    /// keeps its place and gets the new value.
    pub fn insert(&mut self, key: String, value: V)
        ensures
            final(self).wf(),
            final(self)@ == old(self)@.insert(key@, value),
            old(self)@.contains_key(key@) ==> final(self).order() == old(self).order()
                && final(self).items() == old(self).items().update(
                old(self).order().index_of(key@),
                value,
            ),
            !old(self)@.contains_key(key@) ==> final(self).order() == old(self).order().push(key@)
                && final(self).items() == old(self).items().push(value),
    {
        proof {
            use_type_invariant(&*self);
            self.lemma_wf();
        }
        let ghost before = *self;
        let found = self.position(key.as_str());
        let mut taken = StringMap::new();
        std::mem::swap(self, &mut taken);
        let StringMap { mut keys, mut values } = taken;
        match found {
            Some(i) => {
                values.set(i, value);
            },
            None => {
                keys.push(key);
                values.push(value);
            },
        }
        proof {
            match found {
                Some(i) => {
                    assert(Seq::new(keys.len() as nat, |i: int| keys@[i]@) =~= before.order());
                },
                None => {
                    assert(Seq::new(keys.len() as nat, |i: int| keys@[i]@) =~= before.order().push(
                        key@,
                    ));
                },
            }
        }
        let after = StringMap { keys, values };
        proof {
            match found {
                Some(i) => {
                    assert(after.order() =~= before.order());
                    assert(before.order().index_of(key@) == i);
                    assert(after@ =~= before@.insert(key@, value)) by {
                        assert forall|k: Seq<char>| after.order().contains(k) implies #[trigger] after@[k]
                            == before@.insert(key@, value)[k] by {
                            let j = after.order().index_of(k);
                            assert(after.order()[j] == k);
                        }
                    }
                },
                None => {
                    assert(after.order() =~= before.order().push(key@));
                    assert(after.order().no_duplicates());
                    assert(after@ =~= before@.insert(key@, value)) by {
                        assert forall|k: Seq<char>| #[trigger]
                            after.order().contains(k) <==> (k == key@ || before.order().contains(
                                k,
                            )) by {
                            if before.order().contains(k) {
                                let j = before.order().index_of(k);
                                assert(after.order()[j] == k);
                            }
                            if k == key@ {
                                assert(after.order()[before.order().len() as int] == k);
                            }
                        }
                        assert forall|k: Seq<char>| after.order().contains(k) implies #[trigger] after@[k]
                            == before@.insert(key@, value)[k] by {
                            let j = after.order().index_of(k);
                            assert(after.order()[j] == k);
                            if k != key@ {
                                let j2 = before.order().index_of(k);
                                assert(before.order()[j2] == k);
                                assert(after.order()[j2] == k);
                            }
                        }
                    }
                },
            }
        }
        *self = after;
    }
}

impl<V> StringMap<V> {
    /// Puts `value` at place `i` and hands back the value that was there. The
    /// keys stay as they are.
    pub fn set_value(&mut self, i: usize, value: V) -> (previous: V)
        requires
            i < old(self).order().len(),
        ensures
            final(self).wf(),
            previous == old(self).items()[i as int],
            final(self).order() == old(self).order(),
            final(self).items() == old(self).items().update(i as int, value),
            final(self)@ == old(self)@.insert(old(self).order()[i as int], value),
    {
        proof {
            use_type_invariant(&*self);
            self.lemma_wf();
        }
        let ghost before = *self;
        let mut taken = StringMap::new();
        std::mem::swap(self, &mut taken);
        let StringMap { keys, mut values } = taken;
        values.push(value);
        let previous = values.swap_remove(i);
        proof {
            assert(values@ =~= before.items().update(i as int, value));
            assert(Seq::new(keys.len() as nat, |j: int| keys@[j]@) =~= before.order());
        }
        let after = StringMap { keys, values };
        proof {
            assert(after.order() =~= before.order());
            let key = before.order()[i as int];
            assert(before.order().index_of(key) == i);
            assert(after@ =~= before@.insert(key, value)) by {
                assert forall|k: Seq<char>| after.order().contains(k) implies #[trigger] after@[k]
                    == before@.insert(key, value)[k] by {
                    let j = after.order().index_of(k);
                    assert(after.order()[j] == k);
                }
            }
        }
        *self = after;
        previous
    }
}

impl<V: View> StringMap<V> {
    /// The map with each value replaced by its view.
    pub open spec fn deep(&self) -> Map<Seq<char>, V::V> {
        Map::new(|k: Seq<char>| self@.contains_key(k), |k: Seq<char>| self@[k]@)
    }
}

impl<V: Copy> StringMap<V> {
    /// A map with the same keys and values, in the same order.
    pub fn duplicate(&self) -> (r: StringMap<V>)
        ensures
            self.wf(),
            r.wf(),
            r@ == self@,
            r.order() == self.order(),
            r.items() == self.items(),
    {
        let n = self.len();
        let mut r: StringMap<V> = StringMap::new();
        let mut i: usize = 0;
        proof {
            self.lemma_wf();
        }
        while i < n
            invariant
                i <= n,
                n == self.order().len(),
                self.wf(),
                r.wf(),
                r.order() == self.order().subrange(0, i as int),
                r.items() == self.items().subrange(0, i as int),
            decreases n - i,
        {
            proof {
                self.lemma_wf();
                r.lemma_wf();
                let k = self.order()[i as int];
                if r.order().contains(k) {
                    let j = r.order().index_of(k);
                    assert(self.order()[j] == k);
                }
            }
            r.insert(self.key(i).clone(), *self.value(i));
            proof {
                assert(r.order() =~= self.order().subrange(0, i + 1));
                assert(r.items() =~= self.items().subrange(0, i + 1));
            }
            i += 1;
        }
        proof {
            self.lemma_wf();
            r.lemma_wf();
            assert(r.order() =~= self.order());
            assert(r.items() =~= self.items());
            assert(r@ =~= self@) by {
                assert forall|k: Seq<char>| r@.contains_key(k) implies #[trigger] r@[k] == self@[k] by {
                    let j = r.order().index_of(k);
                    assert(r.order()[j] == k);
                }
            }
        }
        r
    }
}

} // verus!
