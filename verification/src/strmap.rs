//! A small map from strings to values, kept as a vector of entries whose keys
//! never repeat.  Its model is a `Map` from the keys' characters to the
//! values' views.
use vstd::prelude::*;
use vstd::std_specs::cmp::PartialEqSpecImpl;

verus! {

/// A map from `String` keys to values.
///
/// The entries keep the order in which their keys were first inserted; no
/// key occurs twice.
#[derive(Debug)]
pub struct StrMap<V> {
    entries: Vec<(String, V)>,
}

impl<V> StrMap<V> {
    /// The keys, in the map's own order.
    pub closed spec fn key_seq(&self) -> Seq<Seq<char>> {
        self.entries@.map_values(|e: (String, V)| e.0@)
    }

    /// The values, in the order of `key_seq`.
    pub closed spec fn value_seq(&self) -> Seq<V> {
        self.entries@.map_values(|e: (String, V)| e.1)
    }

    #[verifier::type_invariant]
    closed spec fn keys_distinct(&self) -> bool {
        self.key_seq().no_duplicates()
    }
}

impl<V: View> View for StrMap<V> {
    type V = Map<Seq<char>, V::V>;

    closed spec fn view(&self) -> Map<Seq<char>, V::V> {
        Map::new(
            |k: Seq<char>| self.key_seq().contains(k),
            |k: Seq<char>| self.value_seq()[self.key_seq().index_of(k)]@,
        )
    }
}

impl<V: View> StrMap<V> {
    proof fn lemma_entry(&self, i: int)
        requires
            self.key_seq().no_duplicates(),
            0 <= i < self.key_seq().len(),
        ensures
            self@.contains_key(self.key_seq()[i]),
            self@[self.key_seq()[i]] == self.value_seq()[i]@,
    {
        let k = self.key_seq()[i];
        assert(self.key_seq().contains(k));
        let j = self.key_seq().index_of(k);
        assert(self.key_seq()[j] == k);
    }

    proof fn lemma_dom(&self)
        requires
            self.key_seq().no_duplicates(),
        ensures
            self@.dom() == self.key_seq().to_set(),
            self@.dom().finite(),
            self@.len() == self.key_seq().len(),
    {
        assert(self@.dom() =~= self.key_seq().to_set());
        self.key_seq().unique_seq_to_set();
        vstd::seq_lib::seq_to_set_is_finite(self.key_seq());
    }

    /// Facts about the map's order that every caller that walks it needs.
    proof fn lemma_wf(&self)
        requires
            self.key_seq().no_duplicates(),
        ensures
            self@.dom() == self.key_seq().to_set(),
            self@.dom().finite(),
            self@.len() == self.key_seq().len(),
            self.key_seq().len() == self.value_seq().len(),
            forall|i: int|
                0 <= i < self.key_seq().len() ==> #[trigger] self@[self.key_seq()[i]]
                    == self.value_seq()[i]@,
    {
        self.lemma_dom();
        assert forall|i: int| 0 <= i < self.key_seq().len() implies #[trigger] self@[self.key_seq()[i]]
            == self.value_seq()[i]@ by {
            self.lemma_entry(i);
        }
    }

    /// An empty map.
    pub fn new() -> (m: Self)
        ensures
            m@ == Map::<Seq<char>, V::V>::empty(),
            m.key_seq() == Seq::<Seq<char>>::empty(),
    {
        let m = StrMap { entries: Vec::new() };
        assert(m@ =~= Map::<Seq<char>, V::V>::empty());
        assert(m.key_seq() =~= Seq::<Seq<char>>::empty());
        m
    }

    /// The number of entries.  The keys in `key_seq` are distinct and are
    /// exactly the map's keys.
    pub fn len(&self) -> (n: usize)
        ensures
            n == self@.len(),
            n == self.key_seq().len(),
            n == self.value_seq().len(),
            self.key_seq().no_duplicates(),
            self@.dom() == self.key_seq().to_set(),
            self@.dom().finite(),
            forall|i: int|
                0 <= i < self.key_seq().len() ==> #[trigger] self@[self.key_seq()[i]]
                    == self.value_seq()[i]@,
    {
        proof {
            use_type_invariant(self);
            self.lemma_wf();
        }
        self.entries.len()
    }

    /// Whether the map has no entries.
    pub fn is_empty(&self) -> (b: bool)
        ensures
            b == (self@.dom() == Set::<Seq<char>>::empty()),
            b == (self@.len() == 0),
    {
        proof {
            use_type_invariant(self);
            self.lemma_wf();
            if self.entries@.len() > 0 {
                assert(self@.dom().contains(self.key_seq()[0]));
            } else {
                assert(self@.dom() =~= Set::<Seq<char>>::empty());
            }
        }
        self.entries.len() == 0
    }

    /// The key of the entry at position `i`.
    pub fn key_at(&self, i: usize) -> (k: &String)
        requires
            i < self.key_seq().len(),
        ensures
            k@ == self.key_seq()[i as int],
            self@.contains_key(k@),
    {
        proof {
            use_type_invariant(self);
            self.lemma_entry(i as int);
        }
        &self.entries[i].0
    }

    /// The value of the entry at position `i`.
    pub fn value_at(&self, i: usize) -> (v: &V)
        requires
            i < self.key_seq().len(),
        ensures
            *v == self.value_seq()[i as int],
            v@ == self@[self.key_seq()[i as int]],
    {
        proof {
            use_type_invariant(self);
            self.lemma_entry(i as int);
        }
        &self.entries[i].1
    }

    /// The position of `key`, if the map holds it.
    fn position(&self, key: &String) -> (r: Option<usize>)
        ensures
            match r {
                Some(i) => i < self.key_seq().len() && self.key_seq()[i as int] == key@,
                None => !self@.contains_key(key@),
            },
    {
        let n = self.entries.len();
        let mut i: usize = 0;
        while i < n
            invariant
                n == self.entries@.len(),
                0 <= i <= n,
                forall|j: int| 0 <= j < i ==> self.key_seq()[j] != key@,
            decreases n - i,
        {
            if self.entries[i].0 == *key {
                return Some(i);
            }
            i = i + 1;
        }
        None
    }

    /// Whether the map holds `key`.
    pub fn contains_key(&self, key: &str) -> (b: bool)
        ensures
            b == self@.contains_key(key@),
    {
        let k = key.to_owned();
        self.position(&k).is_some()
    }

    /// The value stored under `key`.
    pub fn get(&self, key: &str) -> (r: Option<&V>)
        ensures
            match r {
                Some(v) => self@.contains_key(key@) && v@ == self@[key@],
                None => !self@.contains_key(key@),
            },
    {
        let k = key.to_owned();
        match self.position(&k) {
            Some(i) => Some(self.value_at(i)),
            None => None,
        }
    }

    /// Stores `value` under `key`, replacing a value already stored there.
    /// A new key goes after all others; a present key keeps its place.
    pub fn insert(&mut self, key: String, value: V)
        ensures
            final(self)@ == old(self)@.insert(key@, value@),
            old(self)@.contains_key(key@) ==> final(self).key_seq() == old(self).key_seq(),
            !old(self)@.contains_key(key@) ==> final(self).key_seq() == old(self).key_seq().push(
                key@,
            ),
    {
        proof {
            use_type_invariant(&*self);
            self.lemma_wf();
        }
        let pos = self.position(&key);
        let mut entries: Vec<(String, V)> = Vec::new();
        std::mem::swap(&mut entries, &mut self.entries);
        let ghost old_entries = entries@;
        match pos {
            Some(i) => {
                entries.set(i, (key, value));
                let ghost next = StrMap { entries };
                proof {
                    assert(next.key_seq() =~= old(self).key_seq());
                    next.lemma_wf();
                    assert(next@ =~= old(self)@.insert(key@, value@)) by {
                        assert forall|k: Seq<char>| #[trigger]
                            next@.contains_key(k) implies next@[k] == old(self)@.insert(
                            key@,
                            value@,
                        )[k] by {
                            let j = next.key_seq().index_of(k);
                            next.lemma_entry(j);
                        }
                    }
                }
            },
            None => {
                entries.push((key, value));
                let ghost next = StrMap { entries };
                proof {
                    assert(next.key_seq() =~= old(self).key_seq().push(key@));
                    assert(next.key_seq().no_duplicates());
                    next.lemma_wf();
                    assert(next@ =~= old(self)@.insert(key@, value@)) by {
                        assert forall|k: Seq<char>| #[trigger]
                            next@.contains_key(k) implies next@[k] == old(self)@.insert(
                            key@,
                            value@,
                        )[k] by {
                            let j = next.key_seq().index_of(k);
                            next.lemma_entry(j);
                            if j < old(self).key_seq().len() {
                                old(self).lemma_entry(j);
                            }
                        }
                        assert forall|k: Seq<char>| #[trigger]
                            old(self)@.insert(key@, value@).contains_key(k) implies next@.contains_key(k) by {
                            if k != key@ {
                                let j = old(self).key_seq().index_of(k);
                                assert(next.key_seq()[j] == k);
                            } else {
                                assert(next.key_seq()[old(self).key_seq().len() as int] == k);
                            }
                        }
                    }
                }
            },
        }
        self.entries = entries;
    }

    /// Removes `key` and hands back its value, if the map held it.  The
    /// other entries keep their order.
    pub fn remove(&mut self, key: &str) -> (r: Option<V>)
        ensures
            final(self)@ == old(self)@.remove(key@),
            !old(self)@.contains_key(key@) ==> final(self).key_seq() == old(self).key_seq(),
            old(self)@.contains_key(key@) ==> exists|i: int|
                0 <= i < old(self).key_seq().len() && old(self).key_seq()[i] == key@
                    && final(self).key_seq() == old(self).key_seq().remove(i),
            match r {
                Some(v) => old(self)@.contains_key(key@) && v@ == old(self)@[key@],
                None => !old(self)@.contains_key(key@),
            },
    {
        proof {
            use_type_invariant(&*self);
            self.lemma_wf();
        }
        let k = key.to_owned();
        match self.position(&k) {
            None => {
                assert(old(self)@.remove(key@) =~= old(self)@);
                None
            },
            Some(i) => {
                let mut entries: Vec<(String, V)> = Vec::new();
                std::mem::swap(&mut entries, &mut self.entries);
                let e = entries.remove(i);
                let ghost next = StrMap { entries };
                proof {
                    old(self).lemma_entry(i as int);
                    assert(next.key_seq() =~= old(self).key_seq().remove(i as int));
                    next.lemma_wf();
                    assert(next@ =~= old(self)@.remove(key@)) by {
                        assert forall|k: Seq<char>| #[trigger]
                            next@.contains_key(k) implies next@[k] == old(self)@[k] by {
                            let j = next.key_seq().index_of(k);
                            next.lemma_entry(j);
                            if j < i {
                                old(self).lemma_entry(j);
                            } else {
                                old(self).lemma_entry(j + 1);
                            }
                        }
                        assert forall|k: Seq<char>| #[trigger]
                            old(self)@.remove(key@).contains_key(k) implies next@.contains_key(k) by {
                            let j = old(self).key_seq().index_of(k);
                            if j < i {
                                assert(next.key_seq()[j] == k);
                            } else {
                                assert(next.key_seq()[j - 1] == k);
                            }
                        }
                    }
                }
                self.entries = entries;
                Some(e.1)
            },
        }
    }
}

impl<V: View> StrMap<V> {
    /// Two maps with the same keys in the same order, whose values have the
    /// same views position by position, have the same model.
    pub proof fn lemma_same_view(&self, other: &Self)
        requires
            self.key_seq() == other.key_seq(),
            self.value_seq().len() == other.value_seq().len(),
            forall|i: int|
                0 <= i < self.value_seq().len() ==> #[trigger] self.value_seq()[i]@
                    == other.value_seq()[i]@,
        ensures
            self@ == other@,
    {
        assert(self.key_seq().len() == self.entries@.len());
        assert(self@ =~= other@) by {
            assert forall|k: Seq<char>| #[trigger] self@.contains_key(k) implies self@[k] == other@[k] by {
                let j = self.key_seq().index_of(k);
                assert(0 <= j < self.key_seq().len());
            }
        }
    }
}

impl<V: Clone> Clone for StrMap<V> {
    /// A copy with the same keys in the same order and a clone of each value.
    fn clone(&self) -> (r: Self)
        ensures
            r.key_seq() == self.key_seq(),
            r.value_seq().len() == self.value_seq().len(),
            forall|i: int|
                0 <= i < self.value_seq().len() ==> cloned::<V>(
                    #[trigger] self.value_seq()[i],
                    r.value_seq()[i],
                ),
    {
        proof {
            use_type_invariant(self);
        }
        let n = self.entries.len();
        let mut entries: Vec<(String, V)> = Vec::new();
        let mut i: usize = 0;
        while i < n
            invariant
                n == self.entries@.len(),
                0 <= i <= n,
                entries@.len() == i,
                forall|j: int| 0 <= j < i ==> #[trigger] entries@[j].0@ == self.entries@[j].0@,
                forall|j: int|
                    0 <= j < i ==> cloned::<V>(self.entries@[j].1, #[trigger] entries@[j].1),
            decreases n - i,
        {
            let e = &self.entries[i];
            entries.push((e.0.clone(), e.1.clone()));
            i = i + 1;
        }
        assert(entries@.map_values(|e: (String, V)| e.0@) =~= self.key_seq());
        StrMap { entries }
    }
}

impl PartialEq for StrMap<String> {
    /// Two maps are equal when they hold the same keys with the same
    /// values, whatever their order.
    fn eq(&self, other: &Self) -> (b: bool) {
        let n = self.len();
        let m = other.len();
        if n != m {
            return false;
        }
        let mut i: usize = 0;
        while i < n
            invariant
                n == self.key_seq().len(),
                n == self@.len(),
                m == other@.len(),
                n == m,
                self.key_seq().no_duplicates(),
                self@.dom() == self.key_seq().to_set(),
                self@.dom().finite(),
                other@.dom().finite(),
                0 <= i <= n,
                forall|j: int|
                    #![trigger self.key_seq()[j]]
                    0 <= j < i ==> other@.contains_key(self.key_seq()[j]) && other@[self.key_seq()[j]]
                        == self@[self.key_seq()[j]],
            decreases n - i,
        {
            let k = self.key_at(i);
            let v = self.value_at(i);
            match other.get(k.as_str()) {
                Some(w) => {
                    if !(*w == *v) {
                        return false;
                    }
                },
                None => {
                    return false;
                },
            }
            i = i + 1;
        }
        proof {
            assert(self@.dom().subset_of(other@.dom())) by {
                assert forall|k: Seq<char>| self@.dom().contains(k) implies other@.dom().contains(
                    k,
                ) by {
                    let j = self.key_seq().index_of(k);
                    assert(self.key_seq().to_set().contains(k));
                    assert(0 <= j < n && self.key_seq()[j] == k);
                }
            }
            vstd::set_lib::lemma_subset_equality(self@.dom(), other@.dom());
            assert(self@ =~= other@) by {
                assert forall|k: Seq<char>| #[trigger] self@.contains_key(k) implies self@[k]
                    == other@[k] by {
                    let j = self.key_seq().index_of(k);
                    assert(self.key_seq().to_set().contains(k));
                    assert(0 <= j < n && self.key_seq()[j] == k);
                }
            }
        }
        true
    }
}

impl PartialEqSpecImpl for StrMap<String> {
    open spec fn obeys_eq_spec() -> bool {
        true
    }

    open spec fn eq_spec(&self, other: &Self) -> bool {
        self@ == other@
    }
}

} // verus!
