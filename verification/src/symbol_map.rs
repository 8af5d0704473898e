//! A map from market symbols to values, kept in insertion order, with no
//! symbol twice.

use vstd::prelude::*;
use crate::text::same_text;

verus! {

/// In a sequence without duplicates, the index of an element is the one
/// position where it stands.
proof fn lemma_index_of_unique<A>(s: Seq<A>, i: int)
    requires
        s.no_duplicates(),
        0 <= i < s.len(),
    ensures
        s.index_of(s[i]) == i,
{
    assert(s.contains(s[i]));
    let j = s.index_of(s[i]);
    assert(0 <= j < s.len() && s[j] == s[i]);
}

/// Symbols mapped to values. Its view is a `Map` from the symbols' text to
/// their values; `key_seq` gives the symbols in the order they were first
/// inserted.
pub struct SymbolMap<V> {
    entries: Vec<(String, V)>,
}

impl<V> SymbolMap<V> {
    /// The symbols, in insertion order.
    pub closed spec fn key_seq(&self) -> Seq<Seq<char>> {
        self.entries@.map_values(|e: (String, V)| e.0@)
    }

    #[verifier::type_invariant]
    spec fn inv(&self) -> bool {
        self.key_seq().no_duplicates()
    }

    pub closed spec fn as_map(&self) -> Map<Seq<char>, V> {
        Map::new(
            |k: Seq<char>| self.key_seq().contains(k),
            |k: Seq<char>| self.entries@[self.key_seq().index_of(k)].1,
        )
    }

    /// The symbols are exactly the map's domain, each once.
    proof fn lemma_keys(&self)
        requires
            self.key_seq().no_duplicates(),
        ensures
            self.key_seq().to_set() == self@.dom(),
            self.key_seq().len() == self@.dom().len(),
            self@.dom().finite(),
    {
        assert(self.key_seq().to_set() =~= self@.dom());
        self.key_seq().unique_seq_to_set();
    }

    /// An empty map.
    pub fn new() -> (m: Self)
        ensures
            m@ == Map::<Seq<char>, V>::empty(),
            m.key_seq() == Seq::<Seq<char>>::empty(),
    {
        let m = SymbolMap { entries: Vec::new() };
        assert(m.key_seq() =~= Seq::<Seq<char>>::empty());
        assert(m@ =~= Map::<Seq<char>, V>::empty());
        m
    }

    /// The number of symbols.
    pub fn len(&self) -> (n: usize)
        ensures
            n == self@.dom().len(),
            n == self.key_seq().len(),
    {
        proof {
            use_type_invariant(self);
            self.lemma_keys();
        }
        self.entries.len()
    }

    /// Where `key` stands, if it is present.
    fn find(&self, key: &str) -> (r: Option<usize>)
        ensures
            match r {
                Some(i) => i < self.key_seq().len() && self.key_seq()[i as int] == key@,
                None => !self.key_seq().contains(key@),
            },
    {
        let mut i: usize = 0;
        while i < self.entries.len()
            invariant
                i <= self.entries@.len(),
                forall|j: int| 0 <= j < i ==> self.key_seq()[j] != key@,
            decreases self.entries.len() - i,
        {
            if same_text(self.entries[i].0.as_str(), key) {
                return Some(i);
            }
            i = i + 1;
        }
        None
    }

    /// Whether `key` is present.
    pub fn contains_key(&self, key: &str) -> (r: bool)
        ensures
            r == self@.dom().contains(key@),
    {
        self.find(key).is_some()
    }

    /// The value of `key`, if present.
    pub fn get(&self, key: &str) -> (r: Option<&V>)
        ensures
            r is Some == self@.dom().contains(key@),
            r matches Some(v) ==> *v == self@[key@],
    {
        proof {
            use_type_invariant(self);
        }
        match self.find(key) {
            Some(i) => {
                proof {
                    lemma_index_of_unique(self.key_seq(), i as int);
                }
                Some(&self.entries[i].1)
            },
            None => None,
        }
    }

    /// Sets the value of `key`, as `HashMap::insert` does; a new key goes
    /// last in `key_seq`, a present one keeps its place.
    pub fn insert(&mut self, key: String, value: V)
        ensures
            final(self)@ == old(self)@.insert(key@, value),
            old(self).key_seq().contains(key@) ==> final(self).key_seq() == old(self).key_seq(),
            !old(self).key_seq().contains(key@) ==> final(self).key_seq() == old(self).key_seq().push(key@),
    {
        proof {
            use_type_invariant(&*self);
        }
        let ghost old_keys = self.key_seq();
        let ghost old_map = self@;
        let ghost k = key@;
        match self.find(key.as_str()) {
            Some(i) => {
                let mut entries: Vec<(String, V)> = Vec::new();
                std::mem::swap(&mut entries, &mut self.entries);
                entries.set(i, (key, value));
                proof {
                    assert(entries@.map_values(|e: (String, V)| e.0@) =~= old_keys);
                }
                self.entries = entries;
                proof {
                    assert(self.key_seq() =~= old_keys);
                    assert forall|q: Seq<char>| #[trigger] self.key_seq().contains(q) implies
                        self.entries@[self.key_seq().index_of(q)].1 == old_map.insert(k, value)[q] by {
                        let j = old_keys.index_of(q);
                        assert(old_keys.contains(q));
                        assert(0 <= j < old_keys.len() && old_keys[j] == q);
                        if q == k {
                            lemma_index_of_unique(old_keys, i as int);
                        }
                    }
                    assert(self@ =~= old_map.insert(k, value));
                }
            },
            None => {
                let mut entries: Vec<(String, V)> = Vec::new();
                std::mem::swap(&mut entries, &mut self.entries);
                entries.push((key, value));
                proof {
                    assert(entries@.map_values(|e: (String, V)| e.0@) =~= old_keys.push(k));
                }
                self.entries = entries;
                proof {
                    assert(self.key_seq() =~= old_keys.push(k));
                    let ks = self.key_seq();
                    assert forall|q: Seq<char>| #[trigger] ks.contains(q) implies
                        self.entries@[ks.index_of(q)].1 == old_map.insert(k, value)[q] by {
                        if q == k {
                            lemma_index_of_unique(ks, old_keys.len() as int);
                        } else {
                            let j = ks.index_of(q);
                            assert(0 <= j < ks.len() && ks[j] == q);
                            assert(old_keys[j] == q);
                            lemma_index_of_unique(old_keys, j);
                        }
                    }
                    assert forall|q: Seq<char>| old_map.insert(k, value).dom().contains(q) implies ks.contains(q) by {
                        if q == k {
                            assert(ks[old_keys.len() as int] == k);
                        } else {
                            let j = old_keys.index_of(q);
                            assert(ks[j] == old_keys[j]);
                        }
                    }
                    assert(self@ =~= old_map.insert(k, value));
                }
            },
        }
    }

    /// Removes `key` and gives back its value, as `HashMap::remove` does;
    /// the other symbols keep their order.
    pub fn remove(&mut self, key: &str) -> (r: Option<V>)
        ensures
            r is Some == old(self)@.dom().contains(key@),
            r matches Some(v) ==> v == old(self)@[key@],
            final(self)@ == old(self)@.remove(key@),
            old(self).key_seq().contains(key@) ==> final(self).key_seq() == old(self).key_seq().remove(
                old(self).key_seq().index_of(key@),
            ),
            !old(self).key_seq().contains(key@) ==> final(self).key_seq() == old(self).key_seq(),
    {
        proof {
            use_type_invariant(&*self);
        }
        let ghost old_keys = self.key_seq();
        let ghost old_map = self@;
        let ghost k = key@;
        match self.find(key) {
            Some(i) => {
                let mut entries: Vec<(String, V)> = Vec::new();
                std::mem::swap(&mut entries, &mut self.entries);
                let (_, v) = entries.remove(i);
                proof {
                    assert(entries@.map_values(|e: (String, V)| e.0@) =~= old_keys.remove(i as int));
                }
                self.entries = entries;
                proof {
                    lemma_index_of_unique(old_keys, i as int);
                    let ks = self.key_seq();
                    assert(ks =~= old_keys.remove(i as int));
                    assert forall|q: Seq<char>| #[trigger] ks.contains(q) implies
                        self.entries@[ks.index_of(q)].1 == old_map.remove(k)[q] by {
                        let j = ks.index_of(q);
                        assert(0 <= j < ks.len() && ks[j] == q);
                        if j < i {
                            assert(old_keys[j] == q);
                            lemma_index_of_unique(old_keys, j);
                        } else {
                            assert(old_keys[j + 1] == q);
                            lemma_index_of_unique(old_keys, j + 1);
                        }
                    }
                    assert forall|q: Seq<char>| ks.contains(q) <==> old_map.remove(k).dom().contains(q) by {
                        if old_map.remove(k).dom().contains(q) {
                            let j = old_keys.index_of(q);
                            assert(0 <= j < old_keys.len() && old_keys[j] == q);
                            if j < i {
                                assert(ks[j] == q);
                            } else {
                                assert(j != i);
                                assert(ks[j - 1] == q);
                            }
                        }
                        if ks.contains(q) {
                            let j = ks.index_of(q);
                            assert(0 <= j < ks.len() && ks[j] == q);
                            if j < i {
                                assert(old_keys[j] == q);
                            } else {
                                assert(old_keys[j + 1] == q);
                            }
                            assert(q != k);
                        }
                    }
                    assert(self@ =~= old_map.remove(k));
                }
                Some(v)
            },
            None => {
                proof {
                    assert(self@ =~= old_map.remove(k));
                }
                None
            },
        }
    }

    /// The symbols and their values, in `key_seq` order.
    pub fn pairs(&self) -> (r: &Vec<(String, V)>)
        ensures
            self.key_seq().no_duplicates(),
            forall|k: Seq<char>| #[trigger] self@.dom().contains(k) <==> self.key_seq().contains(k),
            r@.len() == self.key_seq().len(),
            forall|i: int| 0 <= i < r@.len() ==> (#[trigger] r@[i]).0@ == self.key_seq()[i],
            forall|i: int| 0 <= i < r@.len() ==> self@[(#[trigger] r@[i]).0@] == r@[i].1,
    {
        proof {
            use_type_invariant(self);
            assert forall|i: int| 0 <= i < self.entries@.len() implies
                self@[(#[trigger] self.entries@[i]).0@] == self.entries@[i].1 by {
                assert(self.key_seq()[i] == self.entries@[i].0@);
                lemma_index_of_unique(self.key_seq(), i);
            }
        }
        &self.entries
    }
}

impl<V> View for SymbolMap<V> {
    type V = Map<Seq<char>, V>;

    closed spec fn view(&self) -> Map<Seq<char>, V> {
        self.as_map()
    }
}

} // verus!
