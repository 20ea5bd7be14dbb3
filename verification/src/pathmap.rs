//! A small association map keyed by path strings.
//!
//! The open-state registries and the directory model of the snapshot store
//! are maps from a path to a value.  This container carries them as a vector
//! of pairs with pairwise-distinct keys, abstracted to a `Map` from the
//! path's character sequence to the value's view.

use vstd::prelude::*;

verus! {

/// A map from path strings to values, with `Map` semantics.
pub struct PathMap<V> {
    entries: Vec<(String, V)>,
}

impl<V: View> PathMap<V> {
    /// The abstraction of an entry sequence: later entries shadow earlier
    /// ones (the well-formed container never has two entries to shadow).
    pub open spec fn map_of(s: Seq<(String, V)>) -> Map<Seq<char>, V::V>
        decreases s.len(),
    {
        if s.len() == 0 {
            Map::empty()
        } else {
            Self::map_of(s.drop_last()).insert(s.last().0@, s.last().1@)
        }
    }

    /// No two entries share a key.
    pub open spec fn unique_keys(s: Seq<(String, V)>) -> bool {
        forall|i: int, j: int|
            0 <= i < j < s.len() ==> (#[trigger] s[i]).0@ != (#[trigger] s[j]).0@
    }

    /// The entries behind the abstraction (kept opaque to callers).
    pub closed spec fn entries_seq(&self) -> Seq<(String, V)> {
        self.entries@
    }

    /// Keys are pairwise distinct.
    pub open spec fn inv(&self) -> bool {
        Self::unique_keys(self.entries_seq())
    }

    proof fn lemma_map_of_contains(s: Seq<(String, V)>, k: Seq<char>)
        ensures
            Self::map_of(s).contains_key(k) <==> exists|i: int|
                0 <= i < s.len() && (#[trigger] s[i]).0@ == k,
        decreases s.len(),
    {
        if s.len() > 0 {
            Self::lemma_map_of_contains(s.drop_last(), k);
            if s.last().0@ == k {
                assert(s[s.len() - 1].0@ == k);
            } else {
                if Self::map_of(s).contains_key(k) {
                    let i = choose|i: int| 0 <= i < s.drop_last().len() && (#[trigger] s.drop_last()[i]).0@ == k;
                    assert(s[i].0@ == k);
                }
                if exists|i: int| 0 <= i < s.len() && (#[trigger] s[i]).0@ == k {
                    let i = choose|i: int| 0 <= i < s.len() && (#[trigger] s[i]).0@ == k;
                    assert(i < s.len() - 1);
                    assert(s.drop_last()[i].0@ == k);
                }
            }
        }
    }

    proof fn lemma_map_of_index(s: Seq<(String, V)>, i: int)
        requires
            Self::unique_keys(s),
            0 <= i < s.len(),
        ensures
            Self::map_of(s).contains_key(s[i].0@),
            Self::map_of(s)[s[i].0@] == s[i].1@,
        decreases s.len(),
    {
        if i == s.len() - 1 {
            assert(s.last() == s[i]);
        } else {
            assert(s[i].0@ != s.last().0@);
            assert(s.drop_last()[i] == s[i]);
            Self::lemma_map_of_index(s.drop_last(), i);
        }
    }

    proof fn lemma_map_of_finite(s: Seq<(String, V)>)
        ensures
            Self::map_of(s).dom().finite(),
        decreases s.len(),
    {
        if s.len() > 0 {
            Self::lemma_map_of_finite(s.drop_last());
        }
    }

    proof fn lemma_map_of_dom_len(s: Seq<(String, V)>)
        requires
            Self::unique_keys(s),
        ensures
            Self::map_of(s).dom().finite(),
            Self::map_of(s).dom().len() == s.len(),
        decreases s.len(),
    {
        if s.len() > 0 {
            Self::lemma_map_of_dom_len(s.drop_last());
            Self::lemma_map_of_contains(s.drop_last(), s.last().0@);
            assert(forall|i: int|
                0 <= i < s.drop_last().len() ==> (#[trigger] s.drop_last()[i]) == s[i]);
            assert(!Self::map_of(s.drop_last()).contains_key(s.last().0@));
        }
    }

    proof fn lemma_map_of_update(s: Seq<(String, V)>, i: int, p: (String, V))
        requires
            Self::unique_keys(s),
            0 <= i < s.len(),
            p.0@ == s[i].0@,
        ensures
            Self::map_of(s.update(i, p)) == Self::map_of(s).insert(p.0@, p.1@),
        decreases s.len(),
    {
        let t = s.update(i, p);
        if i == s.len() - 1 {
            assert(t.drop_last() =~= s.drop_last());
            assert(t.last() == p);
            assert(Self::map_of(t) =~= Self::map_of(s).insert(p.0@, p.1@));
        } else {
            assert(t.drop_last() =~= s.drop_last().update(i, p));
            assert(t.last() == s.last());
            assert(s.drop_last()[i] == s[i]);
            Self::lemma_map_of_update(s.drop_last(), i, p);
            assert(p.0@ != s.last().0@);
            assert(Self::map_of(t) =~= Self::map_of(s).insert(p.0@, p.1@));
        }
    }

    proof fn lemma_map_of_remove(s: Seq<(String, V)>, i: int)
        requires
            Self::unique_keys(s),
            0 <= i < s.len(),
        ensures
            Self::map_of(s.remove(i)) == Self::map_of(s).remove(s[i].0@),
        decreases s.len(),
    {
        let t = s.remove(i);
        if i == s.len() - 1 {
            assert(t =~= s.drop_last());
            Self::lemma_map_of_contains(s.drop_last(), s.last().0@);
            assert(forall|j: int|
                0 <= j < s.drop_last().len() ==> (#[trigger] s.drop_last()[j]) == s[j]);
            assert(!Self::map_of(s.drop_last()).contains_key(s.last().0@));
            assert(Self::map_of(s.drop_last()) =~= Self::map_of(s).remove(s[i].0@));
        } else {
            assert(t.drop_last() =~= s.drop_last().remove(i));
            assert(t.last() == s.last());
            assert(s.drop_last()[i] == s[i]);
            Self::lemma_map_of_remove(s.drop_last(), i);
            assert(s[i].0@ != s.last().0@);
            assert(Self::map_of(t) =~= Self::map_of(s).remove(s[i].0@));
        }
    }

    /// The fresh, empty map.
    pub fn new() -> (r: Self)
        ensures
            r@ == Map::<Seq<char>, V::V>::empty(),
            r.inv(),
    {
        PathMap { entries: Vec::new() }
    }

    fn find(&self, key: &String) -> (r: Option<usize>)
        ensures
            match r {
                Some(i) => i < self.entries_seq().len() && self.entries_seq()[i as int].0@ == key@,
                None => forall|i: int|
                    0 <= i < self.entries_seq().len() ==> (#[trigger] self.entries_seq()[i]).0@
                        != key@,
            },
    {
        let mut i: usize = 0;
        while i < self.entries.len()
            invariant
                i <= self.entries.len(),
                forall|j: int| 0 <= j < i ==> (#[trigger] self.entries@[j]).0@ != key@,
            decreases self.entries.len() - i,
        {
            if self.entries[i].0 == *key {
                return Some(i);
            }
            i = i + 1;
        }
        None
    }

    /// Whether the map holds the key.
    pub fn contains_key(&self, key: &String) -> (r: bool)
        ensures
            r == self@.contains_key(key@),
    {
        proof {
            Self::lemma_map_of_contains(self.entries_seq(), key@);
        }
        match self.find(key) {
            Some(_) => true,
            None => false,
        }
    }

    /// The value under a key, if any.
    pub fn get(&self, key: &String) -> (r: Option<&V>)
        requires
            self.inv(),
        ensures
            r is Some <==> self@.contains_key(key@),
            r is Some ==> r->0@ == self@[key@],
    {
        proof {
            Self::lemma_map_of_contains(self.entries_seq(), key@);
        }
        match self.find(key) {
            Some(i) => {
                proof {
                    Self::lemma_map_of_index(self.entries_seq(), i as int);
                }
                Some(&self.entries[i].1)
            },
            None => None,
        }
    }

    /// Insert or replace the value under a key.
    pub fn insert(&mut self, key: String, v: V)
        requires
            old(self).inv(),
        ensures
            final(self).inv(),
            final(self)@ == old(self)@.insert(key@, v@),
    {
        let ghost s = self.entries_seq();
        match self.find(&key) {
            Some(i) => {
                proof {
                    Self::lemma_map_of_update(s, i as int, (key, v));
                }
                self.entries[i] = (key, v);
                assert(forall|a: int, b: int|
                    0 <= a < b < self.entries@.len() ==> (#[trigger] self.entries@[a]).0@ != (
                    #[trigger] self.entries@[b]).0@);
            },
            None => {
                self.entries.push((key, v));
                proof {
                    assert(self.entries@.drop_last() =~= s);
                    assert(forall|a: int, b: int|
                        0 <= a < b < self.entries@.len() ==> (#[trigger] self.entries@[a]).0@ != (
                        #[trigger] self.entries@[b]).0@);
                }
            },
        }
    }

    /// Drop the key, if present.
    pub fn remove(&mut self, key: &String)
        requires
            old(self).inv(),
        ensures
            final(self).inv(),
            final(self)@ == old(self)@.remove(key@),
    {
        let ghost s = self.entries_seq();
        match self.find(key) {
            Some(i) => {
                proof {
                    Self::lemma_map_of_remove(s, i as int);
                }
                self.entries.remove(i);
                assert(forall|a: int, b: int|
                    0 <= a < b < self.entries@.len() ==> (#[trigger] self.entries@[a]).0@ != (
                    #[trigger] self.entries@[b]).0@);
            },
            None => {
                proof {
                    Self::lemma_map_of_contains(s, key@);
                    assert(final(self)@ =~= old(self)@.remove(key@));
                }
            },
        }
    }

    /// Remove the key and hand its value out, if present.
    pub fn take(&mut self, key: &String) -> (r: Option<V>)
        requires
            old(self).inv(),
        ensures
            final(self).inv(),
            r is Some <==> old(self)@.contains_key(key@),
            r is Some ==> r->0@ == old(self)@[key@],
            final(self)@ == old(self)@.remove(key@),
    {
        let ghost s = self.entries_seq();
        proof {
            Self::lemma_map_of_contains(s, key@);
        }
        match self.find(key) {
            Some(i) => {
                proof {
                    Self::lemma_map_of_index(s, i as int);
                    Self::lemma_map_of_remove(s, i as int);
                }
                let pair = self.entries.remove(i);
                proof {
                    assert(forall|a: int, b: int|
                        0 <= a < b < self.entries@.len() ==> (#[trigger] self.entries@[a]).0@ != (
                        #[trigger] self.entries@[b]).0@);
                }
                Some(pair.1)
            },
            None => {
                proof {
                    assert(final(self)@ =~= old(self)@.remove(key@));
                }
                None
            },
        }
    }

    /// How many paths are mapped.
    pub fn len(&self) -> (r: usize)
        requires
            self.inv(),
        ensures
            self@.dom().finite(),
            r == self@.dom().len(),
    {
        proof {
            Self::lemma_map_of_dom_len(self.entries_seq());
        }
        self.entries.len()
    }
}

impl<V: View> View for PathMap<V> {
    type V = Map<Seq<char>, V::V>;

    closed spec fn view(&self) -> Map<Seq<char>, V::V> {
        Self::map_of(self.entries@)
    }
}

} // verus!
