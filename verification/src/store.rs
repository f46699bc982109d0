//! Tables keyed by strings, each key held once.
use vstd::prelude::*;
use crate::lock::{lemma_lookup, lookup};
use crate::text::str_equal;

verus! {

/// A table from strings to values. Storing under a key that is present replaces
/// its value; otherwise the key is added after the others.
pub struct StringMap<V> {
    entries: Vec<(String, V)>,
}

impl<V> StringMap<V> {
    /// The keys, in the order they were first stored.
    pub closed spec fn keys(self) -> Seq<Seq<char>> {
        self.entries@.map_values(|e: (String, V)| e.0@)
    }

    /// The values, in the order of their keys.
    pub closed spec fn values(self) -> Seq<V> {
        self.entries@.map_values(|e: (String, V)| e.1)
    }

    /// The value stored under `k`.
    pub open spec fn get(self, k: Seq<char>) -> Option<V> {
        match lookup(self.keys(), k) {
            Some(i) => Some(self.values()[i]),
            None => None,
        }
    }

    /// No key is held twice, and there is a value for each key.
    pub open spec fn wf(self) -> bool {
        &&& self.keys().no_duplicates()
        &&& self.keys().len() == self.values().len()
    }

    /// An empty table.
    pub fn new() -> (r: Self)
        ensures
            r.wf(),
            r.keys() == Seq::<Seq<char>>::empty(),
    {
        let r = StringMap { entries: Vec::new() };
        assert(r.keys() =~= Seq::<Seq<char>>::empty());
        r
    }

    /// The number of keys.
    pub fn len(&self) -> (r: usize)
        ensures
            r == self.keys().len(),
            r == self.values().len(),
    {
        self.entries.len()
    }

    /// The key at a position.
    pub fn key_at(&self, i: usize) -> (r: &String)
        requires
            i < self.keys().len(),
        ensures
            r@ == self.keys()[i as int],
    {
        &self.entries[i].0
    }

    /// The value at a position.
    pub fn value_at(&self, i: usize) -> (r: &V)
        requires
            i < self.values().len(),
        ensures
            *r == self.values()[i as int],
    {
        &self.entries[i].1
    }

    /// The position of `k`, if it is held.
    pub fn position(&self, k: &str) -> (r: Option<usize>)
        ensures
            r matches Some(i) ==> lookup(self.keys(), k@) == Some(i as int) && i < self.keys().len(),
            r is None ==> lookup(self.keys(), k@) is None,
    {
        let mut i = self.entries.len();
        assert(self.keys().take(i as int) =~= self.keys());
        while i > 0 && !str_equal(self.entries[i - 1].0.as_str(), k)
            invariant
                i <= self.entries.len(),
                lookup(self.keys(), k@) == lookup(self.keys().take(i as int), k@),
            decreases i,
        {
            assert(self.keys().take(i as int).drop_last() =~= self.keys().take(i - 1));
            i = i - 1;
        }
        if i == 0 {
            assert(self.keys().take(0) =~= Seq::<Seq<char>>::empty());
            None
        } else {
            assert(self.keys().take(i as int).last() == self.entries@[i - 1].0@);
            Some(i - 1)
        }
    }

    /// The value stored under `k`, if any.
    pub fn get_ref(&self, k: &str) -> (r: Option<&V>)
        requires
            self.wf(),
        ensures
            r matches Some(v) ==> self.get(k@) == Some(*v),
            r is None ==> self.get(k@) is None,
    {
        match self.position(k) {
            Some(i) => Some(&self.entries[i].1),
            None => None,
        }
    }

    /// Stores `v` under `k`.
    pub fn insert(&mut self, k: String, v: V)
        requires
            old(self).wf(),
        ensures
            final(self).wf(),
            forall|q: Seq<char>| #[trigger] final(self).get(q) == if q == k@ {
                Some(v)
            } else {
                old(self).get(q)
            },
            final(self).keys() == if old(self).keys().contains(k@) {
                old(self).keys()
            } else {
                old(self).keys().push(k@)
            },
            !old(self).keys().contains(k@) ==> final(self).values() == old(self).values().push(v),
    {
        let ghost old_keys = self.keys();
        let ghost old_self = *self;
        proof {
            lemma_lookup(old_keys, k@);
        }
        match self.position(k.as_str()) {
            Some(i) => {
                let ghost kv = k@;
                self.entries.set(i, (k, v));
                assert(self.keys() =~= old_keys);
                assert(self.values() =~= old_self.values().update(i as int, v));
                assert forall|q: Seq<char>| #[trigger] self.get(q) == if q == kv {
                    Some(v)
                } else {
                    old_self.get(q)
                } by {
                    lemma_lookup(old_keys, q);
                    if q == kv {
                        assert(lookup(old_keys, q) == Some(i as int));
                    } else {
                        if lookup(old_keys, q) is Some {
                            assert(lookup(old_keys, q)->0 != i);
                        }
                    }
                }
            },
            None => {
                let ghost kv = k@;
                self.entries.push((k, v));
                assert(self.keys() =~= old_keys.push(kv));
                assert(self.values() =~= old_self.values().push(v));
                assert(!old_keys.contains(kv));
                assert forall|q: Seq<char>| #[trigger] self.get(q) == if q == kv {
                    Some(v)
                } else {
                    old_self.get(q)
                } by {
                    assert(self.keys().drop_last() =~= old_keys);
                    assert(self.keys().last() == kv);
                    if q != kv {
                        assert(lookup(self.keys(), q) == lookup(old_keys, q));
                        lemma_lookup(old_keys, q);
                        if lookup(old_keys, q) is Some {
                            let j = lookup(old_keys, q)->0;
                            assert(self.values()[j] == old_self.values()[j]);
                        }
                    }
                }
                assert(self.keys().no_duplicates()) by {
                    assert forall|a: int, b: int| 0 <= a < b < self.keys().len() implies self.keys()[a]
                        != self.keys()[b] by {
                        if b == old_keys.len() {
                            assert(old_keys[a] == self.keys()[a]);
                        }
                    }
                }
            },
        }
    }
}

} // verus!
