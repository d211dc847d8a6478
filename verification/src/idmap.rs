//! A map from numbers.

use std::collections::HashMap;

use vstd::prelude::*;

verus! {

broadcast use vstd::std_specs::hash::group_hash_axioms;

/// A map from numbers to `V`, seen as the map to their views.
pub struct IdMap<V> {
    rows: HashMap<u64, V>,
}

impl<V: View> View for IdMap<V> {
    type V = Map<u64, V::V>;

    closed spec fn view(&self) -> Map<u64, V::V> {
        self.rows@.map_values(|v: V| v@)
    }
}

impl<V: View> IdMap<V> {
    /// The map has finitely many keys.
    pub proof fn lemma_finite(&self)
        ensures
            self@.dom().finite(),
    {
        assert(self@.dom() =~= self.rows@.dom());
    }

    /// The empty map.
    pub fn new() -> (r: Self)
        ensures
            r@ == Map::<u64, V::V>::empty(),
    {
        let r = IdMap { rows: HashMap::new() };
        assert(r@ =~= Map::<u64, V::V>::empty());
        r
    }

    /// The keys, each once.
    pub fn keys(&self) -> (r: Vec<u64>)
        ensures
            r@.no_duplicates(),
            r@.to_set() == self@.dom(),
    {
        let mut out: Vec<u64> = Vec::new();
        for key in it: self.rows.keys()
            invariant
                out@.len() == it.index(),
                forall|i: int| 0 <= i < out@.len() ==> #[trigger] out@[i] == *it.seq()[i],
        {
            out.push(*key);
        }
        proof {
            let all = vstd::std_specs::iter::IteratorSpec::remaining(&self.rows.keys());
            assert(out@ =~= all.unref());
            assert(self@.dom() =~= self.rows@.dom());
        }
        out
    }

    /// Whether `key` is there.
    pub fn contains_key(&self, key: &u64) -> (r: bool)
        ensures
            r == self@.contains_key(*key),
    {
        self.rows.contains_key(key)
    }

    /// The value of `key`.
    pub fn get(&self, key: &u64) -> (r: Option<&V>)
        ensures
            match r {
                Some(v) => self@.contains_key(*key) && self@[*key] == v@,
                None => !self@.contains_key(*key),
            },
    {
        self.rows.get(key)
    }

    /// Gives `key` the value `value`, in place of the one that it had.
    pub fn insert(&mut self, key: u64, value: V)
        ensures
            final(self)@ == old(self)@.insert(key, value@),
    {
        let was = self.rows.insert(key, value);
        assert(self@ =~= old(self)@.insert(key, value@));
    }

    /// Takes `key` out, with its value.
    pub fn remove(&mut self, key: &u64) -> (r: Option<V>)
        ensures
            final(self)@ == old(self)@.remove(*key),
            match r {
                Some(v) => old(self)@.contains_key(*key) && v@ == old(self)@[*key],
                None => !old(self)@.contains_key(*key),
            },
    {
        let was = self.rows.remove(key);
        assert(self@ =~= old(self)@.remove(*key));
        was
    }
}

} // verus!
