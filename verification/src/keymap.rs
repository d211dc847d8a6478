//! A map kept as a list of entries in which no key occurs twice.

use vstd::prelude::*;

use crate::text::same;

verus! {

/// What a map can be keyed by: keys are the same where their views are.
pub trait MapKey: View + Sized {
    /// Whether two keys are the same.
    fn same_key(&self, other: &Self) -> (r: bool)
        ensures
            r == (self@ == other@),
    ;
}

impl MapKey for String {
    fn same_key(&self, other: &String) -> (r: bool) {
        same(self.as_str(), other.as_str())
    }
}

/// One key with its value.
pub struct Slot<K, V> {
    pub key: K,
    pub value: V,
}

/// A map from `K` to `V`, seen as the map between their views.
pub struct KeyMap<K, V> {
    slots: Vec<Slot<K, V>>,
}

/// A map from strings.
pub type StrMap<V> = KeyMap<String, V>;

/// Whether no two slots hold the same key.
spec fn distinct<K: View, V>(slots: Seq<Slot<K, V>>) -> bool {
    forall|i: int, j: int|
        #![trigger slots[i], slots[j]]
        0 <= i < j < slots.len() ==> slots[i].key@ != slots[j].key@
}

/// Whether some slot holds `key`.
spec fn holds<K: View, V>(slots: Seq<Slot<K, V>>, key: K::V) -> bool {
    exists|i: int| 0 <= i < slots.len() && (#[trigger] slots[i]).key@ == key
}

/// The slot that holds `key`.
spec fn slot_of<K: View, V>(slots: Seq<Slot<K, V>>, key: K::V) -> int {
    choose|i: int| 0 <= i < slots.len() && (#[trigger] slots[i]).key@ == key
}

spec fn contents<K: View, V: View>(slots: Seq<Slot<K, V>>) -> Map<K::V, V::V> {
    Map::new(
        |key: K::V| holds(slots, key),
        |key: K::V| slots[slot_of(slots, key)].value@,
    )
}

impl<K: View, V: View> View for KeyMap<K, V> {
    type V = Map<K::V, V::V>;

    closed spec fn view(&self) -> Map<K::V, V::V> {
        contents(self.slots@)
    }
}

proof fn lemma_contents_at<K: View, V: View>(slots: Seq<Slot<K, V>>, i: int)
    requires
        distinct(slots),
        0 <= i < slots.len(),
    ensures
        contents(slots).contains_key(slots[i].key@),
        contents(slots)[slots[i].key@] == slots[i].value@,
{
    let k = slots[i].key@;
    assert(holds(slots, k));
    let j = slot_of(slots, k);
    assert(slots[j].key@ == k);
    assert(j == i);
}

impl<K: MapKey, V: View> KeyMap<K, V> {
    /// Whether the list behind the map is in order: no key occurs twice.
    pub closed spec fn wf(&self) -> bool {
        distinct(self.slots@)
    }

    /// Number of slots.
    pub closed spec fn slot_count(&self) -> nat {
        self.slots@.len()
    }

    /// Key in slot `i`.
    pub closed spec fn slot_key(&self, i: int) -> K::V {
        self.slots@[i].key@
    }

    /// The slots hold exactly the map's keys, each once.
    pub proof fn lemma_slots(&self)
        requires
            self.wf(),
        ensures
            forall|i: int|
                0 <= i < self.slot_count() ==> self@.contains_key(#[trigger] self.slot_key(i)),
            forall|k: K::V| #[trigger]
                self@.contains_key(k) ==> exists|i: int|
                    0 <= i < self.slot_count() && #[trigger] self.slot_key(i) == k,
            forall|i: int, j: int|
                #![trigger self.slot_key(i), self.slot_key(j)]
                0 <= i < j < self.slot_count() ==> self.slot_key(i) != self.slot_key(j),
            self@.dom().finite(),
            self@.dom().len() == self.slot_count(),
    {
        assert forall|i: int| 0 <= i < self.slot_count() implies self@.contains_key(
            #[trigger] self.slot_key(i),
        ) by {
            lemma_contents_at(self.slots@, i);
        }
        assert forall|k: K::V| #[trigger] self@.contains_key(k) implies exists|i: int|
            0 <= i < self.slot_count() && #[trigger] self.slot_key(i) == k by {
            let i = slot_of(self.slots@, k);
            assert(self.slot_key(i) == k);
        }
        let keys = self.slots@.map_values(|s: Slot<K, V>| s.key@);
        assert(keys.no_duplicates());
        assert(self@.dom() =~= keys.to_set()) by {
            assert forall|k: K::V| self@.contains_key(k) == keys.contains(k) by {
                if self@.contains_key(k) {
                    let i = slot_of(self.slots@, k);
                    assert(keys[i] == k);
                }
                if keys.contains(k) {
                    let i = choose|i: int| 0 <= i < keys.len() && keys[i] == k;
                    assert(self.slots@[i].key@ == k);
                }
            }
        }
        keys.unique_seq_to_set();
    }

    /// The empty map.
    pub fn new() -> (r: Self)
        ensures
            r.wf(),
            r@ == Map::<K::V, V::V>::empty(),
            r.slot_count() == 0,
    {
        let r = KeyMap { slots: Vec::new() };
        assert(r@ =~= Map::<K::V, V::V>::empty());
        r
    }

    /// Number of keys.
    pub fn len(&self) -> (r: usize)
        ensures
            r == self.slot_count(),
    {
        self.slots.len()
    }

    /// The key in slot `i`.
    pub fn key_at(&self, i: usize) -> (r: &K)
        requires
            i < self.slot_count(),
        ensures
            r@ == self.slot_key(i as int),
    {
        &self.slots[i].key
    }

    /// The value in slot `i`.
    pub fn value_at(&self, i: usize) -> (r: &V)
        requires
            self.wf(),
            i < self.slot_count(),
        ensures
            self@.contains_key(self.slot_key(i as int)),
            r@ == self@[self.slot_key(i as int)],
    {
        proof {
            lemma_contents_at(self.slots@, i as int);
        }
        &self.slots[i].value
    }

    /// Slot of `key`, if it is there.
    fn find(&self, key: &K) -> (r: Option<usize>)
        requires
            self.wf(),
        ensures
            match r {
                Some(i) => {
                    &&& i < self.slots@.len()
                    &&& self.slots@[i as int].key@ == key@
                    &&& self@.contains_key(key@)
                    &&& self@[key@] == self.slots@[i as int].value@
                },
                None => !self@.contains_key(key@),
            },
    {
        let mut i: usize = 0;
        while i < self.slots.len()
            invariant
                self.wf(),
                i <= self.slots@.len(),
                forall|j: int| 0 <= j < i ==> (#[trigger] self.slots@[j]).key@ != key@,
            decreases self.slots@.len() - i,
        {
            if self.slots[i].key.same_key(key) {
                proof {
                    lemma_contents_at(self.slots@, i as int);
                }
                return Some(i);
            }
            i = i + 1;
        }
        None
    }

    /// Whether `key` is there.
    pub fn contains_key(&self, key: &K) -> (r: bool)
        requires
            self.wf(),
        ensures
            r == self@.contains_key(key@),
    {
        self.find(key).is_some()
    }

    /// The value of `key`.
    pub fn get(&self, key: &K) -> (r: Option<&V>)
        requires
            self.wf(),
        ensures
            match r {
                Some(v) => self@.contains_key(key@) && self@[key@] == v@,
                None => !self@.contains_key(key@),
            },
    {
        match self.find(key) {
            Some(i) => Some(&self.slots[i].value),
            None => None,
        }
    }

    /// Gives `key` the value `value`, in place of the one that it had.
    pub fn insert(&mut self, key: K, value: V)
        requires
            old(self).wf(),
        ensures
            final(self).wf(),
            final(self)@ == old(self)@.insert(key@, value@),
    {
        let ghost before = self.slots@;
        match self.find(&key) {
            Some(i) => {
                self.slots.set(i, Slot { key, value });
                proof {
                    let after = self.slots@;
                    assert(distinct(after)) by {
                        assert forall|a: int, b: int|
                            #![trigger after[a], after[b]]
                            0 <= a < b < after.len() implies after[a].key@ != after[b].key@ by {
                            assert(before[a].key@ != before[b].key@);
                        }
                    }
                    assert(after[i as int].key@ == key@);
                    lemma_same_contents(before, after, key@, value@);
                }
            },
            None => {
                self.slots.push(Slot { key, value });
                proof {
                    let after = self.slots@;
                    assert(distinct(after)) by {
                        assert forall|a: int, b: int|
                            #![trigger after[a], after[b]]
                            0 <= a < b < after.len() implies after[a].key@ != after[b].key@ by {
                            if b < before.len() {
                                assert(before[a].key@ != before[b].key@);
                            } else {
                                assert(before[a] == after[a]);
                                assert(holds(before, before[a].key@));
                            }
                        }
                    }
                    assert(after[before.len() as int].key@ == key@);
                    lemma_same_contents(before, after, key@, value@);
                }
            },
        }
    }

    /// Takes `key` out, with its value.
    pub fn remove(&mut self, key: &K) -> (r: Option<V>)
        requires
            old(self).wf(),
        ensures
            final(self).wf(),
            final(self)@ == old(self)@.remove(key@),
            match r {
                Some(v) => old(self)@.contains_key(key@) && v@ == old(self)@[key@],
                None => !old(self)@.contains_key(key@),
            },
    {
        let ghost before = self.slots@;
        match self.find(key) {
            Some(i) => {
                let slot = self.slots.remove(i);
                proof {
                    let after = self.slots@;
                    assert(forall|a: int|
                        0 <= a < after.len() ==> #[trigger] after[a] == before[if a < i {
                            a
                        } else {
                            a + 1
                        }]);
                    assert(distinct(after));
                    assert forall|k: K::V| holds(after, k) == (holds(before, k) && k != key@) by {
                        if holds(after, k) {
                            let a = slot_of(after, k);
                            let b = if a < i { a } else { a + 1 };
                            assert(before[b].key@ == k);
                        }
                        if holds(before, k) && k != key@ {
                            let b = slot_of(before, k);
                            let a = if b < i { b } else { b - 1 };
                            assert(after[a].key@ == k);
                        }
                    }
                    assert forall|k: K::V| holds(after, k) implies contents(after)[k] == contents(before)[k] by {
                        let a = slot_of(after, k);
                        lemma_contents_at(after, a);
                        lemma_contents_at(before, if a < i { a } else { a + 1 });
                    }
                    assert(self@ =~= old(self)@.remove(key@));
                }
                Some(slot.value)
            },
            None => {
                assert(self@ =~= old(self)@.remove(key@));
                None
            },
        }
    }
}

/// One slot set to `key` and `value`, the others left as they were.
proof fn lemma_same_contents<K: View, V: View>(
    before: Seq<Slot<K, V>>,
    after: Seq<Slot<K, V>>,
    key: K::V,
    value: V::V,
)
    requires
        distinct(before),
        distinct(after),
        before.len() <= after.len() <= before.len() + 1,
        exists|i: int| 0 <= i < after.len() && (#[trigger] after[i]).key@ == key && after[i].value@ == value,
        forall|i: int| 0 <= i < before.len() && (#[trigger] before[i]).key@ != key ==> after[i] == before[i],
        forall|i: int| 0 <= i < after.len() && (#[trigger] after[i]).key@ != key ==> i < before.len() && after[i] == before[i],
    ensures
        contents(after) == contents(before).insert(key, value),
{
    let i = choose|i: int| 0 <= i < after.len() && (#[trigger] after[i]).key@ == key && after[i].value@ == value;
    lemma_contents_at(after, i);
    assert forall|k: K::V| k != key implies holds(after, k) == holds(before, k) by {
        if holds(after, k) {
            let a = slot_of(after, k);
            assert(before[a].key@ == k);
        }
        if holds(before, k) {
            let b = slot_of(before, k);
            assert(after[b].key@ == k);
        }
    }
    assert forall|k: K::V| k != key && holds(after, k) implies contents(after)[k] == contents(before)[k] by {
        let a = slot_of(after, k);
        lemma_contents_at(after, a);
        lemma_contents_at(before, a);
    }
    assert(contents(after) =~= contents(before).insert(key, value));
}

} // verus!
