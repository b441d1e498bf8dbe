//! The keys that select the slots of one handler.
use std::collections::{HashMap, HashSet};
use vstd::prelude::*;

verus! {

broadcast use vstd::std_specs::hash::group_hash_axioms;

/// The primary key of each slot, the secondary keys of the slots checked by
/// factorization, and every key in use.
pub struct ALUKeys {
    pub keys: Vec<u64>,
    pub used_keys: HashSet<u64>,
    pub additional_keys: HashMap<usize, u64>,
}

impl ALUKeys {
    /// Every key in use is a primary or a secondary key, and every such key is in use.
    pub open spec fn wf(&self) -> bool {
        self.used_keys@ == self.keys@.to_set() + self.additional_keys@.values()
    }

    pub fn new() -> (r: ALUKeys)
        ensures
            r.keys@ == Seq::<u64>::empty(),
            r.additional_keys@ == Map::<usize, u64>::empty(),
            r.used_keys@ == Set::<u64>::empty(),
            r.wf(),
    {
        let r = ALUKeys { keys: Vec::new(), used_keys: HashSet::new(), additional_keys: HashMap::new() };
        assert(r.keys@.to_set() =~= Set::<u64>::empty());
        assert(r.additional_keys@.values() =~= Set::<u64>::empty());
        assert(r.used_keys@ =~= r.keys@.to_set() + r.additional_keys@.values());
        r
    }

    /// The primary key of slot `index`.
    pub fn get(&self, index: usize) -> (r: u64)
        requires
            index < self.keys@.len(),
        ensures
            r == self.keys@[index as int],
    {
        self.keys[index]
    }

    /// The secondary key of slot `index`.
    pub fn get_additional_key(&self, index: usize) -> (r: u64)
        requires
            self.additional_keys@.contains_key(index),
        ensures
            r == self.additional_keys@[index],
    {
        *self.additional_keys.get(&index).unwrap()
    }

    /// Adds the primary key of the next slot.
    pub fn push(&mut self, value: u64)
        requires
            old(self).wf(),
        ensures
            final(self).keys@ == old(self).keys@.push(value),
            final(self).used_keys@ == old(self).used_keys@.insert(value),
            final(self).additional_keys@ == old(self).additional_keys@,
            final(self).wf(),
    {
        self.keys.push(value);
        self.used_keys.insert(value);
        assert(self.keys@.to_set() =~= old(self).keys@.to_set().insert(value)) by {
            assert forall|x: u64| #[trigger] self.keys@.to_set().contains(x) <==> old(self).keys@.to_set().insert(value).contains(x) by {
                if x == value {
                    assert(self.keys@[self.keys@.len() - 1] == value);
                } else if old(self).keys@.contains(x) {
                    let i = choose|i: int| 0 <= i < old(self).keys@.len() && old(self).keys@[i] == x;
                    assert(self.keys@[i] == x);
                }
            }
        }
        assert(self.used_keys@ =~= self.keys@.to_set() + self.additional_keys@.values());
    }

    /// Sets the secondary key of slot `index`.
    pub fn insert_additional_key(&mut self, index: usize, value: u64)
        requires
            old(self).wf(),
            !old(self).additional_keys@.contains_key(index),
        ensures
            final(self).keys@ == old(self).keys@,
            final(self).additional_keys@ == old(self).additional_keys@.insert(index, value),
            final(self).used_keys@ == old(self).used_keys@.insert(value),
            final(self).wf(),
    {
        self.additional_keys.insert(index, value);
        self.used_keys.insert(value);
        assert(self.additional_keys@.values() =~= old(self).additional_keys@.values().insert(value)) by {
            assert(self.additional_keys@.contains_key(index) && self.additional_keys@[index] == value);
            assert(self.additional_keys@.values().contains(value));
            assert forall|x: u64| #[trigger] old(self).additional_keys@.values().contains(x) implies self.additional_keys@.values().contains(x) by {
                let k = choose|k: usize| old(self).additional_keys@.contains_key(k) && old(self).additional_keys@[k] == x;
                assert(self.additional_keys@.contains_key(k) && self.additional_keys@[k] == x);
            }
            assert forall|x: u64| #[trigger] self.additional_keys@.values().contains(x) implies old(self).additional_keys@.values().insert(value).contains(x) by {
                let k = choose|k: usize| self.additional_keys@.contains_key(k) && self.additional_keys@[k] == x;
                if k != index {
                    assert(old(self).additional_keys@.contains_key(k) && old(self).additional_keys@[k] == x);
                }
            }
        }
        assert(self.used_keys@ =~= self.keys@.to_set() + self.additional_keys@.values());
    }

    /// Whether `k` is already a key of this handler.
    pub fn contains(&self, k: u64) -> (r: bool)
        ensures
            r == self.used_keys@.contains(k),
    {
        self.used_keys.contains(&k)
    }

    /// Whether slot `index` has a secondary key.
    pub fn contains_additional_key(&self, index: usize) -> (r: bool)
        ensures
            r == self.additional_keys@.contains_key(index),
    {
        self.additional_keys.contains_key(&index)
    }

    /// Number of slots with a primary key.
    pub fn len(&self) -> (r: usize)
        ensures
            r == self.keys@.len(),
    {
        self.keys.len()
    }
}

/// The keys of every handler, by handler number.
pub struct MetaALUKeys(pub HashMap<usize, ALUKeys>);

impl MetaALUKeys {
    pub fn new() -> (r: MetaALUKeys)
        ensures
            r.0@ == Map::<usize, ALUKeys>::empty(),
    {
        MetaALUKeys(HashMap::new())
    }

    pub fn insert(&mut self, index: usize, keys: ALUKeys)
        ensures
            final(self).0@ == old(self).0@.insert(index, keys),
    {
        self.0.insert(index, keys);
    }

    pub fn get(&self, index: &usize) -> (r: Option<&ALUKeys>)
        ensures
            r matches Some(k) ==> self.0@.contains_key(*index) && *k == self.0@[*index],
            r is None ==> !self.0@.contains_key(*index),
    {
        self.0.get(index)
    }
}

} // verus!
