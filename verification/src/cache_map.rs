//! A bounded table of digests by timestamp that forgets its oldest entry
//! when it is full.

use crate::address::Timestamp;
use std::collections::HashMap;
use std::collections::VecDeque;
use vstd::prelude::*;

verus! {

broadcast use vstd::std_specs::hash::group_hash_axioms;

/// A table of at most `capacity` digests, each under its timestamp.
///
/// The timestamps are kept in the order in which they came in; when a new
/// one comes in and the table is full, the oldest leaves.
pub struct CacheMap {
    map: HashMap<Timestamp, Vec<u8>>,
    keys: VecDeque<Timestamp>,
    capacity: usize,
}

/// The order of the timestamps after `key` came in.
pub open spec fn order_after_insert(order: Seq<Timestamp>, capacity: nat, key: Timestamp) -> Seq<Timestamp> {
    if order.contains(key) {
        order
    } else if order.len() >= capacity {
        order.skip(1).push(key)
    } else {
        order.push(key)
    }
}

/// The entries after `value` came in under `key`.
pub open spec fn entries_after_insert(
    entries: Map<Timestamp, Seq<u8>>,
    order: Seq<Timestamp>,
    capacity: nat,
    key: Timestamp,
    value: Seq<u8>,
) -> Map<Timestamp, Seq<u8>> {
    if !order.contains(key) && order.len() >= capacity {
        entries.remove(order[0]).insert(key, value)
    } else {
        entries.insert(key, value)
    }
}

impl CacheMap {
    /// The timestamps in the table, oldest first.
    pub closed spec fn order(&self) -> Seq<Timestamp> {
        self.keys@
    }

    /// The digest under each timestamp in the table.
    pub closed spec fn entries(&self) -> Map<Timestamp, Seq<u8>> {
        Map::new(|k: Timestamp| self.map@.contains_key(k), |k: Timestamp| self.map@[k]@)
    }

    /// The number of entries that the table can hold.
    pub closed spec fn capacity(&self) -> nat {
        self.capacity as nat
    }

    /// The table holds each timestamp once, no more of them than its
    /// capacity, and a digest for each.
    pub closed spec fn wf(&self) -> bool {
        &&& self.capacity > 0
        &&& self.keys@.len() <= self.capacity
        &&& self.keys@.no_duplicates()
        &&& forall|k: Timestamp| self.map@.contains_key(k) <==> self.keys@.contains(k)
    }

    /// The timestamps with a digest are those in the order.
    pub proof fn lemma_domain(&self)
        requires
            self.wf(),
        ensures
            forall|k: Timestamp| self.entries().contains_key(k) <==> self.order().contains(k),
            self.order().no_duplicates(),
            self.order().len() <= self.capacity(),
            self.capacity() > 0,
    {
    }

    /// An empty table for at most `capacity` entries.
    pub fn with_capacity(capacity: usize) -> (cache: Self)
        requires
            capacity > 0,
        ensures
            cache.wf(),
            cache.capacity() == capacity,
            cache.order() == Seq::<Timestamp>::empty(),
            cache.entries() == Map::<Timestamp, Seq<u8>>::empty(),
    {
        let cache = CacheMap {
            map: HashMap::new(),
            keys: VecDeque::with_capacity(capacity),
            capacity,
        };
        assert(cache.entries() =~= Map::<Timestamp, Seq<u8>>::empty());
        cache
    }

    /// Whether the table has a digest under `key`.
    pub fn contains_key(&self, key: &Timestamp) -> (found: bool)
        requires
            self.wf(),
        ensures
            found == self.entries().contains_key(*key),
    {
        self.map.contains_key(key)
    }

    /// The digest under `key`, which the table must hold.
    pub fn get_unchecked(&self, key: &Timestamp) -> (value: &Vec<u8>)
        requires
            self.wf(),
            self.entries().contains_key(*key),
        ensures
            value@ == self.entries()[*key],
    {
        let found = self.map.get(key);
        assert(found is Some);
        found.unwrap()
    }

    /// The digest under `key`, if the table holds one.
    pub fn get(&self, key: &Timestamp) -> (value: Option<&Vec<u8>>)
        requires
            self.wf(),
        ensures
            match value {
                Some(v) => self.entries().contains_key(*key) && v@ == self.entries()[*key],
                None => !self.entries().contains_key(*key),
            },
    {
        self.map.get(key)
    }

    /// The number of entries in the table.
    pub fn len(&self) -> (count: usize)
        requires
            self.wf(),
        ensures
            count == self.order().len(),
    {
        self.keys.len()
    }

    /// Puts `value` under `key`. A key that the table holds keeps its place
    /// in the order and takes the new value. For a new key the oldest
    /// entry leaves first if the table is full.
    pub fn insert(&mut self, key: Timestamp, value: Vec<u8>)
        requires
            old(self).wf(),
        ensures
            final(self).wf(),
            final(self).capacity() == old(self).capacity(),
            final(self).order() == order_after_insert(old(self).order(), old(self).capacity(), key),
            final(self).entries() == entries_after_insert(
                old(self).entries(),
                old(self).order(),
                old(self).capacity(),
                key,
                value@,
            ),
    {
        if self.map.contains_key(&key) {
            self.map.insert(key, value);
            assert(self.entries() =~= old(self).entries().insert(key, value@));
            return ;
        }
        if self.keys.len() >= self.capacity {
            let oldest = self.keys.pop_front();
            let oldest = oldest.unwrap();
            assert(old(self).keys@.contains(oldest)) by {
                assert(old(self).keys@[0] == oldest);
            }
            self.map.remove(&oldest);
            proof {
                let before = old(self).keys@;
                let after = self.keys@;
                assert(after =~= before.skip(1));
                assert forall|k: Timestamp| self.map@.contains_key(k) <==> after.contains(k) by {
                    if after.contains(k) {
                        let i = choose|i: int| 0 <= i < after.len() && after[i] == k;
                        assert(before[i + 1] == k);
                        assert(before.contains(k));
                    }
                    if before.contains(k) && k != oldest {
                        let i = choose|i: int| 0 <= i < before.len() && before[i] == k;
                        assert(after[i - 1] == k);
                    }
                }
            }
        }
        let ghost middle_keys = self.keys@;
        self.keys.push_back(key);
        self.map.insert(key, value);
        proof {
            let after = self.keys@;
            assert(after =~= middle_keys.push(key));
            assert forall|k: Timestamp| self.map@.contains_key(k) <==> after.contains(k) by {
                if after.contains(k) {
                    let i = choose|i: int| 0 <= i < after.len() && after[i] == k;
                    if i < middle_keys.len() {
                        assert(middle_keys[i] == k);
                        assert(middle_keys.contains(k));
                    }
                }
                if middle_keys.contains(k) {
                    let i = choose|i: int| 0 <= i < middle_keys.len() && middle_keys[i] == k;
                    assert(after[i] == k);
                }
                if k == key {
                    assert(after[after.len() - 1] == k);
                }
            }
            assert(!middle_keys.contains(key));
            assert(after.no_duplicates()) by {
                assert forall|i: int, j: int|
                    0 <= i < after.len() && 0 <= j < after.len() && i != j implies after[i]
                    != after[j] by {
                    if i < middle_keys.len() && j < middle_keys.len() {
                        assert(middle_keys[i] != middle_keys[j]);
                    } else if i < middle_keys.len() {
                        assert(middle_keys.contains(middle_keys[i]));
                    } else {
                        assert(middle_keys.contains(middle_keys[j]));
                    }
                }
            }
            assert(self.entries() =~= entries_after_insert(
                old(self).entries(),
                old(self).order(),
                old(self).capacity(),
                key,
                value@,
            ));
        }
    }
}

} // verus!
