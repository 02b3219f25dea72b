//! The table: a flat sequence of slots, probed forward from a key's home index.

use crate::key::Key;
use crate::model::Model;
use crate::probing::{lemma_refilled_len, lemma_scan_is, refilled, scan, stops, vacant, Slot};
use vstd::prelude::*;

verus! {

/// How many slots a table begins with.
pub const INITIAL_BUCKET_COUNT: usize = 16;

/// An associative container with open addressing and linear probing.
///
/// A scan never wraps round the end of the slot sequence, and a removal leaves no marker
/// behind. Both are part of what the table does, and the contracts say so.
pub struct HashMap<K: Key, V> {
    slots: Vec<Slot<K, V>>,
    slot_count: usize,
    item_count: usize,
}

impl<K: Key, V> View for HashMap<K, V> {
    type V = Model<K, V>;

    closed spec fn view(&self) -> Model<K, V> {
        Model {
            slots: self.slots@,
            capacity: self.slot_count as nat,
            size: self.item_count as nat,
        }
    }
}

impl<K: Key, V> HashMap<K, V> {
    /// Makes an empty table of sixteen slots.
    pub fn new() -> (table: HashMap<K, V>)
        ensures
            table@ == Model::<K, V>::empty(INITIAL_BUCKET_COUNT as nat),
            table@.wf(),
            table@.intact(),
            table@.map() == Map::<K::V, V>::empty(),
    {
        proof {
            Model::<K, V>::lemma_empty(INITIAL_BUCKET_COUNT as nat);
        }
        HashMap {
            slots: Self::create_slots(INITIAL_BUCKET_COUNT),
            slot_count: INITIAL_BUCKET_COUNT,
            item_count: 0,
        }
    }

    /// Makes an empty table of `slot_count` slots. A table that is to hold anything needs at
    /// least one.
    pub fn with_capacity(slot_count: usize) -> (table: HashMap<K, V>)
        ensures
            table@ == Model::<K, V>::empty(slot_count as nat),
            slot_count >= 1 ==> {
                &&& table@.wf()
                &&& table@.intact()
                &&& table@.map() == Map::<K::V, V>::empty()
            },
    {
        proof {
            if slot_count >= 1 {
                Model::<K, V>::lemma_empty(slot_count as nat);
            }
        }
        HashMap { slots: Self::create_slots(slot_count), slot_count, item_count: 0 }
    }

    /// Places `value` under `key` and answers with the value that the key had before, if any.
    ///
    /// A table that is nine tenths full is first rehashed into twice the capacity. The scan
    /// then runs forward from the key's home index: a slot that holds the key gets the new
    /// value, an empty slot gets the entry and the size goes up by one, and where the scan
    /// runs off the sequence the entry is put in a new slot at the end.
    pub fn insert(&mut self, key: K, value: V) -> (r: Option<V>)
        requires
            old(self)@.wf(),
            old(self)@.overloaded() ==> 2 * old(self)@.capacity <= usize::MAX,
        ensures
            final(self)@ == old(self)@.insert(key, value),
            r == old(self)@.roomy().lookup(key@),
            final(self)@.wf(),
            final(self)@.lookup(key@) == Some(value),
            old(self)@.intact() ==> {
                &&& final(self)@.intact()
                &&& final(self)@.map() == old(self)@.map().insert(key@, value)
                &&& r == old(self)@.lookup(key@)
            },
    {
        proof {
            self@.lemma_insert_lookup(key, value);
            if self@.intact() {
                self@.lemma_insert_intact(key, value);
                self@.lemma_insert_map(key, value);
                self@.lemma_roomy(key@);
            }
        }
        if Self::at_max_load(self.item_count, self.slot_count) {
            self.resize();
        }
        let new_slot_index = self.slot_index(&key);
        let slot = self.slot_mut(new_slot_index, &key);
        match slot {
            Some(slot) => {
                let mut entry = Some((key, value));
                std::mem::swap(slot, &mut entry);
                match entry {
                    Some((_, v)) => Some(v),
                    None => {
                        self.item_count += 1;
                        None
                    },
                }
            },
            None => {
                self.slots.push(Some((key, value)));
                None
            },
        }
    }

    /// Looks `key` up: scans forward from its home index and answers with the value of the
    /// slot that holds the key, or with nothing if the scan meets an empty slot or the end of
    /// the sequence first.
    pub fn get(&self, key: &K) -> (r: Option<&V>)
        requires
            self@.wf(),
        ensures
            r == match self@.lookup(key@) {
                Some(v) => Some(&v),
                None => None,
            },
            r is Some <==> self@.map().contains_key(key@),
            r matches Some(v) ==> *v == self@.map()[key@],
    {
        let slot_index = self.slot_index(key);
        let slot = self.slot(slot_index, key)?;
        let (_, v) = slot.as_ref()?;
        Some(v)
    }

    /// Removes `key` and answers with its value, or with nothing if a lookup does not find
    /// it. The slot is left empty, and the size stays as it was.
    pub fn remove(&mut self, key: &K) -> (r: Option<V>)
        requires
            old(self)@.wf(),
        ensures
            final(self)@ == old(self)@.remove(key@),
            r == old(self)@.lookup(key@),
            final(self)@.wf(),
            final(self)@.lookup(key@) is None,
            r is None ==> final(self)@ == old(self)@,
            old(self)@.intact() && old(self)@.ends_chain(key@) ==> {
                &&& final(self)@.intact()
                &&& final(self)@.map() == old(self)@.map().remove(key@)
            },
    {
        proof {
            self@.lemma_remove_lookup(key@);
            if self@.lookup(key@) is None {
                self@.lemma_remove_absent(key@);
            }
            if self@.intact() && self@.ends_chain(key@) {
                self@.lemma_remove_map(key@);
            }
        }
        let slot_index = self.slot_index(key);
        let slot = self.slot_mut(slot_index, key)?;
        let (_, v) = slot.take()?;
        Some(v)
    }

    /// The capacity.
    pub fn capacity(&self) -> (c: usize)
        ensures
            c == self@.capacity,
    {
        self.slot_count
    }

    /// The size.
    pub fn size(&self) -> (n: usize)
        ensures
            n == self@.size,
    {
        self.item_count
    }

    /// Whether `item_count` entries in `slot_count` slots are a load of nine tenths or more.
    fn at_max_load(item_count: usize, slot_count: usize) -> (r: bool)
        ensures
            r == (10 * item_count >= 9 * slot_count),
    {
        10 * (item_count as u128) >= 9 * (slot_count as u128)
    }

    /// Doubles the capacity and rehashes: every entry, in the order of the old slots, is
    /// placed anew from the home index that its key has under the new capacity.
    fn resize(&mut self)
        requires
            old(self)@.wf(),
            2 * old(self)@.capacity <= usize::MAX,
        ensures
            final(self)@ == old(self)@.grown(),
            final(self)@.wf(),
    {
        self.slot_count *= 2;
        let mut old_slots = Self::create_slots(self.slot_count);
        std::mem::swap(&mut self.slots, &mut old_slots);
        let ghost capacity = self.slot_count as nat;
        for old_slot in it: old_slots.into_iter()
            invariant
                it.seq() == old(self).slots@,
                self.slot_count == capacity,
                capacity >= 1,
                capacity == 2 * old(self).slot_count,
                self.item_count == old(self).item_count,
                self.slots@ == refilled(old(self).slots@, it.index() as nat, capacity),
        {
            proof {
                lemma_refilled_len(old(self).slots@, it.index() as nat, capacity);
            }
            if let Some((key, value)) = old_slot {
                let slot_index = self.slot_index(&key);
                match self.slot_mut(slot_index, &key) {
                    Some(slot) => {
                        *slot = Some((key, value));
                    },
                    None => {
                        self.slots.push(Some((key, value)));
                    },
                }
            }
        }
        proof {
            lemma_refilled_len(old(self).slots@, old(self).slots@.len(), capacity);
        }
    }

    /// The slot at which a scan for `key` from `slot_index` stops, if there is one, to be
    /// written to: what the caller leaves in it is what the table holds there afterwards.
    fn slot_mut(&mut self, slot_index: usize, key: &K) -> (r: Option<&mut Slot<K, V>>)
        requires
            slot_index <= old(self)@.slots.len(),
        ensures
            match r {
                Some(slot) => {
                    let at = scan(old(self)@.slots, slot_index as int, key@);
                    &&& slot_index <= at < old(self)@.slots.len()
                    &&& *slot == old(self)@.slots[at]
                    &&& final(self)@.slots == old(self)@.slots.update(at, *final(slot))
                    &&& final(self)@.capacity == old(self)@.capacity
                    &&& final(self)@.size == old(self)@.size
                },
                None => {
                    &&& scan(old(self)@.slots, slot_index as int, key@) == old(self)@.slots.len()
                    &&& *final(self) == *old(self)
                },
            },
    {
        let at = Self::stop_index(&self.slots, slot_index, key);
        if at < self.slots.len() {
            Some(&mut self.slots[at])
        } else {
            None
        }
    }

    /// The slot at which a scan for `key` from `slot_index` stops, if there is one.
    fn slot(&self, slot_index: usize, key: &K) -> (r: Option<&Slot<K, V>>)
        requires
            slot_index <= self@.slots.len(),
        ensures
            match r {
                Some(slot) => {
                    &&& scan(self@.slots, slot_index as int, key@) < self@.slots.len()
                    &&& *slot == self@.slots[scan(self@.slots, slot_index as int, key@)]
                },
                None => scan(self@.slots, slot_index as int, key@) == self@.slots.len(),
            },
    {
        let at = Self::stop_index(&self.slots, slot_index, key);
        if at < self.slots.len() {
            Some(&self.slots[at])
        } else {
            None
        }
    }

    /// The index at which a scan for `key` from `from` stops.
    fn stop_index(slots: &Vec<Slot<K, V>>, from: usize, key: &K) -> (at: usize)
        requires
            from <= slots.len(),
        ensures
            at == scan(slots@, from as int, key@),
            from <= at <= slots.len(),
    {
        let mut at = from;
        while at < slots.len()
            invariant
                from <= at <= slots.len(),
                forall|j: int| from <= j < at ==> !stops(#[trigger] slots@[j], key@),
            decreases slots.len() - at,
        {
            let stop = match &slots[at] {
                Some((k, _)) => k.same(key),
                None => true,
            };
            if stop {
                proof {
                    lemma_scan_is(slots@, from as int, key@, at as int);
                }
                return at;
            }
            at += 1;
        }
        proof {
            lemma_scan_is(slots@, from as int, key@, at as int);
        }
        at
    }

    /// The home index of `key`: its hash code, reduced by the capacity.
    fn slot_index(&self, key: &K) -> (index: usize)
        requires
            self@.capacity >= 1,
        ensures
            index == self@.home(key@),
            index < self@.capacity,
    {
        let hash = key.digest();
        (hash % self.slot_count as u64) as usize
    }

    /// Makes `slot_count` empty slots.
    fn create_slots(slot_count: usize) -> (new_slots: Vec<Slot<K, V>>)
        ensures
            new_slots@ == vacant::<K, V>(slot_count as nat),
    {
        let mut new_slots = Vec::with_capacity(slot_count);
        for n in 0..slot_count
            invariant
                new_slots@ == vacant::<K, V>(n as nat),
        {
            new_slots.push(None);
        }
        new_slots
    }
}

} // verus!
