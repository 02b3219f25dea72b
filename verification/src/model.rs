//! What a table is, mathematically: its slots, its capacity and its size, and what each
//! operation makes of them.

use crate::key::Key;
use crate::probing::{
    cleared, found, home, intact, key_of, lemma_placed_len, lemma_refilled_len, lemma_scan,
    lemma_scan_is, placed, rehashed, scan, stops, vacant, Slot,
};
use crate::theory::{
    lemma_last_held_found, lemma_placed_found, lemma_placed_intact, lemma_placed_keeps,
    lemma_refilled_found, lemma_refilled_intact, lemma_vacant,
};
use vstd::prelude::*;

verus! {

/// The state of a table.
#[verifier::ext_equal]
pub struct Model<K, V> {
    /// The slot sequence. It is at least as long as the capacity, and longer by every entry
    /// that a scan put at the end.
    pub slots: Seq<Slot<K, V>>,
    /// The number that a hash code is reduced by to give a home index.
    pub capacity: nat,
    /// How many times an empty slot was filled. A removal does not lower it, and an entry
    /// put at the end does not raise it.
    pub size: nat,
}

impl<K: Key, V> Model<K, V> {
    /// A table of `capacity` empty slots.
    pub open spec fn empty(capacity: nat) -> Self {
        Model { slots: vacant(capacity), capacity, size: 0 }
    }

    /// The table has at least one slot, no fewer slots than its capacity, and a size that is
    /// at most its capacity.
    pub open spec fn wf(self) -> bool {
        &&& 1 <= self.capacity <= self.slots.len()
        &&& self.size <= self.capacity
    }

    /// Every entry is where a scan for its key stops: no key occurs twice, and a lookup finds
    /// every entry. Insertions keep a table so; a removal may break it.
    pub open spec fn intact(self) -> bool {
        intact(self.slots, self.capacity)
    }

    /// The home index of the key `id`.
    pub open spec fn home(self, id: K::V) -> int {
        home::<K>(id, self.capacity)
    }

    /// The index at which the scan for `id` stops.
    pub open spec fn stop(self, id: K::V) -> int {
        scan(self.slots, self.home(id), id)
    }

    /// What a lookup of `id` answers.
    pub open spec fn lookup(self, id: K::V) -> Option<V> {
        found(self.slots, self.capacity, id)
    }

    /// The table as a map: the keys that a lookup finds, each with the value it answers.
    pub open spec fn map(self) -> Map<K::V, V> {
        Map::new(|id: K::V| self.lookup(id) is Some, |id: K::V| self.lookup(id).unwrap())
    }

    /// The load has reached nine tenths.
    pub open spec fn overloaded(self) -> bool {
        10 * self.size >= 9 * self.capacity
    }

    /// The table rehashed into twice the capacity.
    pub open spec fn grown(self) -> Self {
        Model {
            slots: rehashed(self.slots, 2 * self.capacity),
            capacity: 2 * self.capacity,
            size: self.size,
        }
    }

    /// The table as an insertion finds it after its first step: grown if it was overloaded.
    pub open spec fn roomy(self) -> Self {
        if self.overloaded() {
            self.grown()
        } else {
            self
        }
    }

    /// The table after `key` and `value` have been placed, without any growth. The size
    /// goes up by one exactly when the entry fills an empty slot.
    pub open spec fn put(self, key: K, value: V) -> Self {
        let at = self.stop(key@);
        Model {
            slots: placed(self.slots, self.capacity, key, value),
            capacity: self.capacity,
            size: if at < self.slots.len() && self.slots[at] is None {
                self.size + 1
            } else {
                self.size
            },
        }
    }

    /// The table after an insertion.
    pub open spec fn insert(self, key: K, value: V) -> Self {
        self.roomy().put(key, value)
    }

    /// The table after a removal of `id`: the slot at which the scan stops is empty
    /// afterwards, and capacity and size are as before.
    pub open spec fn remove(self, id: K::V) -> Self {
        Model { slots: cleared(self.slots, self.capacity, id), ..self }
    }

    /// The table after the entries have been inserted one after the other.
    pub open spec fn insert_all(self, entries: Seq<(K, V)>) -> Self
        decreases entries.len(),
    {
        if entries.len() == 0 {
            self
        } else {
            let (key, value) = entries.last();
            self.insert_all(entries.drop_last()).insert(key, value)
        }
    }

    /// No two of the entries have the same key.
    pub open spec fn distinct_keys(entries: Seq<(K, V)>) -> bool {
        forall|i: int, j: int|
            0 <= i < j < entries.len() ==> entry_key(#[trigger] entries[i]) != entry_key(
                #[trigger] entries[j],
            )
    }

    /// No entry beyond the slot at which the scan for `id` stops has its home at or before
    /// that slot: clearing the slot cuts no other key's scan short.
    pub open spec fn ends_chain(self, id: K::V) -> bool {
        forall|j: int|
            self.stop(id) < j < self.slots.len() && (#[trigger] self.slots[j]) is Some
                ==> self.stop(id) < self.home(key_of(self.slots[j]))
    }

    /// An empty table is well formed and intact, and it is the empty map: a lookup finds
    /// nothing in it.
    pub proof fn lemma_empty(capacity: nat)
        requires
            capacity >= 1,
        ensures
            Self::empty(capacity).wf(),
            Self::empty(capacity).intact(),
            Self::empty(capacity).map() == Map::<K::V, V>::empty(),
    {
        assert forall|id: K::V| #[trigger] Self::empty(capacity).lookup(id) is None by {
            lemma_vacant::<K, V>(capacity, capacity, id);
        }
        lemma_vacant::<K, V>(capacity, capacity, arbitrary());
        assert(Self::empty(capacity).map() =~= Map::<K::V, V>::empty());
    }

    /// Growth doubles the capacity and leaves a well-formed, intact table that is no longer
    /// overloaded.
    pub proof fn lemma_grown(self)
        requires
            self.wf(),
        ensures
            self.grown().capacity == 2 * self.capacity,
            self.grown().size == self.size,
            self.grown().wf(),
            self.grown().intact(),
            !self.grown().overloaded(),
    {
        lemma_refilled_len(self.slots, self.slots.len(), 2 * self.capacity);
        lemma_refilled_intact(self.slots, self.slots.len(), 2 * self.capacity);
    }

    /// Growth of an intact table changes no lookup: every key that was found is found
    /// again, with its value, and no other is.
    pub proof fn lemma_grown_lookup(self, id: K::V)
        requires
            self.wf(),
            self.intact(),
        ensures
            self.grown().lookup(id) == self.lookup(id),
    {
        lemma_refilled_found(self.slots, self.slots.len(), 2 * self.capacity, id);
        lemma_last_held_found(self.slots, self.slots.len(), self.capacity, id);
        lemma_scan(self.slots, self.home(id), id);
    }

    /// The first step of an insertion leaves a well-formed table with room for one more
    /// entry, which is intact if the table was, and answers every lookup as before.
    pub proof fn lemma_roomy(self, id: K::V)
        requires
            self.wf(),
        ensures
            self.roomy().wf(),
            !self.roomy().overloaded(),
            self.intact() ==> self.roomy().intact() && self.roomy().lookup(id) == self.lookup(id),
    {
        if self.overloaded() {
            self.lemma_grown();
            if self.intact() {
                self.lemma_grown_lookup(id);
            }
        }
    }

    /// Placing an entry in a table with room keeps it well formed.
    pub proof fn lemma_put_wf(self, key: K, value: V)
        requires
            self.wf(),
            !self.overloaded(),
        ensures
            self.put(key, value).wf(),
    {
        lemma_placed_len(self.slots, self.capacity, key, value);
    }

    /// An insertion keeps the table well formed, and a lookup of the inserted key then
    /// answers with the inserted value.
    pub proof fn lemma_insert_lookup(self, key: K, value: V)
        requires
            self.wf(),
        ensures
            self.insert(key, value).wf(),
            self.insert(key, value).lookup(key@) == Some(value),
    {
        self.lemma_roomy(key@);
        self.roomy().lemma_put_wf(key, value);
        lemma_placed_found(self.roomy().slots, self.roomy().capacity, key, value);
    }

    /// An insertion into an intact table leaves it intact.
    pub proof fn lemma_insert_intact(self, key: K, value: V)
        requires
            self.wf(),
            self.intact(),
        ensures
            self.insert(key, value).intact(),
    {
        self.lemma_roomy(key@);
        lemma_placed_intact(self.roomy().slots, self.roomy().capacity, key, value);
    }

    /// An insertion into an intact table changes the lookup of no other key, whether or
    /// not the table grows on the way.
    pub proof fn lemma_insert_keeps(self, key: K, value: V, id: K::V)
        requires
            self.wf(),
            self.intact(),
            id != key@,
        ensures
            self.insert(key, value).lookup(id) == self.lookup(id),
    {
        self.lemma_roomy(id);
        lemma_placed_keeps(self.roomy().slots, self.roomy().capacity, key, value, id);
    }

    /// On an intact table an insertion is the insertion into the map.
    pub proof fn lemma_insert_map(self, key: K, value: V)
        requires
            self.wf(),
            self.intact(),
        ensures
            self.insert(key, value).map() == self.map().insert(key@, value),
    {
        self.lemma_insert_lookup(key, value);
        assert forall|id: K::V| id != key@ implies #[trigger] self.insert(key, value).lookup(id)
            == self.lookup(id) by {
            self.lemma_insert_keeps(key, value, id);
        }
        assert(self.insert(key, value).map() =~= self.map().insert(key@, value));
    }

    /// Inserting entries one after the other keeps a well-formed, intact table so.
    pub proof fn lemma_insert_all_intact(self, entries: Seq<(K, V)>)
        requires
            self.wf(),
            self.intact(),
        ensures
            self.insert_all(entries).wf(),
            self.insert_all(entries).intact(),
        decreases entries.len(),
    {
        if entries.len() > 0 {
            let (key, value) = entries.last();
            let before = self.insert_all(entries.drop_last());
            self.lemma_insert_all_intact(entries.drop_last());
            before.lemma_insert_lookup(key, value);
            before.lemma_insert_intact(key, value);
        }
    }

    /// Insert, then look up: after entries with distinct keys have been inserted into an
    /// intact table one after the other, a lookup of each key answers with the value that
    /// was inserted with it.
    pub proof fn lemma_insert_all_lookup(self, entries: Seq<(K, V)>, i: int)
        requires
            self.wf(),
            self.intact(),
            Self::distinct_keys(entries),
            0 <= i < entries.len(),
        ensures
            self.insert_all(entries).lookup(entry_key(entries[i])) == Some(entries[i].1),
        decreases entries.len(),
    {
        let (key, value) = entries.last();
        let earlier = entries.drop_last();
        let before = self.insert_all(earlier);
        self.lemma_insert_all_intact(earlier);
        if i == entries.len() - 1 {
            before.lemma_insert_lookup(key, value);
        } else {
            assert(earlier[i] == entries[i]);
            assert forall|a: int, b: int| 0 <= a < b < earlier.len() implies entry_key(
                #[trigger] earlier[a],
            ) != entry_key(#[trigger] earlier[b]) by {
                assert(earlier[a] == entries[a] && earlier[b] == entries[b]);
            }
            self.lemma_insert_all_lookup(earlier, i);
            assert(entry_key(entries[i]) != entry_key(entries[entries.len() - 1]));
            before.lemma_insert_keeps(key, value, entry_key(entries[i]));
        }
    }

    /// Overwriting: when a key is inserted into an intact table and then inserted again,
    /// the second insertion answers with the first value, a lookup then answers with the
    /// second, and the size is what it was after the first insertion.
    pub proof fn lemma_insert_twice(self, key: K, first: V, again: K, second: V)
        requires
            self.wf(),
            self.intact(),
            again@ == key@,
        ensures
            self.insert(key, first).roomy().lookup(again@) == Some(first),
            self.insert(key, first).insert(again, second).lookup(key@) == Some(second),
            self.insert(key, first).insert(again, second).size == self.insert(key, first).size,
    {
        let once = self.insert(key, first);
        self.lemma_insert_lookup(key, first);
        self.lemma_insert_intact(key, first);
        once.lemma_roomy(key@);
        once.lemma_insert_lookup(again, second);
        lemma_scan(once.roomy().slots, once.roomy().home(key@), key@);
    }

    /// Growth on insertion: an insertion into an overloaded table doubles the capacity, and
    /// if the table was intact, every key that was found before is found afterwards with
    /// the same value.
    pub proof fn lemma_insert_grows(self, key: K, value: V, id: K::V)
        requires
            self.wf(),
            self.overloaded(),
        ensures
            self.insert(key, value).capacity == 2 * self.capacity,
            self.insert(key, value).intact(),
            self.intact() && id != key@ ==> self.insert(key, value).lookup(id) == self.lookup(id),
    {
        self.lemma_grown();
        lemma_placed_intact(self.grown().slots, self.grown().capacity, key, value);
        if self.intact() && id != key@ {
            self.lemma_insert_keeps(key, value, id);
        }
    }

    /// Remove, then look up: after a removal a lookup of the removed key finds nothing,
    /// whatever else the table holds.
    pub proof fn lemma_remove_lookup(self, id: K::V)
        requires
            self.wf(),
        ensures
            self.remove(id).wf(),
            self.remove(id).lookup(id) is None,
    {
        let at = self.stop(id);
        lemma_scan(self.slots, self.home(id), id);
        let after = self.remove(id).slots;
        assert forall|j: int| self.home(id) <= j < at implies !stops(#[trigger] after[j], id) by {
            assert(after[j] == self.slots[j]);
        }
        lemma_scan_is(after, self.home(id), id, at);
    }

    /// A removal changes the lookup of no other key whose scan does not pass the cleared
    /// slot.
    pub proof fn lemma_remove_keeps(self, id: K::V, other: K::V)
        requires
            self.wf(),
            other != id,
            !(self.home(other) <= self.stop(id) < self.stop(other)),
        ensures
            self.remove(id).lookup(other) == self.lookup(other),
    {
        let at = self.stop(id);
        let to = self.stop(other);
        lemma_scan(self.slots, self.home(id), id);
        lemma_scan(self.slots, self.home(other), other);
        let after = self.remove(id).slots;
        assert forall|j: int| self.home(other) <= j < to implies !stops(
            #[trigger] after[j],
            other,
        ) by {
            assert(after[j] == self.slots[j]);
        }
        if to < self.slots.len() && to != at {
            assert(after[to] == self.slots[to]);
        }
        lemma_scan_is(after, self.home(other), other, to);
    }

    /// The broken chain: a removal that finds its key hides every other key whose scan
    /// passes the cleared slot. The entry stays in its slot, and a lookup no longer
    /// reaches it.
    pub proof fn lemma_remove_breaks(self, id: K::V, other: K::V)
        requires
            self.wf(),
            self.lookup(id) is Some,
            self.home(other) <= self.stop(id) < self.stop(other),
        ensures
            self.remove(id).lookup(other) is None,
    {
        let at = self.stop(id);
        lemma_scan(self.slots, self.home(id), id);
        lemma_scan(self.slots, self.home(other), other);
        let after = self.remove(id).slots;
        assert forall|j: int| self.home(other) <= j < at implies !stops(
            #[trigger] after[j],
            other,
        ) by {
            assert(after[j] == self.slots[j]);
        }
        lemma_scan_is(after, self.home(other), other, at);
    }

    /// A removal from an intact table that cuts no other key's scan short leaves the table
    /// intact, and is the removal from the map.
    pub proof fn lemma_remove_map(self, id: K::V)
        requires
            self.wf(),
            self.intact(),
            self.ends_chain(id),
        ensures
            self.remove(id).intact(),
            self.remove(id).map() == self.map().remove(id),
    {
        let at = self.stop(id);
        let after = self.remove(id).slots;
        lemma_scan(self.slots, self.home(id), id);
        self.lemma_remove_lookup(id);
        assert forall|other: K::V| other != id implies #[trigger] self.remove(id).lookup(other)
            == self.lookup(other) by {
            let to = self.stop(other);
            lemma_scan(self.slots, self.home(other), other);
            if self.home(other) <= at < to {
                if to < self.slots.len() {
                    assert(stops(self.slots[to], other));
                    if self.slots[to] is Some {
                        assert(key_of(self.slots[to]) == other);
                    } else {
                        self.lemma_remove_breaks_nothing(id, other);
                    }
                } else {
                    self.lemma_remove_breaks_nothing(id, other);
                }
            } else {
                self.lemma_remove_keeps(id, other);
            }
        }
        assert(self.remove(id).map() =~= self.map().remove(id));
        assert forall|i: int| 0 <= i < after.len() && (#[trigger] after[i]) is Some implies scan(
            after,
            home::<K>(key_of(after[i]), self.capacity),
            key_of(after[i]),
        ) == i by {
            assert(after[i] == self.slots[i]);
            let other = key_of(self.slots[i]);
            assert(self.stop(other) == i);
            lemma_scan(self.slots, self.home(other), other);
            assert forall|j: int| self.home(other) <= j < i implies !stops(
                #[trigger] after[j],
                other,
            ) by {
                if j == at {
                    assert(at < i);
                } else {
                    assert(after[j] == self.slots[j]);
                }
            }
            lemma_scan_is(after, self.home(other), other, i);
        }
    }

    /// A key that a lookup did not find is not found after a removal of another key
    /// either, if the sequence holds no entry for it.
    proof fn lemma_remove_breaks_nothing(self, id: K::V, other: K::V)
        requires
            self.wf(),
            self.intact(),
            other != id,
            self.lookup(other) is None,
        ensures
            self.remove(id).lookup(other) is None,
    {
        let after = self.remove(id).slots;
        lemma_scan(self.slots, self.home(id), id);
        lemma_scan(self.slots, self.home(other), other);
        lemma_scan(after, self.home(other), other);
        let next = scan(after, self.home(other), other);
        if next < after.len() && after[next] is Some {
            assert(after[next] == self.slots[next]);
            assert(key_of(self.slots[next]) == other);
        }
    }

    /// Removing a key that a lookup does not find changes nothing: no slot, not the size,
    /// not the capacity.
    pub proof fn lemma_remove_absent(self, id: K::V)
        requires
            self.wf(),
            self.lookup(id) is None,
        ensures
            self.remove(id) == self,
    {
        lemma_scan(self.slots, self.home(id), id);
        assert(self.remove(id).slots =~= self.slots);
    }
}

/// The key that identifies an entry.
pub open spec fn entry_key<K: Key, V>(entry: (K, V)) -> K::V {
    let (key, _) = entry;
    key@
}

} // verus!
