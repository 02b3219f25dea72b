//! The mathematics of the slot sequence: where a scan for a key stops, what a lookup
//! answers, and what placing an entry or rehashing a whole sequence yields.

use crate::key::Key;
use vstd::prelude::*;

verus! {

/// A slot is empty, or occupied by a key and its value.
pub type Slot<K, V> = Option<(K, V)>;

/// A scan for the key `id` stops at a slot that is empty or holds that key.
pub open spec fn stops<K: Key, V>(slot: Slot<K, V>, id: K::V) -> bool {
    match slot {
        None => true,
        Some((k, _)) => k@ == id,
    }
}

/// The key that identifies the entry of an occupied slot.
pub open spec fn key_of<K: Key, V>(slot: Slot<K, V>) -> K::V {
    let (k, _) = slot.unwrap();
    k@
}

/// The index at which a scan for `id` stops when it starts at `from` and moves forward one
/// slot at a time. It never wraps round: a scan that finds no stopping slot ends at
/// `slots.len()`.
pub open spec fn scan<K: Key, V>(slots: Seq<Slot<K, V>>, from: int, id: K::V) -> int
    decreases slots.len() - from,
{
    if from >= slots.len() {
        slots.len() as int
    } else if stops(slots[from], id) {
        from
    } else {
        scan(slots, from + 1, id)
    }
}

/// The home index of a key in a table of `capacity` slots.
pub open spec fn home<K: Key>(id: K::V, capacity: nat) -> int {
    (K::hash_code(id) as int) % (capacity as int)
}

/// What a lookup of `id` answers: the value in the slot at which the scan from the key's
/// home stops, if that slot is occupied.
pub open spec fn found<K: Key, V>(slots: Seq<Slot<K, V>>, capacity: nat, id: K::V) -> Option<V> {
    let i = scan(slots, home::<K>(id, capacity), id);
    if i < slots.len() {
        match slots[i] {
            Some((_, v)) => Some(v),
            None => None,
        }
    } else {
        None
    }
}

/// The slot sequence after `key` and `value` have been placed: in the slot at which the
/// scan from the key's home stops, or in a new slot at the end if the scan ran off the
/// sequence.
pub open spec fn placed<K: Key, V>(
    slots: Seq<Slot<K, V>>,
    capacity: nat,
    key: K,
    value: V,
) -> Seq<Slot<K, V>> {
    let i = scan(slots, home::<K>(key@, capacity), key@);
    if i < slots.len() {
        slots.update(i, Some((key, value)))
    } else {
        slots.push(Some((key, value)))
    }
}

/// A sequence of `n` empty slots.
pub open spec fn vacant<K, V>(n: nat) -> Seq<Slot<K, V>> {
    Seq::new(n, |i: int| None)
}

/// The first `n` slots of `old`, placed in order into an empty table of `capacity` slots.
pub open spec fn refilled<K: Key, V>(old: Seq<Slot<K, V>>, n: nat, capacity: nat) -> Seq<
    Slot<K, V>,
>
    decreases n,
{
    if n == 0 {
        vacant(capacity)
    } else {
        let before = refilled(old, (n - 1) as nat, capacity);
        match old[n - 1] {
            Some((k, v)) => placed(before, capacity, k, v),
            None => before,
        }
    }
}

/// A full rehash: every occupied slot of `old`, in order, placed into an empty table of
/// `capacity` slots.
pub open spec fn rehashed<K: Key, V>(old: Seq<Slot<K, V>>, capacity: nat) -> Seq<Slot<K, V>> {
    refilled(old, old.len(), capacity)
}

/// The slot sequence after the entry that a lookup of `id` finds has been cleared. No
/// marker is left behind: the slot is simply empty again.
pub open spec fn cleared<K: Key, V>(slots: Seq<Slot<K, V>>, capacity: nat, id: K::V) -> Seq<
    Slot<K, V>,
> {
    let i = scan(slots, home::<K>(id, capacity), id);
    if i < slots.len() {
        slots.update(i, None)
    } else {
        slots
    }
}

/// Every occupied slot is the one at which the scan for its own key stops. In such a
/// sequence no key occurs twice, and a lookup finds every entry.
pub open spec fn intact<K: Key, V>(slots: Seq<Slot<K, V>>, capacity: nat) -> bool {
    forall|i: int|
        0 <= i < slots.len() && (#[trigger] slots[i]) is Some ==> scan(
            slots,
            home::<K>(key_of(slots[i]), capacity),
            key_of(slots[i]),
        ) == i
}

/// Placing an entry never shortens the sequence, and lengthens it by at most one slot.
pub proof fn lemma_placed_len<K: Key, V>(slots: Seq<Slot<K, V>>, capacity: nat, key: K, value: V)
    requires
        1 <= capacity <= slots.len(),
    ensures
        slots.len() <= placed(slots, capacity, key, value).len() <= slots.len() + 1,
{
    lemma_scan(slots, home::<K>(key@, capacity), key@);
}

/// A refilled sequence has at least as many slots as the capacity it was made for.
pub proof fn lemma_refilled_len<K: Key, V>(old: Seq<Slot<K, V>>, n: nat, capacity: nat)
    requires
        capacity >= 1,
    ensures
        capacity <= refilled(old, n, capacity).len() <= capacity + n,
    decreases n,
{
    if n > 0 {
        let before = refilled(old, (n - 1) as nat, capacity);
        lemma_refilled_len(old, (n - 1) as nat, capacity);
        if let Some((k, v)) = old[n - 1] {
            lemma_placed_len(before, capacity, k, v);
        }
    }
}

/// Where a scan stops: nothing before that index stops it, and the slot at that index does,
/// unless the scan ran off the sequence.
pub proof fn lemma_scan<K: Key, V>(slots: Seq<Slot<K, V>>, from: int, id: K::V)
    requires
        0 <= from <= slots.len(),
    ensures
        from <= scan(slots, from, id) <= slots.len(),
        forall|j: int| from <= j < scan(slots, from, id) ==> !stops(#[trigger] slots[j], id),
        scan(slots, from, id) < slots.len() ==> stops(slots[scan(slots, from, id)], id),
    decreases slots.len() - from,
{
    if from < slots.len() && !stops(slots[from], id) {
        lemma_scan(slots, from + 1, id);
    }
}

/// An index with the properties of a stopping index is the index at which the scan stops.
pub proof fn lemma_scan_is<K: Key, V>(slots: Seq<Slot<K, V>>, from: int, id: K::V, at: int)
    requires
        0 <= from <= at <= slots.len(),
        forall|j: int| from <= j < at ==> !stops(#[trigger] slots[j], id),
        at < slots.len() ==> stops(slots[at], id),
    ensures
        scan(slots, from, id) == at,
    decreases at - from,
{
    if from < at {
        lemma_scan_is(slots, from + 1, id, at);
    }
}

} // verus!
