//! What follows from the definitions of scanning, placing and rehashing.

use crate::key::Key;
use crate::probing::{
    found, home, intact, key_of, lemma_placed_len, lemma_refilled_len, lemma_scan, lemma_scan_is,
    placed, refilled, scan, stops, vacant, Slot,
};
use vstd::prelude::*;

verus! {

/// A lookup of a key that was just placed finds the value placed with it.
pub proof fn lemma_placed_found<K: Key, V>(
    slots: Seq<Slot<K, V>>,
    capacity: nat,
    key: K,
    value: V,
)
    requires
        1 <= capacity <= slots.len(),
    ensures
        scan(
            placed(slots, capacity, key, value),
            home::<K>(key@, capacity),
            key@,
        ) == scan(slots, home::<K>(key@, capacity), key@),
        found(placed(slots, capacity, key, value), capacity, key@) == Some(value),
{
    let from = home::<K>(key@, capacity);
    let at = scan(slots, from, key@);
    let after = placed(slots, capacity, key, value);
    lemma_scan(slots, from, key@);
    assert forall|j: int| from <= j < at implies !stops(#[trigger] after[j], key@) by {
        assert(after[j] == slots[j]);
    }
    lemma_scan_is(after, from, key@, at);
}

/// Placing an entry leaves the scan for another key where it was, if that scan did not stop
/// at the slot that takes the entry.
proof fn lemma_placed_scan_kept<K: Key, V>(
    slots: Seq<Slot<K, V>>,
    capacity: nat,
    key: K,
    value: V,
    id: K::V,
)
    requires
        1 <= capacity <= slots.len(),
        id != key@,
        scan(slots, home::<K>(id, capacity), id) != scan(slots, home::<K>(key@, capacity), key@),
    ensures
        scan(placed(slots, capacity, key, value), home::<K>(id, capacity), id) == scan(
            slots,
            home::<K>(id, capacity),
            id,
        ),
{
    let from = home::<K>(id, capacity);
    let to = scan(slots, from, id);
    let at = scan(slots, home::<K>(key@, capacity), key@);
    let after = placed(slots, capacity, key, value);
    lemma_scan(slots, from, id);
    lemma_scan(slots, home::<K>(key@, capacity), key@);
    assert forall|j: int| from <= j < to implies !stops(#[trigger] after[j], id) by {
        if j != at {
            assert(after[j] == slots[j]);
        } else {
            assert(!stops(slots[j], id));
            assert(stops(slots[at], key@));
        }
    }
    if to < slots.len() {
        assert(after[to] == slots[to]);
    }
    lemma_scan_is(after, from, id, to);
}

/// Placing an entry in an intact sequence changes no other key's lookup.
pub proof fn lemma_placed_keeps<K: Key, V>(
    slots: Seq<Slot<K, V>>,
    capacity: nat,
    key: K,
    value: V,
    id: K::V,
)
    requires
        1 <= capacity <= slots.len(),
        intact(slots, capacity),
        id != key@,
    ensures
        found(placed(slots, capacity, key, value), capacity, id) == found(slots, capacity, id),
{
    let from = home::<K>(id, capacity);
    let to = scan(slots, from, id);
    let at = scan(slots, home::<K>(key@, capacity), key@);
    let after = placed(slots, capacity, key, value);
    lemma_scan(slots, from, id);
    lemma_scan(slots, home::<K>(key@, capacity), key@);
    if to != at {
        lemma_placed_scan_kept(slots, capacity, key, value, id);
        if to < slots.len() {
            assert(after[to] == slots[to]);
        }
    } else {
        // The scan for `id` stopped at the slot that now holds `key`: it was empty, or both
        // scans ran off the sequence. An entry for `id` further on would have stopped its own
        // scan there, which it did not.
        lemma_placed_len(slots, capacity, key, value);
        lemma_scan(after, from, id);
        let next = scan(after, from, id);
        if next < after.len() && after[next] is Some {
            assert(next != at);
            assert(after[next] == slots[next]);
            assert(slots[next] is Some);
            assert(key_of(slots[next]) == id);
        }
    }
}

/// Placing an entry keeps an intact sequence intact.
pub proof fn lemma_placed_intact<K: Key, V>(
    slots: Seq<Slot<K, V>>,
    capacity: nat,
    key: K,
    value: V,
)
    requires
        1 <= capacity <= slots.len(),
        intact(slots, capacity),
    ensures
        intact(placed(slots, capacity, key, value), capacity),
{
    let at = scan(slots, home::<K>(key@, capacity), key@);
    let after = placed(slots, capacity, key, value);
    lemma_scan(slots, home::<K>(key@, capacity), key@);
    lemma_placed_found(slots, capacity, key, value);
    assert forall|i: int| 0 <= i < after.len() && (#[trigger] after[i]) is Some implies scan(
        after,
        home::<K>(key_of(after[i]), capacity),
        key_of(after[i]),
    ) == i by {
        if i != at {
            assert(after[i] == slots[i]);
            let id = key_of(slots[i]);
            assert(scan(slots, home::<K>(id, capacity), id) == i);
            lemma_placed_scan_kept(slots, capacity, key, value, id);
        }
    }
}

/// A sequence of empty slots is intact, and a lookup finds nothing in it.
pub proof fn lemma_vacant<K: Key, V>(n: nat, capacity: nat, id: K::V)
    requires
        capacity >= 1,
    ensures
        intact(vacant::<K, V>(n), capacity),
        found(vacant::<K, V>(n), capacity, id) is None,
{
    if home::<K>(id, capacity) <= n {
        lemma_scan(vacant::<K, V>(n), home::<K>(id, capacity), id);
    }
}

/// What a rehash leaves is intact, whatever went into it.
pub proof fn lemma_refilled_intact<K: Key, V>(old: Seq<Slot<K, V>>, n: nat, capacity: nat)
    requires
        capacity >= 1,
    ensures
        intact(refilled(old, n, capacity), capacity),
    decreases n,
{
    if n > 0 {
        let before = refilled(old, (n - 1) as nat, capacity);
        lemma_refilled_intact(old, (n - 1) as nat, capacity);
        lemma_refilled_len(old, (n - 1) as nat, capacity);
        if let Some((k, v)) = old[n - 1] {
            lemma_placed_intact(before, capacity, k, v);
        }
    }
}

/// The value of the last entry for `id` among the first `n` slots.
pub open spec fn last_held<K: Key, V>(slots: Seq<Slot<K, V>>, n: nat, id: K::V) -> Option<V>
    decreases n,
{
    if n == 0 {
        None
    } else {
        match slots[n - 1] {
            Some((k, v)) => if k@ == id {
                Some(v)
            } else {
                last_held(slots, (n - 1) as nat, id)
            },
            None => last_held(slots, (n - 1) as nat, id),
        }
    }
}

/// After a rehash a lookup answers with the last entry that the old sequence held for the
/// key, in the order of its slots.
pub proof fn lemma_refilled_found<K: Key, V>(
    old: Seq<Slot<K, V>>,
    n: nat,
    capacity: nat,
    id: K::V,
)
    requires
        capacity >= 1,
        n <= old.len(),
    ensures
        found(refilled(old, n, capacity), capacity, id) == last_held(old, n, id),
    decreases n,
{
    if n == 0 {
        lemma_vacant::<K, V>(capacity, capacity, id);
    } else {
        let before = refilled(old, (n - 1) as nat, capacity);
        lemma_refilled_found(old, (n - 1) as nat, capacity, id);
        lemma_refilled_intact(old, (n - 1) as nat, capacity);
        lemma_refilled_len(old, (n - 1) as nat, capacity);
        if let Some((k, v)) = old[n - 1] {
            if k@ == id {
                lemma_placed_found(before, capacity, k, v);
            } else {
                lemma_placed_keeps(before, capacity, k, v, id);
            }
        }
    }
}

/// In an intact sequence the last entry for a key is its only one: the one a lookup finds.
pub proof fn lemma_last_held_found<K: Key, V>(
    slots: Seq<Slot<K, V>>,
    n: nat,
    capacity: nat,
    id: K::V,
)
    requires
        1 <= capacity <= slots.len(),
        intact(slots, capacity),
        n <= slots.len(),
    ensures
        last_held(slots, n, id) == if scan(slots, home::<K>(id, capacity), id) < n {
            found(slots, capacity, id)
        } else {
            None
        },
    decreases n,
{
    lemma_scan(slots, home::<K>(id, capacity), id);
    if n > 0 {
        lemma_last_held_found(slots, (n - 1) as nat, capacity, id);
        let at = scan(slots, home::<K>(id, capacity), id);
        if slots[n - 1] is Some && key_of(slots[n - 1]) == id {
            assert(at == n - 1);
        } else if at == n - 1 {
            assert(stops(slots[at], id));
        }
    }
}

/// In an intact sequence no two slots hold the same key.
pub proof fn lemma_intact_distinct<K: Key, V>(
    slots: Seq<Slot<K, V>>,
    capacity: nat,
    i: int,
    j: int,
)
    requires
        intact(slots, capacity),
        0 <= i < j < slots.len(),
        slots[i] is Some,
        slots[j] is Some,
    ensures
        key_of(slots[i]) != key_of(slots[j]),
{
}

/// In an intact sequence a lookup finds every entry.
pub proof fn lemma_intact_found<K: Key, V>(slots: Seq<Slot<K, V>>, capacity: nat, i: int)
    requires
        intact(slots, capacity),
        0 <= i < slots.len(),
        slots[i] is Some,
    ensures
        found(slots, capacity, key_of(slots[i])) == Some(slots[i].unwrap().1),
{
}

} // verus!
