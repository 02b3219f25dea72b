use probed_table::table::HashMap;
use std::collections::hash_map::DefaultHasher;
use std::hash::{Hash, Hasher};

/// The home index that the standard hasher gives a string key under `capacity`.
fn home_of(key: &str, capacity: usize) -> usize {
    let mut state = DefaultHasher::new();
    key.hash(&mut state);
    (state.finish() % capacity as u64) as usize
}

/// The first `count` keys of the form `k<n>` whose home index under `capacity` is `home`.
fn keys_at(home: usize, capacity: usize, count: usize) -> Vec<String> {
    let mut keys = Vec::new();
    let mut n = 0u64;
    while keys.len() < count {
        let key = format!("k{}", n);
        if home_of(&key, capacity) == home {
            keys.push(key);
        }
        n += 1;
    }
    keys
}

/// The first `count` keys of the form `d<n>`, no two of which share a home index under
/// either of the two capacities.
fn spread_keys(count: usize, capacity: usize, doubled: usize) -> Vec<String> {
    let mut keys: Vec<String> = Vec::new();
    let mut n = 0u64;
    while keys.len() < count {
        let key = format!("d{}", n);
        let clash = keys.iter().any(|k| {
            home_of(k, capacity) == home_of(&key, capacity)
                || home_of(k, doubled) == home_of(&key, doubled)
        });
        if !clash && home_of(&key, capacity) < capacity {
            keys.push(key);
        }
        n += 1;
    }
    keys
}

#[test]
fn map_works() {
    let mut map = HashMap::new();
    assert_eq!(map.insert("foo", "bar"), None);
    assert_eq!(map.insert("foo", "lol"), Some("bar"));

    assert_eq!(map.get(&"foo"), Some(&"lol"));
    assert_eq!(map.get(&"foo"), Some(&"lol"));
    assert_eq!(map.get(&"qux"), None);

    assert_eq!(map.remove(&"foo"), Some("lol"));
    assert_eq!(map.get(&"foo"), None);
}

#[test]
fn new_table_has_sixteen_slots_and_no_entries() {
    let map: HashMap<u64, u64> = HashMap::new();
    assert_eq!(map.capacity(), 16);
    assert_eq!(map.size(), 0);
    assert_eq!(map.get(&1), None);
}

#[test]
fn with_capacity_sets_the_capacity() {
    let map: HashMap<String, u32> = HashMap::with_capacity(4);
    assert_eq!(map.capacity(), 4);
    assert_eq!(map.size(), 0);
}

#[test]
fn insert_then_lookup_finds_every_key() {
    let mut map = HashMap::new();
    for n in 0..200u64 {
        assert_eq!(map.insert(n, n * 3), None);
    }
    for n in 0..200u64 {
        assert_eq!(map.get(&n), Some(&(n * 3)));
    }
    assert_eq!(map.get(&200), None);
}

#[test]
fn insert_then_lookup_with_string_keys() {
    let mut map = HashMap::new();
    for n in 0..100u32 {
        assert_eq!(map.insert(format!("key-{}", n), n), None);
    }
    for n in 0..100u32 {
        assert_eq!(map.get(&format!("key-{}", n)), Some(&n));
    }
    assert_eq!(map.get(&String::from("key-100")), None);
}

#[test]
fn overwrite_returns_old_value_and_keeps_size() {
    let mut map = HashMap::new();
    assert_eq!(map.insert(String::from("a"), 1), None);
    assert_eq!(map.size(), 1);
    assert_eq!(map.insert(String::from("a"), 2), Some(1));
    assert_eq!(map.get(&String::from("a")), Some(&2));
    assert_eq!(map.size(), 1);
}

#[test]
fn size_counts_filled_slots() {
    let keys = spread_keys(5, 16, 32);
    let mut map = HashMap::new();
    for (n, key) in keys.iter().enumerate() {
        assert_eq!(map.size(), n);
        map.insert(key.clone(), n);
    }
    assert_eq!(map.size(), 5);
}

#[test]
fn remove_then_lookup_finds_nothing() {
    let mut map = HashMap::new();
    map.insert(7u64, "seven");
    map.insert(8u64, "eight");
    assert_eq!(map.remove(&7), Some("seven"));
    assert_eq!(map.get(&7), None);
    assert_eq!(map.remove(&7), None);
}

#[test]
fn remove_does_not_lower_the_size() {
    let mut map = HashMap::new();
    map.insert(String::from("x"), 1);
    assert_eq!(map.size(), 1);
    assert_eq!(map.remove(&String::from("x")), Some(1));
    assert_eq!(map.size(), 1);
    assert_eq!(map.capacity(), 16);
}

#[test]
fn remove_of_absent_key_changes_nothing() {
    let keys = spread_keys(4, 16, 32);
    let mut map = HashMap::new();
    for (n, key) in keys[..3].iter().enumerate() {
        map.insert(key.clone(), n);
    }
    assert_eq!(map.remove(&keys[3]), None);
    assert_eq!(map.size(), 3);
    assert_eq!(map.capacity(), 16);
    for (n, key) in keys[..3].iter().enumerate() {
        assert_eq!(map.get(key), Some(&n));
    }
}

#[test]
fn colliding_keys_are_both_found() {
    let keys = keys_at(3, 16, 2);
    let mut map = HashMap::new();
    assert_eq!(map.insert(keys[0].clone(), 10), None);
    assert_eq!(map.insert(keys[1].clone(), 20), None);
    assert_eq!(map.get(&keys[0]), Some(&10));
    assert_eq!(map.get(&keys[1]), Some(&20));
    assert_eq!(map.size(), 2);
}

#[test]
fn removal_leaves_no_marker_and_hides_the_colliding_key() {
    let keys = keys_at(3, 16, 2);
    let mut map = HashMap::new();
    map.insert(keys[0].clone(), 10);
    map.insert(keys[1].clone(), 20);
    assert_eq!(map.remove(&keys[0]), Some(10));
    assert_eq!(map.get(&keys[0]), None);
    // The second key sits one slot beyond the cleared one, where its scan no longer goes.
    assert_eq!(map.get(&keys[1]), None);
    // Filling the cleared slot again lets the scan pass, and the entry is back.
    assert_eq!(map.insert(keys[0].clone(), 11), None);
    assert_eq!(map.get(&keys[1]), Some(&20));
}

#[test]
fn removal_of_the_last_key_of_a_chain_hides_nothing() {
    let keys = keys_at(5, 16, 3);
    let mut map = HashMap::new();
    for (n, key) in keys.iter().enumerate() {
        map.insert(key.clone(), n);
    }
    assert_eq!(map.remove(&keys[2]), Some(2));
    assert_eq!(map.get(&keys[0]), Some(&0));
    assert_eq!(map.get(&keys[1]), Some(&1));
    assert_eq!(map.get(&keys[2]), None);
}

#[test]
fn scan_does_not_wrap_and_puts_the_entry_at_the_end() {
    let keys = keys_at(15, 16, 3);
    let mut map = HashMap::new();
    assert_eq!(map.insert(keys[0].clone(), 0), None);
    assert_eq!(map.size(), 1);
    // The last slot is taken, and slot 0 is never tried: the entries go to new slots at the
    // end, which the size does not count and the capacity does not show.
    assert_eq!(map.insert(keys[1].clone(), 1), None);
    assert_eq!(map.insert(keys[2].clone(), 2), None);
    assert_eq!(map.size(), 1);
    assert_eq!(map.capacity(), 16);
    assert_eq!(map.get(&keys[0]), Some(&0));
    assert_eq!(map.get(&keys[1]), Some(&1));
    assert_eq!(map.get(&keys[2]), Some(&2));
    assert_eq!(map.insert(keys[2].clone(), 22), Some(2));
    assert_eq!(map.get(&keys[2]), Some(&22));
}

#[test]
fn grows_when_nine_tenths_full() {
    let keys = spread_keys(16, 16, 32);
    let mut map = HashMap::new();
    for (n, key) in keys[..15].iter().enumerate() {
        assert_eq!(map.insert(key.clone(), n), None);
    }
    // Fourteen of sixteen is below nine tenths, so the fifteenth entry is placed without
    // growth; fifteen of sixteen is above, so the sixteenth doubles the capacity first.
    assert_eq!(map.size(), 15);
    assert_eq!(map.capacity(), 16);
    for (n, key) in keys[..15].iter().enumerate() {
        assert_eq!(map.get(key), Some(&n));
    }
    assert_eq!(map.insert(keys[15].clone(), 15), None);
    assert_eq!(map.capacity(), 32);
    assert_eq!(map.size(), 16);
    for (n, key) in keys.iter().enumerate() {
        assert_eq!(map.get(key), Some(&n));
    }
}

#[test]
fn growth_at_exactly_nine_tenths() {
    let keys = spread_keys(10, 10, 20);
    let mut map = HashMap::with_capacity(10);
    for (n, key) in keys[..9].iter().enumerate() {
        map.insert(key.clone(), n);
    }
    assert_eq!(map.capacity(), 10);
    assert_eq!(map.size(), 9);
    map.insert(keys[9].clone(), 9);
    assert_eq!(map.capacity(), 20);
    for (n, key) in keys.iter().enumerate() {
        assert_eq!(map.get(key), Some(&n));
    }
}

#[test]
fn growth_keeps_every_entry_of_a_long_run() {
    let mut map = HashMap::new();
    for n in 0..1000u64 {
        map.insert(n, n + 1);
    }
    // Entries that a scan put at the end are not counted, so the capacity may lag behind.
    assert!(map.capacity() >= 32);
    assert!(map.size() <= map.capacity());
    for n in 0..1000u64 {
        assert_eq!(map.get(&n), Some(&(n + 1)));
    }
}

#[test]
fn growth_rehashes_from_the_new_home_index() {
    // Two keys that share a home under sixteen slots and not under thirty-two.
    let mut pair = None;
    let mut n = 0u64;
    while pair.is_none() {
        let a = format!("r{}", n);
        let b = format!("r{}", n + 1);
        if home_of(&a, 16) == home_of(&b, 16) && home_of(&a, 32) != home_of(&b, 32) {
            pair = Some((a, b));
        }
        n += 1;
    }
    let (a, b) = pair.unwrap();
    let mut map = HashMap::new();
    map.insert(a.clone(), 1);
    map.insert(b.clone(), 2);
    assert_eq!(map.remove(&a), Some(1));
    // Under sixteen slots the second key is hidden behind the cleared slot.
    assert_eq!(map.get(&b), None);
    let mut n = 0u64;
    while map.capacity() == 16 {
        let key = format!("f{}", n);
        if home_of(&key, 16) != home_of(&a, 16) {
            map.insert(key, 0);
        }
        n += 1;
        assert!(n < 10_000);
    }
    assert_eq!(map.capacity(), 32);
    // After the rehash it is at a home of its own and is found again.
    assert_eq!(map.get(&b), Some(&2));
}

#[test]
fn string_keys_have_the_home_the_standard_hasher_gives() {
    let last = keys_at(15, 16, 2);
    let first = keys_at(0, 16, 1);
    let mut map: HashMap<&str, u8> = HashMap::new();
    map.insert(last[0].as_str(), 1);
    assert_eq!(map.size(), 1);
    // The second key has the last slot as its home too, so it goes to the end.
    map.insert(last[1].as_str(), 2);
    assert_eq!(map.size(), 1);
    // The third has the first slot as its home, which is empty.
    map.insert(first[0].as_str(), 3);
    assert_eq!(map.size(), 2);
    assert_eq!(map.get(&last[0].as_str()), Some(&1));
    assert_eq!(map.get(&last[1].as_str()), Some(&2));
    assert_eq!(map.get(&first[0].as_str()), Some(&3));

    let mut owned: HashMap<String, u8> = HashMap::new();
    owned.insert(last[0].clone(), 1);
    owned.insert(last[1].clone(), 2);
    assert_eq!(owned.size(), 1);
    owned.insert(first[0].clone(), 3);
    assert_eq!(owned.size(), 2);
}

#[test]
fn integer_keys_have_the_home_the_standard_hasher_gives() {
    let home = |key: u64| {
        let mut state = DefaultHasher::new();
        key.hash(&mut state);
        (state.finish() % 16) as usize
    };
    let last: Vec<u64> = (0..).filter(|k| home(*k) == 15).take(2).collect();
    let first: Vec<u64> = (0..).filter(|k| home(*k) == 0).take(1).collect();
    let mut map = HashMap::new();
    map.insert(last[0], 1);
    assert_eq!(map.size(), 1);
    map.insert(last[1], 2);
    assert_eq!(map.size(), 1);
    map.insert(first[0], 3);
    assert_eq!(map.size(), 2);
    assert_eq!(map.get(&last[0]), Some(&1));
    assert_eq!(map.get(&last[1]), Some(&2));
    assert_eq!(map.get(&first[0]), Some(&3));
}

#[test]
fn keys_are_told_apart_by_their_characters() {
    let keys = keys_at(7, 16, 2);
    let mut map = HashMap::new();
    assert_eq!(map.insert(keys[0].as_str(), 1), None);
    // Same home, other characters: a new entry, not an overwrite.
    assert_eq!(map.insert(keys[1].as_str(), 2), None);
    // Same characters in another buffer: the same key.
    let copy = keys[0].clone();
    assert_eq!(map.insert(copy.as_str(), 3), Some(1));
    assert_eq!(map.size(), 2);
}
