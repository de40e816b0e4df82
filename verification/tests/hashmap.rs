use poirot::{ConcurrentHashMap, HashConfig};

#[test]
fn hashmap_mutate() {
    let mut poirot_map = ConcurrentHashMap::new();

    for x in 0..8 {
        poirot_map.insert(x, 0);
    }

    for x in 0..8 * 1024u64 {
        let entry = poirot_map.get_mut(x % 8).unwrap();
        *entry += 1;
    }

    for x in 0..8 {
        assert_eq!(poirot_map.get(x).unwrap(), 1024);
    }
}

#[test]
fn hashmap_insert_fresh_returns_none() {
    let mut map = ConcurrentHashMap::new();
    let keys = [0u64, 1, 5, 17, 1024, u64::MAX, 77, 3];
    for (i, k) in keys.iter().enumerate() {
        assert_eq!(map.insert(*k, i as u64), None);
    }
}

#[test]
fn hashmap_insert_same_key_returns_previous() {
    let mut map = ConcurrentHashMap::new();
    assert_eq!(map.insert(42, 7), None);
    assert_eq!(map.insert(42, 8), Some(7));
    assert_eq!(map.insert(42, 9), Some(8));
    assert_eq!(map.get(42), Some(9));
}

#[test]
fn hashmap_contains_after_insert() {
    let mut map = ConcurrentHashMap::new();
    let keys = [3u64, 9, 9, 14, 250, 1 << 60];
    for k in keys.iter() {
        map.insert(*k, *k);
        assert!(map.contains(*k));
    }
    for k in keys.iter() {
        assert!(map.contains(*k));
    }
    assert!(!map.contains(4));
}

#[test]
fn hashmap_remove_then_absent() {
    let mut map = ConcurrentHashMap::new();
    for k in 0..32u64 {
        map.insert(k, 2 * k);
    }
    assert_eq!(map.remove(11), Some(22));
    assert_eq!(map.remove(11), None);
    assert!(!map.contains(11));
    assert_eq!(map.get(11), None);
    assert!(map.contains(10));
    assert_eq!(map.get(12), Some(24));
}

#[test]
fn hashmap_get_missing_is_none() {
    let map = ConcurrentHashMap::new();
    assert_eq!(map.get(123), None);
    assert!(!map.contains(123));
}

#[test]
fn hashmap_get_mut_missing_is_none() {
    let mut map = ConcurrentHashMap::new();
    map.insert(1, 10);
    assert!(map.get_mut(2).is_none());
    let v = map.get_mut(1).unwrap();
    *v = 99;
    assert_eq!(map.get(1), Some(99));
}

#[test]
fn hashmap_insert_or_update_counts_every_call() {
    let mut map = ConcurrentHashMap::new();
    let total = 100u64;
    for _ in 0..total {
        map.insert_or_update(5, || 0, |v| v + 1);
    }
    // the first call stores 0, each further call adds exactly 1
    assert_eq!(map.get(5), Some(total - 1));
}

#[test]
fn hashmap_insert_or_update_runs_make_once() {
    let mut map = ConcurrentHashMap::new();
    map.insert_or_update(9, || 41, |v| v + 1);
    assert_eq!(map.get(9), Some(41));
    map.insert_or_update(9, || 41, |v| v + 1);
    assert_eq!(map.get(9), Some(42));
}

#[test]
fn hashmap_drain_yields_each_pair_once() {
    let mut map = ConcurrentHashMap::new();
    for k in 0..100u64 {
        map.insert(k, 1000 + k);
    }
    map.insert(50, 9999);
    let mut iter = map.into_iter();
    let mut drained: Vec<(u64, u64)> = Vec::new();
    while let Some(p) = iter.next() {
        drained.push(p);
    }
    drained.sort();
    let expected: Vec<(u64, u64)> = (0..100u64)
        .map(|k| (k, if k == 50 { 9999 } else { 1000 + k }))
        .collect();
    assert_eq!(drained, expected);
}

#[test]
fn hashmap_with_options_degenerate_inputs() {
    let mut map = ConcurrentHashMap::with_options(0, HashConfig::default(), 0);
    assert_eq!(map.insert(3, 4), None);
    assert_eq!(map.get(3), Some(4));

    let mut one = ConcurrentHashMap::with_options(1, HashConfig::new(12345), 1);
    one.insert(u64::MAX, 1);
    one.insert(0, 2);
    assert_eq!(one.get(u64::MAX), Some(1));
    assert_eq!(one.get(0), Some(2));
}

#[test]
fn hashmap_custom_seed_still_finds_keys() {
    let mut map = ConcurrentHashMap::with_options(64, HashConfig::new(0xDEAD_BEEF), 8);
    for k in 0..200u64 {
        map.insert(k, k * k % 97);
    }
    for k in 0..200u64 {
        assert_eq!(map.get(k), Some(k * k % 97));
    }
}

#[test]
fn hashmap_default_matches_new() {
    let mut a: ConcurrentHashMap = Default::default();
    a.insert(1, 2);
    assert_eq!(a.get(1), Some(2));
}

#[test]
fn hash_config_is_deterministic_and_mixes() {
    let c = HashConfig::default();
    assert_eq!(c.hash(7), c.hash(7));
    // the digest is not the key handed back unchanged
    let mut changed = false;
    for k in 0..16u64 {
        if c.hash(k) != k {
            changed = true;
        }
    }
    assert!(changed);
    // different seeds give different digests somewhere
    let d = HashConfig::new(1);
    let e = HashConfig::new(2);
    let mut differ = false;
    for k in 0..16u64 {
        if d.hash(k) != e.hash(k) {
            differ = true;
        }
    }
    assert!(differ);
}

#[test]
fn hashmap_iterator_exhausts_to_none() {
    let mut map = ConcurrentHashMap::new();
    map.insert(1, 1);
    let mut iter = map.into_iter();
    assert_eq!(iter.next(), Some((1, 1)));
    assert_eq!(iter.next(), None);
    assert_eq!(iter.next(), None);
}
