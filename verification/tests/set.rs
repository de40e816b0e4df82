use poirot::{ConcurrentHashSet, HashConfig};

#[test]
fn set_from_list_contains_exactly_its_members() {
    let mut set = ConcurrentHashSet::new();
    for k in [1u64, 2, 2, 3] {
        set.insert(k);
    }
    assert!(set.contains(1));
    assert!(set.contains(2));
    assert!(set.contains(3));
    assert!(!set.contains(0));
    assert!(!set.contains(4));

    // a duplicate is reported as already present, a fresh key as new
    assert!(!set.insert(2));
    assert!(set.insert(4));

    let mut iter = set.into_iter();
    let mut keys: Vec<u64> = Vec::new();
    while let Some(k) = iter.next() {
        keys.push(k);
    }
    keys.sort();
    assert_eq!(keys, vec![1, 2, 3, 4]);
}

#[test]
fn set_remove_reports_presence() {
    let mut set = ConcurrentHashSet::with_capacity(16);
    assert!(set.insert(10));
    assert!(set.remove(10));
    assert!(!set.remove(10));
    assert!(!set.contains(10));
}

#[test]
fn set_constructors_share_semantics() {
    let mut a = ConcurrentHashSet::with_capacity_and_concurrency_level(0, 0);
    assert!(a.insert(5));
    assert!(a.contains(5));

    let mut b = ConcurrentHashSet::with_capacity_and_hasher(8, HashConfig::new(99));
    assert!(b.insert(5));
    assert!(!b.insert(5));

    let mut c = ConcurrentHashSet::with_options(32, HashConfig::default(), 4);
    for k in 0..50u64 {
        c.insert(k);
    }
    for k in 0..50u64 {
        assert!(c.contains(k));
    }

    let mut d: ConcurrentHashSet = Default::default();
    assert!(d.insert(1));
}
