use axmap::{HashMap, Iter, RandomState};

fn collect_pairs(it: &mut Iter) -> Vec<(u64, u64)> {
    let mut v: Vec<(u64, u64)> = Vec::new();
    loop {
        match it.next() {
            Some(p) => v.push(p),
            None => break,
        }
    }
    v
}

#[test]
fn insert_fresh_returns_none_and_grows() {
    let mut m = HashMap::new();
    assert_eq!(m.insert(1, 10), None);
    assert_eq!(m.iter().count(), 1);
    assert_eq!(m.insert(2, 20), None);
    assert_eq!(m.iter().count(), 2);
    assert_eq!(m.insert(u64::MAX, 30), None);
    assert_eq!(m.iter().count(), 3);
}

#[test]
fn insert_existing_returns_old_and_keeps_count() {
    let mut m = HashMap::new();
    assert_eq!(m.insert(5, 50), None);
    assert_eq!(m.insert(5, 51), Some(50));
    assert_eq!(m.iter().count(), 1);
    let mut it = m.iter();
    let pairs = collect_pairs(&mut it);
    assert_eq!(pairs, vec![(5, 51)]);
}

#[test]
fn scenario_overwrite_then_sorted_entries() {
    let mut m = HashMap::new();
    assert_eq!(m.insert(1, 1), None);
    assert_eq!(m.insert(2, 2), None);
    assert_eq!(m.insert(1, 3), Some(1));
    assert_eq!(m.iter().count(), 2);
    let mut it = m.iter();
    let mut pairs = collect_pairs(&mut it);
    pairs.sort();
    assert_eq!(pairs, vec![(1, 3), (2, 2)]);
}

#[test]
fn iteration_yields_last_inserted_values_regardless_of_order() {
    let mut m = HashMap::new();
    for k in 0..50u64 {
        assert_eq!(m.insert(k, k + 100), None);
    }
    for k in 0..25u64 {
        assert_eq!(m.insert(k, k + 200), Some(k + 100));
    }
    let mut it = m.iter();
    let mut pairs = collect_pairs(&mut it);
    assert_eq!(pairs.len(), 50);
    pairs.sort();
    let mut expected: Vec<(u64, u64)> = Vec::new();
    for k in 0..25u64 {
        expected.push((k, k + 200));
    }
    for k in 25..50u64 {
        expected.push((k, k + 100));
    }
    assert_eq!(pairs, expected);
}

#[test]
fn size_hint_tracks_remaining_count() {
    let mut m = HashMap::new();
    for k in 0..10u64 {
        m.insert(k, k);
    }
    let mut it = m.iter();
    assert_eq!(it.size_hint(), (10, Some(10)));
    it.next();
    it.next();
    assert_eq!(it.size_hint(), (8, Some(8)));
    let rest = collect_pairs(&mut it);
    assert_eq!(rest.len(), 8);
    assert_eq!(it.size_hint(), (0, Some(0)));
}

#[test]
fn exhausted_iterator_stays_exhausted() {
    let m = HashMap::new();
    let mut it = m.iter();
    assert_eq!(it.size_hint(), (0, Some(0)));
    assert_eq!(it.next(), None);
    assert_eq!(it.next(), None);
    let mut one = HashMap::new();
    one.insert(9, 9);
    let mut it2 = one.iter();
    assert_eq!(it2.next(), Some((9, 9)));
    assert_eq!(it2.next(), None);
    assert_eq!(it2.next(), None);
}

#[test]
fn clone_mid_traversal_is_independent() {
    let mut m = HashMap::new();
    for k in 0..8u64 {
        m.insert(k, k * 2);
    }
    let mut it = m.iter();
    it.next();
    it.next();
    let mut dup = it.clone();
    assert_eq!(dup.size_hint(), it.size_hint());
    let from_dup = dup.next();
    let from_dup2 = dup.next();
    // the original has not moved: its next pair is the one the duplicate saw
    assert_eq!(it.next(), from_dup);
    assert_eq!(it.next(), from_dup2);
}

#[test]
fn peek_remaining_does_not_advance() {
    let mut m = HashMap::new();
    for k in 0..6u64 {
        m.insert(k, k + 1);
    }
    let mut it = m.iter();
    it.next();
    let peeked = it.peek_remaining();
    assert_eq!(peeked.len(), 5);
    assert_eq!(it.size_hint(), (5, Some(5)));
    let walked = collect_pairs(&mut it);
    assert_eq!(peeked, walked);
}

#[test]
fn fold_sums_all_values() {
    let mut m = HashMap::new();
    let mut expected: u64 = 0;
    for k in 0..20u64 {
        m.insert(k, k * 3);
        expected += k * 3;
    }
    let it = m.iter();
    let sum = it.fold(0u64, |acc: u64, kv: (u64, u64)| acc.wrapping_add(kv.1));
    assert_eq!(sum, expected);
}

#[test]
fn count_equals_entry_count() {
    let mut m = HashMap::new();
    for k in 0..17u64 {
        m.insert(k, 0);
    }
    m.insert(3, 1);
    assert_eq!(m.iter().count(), 17);
}

#[test]
fn default_map_and_iterator_are_empty() {
    let m = HashMap::default();
    assert_eq!(m.iter().count(), 0);
    let mut it = Iter::default();
    assert_eq!(it.size_hint(), (0, Some(0)));
    assert_eq!(it.next(), None);
}

#[test]
fn fresh_random_states_differ_statistically() {
    let mut differing = 0;
    for _ in 0..1000 {
        let a = RandomState::new();
        let b = RandomState::new();
        if a.hash_one(0) != b.hash_one(0) {
            differing += 1;
        }
    }
    assert!(differing >= 999, "only {differing} of 1000 pairs differed");
}

#[test]
fn equal_seeds_give_equal_digests() {
    let a = RandomState::with_keys(7, 9);
    let b = RandomState::with_keys(7, 9);
    for k in [0u64, 1, 42, u64::MAX] {
        assert_eq!(a.hash_one(k), b.hash_one(k));
    }
    let c = RandomState::with_keys(7, 10);
    assert_ne!(a.hash_one(42), c.hash_one(42));
}

#[test]
fn from_seed_splits_high_and_low_halves() {
    let k0: u64 = 0x0123_4567_89ab_cdef;
    let k1: u64 = 0xfedc_ba98_7654_3210;
    let seed: u128 = ((k0 as u128) << 64) | k1 as u128;
    let a = RandomState::from_seed(seed);
    let b = RandomState::with_keys(k0, k1);
    for k in [0u64, 5, 999] {
        assert_eq!(a.hash_one(k), b.hash_one(k));
    }
}

#[test]
fn digest_is_not_the_key_itself() {
    let s = RandomState::with_keys(0, 0);
    assert!(s.hash_one(0) != 0 || s.hash_one(1) != 1);
    assert_ne!(s.hash_one(1), s.hash_one(2));
}

#[test]
fn maps_with_equal_seeds_iterate_identically() {
    let mut m1 = HashMap::with_hasher(RandomState::with_keys(11, 13));
    let mut m2 = HashMap::with_hasher(RandomState::with_keys(11, 13));
    for k in 0..40u64 {
        m1.insert(k, k);
        m2.insert(k, k);
    }
    let mut it1 = m1.iter();
    let mut it2 = m2.iter();
    assert_eq!(collect_pairs(&mut it1), collect_pairs(&mut it2));
}

#[test]
fn fresh_maps_place_adversarial_keys_differently() {
    let mut m1 = HashMap::new();
    let mut m2 = HashMap::new();
    let keys: Vec<u64> = (0..64u64).map(|i| i.wrapping_mul(0x9e37_79b9_7f4a_7c15)).collect();
    for &k in &keys {
        m1.insert(k, 1);
        m2.insert(k, 1);
    }
    let mut it1 = m1.iter();
    let mut it2 = m2.iter();
    let o1 = collect_pairs(&mut it1);
    let o2 = collect_pairs(&mut it2);
    // same entries either way
    let mut s1 = o1.clone();
    let mut s2 = o2.clone();
    s1.sort();
    s2.sort();
    assert_eq!(s1, s2);
    assert_eq!(s1.len(), 64);
    // but the traversal orders show no shared placement: with independent
    // random seeds, 64 keys landing in the same order is vanishingly unlikely
    assert_ne!(o1, o2);
}
