use graze::{GenerationalKey, GenerationalMap};

#[test]
fn fresh_key_resolves_to_inserted_value() {
    let mut map = GenerationalMap::new();
    let a = map.push(String::from("oats"));
    let b = map.push(String::from("milk"));
    assert_eq!(map.get(a), Some(&String::from("oats")));
    assert_eq!(map.get(b), Some(&String::from("milk")));
    assert!(map.contains_key(a));
    assert!(map.contains_key(b));
}

#[test]
fn remove_twice_second_is_noop() {
    let mut map = GenerationalMap::new();
    let k = map.push(5);
    map.push(6);
    assert_eq!(map.remove(k), Some(5));
    let after_first = map.clone();
    assert_eq!(map.remove(k), None);
    assert_eq!(map, after_first);
    assert_eq!(map.free_list(), &vec![0]);
    assert_eq!(map.get(k), None);
    assert!(!map.contains_key(k));
}

#[test]
fn reuse_bumps_generation() {
    let mut map = GenerationalMap::new();
    map.push(1);
    let k1 = map.push(2);
    map.push(3);
    assert_eq!(map.remove(k1), Some(2));
    let k2 = map.push(4);
    assert_eq!(k2.index, k1.index);
    assert_eq!(k2.generation, k1.generation + 1);
    assert_eq!(map.get(k1), None);
    assert_eq!(map.get(k2), Some(&4));
    assert!(!map.contains_key(k1));
    assert!(map.contains_key(k2));
    assert_eq!(map.remove(k1), None);
    assert_eq!(map.get(k2), Some(&4));
}

#[test]
fn stale_key_before_reuse_is_absent() {
    let mut map = GenerationalMap::new();
    let k = map.push(11);
    map.remove(k);
    assert_eq!(map.slots(), &vec![(0, None)]);
    assert_eq!(map.get(k), None);
    assert_eq!(map.get_mut(k), None);
    assert!(!map.contains_key(k));
    assert_eq!(map.len(), 0);
}

#[test]
fn removals_leave_other_keys_alone() {
    let mut map = GenerationalMap::new();
    let mut keys = Vec::new();
    for v in 0..10 {
        keys.push(map.push(v * 10));
    }
    for (i, k) in keys.iter().enumerate() {
        if i % 3 == 0 {
            assert_eq!(map.remove(*k), Some(i as i32 * 10));
        }
    }
    let extra = map.push(999);
    for (i, k) in keys.iter().enumerate() {
        if i % 3 == 0 {
            assert_eq!(map.get(*k), None);
        } else {
            assert_eq!(map.get(*k), Some(&(i as i32 * 10)));
        }
    }
    assert_eq!(map.get(extra), Some(&999));
    assert_eq!(extra.index, 9);
    assert_eq!(extra.generation, 1);
    assert_eq!(map.len(), 7);
}

#[test]
fn len_counts_live_keys() {
    let mut map = GenerationalMap::new();
    let ks: Vec<_> = (0..5).map(|v| map.push(v)).collect();
    map.remove(ks[1]);
    map.remove(ks[3]);
    map.remove(ks[3]);
    let live = ks.iter().filter(|k| map.contains_key(**k)).count();
    assert_eq!(map.len(), 3);
    assert_eq!(live, 3);
}

#[test]
fn iteration_lists_occupied_slots_in_order() {
    let mut map = GenerationalMap::new();
    let a = map.push('a');
    let b = map.push('b');
    let c = map.push('c');
    let d = map.push('d');
    map.remove(b);
    map.remove(a);
    let e = map.push('e');
    assert_eq!(e.index, 0);
    let listed = map.iter();
    assert_eq!(listed, vec![(e, &'e'), (c, &'c'), (d, &'d')]);
    assert_eq!(map.keys(), vec![e, c, d]);
    assert_eq!(map.values(), vec![&'e', &'c', &'d']);
    for (k, v) in map.iter() {
        assert!(map.contains_key(k));
        assert_eq!(map.get(k), Some(v));
    }
    assert_eq!(map.iter().len(), map.len());
}

#[test]
fn insertion_order_and_reuse_scenario() {
    let mut map = GenerationalMap::new();
    let k0 = map.push(2);
    let k1 = map.push(8);
    let k2 = map.push(121);
    assert_eq!(map.iter(), vec![(k0, &2), (k1, &8), (k2, &121)]);
    assert_eq!((k0.generation, k1.generation, k2.generation), (0, 0, 0));
    assert_eq!(map.remove(k1), Some(8));
    assert_eq!(map.len(), 2);
    assert_eq!(map.free_list(), &vec![1]);

    let mut fresh = GenerationalMap::new();
    let k = fresh.push(1);
    fresh.remove(k);
    fresh.push(6);
    fresh.push(20);
    fresh.push(9);
    assert_eq!(
        fresh.slots(),
        &vec![(1, Some(6)), (0, Some(20)), (0, Some(9))]
    );
    assert_eq!(fresh.free_list(), &Vec::<usize>::new());
}

#[test]
fn out_of_range_and_wrong_generation_keys_fail() {
    let mut map = GenerationalMap::new();
    map.push(3);
    let far = GenerationalKey::new(42, 0);
    let wrong = GenerationalKey::new(0, 7);
    assert_eq!(map.get(far), None);
    assert_eq!(map.get_mut(far), None);
    assert!(!map.contains_key(far));
    assert_eq!(map.remove(far), None);
    assert_eq!(map.get(wrong), None);
    assert_eq!(map.remove(wrong), None);
    assert_eq!(map.len(), 1);
    assert_eq!(map.slots(), &vec![(0, Some(3))]);
}

#[test]
fn get_mut_changes_only_its_value() {
    let mut map = GenerationalMap::new();
    let a = map.push(1);
    let b = map.push(2);
    *map.get_mut(a).unwrap() = 10;
    assert_eq!(map.get(a), Some(&10));
    assert_eq!(map.get(b), Some(&2));
    assert_eq!(map.slots(), &vec![(0, Some(10)), (0, Some(2))]);
}

#[test]
fn parts_round_trip() {
    let mut map = GenerationalMap::new();
    let a = map.push(1);
    map.push(2);
    map.remove(a);
    let b = map.push(3);
    map.remove(b);
    let copy = map.clone();
    let (data, free) = map.into_parts();
    assert_eq!(data, vec![(1, None), (0, Some(2))]);
    assert_eq!(free, vec![0]);
    let back = GenerationalMap::from_parts(data, free).unwrap();
    assert_eq!(back, copy);
    assert_eq!(back.get(b), None);
}

#[test]
fn from_parts_rejects_inconsistent_free_lists() {
    let out_of_range = GenerationalMap::<i32>::from_parts(vec![(0, None)], vec![1]);
    assert!(out_of_range.is_none());
    let occupied = GenerationalMap::from_parts(vec![(0, Some(1))], vec![0]);
    assert!(occupied.is_none());
    let duplicate = GenerationalMap::<i32>::from_parts(vec![(0, None), (0, None)], vec![0, 0]);
    assert!(duplicate.is_none());
    let missing = GenerationalMap::<i32>::from_parts(vec![(0, None), (0, Some(4))], vec![]);
    assert!(missing.is_none());
    let empty = GenerationalMap::<i32>::from_parts(vec![], vec![]);
    assert_eq!(empty.map(|m| m.len()), Some(0));
}

#[test]
fn keys_compare_by_index_and_generation() {
    let a: GenerationalKey<u8> = GenerationalKey::new(1, 2);
    let b = a.clone();
    assert_eq!(a, b);
    assert_ne!(a, GenerationalKey::new(1, 3));
    assert_ne!(a, GenerationalKey::new(2, 2));
}

#[test]
fn iter_mut_changes_values_in_place() {
    let mut map = GenerationalMap::new();
    let a = map.push(1);
    let b = map.push(2);
    let c = map.push(3);
    map.remove(b);
    let listed: Vec<_> = map.iter_mut().into_iter().map(|(k, _)| k).collect();
    assert_eq!(listed, vec![a, c]);
    for (_, v) in map.iter_mut() {
        *v *= 100;
    }
    assert_eq!(map.get(a), Some(&100));
    assert_eq!(map.get(c), Some(&300));
    assert_eq!(map.slots(), &vec![(0, Some(100)), (0, None), (0, Some(300))]);
    assert_eq!(map.free_list(), &vec![1]);
}

#[test]
fn values_mut_changes_values_in_place() {
    let mut map = GenerationalMap::new();
    let a = map.push(String::from("a"));
    let b = map.push(String::from("b"));
    map.remove(a);
    for v in map.values_mut() {
        v.push('!');
    }
    assert_eq!(map.get(b), Some(&String::from("b!")));
    assert_eq!(map.values(), vec![&String::from("b!")]);
    assert_eq!(map.len(), 1);
}

#[test]
fn keys_order_by_index_then_generation() {
    let a: GenerationalKey<()> = GenerationalKey::new(1, 5);
    let b = GenerationalKey::new(2, 0);
    let c = GenerationalKey::new(1, 6);
    assert!(a < b);
    assert!(a < c);
    assert!(c < b);
    assert_eq!(a.partial_cmp(&GenerationalKey::new(1, 5)), Some(std::cmp::Ordering::Equal));
}

#[test]
fn default_map_is_empty() {
    let map: GenerationalMap<u8> = GenerationalMap::default();
    assert_eq!(map.len(), 0);
    assert!(map.iter().is_empty());
    assert!(map.slots().is_empty());
    assert!(map.free_list().is_empty());
}
