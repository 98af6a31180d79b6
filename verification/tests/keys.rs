use predictive_text::keys::{map_keys, sorted_keys};
use std::collections::HashMap;

#[test]
fn keys_are_listed_once_each() {
    let mut map = HashMap::new();
    for key in [5, -3, 0, 12, i32::MIN, i32::MAX, 7] {
        map.insert(key, key.to_string());
    }
    let mut keys = map_keys(&map);
    assert_eq!(keys.len(), 7);
    keys.sort();
    assert_eq!(keys, [i32::MIN, -3, 0, 5, 7, 12, i32::MAX]);
    assert!(map_keys(&HashMap::<i32, u8>::new()).is_empty());
}

#[test]
fn sorted_keys_ascend() {
    let mut map = HashMap::new();
    for key in [5, -3, 0, 12, i32::MIN, i32::MAX, 7, 6, -4] {
        map.insert(key, ());
    }
    assert_eq!(sorted_keys(&map), [i32::MIN, -4, -3, 0, 5, 6, 7, 12, i32::MAX]);
    assert!(sorted_keys(&HashMap::<i32, u8>::new()).is_empty());
    let single: HashMap<i32, u8> = [(9, 1)].into_iter().collect();
    assert_eq!(sorted_keys(&single), [9]);
}

#[test]
fn sorted_keys_of_a_larger_map() {
    let map: HashMap<i32, i32> = (0..500).map(|i| ((i * 7919) % 1009 - 500, i)).collect();
    let keys = sorted_keys(&map);
    assert_eq!(keys.len(), map.len());
    assert!(keys.windows(2).all(|pair| pair[0] < pair[1]));
    assert!(keys.iter().all(|key| map.contains_key(key)));
}
