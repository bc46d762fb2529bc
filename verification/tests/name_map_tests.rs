use cargo_task_wasm::name_map::NameMap;

fn names(map: &NameMap<u32>) -> Vec<String> {
    (0..map.len()).map(|i| map.name_at(i).clone()).collect()
}

#[test]
fn new_map_is_empty() {
    let map: NameMap<u32> = NameMap::new();
    assert!(map.is_empty());
    assert_eq!(map.len(), 0);
    assert_eq!(map.get("a"), None);
    assert!(!map.contains_key("a"));
}

#[test]
fn entries_are_sorted_by_name() {
    let mut map = NameMap::new();
    for (i, name) in ["m", "b", "z", "a", "ab", ""].iter().enumerate() {
        map.insert(name.to_string(), i as u32);
    }
    assert_eq!(names(&map), vec!["", "a", "ab", "b", "m", "z"]);
    assert_eq!(*map.value_at(0), 5);
    assert_eq!(*map.value_at(1), 3);
    assert_eq!(*map.value_at(5), 2);
}

#[test]
fn order_is_that_of_a_btree_map() {
    let words = ["b", "a", "B", "é", "z", "ab", "aB", "", "~", "ä", "日本", "a\u{10000}", "a\u{ffff}"];
    let mut ours = NameMap::new();
    let mut theirs = std::collections::BTreeMap::new();
    for (i, word) in words.iter().enumerate() {
        ours.insert(word.to_string(), i as u32);
        theirs.insert(word.to_string(), i as u32);
    }
    let expected: Vec<String> = theirs.keys().cloned().collect();
    assert_eq!(names(&ours), expected);
}

#[test]
fn insert_replaces_the_value_of_a_known_name() {
    let mut map = NameMap::new();
    map.insert("a".to_string(), 1u32);
    map.insert("b".to_string(), 2);
    map.insert("a".to_string(), 3);
    assert_eq!(map.len(), 2);
    assert_eq!(map.get("a"), Some(&3));
    assert_eq!(map.get("b"), Some(&2));
    assert_eq!(map.get("c"), None);
    assert!(map.contains_key("b"));
    assert!(!map.contains_key("B"));
}

#[test]
fn maps_filled_in_any_order_are_equal() {
    let mut first = NameMap::new();
    first.insert("x".to_string(), 1u32);
    first.insert("y".to_string(), 2);
    let mut second = NameMap::new();
    second.insert("y".to_string(), 2u32);
    second.insert("x".to_string(), 1);
    assert_eq!(first, second);
}
