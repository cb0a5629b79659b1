use punch::task_map::TaskMap;

fn entry<V>(name: &str, value: V) -> (String, V) {
    (name.to_string(), value)
}

#[test]
fn map_insert_get_remove() {
    let mut map: TaskMap<i64> = TaskMap::new();
    assert!(!map.contains_key(&"a".to_string()));
    assert_eq!(map.get(&"a".to_string()), None);
    assert_eq!(map.insert("a".to_string(), 1), None);
    assert_eq!(map.insert("b".to_string(), 2), None);
    assert_eq!(map.insert("a".to_string(), 3), Some(1));
    assert!(map.contains_key(&"a".to_string()));
    assert_eq!(map.get(&"a".to_string()), Some(3));
    assert_eq!(map.get(&"b".to_string()), Some(2));
    assert_eq!(map.remove(&"a".to_string()), Some(3));
    assert_eq!(map.remove(&"a".to_string()), None);
    assert!(!map.contains_key(&"a".to_string()));
    assert_eq!(map.entries(), vec![entry("b", 2)]);
    assert_eq!(map.names(), vec!["b".to_string()]);
}

#[test]
fn map_holds_each_name_once() {
    let mut map: TaskMap<u64> = TaskMap::default();
    for round in 0..3u64 {
        for name in ["x", "y", "z"] {
            map.insert(name.to_string(), round);
        }
    }
    let mut entries = map.entries();
    entries.sort();
    assert_eq!(entries, vec![entry("x", 2u64), entry("y", 2), entry("z", 2)]);
}

#[test]
fn map_from_entries_keeps_the_later_entry() {
    let map = TaskMap::from_entries(vec![entry("a", 1u64), entry("b", 2), entry("a", 3)]);
    let mut entries = map.entries();
    entries.sort();
    assert_eq!(entries, vec![entry("a", 3u64), entry("b", 2)]);
}

#[test]
fn map_written_out_and_read_back_is_the_same() {
    let map = TaskMap::from_entries(vec![entry("b", -4i64), entry("a", 7), entry("c", 0)]);
    let mut out = map.entries();
    out.reverse();
    let back = TaskMap::from_entries(out);
    let mut first = map.entries();
    let mut second = back.entries();
    first.sort();
    second.sort();
    assert_eq!(first, second);
    for (name, value) in first {
        assert_eq!(back.get(&name), Some(value));
    }
}
