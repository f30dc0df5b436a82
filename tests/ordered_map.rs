use shy::ordered_map::OrderedMap;

#[test]
fn test_order() {
    let mut map = OrderedMap::<String, String>::new();
    map.insert("first".to_string(), "Bob".to_string());
    map.insert("last".to_string(), "Bobberson".to_string());
    map.insert("age".to_string(), "100".to_string());

    let mut vals: Vec<String> = vec!["Bob".into(), "Bobberson".into(), "100".into()];
    let mut entries = map.iter();
    while let Some((_k, v)) = entries.next() {
        assert_eq!(&vals.remove(0), v);
    }

    let mut keys = map.keys();
    let mut seen = Vec::new();
    while let Some(k) = keys.next() {
        seen.push(k);
    }
    assert_eq!(vec!["first", "last", "age"], seen);
}

#[test]
fn test_map_functions() {
    let mut map = OrderedMap::<String, usize>::new();
    map.insert("bob".to_string(), 33);
    map.insert("roger".to_string(), 40);
    map.insert("annie".to_string(), 100);

    assert_eq!(3, map.len());
    assert!(!map.is_empty());
    assert!(map.contains_key("roger"));
    assert!(!map.contains_key("dodger"));
}

#[test]
fn test_remove() {
    let mut map = OrderedMap::<String, usize>::new();
    map.insert("one".to_string(), 1);
    map.insert("two".to_string(), 2);
    map.insert("three".to_string(), 3);
    map.insert("four".to_string(), 4);

    assert_eq!(map.len(), 4);
    map.remove(&"two".to_string());
    assert_eq!(map.len(), 3);
}

#[test]
fn reinsert_keeps_position_and_updates_value() {
    let mut map = OrderedMap::<String, usize>::new();
    map.insert("a".to_string(), 1);
    map.insert("b".to_string(), 2);
    map.insert("a".to_string(), 10);

    assert_eq!(map.len(), 2);
    assert_eq!(map.get("a"), Some(&10));
    let mut keys = map.keys();
    assert_eq!(keys.next().map(|k| k.as_str()), Some("a"));
    assert_eq!(keys.next().map(|k| k.as_str()), Some("b"));
    assert_eq!(keys.next(), None);
}

#[test]
fn remove_returns_value_and_keeps_order() {
    let mut map = OrderedMap::<String, usize>::new();
    map.insert("one".to_string(), 1);
    map.insert("two".to_string(), 2);
    map.insert("three".to_string(), 3);

    assert_eq!(map.remove(&"two".to_string()), Some(2));
    assert_eq!(map.remove(&"two".to_string()), None);
    assert_eq!(map.get("two"), None);
    let mut entries = map.iter();
    assert_eq!(entries.next(), Some((&"one".to_string(), &1)));
    assert_eq!(entries.next(), Some((&"three".to_string(), &3)));
    assert_eq!(entries.next(), None);
}

#[test]
fn empty_map() {
    let map = OrderedMap::<String, usize>::new();
    assert!(map.is_empty());
    assert_eq!(map.len(), 0);
    assert!(map.keys().next().is_none());
    assert!(map.iter().next().is_none());
}
