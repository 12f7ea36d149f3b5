use graphquery::ArgumentMap;

#[test]
fn new_map_is_empty() {
    let args = ArgumentMap::new();
    assert_eq!(args.len(), 0);
    assert_eq!(args.get("name"), None);
    assert_eq!(args.entry(0), None);
}

#[test]
fn insert_then_get() {
    let mut args = ArgumentMap::new();
    args.insert("name".to_string(), "Bob".to_string());
    assert_eq!(args.len(), 1);
    assert_eq!(args.get("name"), Some(&"Bob".to_string()));
    assert_eq!(args.get("nam"), None);
    assert_eq!(args.get("names"), None);
}

#[test]
fn insert_keeps_the_order_of_first_insertion() {
    let mut args = ArgumentMap::new();
    args.insert("b".to_string(), "2".to_string());
    args.insert("a".to_string(), "1".to_string());
    assert_eq!(args.entry(0), Some((&"b".to_string(), &"2".to_string())));
    assert_eq!(args.entry(1), Some((&"a".to_string(), &"1".to_string())));
    assert_eq!(args.entry(2), None);
}

#[test]
fn insert_of_a_known_key_replaces_its_value_in_place() {
    let mut args = ArgumentMap::new();
    args.insert("b".to_string(), "2".to_string());
    args.insert("a".to_string(), "1".to_string());
    args.insert("b".to_string(), "3".to_string());
    assert_eq!(args.len(), 2);
    assert_eq!(args.get("b"), Some(&"3".to_string()));
    assert_eq!(args.get("a"), Some(&"1".to_string()));
    assert_eq!(args.entry(0), Some((&"b".to_string(), &"3".to_string())));
    assert_eq!(args.entry(1), Some((&"a".to_string(), &"1".to_string())));
}

#[test]
fn empty_key_and_empty_value_are_entries_too() {
    let mut args = ArgumentMap::new();
    args.insert(String::new(), String::new());
    assert_eq!(args.len(), 1);
    assert_eq!(args.get(""), Some(&String::new()));
}
