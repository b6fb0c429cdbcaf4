use reflector::cache::Cache;
use reflector::object_id::ObjectId;

fn key(name: &str, namespace: Option<&str>) -> ObjectId {
    ObjectId { name: name.to_string(), namespace: namespace.map(|ns| ns.to_string()) }
}

#[test]
fn new_cache_is_empty() {
    let cache: Cache<u32> = Cache::new();
    assert_eq!(cache.len(), 0);
    assert_eq!(cache.values(), Vec::<u32>::new());
    assert_eq!(cache.get(&key("a", None)), None);
}

#[test]
fn insert_puts_and_overwrites() {
    let mut cache: Cache<u32> = Cache::new();
    cache.insert(key("a", Some("x")), 1);
    assert_eq!(cache.get(&key("a", Some("x"))), Some(&1));
    cache.insert(key("a", Some("x")), 2);
    assert_eq!(cache.get(&key("a", Some("x"))), Some(&2));
    assert_eq!(cache.len(), 1);
}

#[test]
fn insert_if_absent_keeps_what_is_there() {
    let mut cache: Cache<u32> = Cache::new();
    cache.insert_if_absent(key("a", Some("x")), 1);
    cache.insert_if_absent(key("a", Some("x")), 2);
    assert_eq!(cache.get(&key("a", Some("x"))), Some(&1));
    assert_eq!(cache.len(), 1);
}

#[test]
fn update_in_place_overwrites_what_is_there() {
    let mut cache: Cache<u32> = Cache::new();
    cache.insert(key("a", Some("x")), 1);
    cache.update_in_place(key("a", Some("x")), 2);
    assert_eq!(cache.get(&key("a", Some("x"))), Some(&2));
    assert_eq!(cache.len(), 1);
}

#[test]
fn update_in_place_does_not_insert() {
    let mut cache: Cache<u32> = Cache::new();
    cache.insert(key("a", Some("x")), 1);
    cache.update_in_place(key("b", Some("x")), 2);
    assert_eq!(cache.get(&key("b", Some("x"))), None);
    assert_eq!(cache.values(), vec![1]);
}

#[test]
fn remove_takes_out_and_hands_back() {
    let mut cache: Cache<u32> = Cache::new();
    cache.insert(key("a", Some("x")), 1);
    cache.insert(key("b", Some("x")), 2);
    assert_eq!(cache.remove(&key("a", Some("x"))), Some(1));
    assert_eq!(cache.get(&key("a", Some("x"))), None);
    assert_eq!(cache.values(), vec![2]);
}

#[test]
fn remove_of_absent_changes_nothing() {
    let mut cache: Cache<u32> = Cache::new();
    cache.insert(key("a", Some("x")), 1);
    assert_eq!(cache.remove(&key("a", Some("y"))), None);
    assert_eq!(cache.remove(&key("a", None)), None);
    assert_eq!(cache.values(), vec![1]);
}

#[test]
fn contains_key_tells_names_and_namespaces_apart() {
    let mut cache: Cache<u32> = Cache::new();
    cache.insert(key("a", Some("x")), 1);
    assert!(cache.contains_key(&key("a", Some("x"))));
    assert!(!cache.contains_key(&key("a", Some("y"))));
    assert!(!cache.contains_key(&key("a", None)));
    assert!(!cache.contains_key(&key("x", Some("a"))));
}

#[test]
fn values_come_in_the_order_of_identities() {
    let mut cache: Cache<u32> = Cache::new();
    cache.insert(key("b", Some("x")), 4);
    cache.insert(key("a", Some("y")), 3);
    cache.insert(key("z", None), 1);
    cache.insert(key("a", Some("x")), 2);
    cache.insert(key("c", None), 0);
    assert_eq!(cache.values(), vec![0, 1, 2, 3, 4]);
}

#[test]
fn every_one_of_many_is_found() {
    let mut cache: Cache<usize> = Cache::new();
    let names: Vec<String> = (0..200).map(|i| format!("pod-{}", (i * 37) % 200)).collect();
    for (i, name) in names.iter().enumerate() {
        cache.insert(key(name, Some("x")), i);
    }
    assert_eq!(cache.len(), 200);
    for (i, name) in names.iter().enumerate() {
        assert_eq!(cache.get(&key(name, Some("x"))), Some(&i));
        assert_eq!(cache.get(&key(name, Some("y"))), None);
    }
    let mut sorted = names.clone();
    sorted.sort();
    let expected: Vec<usize> =
        sorted.iter().map(|n| names.iter().position(|m| m == n).unwrap()).collect();
    assert_eq!(cache.values(), expected);
    for name in names.iter().step_by(2) {
        assert!(cache.remove(&key(name, Some("x"))).is_some());
    }
    assert_eq!(cache.len(), 100);
    for (i, name) in names.iter().enumerate() {
        let expected = if i % 2 == 0 { None } else { Some(&i) };
        assert_eq!(cache.get(&key(name, Some("x"))), expected);
    }
}
