use qebbeq::resources::image::ObjectKey;
use qebbeq::sorted::{Comparison, Key, SortedMap, SortedSet};

fn texts(set: &SortedSet<String>) -> Vec<String> {
    (0..set.len()).map(|i| set.get(i).clone()).collect()
}

fn set_of(items: &[&str]) -> SortedSet<String> {
    SortedSet::from_keys(items.iter().map(|s| s.to_string()).collect())
}

fn key(api_version: &str, kind: &str, namespace: &str, name: &str) -> ObjectKey {
    ObjectKey {
        api_version: api_version.to_string(),
        kind: kind.to_string(),
        namespace: namespace.to_string(),
        name: name.to_string(),
    }
}

#[test]
fn sets_are_sorted_and_without_duplicates() {
    let set = set_of(&["b", "a", "c", "a"]);
    assert_eq!(texts(&set), ["a", "b", "c"]);
    assert!(set.contains(&"b".to_string()));
    assert!(!set.contains(&"d".to_string()));
    assert!(!set.is_empty());
    assert!(SortedSet::<String>::new().is_empty());
}

#[test]
fn sets_with_the_same_elements_are_the_same() {
    assert!(set_of(&["b", "a"]).same(&set_of(&["a", "b", "a"])));
    assert!(!set_of(&["a"]).same(&set_of(&["a", "b"])));
    assert!(!set_of(&["a", "c"]).same(&set_of(&["a", "b"])));
}

#[test]
fn insert_and_remove_tell_what_happened() {
    let mut set = set_of(&["a", "c"]);
    assert!(set.insert("b".to_string()));
    assert!(!set.insert("b".to_string()));
    assert_eq!(texts(&set), ["a", "b", "c"]);
    assert!(set.remove(&"a".to_string()));
    assert!(!set.remove(&"a".to_string()));
    assert_eq!(texts(&set), ["b", "c"]);
    assert_eq!(texts(&set.duplicate()), ["b", "c"]);
}

#[test]
fn union_and_difference() {
    let a = set_of(&["a", "b"]);
    let b = set_of(&["b", "c"]);
    assert_eq!(texts(&a.union(&b)), ["a", "b", "c"]);
    assert_eq!(texts(&a.difference(&b)), ["a"]);
    assert_eq!(texts(&a.difference(&a)), Vec::<String>::new());
}

#[test]
fn maps_keep_the_last_value() {
    let mut map: SortedMap<String, u8> = SortedMap::new();
    map.insert("b".to_string(), 1);
    map.insert("a".to_string(), 2);
    map.insert("b".to_string(), 3);
    assert_eq!(map.get(&"a".to_string()), Some(&2));
    assert_eq!(map.get(&"b".to_string()), Some(&3));
    assert_eq!(map.get(&"c".to_string()), None);
    assert!(map.contains_key(&"a".to_string()));
    assert_eq!(map.remove(&"b".to_string()), Some(3));
    assert_eq!(map.remove(&"b".to_string()), None);
    assert!(!map.contains_key(&"b".to_string()));
}

#[test]
fn object_keys_compare_field_by_field() {
    let keys = [
        key("apps/v1", "Deployment", "a", "a"),
        key("v1", "Job", "z", "z"),
        key("v1", "Pod", "a", "b"),
        key("v1", "Pod", "b", "a"),
        key("v1", "Pod", "b", "b"),
    ];
    for i in 0..keys.len() {
        for j in 0..keys.len() {
            let expected = if i < j {
                Comparison::Less
            } else if i == j {
                Comparison::Equal
            } else {
                Comparison::Greater
            };
            assert_eq!(keys[i].compare(&keys[j]), expected);
            assert_eq!(keys[i] < keys[j], i < j);
        }
    }
}
