use qebbeq::index::{filter_managed, ReferenceIndex};
use qebbeq::resources::image::ObjectKey;
use qebbeq::sorted::SortedSet;
use qebbeq::workload::{collect_pod_image_refs, Pod, PodSpec, ResourceImageRef};

fn key(name: &str) -> ObjectKey {
    ObjectKey {
        api_version: "v1".to_string(),
        kind: "Pod".to_string(),
        namespace: "ns".to_string(),
        name: name.to_string(),
    }
}

fn set(items: &[&str]) -> SortedSet<String> {
    SortedSet::from_keys(items.iter().map(|s| s.to_string()).collect())
}

fn texts(set: &SortedSet<String>) -> Vec<String> {
    (0..set.len()).map(|i| set.get(i).clone()).collect()
}

fn names(index: &ReferenceIndex, image: &str) -> Vec<String> {
    let refs = index.references_of(&image.to_string());
    (0..refs.len()).map(|i| refs.get(i).name.clone()).collect()
}

fn none() -> Vec<String> {
    Vec::new()
}

#[test]
fn only_images_of_the_host_are_managed() {
    let refs: Vec<ResourceImageRef> = ["h.io/b:1", "nginx", "h.io/a:1", "quay.io/a:1", "h.io/b:1"]
        .iter()
        .map(|s| ResourceImageRef { path: String::new(), image: s.to_string() })
        .collect();
    assert_eq!(texts(&filter_managed(&refs, "h.io")), ["h.io/a:1", "h.io/b:1"]);
    assert_eq!(texts(&filter_managed(&refs, "x.io")), none());
}

#[test]
fn an_empty_index_knows_nothing() {
    let index = ReferenceIndex::new();
    assert!(!index.contains_image(&"a".to_string()));
    assert_eq!(names(&index, "a"), none());
    assert_eq!(texts(&index.images_of(&key("p"))), none());
    assert_eq!(texts(&index.unseen_images(&set(&["b", "a"]))), ["a", "b"]);
}

#[test]
fn both_directions_follow_an_object() {
    let mut index = ReferenceIndex::new();
    index.retarget(&key("p"), &set(&["a", "b"]));
    index.retarget(&key("q"), &set(&["b", "c"]));
    assert_eq!(names(&index, "a"), ["p"]);
    assert_eq!(names(&index, "b"), ["p", "q"]);
    assert_eq!(texts(&index.images_of(&key("q"))), ["b", "c"]);
    index.retarget(&key("p"), &set(&["c"]));
    assert!(!index.contains_image(&"a".to_string()));
    assert_eq!(names(&index, "b"), ["q"]);
    assert_eq!(names(&index, "c"), ["p", "q"]);
    assert_eq!(texts(&index.images_of(&key("p"))), ["c"]);
    assert_eq!(texts(&index.unseen_images(&set(&["a", "b", "d"]))), ["a", "d"]);
}

#[test]
fn retargeting_to_nothing_forgets() {
    let mut index = ReferenceIndex::new();
    index.retarget(&key("p"), &set(&["a"]));
    index.retarget(&key("p"), &SortedSet::new());
    assert!(!index.contains_image(&"a".to_string()));
    assert!(index.forget(&key("p")).is_none());
}

#[test]
fn the_last_retargeting_decides() {
    let mut index = ReferenceIndex::new();
    index.retarget(&key("p"), &set(&["a"]));
    index.retarget(&key("p"), &set(&["b"]));
    index.retarget(&key("p"), &set(&["b"]));
    assert_eq!(names(&index, "a"), none());
    assert_eq!(names(&index, "b"), ["p"]);
    assert_eq!(texts(&index.forget(&key("p")).unwrap()), ["b"]);
}

#[test]
fn the_order_of_two_objects_does_not_matter() {
    let mut one = ReferenceIndex::new();
    one.retarget(&key("p"), &set(&["a", "b"]));
    one.retarget(&key("q"), &set(&["b"]));
    let mut two = ReferenceIndex::new();
    two.retarget(&key("q"), &set(&["b"]));
    two.retarget(&key("p"), &set(&["a", "b"]));
    for image in ["a", "b", "c"] {
        assert_eq!(names(&one, image), names(&two, image));
    }
}

#[test]
fn forgetting_tells_what_was_referred_to() {
    let mut index = ReferenceIndex::new();
    index.retarget(&key("p"), &set(&["b", "a"]));
    index.retarget(&key("q"), &set(&["b"]));
    assert_eq!(texts(&index.forget(&key("p")).unwrap()), ["a", "b"]);
    assert_eq!(names(&index, "a"), none());
    assert_eq!(names(&index, "b"), ["q"]);
    assert!(index.forget(&key("p")).is_none());
}

#[test]
fn a_pod_is_tracked_by_its_managed_images() {
    let pod = Pod {
        namespace: None,
        name: "p".to_string(),
        spec: Some(PodSpec {
            containers: vec![Some("h.io/c:1".to_string()), Some("nginx".to_string()), None],
            init_containers: Some(vec![Some("h.io/b:1".to_string())]),
            ephemeral_containers: Some(vec![
                Some("h.io/a:1".to_string()),
                Some("h.io/c:1".to_string()),
            ]),
        }),
    };
    let managed = filter_managed(&collect_pod_image_refs(&pod), "h.io");
    assert_eq!(texts(&managed), ["h.io/a:1", "h.io/b:1", "h.io/c:1"]);
}
