use qebbeq::watch::{StreamItem, WatchEvent};
use qebbeq::workload::{
    collect_pod_image_refs, pod_object_key, pod_watch_step, Pod, PodSpec, PodStep,
    ReferenceUpdate,
};

fn images(list: &[Option<&str>]) -> Vec<Option<String>> {
    list.iter().map(|i| i.map(|s| s.to_string())).collect()
}

fn pod() -> Pod {
    Pod {
        namespace: Some("ns".to_string()),
        name: "p".to_string(),
        spec: Some(PodSpec {
            containers: images(&[Some("a"), None, Some("b")]),
            init_containers: Some(images(&[Some("c")])),
            ephemeral_containers: Some(images(&[None, Some("a")])),
        }),
    }
}

#[test]
fn pods_have_keys() {
    let key = pod_object_key(&pod());
    assert_eq!(key.api_version, "v1");
    assert_eq!(key.kind, "Pod");
    assert_eq!(key.namespace, "ns");
    assert_eq!(key.name, "p");
    let bare = Pod { namespace: None, name: "p".to_string(), spec: None };
    assert_eq!(pod_object_key(&bare).namespace, "");
}

#[test]
fn references_come_with_their_paths() {
    let refs = collect_pod_image_refs(&pod());
    let found: Vec<(&str, &str)> =
        refs.iter().map(|r| (r.path.as_str(), r.image.as_str())).collect();
    assert_eq!(
        found,
        [
            (".spec.containers[0].image", "a"),
            (".spec.containers[2].image", "b"),
            (".spec.initContainers[0].image", "c"),
            (".spec.ephemeralContainers[1].image", "a"),
        ]
    );
}

#[test]
fn long_lists_have_longer_paths() {
    let mut list = images(&[None; 12]);
    list.push(Some("x".to_string()));
    let p = Pod {
        namespace: None,
        name: "p".to_string(),
        spec: Some(PodSpec { containers: list, init_containers: None, ephemeral_containers: None }),
    };
    let refs = collect_pod_image_refs(&p);
    assert_eq!(refs.len(), 1);
    assert_eq!(refs[0].path, ".spec.containers[12].image");
}

#[test]
fn a_pod_without_a_spec_refers_to_nothing() {
    let bare = Pod { namespace: None, name: "p".to_string(), spec: None };
    assert!(collect_pod_image_refs(&bare).is_empty());
}

#[test]
fn applied_pods_report_their_references() {
    for item in [
        StreamItem::Event(WatchEvent::Apply(pod())),
        StreamItem::Event(WatchEvent::InitApply(pod())),
    ] {
        match pod_watch_step(&item) {
            PodStep::Send(ReferenceUpdate::Upsert { resource, images }) => {
                assert_eq!(resource, pod_object_key(&pod()));
                assert_eq!(images.len(), 4);
            }
            other => panic!("{other:?}"),
        }
    }
}

#[test]
fn deleted_pods_are_reported() {
    match pod_watch_step(&StreamItem::Event(WatchEvent::Delete(pod()))) {
        PodStep::Send(ReferenceUpdate::Delete(resource)) => {
            assert_eq!(resource, pod_object_key(&pod()));
        }
        other => panic!("{other:?}"),
    }
}

#[test]
fn the_rest_of_a_pod_watch_is_passed_over() {
    assert!(matches!(pod_watch_step(&StreamItem::Event(WatchEvent::Init)), PodStep::Skip));
    assert!(matches!(pod_watch_step(&StreamItem::Event(WatchEvent::InitDone)), PodStep::Skip));
    assert!(matches!(pod_watch_step(&StreamItem::Failed), PodStep::Skip));
    assert!(matches!(pod_watch_step(&StreamItem::Ended), PodStep::Stop));
}
