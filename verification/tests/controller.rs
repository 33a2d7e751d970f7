use qebbeq::config::ControllerConfig;
use qebbeq::controller::{
    find_image_crs, Controller, ControllerAction, ControllerEvent, Lookup,
};
use qebbeq::naming::generate_image_name;
use qebbeq::resources::image::{Image, ImageSpec, ObjectKey};
use qebbeq::watch::{StreamItem, WatchEvent};
use qebbeq::workload::{ReferenceUpdate, ResourceImageRef};

fn controller() -> Controller {
    Controller::new(ControllerConfig {
        namespace: "ctl".to_string(),
        registry_host: "h.io".to_string(),
    })
}

fn pod(name: &str) -> ObjectKey {
    ObjectKey {
        api_version: "v1".to_string(),
        kind: "Pod".to_string(),
        namespace: "ns".to_string(),
        name: name.to_string(),
    }
}

fn image(name: &str, image_ref: &str) -> Image {
    Image {
        name: name.to_string(),
        namespace: Some("ctl".to_string()),
        finalizers: None,
        deleting: false,
        spec: ImageSpec { image: image_ref.to_string() },
        status: None,
    }
}

fn upsert(name: &str, images: &[&str]) -> ControllerEvent {
    ControllerEvent::Update(ReferenceUpdate::Upsert {
        resource: pod(name),
        images: images
            .iter()
            .map(|i| ResourceImageRef { path: String::new(), image: i.to_string() })
            .collect(),
    })
}

fn delete(name: &str) -> ControllerEvent {
    ControllerEvent::Update(ReferenceUpdate::Delete(pod(name)))
}

fn applied(name: &str, image_ref: &str) -> ControllerEvent {
    ControllerEvent::Item(StreamItem::Event(WatchEvent::Apply(image(name, image_ref))))
}

/// What an action asks for, in one line.
fn told(action: ControllerAction) -> String {
    match action {
        ControllerAction::Wait => "wait".to_string(),
        ControllerAction::LookUp { namespace, name } => format!("look up {namespace}/{name}"),
        ControllerAction::Create { namespace, name, image } => {
            format!("create {namespace}/{name} {image}")
        }
        ControllerAction::List => "list".to_string(),
        ControllerAction::Reconcile { images, references } => {
            let images: Vec<String> = images.into_iter().map(|i| i.name).collect();
            let refs: Vec<String> =
                (0..references.len()).map(|i| references.get(i).name.clone()).collect();
            format!("reconcile {images:?} {refs:?}")
        }
        ControllerAction::Stop => "stop".to_string(),
        ControllerAction::Fail => "fail".to_string(),
    }
}

fn cluster() -> ControllerEvent {
    ControllerEvent::Listed(Some(vec![
        image("b", "h.io/b:1"),
        image("a", "h.io/a:1"),
        image("a2", "h.io/a:1"),
    ]))
}

/// A controller that tracks a pod with the images `h.io/a:1` and `h.io/b:1`.
fn tracking() -> Controller {
    let mut c = controller();
    told(c.step(upsert("p", &["h.io/a:1", "h.io/b:1"])));
    told(c.step(ControllerEvent::LookedUp(Lookup::Found)));
    assert_eq!(told(c.step(ControllerEvent::LookedUp(Lookup::Found))), "list");
    told(c.step(cluster()));
    told(c.step(ControllerEvent::Reconciled));
    told(c.step(cluster()));
    assert_eq!(told(c.step(ControllerEvent::Reconciled)), "wait");
    c
}

#[test]
fn images_are_found_by_their_reference() {
    let list = vec![image("b", "x"), image("a", "y"), image("c", "x")];
    let found = find_image_crs(&list, "x").unwrap();
    let names: Vec<&str> = found.iter().map(|i| i.name.as_str()).collect();
    assert_eq!(names, ["b", "c"]);
    assert!(find_image_crs(&list, "z").is_none());
    assert!(find_image_crs(&Vec::new(), "x").is_none());
}

#[test]
fn a_new_image_is_looked_up_created_and_reconciled() {
    let name = generate_image_name("h.io/a:1");
    let mut c = controller();
    assert_eq!(told(c.step(upsert("p", &["h.io/a:1", "nginx"]))), format!("look up ctl/{name}"));
    assert_eq!(
        told(c.step(ControllerEvent::LookedUp(Lookup::Absent))),
        format!("create ctl/{name} h.io/a:1")
    );
    assert_eq!(told(c.step(ControllerEvent::Created)), "list");
    assert_eq!(told(c.step(cluster())), r#"reconcile ["a", "a2"] ["p"]"#);
    assert_eq!(told(c.step(ControllerEvent::Reconciled)), "wait");
}

#[test]
fn images_are_handled_in_order() {
    let mut c = controller();
    let a = generate_image_name("h.io/a:1");
    let b = generate_image_name("h.io/b:1");
    assert_eq!(told(c.step(upsert("p", &["h.io/b:1", "h.io/a:1"]))), format!("look up ctl/{a}"));
    assert_eq!(
        told(c.step(ControllerEvent::LookedUp(Lookup::Found))),
        format!("look up ctl/{b}")
    );
    assert_eq!(told(c.step(ControllerEvent::LookedUp(Lookup::Found))), "list");
    assert_eq!(told(c.step(cluster())), r#"reconcile ["a", "a2"] ["p"]"#);
    assert_eq!(told(c.step(ControllerEvent::Reconciled)), "list");
    assert_eq!(told(c.step(cluster())), r#"reconcile ["b"] ["p"]"#);
    assert_eq!(told(c.step(ControllerEvent::Reconciled)), "wait");
}

#[test]
fn images_of_other_registries_are_ignored() {
    let mut c = controller();
    assert_eq!(told(c.step(upsert("p", &["nginx", "quay.io/a:1"]))), "wait");
    assert_eq!(told(c.step(delete("p"))), "wait");
    assert_eq!(told(c.step(applied("q", "quay.io/a:1"))), r#"reconcile ["q"] []"#);
}

#[test]
fn a_known_image_is_not_looked_up_again() {
    let mut c = tracking();
    assert_eq!(told(c.step(upsert("q", &["h.io/a:1"]))), "list");
    assert_eq!(told(c.step(cluster())), r#"reconcile ["a", "a2"] ["p", "q"]"#);
    assert_eq!(told(c.step(ControllerEvent::Reconciled)), "wait");
}

#[test]
fn images_that_a_pod_left_are_reconciled_too() {
    let mut c = tracking();
    assert_eq!(told(c.step(upsert("p", &["h.io/b:1"]))), "list");
    assert_eq!(told(c.step(cluster())), r#"reconcile ["a", "a2"] []"#);
    assert_eq!(told(c.step(ControllerEvent::Reconciled)), "list");
    assert_eq!(told(c.step(cluster())), r#"reconcile ["b"] ["p"]"#);
    assert_eq!(told(c.step(ControllerEvent::Reconciled)), "wait");
}

#[test]
fn a_deleted_pod_leaves_its_images_without_references() {
    let mut c = tracking();
    assert_eq!(told(c.step(delete("p"))), "list");
    assert_eq!(told(c.step(cluster())), r#"reconcile ["a", "a2"] []"#);
    assert_eq!(told(c.step(ControllerEvent::Reconciled)), "list");
    assert_eq!(told(c.step(cluster())), r#"reconcile ["b"] []"#);
    assert_eq!(told(c.step(ControllerEvent::Reconciled)), "wait");
    assert_eq!(told(c.step(delete("p"))), "wait");
}

#[test]
fn images_without_a_resource_are_passed_over() {
    let mut c = tracking();
    assert_eq!(told(c.step(delete("p"))), "list");
    let only_b = ControllerEvent::Listed(Some(vec![image("b", "h.io/b:1")]));
    assert_eq!(told(c.step(only_b)), "list");
    assert_eq!(told(c.step(ControllerEvent::Listed(Some(Vec::new())))), "wait");
}

#[test]
fn a_changed_resource_is_reconciled_with_its_references() {
    let mut c = tracking();
    assert_eq!(told(c.step(applied("a", "h.io/a:1"))), r#"reconcile ["a"] ["p"]"#);
    assert_eq!(told(c.step(ControllerEvent::Reconciled)), "wait");
    let listed =
        ControllerEvent::Item(StreamItem::Event(WatchEvent::InitApply(image("z", "h.io/z:1"))));
    assert_eq!(told(c.step(listed)), r#"reconcile ["z"] []"#);
    assert_eq!(told(c.step(ControllerEvent::Reconciled)), "wait");
}

#[test]
fn the_rest_of_the_image_watch_is_passed_over() {
    let mut c = controller();
    let deleted = WatchEvent::Delete(image("a", "h.io/a:1"));
    assert_eq!(told(c.step(ControllerEvent::Item(StreamItem::Event(deleted)))), "wait");
    assert_eq!(told(c.step(ControllerEvent::Item(StreamItem::Event(WatchEvent::Init)))), "wait");
    assert_eq!(
        told(c.step(ControllerEvent::Item(StreamItem::Event(WatchEvent::InitDone)))),
        "wait"
    );
    assert_eq!(told(c.step(ControllerEvent::Item(StreamItem::Failed))), "wait");
}

#[test]
fn the_controller_stops_when_it_is_told_to() {
    let mut c = controller();
    assert_eq!(told(c.step(ControllerEvent::Cancelled)), "stop");
    assert_eq!(told(c.step(upsert("p", &["h.io/a:1"]))), "stop");
    let mut c = controller();
    assert_eq!(told(c.step(ControllerEvent::Item(StreamItem::Ended))), "stop");
}

#[test]
fn a_failed_lookup_ends_the_controller() {
    let mut c = controller();
    told(c.step(upsert("p", &["h.io/a:1"])));
    assert_eq!(told(c.step(ControllerEvent::LookedUp(Lookup::Failed))), "fail");
    assert_eq!(told(c.step(ControllerEvent::Reconciled)), "stop");
}

#[test]
fn a_failed_listing_ends_the_controller() {
    let mut c = tracking();
    assert_eq!(told(c.step(delete("p"))), "list");
    assert_eq!(told(c.step(ControllerEvent::Listed(None))), "fail");
}

#[test]
fn events_out_of_turn_change_nothing() {
    let mut c = controller();
    assert_eq!(told(c.step(ControllerEvent::Created)), "wait");
    assert_eq!(told(c.step(cluster())), "wait");
    let name = generate_image_name("h.io/a:1");
    told(c.step(upsert("p", &["h.io/a:1"])));
    assert_eq!(told(c.step(ControllerEvent::Reconciled)), "wait");
    assert_eq!(
        told(c.step(ControllerEvent::LookedUp(Lookup::Absent))),
        format!("create ctl/{name} h.io/a:1")
    );
    assert_eq!(told(c.step(cluster())), "wait");
    assert_eq!(told(c.step(ControllerEvent::Created)), "list");
    assert_eq!(told(c.step(ControllerEvent::Created)), "wait");
    assert_eq!(told(c.step(cluster())), r#"reconcile ["a", "a2"] ["p"]"#);
    assert_eq!(told(c.step(ControllerEvent::Cancelled)), "wait");
    assert_eq!(told(c.step(ControllerEvent::Reconciled)), "wait");
}

#[test]
fn the_latest_updates_decide_the_references() {
    let mut c = tracking();
    for event in [upsert("q", &["h.io/a:1"]), upsert("r", &["h.io/a:1"]), upsert("q", &[])] {
        let mut action = told(c.step(event));
        while action != "wait" {
            let answer =
                if action == "list" { cluster() } else { ControllerEvent::Reconciled };
            action = told(c.step(answer));
        }
    }
    assert_eq!(told(c.step(applied("a", "h.io/a:1"))), r#"reconcile ["a"] ["p", "r"]"#);
}
