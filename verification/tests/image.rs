use qebbeq::resources::image::{
    upsert_condition, upsert_condition_at, upsert_image_pull_backoff_condition,
    upsert_ready_condition, Condition, Image, ImageSpec, ImageStatus, ObjectKey, FINALIZER,
};
use qebbeq::sorted::SortedSet;
use qebbeq::time::Timestamp;

fn at(secs: i64) -> Timestamp {
    Timestamp::new(secs, 0).unwrap()
}

fn image(finalizers: Option<Vec<&str>>) -> Image {
    Image {
        name: "img".to_string(),
        namespace: Some("ns".to_string()),
        finalizers: finalizers.map(|f| f.into_iter().map(|s| s.to_string()).collect()),
        deleting: false,
        spec: ImageSpec { image: "h.io/a:1".to_string() },
        status: None,
    }
}

fn status_with(conditions: &[(&str, &str, Option<&str>)]) -> ImageStatus {
    let mut status = ImageStatus::default();
    for (type_, value, reason) in conditions {
        upsert_condition_at(&mut status.conditions, type_, value, *reason, None, at(1));
    }
    status
}

#[test]
fn first_report_adds_a_condition() {
    let mut conditions: Vec<Condition> = Vec::new();
    upsert_condition_at(&mut conditions, "Ready", "True", Some("Why"), Some("text"), at(5));
    assert_eq!(conditions.len(), 1);
    assert_eq!(conditions[0].type_, "Ready");
    assert_eq!(conditions[0].status, "True");
    assert_eq!(conditions[0].reason.as_deref(), Some("Why"));
    assert_eq!(conditions[0].message.as_deref(), Some("text"));
    assert_eq!(conditions[0].last_transition_time, Some(at(5)));
}

#[test]
fn a_new_status_moves_the_transition_time() {
    let mut conditions: Vec<Condition> = Vec::new();
    upsert_condition_at(&mut conditions, "Ready", "False", Some("Why"), None, at(5));
    upsert_condition_at(&mut conditions, "Ready", "True", None, Some("now"), at(9));
    assert_eq!(conditions.len(), 1);
    assert_eq!(conditions[0].status, "True");
    assert_eq!(conditions[0].reason, None);
    assert_eq!(conditions[0].message.as_deref(), Some("now"));
    assert_eq!(conditions[0].last_transition_time, Some(at(9)));
}

#[test]
fn the_same_status_keeps_the_transition_time() {
    let mut conditions: Vec<Condition> = Vec::new();
    upsert_condition_at(&mut conditions, "Ready", "True", Some("A"), None, at(5));
    upsert_condition_at(&mut conditions, "Ready", "True", Some("B"), Some("m"), at(9));
    assert_eq!(conditions[0].reason.as_deref(), Some("B"));
    assert_eq!(conditions[0].message.as_deref(), Some("m"));
    assert_eq!(conditions[0].last_transition_time, Some(at(5)));
}

#[test]
fn reporting_again_changes_nothing() {
    let mut once: Vec<Condition> = Vec::new();
    upsert_condition_at(&mut once, "Other", "Unknown", None, None, at(1));
    upsert_condition_at(&mut once, "Ready", "True", Some("A"), Some("m"), at(5));
    let mut twice: Vec<Condition> = once.iter().map(|c| c.clone()).collect();
    upsert_condition_at(&mut twice, "Ready", "True", Some("A"), Some("m"), at(9));
    assert_eq!(once.len(), twice.len());
    for i in 0..once.len() {
        assert!(once[i].same(&twice[i]));
    }
}

#[test]
fn other_conditions_stay_as_they_are() {
    let mut conditions: Vec<Condition> = Vec::new();
    upsert_condition_at(&mut conditions, "A", "True", None, None, at(1));
    upsert_condition_at(&mut conditions, "B", "False", Some("r"), None, at(2));
    upsert_condition_at(&mut conditions, "C", "True", None, None, at(3));
    let before = conditions[1].clone();
    upsert_condition_at(&mut conditions, "A", "False", None, None, at(4));
    upsert_condition_at(&mut conditions, "C", "False", None, None, at(5));
    assert!(conditions[1].same(&before));
    let types: Vec<&str> = conditions.iter().map(|c| c.type_.as_str()).collect();
    assert_eq!(types, ["A", "B", "C"]);
}

#[test]
fn only_the_first_of_two_conditions_of_a_type_changes() {
    let mut conditions = vec![Condition::default(), Condition::default()];
    upsert_condition_at(&mut conditions, "", "True", None, None, at(4));
    assert_eq!(conditions.len(), 2);
    assert_eq!(conditions[0].status, "True");
    assert_eq!(conditions[1].status, "");
    assert_eq!(conditions[1].last_transition_time, None);
}

#[test]
fn the_clock_dates_what_is_reported_now() {
    let before = Timestamp::now();
    let mut conditions: Vec<Condition> = Vec::new();
    upsert_ready_condition(&mut conditions, "True", Some("Reconciled"), None);
    upsert_image_pull_backoff_condition(&mut conditions, "False", None, Some("fine"));
    upsert_condition(&mut conditions, "Custom", "Unknown", None, None);
    let types: Vec<&str> = conditions.iter().map(|c| c.type_.as_str()).collect();
    assert_eq!(types, ["Ready", "ImagePullBackOff", "Custom"]);
    for c in &conditions {
        assert!(c.last_transition_time.unwrap().nanos_since(&before) < 60_000_000_000);
    }
    assert_eq!(conditions[0].reason.as_deref(), Some("Reconciled"));
    assert_eq!(conditions[1].message.as_deref(), Some("fine"));
}

#[test]
fn deletion_is_the_phase_above_all() {
    let status = status_with(&[("Ready", "True", None)]);
    assert_eq!(status.compute_phase(true, true), "Deleting");
    assert_eq!(status.compute_phase(false, true), "Deleting");
}

#[test]
fn unreferenced_images_are_retained_or_not() {
    let mut status = status_with(&[("Ready", "True", None)]);
    assert_eq!(status.compute_phase(false, false), "Unreferenced");
    status.retain_until = Some(at(100));
    assert_eq!(status.compute_phase(false, false), "Retaining");
}

#[test]
fn referenced_images_show_their_readiness() {
    assert_eq!(status_with(&[]).compute_phase(true, false), "Reconciling");
    assert_eq!(status_with(&[("Ready", "True", None)]).compute_phase(true, false), "Ready");
    assert_eq!(
        status_with(&[("Ready", "Unknown", Some("Reconciled"))]).compute_phase(true, false),
        "Reconciling"
    );
    assert_eq!(status_with(&[("Ready", "False", None)]).compute_phase(true, false), "Error");
    assert_eq!(
        status_with(&[("Ready", "False", Some("CopyFailed"))]).compute_phase(true, false),
        "CopyFailed"
    );
}

#[test]
fn back_off_explains_a_missing_readiness() {
    let backing_off =
        status_with(&[("ImagePullBackOff", "True", None), ("Ready", "False", Some("CopyFailed"))]);
    assert_eq!(backing_off.compute_phase(true, false), "ImagePullBackOff");
    let recovered =
        status_with(&[("ImagePullBackOff", "False", None), ("Ready", "False", Some("CopyFailed"))]);
    assert_eq!(recovered.compute_phase(true, false), "CopyFailed");
    let ready = status_with(&[("ImagePullBackOff", "True", None), ("Ready", "True", None)]);
    assert_eq!(ready.compute_phase(true, false), "Ready");
    let only = status_with(&[("ImagePullBackOff", "True", None)]);
    assert_eq!(only.compute_phase(true, false), "Reconciling");
}

#[test]
fn statuses_compare_field_by_field() {
    let status = status_with(&[("Ready", "True", Some("r"))]);
    assert!(status.same(&status.clone()));
    assert!(ImageStatus::default().same(&ImageStatus::default()));
    assert_eq!(status, status.clone());
    let changes: [fn(&mut ImageStatus); 8] = [
        |s| s.references = SortedSet::from_keys(vec![ObjectKey::default()]),
        |s| s.retain_until = Some(at(1)),
        |s| s.last_pulled_at = Some(at(1)),
        |s| s.conditions[0].status = "False".to_string(),
        |s| s.phase = Some("Ready".to_string()),
        |s| s.mirrored = Some(false),
        |s| s.last_mirror_time = Some(at(1)),
        |s| s.last_unreferenced = Some(at(1)),
    ];
    for change in changes {
        let mut other = status.clone();
        change(&mut other);
        assert!(!status.same(&other));
        assert!(!other.same(&status));
        assert!(status != other);
        assert!(other.same(&other.clone()));
    }
}

#[test]
fn conditions_compare_field_by_field() {
    let condition = Condition::default();
    let changes: [fn(&mut Condition); 5] = [
        |c| c.type_ = "x".to_string(),
        |c| c.status = "x".to_string(),
        |c| c.reason = Some(String::new()),
        |c| c.message = Some(String::new()),
        |c| c.last_transition_time = Some(at(0)),
    ];
    for change in changes {
        let mut other = condition.clone();
        change(&mut other);
        assert!(!condition.same(&other));
        assert_ne!(condition, other);
        assert!(other.same(&other.clone()));
    }
}

#[test]
fn an_image_is_held_by_its_finalizer() {
    assert!(!image(None).is_held());
    assert!(!image(Some(vec![])).is_held());
    assert!(!image(Some(vec!["other"])).is_held());
    assert!(image(Some(vec!["other", FINALIZER])).is_held());
    assert_eq!(FINALIZER, "qebbeq.tuco86.dev/finalizer");
}

#[test]
fn holding_an_image_adds_the_finalizer_at_the_end() {
    assert_eq!(image(None).finalizers_with(), [FINALIZER]);
    assert_eq!(image(Some(vec!["other"])).finalizers_with(), ["other", FINALIZER]);
}

#[test]
fn letting_go_of_an_image_keeps_other_finalizers_in_order() {
    assert_eq!(image(None).finalizers_without(), Vec::<String>::new());
    assert_eq!(
        image(Some(vec!["b", FINALIZER, "a", FINALIZER])).finalizers_without(),
        ["b", "a"]
    );
}

#[test]
fn holding_and_letting_go_comes_back_to_the_start() {
    let mut held = image(Some(vec!["b", "a"]));
    held.finalizers = Some(held.finalizers_with());
    assert!(held.is_held());
    held.finalizers = Some(held.finalizers_without());
    assert!(!held.is_held());
    assert_eq!(held.finalizers, Some(vec!["b".to_string(), "a".to_string()]));
}

#[test]
fn a_default_key_is_empty() {
    let key = ObjectKey::default();
    assert_eq!(key.api_version, "");
    assert_eq!(key.kind, "");
    assert_eq!(key.namespace, "");
    assert_eq!(key.name, "");
    assert_eq!(key, key.clone());
}
