use qebbeq::reconcile::{
    release_after_retention, removal_after_retention, Readings, Reconcile, ReconcileAction,
};
use qebbeq::resources::image::{Image, ImageSpec, ImageStatus, ObjectKey, FINALIZER};
use qebbeq::sorted::SortedSet;
use qebbeq::time::Timestamp;

const SECOND: u128 = 1_000_000_000;

fn at(secs: i64) -> Timestamp {
    Timestamp::new(secs, 0).unwrap()
}

fn times(noted: i64, reported: i64, checked: i64) -> Readings {
    Readings { noted: at(noted), reported: at(reported), checked: at(checked) }
}

fn refs(names: &[&str]) -> SortedSet<ObjectKey> {
    SortedSet::from_keys(
        names
            .iter()
            .map(|n| ObjectKey { name: n.to_string(), ..ObjectKey::default() })
            .collect(),
    )
}

fn image(held: bool, deleting: bool, status: Option<ImageStatus>) -> Image {
    let mut finalizers = vec!["other".to_string()];
    if held {
        finalizers.push(FINALIZER.to_string());
    }
    Image {
        name: "img".to_string(),
        namespace: Some("ns".to_string()),
        finalizers: Some(finalizers),
        deleting,
        spec: ImageSpec { image: "h.io/a:1".to_string() },
        status,
    }
}

fn patched(action: ReconcileAction) -> ImageStatus {
    match action {
        ReconcileAction::PatchStatus(status) => status,
        _ => panic!("no status was written"),
    }
}

/// The status of a referenced image that was copied at second 10.
fn mirrored_status() -> ImageStatus {
    let mut r = Reconcile::begin(image(true, false, None), refs(&["p"]), SECOND);
    assert!(matches!(r.step_at(true, times(1, 2, 3)), ReconcileAction::Mirror));
    patched(r.step_at(true, times(10, 11, 12)))
}

/// The status of an image that lost its references at second 100.
fn unreferenced_status() -> ImageStatus {
    let mut r = Reconcile::begin(image(true, false, None), refs(&[]), SECOND);
    patched(r.step_at(true, times(100, 101, 102)))
}

#[test]
fn an_image_that_is_not_held_gets_the_finalizer_first() {
    let mut r = Reconcile::begin(image(false, false, None), refs(&["p"]), SECOND);
    match r.step_at(true, times(1, 2, 3)) {
        ReconcileAction::AddFinalizer(f) => assert_eq!(f, ["other", FINALIZER]),
        _ => panic!("no finalizer was added"),
    }
    assert!(matches!(r.step_at(false, times(1, 2, 3)), ReconcileAction::Mirror));
}

#[test]
fn an_image_that_is_being_deleted_gets_the_finalizer_too() {
    let mut r = Reconcile::begin(image(false, true, None), refs(&[]), SECOND);
    assert!(matches!(r.step_at(true, times(1, 2, 3)), ReconcileAction::AddFinalizer(_)));
    patched(r.step_at(true, times(1, 2, 3)));
    match r.step_at(true, times(1, 2, 3)) {
        ReconcileAction::RemoveFinalizer(f) => assert_eq!(f, ["other"]),
        _ => panic!("the image was not let go of"),
    }
}

#[test]
fn a_copied_image_is_ready() {
    let status = mirrored_status();
    assert_eq!(status.references.len(), 1);
    assert_eq!(status.mirrored, Some(true));
    assert_eq!(status.last_mirror_time, Some(at(10)));
    assert_eq!(status.last_unreferenced, None);
    assert_eq!(status.conditions.len(), 1);
    assert_eq!(status.conditions[0].type_, "Ready");
    assert_eq!(status.conditions[0].status, "True");
    assert_eq!(status.conditions[0].reason.as_deref(), Some("Reconciled"));
    assert_eq!(status.conditions[0].message, None);
    assert_eq!(status.conditions[0].last_transition_time, Some(at(11)));
}

#[test]
fn an_image_that_could_not_be_copied_is_not_ready() {
    let mut r = Reconcile::begin(image(true, false, None), refs(&["p"]), SECOND);
    assert!(matches!(r.step_at(true, times(1, 2, 3)), ReconcileAction::Mirror));
    let status = patched(r.step_at(false, times(10, 11, 12)));
    assert_eq!(status.mirrored, None);
    assert_eq!(status.last_mirror_time, None);
    assert_eq!(status.conditions[0].status, "Unknown");
    assert!(matches!(r.step_at(true, times(1, 2, 3)), ReconcileAction::Done));
}

#[test]
fn an_image_known_not_to_be_mirrored_is_copied() {
    let mut known = mirrored_status();
    known.mirrored = Some(false);
    let mut r = Reconcile::begin(image(true, false, Some(known)), refs(&["p"]), SECOND);
    assert!(matches!(r.step_at(true, times(1, 2, 3)), ReconcileAction::Mirror));
}

#[test]
fn a_mirrored_image_is_not_copied_again() {
    let found = image(true, false, Some(mirrored_status()));
    let mut r = Reconcile::begin(found, refs(&["p", "q"]), SECOND);
    let status = patched(r.step_at(true, times(20, 21, 22)));
    assert_eq!(status.references.len(), 2);
    assert_eq!(status.last_mirror_time, Some(at(10)));
    assert_eq!(status.conditions[0].last_transition_time, Some(at(11)));
    assert!(matches!(r.step_at(true, times(20, 21, 22)), ReconcileAction::Done));
}

#[test]
fn a_truthful_image_is_left_alone() {
    let found = image(true, false, Some(mirrored_status()));
    let mut r = Reconcile::begin(found, refs(&["p"]), SECOND);
    assert!(matches!(r.step_at(true, times(50, 51, 52)), ReconcileAction::Done));
}

#[test]
fn a_copy_that_fails_again_changes_nothing() {
    let mut r = Reconcile::begin(image(true, false, None), refs(&["p"]), SECOND);
    r.step_at(true, times(1, 2, 3));
    let status = patched(r.step_at(false, times(1, 2, 3)));
    let mut again = Reconcile::begin(image(true, false, Some(status)), refs(&["p"]), SECOND);
    assert!(matches!(again.step_at(true, times(4, 5, 6)), ReconcileAction::Mirror));
    assert!(matches!(again.step_at(false, times(4, 5, 6)), ReconcileAction::Done));
}

#[test]
fn a_failed_status_is_written_another_way() {
    let mut r = Reconcile::begin(image(true, false, None), refs(&[]), 60 * SECOND);
    let first = patched(r.step_at(true, times(100, 101, 102)));
    match r.step_at(false, times(103, 104, 105)) {
        ReconcileAction::MergeStatus(status) => assert!(status.same(&first)),
        _ => panic!("the status was given up"),
    }
    match r.step_at(false, times(106, 107, 110)) {
        ReconcileAction::ScheduleRelease(n) => assert_eq!(n, 50 * SECOND),
        _ => panic!("no release was scheduled"),
    }
    assert!(matches!(r.step_at(true, times(1, 2, 3)), ReconcileAction::Done));
}

#[test]
fn an_image_without_references_notes_since_when() {
    let status = unreferenced_status();
    assert_eq!(status.last_unreferenced, Some(at(100)));
    assert_eq!(status.conditions[0].status, "Unknown");
    assert!(status.references.is_empty());
}

#[test]
fn the_retention_counts_from_the_last_reference() {
    let found = image(true, false, Some(unreferenced_status()));
    let mut r = Reconcile::begin(found, refs(&[]), 60 * SECOND);
    match r.step_at(true, times(120, 121, 130)) {
        ReconcileAction::ScheduleRelease(n) => assert_eq!(n, 30 * SECOND),
        _ => panic!("no release was scheduled"),
    }
    let found = image(true, false, Some(unreferenced_status()));
    let mut late = Reconcile::begin(found, refs(&[]), 60 * SECOND);
    match late.step_at(true, times(900, 900, 900)) {
        ReconcileAction::ScheduleRelease(n) => assert_eq!(n, 0),
        _ => panic!("no release was scheduled"),
    }
}

#[test]
fn a_new_reference_ends_the_retention() {
    let found = image(true, false, Some(unreferenced_status()));
    let mut r = Reconcile::begin(found, refs(&["p"]), SECOND);
    assert!(matches!(r.step_at(true, times(200, 201, 202)), ReconcileAction::Mirror));
    let status = patched(r.step_at(true, times(203, 204, 205)));
    assert_eq!(status.last_unreferenced, None);
    assert_eq!(status.conditions[0].status, "True");
    assert_eq!(status.conditions[0].last_transition_time, Some(at(204)));
    assert!(matches!(r.step_at(true, times(203, 204, 205)), ReconcileAction::Done));
}

#[test]
fn a_referenced_image_is_never_let_go_of() {
    let found = image(true, true, Some(mirrored_status()));
    let mut r = Reconcile::begin(found, refs(&["p"]), 0);
    assert!(matches!(r.step_at(true, times(1, 2, 3)), ReconcileAction::Done));
}

#[test]
fn a_deleted_image_without_references_is_let_go_of_at_once() {
    let found = image(true, true, Some(unreferenced_status()));
    let mut r = Reconcile::begin(found, refs(&[]), 60 * SECOND);
    match r.step_at(true, times(120, 121, 122)) {
        ReconcileAction::RemoveFinalizer(f) => assert_eq!(f, ["other"]),
        _ => panic!("the image was not let go of"),
    }
    assert!(matches!(r.step_at(true, times(1, 2, 3)), ReconcileAction::Done));
}

#[test]
fn every_reconciliation_ends_after_five_actions() {
    for outcomes in 0..32u8 {
        for held in [true, false] {
            for deleting in [true, false] {
                for names in [&[][..], &["p"][..]] {
                    let mut r = Reconcile::begin(image(held, deleting, None), refs(names), SECOND);
                    for i in 0..5 {
                        r.step_at(outcomes >> i & 1 == 1, times(1, 2, 3));
                    }
                    assert!(matches!(r.step_at(true, times(1, 2, 3)), ReconcileAction::Done));
                }
            }
        }
    }
}

#[test]
fn a_step_reads_the_clock() {
    let before = Timestamp::now();
    let mut r = Reconcile::begin(image(true, false, None), refs(&[]), SECOND);
    let status = patched(r.step(true));
    assert!(status.last_unreferenced.unwrap().nanos_since(&before) < 60 * SECOND);
    assert_eq!(r.image().name, "img");
}

#[test]
fn an_image_is_released_after_its_retention() {
    let current = image(true, false, Some(unreferenced_status()));
    assert_eq!(release_after_retention(&refs(&[]), &current).unwrap(), ["other"]);
    let unknown = image(true, false, None);
    assert_eq!(release_after_retention(&refs(&[]), &unknown).unwrap(), ["other"]);
}

#[test]
fn an_image_that_is_referenced_again_is_kept() {
    let current = image(true, false, Some(mirrored_status()));
    assert!(release_after_retention(&refs(&[]), &current).is_none());
    let unreferenced = image(true, false, Some(unreferenced_status()));
    assert!(release_after_retention(&refs(&["p"]), &unreferenced).is_none());
}

#[test]
fn an_image_that_is_not_held_is_not_released() {
    let current = image(false, false, Some(unreferenced_status()));
    assert!(release_after_retention(&refs(&[]), &current).is_none());
}

#[test]
fn a_released_image_is_to_be_removed_from_the_registry() {
    let cases = [
        (image(true, false, Some(unreferenced_status())), refs(&[])),
        (image(true, false, None), refs(&[])),
        (image(true, false, Some(mirrored_status())), refs(&[])),
        (image(true, false, Some(unreferenced_status())), refs(&["p"])),
        (image(false, false, Some(unreferenced_status())), refs(&[])),
    ];
    let removed: Vec<Option<String>> =
        cases.iter().map(|(i, snapshot)| removal_after_retention(snapshot, i)).collect();
    let named = Some("h.io/a:1".to_string());
    assert_eq!(removed, [named.clone(), named, None, None, None]);
    for (i, snapshot) in &cases {
        assert_eq!(
            removal_after_retention(snapshot, i).is_some(),
            release_after_retention(snapshot, i).is_some()
        );
    }
}

#[test]
fn a_truthful_image_that_is_not_held_only_gets_the_finalizer() {
    let found = image(false, false, Some(mirrored_status()));
    let mut r = Reconcile::begin(found, refs(&["p"]), SECOND);
    assert!(matches!(r.step_at(true, times(50, 51, 52)), ReconcileAction::AddFinalizer(_)));
    assert!(matches!(r.step_at(false, times(53, 54, 55)), ReconcileAction::Done));
}
