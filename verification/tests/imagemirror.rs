use qebbeq::resources::imagemirror::{
    default_platforms, ImageMirror, ImageMirrorSpec, ImageMirrorStatus, MirrorPolicy,
    MirrorPolicyType,
};
use qebbeq::time::Timestamp;

fn at(secs: i64) -> Timestamp {
    Timestamp::new(secs, 0).unwrap()
}

fn mirror(status: Option<ImageMirrorStatus>) -> ImageMirror {
    ImageMirror {
        name: "quay-foo-bar".to_string(),
        namespace: None,
        spec: ImageMirrorSpec {
            upstream: "quay.io".to_string(),
            prefix: "oci.mydomain.com/foo/bar".to_string(),
            upstream_registry: "quay.io".to_string(),
            repository: "foo/bar".to_string(),
            policy: MirrorPolicy::default(),
            platforms: default_platforms(),
        },
        status,
    }
}

#[test]
fn one_platform_is_the_default() {
    assert_eq!(default_platforms(), ["linux/amd64"]);
}

#[test]
fn lazy_fetching_is_the_default_policy() {
    let policy = MirrorPolicy::default();
    assert_eq!(policy.type_, MirrorPolicyType::IfNotPresent);
    assert_eq!(policy.interval_seconds, None);
}

#[test]
fn the_first_report_starts_a_status() {
    let status = mirror(None).reported_status_at(None, "True", Some("Accepted"), None, at(3));
    assert_eq!(status.last_sync_time, None);
    assert_eq!(status.conditions.len(), 1);
    assert_eq!(status.conditions[0].type_, "Ready");
    assert_eq!(status.conditions[0].status, "True");
    assert_eq!(status.conditions[0].reason.as_deref(), Some("Accepted"));
    assert_eq!(status.conditions[0].message, None);
    assert_eq!(status.conditions[0].last_transition_time, Some(at(3)));
}

#[test]
fn a_report_without_a_look_keeps_the_last_one() {
    let first = mirror(None).reported_status_at(Some(at(1)), "True", None, None, at(3));
    assert_eq!(first.last_sync_time, Some(at(1)));
    let kept = mirror(Some(first.clone())).reported_status_at(None, "False", None, None, at(5));
    assert_eq!(kept.last_sync_time, Some(at(1)));
    assert_eq!(kept.conditions[0].last_transition_time, Some(at(5)));
    let moved = mirror(Some(first)).reported_status_at(Some(at(4)), "True", None, None, at(5));
    assert_eq!(moved.last_sync_time, Some(at(4)));
    assert_eq!(moved.conditions[0].last_transition_time, Some(at(3)));
}

#[test]
fn the_clock_dates_a_report() {
    let before = Timestamp::now();
    let status = mirror(None).reported_status(None, "True", None, Some("m"));
    let reported = status.conditions[0].last_transition_time.unwrap();
    assert!(reported.nanos_since(&before) < 60_000_000_000);
    assert_eq!(status.conditions[0].message.as_deref(), Some("m"));
}
