use qebbeq::copying::{MirrorAction, MirrorAttempt};
use qebbeq::mirroring::copy_outcome;
use qebbeq::resources::imagemirror::{ImageMirror, ImageMirrorSpec, MirrorPolicy};

fn mirror(repository: &str, platforms: &[&str]) -> ImageMirror {
    ImageMirror {
        name: "m".to_string(),
        namespace: None,
        spec: ImageMirrorSpec {
            upstream: String::new(),
            prefix: String::new(),
            upstream_registry: "quay.io".to_string(),
            repository: repository.to_string(),
            policy: MirrorPolicy::default(),
            platforms: platforms.iter().map(|p| p.to_string()).collect(),
        },
        status: None,
    }
}

fn begin(listed: Result<Vec<ImageMirror>, String>) -> MirrorAttempt {
    MirrorAttempt::begin("h.io/foo:1", &None, &listed)
}

fn told(attempt: &MirrorAttempt) -> String {
    match attempt.action() {
        MirrorAction::Copy(plan) => {
            format!("copy {} {} {:?}", plan.source, plan.destination, plan.platform)
        }
        MirrorAction::Succeed => "succeed".to_string(),
        MirrorAction::Fail(problem) => format!("fail: {problem}"),
    }
}

#[test]
fn copies_are_made_in_order_until_all_are_done() {
    let mut attempt = begin(Ok(vec![mirror("foo", &["a", "b"])]));
    assert_eq!(told(&attempt), r#"copy quay.io/foo:1 h.io/foo:1 Some("a")"#);
    attempt.step(copy_outcome(None, true));
    assert_eq!(told(&attempt), r#"copy quay.io/foo:1 h.io/foo:1 Some("b")"#);
    attempt.step(copy_outcome(None, true));
    assert_eq!(told(&attempt), "succeed");
    attempt.step(copy_outcome(None, false));
    assert_eq!(told(&attempt), "succeed");
}

#[test]
fn the_first_failed_copy_ends_the_attempt() {
    let mut attempt = begin(Ok(vec![mirror("foo", &["a", "b", "c"])]));
    attempt.step(Ok(()));
    attempt.step(copy_outcome(None, false));
    assert_eq!(told(&attempt), "fail: crane copy failed");
    attempt.step(Ok(()));
    assert_eq!(told(&attempt), "fail: crane copy failed");
}

#[test]
fn a_copy_that_cannot_be_started_ends_the_attempt() {
    let mut attempt = begin(Ok(vec![mirror("foo", &["a", "b"])]));
    attempt.step(copy_outcome(Some("not found".to_string()), false));
    assert_eq!(told(&attempt), "fail: failed to spawn 'crane': not found");
}

#[test]
fn one_copy_is_made_without_platforms() {
    let mut attempt = begin(Ok(vec![mirror("foo", &[])]));
    assert_eq!(told(&attempt), "copy quay.io/foo:1 h.io/foo:1 None");
    attempt.step(Ok(()));
    assert_eq!(told(&attempt), "succeed");
}

#[test]
fn without_a_mirror_nothing_is_copied() {
    let mut attempt = begin(Ok(vec![mirror("bar", &["a"])]));
    assert_eq!(told(&attempt), "fail: no ImageMirror found matching repo foo");
    attempt.step(Ok(()));
    assert_eq!(told(&attempt), "fail: no ImageMirror found matching repo foo");
    assert_eq!(told(&begin(Ok(Vec::new()))), "fail: no ImageMirror found matching repo foo");
}

#[test]
fn without_a_list_nothing_is_copied() {
    assert_eq!(told(&begin(Err("unreachable".to_string()))), "fail: unreachable");
}

#[test]
fn an_attempt_succeeds_exactly_with_all_its_copies() {
    for outcomes in 0..16u8 {
        let mut attempt = begin(Ok(vec![mirror("foo", &["a", "b", "c"])]));
        for i in 0..4 {
            attempt.step(copy_outcome(None, outcomes >> i & 1 == 1));
        }
        assert_eq!(told(&attempt) == "succeed", outcomes & 7 == 7);
    }
}
