use qebbeq::polling::{
    poll_tick, poll_tick_at, Fetched, MirrorKey, PollTick, Pollers, PollingStep,
    DEFAULT_INTERVAL,
};
use qebbeq::resources::imagemirror::{
    default_platforms, ImageMirror, ImageMirrorSpec, ImageMirrorStatus, MirrorPolicy,
    MirrorPolicyType,
};
use qebbeq::sorted::{Comparison, Key, SortedSet};
use qebbeq::time::Timestamp;
use qebbeq::watch::{StreamItem, WatchEvent};

fn at(secs: i64) -> Timestamp {
    Timestamp::new(secs, 0).unwrap()
}

fn mirror(name: &str, type_: MirrorPolicyType, interval_seconds: Option<u32>) -> ImageMirror {
    ImageMirror {
        name: name.to_string(),
        namespace: Some("ns".to_string()),
        spec: ImageMirrorSpec {
            upstream: String::new(),
            prefix: String::new(),
            upstream_registry: "quay.io".to_string(),
            repository: "foo".to_string(),
            policy: MirrorPolicy { type_, interval_seconds },
            platforms: default_platforms(),
        },
        status: None,
    }
}

fn polled(name: &str) -> ImageMirror {
    mirror(name, MirrorPolicyType::Poll, Some(60))
}

fn lazy(name: &str) -> ImageMirror {
    mirror(name, MirrorPolicyType::IfNotPresent, Some(60))
}

fn apply(m: ImageMirror) -> StreamItem<ImageMirror> {
    StreamItem::Event(WatchEvent::Apply(m))
}

fn accepted(step: PollingStep) -> (String, bool, ImageMirrorStatus, Option<u32>) {
    match step {
        PollingStep::Accept { key, cancel, status, poll_every } => {
            (format!("{}/{}", key.ns, key.name), cancel, status, poll_every)
        }
        _ => panic!("the mirror was not accepted"),
    }
}

fn names(keys: &SortedSet<MirrorKey>) -> Vec<String> {
    (0..keys.len()).map(|i| keys.get(i).name.clone()).collect()
}

#[test]
fn a_lazy_mirror_is_accepted() {
    let mut pollers = Pollers::new();
    let (key, cancel, status, poll_every) = accepted(pollers.step_at(&apply(lazy("m")), at(5)));
    assert_eq!(key, "ns/m");
    assert!(!cancel);
    assert_eq!(poll_every, None);
    assert_eq!(status.last_sync_time, None);
    assert_eq!(status.conditions[0].type_, "Ready");
    assert_eq!(status.conditions[0].status, "True");
    assert_eq!(status.conditions[0].reason.as_deref(), Some("Accepted"));
    assert_eq!(status.conditions[0].message.as_deref(), Some("Lazy fetch (IfNotPresent)"));
    assert_eq!(status.conditions[0].last_transition_time, Some(at(5)));
    assert!(pollers.cancel_all().is_empty());
}

#[test]
fn a_polled_mirror_gets_a_poller() {
    let mut pollers = Pollers::new();
    let item = StreamItem::Event(WatchEvent::InitApply(polled("m")));
    let (key, cancel, status, poll_every) = accepted(pollers.step_at(&item, at(5)));
    assert_eq!(key, "ns/m");
    assert!(!cancel);
    assert_eq!(poll_every, Some(60));
    assert_eq!(status.conditions[0].reason.as_deref(), Some("Polling"));
    assert_eq!(status.conditions[0].message.as_deref(), Some("Active polling"));
    assert_eq!(names(&pollers.cancel_all()), ["m"]);
    assert!(pollers.cancel_all().is_empty());
}

#[test]
fn polling_happens_every_five_minutes_by_default() {
    let mut pollers = Pollers::new();
    let m = mirror("m", MirrorPolicyType::Poll, None);
    assert_eq!(accepted(pollers.step_at(&apply(m), at(5))).3, Some(300));
    assert_eq!(DEFAULT_INTERVAL, 300);
}

#[test]
fn a_poller_is_replaced() {
    let mut pollers = Pollers::new();
    assert!(!accepted(pollers.step_at(&apply(polled("m")), at(5))).1);
    assert!(accepted(pollers.step_at(&apply(polled("m")), at(6))).1);
    assert_eq!(names(&pollers.cancel_all()), ["m"]);
}

#[test]
fn a_mirror_that_turns_lazy_loses_its_poller() {
    let mut pollers = Pollers::new();
    accepted(pollers.step_at(&apply(polled("m")), at(5)));
    let (_, cancel, _, poll_every) = accepted(pollers.step_at(&apply(lazy("m")), at(6)));
    assert!(cancel);
    assert_eq!(poll_every, None);
    assert!(!accepted(pollers.step_at(&apply(lazy("m")), at(7))).1);
    assert!(pollers.cancel_all().is_empty());
}

#[test]
fn a_deleted_mirror_loses_its_poller() {
    let mut pollers = Pollers::new();
    accepted(pollers.step_at(&apply(polled("m")), at(5)));
    let gone = StreamItem::Event(WatchEvent::Delete(polled("m")));
    match pollers.step_at(&gone, at(6)) {
        PollingStep::Forget { key, cancel } => {
            assert_eq!(key, MirrorKey { ns: "ns".to_string(), name: "m".to_string() });
            assert!(cancel);
        }
        _ => panic!("the mirror was kept"),
    }
    assert!(matches!(
        pollers.step_at(&gone, at(7)),
        PollingStep::Forget { cancel: false, .. }
    ));
}

#[test]
fn mirrors_do_not_disturb_each_other() {
    let mut pollers = Pollers::new();
    accepted(pollers.step_at(&apply(polled("b")), at(5)));
    accepted(pollers.step_at(&apply(polled("a")), at(5)));
    let mut elsewhere = lazy("a");
    elsewhere.namespace = None;
    let (key, cancel, _, _) = accepted(pollers.step_at(&apply(elsewhere), at(5)));
    assert_eq!(key, "/a");
    assert!(!cancel);
    assert_eq!(names(&pollers.cancel_all()), ["a", "b"]);
}

#[test]
fn the_end_of_the_watch_cancels_all_pollers() {
    let mut pollers = Pollers::new();
    accepted(pollers.step_at(&apply(polled("b")), at(5)));
    accepted(pollers.step_at(&apply(polled("a")), at(5)));
    match pollers.step_at(&StreamItem::Ended, at(6)) {
        PollingStep::Stop { keys } => assert_eq!(names(&keys), ["a", "b"]),
        _ => panic!("the watch goes on"),
    }
    assert!(pollers.cancel_all().is_empty());
}

#[test]
fn the_rest_of_the_mirror_watch_is_passed_over() {
    let mut pollers = Pollers::new();
    for item in [
        StreamItem::Event(WatchEvent::Init),
        StreamItem::Event(WatchEvent::InitDone),
        StreamItem::Failed,
    ] {
        assert!(matches!(pollers.step_at(&item, at(1)), PollingStep::Skip));
    }
}

#[test]
fn an_accepted_mirror_is_dated_by_the_clock() {
    let before = Timestamp::now();
    let mut pollers = Pollers::new();
    let (_, _, status, _) = accepted(pollers.step(&apply(lazy("m"))));
    let reported = status.conditions[0].last_transition_time.unwrap();
    assert!(reported.nanos_since(&before) < 60_000_000_000);
}

#[test]
fn a_tick_reports_when_the_mirror_was_looked_at() {
    match poll_tick_at(&Fetched::Current(polled("m")), at(7), at(8)) {
        PollTick::Report(status) => {
            assert_eq!(status.last_sync_time, Some(at(7)));
            assert_eq!(status.conditions[0].status, "True");
            assert_eq!(status.conditions[0].reason.as_deref(), Some("Polling"));
            assert_eq!(status.conditions[0].message.as_deref(), Some("Poll tick"));
            assert_eq!(status.conditions[0].last_transition_time, Some(at(8)));
        }
        other => panic!("{other:?}"),
    }
}

#[test]
fn a_poller_ends_with_its_reason() {
    assert!(matches!(poll_tick_at(&Fetched::Current(lazy("m")), at(7), at(8)), PollTick::Stop));
    assert!(matches!(poll_tick_at(&Fetched::Gone, at(7), at(8)), PollTick::Stop));
    assert!(matches!(poll_tick_at(&Fetched::Failed, at(7), at(8)), PollTick::Retry));
}

#[test]
fn a_tick_is_dated_by_the_clock() {
    let before = Timestamp::now();
    match poll_tick(&Fetched::Current(polled("m"))) {
        PollTick::Report(status) => {
            assert!(status.last_sync_time.unwrap().nanos_since(&before) < 60_000_000_000);
        }
        other => panic!("{other:?}"),
    }
}

#[test]
fn keys_are_ordered_by_namespace_and_name() {
    let key = |ns: &str, name: &str| MirrorKey { ns: ns.to_string(), name: name.to_string() };
    assert_eq!(key("a", "z").compare(&key("b", "a")), Comparison::Less);
    assert_eq!(key("a", "z").compare(&key("a", "b")), Comparison::Greater);
    assert_eq!(key("a", "z").compare(&key("a", "z")), Comparison::Equal);
}

#[test]
fn pollers_follow_the_last_word_on_each_mirror() {
    let gone = |name: &str| StreamItem::Event(WatchEvent::Delete(polled(name)));
    let items = [
        apply(polled("a")),
        apply(polled("b")),
        apply(lazy("a")),
        apply(polled("a")),
        apply(polled("a")),
        gone("b"),
        StreamItem::Failed,
        apply(polled("c")),
        gone("d"),
        apply(lazy("c")),
    ];
    let mut pollers = Pollers::new();
    let mut running: Vec<String> = Vec::new();
    for item in &items {
        let (key, cancel, start) = match pollers.step_at(item, at(1)) {
            PollingStep::Accept { key, cancel, poll_every, .. } => {
                (key, cancel, poll_every.is_some())
            }
            PollingStep::Forget { key, cancel } => (key, cancel, false),
            _ => continue,
        };
        if cancel {
            let at = running.iter().position(|n| *n == key.name).unwrap();
            running.remove(at);
        }
        assert!(!running.contains(&key.name));
        if start {
            running.push(key.name);
        }
    }
    assert_eq!(running, ["a"]);
    assert_eq!(names(&pollers.cancel_all()), ["a"]);
}
