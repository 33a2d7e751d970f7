use qebbeq::mirroring::{
    choose_mirror, copy_outcome, longest_prefix_mirror, plan_mirror, select_mirror, MirrorError,
    MirrorPlan,
};
use qebbeq::resources::imagemirror::{
    default_platforms, ImageMirror, ImageMirrorSpec, MirrorPolicy,
};

fn mirror(namespace: Option<&str>, name: &str, repository: &str) -> ImageMirror {
    ImageMirror {
        name: name.to_string(),
        namespace: namespace.map(|s| s.to_string()),
        spec: ImageMirrorSpec {
            upstream: String::new(),
            prefix: String::new(),
            upstream_registry: "quay.io".to_string(),
            repository: repository.to_string(),
            policy: MirrorPolicy::default(),
            platforms: default_platforms(),
        },
        status: None,
    }
}

fn ns(s: &str) -> Option<String> {
    Some(s.to_string())
}

#[test]
fn a_mirror_serves_what_its_repository_ends_with() {
    let mirrors = vec![mirror(None, "a", "org/other"), mirror(None, "b", "org/foo/bar")];
    assert_eq!(select_mirror(&mirrors, "foo/bar", &None), Some(1));
    assert_eq!(select_mirror(&mirrors, "bar", &None), Some(1));
    assert_eq!(select_mirror(&mirrors, "baz", &None), None);
    assert_eq!(select_mirror(&mirrors, "", &None), Some(0));
    assert_eq!(select_mirror(&Vec::new(), "bar", &None), None);
}

#[test]
fn mirrors_of_the_same_namespace_come_first() {
    let mirrors = vec![
        mirror(Some("one"), "a", "foo"),
        mirror(Some("two"), "z", "foo"),
        mirror(Some("two"), "y", "foo"),
    ];
    assert_eq!(select_mirror(&mirrors, "foo", &ns("two")), Some(2));
    assert_eq!(select_mirror(&mirrors, "foo", &ns("one")), Some(0));
    assert_eq!(select_mirror(&mirrors, "foo", &ns("three")), Some(0));
    assert_eq!(select_mirror(&mirrors, "foo", &None), Some(0));
}

#[test]
fn a_mirror_without_a_namespace_stands_in_the_empty_one() {
    let mirrors = vec![mirror(Some("one"), "a", "foo"), mirror(None, "z", "foo")];
    assert_eq!(select_mirror(&mirrors, "foo", &ns("")), Some(1));
    assert_eq!(select_mirror(&mirrors, "foo", &None), Some(0));
}

#[test]
fn the_earlier_of_two_equal_mirrors_is_taken() {
    let mirrors = vec![
        mirror(Some("x"), "b", "foo"),
        mirror(Some("one"), "a", "foo"),
        mirror(Some("two"), "a", "foo"),
    ];
    assert_eq!(select_mirror(&mirrors, "foo", &None), Some(1));
}

#[test]
fn selection_agrees_with_a_stable_sort() {
    let namespaces = [None, Some(""), Some("n"), Some("m")];
    let names = ["b", "a", "c"];
    let mut mirrors = Vec::new();
    for namespace in namespaces {
        for name in names {
            mirrors.push(mirror(namespace, name, if name == "c" { "foo" } else { "x/foo" }));
        }
    }
    for image_ns in [None, ns(""), ns("n"), ns("q")] {
        for repo in ["foo", "x/foo", "bar"] {
            let mut candidates: Vec<usize> =
                (0..mirrors.len()).filter(|i| mirrors[*i].spec.repository.ends_with(repo)).collect();
            candidates.sort_by_key(|i| {
                let m = &mirrors[*i];
                let own = Some(m.namespace.clone().unwrap_or_default());
                (if own == image_ns { 0 } else { 1 }, m.name.clone())
            });
            assert_eq!(select_mirror(&mirrors, repo, &image_ns), candidates.first().copied());
        }
    }
}

fn plans(image_ref: &str, namespace: &Option<String>, mirrors: Vec<ImageMirror>) -> Vec<MirrorPlan> {
    plan_mirror(image_ref, namespace, &mirrors).unwrap()
}

fn prefixed(namespace: Option<&str>, name: &str, prefix: &str) -> ImageMirror {
    let mut m = mirror(namespace, name, name);
    m.spec.prefix = prefix.to_string();
    m
}

#[test]
fn a_plan_copies_the_same_tag_from_upstream() {
    let found =
        plans("oci.mydomain.com/foo/bar:1.2", &ns("n"), vec![mirror(Some("n"), "m", "foo/bar")]);
    assert_eq!(found.len(), 1);
    assert_eq!(found[0].source, "quay.io/foo/bar:1.2");
    assert_eq!(found[0].destination, "oci.mydomain.com/foo/bar:1.2");
    assert_eq!(found[0].platform.as_deref(), Some("linux/amd64"));
    assert_eq!(
        found[0].arguments(),
        ["copy", "--platform", "linux/amd64", "quay.io/foo/bar:1.2", "oci.mydomain.com/foo/bar:1.2"]
    );
}

#[test]
fn a_plan_copies_the_same_digest_from_upstream() {
    let found = plans("h.io/foo/bar@sha256:abc", &None, vec![mirror(None, "m", "org/foo/bar")]);
    assert_eq!(found[0].source, "quay.io/org/foo/bar@sha256:abc");
    let found = plans("h.io/foo/bar", &None, vec![mirror(None, "m", "org/foo/bar")]);
    assert_eq!(found[0].source, "quay.io/org/foo/bar");
}

#[test]
fn a_tag_beside_a_digest_does_not_hide_the_repository() {
    let image_ref = "oci.example.com/foo/bar:1.0@sha256:abc";
    let found = plans(image_ref, &None, vec![mirror(None, "m", "foo/bar")]);
    assert_eq!(found[0].source, "quay.io/foo/bar@sha256:abc");
    assert_eq!(found[0].destination, image_ref);
}

#[test]
fn every_platform_is_planned_in_order() {
    let mut m = mirror(None, "m", "foo");
    m.spec.platforms = vec!["linux/arm64".to_string(), "linux/amd64".to_string()];
    let found = plans("h.io/foo:1", &None, vec![m]);
    let platforms: Vec<Option<&str>> = found.iter().map(|p| p.platform.as_deref()).collect();
    assert_eq!(platforms, [Some("linux/arm64"), Some("linux/amd64")]);
    for plan in &found {
        assert_eq!(plan.source, "quay.io/foo:1");
        assert_eq!(plan.destination, "h.io/foo:1");
    }
}

#[test]
fn a_plan_without_platforms_names_none() {
    let mut m = mirror(None, "m", "foo");
    m.spec.platforms = Vec::new();
    let found = plans("h.io/foo:1", &None, vec![m]);
    assert_eq!(found.len(), 1);
    assert_eq!(found[0].platform, None);
    assert_eq!(found[0].arguments(), ["copy", "quay.io/foo:1", "h.io/foo:1"]);
}

#[test]
fn without_a_mirror_there_is_no_plan() {
    let mirrors = vec![mirror(None, "m", "other"), prefixed(None, "p", "h.io/foo/baz")];
    let error = plan_mirror("h.io/foo/bar:1", &None, &mirrors).unwrap_err();
    assert!(matches!(&error, MirrorError::NoMirror { repository } if repository == "foo/bar"));
    assert_eq!(error.message(), "no ImageMirror found matching repo foo/bar");
}

#[test]
fn the_longest_prefix_wins_over_the_repository() {
    let mut short = mirror(None, "short", "x/ab");
    short.spec.prefix = "a".to_string();
    let mut long = mirror(None, "long", "other");
    long.spec.prefix = "ab".to_string();
    let unprefixed = mirror(None, "a", "ab");
    assert_eq!(plans("ab", &None, vec![short, long, unprefixed])[0].source, "quay.io/other");
}

#[test]
fn without_a_prefix_the_repository_decides() {
    let mirrors = vec![prefixed(None, "p", "h.io/baz"), mirror(None, "m", "org/foo")];
    assert_eq!(choose_mirror(&mirrors, "h.io/foo:1", &None), Some(1));
    assert_eq!(choose_mirror(&mirrors, "h.io/baz:1", &None), Some(0));
    assert_eq!(choose_mirror(&mirrors, "h.io/qux:1", &None), None);
}

#[test]
fn a_longer_prefix_goes_before_a_shorter_one() {
    let mirrors = vec![
        prefixed(None, "a", "oci.io/foo"),
        prefixed(None, "b", "oci.io/foo/bar"),
        prefixed(None, "c", "oci.io/foo/bar"),
        prefixed(None, "d", "oci.io/foo/baz"),
        prefixed(None, "e", ""),
    ];
    assert_eq!(longest_prefix_mirror(&mirrors, "oci.io/foo/bar/x:1", &None), Some(1));
    assert_eq!(longest_prefix_mirror(&mirrors, "oci.io/foo/qux:1", &None), Some(0));
    assert_eq!(longest_prefix_mirror(&mirrors, "quay.io/foo", &None), None);
}

#[test]
fn equal_prefixes_go_by_namespace_name_and_position() {
    let mirrors = vec![
        prefixed(Some("x"), "b", "h.io"),
        prefixed(Some("y"), "a", "h.io"),
        prefixed(Some("z"), "a", "h.io"),
        prefixed(Some("n"), "z", "h.io"),
        prefixed(Some("n"), "0", "h"),
    ];
    assert_eq!(longest_prefix_mirror(&mirrors, "h.io/foo", &None), Some(1));
    assert_eq!(longest_prefix_mirror(&mirrors, "h.io/foo", &ns("n")), Some(3));
    assert_eq!(longest_prefix_mirror(&mirrors, "h.io/foo", &ns("z")), Some(2));
    assert_eq!(longest_prefix_mirror(&mirrors, "h/foo", &None), Some(4));
}

#[test]
fn a_copy_succeeds_where_it_was_started_and_ended_well() {
    assert_eq!(copy_outcome(None, true), Ok(()));
    assert_eq!(copy_outcome(None, false), Err("crane copy failed".to_string()));
    let spawn = || Some("not found".to_string());
    assert_eq!(
        copy_outcome(spawn(), false),
        Err("failed to spawn 'crane': not found".to_string())
    );
    assert!(copy_outcome(spawn(), true).is_err());
}

#[test]
fn a_mirror_with_an_upstream_alone_replaces_its_prefix() {
    let mut m = prefixed(None, "m", "oci.mydomain.com/foo");
    m.spec.upstream = "gcr.io/org".to_string();
    m.spec.upstream_registry = String::new();
    m.spec.repository = String::new();
    let found = plans("oci.mydomain.com/foo/bar:1@sha256:abc", &None, vec![m.clone()]);
    assert_eq!(found[0].source, "gcr.io/org/bar:1@sha256:abc");
    assert_eq!(found[0].destination, "oci.mydomain.com/foo/bar:1@sha256:abc");
    assert_eq!(plans("oci.mydomain.com/foobar", &None, vec![m])[0].source, "gcr.io/orgbar");
}

#[test]
fn a_named_repository_goes_before_the_upstream() {
    let mut m = prefixed(None, "m", "oci.mydomain.com/foo");
    m.spec.upstream = "gcr.io/org".to_string();
    let found = plans("oci.mydomain.com/foo/bar:1", &None, vec![m.clone()]);
    assert_eq!(found[0].source, "quay.io/m:1");
    m.spec.repository = String::new();
    assert_eq!(plans("oci.mydomain.com/foo/bar:1", &None, vec![m])[0].source, "quay.io/:1");
}

#[test]
fn a_prefix_that_ends_with_a_slash_claims_no_neighbours() {
    let mirrors = vec![prefixed(None, "a", "h.io/foo/"), prefixed(None, "b", "h.io/f")];
    assert_eq!(longest_prefix_mirror(&mirrors, "h.io/foo/x:1", &None), Some(0));
    assert_eq!(longest_prefix_mirror(&mirrors, "h.io/foobar:1", &None), Some(1));
}
