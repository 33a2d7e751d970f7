use qebbeq::reference::{
    extract_image_host, extract_local_repository, extract_tag_or_digest, image_matches_host,
};

#[test]
fn host_is_the_first_segment_where_it_looks_like_one() {
    assert_eq!(extract_image_host("quay.io/foo/bar:1"), Some("quay.io"));
    assert_eq!(extract_image_host("registry:5000/foo"), Some("registry:5000"));
    assert_eq!(extract_image_host("localhost/foo"), Some("localhost"));
    assert_eq!(extract_image_host("localhost"), Some("localhost"));
    assert_eq!(extract_image_host("quay.io"), Some("quay.io"));
}

#[test]
fn unqualified_references_name_no_host() {
    assert_eq!(extract_image_host("library/nginx"), None);
    assert_eq!(extract_image_host("nginx"), None);
    assert_eq!(extract_image_host(""), None);
    assert_eq!(extract_image_host("/quay.io/foo"), None);
    assert_eq!(extract_image_host("localhosts/foo"), None);
}

#[test]
fn a_tag_without_a_path_makes_the_reference_look_like_a_host() {
    assert_eq!(extract_image_host("nginx:1.25"), Some("nginx:1.25"));
}

#[test]
fn host_is_matched_exactly() {
    assert!(image_matches_host("quay.io/foo", "quay.io"));
    assert!(!image_matches_host("quay.io/foo", "quay.i"));
    assert!(!image_matches_host("quay.io:443/foo", "quay.io"));
    assert!(!image_matches_host("nginx", "nginx"));
    assert!(!image_matches_host("nginx", ""));
}

#[test]
fn digest_wins_over_tag() {
    assert_eq!(
        extract_tag_or_digest("quay.io/foo/bar:1@sha256:abc"),
        (Some("@sha256:abc".to_string()), true)
    );
    assert_eq!(
        extract_tag_or_digest("quay.io/foo@sha256:abc"),
        (Some("@sha256:abc".to_string()), true)
    );
}

#[test]
fn tag_starts_behind_the_last_slash() {
    assert_eq!(extract_tag_or_digest("quay.io/foo:1.2"), (Some(":1.2".to_string()), false));
    assert_eq!(extract_tag_or_digest("quay.io:443/foo"), (None, false));
    assert_eq!(extract_tag_or_digest("quay.io:443/foo:2"), (Some(":2".to_string()), false));
    assert_eq!(extract_tag_or_digest("nginx:1"), (None, false));
    assert_eq!(extract_tag_or_digest(""), (None, false));
}

#[test]
fn repository_lies_between_host_and_tag() {
    assert_eq!(extract_local_repository("quay.io/foo/bar:1.2"), "foo/bar");
    assert_eq!(extract_local_repository("quay.io/foo/bar@sha256:abc"), "foo/bar");
    assert_eq!(extract_local_repository("quay.io:443/foo/bar"), "foo/bar");
    assert_eq!(extract_local_repository("quay.io/foo"), "foo");
    assert_eq!(extract_local_repository("nginx"), "nginx");
    assert_eq!(extract_local_repository("nginx:1"), "nginx:1");
    assert_eq!(extract_local_repository("nginx@sha256:abc"), "nginx");
    assert_eq!(extract_local_repository(""), "");
    assert_eq!(extract_local_repository("quay.io/"), "");
}

#[test]
fn repository_is_cut_before_tag_and_digest() {
    assert_eq!(extract_local_repository("quay.io/foo:1@sha256:abc"), "foo");
    assert_eq!(extract_local_repository("quay.io/foo:1@abc"), "foo");
    assert_eq!(
        extract_local_repository("oci.example.com/foo/bar:1.0@sha256:abc"),
        "foo/bar"
    );
    assert_eq!(extract_local_repository("quay.io:443/foo@sha256:abc"), "foo");
    assert_eq!(extract_local_repository("h/a:1/foo@sha256:abc"), "a:1/foo");
    assert_eq!(extract_local_repository("h/foo:1@a/b:c"), "foo");
    assert_eq!(extract_local_repository("h/foo:1:2"), "foo:1");
    assert_eq!(extract_local_repository("nginx:1@sha256:abc"), "nginx:1");
}

#[test]
fn reference_is_host_repository_and_suffix() {
    for s in [
        "quay.io/foo/bar:1.2",
        "quay.io/foo/bar@sha256:abc",
        "quay.io:443/foo",
        "h/ä/ö:ü",
        "h/a:1/foo@sha256:abc",
    ] {
        let host = s.split('/').next().unwrap();
        let suffix = extract_tag_or_digest(s).0.unwrap_or_default();
        assert_eq!(format!("{host}/{}{suffix}", extract_local_repository(s)), s);
    }
    for s in ["nginx", "nginx:1", "nginx@sha256:abc", "nginx:1@x", ""] {
        let suffix = extract_tag_or_digest(s).0.unwrap_or_default();
        assert_eq!(format!("{}{suffix}", extract_local_repository(s)), s);
    }
}

#[test]
fn a_tag_before_the_digest_is_the_only_part_left_out() {
    let s = "quay.io/foo:1@sha256:abc";
    let suffix = extract_tag_or_digest(s).0.unwrap();
    assert_eq!(format!("quay.io/{}:1{suffix}", extract_local_repository(s)), s);
}
