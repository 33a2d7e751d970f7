use qebbeq::naming::{generate_image_name, image_name_from_hash};

#[test]
fn names_hold_stem_and_hash() {
    assert_eq!(generate_image_name("quay.io/foo/bar:1.2"), "img-bar-1.2-204a29b34d1ffe2b");
    assert_eq!(generate_image_name("nginx"), "img-nginx-5be1ecc7935f1dd8");
    assert_eq!(generate_image_name(""), "img--e3b0c44298fc1c14");
}

#[test]
fn names_replace_what_dns_does_not_hold() {
    assert_eq!(
        generate_image_name("registry.example.com/team/App_Name@sha256:abc"),
        "img-app-name-sha256-abc-04fefa25f352cfe8"
    );
    assert_eq!(generate_image_name("localhost/ünï/cödé"), "img-c-d--049e32d780e61f91");
}

#[test]
fn stems_are_cut_at_thirty_characters() {
    let name = generate_image_name("h.io/xxxxxxxxxxxxxxxxxxxxxxxxxxxxxxxxxxxxxxxx:v1");
    assert_eq!(name, "img-xxxxxxxxxxxxxxxxxxxxxxxxxxxxxx-05cad2d8b9ab14f2");
    assert_eq!(name.len(), 51);
}

#[test]
fn names_are_dns_safe() {
    for s in [
        "A/B/C:D",
        "x@y",
        "ß",
        "a/-",
        "a/.",
        "a/..",
        "x.",
        ".x",
        "a/foo..bar",
        "a/b-.c",
        "a/b.-c",
        "a/b._c",
        "h.io/UPPER_lower.9",
        "h.io/xxxxxxxxxxxxxxxxxxxxxxxxxxxxx.1",
        "",
    ] {
        let name = generate_image_name(s);
        assert!(name.len() <= 51);
        assert!(name.starts_with("img-"));
        for label in name.split('.') {
            assert!(!label.is_empty(), "{name}");
            assert!(
                label.chars().all(|c| c.is_ascii_lowercase() || c.is_ascii_digit() || c == '-'),
                "{name}"
            );
            assert!(label.starts_with(|c: char| c.is_ascii_alphanumeric()), "{name}");
            assert!(label.ends_with(|c: char| c.is_ascii_alphanumeric()), "{name}");
        }
    }
}

#[test]
fn dots_stay_between_letters_and_digits_only() {
    let hash = "0123456789abcdef";
    let stem = |s: &str| {
        let name = image_name_from_hash(s, hash);
        name["img-".len()..name.len() - "-".len() - hash.len()].to_string()
    };
    assert_eq!(stem("a/app:1.2.3"), "app-1.2.3");
    assert_eq!(stem("a/x."), "x-");
    assert_eq!(stem("a/.x"), "-x");
    assert_eq!(stem("a/."), "-");
    assert_eq!(stem("a/foo..bar"), "foo--bar");
    assert_eq!(stem("a/b-.c_.d"), "b--c--d");
    assert_eq!(stem("a/xxxxxxxxxxxxxxxxxxxxxxxxxxxxx.1"), "xxxxxxxxxxxxxxxxxxxxxxxxxxxxx-");
    assert_eq!(stem("a/xxxxxxxxxxxxxxxxxxxxxxxxxxxx.1"), "xxxxxxxxxxxxxxxxxxxxxxxxxxxx.1");
}

#[test]
fn names_differ_by_the_whole_reference() {
    let a = generate_image_name("quay.io/a/app:1");
    let b = generate_image_name("quay.io/b/app:1");
    assert_ne!(a, b);
    assert_eq!(a[..a.len() - 16], b[..b.len() - 16]);
    assert_eq!(a, generate_image_name("quay.io/a/app:1"));
    let long = "h.io/xxxxxxxxxxxxxxxxxxxxxxxxxxxxxxxx";
    let names = [
        a,
        b,
        generate_image_name("quay.io/a/App:1"),
        generate_image_name("docker.io/a/app:1"),
        generate_image_name(&format!("{long}1")),
        generate_image_name(&format!("{long}2")),
    ];
    for i in 0..names.len() {
        for j in 0..i {
            assert_ne!(names[i], names[j]);
        }
    }
}

#[test]
fn only_sixteen_digits_of_the_hash_count() {
    assert_eq!(image_name_from_hash("a/b", "0123456789abcdef"), "img-b-0123456789abcdef");
    assert_eq!(image_name_from_hash("a/b", "0123456789abcdefff"), "img-b-0123456789abcdef");
}
