use qebbeq::sorted::Comparison;
use qebbeq::text::{
    chars_of, compare_text, decimal_text, ends_with, find_first, find_last, same_text,
    starts_with, trim,
};

#[test]
fn trims_white_space_on_both_sides() {
    assert_eq!(trim("  default\n"), "default");
    assert_eq!(trim("a b"), "a b");
    assert_eq!(trim(" \t\r\n"), "");
    assert_eq!(trim(""), "");
    assert_eq!(trim("\u{a0}\u{3000}x\u{2003}\u{85}"), "x");
    assert_eq!(trim("\u{200b}x"), "\u{200b}x");
}

#[test]
fn white_space_is_that_of_std() {
    for code in 0u32..0x11_0000 {
        if let Some(c) = char::from_u32(code) {
            let listed = matches!(
                code,
                0x9..=0xd
                    | 0x20
                    | 0x85
                    | 0xa0
                    | 0x1680
                    | 0x2000..=0x200a
                    | 0x2028
                    | 0x2029
                    | 0x202f
                    | 0x205f
                    | 0x3000
            );
            assert_eq!(c.is_whitespace(), listed, "{code:x}");
        }
    }
}

#[test]
fn compares_by_bytes() {
    assert_eq!(compare_text("a", "b"), Comparison::Less);
    assert_eq!(compare_text("b", "a"), Comparison::Greater);
    assert_eq!(compare_text("a", "a"), Comparison::Equal);
    assert_eq!(compare_text("a", "ab"), Comparison::Less);
    assert_eq!(compare_text("", "a"), Comparison::Less);
    assert_eq!(compare_text("z", "ä"), Comparison::Less);
    assert_eq!(compare_text("B", "a"), Comparison::Less);
    assert_eq!(compare_text("\u{ffff}", "\u{10000}"), Comparison::Less);
}

#[test]
fn tells_equal_text() {
    assert!(same_text("ä", "ä"));
    assert!(!same_text("a", "A"));
    assert!(same_text("", ""));
}

#[test]
fn finds_prefixes_and_suffixes() {
    assert!(starts_with("quay.io/foo", "quay.io"));
    assert!(!starts_with("quay", "quay.io"));
    assert!(starts_with("x", ""));
    assert!(ends_with("org/foo", "foo"));
    assert!(ends_with("föö", "öö"));
    assert!(!ends_with("foo", "org/foo"));
    assert!(ends_with("x", ""));
}

#[test]
fn finds_characters() {
    let chars = chars_of("a/ö/c");
    assert_eq!(chars.len(), 5);
    assert_eq!(find_first(&chars, '/'), Some(1));
    assert_eq!(find_last(&chars, '/'), Some(3));
    assert_eq!(find_first(&chars, 'x'), None);
    assert_eq!(find_last(&chars, 'x'), None);
}

#[test]
fn writes_decimals() {
    assert_eq!(decimal_text(0), "0");
    assert_eq!(decimal_text(9), "9");
    assert_eq!(decimal_text(10), "10");
    assert_eq!(decimal_text(907), "907");
    assert_eq!(decimal_text(usize::MAX), usize::MAX.to_string());
}
