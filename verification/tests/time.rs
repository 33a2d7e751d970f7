use chrono::{DateTime, TimeZone, Utc};
use qebbeq::time::{
    remaining_retention, same_time, Timestamp, FIRST_SECOND, LAST_SECOND,
};

const SECOND: u128 = 1_000_000_000;

fn at(secs: i64, nanos: u32) -> Timestamp {
    Timestamp::new(secs, nanos).unwrap()
}

#[test]
fn bounds_are_those_of_chrono() {
    assert_eq!(DateTime::<Utc>::MIN_UTC.timestamp(), FIRST_SECOND);
    assert_eq!(DateTime::<Utc>::MAX_UTC.timestamp(), LAST_SECOND);
    for (secs, nanos) in [
        (0, 0),
        (FIRST_SECOND, 0),
        (FIRST_SECOND - 1, 0),
        (LAST_SECOND, 999_999_999),
        (LAST_SECOND, 1_999_999_999),
        (LAST_SECOND + 1, 0),
        (59, 1_500_000_000),
        (58, 1_500_000_000),
        (-1, 1_500_000_000),
        (-2, 1_500_000_000),
        (59, 2_000_000_000),
        (i64::MIN, 0),
        (i64::MAX, 0),
    ] {
        assert_eq!(
            Timestamp::new(secs, nanos).is_some(),
            DateTime::<Utc>::from_timestamp(secs, nanos).is_some(),
            "{secs} {nanos}"
        );
    }
}

#[test]
fn parts_come_back() {
    let t = at(-5, 7);
    assert_eq!(t.secs(), -5);
    assert_eq!(t.nanos(), 7);
}

#[test]
fn elapsed_counts_nanoseconds() {
    assert_eq!(at(10, 5).nanos_since(&at(7, 3)), 3 * SECOND + 2);
    assert_eq!(at(10, 1).nanos_since(&at(9, 999_999_999)), 2);
    assert_eq!(at(10, 0).nanos_since(&at(10, 0)), 0);
    assert_eq!(at(5, 0).nanos_since(&at(-5, 0)), 10 * SECOND);
}

#[test]
fn nothing_elapsed_since_a_later_time() {
    assert_eq!(at(7, 0).nanos_since(&at(10, 0)), 0);
    assert_eq!(at(7, 0).nanos_since(&at(7, 1)), 0);
}

#[test]
fn elapsed_across_the_whole_range() {
    let all = at(LAST_SECOND, 0).nanos_since(&at(FIRST_SECOND, 0));
    assert_eq!(all, (LAST_SECOND - FIRST_SECOND) as u128 * SECOND);
}

#[test]
fn leap_seconds_count_within_a_day() {
    assert_eq!(at(60, 0).nanos_since(&at(59, 1_500_000_000)), SECOND / 2);
    assert_eq!(at(59, 1_500_000_000).nanos_since(&at(58, 0)), 5 * SECOND / 2);
    assert_eq!(at(86_400, 0).nanos_since(&at(86_399, 1_500_000_000)), 0);
    assert_eq!(at(59, 1_500_000_000).nanos_since(&at(59, 1_200_000_000)), 300_000_000);
}

#[test]
fn elapsed_agrees_with_chrono() {
    let times = [
        (0, 0),
        (59, 0),
        (59, 1_400_000_000),
        (60, 3),
        (86_399, 999_999_999),
        (86_399, 1_000_000_000),
        (86_400, 0),
        (-86_341, 1_000_000_001),
        (172_799, 1_999_999_999),
    ];
    for (s1, n1) in times {
        for (s2, n2) in times {
            let a: DateTime<Utc> = Utc.timestamp_opt(s1, n1).unwrap();
            let b: DateTime<Utc> = Utc.timestamp_opt(s2, n2).unwrap();
            let expected = (b - a).to_std().unwrap_or_default().as_nanos();
            assert_eq!(at(s2, n2).nanos_since(&at(s1, n1)), expected, "{s1} {n1} {s2} {n2}");
        }
    }
}

#[test]
fn now_lies_behind_the_year_2020() {
    let a = Timestamp::now();
    assert!(a.secs() > 1_577_836_800);
    assert!(a.nanos() < 2_000_000_000);
    let before = Utc::now();
    let b = Timestamp::now();
    assert!((b.secs() - before.timestamp()).abs() < 10);
}

#[test]
fn remaining_retention_shrinks_to_nothing() {
    let since = at(1_000, 0);
    assert_eq!(remaining_retention(&since, &at(1_000, 0), 60 * SECOND), 60 * SECOND);
    assert_eq!(remaining_retention(&since, &at(1_020, 0), 60 * SECOND), 40 * SECOND);
    assert_eq!(remaining_retention(&since, &at(1_060, 0), 60 * SECOND), 0);
    assert_eq!(remaining_retention(&since, &at(9_999, 0), 60 * SECOND), 0);
    assert_eq!(remaining_retention(&since, &at(900, 0), 60 * SECOND), 60 * SECOND);
    assert_eq!(remaining_retention(&since, &at(1_020, 0), 0), 0);
}

#[test]
fn retention_ends_exactly_when_it_has_passed() {
    let since = at(1_000, 500);
    for secs in [1_001, 1_030, 1_059] {
        let now = at(secs, 0);
        let passed = now.nanos_since(&since);
        assert_eq!(passed + remaining_retention(&since, &now, 60 * SECOND), 60 * SECOND);
    }
}

#[test]
fn optional_times_compare() {
    assert!(same_time(&None, &None));
    assert!(same_time(&Some(at(1, 2)), &Some(at(1, 2))));
    assert!(!same_time(&Some(at(1, 2)), &Some(at(1, 3))));
    assert!(!same_time(&Some(at(1, 2)), &None));
}
