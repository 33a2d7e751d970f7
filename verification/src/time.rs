//! Points in time, as UTC seconds and nanoseconds.

use chrono::{DateTime, Utc};
use vstd::prelude::*;

verus! {

/// Nanoseconds in a second.
pub const NANOS_PER_SEC: u32 = 1_000_000_000;

/// The first second of the year -262143.
pub const FIRST_SECOND: i64 = -8_334_601_228_800;

/// The last second of the year 262142.
pub const LAST_SECOND: i64 = 8_210_266_876_799;

/// Whether a pair of seconds since the Unix epoch and nanoseconds denotes a point in time. In a
/// leap second, which can only follow the 59th second of a minute, the nanoseconds go on to
/// count from one second up.
pub open spec fn representable(secs: int, nanos: int) -> bool {
    &&& FIRST_SECOND <= secs <= LAST_SECOND
    &&& 0 <= nanos < 2 * NANOS_PER_SEC
    &&& nanos >= NANOS_PER_SEC ==> secs % 60 == 59
}

/// The nanoseconds from one point in time to another. A leap second counts where it lies
/// between the two times of day.
pub open spec fn nanos_between(from: TimestampView, to: TimestampView) -> int {
    let leap: int = if to.secs % 86400 > from.secs % 86400 && from.nanos >= NANOS_PER_SEC {
        1
    } else if to.secs % 86400 < from.secs % 86400 && to.nanos >= NANOS_PER_SEC {
        -1
    } else {
        0
    };
    (to.secs - from.secs + leap) * NANOS_PER_SEC + to.nanos - from.nanos
}

/// What a [`Timestamp`] denotes.
pub ghost struct TimestampView {
    pub secs: int,
    pub nanos: int,
}

/// A point in time.
#[derive(Clone, Copy, Debug, PartialEq, Eq, Structural)]
pub struct Timestamp {
    secs: i64,
    nanos: u32,
}

impl View for Timestamp {
    type V = TimestampView;

    closed spec fn view(&self) -> TimestampView {
        TimestampView { secs: self.secs as int, nanos: self.nanos as int }
    }
}

impl DeepView for Timestamp {
    type V = TimestampView;

    open spec fn deep_view(&self) -> TimestampView {
        self@
    }
}

impl Timestamp {
    #[verifier::type_invariant]
    spec fn valid(self) -> bool {
        representable(self.secs as int, self.nanos as int)
    }

    /// The point in time `secs` seconds and `nanos` nanoseconds after the Unix epoch.
    pub fn new(secs: i64, nanos: u32) -> (r: Option<Timestamp>)
        ensures
            match r {
                Some(t) => representable(secs as int, nanos as int) && t@ == (TimestampView {
                    secs: secs as int,
                    nanos: nanos as int,
                }),
                None => !representable(secs as int, nanos as int),
            },
    {
        if secs < FIRST_SECOND || secs > LAST_SECOND || nanos >= 2 * NANOS_PER_SEC {
            return None;
        }
        if nanos >= NANOS_PER_SEC {
            let past: i64 = secs - FIRST_SECOND;
            assert(FIRST_SECOND % 60 == 0);
            if past % 60 != 59 {
                return None;
            }
        }
        Some(Timestamp { secs, nanos })
    }

    /// The seconds since the Unix epoch.
    pub fn secs(&self) -> (r: i64)
        ensures
            r == self@.secs,
    {
        self.secs
    }

    /// The nanoseconds within the second.
    pub fn nanos(&self) -> (r: u32)
        ensures
            r == self@.nanos,
    {
        self.nanos
    }

    /// The current time.
    pub fn now() -> (r: Timestamp)
        ensures
            representable(r@.secs, r@.nanos),
    {
        let (secs, nanos) = utc_now();
        Timestamp { secs, nanos }
    }

    /// The nanoseconds that passed from `earlier` to this point in time, none where `earlier`
    /// lies behind it.
    pub fn nanos_since(&self, earlier: &Timestamp) -> (r: u128)
        ensures
            r == if nanos_between(earlier@, self@) < 0 { 0 } else { nanos_between(
                earlier@,
                self@,
            ) },
    {
        proof {
            use_type_invariant(&*self);
            use_type_invariant(&*earlier);
        }
        match utc_elapsed(self.secs, self.nanos, earlier.secs, earlier.nanos) {
            Some(n) => n,
            None => 0,
        }
    }
}

/// Whether two optional points in time are equal.
pub fn same_time(a: &Option<Timestamp>, b: &Option<Timestamp>) -> (r: bool)
    ensures
        r == (a.deep_view() == b.deep_view()),
{
    match (a, b) {
        (Some(x), Some(y)) => x.secs == y.secs && x.nanos == y.nanos,
        (None, None) => true,
        _ => false,
    }
}

/// Reads the clock with `chrono::Utc::now`, as seconds since the Unix epoch (`timestamp`) and
/// nanoseconds within the second (`timestamp_subsec_nanos`). The reading is a time that `chrono`
/// can represent; which one, rests on the clock. The call panics on a clock set before 1970.
#[verifier::external_body]
fn utc_now() -> (r: (i64, u32))
    ensures
        representable(r.0 as int, r.1 as int),
{
    let now = Utc::now();
    (now.timestamp(), now.timestamp_subsec_nanos())
}

/// Subtracts `chrono::DateTime<Utc>` values, made by `DateTime::from_timestamp`, and turns the
/// difference into a `std::time::Duration` with `TimeDelta::to_std`, which refuses a negative
/// difference and keeps every other one.
#[verifier::external_body]
fn utc_elapsed(secs: i64, nanos: u32, earlier_secs: i64, earlier_nanos: u32) -> (r: Option<u128>)
    requires
        representable(secs as int, nanos as int),
        representable(earlier_secs as int, earlier_nanos as int),
    ensures
        ({
            let between = nanos_between(
                TimestampView { secs: earlier_secs as int, nanos: earlier_nanos as int },
                TimestampView { secs: secs as int, nanos: nanos as int },
            );
            match r {
                Some(n) => n == between,
                None => between < 0,
            }
        }),
{
    let later = DateTime::<Utc>::from_timestamp(secs, nanos).unwrap();
    let earlier = DateTime::<Utc>::from_timestamp(earlier_secs, earlier_nanos).unwrap();
    match (later - earlier).to_std() {
        Ok(elapsed) => Some(elapsed.as_nanos()),
        Err(_) => None,
    }
}

/// The nanoseconds that are left of `retention` at `now`, for an image unreferenced since
/// `since`.
pub open spec fn retention_left(since: TimestampView, now: TimestampView, retention: int) -> int {
    let passed = nanos_between(since, now);
    if passed < 0 {
        retention
    } else if passed >= retention {
        0
    } else {
        retention - passed
    }
}

/// The nanoseconds that are left of `retention` at `now`, counted from `since`.
pub fn remaining_retention(since: &Timestamp, now: &Timestamp, retention: u128) -> (r: u128)
    ensures
        r == retention_left(since@, now@, retention as int),
{
    let elapsed: u128 = now.nanos_since(since);
    if elapsed >= retention {
        0
    } else {
        retention - elapsed
    }
}

/// Waiting for what is left of the retention never ends before the whole retention has passed
/// since the image lost its last reference, and ends no later than that where the retention
/// has not run out yet.
pub proof fn retention_is_kept(since: TimestampView, now: TimestampView, retention: nat)
    requires
        nanos_between(since, now) >= 0,
    ensures
        nanos_between(since, now) + retention_left(since, now, retention as int) >= retention,
        nanos_between(since, now) <= retention ==> nanos_between(since, now) + retention_left(
            since,
            now,
            retention as int,
        ) == retention,
        0 <= retention_left(since, now, retention as int) <= retention,
{
}

/// What is left of the retention counts down: all of it where no time has passed or the clock ran
/// backwards, nothing once it has passed, and in between what has passed and what is left make
/// up the whole.
pub proof fn retention_counts_down(since: TimestampView, now: TimestampView, retention: nat)
    ensures
        ({
            let passed = nanos_between(since, now);
            let left = retention_left(since, now, retention as int);
            &&& passed <= 0 ==> left == retention
            &&& 0 <= passed <= retention ==> left + passed == retention
            &&& passed >= retention ==> left == 0
        }),
{
}

} // verus!
