//! The ImageMirror resource: how an upstream repository is accessed and, optionally, polled for
//! updates. There is one per upstream repository; the images of the repository have Image
//! resources of their own.

use vstd::prelude::*;

use crate::resources::image::{
    a_first_report_joins_at_the_end, a_report_changes_the_first_of_its_type, clone_conditions, upsert_condition_at, upserted, Condition, ConditionView,
};
use crate::time::{representable, Timestamp, TimestampView};

verus! {

/// When new tags and digests are fetched.
#[derive(Clone, Copy, Debug, PartialEq, Eq, Structural)]
pub enum MirrorPolicyType {
    IfNotPresent,
    Poll,
}

/// The mirroring policy of a repository.
#[derive(Clone, Copy, Debug, PartialEq, Eq, Structural)]
pub struct MirrorPolicy {
    /// Policy type.
    pub type_: MirrorPolicyType,
    /// Polling interval in seconds, used where the type is `Poll`.
    pub interval_seconds: Option<u32>,
}

impl Default for MirrorPolicy {
    fn default() -> (r: Self)
        ensures
            r == (MirrorPolicy { type_: MirrorPolicyType::IfNotPresent, interval_seconds: None }),
    {
        MirrorPolicy { type_: MirrorPolicyType::IfNotPresent, interval_seconds: None }
    }
}

/// What an [`ImageMirrorSpec`] denotes.
pub ghost struct ImageMirrorSpecView {
    pub upstream: Seq<char>,
    pub prefix: Seq<char>,
    pub upstream_registry: Seq<char>,
    pub repository: Seq<char>,
    pub policy: MirrorPolicy,
    pub platforms: Seq<Seq<char>>,
}

/// The desired state of an ImageMirror.
#[derive(Clone, Debug)]
pub struct ImageMirrorSpec {
    /// Upstream registry or full prefix (e.g. quay.io, gcr.io, or gcr.io/org). It takes the place of
    /// the prefix where the mirror names no registry and no repository.
    pub upstream: String,
    /// Prefix to match in local image refs (e.g. oci.mydomain.com/foo/bar). Longest prefix wins.
    pub prefix: String,
    /// Registry that the repository is copied from (e.g. quay.io).
    pub upstream_registry: String,
    /// Path of the repository in the upstream registry (e.g. foo/bar).
    pub repository: String,
    /// Mirroring policy controlling when new tags and digests are fetched.
    pub policy: MirrorPolicy,
    /// Desired platforms to mirror (e.g. linux/amd64, linux/arm64).
    pub platforms: Vec<String>,
}

impl View for ImageMirrorSpec {
    type V = ImageMirrorSpecView;

    open spec fn view(&self) -> ImageMirrorSpecView {
        ImageMirrorSpecView {
            upstream: self.upstream@,
            prefix: self.prefix@,
            upstream_registry: self.upstream_registry@,
            repository: self.repository@,
            policy: self.policy,
            platforms: self.platforms.deep_view(),
        }
    }
}

/// The platforms that are mirrored where a spec names none.
pub fn default_platforms() -> (r: Vec<String>)
    ensures
        r.deep_view() == seq!["linux/amd64"@],
{
    let mut r: Vec<String> = Vec::new();
    r.push("linux/amd64".to_owned());
    assert(r.deep_view() =~= seq!["linux/amd64"@]);
    r
}

/// What an [`ImageMirrorStatus`] denotes.
pub ghost struct ImageMirrorStatusView {
    pub last_sync_time: Option<TimestampView>,
    pub conditions: Seq<ConditionView>,
}

/// The observed state of an ImageMirror.
#[derive(Debug)]
pub struct ImageMirrorStatus {
    /// Last time the upstream repository was looked at.
    pub last_sync_time: Option<Timestamp>,
    /// Standard Kubernetes-style conditions (e.g., Ready).
    pub conditions: Vec<Condition>,
}

impl View for ImageMirrorStatus {
    type V = ImageMirrorStatusView;

    open spec fn view(&self) -> ImageMirrorStatusView {
        ImageMirrorStatusView {
            last_sync_time: self.last_sync_time.deep_view(),
            conditions: self.conditions.deep_view(),
        }
    }
}

impl DeepView for ImageMirrorStatus {
    type V = ImageMirrorStatusView;

    open spec fn deep_view(&self) -> ImageMirrorStatusView {
        self@
    }
}

/// The status of a mirror of which nothing is known.
pub open spec fn empty_mirror_status() -> ImageMirrorStatusView {
    ImageMirrorStatusView { last_sync_time: None, conditions: Seq::empty() }
}

impl Default for ImageMirrorStatus {
    fn default() -> (r: Self)
        ensures
            r@ == empty_mirror_status(),
    {
        let r = ImageMirrorStatus { last_sync_time: None, conditions: Vec::new() };
        assert(r.conditions.deep_view() =~= Seq::<ConditionView>::empty());
        r
    }
}

impl Clone for ImageMirrorStatus {
    fn clone(&self) -> (r: Self)
        ensures
            r@ == self@,
    {
        ImageMirrorStatus {
            last_sync_time: self.last_sync_time,
            conditions: clone_conditions(&self.conditions),
        }
    }
}

/// What an [`ImageMirror`] denotes.
pub ghost struct ImageMirrorView {
    pub name: Seq<char>,
    pub namespace: Option<Seq<char>>,
    pub spec: ImageMirrorSpecView,
    pub status: Option<ImageMirrorStatusView>,
}

/// An ImageMirror object of the cluster.
#[derive(Clone, Debug)]
pub struct ImageMirror {
    pub name: String,
    pub namespace: Option<String>,
    pub spec: ImageMirrorSpec,
    pub status: Option<ImageMirrorStatus>,
}

impl View for ImageMirror {
    type V = ImageMirrorView;

    open spec fn view(&self) -> ImageMirrorView {
        ImageMirrorView {
            name: self.name@,
            namespace: self.namespace.deep_view(),
            spec: self.spec@,
            status: self.status.deep_view(),
        }
    }
}

impl DeepView for ImageMirror {
    type V = ImageMirrorView;

    open spec fn deep_view(&self) -> ImageMirrorView {
        self@
    }
}

/// The status of a mirror after its condition `Ready` was reported at `now`, and a look at the
/// upstream repository recorded where `last_sync` gives its time.
pub open spec fn reported_mirror_status(
    status: Option<ImageMirrorStatusView>,
    last_sync: Option<TimestampView>,
    ready: Seq<char>,
    reason: Option<Seq<char>>,
    message: Option<Seq<char>>,
    now: TimestampView,
) -> ImageMirrorStatusView {
    let before = match status {
        Some(s) => s,
        None => empty_mirror_status(),
    };
    ImageMirrorStatusView {
        last_sync_time: match last_sync {
            Some(t) => Some(t),
            None => before.last_sync_time,
        },
        conditions: upserted(before.conditions, "Ready"@, ready, reason, message, now),
    }
}

impl ImageMirror {
    /// The status of this mirror with its condition `Ready` reported as of `now`, and with the
    /// time of the last look at the upstream repository where `last_sync` gives one.
    pub fn reported_status_at(
        &self,
        last_sync: Option<Timestamp>,
        ready: &str,
        reason: Option<&str>,
        message: Option<&str>,
        now: Timestamp,
    ) -> (r: ImageMirrorStatus)
        ensures
            r@ == reported_mirror_status(
                self@.status,
                last_sync.deep_view(),
                ready@,
                reason.deep_view(),
                message.deep_view(),
                now@,
            ),
    {
        let mut status: ImageMirrorStatus = match &self.status {
            Some(s) => s.clone(),
            None => ImageMirrorStatus::default(),
        };
        if let Some(t) = last_sync {
            status.last_sync_time = Some(t);
        }
        upsert_condition_at(&mut status.conditions, "Ready", ready, reason, message, now);
        status
    }

    /// The status of this mirror with its condition `Ready` reported as of the current time.
    pub fn reported_status(
        &self,
        last_sync: Option<Timestamp>,
        ready: &str,
        reason: Option<&str>,
        message: Option<&str>,
    ) -> (r: ImageMirrorStatus)
        ensures
            exists|now: TimestampView|
                representable(now.secs, now.nanos) && r@ == #[trigger] reported_mirror_status(
                    self@.status,
                    last_sync.deep_view(),
                    ready@,
                    reason.deep_view(),
                    message.deep_view(),
                    now,
                ),
    {
        self.reported_status_at(last_sync, ready, reason, message, Timestamp::now())
    }
}

/// Reporting on a mirror that has a status keeps the time of its last look, unless there was a new
/// one; its first `Ready` condition takes what is reported, with the time of the report exactly
/// where its status was another; and every other condition stays as it is.
pub proof fn a_report_on_a_mirror_changes_its_readiness(
    last: Option<TimestampView>,
    before: Seq<ConditionView>,
    c: ConditionView,
    after: Seq<ConditionView>,
    last_sync: Option<TimestampView>,
    ready: Seq<char>,
    reason: Option<Seq<char>>,
    message: Option<Seq<char>>,
    now: TimestampView,
)
    requires
        c.type_ == "Ready"@,
        forall|i: int| 0 <= i < before.len() ==> (#[trigger] before[i]).type_ != "Ready"@,
    ensures
        ({
            let status = ImageMirrorStatusView {
                last_sync_time: last,
                conditions: before + seq![c] + after,
            };
            let r = reported_mirror_status(Some(status), last_sync, ready, reason, message, now);
            let n = before.len() as int;
            &&& last_sync is Some ==> r.last_sync_time == last_sync
            &&& last_sync is None ==> r.last_sync_time == last
            &&& r.conditions.len() == n + 1 + after.len()
            &&& r.conditions.take(n) == before
            &&& r.conditions.skip(n + 1) == after
            &&& r.conditions[n].type_ == "Ready"@
            &&& r.conditions[n].status == ready
            &&& r.conditions[n].reason == reason
            &&& r.conditions[n].message == message
            &&& c.status == ready ==> r.conditions[n].last_transition_time
                == c.last_transition_time
            &&& c.status != ready ==> r.conditions[n].last_transition_time == Some(now)
        }),
{
    a_report_changes_the_first_of_its_type(before, c, after, ready, reason, message, now);
}

/// The first report of the readiness of a mirror adds it to the conditions, dated with the time of
/// the report; one without a status has no others, and no last look unless there was one now.
pub proof fn a_first_report_on_a_mirror_adds_its_readiness(
    status: Option<ImageMirrorStatusView>,
    last_sync: Option<TimestampView>,
    ready: Seq<char>,
    reason: Option<Seq<char>>,
    message: Option<Seq<char>>,
    now: TimestampView,
)
    requires
        status matches Some(s) ==> forall|i: int|
            0 <= i < s.conditions.len() ==> (#[trigger] s.conditions[i]).type_ != "Ready"@,
    ensures
        ({
            let r = reported_mirror_status(status, last_sync, ready, reason, message, now);
            let n = r.conditions.len() - 1;
            &&& last_sync is Some ==> r.last_sync_time == last_sync
            &&& last_sync is None ==> r.last_sync_time == match status {
                Some(s) => s.last_sync_time,
                None => None,
            }
            &&& n >= 0
            &&& status is None ==> n == 0
            &&& status matches Some(s) ==> r.conditions.take(n) == s.conditions
            &&& r.conditions[n].type_ == "Ready"@
            &&& r.conditions[n].status == ready
            &&& r.conditions[n].reason == reason
            &&& r.conditions[n].message == message
            &&& r.conditions[n].last_transition_time == Some(now)
        }),
{
    let cs = match status {
        Some(s) => s.conditions,
        None => Seq::empty(),
    };
    a_first_report_joins_at_the_end(cs, "Ready"@, ready, reason, message, now);
}

} // verus!
