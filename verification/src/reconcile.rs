//! Bringing the state of an Image in line with the objects that refer to it.
//!
//! A reconciliation alternates between decisions, which are made here, and work on the cluster
//! and the registry, which is done by whoever drives it: each step takes the outcome of the last
//! action and tells the next one.

use vstd::prelude::*;

use crate::resources::image::{
    a_first_report_joins_at_the_end, a_report_changes_the_first_of_its_type, condition_of,
    empty_status, finalizers_round_trip, has_finalizer, holding_adds_one_finalizer,
    upsert_condition_at, upserted, upserted_is_found, with_finalizer, without_finalizer, ConditionView, Image,
    ImageStatus, ImageStatusView, ImageView, ObjectKey, ObjectKeyView,
};
use crate::sorted::SortedSet;
use crate::time::{
    nanos_between, remaining_retention, representable, retention_counts_down, retention_is_kept,
    retention_left,
    Timestamp, TimestampView,
};

verus! {

/// What [`Readings`] denote.
pub ghost struct ReadingsView {
    pub noted: TimestampView,
    pub reported: TimestampView,
    pub checked: TimestampView,
}

/// The readings of the clock that a step may use.
#[derive(Clone, Copy, Debug)]
pub struct Readings {
    /// The time at which an image lost its last reference or was copied.
    pub noted: Timestamp,
    /// The time at which the condition is reported.
    pub reported: Timestamp,
    /// The time from which the rest of the retention is counted.
    pub checked: Timestamp,
}

impl View for Readings {
    type V = ReadingsView;

    open spec fn view(&self) -> ReadingsView {
        ReadingsView { noted: self.noted@, reported: self.reported@, checked: self.checked@ }
    }
}

/// Whether each reading is a point in time.
pub open spec fn valid_readings(t: ReadingsView) -> bool {
    &&& representable(t.noted.secs, t.noted.nanos)
    &&& representable(t.reported.secs, t.reported.nanos)
    &&& representable(t.checked.secs, t.checked.nanos)
}

impl Readings {
    /// Reads the clock.
    pub fn take() -> (r: Readings)
        ensures
            valid_readings(r@),
    {
        let noted = Timestamp::now();
        let reported = Timestamp::now();
        let checked = Timestamp::now();
        Readings { noted, reported, checked }
    }
}

/// How far a reconciliation has come.
#[derive(Clone, Copy, Debug, PartialEq, Eq, Structural)]
pub enum Stage {
    /// Nothing has been done.
    Start,
    /// The finalizer is being added.
    AddingFinalizer,
    /// The image is being copied.
    Mirroring,
    /// The status is being written.
    PatchingStatus,
    /// The status is being written another way, after the first one failed.
    MergingStatus,
    /// There is nothing left to decide.
    Finished,
}

/// What a [`ReconcileAction`] denotes.
pub ghost enum ReconcileActionView {
    AddFinalizer(Seq<Seq<char>>),
    Mirror,
    PatchStatus(ImageStatusView),
    MergeStatus(ImageStatusView),
    RemoveFinalizer(Seq<Seq<char>>),
    ScheduleRelease(int),
    Done,
}

/// What a reconciliation asks to be done next.
pub enum ReconcileAction {
    /// Give the image these finalizers.
    AddFinalizer(Vec<String>),
    /// Copy the image from its upstream registry.
    Mirror,
    /// Write this status.
    PatchStatus(ImageStatus),
    /// Write this status as part of the whole object.
    MergeStatus(ImageStatus),
    /// Give the image these finalizers, which lets go of it.
    RemoveFinalizer(Vec<String>),
    /// Look at the image again after so many nanoseconds, and let go of it then.
    ScheduleRelease(u128),
    /// Nothing.
    Done,
}

impl View for ReconcileAction {
    type V = ReconcileActionView;

    open spec fn view(&self) -> ReconcileActionView {
        match self {
            ReconcileAction::AddFinalizer(f) => ReconcileActionView::AddFinalizer(f.deep_view()),
            ReconcileAction::Mirror => ReconcileActionView::Mirror,
            ReconcileAction::PatchStatus(s) => ReconcileActionView::PatchStatus(s@),
            ReconcileAction::MergeStatus(s) => ReconcileActionView::MergeStatus(s@),
            ReconcileAction::RemoveFinalizer(f) => ReconcileActionView::RemoveFinalizer(
                f.deep_view(),
            ),
            ReconcileAction::ScheduleRelease(n) => ReconcileActionView::ScheduleRelease(*n as int),
            ReconcileAction::Done => ReconcileActionView::Done,
        }
    }
}

/// What a [`Reconcile`] denotes.
pub ghost struct ReconcileView {
    pub image: ImageView,
    pub references: Seq<ObjectKeyView>,
    pub retention: int,
    pub status: ImageStatusView,
    pub stage: Stage,
}

/// The status of an image; where it has none, that of an image of which nothing is known.
pub open spec fn status_or_empty(status: Option<ImageStatusView>) -> ImageStatusView {
    match status {
        Some(s) => s,
        None => empty_status(),
    }
}

/// The reconciliation of `image` with `references` before its first step.
pub open spec fn begun(
    image: ImageView,
    references: Seq<ObjectKeyView>,
    retention: int,
) -> ReconcileView {
    ReconcileView {
        image,
        references,
        retention,
        status: status_or_empty(image.status),
        stage: Stage::Start,
    }
}

/// A status with the given references. An image without references has been unreferenced since
/// the time it had noted, or since `noted`.
pub open spec fn synced(
    status: ImageStatusView,
    references: Seq<ObjectKeyView>,
    noted: TimestampView,
) -> ImageStatusView {
    ImageStatusView {
        references,
        last_unreferenced: if references.len() > 0 {
            None
        } else {
            match status.last_unreferenced {
                Some(t) => Some(t),
                None => Some(noted),
            }
        },
        ..status
    }
}

/// Whether an image has yet to be copied: it is referenced and not known to be mirrored.
pub open spec fn needs_mirror(status: ImageStatusView) -> bool {
    status.references.len() > 0 && status.mirrored != Some(true)
}

/// A status after the image was copied at `noted`.
pub open spec fn copied_at(status: ImageStatusView, noted: TimestampView) -> ImageStatusView {
    ImageStatusView { mirrored: Some(true), last_mirror_time: Some(noted), ..status }
}

/// An image is ready where it is referenced and mirrored; otherwise its readiness is unknown.
pub open spec fn readiness(status: ImageStatusView) -> Seq<char> {
    if status.references.len() > 0 && status.mirrored == Some(true) {
        "True"@
    } else {
        "Unknown"@
    }
}

/// A status with its readiness reported at `reported`.
pub open spec fn with_readiness(
    status: ImageStatusView,
    reported: TimestampView,
) -> ImageStatusView {
    ImageStatusView {
        conditions: upserted(
            status.conditions,
            "Ready"@,
            readiness(status),
            Some("Reconciled"@),
            None,
            reported,
        ),
        ..status
    }
}

/// The end of a reconciliation: an unreferenced image is let go of, at once where it is being
/// deleted, and otherwise when the retention has passed.
pub open spec fn concluded(s: ReconcileView, t: ReadingsView) -> (
    ReconcileView,
    ReconcileActionView,
) {
    (
        ReconcileView { stage: Stage::Finished, ..s },
        if s.references.len() > 0 {
            ReconcileActionView::Done
        } else if s.image.deleting {
            ReconcileActionView::RemoveFinalizer(without_finalizer(s.image.finalizers))
        } else {
            ReconcileActionView::ScheduleRelease(
                retention_left(
                    match s.status.last_unreferenced {
                        Some(since) => since,
                        None => t.checked,
                    },
                    t.checked,
                    s.retention,
                ),
            )
        },
    )
}

/// Reports the readiness; the status is written where it differs from that of the image.
pub open spec fn settled(s: ReconcileView, t: ReadingsView) -> (
    ReconcileView,
    ReconcileActionView,
) {
    let ready = ReconcileView { status: with_readiness(s.status, t.reported), ..s };
    if s.image.status == Some(ready.status) {
        concluded(ready, t)
    } else {
        (
            ReconcileView { stage: Stage::PatchingStatus, ..ready },
            ReconcileActionView::PatchStatus(ready.status),
        )
    }
}

/// Takes over the references; an image that has yet to be copied is copied before the rest.
pub open spec fn resumed(s: ReconcileView, t: ReadingsView) -> (
    ReconcileView,
    ReconcileActionView,
) {
    let current = ReconcileView { status: synced(s.status, s.references, t.noted), ..s };
    if needs_mirror(current.status) {
        (ReconcileView { stage: Stage::Mirroring, ..current }, ReconcileActionView::Mirror)
    } else {
        settled(current, t)
    }
}

/// One step of a reconciliation, given whether the last action succeeded.
pub open spec fn reconciled(s: ReconcileView, ok: bool, t: ReadingsView) -> (
    ReconcileView,
    ReconcileActionView,
) {
    match s.stage {
        Stage::Start => if has_finalizer(s.image.finalizers) {
            resumed(s, t)
        } else {
            (
                ReconcileView { stage: Stage::AddingFinalizer, ..s },
                ReconcileActionView::AddFinalizer(with_finalizer(s.image.finalizers)),
            )
        },
        Stage::AddingFinalizer => resumed(s, t),
        Stage::Mirroring => if ok {
            settled(ReconcileView { status: copied_at(s.status, t.noted), ..s }, t)
        } else {
            settled(s, t)
        },
        Stage::PatchingStatus => if ok {
            concluded(s, t)
        } else {
            (
                ReconcileView { stage: Stage::MergingStatus, ..s },
                ReconcileActionView::MergeStatus(s.status),
            )
        },
        Stage::MergingStatus => concluded(s, t),
        Stage::Finished => (s, ReconcileActionView::Done),
    }
}

/// The reconciliation of one image.
pub struct Reconcile {
    image: Image,
    references: SortedSet<ObjectKey>,
    retention: u128,
    status: ImageStatus,
    stage: Stage,
}

impl View for Reconcile {
    type V = ReconcileView;

    closed spec fn view(&self) -> ReconcileView {
        ReconcileView {
            image: self.image@,
            references: self.references@,
            retention: self.retention as int,
            status: self.status@,
            stage: self.stage,
        }
    }
}

impl Reconcile {
    /// Starts to reconcile `image` with the objects that refer to it. An image without any is
    /// kept for `retention` nanoseconds.
    pub fn begin(image: Image, references: SortedSet<ObjectKey>, retention: u128) -> (r: Reconcile)
        ensures
            r@ == begun(image@, references@, retention as int),
    {
        let status: ImageStatus = match &image.status {
            Some(s) => s.clone(),
            None => ImageStatus::default(),
        };
        Reconcile { image, references, retention, status, stage: Stage::Start }
    }

    /// The image that is reconciled, as it was found.
    pub fn image(&self) -> (r: &Image)
        ensures
            r@ == self@.image,
    {
        &self.image
    }

    fn conclude(&mut self, t: Readings) -> (r: ReconcileAction)
        ensures
            (final(self)@, r@) == concluded(old(self)@, t@),
    {
        self.stage = Stage::Finished;
        if !self.references.is_empty() {
            ReconcileAction::Done
        } else if self.image.deleting {
            ReconcileAction::RemoveFinalizer(self.image.finalizers_without())
        } else {
            let since: Timestamp = match self.status.last_unreferenced {
                Some(since) => since,
                None => t.checked,
            };
            ReconcileAction::ScheduleRelease(
                remaining_retention(&since, &t.checked, self.retention),
            )
        }
    }

    fn settle(&mut self, t: Readings) -> (r: ReconcileAction)
        ensures
            (final(self)@, r@) == settled(old(self)@, t@),
    {
        let ready: &str = if !self.is_unreferenced() && self.is_mirrored() {
            "True"
        } else {
            "Unknown"
        };
        upsert_condition_at(
            &mut self.status.conditions,
            "Ready",
            ready,
            Some("Reconciled"),
            None,
            t.reported,
        );
        let unchanged: bool = match &self.image.status {
            Some(s) => s.same(&self.status),
            None => false,
        };
        if unchanged {
            self.conclude(t)
        } else {
            self.stage = Stage::PatchingStatus;
            ReconcileAction::PatchStatus(self.status.clone())
        }
    }

    fn is_unreferenced(&self) -> (r: bool)
        ensures
            r == (self@.status.references.len() == 0),
    {
        self.status.references.is_empty()
    }

    fn is_mirrored(&self) -> (r: bool)
        ensures
            r == (self@.status.mirrored == Some(true)),
    {
        match self.status.mirrored {
            Some(m) => m,
            None => false,
        }
    }

    fn resume(&mut self, t: Readings) -> (r: ReconcileAction)
        ensures
            (final(self)@, r@) == resumed(old(self)@, t@),
    {
        self.status.references = self.references.duplicate();
        if self.references.is_empty() {
            if self.status.last_unreferenced.is_none() {
                self.status.last_unreferenced = Some(t.noted);
            }
        } else {
            self.status.last_unreferenced = None;
        }
        if !self.is_unreferenced() && !self.is_mirrored() {
            self.stage = Stage::Mirroring;
            ReconcileAction::Mirror
        } else {
            self.settle(t)
        }
    }

    /// Takes one step, given whether the last action succeeded, at the times `t`; tells what is
    /// to be done next.
    pub fn step_at(&mut self, ok: bool, t: Readings) -> (r: ReconcileAction)
        ensures
            (final(self)@, r@) == reconciled(old(self)@, ok, t@),
    {
        match self.stage {
            Stage::Start => {
                if self.image.is_held() {
                    self.resume(t)
                } else {
                    self.stage = Stage::AddingFinalizer;
                    ReconcileAction::AddFinalizer(self.image.finalizers_with())
                }
            },
            Stage::AddingFinalizer => self.resume(t),
            Stage::Mirroring => {
                if ok {
                    self.status.mirrored = Some(true);
                    self.status.last_mirror_time = Some(t.noted);
                }
                self.settle(t)
            },
            Stage::PatchingStatus => {
                if ok {
                    self.conclude(t)
                } else {
                    self.stage = Stage::MergingStatus;
                    ReconcileAction::MergeStatus(self.status.clone())
                }
            },
            Stage::MergingStatus => self.conclude(t),
            Stage::Finished => ReconcileAction::Done,
        }
    }

    /// Takes one step, given whether the last action succeeded, at the current time; tells what
    /// is to be done next.
    pub fn step(&mut self, ok: bool) -> (r: ReconcileAction)
        ensures
            exists|t: ReadingsView|
                valid_readings(t) && (final(self)@, r@) == #[trigger] reconciled(
                    old(self)@,
                    ok,
                    t,
                ),
    {
        let t = Readings::take();
        self.step_at(ok, t)
    }
}

/// Whether nothing referred to an image at the time of `snapshot`, and nothing refers to it now.
pub open spec fn still_unreferenced(snapshot: Seq<ObjectKeyView>, current: ImageView) -> bool {
    snapshot.len() == 0 && (current.status matches Some(s) ==> s.references.len() == 0)
}

/// Whether an image is let go of when its retention has passed, given the references it had
/// before: nothing refers to it, and the controller still holds on to it.
pub open spec fn released(snapshot: Seq<ObjectKeyView>, current: ImageView) -> bool {
    still_unreferenced(snapshot, current) && has_finalizer(current.finalizers)
}

fn is_released(snapshot: &SortedSet<ObjectKey>, current: &Image) -> (r: bool)
    ensures
        r == released(snapshot@, current@),
{
    let free: bool = match &current.status {
        Some(s) => s.references.is_empty(),
        None => true,
    };
    snapshot.is_empty() && free && current.is_held()
}

/// The finalizers with which an image is let go of when its retention has passed; none where it
/// is kept.
pub fn release_after_retention(snapshot: &SortedSet<ObjectKey>, current: &Image) -> (r: Option<
    Vec<String>,
>)
    ensures
        match r {
            Some(finalizers) => {
                &&& released(snapshot@, current@)
                &&& finalizers.deep_view() == without_finalizer(current@.finalizers)
            },
            None => !released(snapshot@, current@),
        },
{
    if is_released(snapshot, current) {
        Some(current.finalizers_without())
    } else {
        None
    }
}

/// The image that is to be removed from the registry when its retention has passed: that of the
/// resource where it is let go of, and none where it is kept.
pub fn removal_after_retention(snapshot: &SortedSet<ObjectKey>, current: &Image) -> (r: Option<
    String,
>)
    ensures
        r.deep_view() == if released(snapshot@, current@) {
            Some(current@.image)
        } else {
            None
        },
{
    if is_released(snapshot, current) {
        Some(current.spec.image.clone())
    } else {
        None
    }
}

/// How many actions a reconciliation may still ask for before it is finished.
pub open spec fn steps_left(stage: Stage) -> nat {
    match stage {
        Stage::Start => 5,
        Stage::AddingFinalizer => 4,
        Stage::Mirroring => 3,
        Stage::PatchingStatus => 2,
        Stage::MergingStatus => 1,
        Stage::Finished => 0,
    }
}

/// Every step brings a reconciliation closer to its end, whatever the outcome of the last action,
/// and keeps what it was begun with; a finished one stays as it is.
pub proof fn every_step_advances(s: ReconcileView, ok: bool, t: ReadingsView)
    ensures
        ({
            let (next, action) = reconciled(s, ok, t);
            &&& s.stage != Stage::Finished ==> steps_left(next.stage) < steps_left(s.stage)
            &&& s.stage == Stage::Finished ==> next == s && action
                == ReconcileActionView::Done
            &&& next.image == s.image
            &&& next.references == s.references
            &&& next.retention == s.retention
        }),
{
}

/// An image is let go of only where no object refers to it: at once only where it is being
/// deleted, and then without the finalizer of the controller; after the retention only where it
/// is not.
pub proof fn only_unreferenced_images_are_released(s: ReconcileView, ok: bool, t: ReadingsView)
    ensures
        match reconciled(s, ok, t).1 {
            ReconcileActionView::RemoveFinalizer(finalizers) => {
                &&& s.references.len() == 0
                &&& s.image.deleting
                &&& !has_finalizer(Some(finalizers))
            },
            ReconcileActionView::ScheduleRelease(_) => {
                &&& s.references.len() == 0
                &&& !s.image.deleting
            },
            _ => true,
        },
{
    finalizers_round_trip(s.image.finalizers);
}

/// Every reconciliation of an unreferenced image ends with its release, at once or after the
/// retention, whatever the outcome of the actions before.
pub proof fn unreferenced_images_are_released(s: ReconcileView, ok: bool, t: ReadingsView)
    requires
        s.stage != Stage::Finished,
        s.references.len() == 0,
        reconciled(s, ok, t).0.stage == Stage::Finished,
    ensures
        if s.image.deleting {
            reconciled(s, ok, t).1 == ReconcileActionView::RemoveFinalizer(
                without_finalizer(s.image.finalizers),
            )
        } else {
            reconciled(s, ok, t).1 is ScheduleRelease
        },
{
}

/// The release that a reconciliation schedules never comes before the whole retention has passed
/// since the image lost its last reference, where the clock did not run backwards, and never
/// later than a whole retention from now.
pub proof fn images_are_kept_for_the_retention(s: ReconcileView, ok: bool, t: ReadingsView)
    requires
        s.retention >= 0,
    ensures
        match reconciled(s, ok, t) {
            (next, ReconcileActionView::ScheduleRelease(nanos)) => {
                &&& 0 <= nanos <= s.retention
                &&& next.status.last_unreferenced matches Some(since) ==> {
                    let passed = nanos_between(since, t.checked);
                    passed >= 0 ==> passed + nanos >= s.retention
                }
            },
            _ => true,
        },
{
    if let Some(since) = reconciled(s, ok, t).0.status.last_unreferenced {
        if nanos_between(since, t.checked) >= 0 {
            retention_is_kept(since, t.checked, s.retention as nat);
        }
    }
}

/// Whether a status tells the truth about an image with these references: it lists them, notes
/// since when there are none exactly where there are none, and reports the readiness.
pub open spec fn truthful(status: ImageStatusView, references: Seq<ObjectKeyView>) -> bool {
    &&& status.references == references
    &&& status.last_unreferenced is Some <==> references.len() == 0
    &&& condition_of(status.conditions, "Ready"@) matches Some(c) && {
        &&& status.references.len() > 0 && status.mirrored == Some(true) ==> c.status == "True"@
        &&& status.references.len() == 0 || status.mirrored != Some(true) ==> c.status
            == "Unknown"@
        &&& c.reason == Some("Reconciled"@)
        &&& c.message is None
    }
}

/// What holds of a reconciliation at every stage: until the references are taken over the status
/// is that of the image; an image is copied only where it has yet to be; and what is written,
/// and what remains, is truthful.
pub open spec fn on_course(s: ReconcileView) -> bool {
    match s.stage {
        Stage::Start => s.status == status_or_empty(s.image.status),
        Stage::AddingFinalizer => s.status == status_or_empty(s.image.status),
        Stage::Mirroring => {
            &&& s.references.len() > 0
            &&& s.status.mirrored != Some(true)
            &&& s.status.references == s.references
            &&& s.status.last_unreferenced is None
        },
        _ => truthful(s.status, s.references),
    }
}

/// A reconciliation stays on course and writes only truthful statuses.
pub proof fn reconciliation_stays_on_course(s: ReconcileView, ok: bool, t: ReadingsView)
    requires
        on_course(s),
    ensures
        on_course(reconciled(s, ok, t).0),
        match reconciled(s, ok, t).1 {
            ReconcileActionView::PatchStatus(status) => truthful(status, s.references),
            ReconcileActionView::MergeStatus(status) => truthful(status, s.references),
            _ => true,
        },
{
    let first = synced(s.status, s.references, t.noted);
    lemma_readiness_is_found(first, t.reported);
    lemma_readiness_is_found(s.status, t.reported);
    lemma_readiness_is_found(copied_at(s.status, t.noted), t.reported);
}

proof fn lemma_readiness_is_found(status: ImageStatusView, reported: TimestampView)
    ensures
        condition_of(with_readiness(status, reported).conditions, "Ready"@) matches Some(c) && {
            &&& c.status == readiness(status)
            &&& c.reason == Some("Reconciled"@)
            &&& c.message is None
        },
{
    upserted_is_found(
        status.conditions,
        "Ready"@,
        readiness(status),
        Some("Reconciled"@),
        None,
        reported,
    );
}

/// The state of a reconciliation after a number of steps, each given by the outcome of the last
/// action and the times.
pub open spec fn after_steps(s: ReconcileView, steps: Seq<(bool, ReadingsView)>) -> ReconcileView
    decreases steps.len(),
{
    if steps.len() == 0 {
        s
    } else {
        reconciled(after_steps(s, steps.drop_last()), steps.last().0, steps.last().1).0
    }
}

/// Five steps finish every reconciliation, whatever the outcomes of its actions, and leave a
/// truthful status.
pub proof fn reconciliation_ends_truthfully(
    image: ImageView,
    references: Seq<ObjectKeyView>,
    retention: int,
    steps: Seq<(bool, ReadingsView)>,
)
    ensures
        ({
            let end = after_steps(begun(image, references, retention), steps);
            &&& on_course(end)
            &&& steps.len() >= 5 ==> end.stage == Stage::Finished && truthful(
                end.status,
                references,
            )
        }),
{
    lemma_after_steps(image, references, retention, steps);
}

proof fn lemma_after_steps(
    image: ImageView,
    references: Seq<ObjectKeyView>,
    retention: int,
    steps: Seq<(bool, ReadingsView)>,
)
    ensures
        ({
            let end = after_steps(begun(image, references, retention), steps);
            &&& on_course(end)
            &&& end.references == references
            &&& steps_left(end.stage) + steps.len() <= 5 || end.stage == Stage::Finished
        }),
    decreases steps.len(),
{
    if steps.len() > 0 {
        lemma_after_steps(image, references, retention, steps.drop_last());
        let before = after_steps(begun(image, references, retention), steps.drop_last());
        reconciliation_stays_on_course(before, steps.last().0, steps.last().1);
        every_step_advances(before, steps.last().0, steps.last().1);
    }
}

/// An image is copied only while it is referenced and not mirrored, and one that is mirrored
/// stays so.
pub proof fn mirrored_images_are_not_copied_again(s: ReconcileView, ok: bool, t: ReadingsView)
    requires
        s.status.mirrored == Some(true),
    ensures
        reconciled(s, ok, t).0.status.mirrored == Some(true),
        reconciled(s, ok, t).1 != ReconcileActionView::Mirror,
{
}

/// An image whose status is truthful is left as it is when it is reconciled with the same
/// references at any other time: once the controller holds it, whether or not adding the
/// finalizer succeeded, nothing is written; and where the copy is still outstanding and fails
/// again, nothing is written either.
pub proof fn truthful_images_are_left_alone(
    image: ImageView,
    references: Seq<ObjectKeyView>,
    retention: int,
    ok: bool,
    first: ReadingsView,
    t: ReadingsView,
    later: ReadingsView,
)
    requires
        image.status matches Some(status) && truthful(status, references),
    ensures
        ({
            let start = begun(image, references, retention);
            let (held, added) = reconciled(start, true, first);
            &&& !has_finalizer(image.finalizers) ==> added == ReconcileActionView::AddFinalizer(
                with_finalizer(image.finalizers),
            )
            &&& {
                let ready = if has_finalizer(image.finalizers) {
                    start
                } else {
                    held
                };
                let (next, action) = reconciled(ready, ok, t);
                if needs_mirror(start.status) {
                    &&& action == ReconcileActionView::Mirror
                    &&& reconciled(next, false, later) == concluded(start, later)
                } else {
                    (next, action) == concluded(start, t)
                }
            }
        }),
{
    let start = begun(image, references, retention);
    let status = start.status;
    assert(synced(status, references, t.noted) == status);
    lemma_known_readiness_is_kept(status, t.reported);
    lemma_known_readiness_is_kept(status, later.reported);
}

proof fn lemma_known_readiness_is_kept(status: ImageStatusView, reported: TimestampView)
    requires
        truthful(status, status.references),
    ensures
        with_readiness(status, reported) == status,
{
    let cs = status.conditions;
    let types = cs.map_values(|c: ConditionView| c.type_);
    types.index_of_first_ensures("Ready"@);
    assert(with_readiness(status, reported).conditions =~= cs);
}

/// Whether the finalizer of the controller is among those of an image.
pub open spec fn holds(image: ImageView) -> bool {
    image.finalizers matches Some(f) && f.contains("qebbeq.tuco86.dev/finalizer"@)
}

/// An image that the controller does not hold gets its finalizer, behind those that it has, before
/// anything else is decided.
pub proof fn the_finalizer_comes_first(s: ReconcileView, ok: bool, t: ReadingsView)
    requires
        s.stage == Stage::Start,
        !holds(s.image),
    ensures
        reconciled(s, ok, t).0 == (ReconcileView { stage: Stage::AddingFinalizer, ..s }),
        reconciled(s, ok, t).1 == ReconcileActionView::AddFinalizer(
            match s.image.finalizers {
                Some(f) => f.push("qebbeq.tuco86.dev/finalizer"@),
                None => seq!["qebbeq.tuco86.dev/finalizer"@],
            },
        ),
{
    if let Some(f) = s.image.finalizers {
        holding_adds_one_finalizer(f);
        assert(f + seq!["qebbeq.tuco86.dev/finalizer"@] =~= f.push("qebbeq.tuco86.dev/finalizer"@));
    } else {
        holding_adds_one_finalizer(Seq::empty());
    }
}

/// When a reconciliation takes over its references, the status lists them. An image with any is
/// not unreferenced; one without any has been so since the time that it had noted, and where it
/// had noted none, since this very step. What else the status knows, but for the readiness, stays
/// as it is. The image is copied exactly where it is referenced and not mirrored.
pub proof fn references_are_taken_over(s: ReconcileView, ok: bool, t: ReadingsView)
    requires
        s.stage == Stage::AddingFinalizer || s.stage == Stage::Start && holds(s.image),
    ensures
        ({
            let (next, action) = reconciled(s, ok, t);
            let before = s.status;
            let after = next.status;
            &&& after.references == s.references
            &&& s.references.len() > 0 ==> after.last_unreferenced is None
            &&& s.references.len() == 0 && before.last_unreferenced is Some
                ==> after.last_unreferenced == before.last_unreferenced
            &&& s.references.len() == 0 && before.last_unreferenced is None
                ==> after.last_unreferenced == Some(t.noted)
            &&& after.mirrored == before.mirrored
            &&& after.last_mirror_time == before.last_mirror_time
            &&& after.retain_until == before.retain_until
            &&& after.last_pulled_at == before.last_pulled_at
            &&& after.phase == before.phase
            &&& action == ReconcileActionView::Mirror <==> s.references.len() > 0 && before.mirrored
                != Some(true)
            &&& action == ReconcileActionView::Mirror ==> next.stage == Stage::Mirroring
                && after.conditions == before.conditions
        }),
{
}

/// A copy that succeeded is noted with the time of the step; one that failed leaves no trace. What
/// else the status knows, but for the readiness, stays as it is.
pub proof fn a_copy_is_noted(s: ReconcileView, ok: bool, t: ReadingsView)
    requires
        s.stage == Stage::Mirroring,
    ensures
        ({
            let (next, action) = reconciled(s, ok, t);
            let before = s.status;
            let after = next.status;
            &&& ok ==> after.mirrored == Some(true) && after.last_mirror_time == Some(t.noted)
            &&& !ok ==> after.mirrored == before.mirrored && after.last_mirror_time
                == before.last_mirror_time
            &&& after.references == before.references
            &&& after.last_unreferenced == before.last_unreferenced
            &&& after.retain_until == before.retain_until
            &&& after.last_pulled_at == before.last_pulled_at
            &&& after.phase == before.phase
        }),
{
}

/// Whether a step reports the readiness: that which takes over the references of an image that
/// needs no copy, and that which follows a copy.
pub open spec fn reports(s: ReconcileView) -> bool {
    ||| s.stage == Stage::Mirroring
    ||| (s.stage == Stage::AddingFinalizer || s.stage == Stage::Start && holds(s.image)) && (
    s.references.len() == 0 || s.status.mirrored == Some(true))
}

/// A step that reports the readiness gives the first condition `Ready`, at the returned position,
/// the status `True` where the image is referenced and mirrored, and `Unknown` in every other
/// case. It is dated with the time of the step exactly where it said something else before, or
/// was not there. No other condition changes.
pub proof fn readiness_is_reported(s: ReconcileView, ok: bool, t: ReadingsView) -> (i: int)
    requires
        reports(s),
    ensures
        ({
            let before = s.status.conditions;
            let after = reconciled(s, ok, t).0.status;
            let cs = after.conditions;
            let ready = after.references.len() > 0 && after.mirrored == Some(true);
            &&& 0 <= i < cs.len()
            &&& cs[i].type_ == "Ready"@
            &&& forall|j: int| 0 <= j < i ==> (#[trigger] cs[j]).type_ != "Ready"@
            &&& ready ==> cs[i].status == "True"@
            &&& !ready ==> cs[i].status == "Unknown"@
            &&& cs[i].reason == Some("Reconciled"@)
            &&& cs[i].message is None
            &&& i == before.len() ==> cs.len() == i + 1 && cs[i].last_transition_time == Some(
                t.reported,
            )
            &&& i < before.len() ==> {
                &&& cs.len() == before.len()
                &&& before[i].type_ == "Ready"@
                &&& cs[i].last_transition_time == if before[i].status == cs[i].status {
                    before[i].last_transition_time
                } else {
                    Some(t.reported)
                }
            }
            &&& forall|j: int|
                0 <= j < before.len() && j != i ==> #[trigger] cs[j] == before[j]
        }),
{
    let mid = if s.stage == Stage::Mirroring {
        if ok {
            copied_at(s.status, t.noted)
        } else {
            s.status
        }
    } else {
        synced(s.status, s.references, t.noted)
    };
    let before = s.status.conditions;
    let after = reconciled(s, ok, t).0.status;
    assert(after == with_readiness(mid, t.reported));
    let types = before.map_values(|c: ConditionView| c.type_);
    types.index_of_first_ensures("Ready"@);
    if types.contains("Ready"@) {
        let i = types.index_of_first("Ready"@)->0;
        let head = before.take(i);
        let tail = before.skip(i + 1);
        assert(before =~= head + seq![before[i]] + tail);
        assert forall|j: int| 0 <= j < head.len() implies (#[trigger] head[j]).type_ != "Ready"@ by {
            assert(types[j] == before[j].type_);
        }
        a_report_changes_the_first_of_its_type(
            head,
            before[i],
            tail,
            readiness(mid),
            Some("Reconciled"@),
            None,
            t.reported,
        );
        let cs = after.conditions;
        assert forall|j: int| 0 <= j < before.len() && j != i implies #[trigger] cs[j]
            == before[j] by {
            if j < i {
                assert(cs.take(i)[j] == head[j]);
            } else {
                assert(cs.skip(i + 1)[j - i - 1] == tail[j - i - 1]);
            }
        }
        assert forall|j: int| 0 <= j < i implies (#[trigger] cs[j]).type_ != "Ready"@ by {
            assert(types[j] == before[j].type_);
        }
        i
    } else {
        assert forall|j: int| 0 <= j < before.len() implies (#[trigger] before[j]).type_
            != "Ready"@ by {
            assert(types[j] == before[j].type_);
        }
        a_first_report_joins_at_the_end(
            before,
            "Ready"@,
            readiness(mid),
            Some("Reconciled"@),
            None,
            t.reported,
        );
        let cs = after.conditions;
        assert forall|j: int| 0 <= j < before.len() implies #[trigger] cs[j] == before[j] by {
            assert(cs.take(before.len() as int)[j] == before[j]);
        }
        before.len() as int
    }
}

/// After the readiness is reported the status is written exactly where the image does not have it
/// already; where it does, the reconciliation ends.
pub proof fn a_changed_status_is_written(s: ReconcileView, ok: bool, t: ReadingsView)
    requires
        reports(s),
    ensures
        ({
            let (next, action) = reconciled(s, ok, t);
            &&& s.image.status == Some(next.status) ==> next.stage == Stage::Finished
                && !(action is PatchStatus)
            &&& s.image.status != Some(next.status) ==> next.stage == Stage::PatchingStatus && action
                == ReconcileActionView::PatchStatus(next.status)
        }),
{
}

/// A status that could not be written is written once more in another way, and then no more; what
/// is written stays the status.
pub proof fn a_status_is_written_twice_at_most(s: ReconcileView, ok: bool, t: ReadingsView)
    requires
        s.stage == Stage::PatchingStatus || s.stage == Stage::MergingStatus || s.stage
            == Stage::Finished,
    ensures
        ({
            let (next, action) = reconciled(s, ok, t);
            &&& next.status == s.status
            &&& s.stage == Stage::PatchingStatus && !ok ==> next.stage == Stage::MergingStatus
                && action == ReconcileActionView::MergeStatus(s.status)
            &&& s.stage == Stage::PatchingStatus && ok ==> next.stage == Stage::Finished
            &&& s.stage == Stage::MergingStatus ==> next.stage == Stage::Finished
            &&& next.stage == Stage::Finished ==> !(action is PatchStatus) && !(
            action is MergeStatus)
        }),
{
}

/// A reconciliation ends with nothing to do where the image is referenced. Otherwise an image that
/// is being deleted loses exactly the finalizer of the controller, and any other is released when
/// the retention has passed since it became unreferenced: after what is left of it, or at once
/// where nothing is.
pub proof fn how_a_reconciliation_ends(s: ReconcileView, ok: bool, t: ReadingsView)
    requires
        s.stage != Stage::Finished,
        reconciled(s, ok, t).0.stage == Stage::Finished,
        s.retention >= 0,
    ensures
        ({
            let (next, action) = reconciled(s, ok, t);
            &&& s.references.len() > 0 ==> action == ReconcileActionView::Done
            &&& s.references.len() == 0 && s.image.deleting ==> (
            action matches ReconcileActionView::RemoveFinalizer(left) && forall|f: Seq<char>|
                left.contains(f) <==> f != "qebbeq.tuco86.dev/finalizer"@
                    && s.image.finalizers is Some && s.image.finalizers->0.contains(f))
            &&& s.references.len() == 0 && !s.image.deleting ==> (
            action matches ReconcileActionView::ScheduleRelease(nanos) && (
            next.status.last_unreferenced matches Some(since) ==> {
                let passed = nanos_between(since, t.checked);
                &&& passed <= 0 ==> nanos == s.retention
                &&& 0 <= passed <= s.retention ==> nanos + passed == s.retention
                &&& passed >= s.retention ==> nanos == 0
            }))
        }),
{
    let (next, action) = reconciled(s, ok, t);
    finalizers_round_trip(s.image.finalizers);
    let list = match s.image.finalizers {
        Some(f) => f,
        None => Seq::empty(),
    };
    if action is RemoveFinalizer {
        let left = action->RemoveFinalizer_0;
        assert forall|f: Seq<char>|
            left.contains(f) <==> f != "qebbeq.tuco86.dev/finalizer"@ && s.image.finalizers is Some
                && s.image.finalizers->0.contains(f) by {
            if f == "qebbeq.tuco86.dev/finalizer"@ {
                assert(!has_finalizer(Some(left)));
            } else {
                assert(without_finalizer(s.image.finalizers).contains(f) <==> list.contains(f));
            }
        }
    }
    if let Some(since) = next.status.last_unreferenced {
        retention_counts_down(since, t.checked, s.retention as nat);
    }
}

/// An image that was referenced until now, or of which nothing was known, is kept for the whole
/// retention from the step on that found it without references: the release that is scheduled
/// then, whenever the status has been written, comes no earlier, where the clock does not run
/// backwards.
pub proof fn a_lost_image_is_kept_for_the_whole_retention(
    image: ImageView,
    references: Seq<ObjectKeyView>,
    retention: int,
    ok: bool,
    t: ReadingsView,
    steps: Seq<(bool, ReadingsView)>,
    last: (bool, ReadingsView),
)
    requires
        holds(image),
        references.len() == 0,
        retention >= 0,
        image.status matches Some(status) ==> status.last_unreferenced is None,
    ensures
        ({
            let found = reconciled(begun(image, references, retention), ok, t).0;
            let s = after_steps(found, steps);
            &&& s.status.last_unreferenced == Some(t.noted)
            &&& reconciled(s, last.0, last.1).1 matches ReconcileActionView::ScheduleRelease(nanos)
                ==> {
                let passed = nanos_between(t.noted, last.1.checked);
                passed >= 0 ==> passed + nanos >= retention
            }
            &&& reconciled(
                begun(image, references, retention),
                ok,
                t,
            ).1 matches ReconcileActionView::ScheduleRelease(nanos) ==> {
                let passed = nanos_between(t.noted, t.checked);
                passed >= 0 ==> passed + nanos >= retention
            }
        }),
{
    let start = begun(image, references, retention);
    let found = reconciled(start, ok, t).0;
    references_are_taken_over(start, ok, t);
    lemma_written_status_stays(found, steps);
    let s = after_steps(found, steps);
    a_status_is_written_twice_at_most(s, last.0, last.1);
    images_are_kept_for_the_retention(s, last.0, last.1);
    images_are_kept_for_the_retention(start, ok, t);
}

proof fn lemma_written_status_stays(s: ReconcileView, steps: Seq<(bool, ReadingsView)>)
    requires
        s.stage == Stage::PatchingStatus || s.stage == Stage::MergingStatus || s.stage
            == Stage::Finished,
    ensures
        ({
            let end = after_steps(s, steps);
            &&& end.status == s.status
            &&& end.references == s.references
            &&& end.retention == s.retention
            &&& end.stage == Stage::PatchingStatus || end.stage == Stage::MergingStatus || end.stage
                == Stage::Finished
        }),
    decreases steps.len(),
{
    if steps.len() > 0 {
        lemma_written_status_stays(s, steps.drop_last());
    }
}

/// An image is released after its retention exactly where nothing referred to it before, its
/// current status lists no reference, and the controller holds it; without a status nothing refers
/// to it.
pub proof fn images_are_released_where_nothing_refers_to_them(
    snapshot: Seq<ObjectKeyView>,
    current: ImageView,
)
    ensures
        released(snapshot, current) <==> {
            &&& snapshot.len() == 0
            &&& current.status is None || current.status->0.references.len() == 0
            &&& holds(current)
        },
{
}

/// A reconciliation begins with the status of the image, and where it has none, with one that
/// knows nothing.
pub proof fn a_reconciliation_begins_with_what_is_known(
    image: ImageView,
    references: Seq<ObjectKeyView>,
    retention: int,
)
    ensures
        ({
            let s = begun(image, references, retention);
            &&& s.stage == Stage::Start
            &&& s.image == image
            &&& s.references == references
            &&& s.retention == retention
            &&& image.status is Some ==> s.status == image.status->0
            &&& image.status is None ==> {
                &&& s.status.references.len() == 0
                &&& s.status.conditions.len() == 0
                &&& s.status.mirrored is None
                &&& s.status.last_mirror_time is None
                &&& s.status.last_unreferenced is None
                &&& s.status.retain_until is None
                &&& s.status.last_pulled_at is None
                &&& s.status.phase is None
            }
        }),
{
}

} // verus!
