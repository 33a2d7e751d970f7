//! Which mirrors are polled, and what is reported about them.

use vstd::prelude::*;

use crate::resources::image::{condition_of, upserted_is_found, upserted_keeps_others};
use crate::resources::imagemirror::{
    reported_mirror_status, ImageMirror, ImageMirrorStatus, ImageMirrorStatusView,
    ImageMirrorView, MirrorPolicyType,
};
use crate::sorted::{
    finite_set_in_order, in_order, increasing_is_in_order, lemma_to_set_contains, Comparison, Key,
    SortedSet,
};
use crate::text::{compare_text, text_before};
use crate::time::{representable, Timestamp, TimestampView};
use crate::watch::{StreamItem, WatchEvent};

verus! {

/// What a [`MirrorKey`] denotes.
pub ghost struct MirrorKeyView {
    pub ns: Seq<char>,
    pub name: Seq<char>,
}

/// A mirror of the cluster.
#[derive(Debug, PartialEq, Eq, Hash)]
pub struct MirrorKey {
    pub ns: String,
    pub name: String,
}

impl View for MirrorKey {
    type V = MirrorKeyView;

    open spec fn view(&self) -> MirrorKeyView {
        MirrorKeyView { ns: self.ns@, name: self.name@ }
    }
}

impl Clone for MirrorKey {
    fn clone(&self) -> (r: Self)
        ensures
            r@ == self@,
    {
        MirrorKey { ns: self.ns.clone(), name: self.name.clone() }
    }
}

/// Keys are ordered by namespace, then by name.
pub open spec fn mirror_key_before(a: MirrorKeyView, b: MirrorKeyView) -> bool {
    text_before(a.ns, b.ns) || a.ns == b.ns && text_before(a.name, b.name)
}

impl Key for MirrorKey {
    open spec fn before(a: MirrorKeyView, b: MirrorKeyView) -> bool {
        mirror_key_before(a, b)
    }

    proof fn before_irreflexive(a: MirrorKeyView) {
        String::before_irreflexive(a.ns);
        String::before_irreflexive(a.name);
    }

    proof fn before_transitive(a: MirrorKeyView, b: MirrorKeyView, c: MirrorKeyView) {
        if text_before(a.ns, b.ns) && text_before(b.ns, c.ns) {
            String::before_transitive(a.ns, b.ns, c.ns);
        }
        if text_before(a.name, b.name) && text_before(b.name, c.name) {
            String::before_transitive(a.name, b.name, c.name);
        }
    }

    proof fn before_total(a: MirrorKeyView, b: MirrorKeyView) {
        String::before_total(a.ns, b.ns);
        String::before_total(a.name, b.name);
    }

    fn compare(&self, other: &Self) -> (r: Comparison) {
        match compare_text(self.ns.as_str(), other.ns.as_str()) {
            Comparison::Equal => compare_text(self.name.as_str(), other.name.as_str()),
            different => different,
        }
    }

    fn duplicate(&self) -> (r: Self) {
        self.clone()
    }
}

/// The key of a mirror.
pub open spec fn key_of(m: ImageMirrorView) -> MirrorKeyView {
    MirrorKeyView {
        ns: match m.namespace {
            Some(ns) => ns,
            None => Seq::<char>::empty(),
        },
        name: m.name,
    }
}

impl MirrorKey {
    /// The key of `m`.
    pub fn of(m: &ImageMirror) -> (r: MirrorKey)
        ensures
            r@ == key_of(m@),
    {
        MirrorKey {
            ns: match &m.namespace {
                Some(ns) => ns.clone(),
                None => String::new(),
            },
            name: m.name.clone(),
        }
    }
}

/// The polling interval, in seconds, where a policy gives none.
pub const DEFAULT_INTERVAL: u32 = 300;

/// What a [`PollingStep`] denotes.
pub ghost enum PollingStepView {
    Skip,
    Accept {
        key: MirrorKeyView,
        cancel: bool,
        status: ImageMirrorStatusView,
        poll_every: Option<u32>,
    },
    Forget { key: MirrorKeyView, cancel: bool },
    Stop { keys: Seq<MirrorKeyView> },
}

/// What follows an item of the mirror watch.
pub enum PollingStep {
    /// Wait for the next item.
    Skip,
    /// Cancel the poller of the mirror where there is one, report the status of the mirror, and
    /// start a poller that runs every so many seconds where an interval is given.
    Accept { key: MirrorKey, cancel: bool, status: ImageMirrorStatus, poll_every: Option<u32> },
    /// Cancel the poller of the mirror where there is one.
    Forget { key: MirrorKey, cancel: bool },
    /// Cancel these pollers and end the watch.
    Stop { keys: SortedSet<MirrorKey> },
}

impl View for PollingStep {
    type V = PollingStepView;

    open spec fn view(&self) -> PollingStepView {
        match self {
            PollingStep::Skip => PollingStepView::Skip,
            PollingStep::Accept { key, cancel, status, poll_every } => PollingStepView::Accept {
                key: key@,
                cancel: *cancel,
                status: status@,
                poll_every: *poll_every,
            },
            PollingStep::Forget { key, cancel } => PollingStepView::Forget {
                key: key@,
                cancel: *cancel,
            },
            PollingStep::Stop { keys } => PollingStepView::Stop { keys: keys@ },
        }
    }
}

/// What is reported of a mirror that was accepted at `now`: that it is ready, and whether it is
/// fetched lazily or polled.
pub open spec fn accepted_status(m: ImageMirrorView, now: TimestampView) -> ImageMirrorStatusView {
    match m.spec.policy.type_ {
        MirrorPolicyType::IfNotPresent => reported_mirror_status(
            m.status,
            None,
            "True"@,
            Some("Accepted"@),
            Some("Lazy fetch (IfNotPresent)"@),
            now,
        ),
        MirrorPolicyType::Poll => reported_mirror_status(
            m.status,
            None,
            "True"@,
            Some("Polling"@),
            Some("Active polling"@),
            now,
        ),
    }
}

/// How often a mirror is polled, in seconds, where its policy is to poll.
pub open spec fn polling_interval(m: ImageMirrorView) -> Option<u32> {
    match m.spec.policy.type_ {
        MirrorPolicyType::IfNotPresent => None,
        MirrorPolicyType::Poll => Some(
            match m.spec.policy.interval_seconds {
                Some(secs) => secs,
                None => DEFAULT_INTERVAL,
            },
        ),
    }
}

/// A mirror that was listed, added or modified at `now`, while `polled` are the mirrors with a
/// poller: its poller is replaced, or just cancelled, as its policy asks.
pub open spec fn mirror_accepted(
    polled: Set<MirrorKeyView>,
    m: ImageMirrorView,
    now: TimestampView,
) -> (Set<MirrorKeyView>, PollingStepView) {
    let key = key_of(m);
    (
        if polling_interval(m) is Some {
            polled.insert(key)
        } else {
            polled.remove(key)
        },
        PollingStepView::Accept {
            key,
            cancel: polled.contains(key),
            status: accepted_status(m, now),
            poll_every: polling_interval(m),
        },
    )
}

/// What follows an item of the mirror watch at `now`, while `polled` are the mirrors with a
/// poller; the first part is which have one afterwards.
pub open spec fn mirror_step(
    polled: Set<MirrorKeyView>,
    item: StreamItem<ImageMirrorView>,
    now: TimestampView,
) -> (Set<MirrorKeyView>, PollingStepView) {
    match item {
        StreamItem::Event(WatchEvent::Apply(m)) => mirror_accepted(polled, m, now),
        StreamItem::Event(WatchEvent::InitApply(m)) => mirror_accepted(polled, m, now),
        StreamItem::Event(WatchEvent::Delete(m)) => (
            polled.remove(key_of(m)),
            PollingStepView::Forget { key: key_of(m), cancel: polled.contains(key_of(m)) },
        ),
        StreamItem::Event(_) => (polled, PollingStepView::Skip),
        StreamItem::Failed => (polled, PollingStepView::Skip),
        StreamItem::Ended => (
            Set::empty(),
            PollingStepView::Stop { keys: in_order::<MirrorKey>(polled) },
        ),
    }
}

/// The mirrors that have a poller.
pub struct Pollers {
    active: SortedSet<MirrorKey>,
}

impl View for Pollers {
    type V = Set<MirrorKeyView>;

    closed spec fn view(&self) -> Set<MirrorKeyView> {
        self.active@.to_set()
    }
}

impl Pollers {
    /// No mirror has a poller.
    pub fn new() -> (r: Pollers)
        ensures
            r@ == Set::<MirrorKeyView>::empty(),
    {
        let r = Pollers { active: SortedSet::new() };
        assert(r@ =~= Set::<MirrorKeyView>::empty());
        r
    }

    fn accept(&mut self, m: &ImageMirror, now: Timestamp) -> (r: PollingStep)
        ensures
            (final(self)@, r@) == mirror_accepted(old(self)@, m@, now@),
    {
        let key = MirrorKey::of(m);
        let cancel = self.active.remove(&key);
        match m.spec.policy.type_ {
            MirrorPolicyType::IfNotPresent => {
                let status = m.reported_status_at(
                    None,
                    "True",
                    Some("Accepted"),
                    Some("Lazy fetch (IfNotPresent)"),
                    now,
                );
                PollingStep::Accept { key, cancel, status, poll_every: None }
            },
            MirrorPolicyType::Poll => {
                let status = m.reported_status_at(
                    None,
                    "True",
                    Some("Polling"),
                    Some("Active polling"),
                    now,
                );
                let secs: u32 = match m.spec.policy.interval_seconds {
                    Some(secs) => secs,
                    None => DEFAULT_INTERVAL,
                };
                self.active.insert(key.clone());
                assert(self@ =~= old(self)@.insert(key@));
                PollingStep::Accept { key, cancel, status, poll_every: Some(secs) }
            },
        }
    }

    /// Decides what follows `item` of the mirror watch at `now`.
    pub fn step_at(&mut self, item: &StreamItem<ImageMirror>, now: Timestamp) -> (r: PollingStep)
        ensures
            (final(self)@, r@) == mirror_step(old(self)@, item.deep_view(), now@),
    {
        match item {
            StreamItem::Event(event) => match event {
                WatchEvent::Apply(m) => self.accept(m, now),
                WatchEvent::InitApply(m) => self.accept(m, now),
                WatchEvent::Delete(m) => {
                    let key = MirrorKey::of(m);
                    let cancel = self.active.remove(&key);
                    PollingStep::Forget { key, cancel }
                },
                WatchEvent::Init => PollingStep::Skip,
                WatchEvent::InitDone => PollingStep::Skip,
            },
            StreamItem::Failed => PollingStep::Skip,
            StreamItem::Ended => PollingStep::Stop { keys: self.cancel_all() },
        }
    }

    /// Decides what follows `item` of the mirror watch at the current time.
    pub fn step(&mut self, item: &StreamItem<ImageMirror>) -> (r: PollingStep)
        ensures
            exists|now: TimestampView|
                representable(now.secs, now.nanos) && (final(self)@, r@) == #[trigger] mirror_step(
                    old(self)@,
                    item.deep_view(),
                    now,
                ),
    {
        let now = Timestamp::now();
        self.step_at(item, now)
    }

    /// Gives up all pollers; tells which there were.
    pub fn cancel_all(&mut self) -> (r: SortedSet<MirrorKey>)
        ensures
            final(self)@ == Set::<MirrorKeyView>::empty(),
            r@ == in_order::<MirrorKey>(old(self)@),
    {
        let all = self.active.duplicate();
        proof {
            increasing_is_in_order::<MirrorKey>(all@);
        }
        self.active = SortedSet::new();
        assert(self@ =~= Set::<MirrorKeyView>::empty());
        all
    }
}

/// What [`Fetched`] denotes.
pub ghost enum FetchedView {
    Current(ImageMirrorView),
    Gone,
    Failed,
}

/// The outcome of fetching a mirror.
#[derive(Debug)]
pub enum Fetched {
    /// The mirror as it is now.
    Current(ImageMirror),
    /// There is no such mirror any longer.
    Gone,
    /// The request failed.
    Failed,
}

impl View for Fetched {
    type V = FetchedView;

    open spec fn view(&self) -> FetchedView {
        match self {
            Fetched::Current(m) => FetchedView::Current(m@),
            Fetched::Gone => FetchedView::Gone,
            Fetched::Failed => FetchedView::Failed,
        }
    }
}

/// What a [`PollTick`] denotes.
pub ghost enum PollTickView {
    Report(ImageMirrorStatusView),
    Retry,
    Stop,
}

/// What a poller does when its interval has passed.
#[derive(Debug)]
pub enum PollTick {
    /// Report this status and go on.
    Report(ImageMirrorStatus),
    /// Go on.
    Retry,
    /// End.
    Stop,
}

impl View for PollTick {
    type V = PollTickView;

    open spec fn view(&self) -> PollTickView {
        match self {
            PollTick::Report(status) => PollTickView::Report(status@),
            PollTick::Retry => PollTickView::Retry,
            PollTick::Stop => PollTickView::Stop,
        }
    }
}

/// What a poller does that looked at its mirror at `sync` and reports at `now`: it goes on as
/// long as the mirror exists and its policy is to poll.
pub open spec fn ticked(
    fetched: FetchedView,
    sync: TimestampView,
    now: TimestampView,
) -> PollTickView {
    match fetched {
        FetchedView::Current(m) => match m.spec.policy.type_ {
            MirrorPolicyType::Poll => PollTickView::Report(
                reported_mirror_status(
                    m.status,
                    Some(sync),
                    "True"@,
                    Some("Polling"@),
                    Some("Poll tick"@),
                    now,
                ),
            ),
            MirrorPolicyType::IfNotPresent => PollTickView::Stop,
        },
        FetchedView::Gone => PollTickView::Stop,
        FetchedView::Failed => PollTickView::Retry,
    }
}

/// What a poller does that looked at its mirror at `sync` and reports at `now`.
pub fn poll_tick_at(fetched: &Fetched, sync: Timestamp, now: Timestamp) -> (r: PollTick)
    ensures
        r@ == ticked(fetched@, sync@, now@),
{
    match fetched {
        Fetched::Current(m) => match m.spec.policy.type_ {
            MirrorPolicyType::Poll => PollTick::Report(
                m.reported_status_at(
                    Some(sync),
                    "True",
                    Some("Polling"),
                    Some("Poll tick"),
                    now,
                ),
            ),
            MirrorPolicyType::IfNotPresent => PollTick::Stop,
        },
        Fetched::Gone => PollTick::Stop,
        Fetched::Failed => PollTick::Retry,
    }
}

/// What a poller does that has just looked at its mirror.
pub fn poll_tick(fetched: &Fetched) -> (r: PollTick)
    ensures
        exists|sync: TimestampView, now: TimestampView|
            representable(sync.secs, sync.nanos) && representable(now.secs, now.nanos) && r@
                == #[trigger] ticked(fetched@, sync, now),
{
    let sync = Timestamp::now();
    let now = Timestamp::now();
    poll_tick_at(fetched, sync, now)
}

/// The pollers that run once a step has been carried out, where `running` ran before.
pub open spec fn carried_out(
    running: Set<MirrorKeyView>,
    step: PollingStepView,
) -> Set<MirrorKeyView> {
    match step {
        PollingStepView::Skip => running,
        PollingStepView::Accept { key, cancel, poll_every, .. } => {
            let rest = if cancel {
                running.remove(key)
            } else {
                running
            };
            if poll_every is Some {
                rest.insert(key)
            } else {
                rest
            }
        },
        PollingStepView::Forget { key, cancel } => if cancel {
            running.remove(key)
        } else {
            running
        },
        PollingStepView::Stop { keys } => running.difference(keys.to_set()),
    }
}

/// Carrying out the steps keeps the pollers that run and those that are known the same.
pub proof fn known_pollers_are_those_that_run(
    polled: Set<MirrorKeyView>,
    item: StreamItem<ImageMirrorView>,
    now: TimestampView,
)
    requires
        polled.finite(),
    ensures
        carried_out(polled, mirror_step(polled, item, now).1) == mirror_step(polled, item, now).0,
        mirror_step(polled, item, now).0.finite(),
{
    finite_set_in_order::<MirrorKey>(polled);
    assert(carried_out(polled, mirror_step(polled, item, now).1) =~= mirror_step(
        polled,
        item,
        now,
    ).0);
}

/// A poller is never started while another one of the same mirror runs: that one is cancelled
/// first.
pub proof fn one_poller_per_mirror(
    polled: Set<MirrorKeyView>,
    item: StreamItem<ImageMirrorView>,
    now: TimestampView,
)
    ensures
        mirror_step(polled, item, now).1 matches PollingStepView::Accept {
            key,
            cancel,
            ..
        } ==> (polled.contains(key) ==> cancel),
{
}

/// A mirror has a poller exactly where it exists with the policy to poll: after it was applied,
/// as its policy asks; after it was deleted, not; and other mirrors keep theirs.
pub proof fn pollers_follow_the_policy(
    polled: Set<MirrorKeyView>,
    m: ImageMirrorView,
    now: TimestampView,
    other: MirrorKeyView,
)
    ensures
        ({
            let applied = mirror_step(polled, StreamItem::Event(WatchEvent::Apply(m)), now).0;
            let deleted = mirror_step(polled, StreamItem::Event(WatchEvent::Delete(m)), now).0;
            &&& applied.contains(key_of(m)) <==> m.spec.policy.type_ == MirrorPolicyType::Poll
            &&& !deleted.contains(key_of(m))
            &&& other != key_of(m) ==> {
                &&& applied.contains(other) == polled.contains(other)
                &&& deleted.contains(other) == polled.contains(other)
            }
        }),
{
}

/// The mirrors with a poller after these items of the mirror watch, each with its time.
pub open spec fn polled_after(items: Seq<(StreamItem<ImageMirrorView>, TimestampView)>) -> Set<
    MirrorKeyView,
>
    decreases items.len(),
{
    if items.len() == 0 {
        Set::empty()
    } else {
        mirror_step(polled_after(items.drop_last()), items.last().0, items.last().1).0
    }
}

/// How many pollers of `key` a step adds, less those that it cancels.
pub open spec fn pollers_added(step: PollingStepView, key: MirrorKeyView) -> int {
    let one = |b: bool|
        if b {
            1int
        } else {
            0int
        };
    match step {
        PollingStepView::Skip => 0,
        PollingStepView::Accept { key: k, cancel, poll_every, .. } => if k == key {
            one(poll_every is Some) - one(cancel)
        } else {
            0
        },
        PollingStepView::Forget { key: k, cancel } => -one(k == key && cancel),
        PollingStepView::Stop { keys } => -one(keys.contains(key)),
    }
}

/// How many pollers of `key` were started and not cancelled in the course of these items.
pub open spec fn pollers_running(
    items: Seq<(StreamItem<ImageMirrorView>, TimestampView)>,
    key: MirrorKeyView,
) -> int
    decreases items.len(),
{
    if items.len() == 0 {
        0
    } else {
        let before = items.drop_last();
        pollers_running(before, key) + pollers_added(
            mirror_step(polled_after(before), items.last().0, items.last().1).1,
            key,
        )
    }
}

/// Whether the last that these items said of the mirror `key` is that it exists with the policy to
/// poll, and the watch has not ended since.
pub open spec fn last_said_to_poll(
    items: Seq<(StreamItem<ImageMirrorView>, TimestampView)>,
    key: MirrorKeyView,
) -> bool
    decreases items.len(),
{
    if items.len() == 0 {
        false
    } else {
        let before = last_said_to_poll(items.drop_last(), key);
        match items.last().0 {
            StreamItem::Event(WatchEvent::Apply(m)) => if key_of(m) == key {
                m.spec.policy.type_ == MirrorPolicyType::Poll
            } else {
                before
            },
            StreamItem::Event(WatchEvent::InitApply(m)) => if key_of(m) == key {
                m.spec.policy.type_ == MirrorPolicyType::Poll
            } else {
                before
            },
            StreamItem::Event(WatchEvent::Delete(m)) => key_of(m) != key && before,
            StreamItem::Event(_) => before,
            StreamItem::Failed => before,
            StreamItem::Ended => false,
        }
    }
}

/// After any course of the mirror watch, a mirror has one poller where the last word on it is that
/// it exists with the policy to poll, and otherwise none; it never has two.
pub proof fn pollers_follow_the_whole_watch(
    items: Seq<(StreamItem<ImageMirrorView>, TimestampView)>,
    key: MirrorKeyView,
)
    ensures
        pollers_running(items, key) == if last_said_to_poll(items, key) {
            1int
        } else {
            0int
        },
        polled_after(items).contains(key) <==> last_said_to_poll(items, key),
        polled_after(items).finite(),
    decreases items.len(),
{
    if items.len() > 0 {
        let before = items.drop_last();
        pollers_follow_the_whole_watch(before, key);
        let polled = polled_after(before);
        known_pollers_are_those_that_run(polled, items.last().0, items.last().1);
        finite_set_in_order::<MirrorKey>(polled);
        lemma_to_set_contains(in_order::<MirrorKey>(polled), key);
    }
}

/// A mirror that is listed, added or modified with the policy to poll gets a poller with exactly
/// the interval that it asks for, however long or short, and one of 300 seconds where it asks for
/// none; with the other policy it gets none. Either way a poller that it had is cancelled, and
/// only such a one.
pub proof fn a_mirror_is_polled_as_it_asks(
    polled: Set<MirrorKeyView>,
    m: ImageMirrorView,
    now: TimestampView,
    listed: bool,
)
    ensures
        ({
            let event = if listed {
                WatchEvent::InitApply(m)
            } else {
                WatchEvent::Apply(m)
            };
            let own = MirrorKeyView {
                ns: match m.namespace {
                    Some(ns) => ns,
                    None => Seq::empty(),
                },
                name: m.name,
            };
            let (after, step) = mirror_step(polled, StreamItem::Event(event), now);
            step matches PollingStepView::Accept { key, cancel, status: _, poll_every } && {
                &&& key == own
                &&& cancel == polled.contains(own)
                &&& m.spec.policy.type_ == MirrorPolicyType::IfNotPresent ==> poll_every is None
                &&& m.spec.policy.type_ == MirrorPolicyType::Poll ==> {
                    &&& m.spec.policy.interval_seconds is Some ==> poll_every
                        == m.spec.policy.interval_seconds
                    &&& m.spec.policy.interval_seconds is None ==> poll_every == Some(300u32)
                }
                &&& after == if poll_every is Some {
                    polled.insert(own)
                } else {
                    polled.remove(own)
                }
            }
        }),
{
}

/// A mirror that is listed, added or modified is reported ready, as one that is polled or one that
/// is fetched lazily; the time of its last look stays.
pub proof fn an_accepted_mirror_is_reported_ready(
    polled: Set<MirrorKeyView>,
    m: ImageMirrorView,
    now: TimestampView,
    listed: bool,
)
    ensures
        ({
            let event = if listed {
                WatchEvent::InitApply(m)
            } else {
                WatchEvent::Apply(m)
            };
            let polls = m.spec.policy.type_ == MirrorPolicyType::Poll;
            mirror_step(polled, StreamItem::Event(event), now).1 matches PollingStepView::Accept {
                status,
                ..
            } && {
                &&& status.last_sync_time == match m.status {
                    Some(s) => s.last_sync_time,
                    None => None,
                }
                &&& condition_of(status.conditions, "Ready"@) matches Some(c) && {
                    &&& c.status == "True"@
                    &&& polls ==> c.reason == Some("Polling"@) && c.message == Some(
                        "Active polling"@,
                    )
                    &&& !polls ==> c.reason == Some("Accepted"@) && c.message == Some(
                        "Lazy fetch (IfNotPresent)"@,
                    )
                }
            }
        }),
{
    let cs = match m.status {
        Some(s) => s.conditions,
        None => Seq::empty(),
    };
    upserted_is_found(
        cs,
        "Ready"@,
        "True"@,
        Some("Polling"@),
        Some("Active polling"@),
        now,
    );
    upserted_is_found(
        cs,
        "Ready"@,
        "True"@,
        Some("Accepted"@),
        Some("Lazy fetch (IfNotPresent)"@),
        now,
    );
}

/// A deleted mirror loses its poller where it has one, and the end of the watch ends every poller
/// and only those that there are. Nothing else ends or starts any.
pub proof fn pollers_end_with_their_mirrors(
    polled: Set<MirrorKeyView>,
    m: ImageMirrorView,
    now: TimestampView,
)
    requires
        polled.finite(),
    ensures
        ({
            let own = MirrorKeyView {
                ns: match m.namespace {
                    Some(ns) => ns,
                    None => Seq::empty(),
                },
                name: m.name,
            };
            mirror_step(polled, StreamItem::Event(WatchEvent::Delete(m)), now) == (
                polled.remove(own),
                PollingStepView::Forget { key: own, cancel: polled.contains(own) },
            )
        }),
        mirror_step(polled, StreamItem::Ended, now).0 == Set::<MirrorKeyView>::empty(),
        mirror_step(polled, StreamItem::Ended, now).1 matches PollingStepView::Stop { keys }
            && keys.to_set() == polled,
        mirror_step(polled, StreamItem::Event(WatchEvent::Init), now) == (
            polled,
            PollingStepView::Skip,
        ),
        mirror_step(polled, StreamItem::Event(WatchEvent::InitDone), now) == (
            polled,
            PollingStepView::Skip,
        ),
        mirror_step(polled, StreamItem::Failed, now) == (polled, PollingStepView::Skip),
{
    finite_set_in_order::<MirrorKey>(polled);
}

/// A poller goes on as long as its mirror exists with the policy to poll, or cannot be fetched.
/// While it exists so, each tick records the time of the look and reports the mirror ready.
pub proof fn a_tick_records_the_look(
    m: ImageMirrorView,
    sync: TimestampView,
    now: TimestampView,
)
    ensures
        m.spec.policy.type_ == MirrorPolicyType::Poll ==> (ticked(
            FetchedView::Current(m),
            sync,
            now,
        ) matches PollTickView::Report(status) && {
            &&& status.last_sync_time == Some(sync)
            &&& condition_of(status.conditions, "Ready"@) matches Some(c) && c.status == "True"@
                && c.reason == Some("Polling"@) && c.message == Some("Poll tick"@)
        }),
        m.spec.policy.type_ != MirrorPolicyType::Poll ==> ticked(FetchedView::Current(m), sync, now)
            == PollTickView::Stop,
        ticked(FetchedView::Gone, sync, now) == PollTickView::Stop,
        ticked(FetchedView::Failed, sync, now) == PollTickView::Retry,
{
    let cs = match m.status {
        Some(s) => s.conditions,
        None => Seq::empty(),
    };
    upserted_is_found(cs, "Ready"@, "True"@, Some("Polling"@), Some("Poll tick"@), now);
}

/// What is reported of a mirror, when it is accepted or polled, leaves its other conditions alone
/// and dates its readiness by `now` exactly where it was not ready before.
pub proof fn reports_on_a_mirror_touch_its_readiness_only(
    m: ImageMirrorView,
    sync: TimestampView,
    now: TimestampView,
    other: Seq<char>,
)
    requires
        other != "Ready"@,
    ensures
        ({
            let cs = match m.status {
                Some(s) => s.conditions,
                None => Seq::empty(),
            };
            let dated = match condition_of(cs, "Ready"@) {
                Some(c) => if c.status == "True"@ {
                    c.last_transition_time
                } else {
                    Some(now)
                },
                None => Some(now),
            };
            let accepted = accepted_status(m, now).conditions;
            &&& condition_of(accepted, other) == condition_of(cs, other)
            &&& condition_of(accepted, "Ready"@)->0.last_transition_time == dated
            &&& ticked(FetchedView::Current(m), sync, now) matches PollTickView::Report(status) ==> {
                &&& condition_of(status.conditions, other) == condition_of(cs, other)
                &&& condition_of(status.conditions, "Ready"@)->0.last_transition_time == dated
            }
        }),
{
    let cs = match m.status {
        Some(s) => s.conditions,
        None => Seq::empty(),
    };
    let t = "True"@;
    let r = "Ready"@;
    upserted_is_found(cs, r, t, Some("Polling"@), Some("Active polling"@), now);
    upserted_is_found(cs, r, t, Some("Accepted"@), Some("Lazy fetch (IfNotPresent)"@), now);
    upserted_is_found(cs, r, t, Some("Polling"@), Some("Poll tick"@), now);
    upserted_keeps_others(cs, r, t, Some("Polling"@), Some("Active polling"@), now, other);
    upserted_keeps_others(
        cs,
        r,
        t,
        Some("Accepted"@),
        Some("Lazy fetch (IfNotPresent)"@),
        now,
        other,
    );
    upserted_keeps_others(cs, r, t, Some("Polling"@), Some("Poll tick"@), now, other);
}

/// Keys of mirrors are ordered by the namespace, and where that is the same, by the name.
pub proof fn mirror_keys_are_ordered_by_their_fields(a: MirrorKeyView, b: MirrorKeyView)
    ensures
        text_before(a.ns, b.ns) ==> MirrorKey::before(a, b) && !MirrorKey::before(b, a),
        a.ns == b.ns && text_before(a.name, b.name) ==> MirrorKey::before(a, b)
            && !MirrorKey::before(b, a),
{
    if MirrorKey::before(a, b) && MirrorKey::before(b, a) {
        MirrorKey::before_transitive(a, b, a);
    }
    MirrorKey::before_irreflexive(a);
}

} // verus!
