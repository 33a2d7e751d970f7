//! The Image resource: one concrete image reference observed in workload specs.

use vstd::prelude::*;

use crate::sorted::{lemma_push_contains, Comparison, Key, SortedSet};
use crate::text::{compare_text, same_text, text_before};
use crate::time::{representable, same_time, Timestamp, TimestampView};

verus! {

/// The desired state of an Image.
#[derive(Clone, Debug)]
pub struct ImageSpec {
    /// Full image reference (e.g., registry/repo@sha256:... or registry/repo:tag).
    pub image: String,
}

/// What an [`ObjectKey`] denotes.
pub ghost struct ObjectKeyView {
    pub api_version: Seq<char>,
    pub kind: Seq<char>,
    pub namespace: Seq<char>,
    pub name: Seq<char>,
}

/// An object of the cluster.
#[derive(Debug, PartialEq, Eq, PartialOrd, Ord, Hash)]
pub struct ObjectKey {
    pub api_version: String,
    pub kind: String,
    pub namespace: String,
    pub name: String,
}

impl View for ObjectKey {
    type V = ObjectKeyView;

    open spec fn view(&self) -> ObjectKeyView {
        ObjectKeyView {
            api_version: self.api_version@,
            kind: self.kind@,
            namespace: self.namespace@,
            name: self.name@,
        }
    }
}

impl DeepView for ObjectKey {
    type V = ObjectKeyView;

    open spec fn deep_view(&self) -> ObjectKeyView {
        self@
    }
}

impl Clone for ObjectKey {
    fn clone(&self) -> (r: Self)
        ensures
            r@ == self@,
    {
        ObjectKey {
            api_version: self.api_version.clone(),
            kind: self.kind.clone(),
            namespace: self.namespace.clone(),
            name: self.name.clone(),
        }
    }
}

impl Default for ObjectKey {
    fn default() -> (r: Self)
        ensures
            r@ == (ObjectKeyView {
                api_version: Seq::empty(),
                kind: Seq::empty(),
                namespace: Seq::empty(),
                name: Seq::empty(),
            }),
    {
        ObjectKey {
            api_version: String::new(),
            kind: String::new(),
            namespace: String::new(),
            name: String::new(),
        }
    }
}

/// Keys are ordered by API version, then by kind, namespace and name.
pub open spec fn object_key_before(a: ObjectKeyView, b: ObjectKeyView) -> bool {
    ||| text_before(a.api_version, b.api_version)
    ||| a.api_version == b.api_version && {
        ||| text_before(a.kind, b.kind)
        ||| a.kind == b.kind && {
            ||| text_before(a.namespace, b.namespace)
            ||| a.namespace == b.namespace && text_before(a.name, b.name)
        }
    }
}

impl Key for ObjectKey {
    open spec fn before(a: ObjectKeyView, b: ObjectKeyView) -> bool {
        object_key_before(a, b)
    }

    proof fn before_irreflexive(a: ObjectKeyView) {
        String::before_irreflexive(a.api_version);
        String::before_irreflexive(a.kind);
        String::before_irreflexive(a.namespace);
        String::before_irreflexive(a.name);
    }

    proof fn before_transitive(a: ObjectKeyView, b: ObjectKeyView, c: ObjectKeyView) {
        if text_before(a.api_version, b.api_version) && text_before(b.api_version, c.api_version) {
            String::before_transitive(a.api_version, b.api_version, c.api_version);
        }
        if text_before(a.kind, b.kind) && text_before(b.kind, c.kind) {
            String::before_transitive(a.kind, b.kind, c.kind);
        }
        if text_before(a.namespace, b.namespace) && text_before(b.namespace, c.namespace) {
            String::before_transitive(a.namespace, b.namespace, c.namespace);
        }
        if text_before(a.name, b.name) && text_before(b.name, c.name) {
            String::before_transitive(a.name, b.name, c.name);
        }
    }

    proof fn before_total(a: ObjectKeyView, b: ObjectKeyView) {
        String::before_total(a.api_version, b.api_version);
        String::before_total(a.kind, b.kind);
        String::before_total(a.namespace, b.namespace);
        String::before_total(a.name, b.name);
    }

    fn compare(&self, other: &Self) -> (r: Comparison) {
        match compare_text(self.api_version.as_str(), other.api_version.as_str()) {
            Comparison::Equal => {},
            different => return different,
        }
        match compare_text(self.kind.as_str(), other.kind.as_str()) {
            Comparison::Equal => {},
            different => return different,
        }
        match compare_text(self.namespace.as_str(), other.namespace.as_str()) {
            Comparison::Equal => {},
            different => return different,
        }
        compare_text(self.name.as_str(), other.name.as_str())
    }

    fn duplicate(&self) -> (r: Self) {
        self.clone()
    }
}

/// What a [`Condition`] denotes.
pub ghost struct ConditionView {
    pub type_: Seq<char>,
    pub status: Seq<char>,
    pub reason: Option<Seq<char>>,
    pub message: Option<Seq<char>>,
    pub last_transition_time: Option<TimestampView>,
}

/// A condition in the style of Kubernetes (e.g., Ready, ImagePullBackOff).
#[derive(Debug, PartialEq, Eq)]
pub struct Condition {
    pub type_: String,
    /// "True", "False" or "Unknown".
    pub status: String,
    pub reason: Option<String>,
    pub message: Option<String>,
    pub last_transition_time: Option<Timestamp>,
}

impl View for Condition {
    type V = ConditionView;

    open spec fn view(&self) -> ConditionView {
        ConditionView {
            type_: self.type_@,
            status: self.status@,
            reason: self.reason.deep_view(),
            message: self.message.deep_view(),
            last_transition_time: self.last_transition_time.deep_view(),
        }
    }
}

impl DeepView for Condition {
    type V = ConditionView;

    open spec fn deep_view(&self) -> ConditionView {
        self@
    }
}

/// Copies an optional piece of text.
pub(crate) fn clone_text(t: &Option<String>) -> (r: Option<String>)
    ensures
        r.deep_view() == t.deep_view(),
{
    match t {
        Some(s) => Some(s.clone()),
        None => None,
    }
}

fn owned_text(t: Option<&str>) -> (r: Option<String>)
    ensures
        r.deep_view() == t.deep_view(),
{
    match t {
        Some(s) => Some(s.to_owned()),
        None => None,
    }
}

impl Clone for Condition {
    fn clone(&self) -> (r: Self)
        ensures
            r@ == self@,
    {
        Condition {
            type_: self.type_.clone(),
            status: self.status.clone(),
            reason: clone_text(&self.reason),
            message: clone_text(&self.message),
            last_transition_time: self.last_transition_time,
        }
    }
}

impl Default for Condition {
    fn default() -> (r: Self)
        ensures
            r@ == (ConditionView {
                type_: Seq::empty(),
                status: Seq::empty(),
                reason: None,
                message: None,
                last_transition_time: None,
            }),
    {
        Condition {
            type_: String::new(),
            status: String::new(),
            reason: None,
            message: None,
            last_transition_time: None,
        }
    }
}

/// The position of the first condition of type `type_`.
pub open spec fn condition_index(cs: Seq<ConditionView>, type_: Seq<char>) -> Option<int> {
    cs.map_values(|c: ConditionView| c.type_).index_of_first(type_)
}

/// The conditions after a condition was reported at `now`: the first one of that type takes the
/// new status, reason and message, and the time of the transition if the status changed; without
/// one of that type a new condition joins at the end.
pub open spec fn upserted(
    cs: Seq<ConditionView>,
    type_: Seq<char>,
    status: Seq<char>,
    reason: Option<Seq<char>>,
    message: Option<Seq<char>>,
    now: TimestampView,
) -> Seq<ConditionView> {
    match condition_index(cs, type_) {
        Some(i) => cs.update(
            i,
            ConditionView {
                type_,
                status,
                reason,
                message,
                last_transition_time: if cs[i].status != status {
                    Some(now)
                } else {
                    cs[i].last_transition_time
                },
            },
        ),
        None => cs.push(
            ConditionView { type_, status, reason, message, last_transition_time: Some(now) },
        ),
    }
}

/// The position of the first condition of type `type_`.
fn find_condition(conditions: &Vec<Condition>, type_: &str) -> (r: Option<usize>)
    ensures
        match r {
            Some(i) => i < conditions@.len() && condition_index(
                conditions.deep_view(),
                type_@,
            ) == Some(i as int),
            None => condition_index(conditions.deep_view(), type_@) is None,
        },
{
    let ghost types = conditions.deep_view().map_values(|c: ConditionView| c.type_);
    proof {
        types.index_of_first_ensures(type_@);
    }
    let mut i: usize = 0;
    while i < conditions.len()
        invariant
            i <= conditions.len(),
            types == conditions.deep_view().map_values(|c: ConditionView| c.type_),
            forall|j: int| 0 <= j < i ==> types[j] != type_@,
        decreases conditions.len() - i,
    {
        assert(types[i as int] == conditions@[i as int].type_@);
        if same_text(conditions[i].type_.as_str(), type_) {
            proof {
                types.index_of_first_ensures(type_@);
                assert(types.contains(types[i as int]));
            }
            return Some(i);
        }
        i += 1;
    }
    None
}

/// Reports a condition as of `now`.
pub fn upsert_condition_at(
    conditions: &mut Vec<Condition>,
    type_: &str,
    status: &str,
    reason: Option<&str>,
    message: Option<&str>,
    now: Timestamp,
)
    ensures
        final(conditions).deep_view() == upserted(
            old(conditions).deep_view(),
            type_@,
            status@,
            reason.deep_view(),
            message.deep_view(),
            now@,
        ),
{
    let ghost before = conditions.deep_view();
    match find_condition(conditions, type_) {
        Some(i) => {
            proof {
                before.map_values(|c: ConditionView| c.type_).index_of_first_ensures(type_@);
            }
            let mut c: Condition = conditions[i].clone();
            if !same_text(c.status.as_str(), status) {
                c.status = status.to_owned();
                c.last_transition_time = Some(now);
            }
            c.reason = owned_text(reason);
            c.message = owned_text(message);
            let ghost new = c@;
            conditions.set(i, c);
            assert(conditions.deep_view() =~= before.update(i as int, new));
        },
        None => {
            let c = Condition {
                type_: type_.to_owned(),
                status: status.to_owned(),
                reason: owned_text(reason),
                message: owned_text(message),
                last_transition_time: Some(now),
            };
            let ghost new = c@;
            conditions.push(c);
            assert(conditions.deep_view() =~= before.push(new));
        },
    }
}

/// Reports a condition as of the current time.
pub fn upsert_condition(
    conditions: &mut Vec<Condition>,
    type_: &str,
    status: &str,
    reason: Option<&str>,
    message: Option<&str>,
)
    ensures
        exists|now: TimestampView|
            representable(now.secs, now.nanos) && final(conditions).deep_view()
                == #[trigger] upserted(
                old(conditions).deep_view(),
                type_@,
                status@,
                reason.deep_view(),
                message.deep_view(),
                now,
            ),
{
    let now = Timestamp::now();
    upsert_condition_at(conditions, type_, status, reason, message, now);
}

/// Reports the condition `Ready` as of the current time.
pub fn upsert_ready_condition(
    conditions: &mut Vec<Condition>,
    status: &str,
    reason: Option<&str>,
    message: Option<&str>,
)
    ensures
        exists|now: TimestampView|
            representable(now.secs, now.nanos) && final(conditions).deep_view()
                == #[trigger] upserted(
                old(conditions).deep_view(),
                "Ready"@,
                status@,
                reason.deep_view(),
                message.deep_view(),
                now,
            ),
{
    upsert_condition(conditions, "Ready", status, reason, message);
}

/// Reports the condition `ImagePullBackOff` as of the current time.
pub fn upsert_image_pull_backoff_condition(
    conditions: &mut Vec<Condition>,
    status: &str,
    reason: Option<&str>,
    message: Option<&str>,
)
    ensures
        exists|now: TimestampView|
            representable(now.secs, now.nanos) && final(conditions).deep_view()
                == #[trigger] upserted(
                old(conditions).deep_view(),
                "ImagePullBackOff"@,
                status@,
                reason.deep_view(),
                message.deep_view(),
                now,
            ),
{
    upsert_condition(conditions, "ImagePullBackOff", status, reason, message);
}

/// What an [`ImageStatus`] denotes.
pub ghost struct ImageStatusView {
    pub references: Seq<ObjectKeyView>,
    pub retain_until: Option<TimestampView>,
    pub last_pulled_at: Option<TimestampView>,
    pub conditions: Seq<ConditionView>,
    pub phase: Option<Seq<char>>,
    pub mirrored: Option<bool>,
    pub last_mirror_time: Option<TimestampView>,
    pub last_unreferenced: Option<TimestampView>,
}

/// The observed state of an Image.
#[derive(Debug, PartialEq)]
pub struct ImageStatus {
    /// The current set of object references that use this image.
    pub references: SortedSet<ObjectKey>,
    /// When the image should be retained until.
    pub retain_until: Option<Timestamp>,
    /// Last time the image was pulled into the managed registry.
    pub last_pulled_at: Option<Timestamp>,
    /// Standard Kubernetes-style conditions (e.g., Ready, ImagePullBackOff).
    pub conditions: Vec<Condition>,
    /// High-level phase summarizing the state (e.g., Ready, ImagePullBackOff, Retaining,
    /// Unreferenced, Deleting).
    pub phase: Option<String>,
    /// Whether the image has been copied into the managed registry.
    pub mirrored: Option<bool>,
    /// Last time the image was copied into the managed registry.
    pub last_mirror_time: Option<Timestamp>,
    /// When the image lost its last reference, where it has none.
    pub last_unreferenced: Option<Timestamp>,
}

impl View for ImageStatus {
    type V = ImageStatusView;

    open spec fn view(&self) -> ImageStatusView {
        ImageStatusView {
            references: self.references@,
            retain_until: self.retain_until.deep_view(),
            last_pulled_at: self.last_pulled_at.deep_view(),
            conditions: self.conditions.deep_view(),
            phase: self.phase.deep_view(),
            mirrored: self.mirrored,
            last_mirror_time: self.last_mirror_time.deep_view(),
            last_unreferenced: self.last_unreferenced.deep_view(),
        }
    }
}

impl DeepView for ImageStatus {
    type V = ImageStatusView;

    open spec fn deep_view(&self) -> ImageStatusView {
        self@
    }
}

/// Copies a list of conditions.
pub(crate) fn clone_conditions(conditions: &Vec<Condition>) -> (r: Vec<Condition>)
    ensures
        r.deep_view() == conditions.deep_view(),
{
    let mut r: Vec<Condition> = Vec::new();
    let mut i: usize = 0;
    while i < conditions.len()
        invariant
            i <= conditions.len(),
            r.deep_view() == conditions.deep_view().take(i as int),
        decreases conditions.len() - i,
    {
        let ghost done = r.deep_view();
        r.push(conditions[i].clone());
        assert(r.deep_view() =~= done.push(conditions.deep_view()[i as int]));
        i += 1;
    }
    assert(r.deep_view() =~= conditions.deep_view());
    r
}

impl Clone for ImageStatus {
    fn clone(&self) -> (r: Self)
        ensures
            r@ == self@,
    {
        ImageStatus {
            references: self.references.duplicate(),
            retain_until: self.retain_until,
            last_pulled_at: self.last_pulled_at,
            conditions: clone_conditions(&self.conditions),
            phase: clone_text(&self.phase),
            mirrored: self.mirrored,
            last_mirror_time: self.last_mirror_time,
            last_unreferenced: self.last_unreferenced,
        }
    }
}

/// The status of an image of which nothing is known.
pub open spec fn empty_status() -> ImageStatusView {
    ImageStatusView {
        references: Seq::empty(),
        retain_until: None,
        last_pulled_at: None,
        conditions: Seq::empty(),
        phase: None,
        mirrored: None,
        last_mirror_time: None,
        last_unreferenced: None,
    }
}

impl Default for ImageStatus {
    fn default() -> (r: Self)
        ensures
            r@ == empty_status(),
    {
        let r = ImageStatus {
            references: SortedSet::new(),
            retain_until: None,
            last_pulled_at: None,
            conditions: Vec::new(),
            phase: None,
            mirrored: None,
            last_mirror_time: None,
            last_unreferenced: None,
        };
        assert(r.conditions.deep_view() =~= Seq::<ConditionView>::empty());
        r
    }
}

fn same_optional_text(a: &Option<String>, b: &Option<String>) -> (r: bool)
    ensures
        r == (a.deep_view() == b.deep_view()),
{
    match (a, b) {
        (Some(x), Some(y)) => same_text(x.as_str(), y.as_str()),
        (None, None) => true,
        _ => false,
    }
}

impl Condition {
    /// Whether two conditions are equal.
    pub fn same(&self, other: &Condition) -> (r: bool)
        ensures
            r == (self@ == other@),
    {
        same_text(self.type_.as_str(), other.type_.as_str()) && same_text(
            self.status.as_str(),
            other.status.as_str(),
        ) && same_optional_text(&self.reason, &other.reason) && same_optional_text(
            &self.message,
            &other.message,
        ) && same_time(&self.last_transition_time, &other.last_transition_time)
    }
}

fn same_conditions(a: &Vec<Condition>, b: &Vec<Condition>) -> (r: bool)
    ensures
        r == (a.deep_view() == b.deep_view()),
{
    if a.len() != b.len() {
        assert(a.deep_view().len() != b.deep_view().len());
        return false;
    }
    let mut i: usize = 0;
    while i < a.len()
        invariant
            i <= a.len() == b.len(),
            forall|j: int| 0 <= j < i ==> a.deep_view()[j] == b.deep_view()[j],
        decreases a.len() - i,
    {
        if !a[i].same(&b[i]) {
            assert(a.deep_view()[i as int] != b.deep_view()[i as int]);
            return false;
        }
        i += 1;
    }
    assert(a.deep_view() =~= b.deep_view());
    true
}

/// The first condition of type `type_`.
pub open spec fn condition_of(cs: Seq<ConditionView>, type_: Seq<char>) -> Option<ConditionView> {
    match condition_index(cs, type_) {
        Some(i) => Some(cs[i]),
        None => None,
    }
}

/// The phase that summarizes a status.
pub open spec fn phase_of(
    status: ImageStatusView,
    has_refs: bool,
    is_deleting: bool,
) -> Seq<char> {
    if is_deleting {
        "Deleting"@
    } else if has_refs {
        match condition_of(status.conditions, "Ready"@) {
            Some(ready) => if ready.status == "True"@ {
                "Ready"@
            } else if ready.status == "False"@ {
                if condition_of(status.conditions, "ImagePullBackOff"@) matches Some(backoff)
                    && backoff.status == "True"@ {
                    "ImagePullBackOff"@
                } else {
                    match ready.reason {
                        Some(reason) => reason,
                        None => "Error"@,
                    }
                }
            } else {
                "Reconciling"@
            },
            None => "Reconciling"@,
        }
    } else if status.retain_until is Some {
        "Retaining"@
    } else {
        "Unreferenced"@
    }
}

impl ImageStatus {
    /// The phase that summarizes this status, given whether the image is referenced and whether
    /// it is being deleted.
    pub fn compute_phase(&self, has_refs: bool, is_deleting: bool) -> (r: String)
        ensures
            r@ == phase_of(self@, has_refs, is_deleting),
    {
        if is_deleting {
            return "Deleting".to_owned();
        }
        if has_refs {
            let ready = find_condition(&self.conditions, "Ready");
            let backoff = find_condition(&self.conditions, "ImagePullBackOff");
            if let Some(i) = ready {
                let r = &self.conditions[i];
                if same_text(r.status.as_str(), "True") {
                    return "Ready".to_owned();
                }
                if same_text(r.status.as_str(), "False") {
                    if let Some(j) = backoff {
                        if same_text(self.conditions[j].status.as_str(), "True") {
                            return "ImagePullBackOff".to_owned();
                        }
                    }
                    return match &r.reason {
                        Some(reason) => reason.clone(),
                        None => "Error".to_owned(),
                    };
                }
                return "Reconciling".to_owned();
            }
            "Reconciling".to_owned()
        } else if self.retain_until.is_some() {
            "Retaining".to_owned()
        } else {
            "Unreferenced".to_owned()
        }
    }

    /// Whether two statuses are equal.
    pub fn same(&self, other: &ImageStatus) -> (r: bool)
        ensures
            r == (self@ == other@),
    {
        self.references.same(&other.references) && same_time(
            &self.retain_until,
            &other.retain_until,
        ) && same_time(&self.last_pulled_at, &other.last_pulled_at) && same_conditions(
            &self.conditions,
            &other.conditions,
        ) && same_optional_text(&self.phase, &other.phase) && self.mirrored == other.mirrored
            && same_time(&self.last_mirror_time, &other.last_mirror_time) && same_time(
            &self.last_unreferenced,
            &other.last_unreferenced,
        )
    }
}

/// What an [`Image`] denotes.
pub ghost struct ImageView {
    pub name: Seq<char>,
    pub namespace: Option<Seq<char>>,
    pub finalizers: Option<Seq<Seq<char>>>,
    pub deleting: bool,
    pub image: Seq<char>,
    pub status: Option<ImageStatusView>,
}

/// An Image object of the cluster.
#[derive(Debug)]
pub struct Image {
    pub name: String,
    pub namespace: Option<String>,
    pub finalizers: Option<Vec<String>>,
    /// Whether the deletion of the object has been requested.
    pub deleting: bool,
    pub spec: ImageSpec,
    pub status: Option<ImageStatus>,
}

impl View for Image {
    type V = ImageView;

    open spec fn view(&self) -> ImageView {
        ImageView {
            name: self.name@,
            namespace: self.namespace.deep_view(),
            finalizers: self.finalizers.deep_view(),
            deleting: self.deleting,
            image: self.spec.image@,
            status: self.status.deep_view(),
        }
    }
}

impl DeepView for Image {
    type V = ImageView;

    open spec fn deep_view(&self) -> ImageView {
        self@
    }
}

/// Copies a list of texts.
pub(crate) fn clone_texts(texts: &Vec<String>) -> (r: Vec<String>)
    ensures
        r.deep_view() == texts.deep_view(),
{
    let mut r: Vec<String> = Vec::new();
    let mut i: usize = 0;
    while i < texts.len()
        invariant
            i <= texts.len(),
            r.deep_view() == texts.deep_view().take(i as int),
        decreases texts.len() - i,
    {
        let ghost done = r.deep_view();
        r.push(texts[i].clone());
        assert(r.deep_view() =~= done.push(texts.deep_view()[i as int]));
        i += 1;
    }
    assert(r.deep_view() =~= texts.deep_view());
    r
}

impl Clone for Image {
    fn clone(&self) -> (r: Self)
        ensures
            r@ == self@,
    {
        Image {
            name: self.name.clone(),
            namespace: clone_text(&self.namespace),
            finalizers: match &self.finalizers {
                Some(f) => Some(clone_texts(f)),
                None => None,
            },
            deleting: self.deleting,
            spec: ImageSpec { image: self.spec.image.clone() },
            status: match &self.status {
                Some(s) => Some(s.clone()),
                None => None,
            },
        }
    }
}

/// The finalizer with which the controller holds on to an Image.
pub const FINALIZER: &'static str = "qebbeq.tuco86.dev/finalizer";

/// The finalizers of an object.
pub open spec fn finalizer_list(finalizers: Option<Seq<Seq<char>>>) -> Seq<Seq<char>> {
    match finalizers {
        Some(f) => f,
        None => Seq::empty(),
    }
}

/// Whether the controller holds on to an object with these finalizers.
pub open spec fn has_finalizer(finalizers: Option<Seq<Seq<char>>>) -> bool {
    finalizer_list(finalizers).contains(FINALIZER@)
}

/// The finalizers of an object once the controller holds on to it.
pub open spec fn with_finalizer(finalizers: Option<Seq<Seq<char>>>) -> Seq<Seq<char>> {
    finalizer_list(finalizers).push(FINALIZER@)
}

/// The finalizers of an object once the controller has let go of it.
pub open spec fn without_finalizer(finalizers: Option<Seq<Seq<char>>>) -> Seq<Seq<char>> {
    finalizer_list(finalizers).filter(|f: Seq<char>| f != FINALIZER@)
}

impl Image {
    /// Whether the controller holds on to this image.
    pub fn is_held(&self) -> (r: bool)
        ensures
            r == has_finalizer(self@.finalizers),
    {
        match &self.finalizers {
            None => false,
            Some(f) => {
                let mut i: usize = 0;
                while i < f.len()
                    invariant
                        i <= f.len(),
                        self@.finalizers == Some(f.deep_view()),
                        forall|j: int| 0 <= j < i ==> f.deep_view()[j] != FINALIZER@,
                    decreases f.len() - i,
                {
                    if same_text(f[i].as_str(), FINALIZER) {
                        assert(f.deep_view()[i as int] == FINALIZER@);
                        return true;
                    }
                    i += 1;
                }
                false
            },
        }
    }

    /// The finalizers of this image with that of the controller added.
    pub fn finalizers_with(&self) -> (r: Vec<String>)
        ensures
            r.deep_view() == with_finalizer(self@.finalizers),
    {
        let mut r: Vec<String> = match &self.finalizers {
            Some(f) => clone_texts(f),
            None => Vec::new(),
        };
        let ghost before = r.deep_view();
        assert(before =~= finalizer_list(self@.finalizers));
        r.push(FINALIZER.to_owned());
        assert(r.deep_view() =~= before.push(FINALIZER@));
        r
    }

    /// The finalizers of this image with that of the controller taken out.
    pub fn finalizers_without(&self) -> (r: Vec<String>)
        ensures
            r.deep_view() == without_finalizer(self@.finalizers),
    {
        let mut r: Vec<String> = Vec::new();
        let ghost keep = |f: Seq<char>| f != FINALIZER@;
        assert(r.deep_view() =~= Seq::<Seq<char>>::empty());
        match &self.finalizers {
            None => {
                reveal(Seq::filter);
            },
            Some(f) => {
                let mut i: usize = 0;
                assert(f.deep_view().take(0).filter(keep) =~= Seq::<Seq<char>>::empty()) by {
                    reveal(Seq::filter);
                }
                while i < f.len()
                    invariant
                        i <= f.len(),
                        keep == (|f: Seq<char>| f != FINALIZER@),
                        r.deep_view() == f.deep_view().take(i as int).filter(keep),
                    decreases f.len() - i,
                {
                    let ghost done = r.deep_view();
                    if !same_text(f[i].as_str(), FINALIZER) {
                        r.push(f[i].clone());
                        assert(r.deep_view() =~= done.push(f.deep_view()[i as int]));
                    }
                    proof {
                        let all = f.deep_view();
                        assert(all.take(i + 1) =~= all.take(i as int).push(all[i as int]));
                        all.take(i as int).lemma_filter_push(all[i as int], keep);
                    }
                    i += 1;
                }
                assert(f.deep_view().take(f.len() as int) =~= f.deep_view());
            },
        }
        r
    }
}

/// Letting go of an image removes the finalizer of the controller and keeps all others, and the
/// other way round.
pub proof fn finalizers_round_trip(finalizers: Option<Seq<Seq<char>>>)
    ensures
        has_finalizer(Some(with_finalizer(finalizers))),
        !has_finalizer(Some(without_finalizer(finalizers))),
        without_finalizer(Some(with_finalizer(finalizers))) == without_finalizer(finalizers),
        without_finalizer(Some(without_finalizer(finalizers))) == without_finalizer(finalizers),
        !has_finalizer(finalizers) ==> without_finalizer(Some(with_finalizer(finalizers)))
            == finalizer_list(finalizers),
        forall|f: Seq<char>|
            f != FINALIZER@ ==> (finalizer_list(finalizers).contains(f) <==> #[trigger]
            without_finalizer(finalizers).contains(f)),
{
    let list = finalizer_list(finalizers);
    let keep = |f: Seq<char>| f != FINALIZER@;
    let with = with_finalizer(finalizers);
    let without = without_finalizer(finalizers);
    assert(with[list.len() as int] == FINALIZER@);
    list.lemma_filter_push(FINALIZER@, keep);
    lemma_filter_members(list, keep, FINALIZER@);
    assert forall|i: int| 0 <= i < without.len() implies keep(#[trigger] without[i]) by {
        assert(without.contains(without[i]));
        lemma_filter_members(list, keep, without[i]);
    }
    lemma_filter_all(without, keep);
    if !has_finalizer(finalizers) {
        assert forall|i: int| 0 <= i < list.len() implies keep(#[trigger] list[i]) by {
            assert(list.contains(list[i]));
        }
        lemma_filter_all(list, keep);
    }
    assert forall|f: Seq<char>| f != FINALIZER@ implies (list.contains(f) <==> #[trigger]
    without.contains(f)) by {
        lemma_filter_members(list, keep, f);
    }
}

/// Filtering a list leaves exactly its elements that satisfy the condition.
pub(crate) proof fn lemma_filter_members<A>(s: Seq<A>, keep: spec_fn(A) -> bool, x: A)
    ensures
        s.filter(keep).contains(x) <==> s.contains(x) && keep(x),
    decreases s.len(),
{
    reveal(Seq::filter);
    if s.len() > 0 {
        let rest = s.drop_last();
        let last = s.last();
        lemma_filter_members(rest, keep, x);
        assert(s =~= rest.push(last));
        lemma_push_contains(rest, last, x);
        lemma_push_contains(rest.filter(keep), last, x);
    }
}

proof fn lemma_filter_all<A>(s: Seq<A>, keep: spec_fn(A) -> bool)
    requires
        forall|i: int| 0 <= i < s.len() ==> keep(#[trigger] s[i]),
    ensures
        s.filter(keep) == s,
    decreases s.len(),
{
    reveal(Seq::filter);
    if s.len() > 0 {
        assert(keep(s[s.len() - 1]));
        assert forall|i: int| 0 <= i < s.drop_last().len() implies keep(
            #[trigger] s.drop_last()[i],
        ) by {
            assert(keep(s[i]));
        }
        lemma_filter_all(s.drop_last(), keep);
        assert(s =~= s.drop_last().push(s.last()));
    }
}

/// A reported condition is found under its type, with what was reported.
pub proof fn upserted_is_found(
    cs: Seq<ConditionView>,
    type_: Seq<char>,
    status: Seq<char>,
    reason: Option<Seq<char>>,
    message: Option<Seq<char>>,
    now: TimestampView,
)
    ensures
        condition_of(upserted(cs, type_, status, reason, message, now), type_) matches Some(c) && {
            &&& c.type_ == type_
            &&& c.status == status
            &&& c.reason == reason
            &&& c.message == message
            &&& c.last_transition_time == match condition_of(cs, type_) {
                Some(b) => if b.status == status {
                    b.last_transition_time
                } else {
                    Some(now)
                },
                None => Some(now),
            }
        },
{
    let after = upserted(cs, type_, status, reason, message, now);
    let types = cs.map_values(|c: ConditionView| c.type_);
    let types2 = after.map_values(|c: ConditionView| c.type_);
    types.index_of_first_ensures(type_);
    types2.index_of_first_ensures(type_);
    match condition_index(cs, type_) {
        Some(i) => {
            assert(types2 =~= types);
        },
        None => {
            assert(types2 =~= types.push(type_));
            assert(types2[types.len() as int] == type_);
            assert(types2.contains(type_));
        },
    }
}

/// Reporting a condition leaves what is found under every other type as it was, and never
/// shortens or reorders the list.
pub proof fn upserted_keeps_others(
    cs: Seq<ConditionView>,
    type_: Seq<char>,
    status: Seq<char>,
    reason: Option<Seq<char>>,
    message: Option<Seq<char>>,
    now: TimestampView,
    other: Seq<char>,
)
    requires
        other != type_,
    ensures
        ({
            let after = upserted(cs, type_, status, reason, message, now);
            &&& condition_index(after, other) == condition_index(cs, other)
            &&& condition_of(after, other) == condition_of(cs, other)
            &&& after.len() >= cs.len()
            &&& forall|i: int|
                0 <= i < cs.len() ==> (#[trigger] after[i]).type_ == cs[i].type_
        }),
{
    let after = upserted(cs, type_, status, reason, message, now);
    let types = cs.map_values(|c: ConditionView| c.type_);
    let types2 = after.map_values(|c: ConditionView| c.type_);
    types.index_of_first_ensures(type_);
    types.index_of_first_ensures(other);
    types2.index_of_first_ensures(other);
    match condition_index(cs, type_) {
        Some(i) => {
            assert(types2 =~= types);
        },
        None => {
            assert(types2 =~= types.push(type_));
            if types.contains(other) {
                let i = types.index_of_first(other)->0;
                assert(types2[i] == other);
                assert(types2.contains(other));
                let j = types2.index_of_first(other)->0;
                assert(j < types.len());
                assert(types[j] == other);
            } else if types2.contains(other) {
                let j = types2.index_of_first(other)->0;
                assert(types[j] == other);
                assert(types.contains(other));
            }
        },
    }
}

/// Reporting a condition never gives a type a second condition.
pub proof fn upserted_keeps_types_distinct(
    cs: Seq<ConditionView>,
    type_: Seq<char>,
    status: Seq<char>,
    reason: Option<Seq<char>>,
    message: Option<Seq<char>>,
    now: TimestampView,
)
    requires
        cs.map_values(|c: ConditionView| c.type_).no_duplicates(),
    ensures
        upserted(cs, type_, status, reason, message, now).map_values(
            |c: ConditionView| c.type_,
        ).no_duplicates(),
{
    let after = upserted(cs, type_, status, reason, message, now);
    let types = cs.map_values(|c: ConditionView| c.type_);
    let types2 = after.map_values(|c: ConditionView| c.type_);
    types.index_of_first_ensures(type_);
    match condition_index(cs, type_) {
        Some(i) => {
            assert(types2 =~= types);
        },
        None => {
            assert(types2 =~= types.push(type_));
            assert forall|i: int, j: int|
                0 <= i < types2.len() && 0 <= j < types2.len() && i != j implies types2[i]
                != types2[j] by {
                if i == types.len() {
                    assert(types.contains(types[j]));
                } else if j == types.len() {
                    assert(types.contains(types[i]));
                } else {
                    assert(types[i] != types[j]);
                }
            }
        },
    }
}

/// Reporting the same condition again, at any later time, changes nothing.
pub proof fn upserted_again_is_unchanged(
    cs: Seq<ConditionView>,
    type_: Seq<char>,
    status: Seq<char>,
    reason: Option<Seq<char>>,
    message: Option<Seq<char>>,
    now: TimestampView,
    later: TimestampView,
)
    ensures
        ({
            let once = upserted(cs, type_, status, reason, message, now);
            upserted(once, type_, status, reason, message, later) == once
        }),
{
    let once = upserted(cs, type_, status, reason, message, now);
    upserted_is_found(cs, type_, status, reason, message, now);
    let types = once.map_values(|c: ConditionView| c.type_);
    types.index_of_first_ensures(type_);
    assert(upserted(once, type_, status, reason, message, later) =~= once);
}

/// A referenced image that was last reported ready is in the phase `Ready`, and one that was
/// last reported not ready shows why: it backs off, or the reported reason.
pub proof fn phase_follows_ready(
    status: ImageStatusView,
    before: Seq<ConditionView>,
    reported: Seq<char>,
    reason: Seq<char>,
    message: Option<Seq<char>>,
    now: TimestampView,
)
    requires
        status.conditions == upserted(before, "Ready"@, reported, Some(reason), message, now),
    ensures
        reported == "True"@ ==> phase_of(status, true, false) == "Ready"@,
        reported == "False"@ ==> phase_of(status, true, false) == if condition_of(
            before,
            "ImagePullBackOff"@,
        ) matches Some(backoff) && backoff.status == "True"@ {
            "ImagePullBackOff"@
        } else {
            reason
        },
        reported != "True"@ && reported != "False"@ ==> phase_of(status, true, false)
            == "Reconciling"@,
{
    reveal_strlit("Ready");
    reveal_strlit("ImagePullBackOff");
    reveal_strlit("True");
    reveal_strlit("False");
    assert("Ready"@.len() != "ImagePullBackOff"@.len());
    assert("True"@.len() != "False"@.len());
    upserted_is_found(before, "Ready"@, reported, Some(reason), message, now);
    upserted_keeps_others(
        before,
        "Ready"@,
        reported,
        Some(reason),
        message,
        now,
        "ImagePullBackOff"@,
    );
}

/// A report changes the first condition of its type and nothing else: that one takes the status,
/// reason and message, and the time exactly where its status was another.
pub proof fn a_report_changes_the_first_of_its_type(
    before: Seq<ConditionView>,
    c: ConditionView,
    after: Seq<ConditionView>,
    status: Seq<char>,
    reason: Option<Seq<char>>,
    message: Option<Seq<char>>,
    now: TimestampView,
)
    requires
        forall|i: int| 0 <= i < before.len() ==> (#[trigger] before[i]).type_ != c.type_,
    ensures
        ({
            let reported = upserted(
                before + seq![c] + after,
                c.type_,
                status,
                reason,
                message,
                now,
            );
            let n = before.len() as int;
            &&& reported.len() == n + 1 + after.len()
            &&& reported.take(n) == before
            &&& reported.skip(n + 1) == after
            &&& reported[n].type_ == c.type_
            &&& reported[n].status == status
            &&& reported[n].reason == reason
            &&& reported[n].message == message
            &&& c.status == status ==> reported[n].last_transition_time == c.last_transition_time
            &&& c.status != status ==> reported[n].last_transition_time == Some(now)
        }),
{
    let cs = before + seq![c] + after;
    let n = before.len() as int;
    assert(cs[n] == c);
    assert forall|j: int| 0 <= j < n implies (#[trigger] cs[j]).type_ != c.type_ by {
        assert(cs[j] == before[j]);
    }
    the_first_condition_of_a_type_counts(cs, c.type_, n);
    let reported = upserted(cs, c.type_, status, reason, message, now);
    assert(reported.take(n) =~= before);
    assert(reported.skip(n + 1) =~= after);
}

/// The first report of a type adds a condition at the end, dated with the time of the report, and
/// leaves the others as they are.
pub proof fn a_first_report_joins_at_the_end(
    cs: Seq<ConditionView>,
    type_: Seq<char>,
    status: Seq<char>,
    reason: Option<Seq<char>>,
    message: Option<Seq<char>>,
    now: TimestampView,
)
    requires
        forall|i: int| 0 <= i < cs.len() ==> (#[trigger] cs[i]).type_ != type_,
    ensures
        ({
            let reported = upserted(cs, type_, status, reason, message, now);
            let n = cs.len() as int;
            &&& reported.len() == n + 1
            &&& reported.take(n) == cs
            &&& reported[n].type_ == type_
            &&& reported[n].status == status
            &&& reported[n].reason == reason
            &&& reported[n].message == message
            &&& reported[n].last_transition_time == Some(now)
        }),
{
    an_unreported_type_has_no_condition(cs, type_);
    assert(upserted(cs, type_, status, reason, message, now).take(cs.len() as int) =~= cs);
}

/// What counts of the conditions of a type is the first.
pub proof fn the_first_condition_of_a_type_counts(
    cs: Seq<ConditionView>,
    type_: Seq<char>,
    i: int,
)
    requires
        0 <= i < cs.len(),
        cs[i].type_ == type_,
        forall|j: int| 0 <= j < i ==> (#[trigger] cs[j]).type_ != type_,
    ensures
        condition_index(cs, type_) == Some(i),
        condition_of(cs, type_) == Some(cs[i]),
{
    let types = cs.map_values(|c: ConditionView| c.type_);
    types.index_of_first_ensures(type_);
    assert(types[i] == type_);
    assert(types.contains(type_));
    let k = types.index_of_first(type_)->0;
    if k < i {
        assert(types[k] == cs[k].type_);
    } else if k > i {
        assert(types[i] != type_);
    }
}

/// Without a condition of a type there is none that counts.
pub proof fn an_unreported_type_has_no_condition(cs: Seq<ConditionView>, type_: Seq<char>)
    requires
        forall|i: int| 0 <= i < cs.len() ==> (#[trigger] cs[i]).type_ != type_,
    ensures
        condition_index(cs, type_) is None,
        condition_of(cs, type_) is None,
{
    let types = cs.map_values(|c: ConditionView| c.type_);
    types.index_of_first_ensures(type_);
    if types.contains(type_) {
        let i = choose|i: int| 0 <= i < types.len() && types[i] == type_;
        assert(cs[i].type_ == type_);
    }
}

/// An image that is being deleted shows that and nothing else; one that is not referenced shows
/// whether it is retained.
pub proof fn phase_of_an_image_that_goes(status: ImageStatusView, has_refs: bool)
    ensures
        phase_of(status, has_refs, true) == "Deleting"@,
        status.retain_until is Some ==> phase_of(status, false, false) == "Retaining"@,
        status.retain_until is None ==> phase_of(status, false, false) == "Unreferenced"@,
{
}

/// A referenced image shows its first `Ready` condition, at position `ready`: that it is ready, or
/// why not, or that this is not known yet. It backs off only where its first `ImagePullBackOff`
/// condition, at position `backoff`, says so.
pub proof fn phase_of_a_referenced_image(status: ImageStatusView, ready: int, backoff: int)
    requires
        0 <= ready < status.conditions.len(),
        status.conditions[ready].type_ == "Ready"@,
        forall|j: int| 0 <= j < ready ==> (#[trigger] status.conditions[j]).type_ != "Ready"@,
        0 <= backoff <= status.conditions.len(),
        backoff < status.conditions.len() ==> status.conditions[backoff].type_
            == "ImagePullBackOff"@,
        forall|j: int|
            0 <= j < backoff ==> (#[trigger] status.conditions[j]).type_ != "ImagePullBackOff"@,
    ensures
        ({
            let r = status.conditions[ready];
            let backs_off = backoff < status.conditions.len() && status.conditions[backoff].status
                == "True"@;
            let phase = phase_of(status, true, false);
            &&& r.status == "True"@ ==> phase == "Ready"@
            &&& r.status == "False"@ && backs_off ==> phase == "ImagePullBackOff"@
            &&& r.status == "False"@ && !backs_off && r.reason is Some ==> phase == r.reason->0
            &&& r.status == "False"@ && !backs_off && r.reason is None ==> phase == "Error"@
            &&& r.status != "True"@ && r.status != "False"@ ==> phase == "Reconciling"@
        }),
{
    reveal_strlit("True");
    reveal_strlit("False");
    assert("True"@.len() != "False"@.len());
    the_first_condition_of_a_type_counts(status.conditions, "Ready"@, ready);
    if backoff < status.conditions.len() {
        the_first_condition_of_a_type_counts(status.conditions, "ImagePullBackOff"@, backoff);
    } else {
        an_unreported_type_has_no_condition(status.conditions, "ImagePullBackOff"@);
    }
}

/// A referenced image without a `Ready` condition is being reconciled.
pub proof fn phase_of_an_unreported_image(status: ImageStatusView)
    requires
        forall|j: int|
            0 <= j < status.conditions.len() ==> (#[trigger] status.conditions[j]).type_
                != "Ready"@,
    ensures
        phase_of(status, true, false) == "Reconciling"@,
{
    an_unreported_type_has_no_condition(status.conditions, "Ready"@);
}

/// Holding on to an image adds one finalizer at the end and keeps the others; the image is held
/// exactly where that finalizer is among its own.
pub proof fn holding_adds_one_finalizer(list: Seq<Seq<char>>)
    ensures
        with_finalizer(Some(list)) == list + seq!["qebbeq.tuco86.dev/finalizer"@],
        with_finalizer(None) == seq!["qebbeq.tuco86.dev/finalizer"@],
        has_finalizer(Some(list)) <==> list.contains("qebbeq.tuco86.dev/finalizer"@),
        !has_finalizer(None),
{
    assert(with_finalizer(Some(list)) =~= list + seq!["qebbeq.tuco86.dev/finalizer"@]);
    assert(with_finalizer(None) =~= seq!["qebbeq.tuco86.dev/finalizer"@]);
}

/// Letting go of an image goes through its finalizers in order: it leaves out every one that is
/// that of the controller, and keeps every other.
pub proof fn letting_go_leaves_out_one_finalizer(list: Seq<Seq<char>>, last: Seq<char>)
    ensures
        without_finalizer(None) == Seq::<Seq<char>>::empty(),
        without_finalizer(Some(Seq::empty())) == Seq::<Seq<char>>::empty(),
        last == "qebbeq.tuco86.dev/finalizer"@ ==> without_finalizer(Some(list.push(last)))
            == without_finalizer(Some(list)),
        last != "qebbeq.tuco86.dev/finalizer"@ ==> without_finalizer(Some(list.push(last)))
            == without_finalizer(Some(list)).push(last),
{
    let keep = |f: Seq<char>| f != FINALIZER@;
    list.lemma_filter_push(last, keep);
    reveal(Seq::filter);
    assert(without_finalizer(Some(Seq::empty())) =~= Seq::<Seq<char>>::empty());
    assert(without_finalizer(None) =~= Seq::<Seq<char>>::empty());
}

/// Keys are ordered by the API version; where that is the same, by the kind, then by the namespace,
/// and last by the name.
pub proof fn object_keys_are_ordered_by_their_fields(a: ObjectKeyView, b: ObjectKeyView)
    ensures
        text_before(a.api_version, b.api_version) ==> ObjectKey::before(a, b)
            && !ObjectKey::before(b, a),
        a.api_version == b.api_version && text_before(a.kind, b.kind) ==> ObjectKey::before(a, b)
            && !ObjectKey::before(b, a),
        a.api_version == b.api_version && a.kind == b.kind && text_before(a.namespace, b.namespace)
            ==> ObjectKey::before(a, b) && !ObjectKey::before(b, a),
        a.api_version == b.api_version && a.kind == b.kind && a.namespace == b.namespace
            && text_before(a.name, b.name) ==> ObjectKey::before(a, b) && !ObjectKey::before(b, a),
{
    if ObjectKey::before(a, b) && ObjectKey::before(b, a) {
        ObjectKey::before_transitive(a, b, a);
    }
    ObjectKey::before_irreflexive(a);
}

/// Of an image without a status nothing is known.
pub proof fn nothing_is_known_at_first()
    ensures
        empty_status().references.len() == 0,
        empty_status().conditions.len() == 0,
        empty_status().retain_until is None,
        empty_status().last_pulled_at is None,
        empty_status().phase is None,
        empty_status().mirrored is None,
        empty_status().last_mirror_time is None,
        empty_status().last_unreferenced is None,
{
}

} // verus!
