//! Pods and the images that they refer to.

use vstd::prelude::*;

use crate::resources::image::{ObjectKey, ObjectKeyView};
use crate::text::{decimal, decimal_text};
use crate::watch::{StreamItem, WatchEvent};

verus! {

/// What a [`PodSpec`] denotes.
pub ghost struct PodSpecView {
    pub containers: Seq<Option<Seq<char>>>,
    pub init_containers: Option<Seq<Option<Seq<char>>>>,
    pub ephemeral_containers: Option<Seq<Option<Seq<char>>>>,
}

/// The images of the containers of a pod, in the order of the containers. A container without
/// an image has none here.
#[derive(Debug)]
pub struct PodSpec {
    pub containers: Vec<Option<String>>,
    pub init_containers: Option<Vec<Option<String>>>,
    pub ephemeral_containers: Option<Vec<Option<String>>>,
}

impl View for PodSpec {
    type V = PodSpecView;

    open spec fn view(&self) -> PodSpecView {
        PodSpecView {
            containers: self.containers.deep_view(),
            init_containers: self.init_containers.deep_view(),
            ephemeral_containers: self.ephemeral_containers.deep_view(),
        }
    }
}

impl DeepView for PodSpec {
    type V = PodSpecView;

    open spec fn deep_view(&self) -> PodSpecView {
        self@
    }
}

/// What a [`Pod`] denotes.
pub ghost struct PodView {
    pub namespace: Option<Seq<char>>,
    pub name: Seq<char>,
    pub spec: Option<PodSpecView>,
}

/// A pod of the cluster.
#[derive(Debug)]
pub struct Pod {
    pub namespace: Option<String>,
    pub name: String,
    pub spec: Option<PodSpec>,
}

impl View for Pod {
    type V = PodView;

    open spec fn view(&self) -> PodView {
        PodView {
            namespace: self.namespace.deep_view(),
            name: self.name@,
            spec: self.spec.deep_view(),
        }
    }
}

impl DeepView for Pod {
    type V = PodView;

    open spec fn deep_view(&self) -> PodView {
        self@
    }
}

/// The key of a pod.
pub open spec fn pod_key(pod: PodView) -> ObjectKeyView {
    ObjectKeyView {
        api_version: "v1"@,
        kind: "Pod"@,
        namespace: match pod.namespace {
            Some(ns) => ns,
            None => Seq::<char>::empty(),
        },
        name: pod.name,
    }
}

/// The key of `pod`.
pub fn pod_object_key(pod: &Pod) -> (r: ObjectKey)
    ensures
        r@ == pod_key(pod@),
{
    ObjectKey {
        api_version: "v1".to_owned(),
        kind: "Pod".to_owned(),
        namespace: match &pod.namespace {
            Some(ns) => ns.clone(),
            None => String::new(),
        },
        name: pod.name.clone(),
    }
}

/// What a [`ResourceImageRef`] denotes.
pub ghost struct ResourceImageRefView {
    pub path: Seq<char>,
    pub image: Seq<char>,
}

/// An image reference and the field of the object that holds it.
#[derive(Clone, Debug)]
pub struct ResourceImageRef {
    pub path: String,
    pub image: String,
}

impl View for ResourceImageRef {
    type V = ResourceImageRefView;

    open spec fn view(&self) -> ResourceImageRefView {
        ResourceImageRefView { path: self.path@, image: self.image@ }
    }
}

impl DeepView for ResourceImageRef {
    type V = ResourceImageRefView;

    open spec fn deep_view(&self) -> ResourceImageRefView {
        self@
    }
}

/// The path of the image field of container number `i` in the list that `list` leads to.
pub open spec fn image_path(list: Seq<char>, i: nat) -> Seq<char> {
    list + "["@ + decimal(i) + "].image"@
}

/// The references of the first `n` containers of a list.
pub open spec fn container_refs(
    images: Seq<Option<Seq<char>>>,
    list: Seq<char>,
    n: nat,
) -> Seq<ResourceImageRefView>
    decreases n,
{
    if n == 0 {
        Seq::empty()
    } else {
        let before = container_refs(images, list, (n - 1) as nat);
        match images[n - 1] {
            Some(image) => before.push(
                ResourceImageRefView { path: image_path(list, (n - 1) as nat), image },
            ),
            None => before,
        }
    }
}

/// The references of an optional list of containers.
pub open spec fn list_refs(
    images: Option<Seq<Option<Seq<char>>>>,
    list: Seq<char>,
) -> Seq<ResourceImageRefView> {
    match images {
        Some(images) => container_refs(images, list, images.len()),
        None => Seq::empty(),
    }
}

/// The references of a pod: those of its containers, of its init containers, and of its
/// ephemeral containers.
pub open spec fn pod_refs(pod: PodView) -> Seq<ResourceImageRefView> {
    match pod.spec {
        Some(spec) => list_refs(Some(spec.containers), ".spec.containers"@) + list_refs(
            spec.init_containers,
            ".spec.initContainers"@,
        ) + list_refs(spec.ephemeral_containers, ".spec.ephemeralContainers"@),
        None => Seq::empty(),
    }
}

fn push_container_refs(out: &mut Vec<ResourceImageRef>, images: &Vec<Option<String>>, list: &str)
    ensures
        final(out).deep_view() == old(out).deep_view() + list_refs(
            Some(images.deep_view()),
            list@,
        ),
{
    let ghost start = out.deep_view();
    let mut i: usize = 0;
    assert(out.deep_view() =~= start + container_refs(images.deep_view(), list@, 0));
    while i < images.len()
        invariant
            i <= images.len(),
            out.deep_view() == start + container_refs(images.deep_view(), list@, i as nat),
        decreases images.len() - i,
    {
        let ghost before = out.deep_view();
        assert(images.deep_view()[i as int] == images@[i as int].deep_view());
        if let Some(image) = &images[i] {
            let mut path: String = list.to_owned();
            path.append("[");
            path.append(decimal_text(i).as_str());
            path.append("].image");
            let r = ResourceImageRef { path, image: image.clone() };
            let ghost new = r@;
            out.push(r);
            assert(out.deep_view() =~= before.push(new));
            assert(new.path =~= image_path(list@, i as nat));
        }
        assert(out.deep_view() =~= start + container_refs(
            images.deep_view(),
            list@,
            (i + 1) as nat,
        ));
        i += 1;
    }
}

/// The image references of `pod`.
pub fn collect_pod_image_refs(pod: &Pod) -> (r: Vec<ResourceImageRef>)
    ensures
        r.deep_view() == pod_refs(pod@),
{
    let mut out: Vec<ResourceImageRef> = Vec::new();
    assert(out.deep_view() =~= Seq::<ResourceImageRefView>::empty());
    if let Some(spec) = &pod.spec {
        push_container_refs(&mut out, &spec.containers, ".spec.containers");
        if let Some(inits) = &spec.init_containers {
            push_container_refs(&mut out, inits, ".spec.initContainers");
        }
        if let Some(eps) = &spec.ephemeral_containers {
            push_container_refs(&mut out, eps, ".spec.ephemeralContainers");
        }
        assert(out.deep_view() =~= pod_refs(pod@));
    }
    out
}

/// What a [`ReferenceUpdate`] denotes.
pub ghost enum ReferenceUpdateView {
    Upsert { resource: ObjectKeyView, images: Seq<ResourceImageRefView> },
    Delete(ObjectKeyView),
}

/// A change of the images that an object refers to.
#[derive(Clone, Debug)]
pub enum ReferenceUpdate {
    /// The object now refers to these images and no others.
    Upsert { resource: ObjectKey, images: Vec<ResourceImageRef> },
    /// The object is gone.
    Delete(ObjectKey),
}

impl View for ReferenceUpdate {
    type V = ReferenceUpdateView;

    open spec fn view(&self) -> ReferenceUpdateView {
        match self {
            ReferenceUpdate::Upsert { resource, images } => ReferenceUpdateView::Upsert {
                resource: resource@,
                images: images.deep_view(),
            },
            ReferenceUpdate::Delete(resource) => ReferenceUpdateView::Delete(resource@),
        }
    }
}

/// What a [`PodStep`] denotes.
pub ghost enum PodStepView {
    Send(ReferenceUpdateView),
    Skip,
    Stop,
}

/// What follows an item of the pod watch.
#[derive(Debug)]
pub enum PodStep {
    /// Hand on a change of references.
    Send(ReferenceUpdate),
    /// Wait for the next item.
    Skip,
    /// End the watch.
    Stop,
}

impl View for PodStep {
    type V = PodStepView;

    open spec fn view(&self) -> PodStepView {
        match self {
            PodStep::Send(update) => PodStepView::Send(update@),
            PodStep::Skip => PodStepView::Skip,
            PodStep::Stop => PodStepView::Stop,
        }
    }
}

/// What follows an item of the pod watch: every pod that is listed, added or modified reports
/// its references, and a deleted one that it has none.
pub open spec fn pod_step(item: StreamItem<PodView>) -> PodStepView {
    match item {
        StreamItem::Event(event) => match event {
            WatchEvent::Apply(p) => PodStepView::Send(
                ReferenceUpdateView::Upsert { resource: pod_key(p), images: pod_refs(p) },
            ),
            WatchEvent::InitApply(p) => PodStepView::Send(
                ReferenceUpdateView::Upsert { resource: pod_key(p), images: pod_refs(p) },
            ),
            WatchEvent::Delete(p) => PodStepView::Send(ReferenceUpdateView::Delete(pod_key(p))),
            WatchEvent::Init => PodStepView::Skip,
            WatchEvent::InitDone => PodStepView::Skip,
        },
        StreamItem::Failed => PodStepView::Skip,
        StreamItem::Ended => PodStepView::Stop,
    }
}

fn pod_upsert(p: &Pod) -> (r: PodStep)
    ensures
        r@ == PodStepView::Send(
            ReferenceUpdateView::Upsert { resource: pod_key(p@), images: pod_refs(p@) },
        ),
{
    PodStep::Send(
        ReferenceUpdate::Upsert {
            resource: pod_object_key(p),
            images: collect_pod_image_refs(p),
        },
    )
}

/// What follows `item` of the pod watch.
pub fn pod_watch_step(item: &StreamItem<Pod>) -> (r: PodStep)
    ensures
        r@ == pod_step(item.deep_view()),
{
    match item {
        StreamItem::Event(event) => match event {
            WatchEvent::Apply(p) => pod_upsert(p),
            WatchEvent::InitApply(p) => pod_upsert(p),
            WatchEvent::Delete(p) => PodStep::Send(ReferenceUpdate::Delete(pod_object_key(p))),
            WatchEvent::Init => PodStep::Skip,
            WatchEvent::InitDone => PodStep::Skip,
        },
        StreamItem::Failed => PodStep::Skip,
        StreamItem::Ended => PodStep::Stop,
    }
}

/// Whether `image` is among a list of references.
pub open spec fn refers_to(refs: Seq<ResourceImageRefView>, image: Seq<char>) -> bool {
    exists|i: int| 0 <= i < refs.len() && (#[trigger] refs[i]).image == image
}

proof fn lemma_container_refs(
    images: Seq<Option<Seq<char>>>,
    list: Seq<char>,
    n: nat,
    image: Seq<char>,
)
    requires
        n <= images.len(),
    ensures
        refers_to(container_refs(images, list, n), image) <==> images.take(n as int).contains(
            Some(image),
        ),
    decreases n,
{
    let refs = container_refs(images, list, n);
    if n > 0 {
        let m = (n - 1) as nat;
        lemma_container_refs(images, list, m, image);
        let before = container_refs(images, list, m);
        let now = images.take(n as int);
        let earlier = images.take(m as int);
        if refers_to(refs, image) {
            let i = choose|i: int| 0 <= i < refs.len() && (#[trigger] refs[i]).image == image;
            if i < before.len() {
                assert(before[i].image == image);
                let j = choose|j: int| 0 <= j < earlier.len() && earlier[j] == Some(image);
                assert(now[j] == Some(image));
            } else {
                assert(now[m as int] == Some(image));
            }
        }
        if now.contains(Some(image)) {
            let j = choose|j: int| 0 <= j < now.len() && now[j] == Some(image);
            if j < m {
                assert(earlier[j] == Some(image));
                let i = choose|i: int| 0 <= i < before.len() && (#[trigger] before[i]).image == image;
                assert(refs[i].image == image);
            } else {
                assert(refs[before.len() as int].image == image);
            }
        }
    }
}

/// Whether a list of containers runs `image`.
pub open spec fn runs(images: Option<Seq<Option<Seq<char>>>>, image: Seq<char>) -> bool {
    images matches Some(images) && images.contains(Some(image))
}

/// A pod refers to exactly the images of its containers, init containers and ephemeral
/// containers.
pub proof fn pod_refs_are_its_images(pod: PodView, image: Seq<char>)
    ensures
        refers_to(pod_refs(pod), image) <==> (pod.spec matches Some(spec) && {
            ||| spec.containers.contains(Some(image))
            ||| runs(spec.init_containers, image)
            ||| runs(spec.ephemeral_containers, image)
        }),
{
    if let Some(spec) = pod.spec {
        let a = list_refs(Some(spec.containers), ".spec.containers"@);
        let b = list_refs(spec.init_containers, ".spec.initContainers"@);
        let c = list_refs(spec.ephemeral_containers, ".spec.ephemeralContainers"@);
        lemma_list_refs(Some(spec.containers), ".spec.containers"@, image);
        lemma_list_refs(spec.init_containers, ".spec.initContainers"@, image);
        lemma_list_refs(spec.ephemeral_containers, ".spec.ephemeralContainers"@, image);
        lemma_refers_to_add(a, b, image);
        lemma_refers_to_add(a + b, c, image);
    }
}

proof fn lemma_list_refs(
    images: Option<Seq<Option<Seq<char>>>>,
    list: Seq<char>,
    image: Seq<char>,
)
    ensures
        refers_to(list_refs(images, list), image) <==> runs(images, image),
{
    if let Some(all) = images {
        lemma_container_refs(all, list, all.len(), image);
        assert(all.take(all.len() as int) =~= all);
    }
}

proof fn lemma_refers_to_add(
    a: Seq<ResourceImageRefView>,
    b: Seq<ResourceImageRefView>,
    image: Seq<char>,
)
    ensures
        refers_to(a + b, image) <==> refers_to(a, image) || refers_to(b, image),
{
    let c = a + b;
    if refers_to(a, image) {
        let i = choose|i: int| 0 <= i < a.len() && (#[trigger] a[i]).image == image;
        assert(c[i].image == image);
    }
    if refers_to(b, image) {
        let i = choose|i: int| 0 <= i < b.len() && (#[trigger] b[i]).image == image;
        assert(c[a.len() + i].image == image);
    }
    if refers_to(c, image) {
        let i = choose|i: int| 0 <= i < c.len() && (#[trigger] c[i]).image == image;
        if i < a.len() {
            assert(a[i].image == image);
        } else {
            assert(b[i - a.len()].image == image);
        }
    }
}

/// The references of a list of containers come in the order of the containers: one more container
/// adds its own at the end, with its position, where it has an image, and nothing where it has
/// none.
pub proof fn one_more_container_adds_its_reference(
    images: Seq<Option<Seq<char>>>,
    more: Option<Seq<char>>,
    list: Seq<char>,
)
    ensures
        list_refs(None, list) == Seq::<ResourceImageRefView>::empty(),
        list_refs(Some(Seq::empty()), list) == Seq::<ResourceImageRefView>::empty(),
        more is None ==> list_refs(Some(images.push(more)), list) == list_refs(Some(images), list),
        more matches Some(image) ==> {
            let refs = list_refs(Some(images.push(more)), list);
            &&& refs.len() == list_refs(Some(images), list).len() + 1
            &&& refs.drop_last() == list_refs(Some(images), list)
            &&& refs.last().image == image
            &&& refs.last().path == list + "["@ + decimal(images.len()) + "].image"@
        },
{
    lemma_first_containers(images, more, list, images.len());
    let refs = list_refs(Some(images.push(more)), list);
    assert(refs.drop_last() =~= list_refs(Some(images), list) || more is None);
}

proof fn lemma_first_containers(
    images: Seq<Option<Seq<char>>>,
    more: Option<Seq<char>>,
    list: Seq<char>,
    n: nat,
)
    requires
        n <= images.len(),
    ensures
        container_refs(images.push(more), list, n) == container_refs(images, list, n),
    decreases n,
{
    if n > 0 {
        lemma_first_containers(images, more, list, (n - 1) as nat);
        assert(images.push(more)[n - 1] == images[n - 1]);
    }
}

/// A pod lists the references of its containers first, then those of its init containers, and last
/// those of its ephemeral containers, each with the path of its field; a pod without a spec has
/// none.
pub proof fn a_pod_lists_its_references_in_order(pod: PodView)
    ensures
        pod.spec is None ==> pod_refs(pod).len() == 0,
        pod.spec matches Some(spec) ==> {
            let a = list_refs(Some(spec.containers), ".spec.containers"@);
            let b = list_refs(spec.init_containers, ".spec.initContainers"@);
            let c = list_refs(spec.ephemeral_containers, ".spec.ephemeralContainers"@);
            &&& pod_refs(pod).len() == a.len() + b.len() + c.len()
            &&& pod_refs(pod).take(a.len() as int) == a
            &&& pod_refs(pod).subrange(a.len() as int, (a.len() + b.len()) as int) == b
            &&& pod_refs(pod).skip((a.len() + b.len()) as int) == c
        },
{
    if let Some(spec) = pod.spec {
        let a = list_refs(Some(spec.containers), ".spec.containers"@);
        let b = list_refs(spec.init_containers, ".spec.initContainers"@);
        let c = list_refs(spec.ephemeral_containers, ".spec.ephemeralContainers"@);
        assert(pod_refs(pod).take(a.len() as int) =~= a);
        assert(pod_refs(pod).subrange(a.len() as int, (a.len() + b.len()) as int) =~= b);
        assert(pod_refs(pod).skip((a.len() + b.len()) as int) =~= c);
    }
}

/// Every pod that is listed, added or modified is reported with its references, and every deleted
/// one as gone, each under its namespace and name as an object of kind `Pod` of version `v1`.
/// Nothing else is reported, and only the end of the watch ends it.
pub proof fn every_change_of_a_pod_is_reported(pod: PodView)
    ensures
        ({
            let resource = ObjectKeyView {
                api_version: "v1"@,
                kind: "Pod"@,
                namespace: match pod.namespace {
                    Some(ns) => ns,
                    None => Seq::empty(),
                },
                name: pod.name,
            };
            let told = PodStepView::Send(
                ReferenceUpdateView::Upsert { resource, images: pod_refs(pod) },
            );
            &&& pod_step(StreamItem::Event(WatchEvent::Apply(pod))) == told
            &&& pod_step(StreamItem::Event(WatchEvent::InitApply(pod))) == told
            &&& pod_step(StreamItem::Event(WatchEvent::Delete(pod))) == PodStepView::Send(
                ReferenceUpdateView::Delete(resource),
            )
        }),
        pod_step(StreamItem::Event(WatchEvent::Init)) == PodStepView::Skip,
        pod_step(StreamItem::Event(WatchEvent::InitDone)) == PodStepView::Skip,
        pod_step(StreamItem::Failed) == PodStepView::Skip,
        pod_step(StreamItem::Ended) == PodStepView::Stop,
{
}

} // verus!
