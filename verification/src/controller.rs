//! Keeping Image resources in step with the workloads that refer to images.
//!
//! The controller hears of changes to Image resources and of changes to what workloads refer to.
//! What it decides is decided here; looking up, creating, listing and reconciling resources is
//! left to whoever drives it: each step takes an event and tells the next action.

use vstd::prelude::*;

use crate::config::{ControllerConfig, ControllerConfigView};
use crate::index::{
    both_directions_agree, filter_managed, holders, images_of, managed_images,
    managed_images_live_on_the_registry, retargeted, retargeted_object_refers_to_its_images,
    unseen, unseen_images_have_no_holder, untouched_images_keep_their_holders, ReferenceIndex,
};
use crate::naming::{generate_image_name, image_name, reference_hash};
use crate::reference::image_host;
use crate::resources::image::{lemma_filter_members, Image, ImageView, ObjectKey, ObjectKeyView};
use crate::sorted::{
    finite_set_in_order, in_order, increasing, increasing_is_in_order, lemma_increasing_distinct,
    lemma_to_set_contains, SortedSet,
};
use crate::text::same_text;
use crate::watch::{StreamItem, WatchEvent};
use crate::workload::{ReferenceUpdate, ReferenceUpdateView, ResourceImageRefView};

verus! {

/// The images of a list whose reference is `image_ref`.
pub open spec fn matching_images(list: Seq<ImageView>, image_ref: Seq<char>) -> Seq<ImageView> {
    list.filter(|i: ImageView| i.image == image_ref)
}

/// The images of `list` whose reference is `image_ref`, where there are any.
pub fn find_image_crs(list: &Vec<Image>, image_ref: &str) -> (r: Option<Vec<Image>>)
    ensures
        match r {
            Some(found) => {
                &&& found.deep_view() == matching_images(list.deep_view(), image_ref@)
                &&& found@.len() > 0
            },
            None => matching_images(list.deep_view(), image_ref@).len() == 0,
        },
{
    let mut found: Vec<Image> = Vec::new();
    let ghost keep = |i: ImageView| i.image == image_ref@;
    let mut i: usize = 0;
    assert(list.deep_view().take(0).filter(keep) =~= Seq::<ImageView>::empty()) by {
        reveal(Seq::filter);
    }
    assert(found.deep_view() =~= Seq::<ImageView>::empty());
    while i < list.len()
        invariant
            i <= list.len(),
            keep == (|i: ImageView| i.image == image_ref@),
            found.deep_view() == list.deep_view().take(i as int).filter(keep),
        decreases list.len() - i,
    {
        let ghost done = found.deep_view();
        let image = &list[i];
        if same_text(image.spec.image.as_str(), image_ref) {
            found.push(image.clone());
            assert(found.deep_view() =~= done.push(list.deep_view()[i as int]));
        }
        proof {
            let all = list.deep_view();
            assert(all.take(i + 1) =~= all.take(i as int).push(all[i as int]));
            all.take(i as int).lemma_filter_push(all[i as int], keep);
        }
        i += 1;
    }
    assert(list.deep_view().take(list.len() as int) =~= list.deep_view());
    assert(found.deep_view().len() == found@.len());
    if found.len() == 0 {
        None
    } else {
        Some(found)
    }
}

/// The outcome of looking an Image resource up by its name.
#[derive(Clone, Copy, Debug, PartialEq, Eq, Structural)]
pub enum Lookup {
    Found,
    Absent,
    Failed,
}

/// What a [`ControllerEvent`] denotes.
pub ghost enum ControllerEventView {
    Cancelled,
    Item(StreamItem<ImageView>),
    Update(ReferenceUpdateView),
    LookedUp(Lookup),
    Created,
    Listed(Option<Seq<ImageView>>),
    Reconciled,
}

/// What the controller reacts to.
pub enum ControllerEvent {
    /// The controller is to shut down.
    Cancelled,
    /// The watch on Image resources delivered an item.
    Item(StreamItem<Image>),
    /// A workload changed what it refers to.
    Update(ReferenceUpdate),
    /// A lookup ended.
    LookedUp(Lookup),
    /// The creation of a resource was attempted.
    Created,
    /// The Image resources of the cluster; none where listing them failed.
    Listed(Option<Vec<Image>>),
    /// The reconciliations that were asked for have ended.
    Reconciled,
}

impl View for ControllerEvent {
    type V = ControllerEventView;

    open spec fn view(&self) -> ControllerEventView {
        match self {
            ControllerEvent::Cancelled => ControllerEventView::Cancelled,
            ControllerEvent::Item(item) => ControllerEventView::Item(item.deep_view()),
            ControllerEvent::Update(update) => ControllerEventView::Update(update@),
            ControllerEvent::LookedUp(outcome) => ControllerEventView::LookedUp(*outcome),
            ControllerEvent::Created => ControllerEventView::Created,
            ControllerEvent::Listed(list) => ControllerEventView::Listed(list.deep_view()),
            ControllerEvent::Reconciled => ControllerEventView::Reconciled,
        }
    }
}

/// What a [`ControllerAction`] denotes.
pub ghost enum ControllerActionView {
    Wait,
    LookUp { namespace: Seq<char>, name: Seq<char> },
    Create { namespace: Seq<char>, name: Seq<char>, image: Seq<char> },
    List,
    Reconcile { images: Seq<ImageView>, references: Seq<ObjectKeyView> },
    Stop,
    Fail,
}

/// What the controller asks to be done next.
pub enum ControllerAction {
    /// Wait for a change, or for the end.
    Wait,
    /// Look an Image resource up.
    LookUp { namespace: String, name: String },
    /// Create an Image resource for an image.
    Create { namespace: String, name: String, image: String },
    /// List the Image resources of the cluster.
    List,
    /// Reconcile each of the images with these references.
    Reconcile { images: Vec<Image>, references: SortedSet<ObjectKey> },
    /// End.
    Stop,
    /// End with the error of the last request.
    Fail,
}

impl View for ControllerAction {
    type V = ControllerActionView;

    open spec fn view(&self) -> ControllerActionView {
        match self {
            ControllerAction::Wait => ControllerActionView::Wait,
            ControllerAction::LookUp { namespace, name } => ControllerActionView::LookUp {
                namespace: namespace@,
                name: name@,
            },
            ControllerAction::Create { namespace, name, image } => ControllerActionView::Create {
                namespace: namespace@,
                name: name@,
                image: image@,
            },
            ControllerAction::List => ControllerActionView::List,
            ControllerAction::Reconcile { images, references } => ControllerActionView::Reconcile {
                images: images.deep_view(),
                references: references@,
            },
            ControllerAction::Stop => ControllerActionView::Stop,
            ControllerAction::Fail => ControllerActionView::Fail,
        }
    }
}

/// What a [`Task`] denotes.
pub ghost enum TaskView {
    Idle,
    LookingUp { resource: ObjectKeyView, images: Seq<Seq<char>>, pending: Seq<Seq<char>> },
    Creating { resource: ObjectKeyView, images: Seq<Seq<char>>, pending: Seq<Seq<char>> },
    Listing { affected: Seq<Seq<char>> },
    Reconciling { affected: Seq<Seq<char>> },
    Stopped,
}

/// Images in increasing order, of which the first ones are done.
struct Agenda {
    images: SortedSet<String>,
    done: usize,
}

impl View for Agenda {
    type V = Seq<Seq<char>>;

    closed spec fn view(&self) -> Seq<Seq<char>> {
        self.images@.skip(self.done as int)
    }
}

impl Agenda {
    spec fn valid(&self) -> bool {
        self.done <= self.images@.len()
    }

    fn new(images: SortedSet<String>) -> (r: Agenda)
        ensures
            r.valid(),
            r@ == images@,
    {
        let r = Agenda { images, done: 0 };
        assert(r@ =~= r.images@);
        r
    }

    fn first(&self) -> (r: Option<&String>)
        requires
            self.valid(),
        ensures
            match r {
                Some(image) => self@.len() > 0 && self@[0] == image@,
                None => self@.len() == 0,
            },
    {
        if self.done < self.images.len() {
            Some(self.images.get(self.done))
        } else {
            None
        }
    }

    fn advance(&mut self)
        requires
            old(self).valid(),
            old(self)@.len() > 0,
        ensures
            final(self).valid(),
            final(self)@ == old(self)@.skip(1),
    {
        let n: usize = self.images.len();
        assert(self.done < n);
        self.done += 1;
        assert(self@ =~= old(self)@.skip(1));
    }
}

/// What the controller is at.
enum Task {
    Idle,
    LookingUp { resource: ObjectKey, images: SortedSet<String>, pending: Agenda },
    Creating { resource: ObjectKey, images: SortedSet<String>, pending: Agenda },
    Listing { affected: Agenda },
    Reconciling { affected: Agenda },
    Stopped,
}

impl View for Task {
    type V = TaskView;

    closed spec fn view(&self) -> TaskView {
        match self {
            Task::Idle => TaskView::Idle,
            Task::LookingUp { resource, images, pending } => TaskView::LookingUp {
                resource: resource@,
                images: images@,
                pending: pending@,
            },
            Task::Creating { resource, images, pending } => TaskView::Creating {
                resource: resource@,
                images: images@,
                pending: pending@,
            },
            Task::Listing { affected } => TaskView::Listing { affected: affected@ },
            Task::Reconciling { affected } => TaskView::Reconciling { affected: affected@ },
            Task::Stopped => TaskView::Stopped,
        }
    }
}

impl Task {
    spec fn valid(&self) -> bool {
        match self {
            Task::LookingUp { pending, .. } => pending.valid() && pending@.len() > 0,
            Task::Creating { pending, .. } => pending.valid() && pending@.len() > 0,
            Task::Listing { affected } => affected.valid() && affected@.len() > 0,
            Task::Reconciling { affected } => affected.valid(),
            _ => true,
        }
    }
}

/// What a [`Controller`] denotes.
pub ghost struct ControllerView {
    pub config: ControllerConfigView,
    /// The images that each workload refers to.
    pub index: Map<ObjectKeyView, Set<Seq<char>>>,
    pub task: TaskView,
}

/// The objects that refer to `image`, in order.
pub open spec fn references_in_order(
    index: Map<ObjectKeyView, Set<Seq<char>>>,
    image: Seq<char>,
) -> Seq<ObjectKeyView> {
    in_order::<ObjectKey>(holders(index, image))
}

/// Goes on with the images in `affected`: the resources of each are listed and reconciled.
pub open spec fn visiting(c: ControllerView, affected: Seq<Seq<char>>) -> (
    ControllerView,
    ControllerActionView,
) {
    if affected.len() == 0 {
        (ControllerView { task: TaskView::Idle, ..c }, ControllerActionView::Wait)
    } else {
        (
            ControllerView { task: TaskView::Listing { affected }, ..c },
            ControllerActionView::List,
        )
    }
}

/// Goes on with the images in `pending`, of which no resource is known yet: each is looked up,
/// and created where it is absent. Then `resource` comes to refer to `images`, and the images
/// that it referred to before or refers to now are visited.
pub open spec fn ensuring(
    c: ControllerView,
    resource: ObjectKeyView,
    images: Seq<Seq<char>>,
    pending: Seq<Seq<char>>,
) -> (ControllerView, ControllerActionView) {
    if pending.len() > 0 {
        (
            ControllerView { task: TaskView::LookingUp { resource, images, pending }, ..c },
            ControllerActionView::LookUp {
                namespace: c.config.namespace,
                name: image_name(pending[0], reference_hash(pending[0])),
            },
        )
    } else {
        visiting(
            ControllerView { index: retargeted(c.index, resource, images.to_set()), ..c },
            in_order::<String>(images_of(c.index, resource).union(images.to_set())),
        )
    }
}

/// Reconciles the resources of the first image in `affected`, found in `list`, and leaves the
/// others for later.
pub open spec fn listed(c: ControllerView, affected: Seq<Seq<char>>, list: Seq<ImageView>) -> (
    ControllerView,
    ControllerActionView,
) {
    let found = matching_images(list, affected[0]);
    if found.len() == 0 {
        visiting(c, affected.skip(1))
    } else {
        (
            ControllerView { task: TaskView::Reconciling { affected: affected.skip(1) }, ..c },
            ControllerActionView::Reconcile {
                images: found,
                references: references_in_order(c.index, affected[0]),
            },
        )
    }
}

/// Reconciles `image`, which was listed, added or modified.
pub open spec fn applied(c: ControllerView, image: ImageView) -> (
    ControllerView,
    ControllerActionView,
) {
    (
        ControllerView { task: TaskView::Reconciling { affected: Seq::empty() }, ..c },
        ControllerActionView::Reconcile {
            images: seq![image],
            references: references_in_order(c.index, image.image),
        },
    )
}

/// What an idle controller makes of an event.
pub open spec fn roused(c: ControllerView, event: ControllerEventView) -> (
    ControllerView,
    ControllerActionView,
) {
    match event {
        ControllerEventView::Cancelled => (
            ControllerView { task: TaskView::Stopped, ..c },
            ControllerActionView::Stop,
        ),
        ControllerEventView::Item(StreamItem::Ended) => (
            ControllerView { task: TaskView::Stopped, ..c },
            ControllerActionView::Stop,
        ),
        ControllerEventView::Item(StreamItem::Event(WatchEvent::Apply(image))) => applied(c, image),
        ControllerEventView::Item(StreamItem::Event(WatchEvent::InitApply(image))) => applied(
            c,
            image,
        ),
        ControllerEventView::Update(ReferenceUpdateView::Upsert { resource, images }) => {
            let managed = managed_images(images, c.config.registry_host);
            ensuring(
                c,
                resource,
                in_order::<String>(managed),
                in_order::<String>(unseen(c.index, managed)),
            )
        },
        ControllerEventView::Update(ReferenceUpdateView::Delete(resource)) => if c.index.contains_key(
            resource,
        ) {
            visiting(
                ControllerView { index: c.index.remove(resource), ..c },
                in_order::<String>(c.index[resource]),
            )
        } else {
            (c, ControllerActionView::Wait)
        },
        _ => (c, ControllerActionView::Wait),
    }
}

/// One step of the controller. An event that its task does not wait for changes nothing.
pub open spec fn stepped(c: ControllerView, event: ControllerEventView) -> (
    ControllerView,
    ControllerActionView,
) {
    match c.task {
        TaskView::Idle => roused(c, event),
        TaskView::LookingUp { resource, images, pending } => match event {
            ControllerEventView::LookedUp(Lookup::Found) => ensuring(
                c,
                resource,
                images,
                pending.skip(1),
            ),
            ControllerEventView::LookedUp(Lookup::Absent) => (
                ControllerView { task: TaskView::Creating { resource, images, pending }, ..c },
                ControllerActionView::Create {
                    namespace: c.config.namespace,
                    name: image_name(pending[0], reference_hash(pending[0])),
                    image: pending[0],
                },
            ),
            ControllerEventView::LookedUp(Lookup::Failed) => (
                ControllerView { task: TaskView::Stopped, ..c },
                ControllerActionView::Fail,
            ),
            _ => (c, ControllerActionView::Wait),
        },
        TaskView::Creating { resource, images, pending } => match event {
            ControllerEventView::Created => ensuring(c, resource, images, pending.skip(1)),
            _ => (c, ControllerActionView::Wait),
        },
        TaskView::Listing { affected } => match event {
            ControllerEventView::Listed(Some(list)) => listed(c, affected, list),
            ControllerEventView::Listed(None) => (
                ControllerView { task: TaskView::Stopped, ..c },
                ControllerActionView::Fail,
            ),
            _ => (c, ControllerActionView::Wait),
        },
        TaskView::Reconciling { affected } => match event {
            ControllerEventView::Reconciled => visiting(c, affected),
            _ => (c, ControllerActionView::Wait),
        },
        TaskView::Stopped => (c, ControllerActionView::Stop),
    }
}

/// The controller of the Image resources.
pub struct Controller {
    config: ControllerConfig,
    index: ReferenceIndex,
    task: Task,
}

impl View for Controller {
    type V = ControllerView;

    closed spec fn view(&self) -> ControllerView {
        ControllerView { config: self.config@, index: self.index@, task: self.task@ }
    }
}

impl Controller {
    #[verifier::type_invariant]
    spec fn consistent(self) -> bool {
        self.task.valid()
    }

    /// A controller that has heard of nothing yet.
    pub fn new(config: ControllerConfig) -> (r: Controller)
        ensures
            r@ == (ControllerView {
                config: config@,
                index: Map::empty(),
                task: TaskView::Idle,
            }),
    {
        Controller { config, index: ReferenceIndex::new(), task: Task::Idle }
    }

    fn visit(&mut self, affected: Agenda) -> (r: ControllerAction)
        requires
            affected.valid(),
        ensures
            (final(self)@, r@) == visiting(old(self)@, affected@),
    {
        match affected.first() {
            None => {
                self.task = Task::Idle;
                ControllerAction::Wait
            },
            Some(_) => {
                self.task = Task::Listing { affected };
                ControllerAction::List
            },
        }
    }

    fn ensure(&mut self, resource: ObjectKey, images: SortedSet<String>, pending: Agenda) -> (r:
        ControllerAction)
        requires
            pending.valid(),
        ensures
            (final(self)@, r@) == ensuring(old(self)@, resource@, images@, pending@),
    {
        match pending.first() {
            Some(image) => {
                let name = generate_image_name(image.as_str());
                self.task = Task::LookingUp { resource, images, pending };
                ControllerAction::LookUp { namespace: self.config.namespace.clone(), name }
            },
            None => {
                let before = self.index.images_of(&resource);
                let affected = before.union(&images);
                proof {
                    increasing_is_in_order::<String>(affected@);
                    use_type_invariant(&*self);
                }
                let mut index = ReferenceIndex::new();
                std::mem::swap(&mut index, &mut self.index);
                index.retarget(&resource, &images);
                self.index = index;
                self.visit(Agenda::new(affected))
            },
        }
    }

    fn apply(&mut self, image: Image) -> (r: ControllerAction)
        ensures
            (final(self)@, r@) == applied(old(self)@, image@),
    {
        let references = self.index.references_of(&image.spec.image);
        proof {
            increasing_is_in_order::<ObjectKey>(references@);
        }
        let ghost only = image@;
        let mut images: Vec<Image> = Vec::new();
        images.push(image);
        assert(images.deep_view() =~= seq![only]);
        let affected = Agenda::new(SortedSet::new());
        self.task = Task::Reconciling { affected };
        ControllerAction::Reconcile { images, references }
    }

    fn update(&mut self, update: ReferenceUpdate) -> (r: ControllerAction)
        requires
            old(self)@.task is Idle,
        ensures
            (final(self)@, r@) == roused(old(self)@, ControllerEventView::Update(update@)),
    {
        match update {
            ReferenceUpdate::Upsert { resource, images } => {
                let managed = filter_managed(&images, self.config.registry_host.as_str());
                let pending = self.index.unseen_images(&managed);
                proof {
                    increasing_is_in_order::<String>(managed@);
                    increasing_is_in_order::<String>(pending@);
                }
                self.ensure(resource, managed, Agenda::new(pending))
            },
            ReferenceUpdate::Delete(resource) => {
                proof {
                    use_type_invariant(&*self);
                }
                let mut index = ReferenceIndex::new();
                std::mem::swap(&mut index, &mut self.index);
                let forgotten = index.forget(&resource);
                self.index = index;
                match forgotten {
                    Some(images) => {
                        proof {
                            increasing_is_in_order::<String>(images@);
                        }
                        self.visit(Agenda::new(images))
                    },
                    None => {
                        proof {
                            assert(old(self)@.index.remove(resource@) =~= old(self)@.index);
                        }
                        ControllerAction::Wait
                    },
                }
            },
        }
    }

    fn rouse(&mut self, event: ControllerEvent) -> (r: ControllerAction)
        requires
            old(self)@.task is Idle,
        ensures
            (final(self)@, r@) == roused(old(self)@, event@),
    {
        match event {
            ControllerEvent::Cancelled => {
                self.task = Task::Stopped;
                ControllerAction::Stop
            },
            ControllerEvent::Item(item) => match item {
                StreamItem::Ended => {
                    self.task = Task::Stopped;
                    ControllerAction::Stop
                },
                StreamItem::Event(WatchEvent::Apply(image)) => self.apply(image),
                StreamItem::Event(WatchEvent::InitApply(image)) => self.apply(image),
                _ => ControllerAction::Wait,
            },
            ControllerEvent::Update(update) => self.update(update),
            _ => ControllerAction::Wait,
        }
    }

    fn list(&mut self, affected: Agenda, list: &Vec<Image>) -> (r: ControllerAction)
        requires
            affected.valid(),
            affected@.len() > 0,
        ensures
            (final(self)@, r@) == listed(old(self)@, affected@, list.deep_view()),
    {
        let mut affected = affected;
        let image: String = match affected.first() {
            Some(image) => image.clone(),
            None => String::new(),
        };
        affected.advance();
        match find_image_crs(list, image.as_str()) {
            None => self.visit(affected),
            Some(images) => {
                let references = self.index.references_of(&image);
                proof {
                    increasing_is_in_order::<ObjectKey>(references@);
                    assert(images.deep_view().len() == images@.len());
                }
                self.task = Task::Reconciling { affected };
                ControllerAction::Reconcile { images, references }
            },
        }
    }

    /// Takes one step on `event`; tells what is to be done next.
    pub fn step(&mut self, event: ControllerEvent) -> (r: ControllerAction)
        ensures
            (final(self)@, r@) == stepped(old(self)@, event@),
    {
        proof {
            use_type_invariant(&*self);
        }
        let mut task: Task = Task::Idle;
        std::mem::swap(&mut task, &mut self.task);
        match task {
            Task::Idle => self.rouse(event),
            Task::LookingUp { resource, images, pending } => match event {
                ControllerEvent::LookedUp(Lookup::Found) => {
                    let mut pending = pending;
                    pending.advance();
                    self.ensure(resource, images, pending)
                },
                ControllerEvent::LookedUp(Lookup::Absent) => {
                    let image: String = match pending.first() {
                        Some(image) => image.clone(),
                        None => String::new(),
                    };
                    let name = generate_image_name(image.as_str());
                    self.task = Task::Creating { resource, images, pending };
                    ControllerAction::Create {
                        namespace: self.config.namespace.clone(),
                        name,
                        image,
                    }
                },
                ControllerEvent::LookedUp(Lookup::Failed) => {
                    self.task = Task::Stopped;
                    ControllerAction::Fail
                },
                _ => {
                    self.task = Task::LookingUp { resource, images, pending };
                    ControllerAction::Wait
                },
            },
            Task::Creating { resource, images, pending } => match event {
                ControllerEvent::Created => {
                    let mut pending = pending;
                    pending.advance();
                    self.ensure(resource, images, pending)
                },
                _ => {
                    self.task = Task::Creating { resource, images, pending };
                    ControllerAction::Wait
                },
            },
            Task::Listing { affected } => match event {
                ControllerEvent::Listed(Some(list)) => self.list(affected, &list),
                ControllerEvent::Listed(None) => {
                    self.task = Task::Stopped;
                    ControllerAction::Fail
                },
                _ => {
                    self.task = Task::Listing { affected };
                    ControllerAction::Wait
                },
            },
            Task::Reconciling { affected } => match event {
                ControllerEvent::Reconciled => self.visit(affected),
                _ => {
                    self.task = Task::Reconciling { affected };
                    ControllerAction::Wait
                },
            },
            Task::Stopped => {
                self.task = Task::Stopped;
                ControllerAction::Stop
            },
        }
    }
}

/// Whether a set of images is one that the controller may track: finite, and all of them on its
/// registry.
pub open spec fn trackable(images: Set<Seq<char>>, host: Seq<char>) -> bool {
    &&& images.finite()
    &&& forall|image: Seq<char>| #[trigger]
        images.contains(image) ==> image_host(image) == Some(host)
}

/// What holds of a controller at every step: it tracks finitely many workloads, each of which
/// refers to at least one image, and only images of its registry; what is left to do is there to
/// be done; and the images that are left to look up are the last ones of those that no workload
/// referred to before.
pub open spec fn sound(c: ControllerView) -> bool {
    &&& c.index.dom().finite()
    &&& forall|r: ObjectKeyView| #[trigger]
        c.index.contains_key(r) ==> {
            &&& trackable(c.index[r], c.config.registry_host)
            &&& c.index[r] != Set::<Seq<char>>::empty()
        }
    &&& match c.task {
        TaskView::LookingUp { images, pending, .. } => {
            &&& trackable(images.to_set(), c.config.registry_host)
            &&& pending.len() > 0
            &&& pending.is_suffix_of(in_order::<String>(unseen(c.index, images.to_set())))
        },
        TaskView::Creating { images, pending, .. } => {
            &&& trackable(images.to_set(), c.config.registry_host)
            &&& pending.len() > 0
            &&& pending.is_suffix_of(in_order::<String>(unseen(c.index, images.to_set())))
        },
        TaskView::Listing { affected } => affected.len() > 0,
        _ => true,
    }
}

proof fn lemma_managed_is_trackable(refs: Seq<ResourceImageRefView>, host: Seq<char>)
    ensures
        trackable(managed_images(refs, host), host),
{
    let all = refs.map_values(|r: ResourceImageRefView| r.image);
    assert forall|image: Seq<char>| managed_images(refs, host).contains(image) implies #[trigger]
    all.to_set().contains(image) by {
        let i = choose|i: int| 0 <= i < refs.len() && (#[trigger] refs[i]).image == image;
        assert(all[i] == image);
    }
    vstd::seq_lib::seq_to_set_is_finite(all);
    vstd::set_lib::lemma_set_subset_finite(all.to_set(), managed_images(refs, host));
}

proof fn lemma_ensuring_is_sound(
    c: ControllerView,
    resource: ObjectKeyView,
    images: Seq<Seq<char>>,
    pending: Seq<Seq<char>>,
)
    requires
        sound(c),
        trackable(images.to_set(), c.config.registry_host),
        pending.is_suffix_of(in_order::<String>(unseen(c.index, images.to_set()))),
    ensures
        sound(ensuring(c, resource, images, pending).0),
{
}

/// A controller that has heard of nothing yet is sound.
pub proof fn controller_starts_sound(config: ControllerConfigView)
    ensures
        sound(ControllerView { config, index: Map::empty(), task: TaskView::Idle }),
{
}

/// A sound controller stays sound, whatever happens: in particular it never tracks an image of
/// another registry.
pub proof fn controller_stays_sound(c: ControllerView, event: ControllerEventView)
    requires
        sound(c),
    ensures
        sound(stepped(c, event).0),
        stepped(c, event).0.config == c.config,
{
    match c.task {
        TaskView::Idle => {
            if let ControllerEventView::Update(
                ReferenceUpdateView::Upsert { resource, images },
            ) = event {
                let managed = managed_images(images, c.config.registry_host);
                lemma_managed_is_trackable(images, c.config.registry_host);
                finite_set_in_order::<String>(managed);
                lemma_ensuring_is_sound(
                    c,
                    resource,
                    in_order::<String>(managed),
                    in_order::<String>(unseen(c.index, managed)),
                );
            }
        },
        TaskView::LookingUp { resource, images, pending } => {
            lemma_ensuring_is_sound(c, resource, images, pending.skip(1));
        },
        TaskView::Creating { resource, images, pending } => {
            lemma_ensuring_is_sound(c, resource, images, pending.skip(1));
        },
        _ => {},
    }
}

/// A sound controller reconciles an image with exactly the objects that refer to it, each once
/// and in order.
pub proof fn images_meet_their_holders(c: ControllerView, image: Seq<char>)
    requires
        sound(c),
    ensures
        references_in_order(c.index, image).to_set() == holders(c.index, image),
        increasing::<ObjectKey>(references_in_order(c.index, image)),
        references_in_order(c.index, image).len() == 0 <==> holders(c.index, image) == Set::<
            ObjectKeyView,
        >::empty(),
{
    vstd::set_lib::lemma_set_subset_finite(c.index.dom(), holders(c.index, image));
    finite_set_in_order::<ObjectKey>(holders(c.index, image));
    let references = references_in_order(c.index, image);
    if references.len() == 0 {
        assert(references.to_set() =~= Set::<ObjectKeyView>::empty());
    } else {
        assert(references.to_set().contains(references[0]));
    }
}

/// When a workload comes to refer to other images, every image whose holders change is visited.
pub proof fn changed_images_are_visited(
    c: ControllerView,
    resource: ObjectKeyView,
    images: Seq<Seq<char>>,
    image: Seq<char>,
)
    requires
        sound(c),
        trackable(images.to_set(), c.config.registry_host),
        holders(retargeted(c.index, resource, images.to_set()), image) != holders(c.index, image),
    ensures
        ensuring(c, resource, images, Seq::empty()).0.task matches TaskView::Listing { affected }
            && affected.contains(image),
{
    let touched = images_of(c.index, resource).union(images.to_set());
    if !touched.contains(image) {
        untouched_images_keep_their_holders(c.index, resource, images.to_set(), image);
    }
    finite_set_in_order::<String>(touched);
    lemma_to_set_contains(in_order::<String>(touched), image);
}

/// When a workload goes, every image that it referred to is visited.
pub proof fn lost_images_are_visited(
    c: ControllerView,
    resource: ObjectKeyView,
    image: Seq<char>,
)
    requires
        sound(c),
        c.task is Idle,
        images_of(c.index, resource).contains(image),
    ensures
        stepped(
            c,
            ControllerEventView::Update(ReferenceUpdateView::Delete(resource)),
        ).0.task matches TaskView::Listing { affected } && affected.contains(image),
{
    finite_set_in_order::<String>(c.index[resource]);
    lemma_to_set_contains(in_order::<String>(c.index[resource]), image);
}

/// An image whose only holder goes has no references left to be reconciled with.
pub proof fn last_holder_leaves_nothing(
    index: Map<ObjectKeyView, Set<Seq<char>>>,
    resource: ObjectKeyView,
    image: Seq<char>,
)
    requires
        holders(index, image) == set![resource],
    ensures
        references_in_order(index.remove(resource), image).len() == 0,
{
    let none = Seq::<ObjectKeyView>::empty();
    assert forall|r: ObjectKeyView| !holders(index.remove(resource), image).contains(r) by {
        if r != resource {
            assert(!holders(index, image).contains(r));
        }
    }
    assert(holders(index.remove(resource), image) =~= none.to_set());
    assert(increasing::<ObjectKey>(none));
    increasing_is_in_order::<ObjectKey>(none);
}

/// Whether `event` is what the task of a controller waits for.
pub open spec fn answers(task: TaskView, event: ControllerEventView) -> bool {
    match task {
        TaskView::LookingUp { .. } => event is LookedUp,
        TaskView::Creating { .. } => event is Created,
        TaskView::Listing { .. } => event is Listed,
        TaskView::Reconciling { .. } => event is Reconciled,
        _ => false,
    }
}

/// A bound on the answers that a controller still needs before it is idle or stopped.
pub open spec fn answers_needed(c: ControllerView) -> nat {
    match c.task {
        TaskView::LookingUp { resource, images, pending } => 2 * pending.len() + 2
            * in_order::<String>(images_of(c.index, resource).union(images.to_set())).len(),
        TaskView::Creating { resource, images, pending } => (2 * pending.len() - 1 + 2
            * in_order::<String>(images_of(c.index, resource).union(images.to_set())).len()) as nat,
        TaskView::Listing { affected } => 2 * affected.len(),
        TaskView::Reconciling { affected } => 2 * affected.len() + 1,
        _ => 0,
    }
}

/// Every answer brings a busy controller closer to being idle or stopped.
pub proof fn every_answer_advances(c: ControllerView, event: ControllerEventView)
    requires
        sound(c),
        answers(c.task, event),
    ensures
        answers_needed(stepped(c, event).0) < answers_needed(c),
{
}

/// A controller that waits for a change has nothing left to do, and one that is busy asks for
/// something.
pub proof fn only_idle_controllers_wait(c: ControllerView, event: ControllerEventView)
    requires
        answers(c.task, event),
    ensures
        stepped(c, event).1 == ControllerActionView::Wait <==> stepped(c, event).0.task is Idle,
{
}

/// The controller with `config` after these events.
pub open spec fn after_events(
    config: ControllerConfigView,
    events: Seq<ControllerEventView>,
) -> ControllerView
    decreases events.len(),
{
    if events.len() == 0 {
        ControllerView { config, index: Map::empty(), task: TaskView::Idle }
    } else {
        stepped(after_events(config, events.drop_last()), events.last()).0
    }
}

/// What the controller with `config` asks for on the last of these events.
pub open spec fn last_action(
    config: ControllerConfigView,
    events: Seq<ControllerEventView>,
) -> ControllerActionView {
    stepped(after_events(config, events.drop_last()), events.last()).1
}

/// The updates among these events that the controller with `config` took up: those that came
/// while it was idle.
pub open spec fn updates_taken(
    config: ControllerConfigView,
    events: Seq<ControllerEventView>,
) -> Seq<ReferenceUpdateView>
    decreases events.len(),
{
    if events.len() == 0 {
        Seq::empty()
    } else {
        let before = updates_taken(config, events.drop_last());
        match events.last() {
            ControllerEventView::Update(update) => if after_events(
                config,
                events.drop_last(),
            ).task is Idle {
                before.push(update)
            } else {
                before
            },
            _ => before,
        }
    }
}

/// The images of the registry `host` that `resource` refers to by its latest update.
pub open spec fn latest_images(
    updates: Seq<ReferenceUpdateView>,
    resource: ObjectKeyView,
    host: Seq<char>,
) -> Set<Seq<char>>
    decreases updates.len(),
{
    if updates.len() == 0 {
        Set::empty()
    } else {
        let before = latest_images(updates.drop_last(), resource, host);
        match updates.last() {
            ReferenceUpdateView::Upsert { resource: r, images } => if r == resource {
                managed_images(images, host)
            } else {
                before
            },
            ReferenceUpdateView::Delete(r) => if r == resource {
                Set::empty()
            } else {
                before
            },
        }
    }
}

/// The objects that refer to `image` by their latest updates.
pub open spec fn latest_holders(
    updates: Seq<ReferenceUpdateView>,
    image: Seq<char>,
    host: Seq<char>,
) -> Set<ObjectKeyView> {
    Set::new(|r: ObjectKeyView| latest_images(updates, r, host).contains(image))
}

/// Whether an index tracks for each object what its latest update says.
pub open spec fn up_to_date(
    index: Map<ObjectKeyView, Set<Seq<char>>>,
    updates: Seq<ReferenceUpdateView>,
    host: Seq<char>,
) -> bool {
    forall|r: ObjectKeyView| #[trigger] images_of(index, r) == latest_images(updates, r, host)
}

/// Whether a controller is up to date with the updates it took up, or has yet to carry out the
/// last one, or has stopped.
spec fn keeps_up(c: ControllerView, updates: Seq<ReferenceUpdateView>) -> bool {
    let host = c.config.registry_host;
    match c.task {
        TaskView::LookingUp { resource, images, .. } => carries_out(
            c,
            updates,
            resource,
            images.to_set(),
        ),
        TaskView::Creating { resource, images, .. } => carries_out(
            c,
            updates,
            resource,
            images.to_set(),
        ),
        TaskView::Stopped => true,
        _ => up_to_date(c.index, updates, host),
    }
}

spec fn carries_out(
    c: ControllerView,
    updates: Seq<ReferenceUpdateView>,
    resource: ObjectKeyView,
    images: Set<Seq<char>>,
) -> bool {
    let host = c.config.registry_host;
    &&& updates.len() > 0
    &&& up_to_date(c.index, updates.drop_last(), host)
    &&& updates.last() matches ReferenceUpdateView::Upsert { resource: r, images: refs } && r
        == resource && managed_images(refs, host) == images
}

proof fn lemma_upsert_is_up_to_date(
    index: Map<ObjectKeyView, Set<Seq<char>>>,
    updates: Seq<ReferenceUpdateView>,
    resource: ObjectKeyView,
    refs: Seq<ResourceImageRefView>,
    host: Seq<char>,
)
    requires
        updates.len() > 0,
        up_to_date(index, updates.drop_last(), host),
        updates.last() == (ReferenceUpdateView::Upsert { resource, images: refs }),
    ensures
        up_to_date(retargeted(index, resource, managed_images(refs, host)), updates, host),
{
    let after = retargeted(index, resource, managed_images(refs, host));
    assert forall|r: ObjectKeyView| #[trigger] images_of(after, r) == latest_images(
        updates,
        r,
        host,
    ) by {
        retargeted_object_refers_to_its_images(index, resource, managed_images(refs, host), r);
        assert(images_of(index, r) == latest_images(updates.drop_last(), r, host));
    }
}

proof fn lemma_delete_is_up_to_date(
    index: Map<ObjectKeyView, Set<Seq<char>>>,
    updates: Seq<ReferenceUpdateView>,
    resource: ObjectKeyView,
    host: Seq<char>,
)
    requires
        updates.len() > 0,
        up_to_date(index, updates.drop_last(), host),
        updates.last() == ReferenceUpdateView::Delete(resource),
    ensures
        up_to_date(index.remove(resource), updates, host),
{
    let after = index.remove(resource);
    assert forall|r: ObjectKeyView| #[trigger] images_of(after, r) == latest_images(
        updates,
        r,
        host,
    ) by {
        assert(images_of(index, r) == latest_images(updates.drop_last(), r, host));
    }
}

proof fn lemma_ensuring_keeps_up(
    c: ControllerView,
    updates: Seq<ReferenceUpdateView>,
    resource: ObjectKeyView,
    images: Seq<Seq<char>>,
    pending: Seq<Seq<char>>,
)
    requires
        carries_out(c, updates, resource, images.to_set()),
    ensures
        keeps_up(ensuring(c, resource, images, pending).0, updates),
{
    if let ReferenceUpdateView::Upsert { resource: r, images: refs } = updates.last() {
        lemma_upsert_is_up_to_date(c.index, updates, r, refs, c.config.registry_host);
    }
}

proof fn lemma_history(config: ControllerConfigView, events: Seq<ControllerEventView>)
    ensures
        sound(after_events(config, events)),
        after_events(config, events).config == config,
        keeps_up(after_events(config, events), updates_taken(config, events)),
    decreases events.len(),
{
    if events.len() == 0 {
        controller_starts_sound(config);
    } else {
        let c = after_events(config, events.drop_last());
        let event = events.last();
        let host = config.registry_host;
        let updates = updates_taken(config, events);
        lemma_history(config, events.drop_last());
        controller_stays_sound(c, event);
        match c.task {
            TaskView::Idle => {
                if let ControllerEventView::Update(update) = event {
                    assert(updates.drop_last() =~= updates_taken(config, events.drop_last()));
                    match update {
                        ReferenceUpdateView::Upsert { resource, images } => {
                            let managed = managed_images(images, host);
                            lemma_managed_is_trackable(images, host);
                            finite_set_in_order::<String>(managed);
                            lemma_ensuring_keeps_up(
                                c,
                                updates,
                                resource,
                                in_order::<String>(managed),
                                in_order::<String>(unseen(c.index, managed)),
                            );
                        },
                        ReferenceUpdateView::Delete(resource) => {
                            lemma_delete_is_up_to_date(c.index, updates, resource, host);
                            if !c.index.contains_key(resource) {
                                assert(c.index.remove(resource) =~= c.index);
                            }
                        },
                    }
                }
            },
            TaskView::LookingUp { resource, images, pending } => {
                lemma_ensuring_keeps_up(c, updates, resource, images, pending.skip(1));
            },
            TaskView::Creating { resource, images, pending } => {
                lemma_ensuring_keeps_up(c, updates, resource, images, pending.skip(1));
            },
            _ => {},
        }
    }
}

/// After any events, every image that is reconciled is reconciled with exactly the objects that
/// refer to it by their latest updates, each once and in order.
pub proof fn references_are_those_of_the_latest_updates(
    config: ControllerConfigView,
    events: Seq<ControllerEventView>,
    k: int,
)
    requires
        events.len() > 0,
    ensures
        match last_action(config, events) {
            ControllerActionView::Reconcile { images, references } => 0 <= k < images.len() ==> {
                &&& references.to_set() == latest_holders(
                    updates_taken(config, events),
                    images[k].image,
                    config.registry_host,
                )
                &&& increasing::<ObjectKey>(references)
            },
            _ => true,
        },
{
    let before = after_events(config, events.drop_last());
    let c = after_events(config, events);
    let updates = updates_taken(config, events);
    lemma_history(config, events);
    lemma_history(config, events.drop_last());
    if let ControllerActionView::Reconcile { images, references } = last_action(config, events) {
        if 0 <= k < images.len() {
            let image = images[k].image;
            if let TaskView::Listing { affected } = before.task {
                if let ControllerEventView::Listed(Some(list)) = events.last() {
                    let keep = |i: ImageView| i.image == affected[0];
                    assert(images.contains(images[k]));
                    lemma_filter_members(list, keep, images[k]);
                }
            }
            assert(c.index == before.index);
            assert(references == references_in_order(c.index, image));
            images_meet_their_holders(c, image);
            assert forall|r: ObjectKeyView| holders(c.index, image).contains(r) <==> latest_holders(
                updates,
                image,
                config.registry_host,
            ).contains(r) by {
                both_directions_agree(c.index, r, image);
                assert(images_of(c.index, r) == latest_images(updates, r, config.registry_host));
            }
            assert(holders(c.index, image) =~= latest_holders(
                updates,
                image,
                config.registry_host,
            ));
        }
    }
}

/// After any events, a controller that waits for a change tracks for each object the images of its
/// latest update that live on the registry.
pub proof fn idle_controllers_are_up_to_date(
    config: ControllerConfigView,
    events: Seq<ControllerEventView>,
)
    requires
        after_events(config, events).task is Idle,
    ensures
        up_to_date(
            after_events(config, events).index,
            updates_taken(config, events),
            config.registry_host,
        ),
{
    lemma_history(config, events);
}

/// Finding the images of a reference goes through the list in order and keeps every image with
/// that reference and no other.
pub proof fn images_are_found_by_their_reference(
    list: Seq<ImageView>,
    last: ImageView,
    image_ref: Seq<char>,
)
    ensures
        matching_images(Seq::empty(), image_ref) == Seq::<ImageView>::empty(),
        last.image == image_ref ==> matching_images(list.push(last), image_ref) == matching_images(
            list,
            image_ref,
        ).push(last),
        last.image != image_ref ==> matching_images(list.push(last), image_ref) == matching_images(
            list,
            image_ref,
        ),
{
    let keep = |i: ImageView| i.image == image_ref;
    list.lemma_filter_push(last, keep);
    reveal(Seq::filter);
    assert(matching_images(Seq::empty(), image_ref) =~= Seq::<ImageView>::empty());
}

/// The controller after it went from `c` through these events.
pub open spec fn run(c: ControllerView, events: Seq<ControllerEventView>) -> ControllerView
    decreases events.len(),
{
    if events.len() == 0 {
        c
    } else {
        stepped(run(c, events.drop_last()), events.last()).0
    }
}

/// What the controller asks for on the last of these events, after it went from `c` through the
/// others.
pub open spec fn asked(
    c: ControllerView,
    events: Seq<ControllerEventView>,
) -> ControllerActionView {
    stepped(run(c, events.drop_last()), events.last()).1
}

proof fn lemma_run_push(
    c: ControllerView,
    events: Seq<ControllerEventView>,
    event: ControllerEventView,
)
    ensures
        run(c, events.push(event)) == stepped(run(c, events), event).0,
        asked(c, events.push(event)) == stepped(run(c, events), event).1,
{
    assert(events.push(event).drop_last() =~= events);
}

/// The answers to lookups in turn, of which some found a resource and the others did not, so that
/// it was created.
pub open spec fn lookup_answers(found: Seq<bool>) -> Seq<ControllerEventView>
    decreases found.len(),
{
    if found.len() == 0 {
        Seq::empty()
    } else {
        let before = lookup_answers(found.drop_last());
        if found.last() {
            before.push(ControllerEventView::LookedUp(Lookup::Found))
        } else {
            before.push(ControllerEventView::LookedUp(Lookup::Absent)).push(
                ControllerEventView::Created,
            )
        }
    }
}

/// A resource that was found, or was not found and then created, takes exactly its image off those
/// that are left to look up, and the next one is looked up; only the last one lets the workload be
/// tracked with its images. A resource that was not found is created, under the name that it was
/// looked up by.
pub proof fn an_answer_takes_one_image_off(
    c: ControllerView,
    resource: ObjectKeyView,
    images: Seq<Seq<char>>,
    pending: Seq<Seq<char>>,
)
    requires
        pending.len() > 0,
    ensures
        ({
            let looking = ControllerView {
                task: TaskView::LookingUp { resource, images, pending },
                ..c
            };
            let creating = ControllerView {
                task: TaskView::Creating { resource, images, pending },
                ..c
            };
            let found = stepped(looking, ControllerEventView::LookedUp(Lookup::Found));
            let absent = stepped(looking, ControllerEventView::LookedUp(Lookup::Absent));
            let failed = stepped(looking, ControllerEventView::LookedUp(Lookup::Failed));
            let created = stepped(creating, ControllerEventView::Created);
            &&& found == created
            &&& pending.len() > 1 ==> {
                &&& found.0.task == TaskView::LookingUp {
                    resource,
                    images,
                    pending: pending.subrange(1, pending.len() as int),
                }
                &&& found.0.index == c.index
                &&& found.1 == ControllerActionView::LookUp {
                    namespace: c.config.namespace,
                    name: image_name(pending[1], reference_hash(pending[1])),
                }
            }
            &&& pending.len() == 1 ==> {
                &&& found.0.index == retargeted(c.index, resource, images.to_set())
                &&& found.0.task is Listing || found.0.task is Idle
            }
            &&& absent.0 == creating
            &&& absent.1 == ControllerActionView::Create {
                namespace: c.config.namespace,
                name: image_name(pending[0], reference_hash(pending[0])),
                image: pending[0],
            }
            &&& failed.0 == ControllerView { task: TaskView::Stopped, ..c }
            &&& failed.1 == ControllerActionView::Fail
        }),
{
    assert(pending.skip(1) =~= pending.subrange(1, pending.len() as int));
}

proof fn lemma_lookups_in_turn(
    c: ControllerView,
    resource: ObjectKeyView,
    images: Seq<Seq<char>>,
    all: Seq<Seq<char>>,
    found: Seq<bool>,
)
    requires
        found.len() <= all.len(),
    ensures
        run(ensuring(c, resource, images, all).0, lookup_answers(found)) == ensuring(
            c,
            resource,
            images,
            all.skip(found.len() as int),
        ).0,
        found.len() > 0 ==> asked(ensuring(c, resource, images, all).0, lookup_answers(found))
            == ensuring(c, resource, images, all.skip(found.len() as int)).1,
    decreases found.len(),
{
    let start = ensuring(c, resource, images, all).0;
    let n = found.len() as int;
    if n == 0 {
        assert(all.skip(0) =~= all);
    } else {
        let before = lookup_answers(found.drop_last());
        lemma_lookups_in_turn(c, resource, images, all, found.drop_last());
        let pending = all.skip(n - 1);
        assert(pending.skip(1) =~= all.skip(n));
        let absent = ControllerEventView::LookedUp(Lookup::Absent);
        lemma_run_push(start, before, ControllerEventView::LookedUp(Lookup::Found));
        lemma_run_push(start, before, absent);
        lemma_run_push(start, before.push(absent), ControllerEventView::Created);
    }
}

/// When a workload comes to refer to images of the registry that no workload referred to, every
/// one of them is looked up before the workload is tracked with any, whatever the lookups before
/// found: the image at position `k` of those, in order, in turn `k`. It is created where it is
/// absent.
pub proof fn new_images_are_looked_up_in_turn(
    c: ControllerView,
    resource: ObjectKeyView,
    refs: Seq<ResourceImageRefView>,
    found: Seq<bool>,
    k: int,
)
    requires
        sound(c),
        c.task is Idle,
        0 <= k < in_order::<String>(
            unseen(c.index, managed_images(refs, c.config.registry_host)),
        ).len(),
        found.len() == k,
    ensures
        ({
            let managed = managed_images(refs, c.config.registry_host);
            let image = in_order::<String>(unseen(c.index, managed))[k];
            let update = ControllerEventView::Update(
                ReferenceUpdateView::Upsert { resource, images: refs },
            );
            let (taken, first) = stepped(c, update);
            let answers = lookup_answers(found);
            let asks = if k == 0 {
                first
            } else {
                asked(taken, answers)
            };
            let name = image_name(image, reference_hash(image));
            &&& asks == ControllerActionView::LookUp { namespace: c.config.namespace, name }
            &&& asked(taken, answers.push(ControllerEventView::LookedUp(Lookup::Absent)))
                == ControllerActionView::Create { namespace: c.config.namespace, name, image }
            &&& run(taken, answers).index == c.index
        }),
{
    let managed = managed_images(refs, c.config.registry_host);
    let all = in_order::<String>(unseen(c.index, managed));
    let images = in_order::<String>(managed);
    let update = ControllerEventView::Update(
        ReferenceUpdateView::Upsert { resource, images: refs },
    );
    let taken = stepped(c, update).0;
    assert(taken == ensuring(c, resource, images, all).0);
    lemma_lookups_in_turn(c, resource, images, all, found);
    assert(all.skip(k)[0] == all[k]);
    lemma_run_push(
        taken,
        lookup_answers(found),
        ControllerEventView::LookedUp(Lookup::Absent),
    );
}

/// Every image of the registry that a workload comes to refer to, and that no workload referred
/// to, has its turn to be looked up, and only one.
pub proof fn every_new_image_has_its_turn(
    c: ControllerView,
    refs: Seq<ResourceImageRefView>,
    i: int,
) -> (k: int)
    requires
        sound(c),
        0 <= i < refs.len(),
        image_host(refs[i].image) == Some(c.config.registry_host),
        forall|r: ObjectKeyView| #[trigger]
            c.index.contains_key(r) ==> !c.index[r].contains(refs[i].image),
    ensures
        ({
            let all = in_order::<String>(
                unseen(c.index, managed_images(refs, c.config.registry_host)),
            );
            &&& 0 <= k < all.len()
            &&& all[k] == refs[i].image
            &&& forall|j: int| 0 <= j < all.len() && j != k ==> #[trigger] all[j] != refs[i].image
        }),
{
    let image = refs[i].image;
    let managed = managed_images(refs, c.config.registry_host);
    let new = unseen(c.index, managed);
    let all = in_order::<String>(new);
    managed_images_live_on_the_registry(refs, c.config.registry_host, image);
    unseen_images_have_no_holder(c.index, managed, image);
    lemma_managed_is_trackable(refs, c.config.registry_host);
    vstd::set_lib::lemma_set_subset_finite(managed, new);
    finite_set_in_order::<String>(new);
    lemma_to_set_contains(all, image);
    lemma_increasing_distinct::<String>(all);
    let k = choose|k: int| 0 <= k < all.len() && all[k] == image;
    k
}

/// Once the last new image was found or created, the workload is tracked with its images, and the
/// images that it referred to before or refers to now are visited, all of them and no others.
pub proof fn an_update_is_tracked_and_visited(
    c: ControllerView,
    resource: ObjectKeyView,
    refs: Seq<ResourceImageRefView>,
    found: Seq<bool>,
)
    requires
        sound(c),
        c.task is Idle,
        found.len() == in_order::<String>(
            unseen(c.index, managed_images(refs, c.config.registry_host)),
        ).len(),
    ensures
        ({
            let managed = managed_images(refs, c.config.registry_host);
            let before = images_of(c.index, resource);
            let update = ControllerEventView::Update(
                ReferenceUpdateView::Upsert { resource, images: refs },
            );
            let (taken, first) = stepped(c, update);
            let after = run(taken, lookup_answers(found));
            let asks = if found.len() == 0 {
                first
            } else {
                asked(taken, lookup_answers(found))
            };
            &&& after.config == c.config
            &&& images_of(after.index, resource) == managed
            &&& forall|other: ObjectKeyView|
                other != resource ==> #[trigger] images_of(after.index, other) == images_of(
                    c.index,
                    other,
                )
            &&& match after.task {
                TaskView::Listing { affected } => {
                    &&& asks == ControllerActionView::List
                    &&& increasing::<String>(affected)
                    &&& forall|x: Seq<char>|
                        affected.contains(x) <==> before.contains(x) || managed.contains(x)
                },
                TaskView::Idle => {
                    &&& asks == ControllerActionView::Wait
                    &&& forall|x: Seq<char>| !before.contains(x) && !managed.contains(x)
                },
                _ => false,
            }
        }),
{
    let host = c.config.registry_host;
    let managed = managed_images(refs, host);
    let all = in_order::<String>(unseen(c.index, managed));
    let images = in_order::<String>(managed);
    let before = images_of(c.index, resource);
    lemma_managed_is_trackable(refs, host);
    finite_set_in_order::<String>(managed);
    let touched = before.union(managed);
    finite_set_in_order::<String>(touched);
    let affected = in_order::<String>(touched);
    lemma_lookups_in_turn(c, resource, images, all, found);
    assert(all.skip(found.len() as int).len() == 0);
    assert forall|other: ObjectKeyView| other != resource implies #[trigger] images_of(
        retargeted(c.index, resource, managed),
        other,
    ) == images_of(c.index, other) by {
        retargeted_object_refers_to_its_images(c.index, resource, managed, other);
    }
    retargeted_object_refers_to_its_images(c.index, resource, managed, resource);
    assert forall|x: Seq<char>| affected.contains(x) <==> before.contains(x) || managed.contains(x) by {
        lemma_to_set_contains(affected, x);
    }
    if affected.len() == 0 {
        assert forall|x: Seq<char>| !before.contains(x) && !managed.contains(x) by {
            assert(!affected.contains(x));
        }
    }
}

/// When a tracked workload goes, it is tracked no longer, and the images that it referred to are
/// visited, all of them and no others. The end of one that is not tracked changes nothing.
pub proof fn a_deletion_is_tracked_and_visited(c: ControllerView, resource: ObjectKeyView)
    requires
        sound(c),
        c.task is Idle,
    ensures
        ({
            let (after, asks) = stepped(
                c,
                ControllerEventView::Update(ReferenceUpdateView::Delete(resource)),
            );
            &&& !after.index.contains_key(resource)
            &&& forall|other: ObjectKeyView|
                other != resource ==> #[trigger] images_of(after.index, other) == images_of(
                    c.index,
                    other,
                )
            &&& after.config == c.config
            &&& c.index.contains_key(resource) ==> asks == ControllerActionView::List && (
            after.task matches TaskView::Listing { affected } && increasing::<String>(affected)
                && forall|x: Seq<char>| affected.contains(x) <==> c.index[resource].contains(x))
            &&& !c.index.contains_key(resource) ==> after == c && asks
                == ControllerActionView::Wait
        }),
{
    if c.index.contains_key(resource) {
        let images = c.index[resource];
        finite_set_in_order::<String>(images);
        let affected = in_order::<String>(images);
        assert forall|x: Seq<char>| affected.contains(x) <==> images.contains(x) by {
            lemma_to_set_contains(affected, x);
        }
        if affected.len() == 0 {
            assert(affected.to_set() =~= Set::<Seq<char>>::empty());
        }
    }
}

/// Whether a list of resources holds one for `image_ref`.
pub open spec fn lists(list: Seq<ImageView>, image_ref: Seq<char>) -> bool {
    exists|i: int| 0 <= i < list.len() && (#[trigger] list[i]).image == image_ref
}

/// The answers to the visits of the images in `affected` in turn, given the list of resources at
/// each visit: where there are resources for the image, they are reconciled.
pub open spec fn visit_answers(
    affected: Seq<Seq<char>>,
    seen: Seq<Seq<ImageView>>,
) -> Seq<ControllerEventView>
    decreases seen.len(),
{
    if seen.len() == 0 {
        Seq::empty()
    } else {
        let before = visit_answers(affected, seen.drop_last());
        let listed = before.push(ControllerEventView::Listed(Some(seen.last())));
        if lists(seen.last(), affected[seen.len() - 1]) {
            listed.push(ControllerEventView::Reconciled)
        } else {
            listed
        }
    }
}

proof fn lemma_lists_what_matches(list: Seq<ImageView>, image_ref: Seq<char>)
    ensures
        lists(list, image_ref) <==> matching_images(list, image_ref).len() > 0,
        forall|x: ImageView| #[trigger]
            matching_images(list, image_ref).contains(x) <==> list.contains(x) && x.image
                == image_ref,
{
    let keep = |i: ImageView| i.image == image_ref;
    let found = matching_images(list, image_ref);
    assert forall|x: ImageView| #[trigger] found.contains(x) <==> list.contains(x) && x.image
        == image_ref by {
        lemma_filter_members(list, keep, x);
    }
    if lists(list, image_ref) {
        let i = choose|i: int| 0 <= i < list.len() && (#[trigger] list[i]).image == image_ref;
        assert(list.contains(list[i]));
        assert(found.contains(list[i]));
    }
    if found.len() > 0 {
        assert(found.contains(found[0]));
        let i = choose|i: int| 0 <= i < list.len() && list[i] == found[0];
        assert(list[i].image == image_ref);
    }
}

proof fn lemma_visits_in_turn(
    c: ControllerView,
    affected: Seq<Seq<char>>,
    seen: Seq<Seq<ImageView>>,
)
    requires
        seen.len() <= affected.len(),
    ensures
        run(visiting(c, affected).0, visit_answers(affected, seen)) == visiting(
            c,
            affected.skip(seen.len() as int),
        ).0,
        seen.len() > 0 ==> asked(visiting(c, affected).0, visit_answers(affected, seen))
            == visiting(c, affected.skip(seen.len() as int)).1,
    decreases seen.len(),
{
    let start = visiting(c, affected).0;
    let n = seen.len() as int;
    if n == 0 {
        assert(affected.skip(0) =~= affected);
    } else {
        let before = visit_answers(affected, seen.drop_last());
        lemma_visits_in_turn(c, affected, seen.drop_last());
        let rest = affected.skip(n - 1);
        assert(rest.skip(1) =~= affected.skip(n));
        assert(rest[0] == affected[n - 1]);
        let listed = ControllerEventView::Listed(Some(seen.last()));
        lemma_lists_what_matches(seen.last(), affected[n - 1]);
        lemma_run_push(start, before, listed);
        lemma_run_push(start, before.push(listed), ControllerEventView::Reconciled);
    }
}

/// Every image that is to be visited has its turn: the resources are listed, and all those for the
/// image, and no others, are reconciled with exactly the objects that refer to it. Where there
/// are none, or once they are reconciled, the next image follows, and after the last one the
/// controller is idle; what it tracks stays as it is.
pub proof fn images_are_visited_in_turn(
    c: ControllerView,
    affected: Seq<Seq<char>>,
    seen: Seq<Seq<ImageView>>,
    k: int,
    list: Seq<ImageView>,
)
    requires
        sound(c),
        c.task == (TaskView::Listing { affected }),
        0 <= k < affected.len(),
        seen.len() == affected.len(),
    ensures
        ({
            let before = visit_answers(affected, seen.take(k));
            let image = affected[k];
            let asks = asked(c, before.push(ControllerEventView::Listed(Some(list))));
            &&& k > 0 ==> asked(c, before) == ControllerActionView::List
            &&& lists(list, image) ==> (asks matches ControllerActionView::Reconcile {
                images,
                references,
            } && {
                &&& forall|x: ImageView|
                    images.contains(x) <==> list.contains(x) && x.image == image
                &&& references.to_set() == holders(c.index, image)
                &&& increasing::<ObjectKey>(references)
            })
            &&& !lists(list, image) ==> asks == if k + 1 < affected.len() {
                ControllerActionView::List
            } else {
                ControllerActionView::Wait
            }
            &&& run(c, visit_answers(affected, seen)) == ControllerView {
                task: TaskView::Idle,
                ..c
            }
            &&& asked(c, visit_answers(affected, seen)) == ControllerActionView::Wait
        }),
{
    assert(visiting(c, affected).0 == c);
    let before = visit_answers(affected, seen.take(k));
    lemma_visits_in_turn(c, affected, seen.take(k));
    lemma_visits_in_turn(c, affected, seen);
    assert(affected.skip(affected.len() as int).len() == 0);
    let rest = affected.skip(k);
    assert(rest[0] == affected[k]);
    assert(rest.skip(1).len() == affected.len() - k - 1);
    lemma_lists_what_matches(list, affected[k]);
    lemma_run_push(c, before, ControllerEventView::Listed(Some(list)));
    images_meet_their_holders(c, affected[k]);
    let asks = asked(c, before.push(ControllerEventView::Listed(Some(list))));
    if let ControllerActionView::Reconcile { images, references } = asks {
        assert forall|x: ImageView| images.contains(x) <==> list.contains(x) && x.image
            == affected[k] by {
            assert(matching_images(list, affected[k]).contains(x) <==> list.contains(x) && x.image
                == affected[k]);
        }
    }
}

/// A resource that is listed, added or modified is reconciled, alone, with exactly the objects that
/// refer to its image, and then the controller is idle again, tracking what it did.
pub proof fn a_changed_resource_is_reconciled(c: ControllerView, image: ImageView, listed: bool)
    requires
        sound(c),
        c.task is Idle,
    ensures
        ({
            let event = if listed {
                WatchEvent::InitApply(image)
            } else {
                WatchEvent::Apply(image)
            };
            let (busy, asks) = stepped(c, ControllerEventView::Item(StreamItem::Event(event)));
            &&& asks matches ControllerActionView::Reconcile { images, references } && {
                &&& images.len() == 1
                &&& images[0] == image
                &&& references.to_set() == holders(c.index, image.image)
                &&& increasing::<ObjectKey>(references)
            }
            &&& stepped(busy, ControllerEventView::Reconciled) == (c, ControllerActionView::Wait)
        }),
{
    images_meet_their_holders(c, image.image);
}

/// An idle controller stops when it is told to, or when the watch ends, and passes over all else
/// that is no update, and no resource that was listed, added or modified.
pub proof fn an_idle_controller_waits_or_stops(c: ControllerView, image: ImageView)
    requires
        c.task is Idle,
    ensures
        ({
            let stopped = (
                ControllerView { task: TaskView::Stopped, ..c },
                ControllerActionView::Stop,
            );
            let same = (c, ControllerActionView::Wait);
            &&& stepped(c, ControllerEventView::Cancelled) == stopped
            &&& stepped(c, ControllerEventView::Item(StreamItem::Ended)) == stopped
            &&& stepped(c, ControllerEventView::Item(StreamItem::Failed)) == same
            &&& stepped(
                c,
                ControllerEventView::Item(StreamItem::Event(WatchEvent::Delete(image))),
            ) == same
            &&& stepped(c, ControllerEventView::Item(StreamItem::Event(WatchEvent::Init)))
                == same
            &&& stepped(c, ControllerEventView::Item(StreamItem::Event(WatchEvent::InitDone)))
                == same
        }),
{
}

/// A list that could not be had ends the controller with a failure, without a change of what it
/// tracks; a stopped controller stays stopped; and a busy one passes over what it does not wait
/// for.
pub proof fn a_busy_controller_waits_for_its_answer(c: ControllerView, event: ControllerEventView)
    ensures
        c.task is Listing ==> stepped(c, ControllerEventView::Listed(None)) == (
            ControllerView { task: TaskView::Stopped, ..c },
            ControllerActionView::Fail,
        ),
        c.task is Stopped ==> stepped(c, event) == (c, ControllerActionView::Stop),
        !(c.task is Idle) && !(c.task is Stopped) && !answers(c.task, event) ==> stepped(c, event)
            == (c, ControllerActionView::Wait),
{
}

} // verus!
