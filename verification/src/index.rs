//! Which objects refer to which images.

use vstd::prelude::*;

use crate::reference::{image_host, image_matches_host};
use crate::resources::image::{ObjectKey, ObjectKeyView};
use crate::sorted::{
    increasing, lemma_push_contains, lemma_to_set_contains, SortedMap, SortedSet,
};
use crate::workload::{
    pod_refs, pod_refs_are_its_images, refers_to, runs, PodView, ResourceImageRef,
    ResourceImageRefView,
};

verus! {

/// The objects that refer to `image`, given the images that each object refers to.
pub open spec fn holders(
    tracked_images: Map<ObjectKeyView, Set<Seq<char>>>,
    image: Seq<char>,
) -> Set<ObjectKeyView> {
    Set::new(
        |r: ObjectKeyView| tracked_images.contains_key(r) && tracked_images[r].contains(image),
    )
}

/// The images that `resource` refers to.
pub open spec fn images_of(
    tracked_images: Map<ObjectKeyView, Set<Seq<char>>>,
    resource: ObjectKeyView,
) -> Set<Seq<char>> {
    if tracked_images.contains_key(resource) {
        tracked_images[resource]
    } else {
        Set::empty()
    }
}

/// What an index tracks after `resource` came to refer to `images` and no others.
pub open spec fn retargeted(
    tracked_images: Map<ObjectKeyView, Set<Seq<char>>>,
    resource: ObjectKeyView,
    images: Set<Seq<char>>,
) -> Map<ObjectKeyView, Set<Seq<char>>> {
    if images == Set::<Seq<char>>::empty() {
        tracked_images.remove(resource)
    } else {
        tracked_images.insert(resource, images)
    }
}

/// The images among a list of references that live on the registry `host`.
pub open spec fn managed_images(
    refs: Seq<ResourceImageRefView>,
    host: Seq<char>,
) -> Set<Seq<char>> {
    Set::new(|image: Seq<char>| refers_to(refs, image) && image_host(image) == Some(host))
}

/// The images among `images` that no object refers to yet.
pub open spec fn unseen(
    tracked_images: Map<ObjectKeyView, Set<Seq<char>>>,
    images: Set<Seq<char>>,
) -> Set<Seq<char>> {
    Set::new(
        |image: Seq<char>|
            images.contains(image) && holders(tracked_images, image)
                == Set::<ObjectKeyView>::empty(),
    )
}

/// The images among `refs` that live on the registry `host`, each once.
pub fn filter_managed(refs: &Vec<ResourceImageRef>, host: &str) -> (r: SortedSet<String>)
    ensures
        increasing::<String>(r@),
        r@.to_set() == managed_images(refs.deep_view(), host@),
{
    let mut r: SortedSet<String> = SortedSet::new();
    let mut i: usize = 0;
    assert(increasing::<String>(r@));
    assert(r@.to_set() =~= managed_images(refs.deep_view().take(0), host@));
    while i < refs.len()
        invariant
            i <= refs.len(),
            increasing::<String>(r@),
            r@.to_set() == managed_images(refs.deep_view().take(i as int), host@),
        decreases refs.len() - i,
    {
        let ghost before = r@.to_set();
        let image = &refs[i].image;
        if image_matches_host(image.as_str(), host) {
            r.insert(image.clone());
        }
        proof {
            let all = refs.deep_view();
            let now = all.take(i + 1);
            let earlier = all.take(i as int);
            assert(all[i as int] == refs@[i as int]@);
            assert forall|x: Seq<char>| refers_to(now, x) <==> refers_to(earlier, x) || x
                == image@ by {
                if refers_to(now, x) {
                    let j = choose|j: int| 0 <= j < now.len() && (#[trigger] now[j]).image == x;
                    if j < i {
                        assert(earlier[j].image == x);
                    }
                }
                if refers_to(earlier, x) {
                    let j = choose|j: int|
                        0 <= j < earlier.len() && (#[trigger] earlier[j]).image == x;
                    assert(now[j].image == x);
                }
                assert(now[i as int].image == image@);
            }
            assert(r@.to_set() =~= managed_images(now, host@));
        }
        i += 1;
    }
    assert(refs.deep_view().take(refs.len() as int) =~= refs.deep_view());
    r
}

spec fn refs_in(by_image: Map<Seq<char>, SortedSet<ObjectKey>>, image: Seq<char>) -> Set<
    ObjectKeyView,
> {
    if by_image.contains_key(image) {
        by_image[image]@.to_set()
    } else {
        Set::empty()
    }
}

spec fn tidy(by_image: Map<Seq<char>, SortedSet<ObjectKey>>) -> bool {
    forall|image: Seq<char>| #[trigger]
        by_image.contains_key(image) ==> by_image[image]@.len() > 0
}

spec fn targets(by_resource: Map<ObjectKeyView, SortedSet<String>>) -> Map<
    ObjectKeyView,
    Set<Seq<char>>,
> {
    Map::new(
        |r: ObjectKeyView| by_resource.contains_key(r),
        |r: ObjectKeyView| by_resource[r]@.to_set(),
    )
}

proof fn lemma_empty_to_set<A>(s: Seq<A>)
    ensures
        s.to_set() == Set::<A>::empty() <==> s.len() == 0,
{
    if s.len() == 0 {
        assert(s.to_set() =~= Set::<A>::empty());
    } else {
        assert(s.to_set().contains(s[0]));
    }
}

/// Records that `resource` refers to `image`.
fn link(by_image: &mut SortedMap<String, SortedSet<ObjectKey>>, image: &String, resource: &ObjectKey)
    requires
        tidy(old(by_image)@),
    ensures
        tidy(final(by_image)@),
        refs_in(final(by_image)@, image@) == refs_in(old(by_image)@, image@).insert(resource@),
        forall|x: Seq<char>|
            x != image@ ==> #[trigger] refs_in(final(by_image)@, x) == refs_in(
                old(by_image)@,
                x,
            ),
{
    let mut set: SortedSet<ObjectKey> = match by_image.remove(image) {
        Some(set) => set,
        None => SortedSet::new(),
    };
    assert(set@.to_set() =~= refs_in(old(by_image)@, image@));
    set.insert(resource.clone());
    proof {
        assert(set@.to_set().contains(resource@));
        lemma_empty_to_set(set@);
    }
    by_image.insert(image.clone(), set);
}

/// Records that `resource` no longer refers to `image`; an image without references is dropped.
fn unlink(
    by_image: &mut SortedMap<String, SortedSet<ObjectKey>>,
    image: &String,
    resource: &ObjectKey,
)
    requires
        tidy(old(by_image)@),
    ensures
        tidy(final(by_image)@),
        refs_in(final(by_image)@, image@) == refs_in(old(by_image)@, image@).remove(resource@),
        forall|x: Seq<char>|
            x != image@ ==> #[trigger] refs_in(final(by_image)@, x) == refs_in(
                old(by_image)@,
                x,
            ),
{
    match by_image.remove(image) {
        Some(mut set) => {
            set.remove(resource);
            proof {
                lemma_empty_to_set(set@);
            }
            if !set.is_empty() {
                by_image.insert(image.clone(), set);
            }
        },
        None => {
            assert(refs_in(old(by_image)@, image@).remove(resource@) =~= Set::empty());
        },
    }
}

/// Records that `resource` refers to each of `images`.
fn link_all(
    by_image: &mut SortedMap<String, SortedSet<ObjectKey>>,
    images: &SortedSet<String>,
    resource: &ObjectKey,
)
    requires
        tidy(old(by_image)@),
    ensures
        tidy(final(by_image)@),
        forall|x: Seq<char>| #[trigger]
            refs_in(final(by_image)@, x) == if images@.contains(x) {
                refs_in(old(by_image)@, x).insert(resource@)
            } else {
                refs_in(old(by_image)@, x)
            },
{
    let ghost before = by_image@;
    let mut i: usize = 0;
    while i < images.len()
        invariant
            i <= images@.len(),
            tidy(by_image@),
            forall|x: Seq<char>| #[trigger]
                refs_in(by_image@, x) == if images@.take(i as int).contains(x) {
                    refs_in(before, x).insert(resource@)
                } else {
                    refs_in(before, x)
                },
        decreases images@.len() - i,
    {
        let ghost done = by_image@;
        link(by_image, images.get(i), resource);
        proof {
            let image = images@[i as int];
            let next = images@.take(i + 1);
            assert(next =~= images@.take(i as int).push(image));
            assert forall|x: Seq<char>| #[trigger] refs_in(by_image@, x) == if next.contains(x) {
                refs_in(before, x).insert(resource@)
            } else {
                refs_in(before, x)
            } by {
                lemma_push_contains(images@.take(i as int), image, x);
                let earlier = refs_in(done, x);
                if x == image {
                    assert(earlier.insert(resource@) =~= refs_in(before, x).insert(resource@));
                }
            }
        }
        i += 1;
    }
    assert(images@.take(images@.len() as int) =~= images@);
}

/// Records that `resource` refers to none of `images` any longer.
fn unlink_all(
    by_image: &mut SortedMap<String, SortedSet<ObjectKey>>,
    images: &SortedSet<String>,
    resource: &ObjectKey,
)
    requires
        tidy(old(by_image)@),
    ensures
        tidy(final(by_image)@),
        forall|x: Seq<char>| #[trigger]
            refs_in(final(by_image)@, x) == if images@.contains(x) {
                refs_in(old(by_image)@, x).remove(resource@)
            } else {
                refs_in(old(by_image)@, x)
            },
{
    let ghost before = by_image@;
    let mut i: usize = 0;
    while i < images.len()
        invariant
            i <= images@.len(),
            tidy(by_image@),
            forall|x: Seq<char>| #[trigger]
                refs_in(by_image@, x) == if images@.take(i as int).contains(x) {
                    refs_in(before, x).remove(resource@)
                } else {
                    refs_in(before, x)
                },
        decreases images@.len() - i,
    {
        let ghost done = by_image@;
        unlink(by_image, images.get(i), resource);
        proof {
            let image = images@[i as int];
            let next = images@.take(i + 1);
            assert(next =~= images@.take(i as int).push(image));
            assert forall|x: Seq<char>| #[trigger] refs_in(by_image@, x) == if next.contains(x) {
                refs_in(before, x).remove(resource@)
            } else {
                refs_in(before, x)
            } by {
                lemma_push_contains(images@.take(i as int), image, x);
                let earlier = refs_in(done, x);
                if x == image {
                    assert(earlier.remove(resource@) =~= refs_in(before, x).remove(resource@));
                }
            }
        }
        i += 1;
    }
    assert(images@.take(images@.len() as int) =~= images@);
}

/// The images that each object refers to, and for each image the objects that refer to it.
pub struct ReferenceIndex {
    by_resource: SortedMap<ObjectKey, SortedSet<String>>,
    by_image: SortedMap<String, SortedSet<ObjectKey>>,
}

impl View for ReferenceIndex {
    type V = Map<ObjectKeyView, Set<Seq<char>>>;

    /// The images that each object refers to. Objects that refer to none are absent.
    closed spec fn view(&self) -> Map<ObjectKeyView, Set<Seq<char>>> {
        targets(self.by_resource@)
    }
}

impl ReferenceIndex {
    /// The two directions agree, and neither holds an empty set.
    #[verifier::type_invariant]
    spec fn consistent(self) -> bool {
        &&& tidy(self.by_image@)
        &&& forall|r: ObjectKeyView| #[trigger]
            self.by_resource@.contains_key(r) ==> self.by_resource@[r]@.len() > 0
        &&& forall|image: Seq<char>| #[trigger]
            refs_in(self.by_image@, image) == holders(self@, image)
    }

    /// The index that tracks nothing.
    pub fn new() -> (r: Self)
        ensures
            r@ == Map::<ObjectKeyView, Set<Seq<char>>>::empty(),
    {
        let by_resource: SortedMap<ObjectKey, SortedSet<String>> = SortedMap::new();
        let by_image: SortedMap<String, SortedSet<ObjectKey>> = SortedMap::new();
        proof {
            assert(targets(by_resource@) =~= Map::<ObjectKeyView, Set<Seq<char>>>::empty());
            assert forall|image: Seq<char>| #[trigger] refs_in(by_image@, image) == holders(
                targets(by_resource@),
                image,
            ) by {
                assert(refs_in(by_image@, image) =~= holders(targets(by_resource@), image));
            }
        }
        ReferenceIndex { by_resource, by_image }
    }

    /// Whether any object refers to `image`.
    pub fn contains_image(&self, image: &String) -> (r: bool)
        ensures
            r == (holders(self@, image@) != Set::<ObjectKeyView>::empty()),
    {
        proof {
            use_type_invariant(&*self);
            assert(refs_in(self.by_image@, image@) == holders(self@, image@));
            if self.by_image@.contains_key(image@) {
                lemma_empty_to_set(self.by_image@[image@]@);
            }
        }
        self.by_image.contains_key(image)
    }

    /// The objects that refer to `image`.
    pub fn references_of(&self, image: &String) -> (r: SortedSet<ObjectKey>)
        ensures
            increasing::<ObjectKey>(r@),
            r@.to_set() == holders(self@, image@),
    {
        proof {
            use_type_invariant(&*self);
            assert(refs_in(self.by_image@, image@) == holders(self@, image@));
        }
        let r: SortedSet<ObjectKey> = match self.by_image.get(image) {
            Some(set) => set.duplicate(),
            None => SortedSet::new(),
        };
        proof {
            lemma_empty_to_set(r@);
        }
        r
    }

    /// The images that `resource` refers to.
    pub fn images_of(&self, resource: &ObjectKey) -> (r: SortedSet<String>)
        ensures
            increasing::<String>(r@),
            r@.to_set() == images_of(self@, resource@),
    {
        let r: SortedSet<String> = match self.by_resource.get(resource) {
            Some(set) => set.duplicate(),
            None => SortedSet::new(),
        };
        proof {
            lemma_empty_to_set(r@);
        }
        r
    }

    /// The images among `images` that no object refers to yet.
    pub fn unseen_images(&self, images: &SortedSet<String>) -> (r: SortedSet<String>)
        ensures
            increasing::<String>(r@),
            r@.to_set() == unseen(self@, images@.to_set()),
    {
        let mut r: SortedSet<String> = SortedSet::new();
        let mut i: usize = 0;
        assert(increasing::<String>(r@));
        assert(r@.to_set() =~= unseen(self@, images@.take(0).to_set()));
        while i < images.len()
            invariant
                i <= images@.len(),
                increasing::<String>(r@),
                r@.to_set() == unseen(self@, images@.take(i as int).to_set()),
            decreases images@.len() - i,
        {
            let image = images.get(i);
            if !self.contains_image(image) {
                r.insert(image.clone());
            }
            proof {
                let earlier = images@.take(i as int);
                let next = images@.take(i + 1);
                assert(next =~= earlier.push(images@[i as int]));
                assert forall|x: Seq<char>| r@.to_set().contains(x) <==> unseen(
                    self@,
                    next.to_set(),
                ).contains(x) by {
                    lemma_push_contains(earlier, images@[i as int], x);
                }
                assert(r@.to_set() =~= unseen(self@, next.to_set()));
            }
            i += 1;
        }
        assert(images@.take(images@.len() as int) =~= images@);
        r
    }

    /// Makes `resource` refer to `images` and to no others.
    pub fn retarget(&mut self, resource: &ObjectKey, images: &SortedSet<String>)
        ensures
            final(self)@ == retargeted(old(self)@, resource@, images@.to_set()),
    {
        let ghost before = self@;
        let old_images = self.images_of(resource);
        let gone = old_images.difference(images);
        let mut taken = ReferenceIndex::new();
        std::mem::swap(&mut taken, self);
        proof {
            use_type_invariant(&taken);
        }
        let ghost held = taken.by_image@;
        let ReferenceIndex { mut by_resource, mut by_image } = taken;
        let ghost resources = by_resource@;
        unlink_all(&mut by_image, &gone, resource);
        let ghost unlinked = by_image@;
        link_all(&mut by_image, images, resource);
        if images.is_empty() {
            by_resource.remove(resource);
        } else {
            by_resource.insert(resource.clone(), images.duplicate());
        }
        proof {
            let after = retargeted(before, resource@, images@.to_set());
            lemma_empty_to_set(images@);
            assert(targets(by_resource@) =~= after);
            assert forall|x: Seq<char>| #[trigger] refs_in(by_image@, x) == holders(after, x) by {
                assert(refs_in(held, x) == holders(before, x));
                assert(refs_in(unlinked, x) == if gone@.contains(x) {
                    refs_in(held, x).remove(resource@)
                } else {
                    refs_in(held, x)
                });
                retargeting_moves_one_object(before, resource@, images@.to_set(), x);
                lemma_to_set_contains(gone@, x);
                lemma_to_set_contains(images@, x);
                assert(refs_in(by_image@, x) =~= holders(after, x));
            }
        }
        *self = ReferenceIndex { by_resource, by_image };
    }

    /// Forgets `resource`; tells the images it referred to, where it referred to any.
    pub fn forget(&mut self, resource: &ObjectKey) -> (r: Option<SortedSet<String>>)
        ensures
            final(self)@ == old(self)@.remove(resource@),
            match r {
                Some(images) => {
                    &&& old(self)@.contains_key(resource@)
                    &&& increasing::<String>(images@)
                    &&& images@.to_set() == old(self)@[resource@]
                    &&& images@.len() > 0
                },
                None => !old(self)@.contains_key(resource@),
            },
    {
        let ghost before = self@;
        proof {
            use_type_invariant(&*self);
        }
        let images = self.images_of(resource);
        proof {
            lemma_empty_to_set(images@);
        }
        if images.is_empty() {
            proof {
                if before.contains_key(resource@) {
                    lemma_empty_to_set(self.by_resource@[resource@]@);
                }
                assert(before =~= before.remove(resource@));
            }
            None
        } else {
            self.retarget(resource, &SortedSet::new());
            proof {
                lemma_empty_to_set(Seq::<Seq<char>>::empty());
            }
            Some(images)
        }
    }
}

/// What is tracked of a pod are exactly the images of its containers, init containers and
/// ephemeral containers that live on the registry.
pub proof fn managed_images_of_a_pod(pod: PodView, host: Seq<char>, image: Seq<char>)
    ensures
        managed_images(pod_refs(pod), host).contains(image) <==> image_host(image) == Some(host)
            && (pod.spec matches Some(spec) && {
            ||| spec.containers.contains(Some(image))
            ||| runs(spec.init_containers, image)
            ||| runs(spec.ephemeral_containers, image)
        }),
{
    pod_refs_are_its_images(pod, image);
}

/// Who refers to an image after an object was retargeted: the object exactly if the image is
/// among its new ones, and every other object as before.
pub proof fn retargeting_moves_one_object(
    tracked_images: Map<ObjectKeyView, Set<Seq<char>>>,
    resource: ObjectKeyView,
    images: Set<Seq<char>>,
    image: Seq<char>,
)
    ensures
        holders(retargeted(tracked_images, resource, images), image) == if images.contains(image) {
            holders(tracked_images, image).insert(resource)
        } else {
            holders(tracked_images, image).remove(resource)
        },
{
    let after = holders(retargeted(tracked_images, resource, images), image);
    if images.contains(image) {
        assert(images != Set::<Seq<char>>::empty());
        assert(after =~= holders(tracked_images, image).insert(resource));
    } else {
        assert(after =~= holders(tracked_images, image).remove(resource));
    }
}

/// An object is among those that refer to an image exactly where the image is among those that
/// the object refers to.
pub proof fn both_directions_agree(
    tracked_images: Map<ObjectKeyView, Set<Seq<char>>>,
    resource: ObjectKeyView,
    image: Seq<char>,
)
    ensures
        holders(tracked_images, image).contains(resource) <==> images_of(
            tracked_images,
            resource,
        ).contains(image),
{
}

/// After an object was retargeted it refers to its new images and to no others, and every other
/// object refers to what it did.
pub proof fn retargeted_object_refers_to_its_images(
    tracked_images: Map<ObjectKeyView, Set<Seq<char>>>,
    resource: ObjectKeyView,
    images: Set<Seq<char>>,
    other: ObjectKeyView,
)
    ensures
        images_of(retargeted(tracked_images, resource, images), other) == if other == resource {
            images
        } else {
            images_of(tracked_images, other)
        },
{
}

/// The last retargeting of an object decides: the ones before it leave no trace.
pub proof fn last_retargeting_decides(
    tracked_images: Map<ObjectKeyView, Set<Seq<char>>>,
    resource: ObjectKeyView,
    earlier: Set<Seq<char>>,
    images: Set<Seq<char>>,
)
    ensures
        retargeted(retargeted(tracked_images, resource, earlier), resource, images) == retargeted(
            tracked_images,
            resource,
            images,
        ),
        retargeted(tracked_images, resource, earlier).remove(resource) == tracked_images.remove(
            resource,
        ),
{
    let once = retargeted(tracked_images, resource, images);
    assert(retargeted(retargeted(tracked_images, resource, earlier), resource, images) =~= once);
    assert(retargeted(tracked_images, resource, earlier).remove(resource)
        =~= tracked_images.remove(resource));
}

/// The order in which two objects are retargeted does not matter.
pub proof fn retargeting_commutes(
    tracked_images: Map<ObjectKeyView, Set<Seq<char>>>,
    a: ObjectKeyView,
    images_a: Set<Seq<char>>,
    b: ObjectKeyView,
    images_b: Set<Seq<char>>,
)
    requires
        a != b,
    ensures
        retargeted(retargeted(tracked_images, a, images_a), b, images_b) == retargeted(
            retargeted(tracked_images, b, images_b),
            a,
            images_a,
        ),
{
    assert(retargeted(retargeted(tracked_images, a, images_a), b, images_b) =~= retargeted(
        retargeted(tracked_images, b, images_b),
        a,
        images_a,
    ));
}

/// Retargeting an object leaves the holders of every image alone that the object neither
/// referred to before nor refers to now.
pub proof fn untouched_images_keep_their_holders(
    tracked_images: Map<ObjectKeyView, Set<Seq<char>>>,
    resource: ObjectKeyView,
    images: Set<Seq<char>>,
    image: Seq<char>,
)
    requires
        !images_of(tracked_images, resource).contains(image),
        !images.contains(image),
    ensures
        holders(retargeted(tracked_images, resource, images), image) == holders(
            tracked_images,
            image,
        ),
{
    retargeting_moves_one_object(tracked_images, resource, images, image);
    both_directions_agree(tracked_images, resource, image);
    assert(holders(tracked_images, image).remove(resource) =~= holders(tracked_images, image));
}

/// An object holds an image exactly where it is tracked with it.
pub proof fn holders_are_tracked_with_the_image(
    tracked_images: Map<ObjectKeyView, Set<Seq<char>>>,
    resource: ObjectKeyView,
    image: Seq<char>,
)
    ensures
        holders(tracked_images, image).contains(resource) <==> tracked_images.contains_key(resource)
            && tracked_images[resource].contains(image),
        images_of(tracked_images, resource).contains(image) <==> tracked_images.contains_key(
            resource,
        ) && tracked_images[resource].contains(image),
{
}

/// An object that refers to nothing is not tracked at all; any other is tracked with all its
/// images and no others; and whatever is tracked of other objects stays.
pub proof fn tracking_follows_a_retargeting(
    tracked_images: Map<ObjectKeyView, Set<Seq<char>>>,
    resource: ObjectKeyView,
    images: Set<Seq<char>>,
    image: Seq<char>,
    other: ObjectKeyView,
)
    ensures
        ({
            let after = retargeted(tracked_images, resource, images);
            &&& images.contains(image) ==> after.contains_key(resource) && after[resource]
                == images
            &&& images == Set::<Seq<char>>::empty() ==> !after.contains_key(resource)
            &&& other != resource ==> {
                &&& after.contains_key(other) == tracked_images.contains_key(other)
                &&& after.contains_key(other) ==> after[other] == tracked_images[other]
            }
        }),
{
    if images.contains(image) {
        assert(images != Set::<Seq<char>>::empty());
    }
}

/// An image is managed exactly where it is among the references and its host is the registry.
pub proof fn managed_images_live_on_the_registry(
    refs: Seq<ResourceImageRefView>,
    host: Seq<char>,
    image: Seq<char>,
)
    ensures
        managed_images(refs, host).contains(image) <==> image_host(image) == Some(host)
            && exists|i: int| 0 <= i < refs.len() && (#[trigger] refs[i]).image == image,
{
}

/// An image is unseen exactly where it is among those asked about and no object is tracked with
/// it.
pub proof fn unseen_images_have_no_holder(
    tracked_images: Map<ObjectKeyView, Set<Seq<char>>>,
    images: Set<Seq<char>>,
    image: Seq<char>,
)
    ensures
        unseen(tracked_images, images).contains(image) <==> images.contains(image) && forall|
            r: ObjectKeyView,
        | #[trigger]
            tracked_images.contains_key(r) ==> !tracked_images[r].contains(image),
{
    let none = Set::<ObjectKeyView>::empty();
    if forall|r: ObjectKeyView| #[trigger]
        tracked_images.contains_key(r) ==> !tracked_images[r].contains(image) {
        assert(holders(tracked_images, image) =~= none);
    }
    if holders(tracked_images, image) == none {
        assert forall|r: ObjectKeyView| #[trigger]
            tracked_images.contains_key(r) implies !tracked_images[r].contains(image) by {
            assert(!holders(tracked_images, image).contains(r));
        }
    }
}

} // verus!
