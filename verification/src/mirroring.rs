//! Which upstream image a local image is copied from.

use vstd::prelude::*;

use crate::reference::{
    digest_follows_the_first_at_sign, extract_local_repository, extract_tag_or_digest,
    local_repository, tag_follows_the_last_colon, tag_or_digest, without_a_colon_there_is_no_tag,
};
use crate::resources::imagemirror::{ImageMirror, ImageMirrorView};
use crate::sorted::{Comparison, Key};
use crate::text::{compare_text, ends_with, same_text, starts_with, text_before};

verus! {

/// Whether a mirror serves the repository path `repo`: its repository ends with that path.
pub open spec fn serves(m: ImageMirrorView, repo: Seq<char>) -> bool {
    repo.is_suffix_of(m.spec.repository)
}

/// Whether a mirror stands in the namespace of the image.
pub open spec fn shares_namespace(m: ImageMirrorView, namespace: Option<Seq<char>>) -> bool {
    namespace == Some(
        match m.namespace {
            Some(ns) => ns,
            None => Seq::<char>::empty(),
        },
    )
}

/// Whether mirror `a` is preferred to mirror `b`: mirrors in the namespace of the image come
/// first, then the order of their names decides.
pub open spec fn preferred(
    a: ImageMirrorView,
    b: ImageMirrorView,
    namespace: Option<Seq<char>>,
) -> bool {
    ||| shares_namespace(a, namespace) && !shares_namespace(b, namespace)
    ||| shares_namespace(a, namespace) == shares_namespace(b, namespace) && text_before(
        a.name,
        b.name,
    )
}

/// Whether the mirror at position `i` is the one that serves `repo`: no other mirror that serves
/// it is preferred, and none of equal standing comes earlier in the list.
pub open spec fn selected(
    mirrors: Seq<ImageMirrorView>,
    repo: Seq<char>,
    namespace: Option<Seq<char>>,
    i: int,
) -> bool {
    &&& 0 <= i < mirrors.len()
    &&& serves(mirrors[i], repo)
    &&& forall|j: int|
        0 <= j < mirrors.len() && serves(#[trigger] mirrors[j], repo) ==> !preferred(
            mirrors[j],
            mirrors[i],
            namespace,
        )
    &&& forall|j: int|
        0 <= j < i && serves(#[trigger] mirrors[j], repo) ==> preferred(
            mirrors[i],
            mirrors[j],
            namespace,
        )
}

proof fn lemma_preferred_asymmetric(
    a: ImageMirrorView,
    b: ImageMirrorView,
    namespace: Option<Seq<char>>,
)
    ensures
        !(preferred(a, b, namespace) && preferred(b, a, namespace)),
{
    if preferred(a, b, namespace) && preferred(b, a, namespace) {
        String::before_transitive(a.name, b.name, a.name);
        String::before_irreflexive(a.name);
    }
}

/// Mirrors of equal standing are equally placed towards every third mirror.
proof fn lemma_preferred_over_equal(
    a: ImageMirrorView,
    b: ImageMirrorView,
    c: ImageMirrorView,
    namespace: Option<Seq<char>>,
)
    requires
        preferred(a, b, namespace),
        !preferred(c, b, namespace),
    ensures
        preferred(a, c, namespace),
{
    String::before_total(a.name, c.name);
    String::before_total(b.name, c.name);
    if text_before(a.name, b.name) && text_before(b.name, c.name) {
        String::before_transitive(a.name, b.name, c.name);
    }
}

proof fn lemma_selected_first(
    done: Seq<ImageMirrorView>,
    m: ImageMirrorView,
    repo: Seq<char>,
    namespace: Option<Seq<char>>,
)
    requires
        serves(m, repo),
        forall|j: int| 0 <= j < done.len() ==> !serves(#[trigger] done[j], repo),
    ensures
        selected(done.push(m), repo, namespace, done.len() as int),
{
    let next = done.push(m);
    assert forall|j: int| 0 <= j < done.len() implies #[trigger] next[j] == done[j] by {}
    lemma_preferred_asymmetric(m, m, namespace);
}

proof fn lemma_selected_push(
    done: Seq<ImageMirrorView>,
    m: ImageMirrorView,
    repo: Seq<char>,
    namespace: Option<Seq<char>>,
    i: int,
)
    requires
        selected(done, repo, namespace, i),
    ensures
        selected(
            done.push(m),
            repo,
            namespace,
            if serves(m, repo) && preferred(m, done[i], namespace) {
                done.len() as int
            } else {
                i
            },
        ),
{
    let next = done.push(m);
    let n = done.len() as int;
    assert forall|j: int| 0 <= j < n implies #[trigger] next[j] == done[j] by {}
    if serves(m, repo) && preferred(m, done[i], namespace) {
        assert forall|j: int|
            0 <= j < next.len() && serves(#[trigger] next[j], repo) implies !preferred(
            next[j],
            m,
            namespace,
        ) && (j < n ==> preferred(m, next[j], namespace)) by {
            lemma_preferred_asymmetric(next[j], m, namespace);
            if j < n {
                lemma_preferred_over_equal(m, done[i], next[j], namespace);
            }
        }
    }
}

/// Where mirrors serve a repository path, one of them is selected.
pub proof fn one_that_serves_is_selected(
    mirrors: Seq<ImageMirrorView>,
    repo: Seq<char>,
    namespace: Option<Seq<char>>,
) -> (i: int)
    requires
        exists|j: int| 0 <= j < mirrors.len() && serves(#[trigger] mirrors[j], repo),
    ensures
        selected(mirrors, repo, namespace, i),
    decreases mirrors.len(),
{
    let done = mirrors.drop_last();
    let m = mirrors.last();
    assert(mirrors =~= done.push(m));
    if exists|j: int| 0 <= j < done.len() && serves(#[trigger] done[j], repo) {
        let i = one_that_serves_is_selected(done, repo, namespace);
        lemma_selected_push(done, m, repo, namespace, i);
        if serves(m, repo) && preferred(m, done[i], namespace) {
            done.len() as int
        } else {
            i
        }
    } else {
        let j = choose|j: int| 0 <= j < mirrors.len() && serves(#[trigger] mirrors[j], repo);
        if j < done.len() {
            assert(serves(done[j], repo));
        }
        lemma_selected_first(done, m, repo, namespace);
        done.len() as int
    }
}

/// At most one mirror is selected.
pub proof fn selection_is_unique(
    mirrors: Seq<ImageMirrorView>,
    repo: Seq<char>,
    namespace: Option<Seq<char>>,
    i: int,
    j: int,
)
    requires
        selected(mirrors, repo, namespace, i),
        selected(mirrors, repo, namespace, j),
    ensures
        i == j,
{
    if i < j {
        assert(serves(mirrors[i], repo));
        assert(preferred(mirrors[j], mirrors[i], namespace));
    } else if j < i {
        assert(serves(mirrors[j], repo));
        assert(preferred(mirrors[i], mirrors[j], namespace));
    }
}

fn in_namespace(m: &ImageMirror, namespace: &Option<String>) -> (r: bool)
    ensures
        r == shares_namespace(m@, namespace.deep_view()),
{
    match namespace {
        None => false,
        Some(ns) => match &m.namespace {
            Some(own) => same_text(own.as_str(), ns.as_str()),
            None => {
                proof {
                    if ns@.len() == 0 {
                        assert(ns@ =~= Seq::<char>::empty());
                    }
                }
                ns.as_str().is_empty()
            },
        },
    }
}

fn is_preferred(a: &ImageMirror, b: &ImageMirror, namespace: &Option<String>) -> (r: bool)
    ensures
        r == preferred(a@, b@, namespace.deep_view()),
{
    let first = in_namespace(a, namespace);
    let second = in_namespace(b, namespace);
    if first != second {
        return first;
    }
    proof {
        String::before_irreflexive(a.name@);
        if text_before(a.name@, b.name@) && text_before(b.name@, a.name@) {
            String::before_transitive(a.name@, b.name@, a.name@);
        }
    }
    match compare_text(a.name.as_str(), b.name.as_str()) {
        Comparison::Less => true,
        _ => false,
    }
}

/// The position of the mirror that serves `repo` for an image in `namespace`.
pub fn select_mirror(
    mirrors: &Vec<ImageMirror>,
    repo: &str,
    namespace: &Option<String>,
) -> (r: Option<usize>)
    ensures
        match r {
            Some(i) => selected(mirrors.deep_view(), repo@, namespace.deep_view(), i as int),
            None => forall|j: int|
                0 <= j < mirrors@.len() ==> !serves(#[trigger] mirrors.deep_view()[j], repo@),
        },
{
    let ghost ms = mirrors.deep_view();
    let ghost ns = namespace.deep_view();
    let mut best: Option<usize> = None;
    let mut k: usize = 0;
    while k < mirrors.len()
        invariant
            k <= mirrors.len(),
            ms == mirrors.deep_view(),
            ns == namespace.deep_view(),
            match best {
                Some(i) => i < k && selected(ms.take(k as int), repo@, ns, i as int),
                None => forall|j: int| 0 <= j < k ==> !serves(#[trigger] ms[j], repo@),
            },
        decreases mirrors.len() - k,
    {
        let ghost before = best;
        let m = &mirrors[k];
        assert(ms[k as int] == m@);
        if ends_with(m.spec.repository.as_str(), repo) {
            match best {
                Some(i) => {
                    if is_preferred(m, &mirrors[i], namespace) {
                        best = Some(k);
                    }
                },
                None => {
                    best = Some(k);
                },
            }
        }
        proof {
            let done = ms.take(k as int);
            let m = ms[k as int];
            assert(ms.take(k + 1) =~= done.push(m));
            match before {
                Some(i) => {
                    assert(done[i as int] == ms[i as int]);
                    lemma_selected_push(done, m, repo@, ns, i as int);
                },
                None => {
                    if best is Some {
                        lemma_selected_first(done, m, repo@, ns);
                    }
                },
            }
        }
        k += 1;
    }
    assert(ms.take(mirrors.len() as int) =~= ms);
    best
}

/// Whether a mirror claims the local image `image_ref`: it has a prefix, and the reference starts
/// with it. The prefix is plain text: one that ends inside a path segment claims the neighbours of
/// that segment too, and one that ends with a `/` does not.
pub open spec fn claims(m: ImageMirrorView, image_ref: Seq<char>) -> bool {
    m.spec.prefix.len() > 0 && m.spec.prefix.is_prefix_of(image_ref)
}

/// Whether the claim of mirror `a` goes before that of mirror `b`: the longer prefix wins, and
/// between prefixes of one length the preferred mirror.
pub open spec fn outranks(
    a: ImageMirrorView,
    b: ImageMirrorView,
    namespace: Option<Seq<char>>,
) -> bool {
    ||| a.spec.prefix.len() > b.spec.prefix.len()
    ||| a.spec.prefix.len() == b.spec.prefix.len() && preferred(a, b, namespace)
}

/// Whether the mirror at position `i` has the longest prefix of all that claim `image_ref`: no
/// other claim goes before it, and none of equal standing comes earlier in the list.
pub open spec fn longest_prefix(
    mirrors: Seq<ImageMirrorView>,
    image_ref: Seq<char>,
    namespace: Option<Seq<char>>,
    i: int,
) -> bool {
    &&& 0 <= i < mirrors.len()
    &&& claims(mirrors[i], image_ref)
    &&& forall|j: int|
        0 <= j < mirrors.len() && claims(#[trigger] mirrors[j], image_ref) ==> !outranks(
            mirrors[j],
            mirrors[i],
            namespace,
        )
    &&& forall|j: int|
        0 <= j < i && claims(#[trigger] mirrors[j], image_ref) ==> outranks(
            mirrors[i],
            mirrors[j],
            namespace,
        )
}

/// Whether no mirror claims `image_ref`.
pub open spec fn unclaimed(mirrors: Seq<ImageMirrorView>, image_ref: Seq<char>) -> bool {
    forall|j: int| 0 <= j < mirrors.len() ==> !claims(#[trigger] mirrors[j], image_ref)
}

proof fn lemma_outranks_asymmetric(
    a: ImageMirrorView,
    b: ImageMirrorView,
    namespace: Option<Seq<char>>,
)
    ensures
        !(outranks(a, b, namespace) && outranks(b, a, namespace)),
{
    lemma_preferred_asymmetric(a, b, namespace);
}

/// Claims of equal standing are equally placed towards every third claim.
proof fn lemma_outranks_over_equal(
    a: ImageMirrorView,
    b: ImageMirrorView,
    c: ImageMirrorView,
    namespace: Option<Seq<char>>,
)
    requires
        outranks(a, b, namespace),
        !outranks(c, b, namespace),
    ensures
        outranks(a, c, namespace),
{
    if preferred(a, b, namespace) && !preferred(c, b, namespace) {
        lemma_preferred_over_equal(a, b, c, namespace);
    }
}

proof fn lemma_longest_first(
    done: Seq<ImageMirrorView>,
    m: ImageMirrorView,
    image_ref: Seq<char>,
    namespace: Option<Seq<char>>,
)
    requires
        claims(m, image_ref),
        forall|j: int| 0 <= j < done.len() ==> !claims(#[trigger] done[j], image_ref),
    ensures
        longest_prefix(done.push(m), image_ref, namespace, done.len() as int),
{
    let next = done.push(m);
    assert forall|j: int| 0 <= j < done.len() implies #[trigger] next[j] == done[j] by {}
    lemma_outranks_asymmetric(m, m, namespace);
}

proof fn lemma_longest_push(
    done: Seq<ImageMirrorView>,
    m: ImageMirrorView,
    image_ref: Seq<char>,
    namespace: Option<Seq<char>>,
    i: int,
)
    requires
        longest_prefix(done, image_ref, namespace, i),
    ensures
        longest_prefix(
            done.push(m),
            image_ref,
            namespace,
            if claims(m, image_ref) && outranks(m, done[i], namespace) {
                done.len() as int
            } else {
                i
            },
        ),
{
    let next = done.push(m);
    let n = done.len() as int;
    assert forall|j: int| 0 <= j < n implies #[trigger] next[j] == done[j] by {}
    if claims(m, image_ref) && outranks(m, done[i], namespace) {
        assert forall|j: int|
            0 <= j < next.len() && claims(#[trigger] next[j], image_ref) implies !outranks(
            next[j],
            m,
            namespace,
        ) && (j < n ==> outranks(m, next[j], namespace)) by {
            lemma_outranks_asymmetric(next[j], m, namespace);
            if j < n {
                lemma_outranks_over_equal(m, done[i], next[j], namespace);
            }
        }
    }
}

/// Where mirrors claim an image, one of them has the longest prefix.
pub proof fn one_that_claims_wins(
    mirrors: Seq<ImageMirrorView>,
    image_ref: Seq<char>,
    namespace: Option<Seq<char>>,
) -> (i: int)
    requires
        exists|j: int| 0 <= j < mirrors.len() && claims(#[trigger] mirrors[j], image_ref),
    ensures
        longest_prefix(mirrors, image_ref, namespace, i),
    decreases mirrors.len(),
{
    let done = mirrors.drop_last();
    let m = mirrors.last();
    assert(mirrors =~= done.push(m));
    if exists|j: int| 0 <= j < done.len() && claims(#[trigger] done[j], image_ref) {
        let i = one_that_claims_wins(done, image_ref, namespace);
        lemma_longest_push(done, m, image_ref, namespace, i);
        if claims(m, image_ref) && outranks(m, done[i], namespace) {
            done.len() as int
        } else {
            i
        }
    } else {
        let j = choose|j: int| 0 <= j < mirrors.len() && claims(#[trigger] mirrors[j], image_ref);
        if j < done.len() {
            assert(claims(done[j], image_ref));
        }
        lemma_longest_first(done, m, image_ref, namespace);
        done.len() as int
    }
}

/// The longest prefix wins: no mirror whose prefix starts the reference has a longer one, and only
/// one mirror wins.
pub proof fn longest_prefix_wins(
    mirrors: Seq<ImageMirrorView>,
    image_ref: Seq<char>,
    namespace: Option<Seq<char>>,
    i: int,
    j: int,
)
    requires
        longest_prefix(mirrors, image_ref, namespace, i),
        0 <= j < mirrors.len(),
        mirrors[j].spec.prefix.is_prefix_of(image_ref),
    ensures
        mirrors[j].spec.prefix.len() <= mirrors[i].spec.prefix.len(),
        longest_prefix(mirrors, image_ref, namespace, j) ==> i == j,
{
    if claims(mirrors[j], image_ref) {
        assert(!outranks(mirrors[j], mirrors[i], namespace));
    }
    if longest_prefix(mirrors, image_ref, namespace, j) {
        assert(claims(mirrors[i], image_ref));
        if i < j {
            assert(outranks(mirrors[j], mirrors[i], namespace));
        } else if j < i {
            assert(outranks(mirrors[i], mirrors[j], namespace));
        }
    }
}

fn does_outrank(a: &ImageMirror, b: &ImageMirror, namespace: &Option<String>) -> (r: bool)
    ensures
        r == outranks(a@, b@, namespace.deep_view()),
{
    let first: usize = a.spec.prefix.as_str().unicode_len();
    let second: usize = b.spec.prefix.as_str().unicode_len();
    first > second || (first == second && is_preferred(a, b, namespace))
}

/// The position of the mirror that claims `image_ref`, an image in `namespace`, with the longest
/// prefix.
pub fn longest_prefix_mirror(
    mirrors: &Vec<ImageMirror>,
    image_ref: &str,
    namespace: &Option<String>,
) -> (r: Option<usize>)
    ensures
        match r {
            Some(i) => longest_prefix(
                mirrors.deep_view(),
                image_ref@,
                namespace.deep_view(),
                i as int,
            ),
            None => unclaimed(mirrors.deep_view(), image_ref@),
        },
{
    let ghost ms = mirrors.deep_view();
    let ghost ns = namespace.deep_view();
    let mut best: Option<usize> = None;
    let mut k: usize = 0;
    while k < mirrors.len()
        invariant
            k <= mirrors.len(),
            ms == mirrors.deep_view(),
            ns == namespace.deep_view(),
            match best {
                Some(i) => i < k && longest_prefix(ms.take(k as int), image_ref@, ns, i as int),
                None => forall|j: int| 0 <= j < k ==> !claims(#[trigger] ms[j], image_ref@),
            },
        decreases mirrors.len() - k,
    {
        let ghost before = best;
        let m = &mirrors[k];
        assert(ms[k as int] == m@);
        if does_claim(m, image_ref) {
            match best {
                Some(i) => {
                    if does_outrank(m, &mirrors[i], namespace) {
                        best = Some(k);
                    }
                },
                None => {
                    best = Some(k);
                },
            }
        }
        proof {
            let done = ms.take(k as int);
            let m = ms[k as int];
            assert(ms.take(k + 1) =~= done.push(m));
            match before {
                Some(i) => {
                    assert(done[i as int] == ms[i as int]);
                    lemma_longest_push(done, m, image_ref@, ns, i as int);
                },
                None => {
                    if best is Some {
                        lemma_longest_first(done, m, image_ref@, ns);
                    }
                },
            }
        }
        k += 1;
    }
    assert(ms.take(mirrors.len() as int) =~= ms);
    best
}

/// Whether the local image `image_ref` is copied by way of the mirror at position `i`: the one
/// with the longest prefix where any mirror claims the image, and else the one that serves its
/// repository path.
pub open spec fn chosen(
    mirrors: Seq<ImageMirrorView>,
    image_ref: Seq<char>,
    namespace: Option<Seq<char>>,
    i: int,
) -> bool {
    if unclaimed(mirrors, image_ref) {
        selected(mirrors, local_repository(image_ref), namespace, i)
    } else {
        longest_prefix(mirrors, image_ref, namespace, i)
    }
}

/// At most one mirror is chosen.
pub proof fn choice_is_unique(
    mirrors: Seq<ImageMirrorView>,
    image_ref: Seq<char>,
    namespace: Option<Seq<char>>,
    i: int,
    j: int,
)
    requires
        chosen(mirrors, image_ref, namespace, i),
        chosen(mirrors, image_ref, namespace, j),
    ensures
        i == j,
{
    if unclaimed(mirrors, image_ref) {
        selection_is_unique(mirrors, local_repository(image_ref), namespace, i, j);
    } else {
        longest_prefix_wins(mirrors, image_ref, namespace, i, j);
    }
}

/// Whether no mirror is there for the local image `image_ref`: none claims it, and none serves
/// its repository path.
pub open spec fn without_mirror(mirrors: Seq<ImageMirrorView>, image_ref: Seq<char>) -> bool {
    &&& unclaimed(mirrors, image_ref)
    &&& forall|j: int|
        0 <= j < mirrors.len() ==> !serves(#[trigger] mirrors[j], local_repository(image_ref))
}

/// The position of the mirror by way of which `image_ref`, an image in `namespace`, is copied.
pub fn choose_mirror(
    mirrors: &Vec<ImageMirror>,
    image_ref: &str,
    namespace: &Option<String>,
) -> (r: Option<usize>)
    ensures
        match r {
            Some(i) => i < mirrors@.len() && chosen(
                mirrors.deep_view(),
                image_ref@,
                namespace.deep_view(),
                i as int,
            ),
            None => without_mirror(mirrors.deep_view(), image_ref@),
        },
{
    match longest_prefix_mirror(mirrors, image_ref, namespace) {
        Some(i) => {
            assert(claims(mirrors.deep_view()[i as int], image_ref@));
            Some(i)
        },
        None => select_mirror(mirrors, extract_local_repository(image_ref), namespace),
    }
}

/// What a [`MirrorPlan`] denotes.
pub ghost struct MirrorPlanView {
    pub source: Seq<char>,
    pub destination: Seq<char>,
    pub platform: Option<Seq<char>>,
}

/// A copy of one image from an upstream registry.
#[derive(Debug)]
pub struct MirrorPlan {
    /// The upstream reference.
    pub source: String,
    /// The local reference.
    pub destination: String,
    /// The platform to copy; without one, all of them.
    pub platform: Option<String>,
}

impl View for MirrorPlan {
    type V = MirrorPlanView;

    open spec fn view(&self) -> MirrorPlanView {
        MirrorPlanView {
            source: self.source@,
            destination: self.destination@,
            platform: self.platform.deep_view(),
        }
    }
}

impl Clone for MirrorPlan {
    fn clone(&self) -> (r: Self)
        ensures
            r@ == self@,
    {
        MirrorPlan {
            source: self.source.clone(),
            destination: self.destination.clone(),
            platform: match &self.platform {
                Some(p) => Some(p.clone()),
                None => None,
            },
        }
    }
}

impl DeepView for MirrorPlan {
    type V = MirrorPlanView;

    open spec fn deep_view(&self) -> MirrorPlanView {
        self@
    }
}

/// Whether a mirror says where it copies `image_ref` from by its prefix alone: it names neither a
/// registry nor a repository.
pub open spec fn replaces_prefix(m: ImageMirrorView, image_ref: Seq<char>) -> bool {
    &&& claims(m, image_ref)
    &&& m.spec.upstream_registry.len() == 0
    &&& m.spec.repository.len() == 0
}

/// What the local image `image_ref` is copied from by way of mirror `m`: the same tag or digest of
/// the repository that the mirror names; where it names none, the reference with the upstream in
/// place of the prefix.
pub open spec fn source_of(image_ref: Seq<char>, m: ImageMirrorView) -> Seq<char> {
    if replaces_prefix(m, image_ref) {
        m.spec.upstream + image_ref.skip(m.spec.prefix.len() as int)
    } else {
        m.spec.upstream_registry + "/"@ + m.spec.repository + match tag_or_digest(image_ref).0 {
            Some(t) => t,
            None => Seq::<char>::empty(),
        }
    }
}

/// The copy of the local image `image_ref` that mirror `m` calls for on one platform.
pub open spec fn plan_for(
    image_ref: Seq<char>,
    m: ImageMirrorView,
    platform: Option<Seq<char>>,
) -> MirrorPlanView {
    MirrorPlanView {
        source: source_of(image_ref, m),
        destination: image_ref,
        platform,
    }
}

/// The copies of the local image `image_ref` that mirror `m` calls for: one for each of its
/// platforms, in their order; without any, one of no particular platform.
pub open spec fn plans_for(image_ref: Seq<char>, m: ImageMirrorView) -> Seq<MirrorPlanView> {
    if m.spec.platforms.len() == 0 {
        seq![plan_for(image_ref, m, None)]
    } else {
        m.spec.platforms.map_values(|p: Seq<char>| plan_for(image_ref, m, Some(p)))
    }
}

/// Why an image cannot be mirrored.
#[derive(Debug)]
pub enum MirrorError {
    /// No mirror claims the image or serves its repository path.
    NoMirror { repository: String },
}

impl MirrorError {
    /// The error in words.
    pub fn message(&self) -> (r: String)
        ensures
            match self {
                MirrorError::NoMirror { repository } => r@
                    == "no ImageMirror found matching repo "@ + repository@,
            },
    {
        match self {
            MirrorError::NoMirror { repository } => {
                let mut text: String = "no ImageMirror found matching repo ".to_owned();
                text.append(repository.as_str());
                text
            },
        }
    }
}

/// Whether mirror `m` claims `image_ref`.
fn does_claim(m: &ImageMirror, image_ref: &str) -> (r: bool)
    ensures
        r == claims(m@, image_ref@),
{
    m.spec.prefix.as_str().unicode_len() > 0 && starts_with(image_ref, m.spec.prefix.as_str())
}

fn source_on(image_ref: &str, m: &ImageMirror) -> (r: String)
    ensures
        r@ == source_of(image_ref@, m@),
{
    if does_claim(m, image_ref) && m.spec.upstream_registry.as_str().unicode_len() == 0
        && m.spec.repository.as_str().unicode_len() == 0 {
        let n: usize = m.spec.prefix.as_str().unicode_len();
        let end: usize = image_ref.unicode_len();
        let rest = image_ref.substring_char(n, end);
        assert(rest@ =~= image_ref@.skip(n as int));
        let mut source: String = m.spec.upstream.clone();
        source.append(rest);
        return source;
    }
    let (suffix, _) = extract_tag_or_digest(image_ref);
    let mut source: String = m.spec.upstream_registry.clone();
    source.append("/");
    source.append(m.spec.repository.as_str());
    if let Some(t) = &suffix {
        source.append(t.as_str());
    }
    assert(source@ =~= source_of(image_ref@, m@));
    source
}

fn plan_on(image_ref: &str, m: &ImageMirror, platform: Option<String>) -> (r: MirrorPlan)
    ensures
        r@ == plan_for(image_ref@, m@, platform.deep_view()),
{
    MirrorPlan {
        source: source_on(image_ref, m),
        destination: image_ref.to_owned(),
        platform,
    }
}

fn plans_on(image_ref: &str, m: &ImageMirror) -> (r: Vec<MirrorPlan>)
    ensures
        r.deep_view() == plans_for(image_ref@, m@),
{
    let mut plans: Vec<MirrorPlan> = Vec::new();
    if m.spec.platforms.len() == 0 {
        assert(m@.spec.platforms.len() == 0);
        plans.push(plan_on(image_ref, m, None));
        assert(plans.deep_view() =~= plans_for(image_ref@, m@));
        return plans;
    }
    assert(m@.spec.platforms.len() > 0);
    let ghost all = plans_for(image_ref@, m@);
    let mut i: usize = 0;
    assert(plans.deep_view() =~= all.take(0));
    while i < m.spec.platforms.len()
        invariant
            i <= m.spec.platforms.len(),
            m@.spec.platforms.len() > 0,
            all == plans_for(image_ref@, m@),
            plans.deep_view() == all.take(i as int),
        decreases m.spec.platforms.len() - i,
    {
        let ghost done = plans.deep_view();
        plans.push(plan_on(image_ref, m, Some(m.spec.platforms[i].clone())));
        assert(plans.deep_view() =~= done.push(all[i as int]));
        assert(all.take(i + 1) =~= all.take(i as int).push(all[i as int]));
        i += 1;
    }
    assert(all.take(i as int) =~= all);
    plans
}

/// Plans the copies of the local image `image_ref`, an image in `namespace`, given the mirrors of
/// the cluster. They are to be made one after another.
pub fn plan_mirror(
    image_ref: &str,
    namespace: &Option<String>,
    mirrors: &Vec<ImageMirror>,
) -> (r: Result<Vec<MirrorPlan>, MirrorError>)
    ensures
        match r {
            Ok(plans) => exists|i: int|
                #![trigger mirrors.deep_view()[i]]
                chosen(mirrors.deep_view(), image_ref@, namespace.deep_view(), i)
                    && plans.deep_view() == plans_for(image_ref@, mirrors.deep_view()[i]),
            Err(MirrorError::NoMirror { repository }) => {
                &&& repository@ == local_repository(image_ref@)
                &&& without_mirror(mirrors.deep_view(), image_ref@)
            },
        },
{
    match choose_mirror(mirrors, image_ref, namespace) {
        None => Err(
            MirrorError::NoMirror { repository: extract_local_repository(image_ref).to_owned() },
        ),
        Some(i) => {
            assert(mirrors.deep_view()[i as int] == mirrors@[i as int]@);
            Ok(plans_on(image_ref, &mirrors[i]))
        },
    }
}

/// A mirror that is chosen, and the lack of any mirror, exclude each other.
pub proof fn chosen_mirrors_are_there(
    mirrors: Seq<ImageMirrorView>,
    image_ref: Seq<char>,
    namespace: Option<Seq<char>>,
    i: int,
)
    requires
        chosen(mirrors, image_ref, namespace, i),
    ensures
        !without_mirror(mirrors, image_ref),
{
}

/// Where any mirror is there for an image, one is chosen.
pub proof fn one_that_is_there_is_chosen(
    mirrors: Seq<ImageMirrorView>,
    image_ref: Seq<char>,
    namespace: Option<Seq<char>>,
) -> (i: int)
    requires
        !without_mirror(mirrors, image_ref),
    ensures
        chosen(mirrors, image_ref, namespace, i),
{
    if unclaimed(mirrors, image_ref) {
        one_that_serves_is_selected(mirrors, local_repository(image_ref), namespace)
    } else {
        one_that_claims_wins(mirrors, image_ref, namespace)
    }
}

/// Every platform that a mirror asks for is copied once, all from the same upstream image to the
/// local one, and there is always a copy.
pub proof fn every_platform_is_copied(image_ref: Seq<char>, m: ImageMirrorView)
    ensures
        plans_for(image_ref, m).len() == if m.spec.platforms.len() == 0 {
            1
        } else {
            m.spec.platforms.len()
        },
        forall|k: int|
            0 <= k < m.spec.platforms.len() ==> (#[trigger] plans_for(image_ref, m)[k]).platform
                == Some(m.spec.platforms[k]),
        forall|k: int|
            0 <= k < plans_for(image_ref, m).len() ==> {
                &&& (#[trigger] plans_for(image_ref, m)[k]).destination == image_ref
                &&& plans_for(image_ref, m)[k].source == plans_for(image_ref, m)[0].source
            },
{
}

/// The arguments of the copy tool for a plan.
pub open spec fn copy_arguments(plan: MirrorPlanView) -> Seq<Seq<char>> {
    match plan.platform {
        Some(p) => seq!["copy"@, "--platform"@, p, plan.source, plan.destination],
        None => seq!["copy"@, plan.source, plan.destination],
    }
}

impl MirrorPlan {
    /// The arguments with which the copy tool carries out this plan.
    pub fn arguments(&self) -> (r: Vec<String>)
        ensures
            r.deep_view() == copy_arguments(self@),
    {
        let mut args: Vec<String> = Vec::new();
        args.push("copy".to_owned());
        if let Some(p) = &self.platform {
            args.push("--platform".to_owned());
            args.push(p.clone());
        }
        args.push(self.source.clone());
        args.push(self.destination.clone());
        assert(args.deep_view() =~= copy_arguments(self@));
        args
    }
}

/// What became of a run of the copy tool: it succeeded where it could be started and ended
/// successfully. Otherwise the error says what went wrong, in words.
pub fn copy_outcome(spawn_error: Option<String>, success: bool) -> (r: Result<(), String>)
    ensures
        match r {
            Ok(()) => spawn_error is None && success,
            Err(problem) => match spawn_error {
                Some(e) => problem@ == "failed to spawn 'crane': "@ + e@,
                None => !success && problem@ == "crane copy failed"@,
            },
        },
{
    match spawn_error {
        Some(e) => {
            let mut problem: String = "failed to spawn 'crane': ".to_owned();
            problem.append(e.as_str());
            Err(problem)
        },
        None => {
            if success {
                Ok(())
            } else {
                Err("crane copy failed".to_owned())
            }
        },
    }
}

/// The mirror that is selected for a repository path ends with that path, and no other mirror that
/// does comes before it: not one in the namespace of the image where the selected one is not, nor,
/// where both are or neither is, one with an earlier name, or with the same name and an earlier
/// place in the list.
pub proof fn the_selected_mirror_comes_first(
    mirrors: Seq<ImageMirrorView>,
    repo: Seq<char>,
    namespace: Option<Seq<char>>,
    i: int,
    j: int,
    folder: Seq<char>,
)
    requires
        selected(mirrors, repo, namespace, i),
        0 <= j < mirrors.len(),
        mirrors[j].spec.repository == folder + repo,
    ensures
        0 <= i < mirrors.len(),
        mirrors[i].spec.repository.len() >= repo.len(),
        mirrors[i].spec.repository.skip(mirrors[i].spec.repository.len() - repo.len()) == repo,
        comes_no_later(mirrors[i], i, mirrors[j], j, namespace),
{
    let r = mirrors[j].spec.repository;
    assert(r.subrange(r.len() - repo.len(), r.len() as int) =~= repo);
    assert(serves(mirrors[j], repo));
    let own = mirrors[i].spec.repository;
    assert(own.skip(own.len() - repo.len()) =~= repo);
    assert(!preferred(mirrors[j], mirrors[i], namespace));
    String::before_irreflexive(mirrors[i].name);
    if j < i {
        assert(preferred(mirrors[i], mirrors[j], namespace));
    }
}

/// Whether mirror `a` at position `i` comes no later than mirror `b` at position `j`, for an image
/// in `namespace`. A mirror without a namespace stands in the empty one.
pub open spec fn comes_no_later(
    a: ImageMirrorView,
    i: int,
    b: ImageMirrorView,
    j: int,
    namespace: Option<Seq<char>>,
) -> bool {
    let a_near = match a.namespace {
        Some(ns) => namespace == Some(ns),
        None => namespace == Some(Seq::<char>::empty()),
    };
    let b_near = match b.namespace {
        Some(ns) => namespace == Some(ns),
        None => namespace == Some(Seq::<char>::empty()),
    };
    &&& b_near ==> a_near
    &&& a_near == b_near ==> {
        &&& !text_before(b.name, a.name)
        &&& a.name == b.name ==> i <= j
    }
}

/// Where a prefix of some mirror starts the reference, the chosen mirror has such a prefix too, no
/// other is longer, and among equally long ones it comes first. Then the repository does not
/// matter.
pub proof fn the_chosen_mirror_has_the_longest_prefix(
    mirrors: Seq<ImageMirrorView>,
    namespace: Option<Seq<char>>,
    i: int,
    j: int,
    rest: Seq<char>,
)
    requires
        0 <= j < mirrors.len(),
        mirrors[j].spec.prefix.len() > 0,
        chosen(mirrors, mirrors[j].spec.prefix + rest, namespace, i),
    ensures
        ({
            let image_ref = mirrors[j].spec.prefix + rest;
            let prefix = mirrors[i].spec.prefix;
            &&& 0 <= i < mirrors.len()
            &&& mirrors[j].spec.prefix.len() <= prefix.len() <= image_ref.len()
            &&& image_ref.take(prefix.len() as int) == prefix
            &&& prefix.len() == mirrors[j].spec.prefix.len() ==> comes_no_later(
                mirrors[i],
                i,
                mirrors[j],
                j,
                namespace,
            )
        }),
{
    let image_ref = mirrors[j].spec.prefix + rest;
    let own = mirrors[j].spec.prefix;
    assert(image_ref.subrange(0, own.len() as int) =~= own);
    assert(claims(mirrors[j], image_ref));
    assert(!unclaimed(mirrors, image_ref));
    let prefix = mirrors[i].spec.prefix;
    assert(image_ref.take(prefix.len() as int) =~= image_ref.subrange(0, prefix.len() as int));
    assert(!outranks(mirrors[j], mirrors[i], namespace));
    String::before_irreflexive(mirrors[i].name);
    if j < i {
        assert(outranks(mirrors[i], mirrors[j], namespace));
    }
}

/// Where no mirror has a prefix that starts the reference, the chosen mirror is the one that is
/// selected for the repository path of the reference.
pub proof fn without_a_prefix_the_repository_decides(
    mirrors: Seq<ImageMirrorView>,
    image_ref: Seq<char>,
    namespace: Option<Seq<char>>,
    i: int,
)
    requires
        forall|j: int|
            #![trigger mirrors[j]]
            0 <= j < mirrors.len() ==> {
                let prefix = mirrors[j].spec.prefix;
                ||| prefix.len() == 0
                ||| prefix.len() > image_ref.len()
                ||| image_ref.take(prefix.len() as int) != prefix
            },
    ensures
        chosen(mirrors, image_ref, namespace, i) <==> selected(
            mirrors,
            local_repository(image_ref),
            namespace,
            i,
        ),
{
    assert forall|j: int| 0 <= j < mirrors.len() implies !claims(#[trigger] mirrors[j], image_ref) by {
        let prefix = mirrors[j].spec.prefix;
        if claims(mirrors[j], image_ref) {
            assert(image_ref.take(prefix.len() as int) =~= image_ref.subrange(
                0,
                prefix.len() as int,
            ));
        }
    }
}

/// An image has a mirror exactly where some mirror has a prefix that starts its reference, or a
/// repository that ends with its repository path.
pub proof fn an_image_has_a_mirror_by_prefix_or_repository(
    mirrors: Seq<ImageMirrorView>,
    image_ref: Seq<char>,
    j: int,
)
    requires
        0 <= j < mirrors.len(),
    ensures
        ({
            let prefix = mirrors[j].spec.prefix;
            let own = mirrors[j].spec.repository;
            let repo = local_repository(image_ref);
            &&& 0 < prefix.len() <= image_ref.len() && image_ref.take(prefix.len() as int)
                == prefix ==> !without_mirror(mirrors, image_ref)
            &&& own.len() >= repo.len() && own.skip(own.len() - repo.len()) == repo
                ==> !without_mirror(mirrors, image_ref)
        }),
        (forall|k: int|
            0 <= k < mirrors.len() ==> {
                &&& (#[trigger] mirrors[k]).spec.prefix.len() == 0
                    || !mirrors[k].spec.prefix.is_prefix_of(image_ref)
                &&& !local_repository(image_ref).is_suffix_of(mirrors[k].spec.repository)
            }) ==> without_mirror(mirrors, image_ref),
{
    let prefix = mirrors[j].spec.prefix;
    let own = mirrors[j].spec.repository;
    let repo = local_repository(image_ref);
    if 0 < prefix.len() <= image_ref.len() && image_ref.take(prefix.len() as int) == prefix {
        assert(image_ref.subrange(0, prefix.len() as int) =~= prefix);
        assert(claims(mirrors[j], image_ref));
    }
    if own.len() >= repo.len() && own.skip(own.len() - repo.len()) == repo {
        assert(own.subrange(own.len() - repo.len(), own.len() as int) =~= repo);
        assert(serves(mirrors[j], repo));
    }
}

/// A copy from a mirror that names a registry or a repository is made from the registry, a `/` and
/// the repository, followed by the complete digest of the local reference, from its first `@` to
/// its end; and it is made to the local reference.
pub proof fn a_digest_is_copied_whole(
    named: Seq<char>,
    digest: Seq<char>,
    m: ImageMirrorView,
    k: int,
)
    requires
        m.spec.upstream_registry.len() > 0 || m.spec.repository.len() > 0 || m.spec.prefix.len()
            == 0,
        !named.contains('@'),
        0 <= k < plans_for(named + seq!['@'] + digest, m).len(),
    ensures
        ({
            let plan = plans_for(named + seq!['@'] + digest, m)[k];
            &&& plan.source == m.spec.upstream_registry + seq!['/'] + m.spec.repository + (seq!['@']
                + digest)
            &&& plan.destination == named + seq!['@'] + digest
        }),
{
    reveal_strlit("/");
    assert("/"@ =~= seq!['/']);
    digest_follows_the_first_at_sign(named, digest);
}

/// A copy from a mirror that names a registry or a repository is made from the registry, a `/` and
/// the repository, followed by the complete tag of the local reference, from its `:` to its end;
/// and it is made to the local reference.
pub proof fn a_tag_is_copied_whole(
    path: Seq<char>,
    name: Seq<char>,
    tag: Seq<char>,
    m: ImageMirrorView,
    k: int,
)
    requires
        m.spec.upstream_registry.len() > 0 || m.spec.repository.len() > 0 || m.spec.prefix.len()
            == 0,
        !path.contains('@') && !name.contains('@') && !tag.contains('@'),
        !name.contains('/') && !tag.contains('/'),
        !tag.contains(':'),
        0 <= k < plans_for(path + seq!['/'] + name + seq![':'] + tag, m).len(),
    ensures
        ({
            let plan = plans_for(path + seq!['/'] + name + seq![':'] + tag, m)[k];
            &&& plan.source == m.spec.upstream_registry + seq!['/'] + m.spec.repository + (seq![':']
                + tag)
            &&& plan.destination == path + seq!['/'] + name + seq![':'] + tag
        }),
{
    reveal_strlit("/");
    assert("/"@ =~= seq!['/']);
    tag_follows_the_last_colon(path, name, tag);
}

/// A copy of a local reference with neither a tag nor a digest, from a mirror that names a
/// registry or a repository, is made from the registry, a `/` and the repository alone.
pub proof fn a_bare_reference_is_copied_bare(
    path: Seq<char>,
    name: Seq<char>,
    m: ImageMirrorView,
    k: int,
)
    requires
        m.spec.upstream_registry.len() > 0 || m.spec.repository.len() > 0 || m.spec.prefix.len()
            == 0,
        !path.contains('@') && !name.contains('@'),
        !name.contains('/') && !name.contains(':'),
        0 <= k < plans_for(path + seq!['/'] + name, m).len(),
    ensures
        ({
            let plan = plans_for(path + seq!['/'] + name, m)[k];
            &&& plan.source == m.spec.upstream_registry + seq!['/'] + m.spec.repository
            &&& plan.destination == path + seq!['/'] + name
        }),
{
    reveal_strlit("/");
    assert("/"@ =~= seq!['/']);
    without_a_colon_there_is_no_tag(path, name);
    let plan = plans_for(path + seq!['/'] + name, m)[k];
    assert(plan.source =~= m.spec.upstream_registry + seq!['/'] + m.spec.repository);
}

/// A copy from a mirror that names neither a registry nor a repository is made from the local
/// reference with the upstream in place of the prefix, and everything behind the prefix kept.
pub proof fn an_upstream_takes_the_place_of_the_prefix(
    rest: Seq<char>,
    m: ImageMirrorView,
    k: int,
)
    requires
        m.spec.upstream_registry.len() == 0,
        m.spec.repository.len() == 0,
        m.spec.prefix.len() > 0,
        0 <= k < plans_for(m.spec.prefix + rest, m).len(),
    ensures
        plans_for(m.spec.prefix + rest, m)[k].source == m.spec.upstream + rest,
        plans_for(m.spec.prefix + rest, m)[k].destination == m.spec.prefix + rest,
{
    let image_ref = m.spec.prefix + rest;
    assert(image_ref.subrange(0, m.spec.prefix.len() as int) =~= m.spec.prefix);
    assert(claims(m, image_ref));
    assert(image_ref.skip(m.spec.prefix.len() as int) =~= rest);
}

/// The copy tool is told to copy, then the platform where there is one, and last the source and
/// the destination, in this order and nothing else.
pub proof fn the_copy_tool_is_told_the_whole_plan(plan: MirrorPlanView)
    ensures
        ({
            let args = copy_arguments(plan);
            let n = args.len() as int;
            &&& args[0] == "copy"@
            &&& args[n - 2] == plan.source
            &&& args[n - 1] == plan.destination
            &&& plan.platform is None ==> n == 3
            &&& plan.platform matches Some(p) ==> n == 5 && args[1] == "--platform"@ && args[2] == p
        }),
{
}

} // verus!
