//! The attempt to copy an image from upstream: listing the mirrors, and then one copy after another
//! until one fails or all are made.
//!
//! Listing and copying are left to whoever drives the attempt, who tells how each went.

use vstd::prelude::*;

use crate::mirroring::{
    choice_is_unique, chosen, chosen_mirrors_are_there, every_platform_is_copied,
    one_that_is_there_is_chosen, plan_mirror, plans_for, without_mirror, MirrorPlan,
    MirrorPlanView,
};
use crate::reference::local_repository;
use crate::resources::imagemirror::{ImageMirror, ImageMirrorView};

verus! {

/// The copies that are to be made of `image_ref`, an image in `namespace`, given the mirrors of
/// the cluster; none where no mirror is there for it.
pub open spec fn planned(
    mirrors: Seq<ImageMirrorView>,
    image_ref: Seq<char>,
    namespace: Option<Seq<char>>,
) -> Option<Seq<MirrorPlanView>> {
    if without_mirror(mirrors, image_ref) {
        None
    } else {
        let i = choose|i: int| #[trigger] chosen(mirrors, image_ref, namespace, i);
        Some(plans_for(image_ref, mirrors[i]))
    }
}

/// What is planned is what the chosen mirror calls for.
pub proof fn planned_by_the_chosen_mirror(
    mirrors: Seq<ImageMirrorView>,
    image_ref: Seq<char>,
    namespace: Option<Seq<char>>,
    i: int,
)
    requires
        chosen(mirrors, image_ref, namespace, i),
    ensures
        planned(mirrors, image_ref, namespace) == Some(plans_for(image_ref, mirrors[i])),
{
    chosen_mirrors_are_there(mirrors, image_ref, namespace, i);
    let j = choose|j: int| #[trigger] chosen(mirrors, image_ref, namespace, j);
    choice_is_unique(mirrors, image_ref, namespace, i, j);
}

/// What a [`MirrorAttempt`] denotes.
pub ghost enum MirrorAttemptView {
    /// These copies are left; the first one is being made.
    Copying(Seq<MirrorPlanView>),
    /// The attempt has ended, with this problem where there was one.
    Ended(Option<Seq<char>>),
}

/// What a [`MirrorAction`] denotes.
pub ghost enum MirrorActionView {
    Copy(MirrorPlanView),
    Succeed,
    Fail(Seq<char>),
}

/// What an attempt asks to be done next.
#[derive(Debug)]
pub enum MirrorAction {
    /// Make this copy.
    Copy(MirrorPlan),
    /// Nothing: the image is mirrored.
    Succeed,
    /// Nothing: the attempt failed with this problem.
    Fail(String),
}

impl View for MirrorAction {
    type V = MirrorActionView;

    open spec fn view(&self) -> MirrorActionView {
        match self {
            MirrorAction::Copy(plan) => MirrorActionView::Copy(plan@),
            MirrorAction::Succeed => MirrorActionView::Succeed,
            MirrorAction::Fail(problem) => MirrorActionView::Fail(problem@),
        }
    }
}

/// The problem that an outcome tells of, where there is one.
pub open spec fn problem_of(outcome: Result<(), String>) -> Option<Seq<char>> {
    match outcome {
        Ok(()) => None,
        Err(problem) => Some(problem@),
    }
}

/// The attempt with these copies left.
pub open spec fn copying(plans: Seq<MirrorPlanView>) -> MirrorAttemptView {
    if plans.len() == 0 {
        MirrorAttemptView::Ended(None)
    } else {
        MirrorAttemptView::Copying(plans)
    }
}

/// The attempt to mirror `image_ref`, an image in `namespace`, once the mirrors are listed: it
/// fails without a copy where listing them failed, or where none is there for the image.
pub open spec fn attempted(
    image_ref: Seq<char>,
    namespace: Option<Seq<char>>,
    listed: Result<Seq<ImageMirrorView>, Seq<char>>,
) -> MirrorAttemptView {
    match listed {
        Err(problem) => MirrorAttemptView::Ended(Some(problem)),
        Ok(mirrors) => match planned(mirrors, image_ref, namespace) {
            None => MirrorAttemptView::Ended(
                Some("no ImageMirror found matching repo "@ + local_repository(image_ref)),
            ),
            Some(plans) => copying(plans),
        },
    }
}

/// The attempt after the copy that was being made ended with `problem`, or well without one: the
/// first copy that fails ends the attempt, and so does the last one.
pub open spec fn copied(a: MirrorAttemptView, problem: Option<Seq<char>>) -> MirrorAttemptView {
    match a {
        MirrorAttemptView::Copying(plans) => match problem {
            None => copying(plans.skip(1)),
            Some(p) => MirrorAttemptView::Ended(Some(p)),
        },
        MirrorAttemptView::Ended(_) => a,
    }
}

/// What an attempt asks to be done.
pub open spec fn action_of(a: MirrorAttemptView) -> MirrorActionView {
    match a {
        MirrorAttemptView::Copying(plans) => MirrorActionView::Copy(plans[0]),
        MirrorAttemptView::Ended(None) => MirrorActionView::Succeed,
        MirrorAttemptView::Ended(Some(problem)) => MirrorActionView::Fail(problem),
    }
}

/// The mirrors of the cluster, or the problem with listing them, as they are denoted.
pub open spec fn listing(listed: Result<Vec<ImageMirror>, String>) -> Result<
    Seq<ImageMirrorView>,
    Seq<char>,
> {
    match listed {
        Ok(mirrors) => Ok(mirrors.deep_view()),
        Err(problem) => Err(problem@),
    }
}

/// The attempt to mirror one image.
pub struct MirrorAttempt {
    plans: Vec<MirrorPlan>,
    done: usize,
    problem: Option<String>,
}

impl View for MirrorAttempt {
    type V = MirrorAttemptView;

    closed spec fn view(&self) -> MirrorAttemptView {
        match self.problem {
            Some(problem) => MirrorAttemptView::Ended(Some(problem@)),
            None => copying(self.plans.deep_view().skip(self.done as int)),
        }
    }
}

impl MirrorAttempt {
    #[verifier::type_invariant]
    spec fn in_bounds(self) -> bool {
        self.done <= self.plans@.len()
    }

    /// Starts to mirror `image_ref`, an image in `namespace`, given the mirrors of the cluster or
    /// the problem with listing them.
    pub fn begin(
        image_ref: &str,
        namespace: &Option<String>,
        listed: &Result<Vec<ImageMirror>, String>,
    ) -> (r: MirrorAttempt)
        ensures
            r@ == attempted(image_ref@, namespace.deep_view(), listing(*listed)),
    {
        match listed {
            Err(problem) => MirrorAttempt {
                plans: Vec::new(),
                done: 0,
                problem: Some(problem.clone()),
            },
            Ok(mirrors) => match plan_mirror(image_ref, namespace, mirrors) {
                Err(e) => MirrorAttempt {
                    plans: Vec::new(),
                    done: 0,
                    problem: Some(e.message()),
                },
                Ok(plans) => {
                    proof {
                        let ms = mirrors.deep_view();
                        let ns = namespace.deep_view();
                        let i = choose|i: int|
                            #![trigger mirrors.deep_view()[i]]
                            chosen(ms, image_ref@, ns, i) && plans.deep_view() == plans_for(
                                image_ref@,
                                mirrors.deep_view()[i],
                            );
                        planned_by_the_chosen_mirror(ms, image_ref@, ns, i);
                        assert(plans.deep_view().skip(0) =~= plans.deep_view());
                    }
                    MirrorAttempt { plans, done: 0, problem: None }
                },
            },
        }
    }

    /// What is to be done next.
    pub fn action(&self) -> (r: MirrorAction)
        ensures
            r@ == action_of(self@),
    {
        proof {
            use_type_invariant(&*self);
        }
        match &self.problem {
            Some(problem) => MirrorAction::Fail(problem.clone()),
            None => {
                if self.done < self.plans.len() {
                    assert(self.plans.deep_view().skip(self.done as int)[0]
                        == self.plans@[self.done as int]@);
                    MirrorAction::Copy(self.plans[self.done].clone())
                } else {
                    MirrorAction::Succeed
                }
            },
        }
    }

    /// Takes note of how the copy went that was being made.
    pub fn step(&mut self, outcome: Result<(), String>)
        ensures
            final(self)@ == copied(old(self)@, problem_of(outcome)),
    {
        proof {
            use_type_invariant(&*self);
        }
        let n: usize = self.plans.len();
        if self.problem.is_none() && self.done < n {
            match outcome {
                Ok(()) => {
                    let ghost all = self.plans.deep_view();
                    assert(all.skip(self.done as int).skip(1) =~= all.skip(self.done + 1));
                    self.done = self.done + 1;
                },
                Err(problem) => {
                    self.problem = Some(problem);
                },
            }
        }
    }
}

/// The state of an attempt after copies with these problems, each where there was one.
pub open spec fn after_copies(
    a: MirrorAttemptView,
    problems: Seq<Option<Seq<char>>>,
) -> MirrorAttemptView
    decreases problems.len(),
{
    if problems.len() == 0 {
        a
    } else {
        copied(after_copies(a, problems.drop_last()), problems.last())
    }
}

/// Whether the first `n` copies went well.
pub open spec fn went_well(problems: Seq<Option<Seq<char>>>, n: int) -> bool {
    forall|k: int| 0 <= k < n ==> #[trigger] problems[k] is None
}

proof fn lemma_after_copies(plans: Seq<MirrorPlanView>, problems: Seq<Option<Seq<char>>>)
    ensures
        problems.len() <= plans.len() && went_well(problems, problems.len() as int)
            ==> after_copies(copying(plans), problems) == copying(plans.skip(problems.len() as int)),
        problems.len() > plans.len() && went_well(problems, plans.len() as int) ==> after_copies(
            copying(plans),
            problems,
        ) == MirrorAttemptView::Ended(None),
        forall|k: int|
            0 <= k < problems.len() && k < plans.len() && went_well(problems, k)
                && #[trigger] problems[k] is Some ==> after_copies(copying(plans), problems)
                == MirrorAttemptView::Ended(problems[k]),
    decreases problems.len(),
{
    let n = problems.len();
    if n == 0 {
        assert(plans.skip(0) =~= plans);
    } else {
        let before = problems.drop_last();
        lemma_after_copies(plans, before);
        assert forall|k: int| 0 <= k < n - 1 implies #[trigger] before[k] == problems[k] by {}
        if n <= plans.len() && went_well(problems, n as int) {
            assert(problems[n - 1] is None);
            assert(plans.skip(n - 1).skip(1) =~= plans.skip(n as int));
        }
        if n == plans.len() + 1 && went_well(problems, plans.len() as int) {
            assert(plans.skip(plans.len() as int).len() == 0);
        }
        assert forall|k: int|
            0 <= k < n && k < plans.len() && went_well(problems, k)
                && #[trigger] problems[k] is Some implies after_copies(copying(plans), problems)
            == MirrorAttemptView::Ended(problems[k]) by {
            if k < n - 1 {
                assert(before[k] == problems[k]);
            } else {
                assert(after_copies(copying(plans), before) == copying(plans.skip(n - 1)));
            }
        }
    }
}

/// An attempt succeeds exactly where listing the mirrors succeeded, one is there for the image,
/// and every copy that it calls for was made and went well.
pub proof fn attempt_succeeds_with_all_its_copies(
    image_ref: Seq<char>,
    namespace: Option<Seq<char>>,
    listed: Result<Seq<ImageMirrorView>, Seq<char>>,
    problems: Seq<Option<Seq<char>>>,
)
    ensures
        action_of(after_copies(attempted(image_ref, namespace, listed), problems))
            == MirrorActionView::Succeed <==> (listed matches Ok(mirrors) && planned(
            mirrors,
            image_ref,
            namespace,
        ) matches Some(plans) && plans.len() <= problems.len() && went_well(
            problems,
            plans.len() as int,
        )),
{
    let start = attempted(image_ref, namespace, listed);
    lemma_ended_stays(start, problems);
    if let Ok(mirrors) = listed {
        if let Some(plans) = planned(mirrors, image_ref, namespace) {
            lemma_after_copies(plans, problems);
            let n = plans.len() as int;
            if n <= problems.len() && went_well(problems, n) {
                assert(plans.skip(n).len() == 0);
            } else if problems.len() < n && went_well(problems, problems.len() as int) {
                assert(plans.skip(problems.len() as int).len() > 0);
            } else {
                let k = lemma_first_problem(problems, if n <= problems.len() {
                    n
                } else {
                    problems.len() as int
                });
                assert(problems[k] is Some);
            }
        }
    }
}

/// Among copies of which one failed there is a first one that did.
proof fn lemma_first_problem(problems: Seq<Option<Seq<char>>>, n: int) -> (k: int)
    requires
        0 <= n <= problems.len(),
        !went_well(problems, n),
    ensures
        0 <= k < n,
        went_well(problems, k),
        problems[k] is Some,
    decreases n,
{
    if went_well(problems, n - 1) {
        n - 1
    } else {
        lemma_first_problem(problems, n - 1)
    }
}

proof fn lemma_ended_stays(a: MirrorAttemptView, problems: Seq<Option<Seq<char>>>)
    ensures
        a is Ended ==> after_copies(a, problems) == a,
    decreases problems.len(),
{
    if problems.len() > 0 {
        lemma_ended_stays(a, problems.drop_last());
    }
}

/// The copies are made one after another, each once and in order, as long as they go well; the
/// first that fails ends the attempt with its problem, whatever would have come after it.
pub proof fn copies_stop_at_the_first_failure(
    image_ref: Seq<char>,
    namespace: Option<Seq<char>>,
    mirrors: Seq<ImageMirrorView>,
    plans: Seq<MirrorPlanView>,
    problems: Seq<Option<Seq<char>>>,
    k: int,
)
    requires
        planned(mirrors, image_ref, namespace) == Some(plans),
        0 <= k < plans.len(),
        k <= problems.len(),
        went_well(problems, k),
    ensures
        ({
            let start = attempted(image_ref, namespace, Ok(mirrors));
            &&& action_of(after_copies(start, problems.take(k))) == MirrorActionView::Copy(
                plans[k],
            )
            &&& k < problems.len() && problems[k] is Some ==> action_of(
                after_copies(start, problems),
            ) == MirrorActionView::Fail(problems[k]->0)
        }),
{
    let made = problems.take(k);
    assert forall|j: int| 0 <= j < k implies #[trigger] made[j] is None by {
        assert(problems[j] is None);
    }
    lemma_after_copies(plans, made);
    assert(plans.skip(k)[0] == plans[k]);
    lemma_after_copies(plans, problems);
}

/// Where listing the mirrors failed, or none is there for the image, the attempt fails without a
/// copy and says why, whatever outcomes it is told.
pub proof fn nothing_is_copied_without_a_mirror(
    image_ref: Seq<char>,
    namespace: Option<Seq<char>>,
    listed: Result<Seq<ImageMirrorView>, Seq<char>>,
    problems: Seq<Option<Seq<char>>>,
)
    requires
        listed matches Ok(mirrors) ==> without_mirror(mirrors, image_ref),
    ensures
        action_of(after_copies(attempted(image_ref, namespace, listed), problems))
            == MirrorActionView::Fail(
            match listed {
                Ok(_) => "no ImageMirror found matching repo "@ + local_repository(image_ref),
                Err(problem) => problem,
            },
        ),
{
    lemma_ended_stays(attempted(image_ref, namespace, listed), problems);
}

/// Where any mirror is there for the image, the attempt begins with the first copy that the chosen
/// one calls for.
pub proof fn a_mirrored_image_is_copied(
    image_ref: Seq<char>,
    namespace: Option<Seq<char>>,
    mirrors: Seq<ImageMirrorView>,
) -> (i: int)
    requires
        !without_mirror(mirrors, image_ref),
    ensures
        chosen(mirrors, image_ref, namespace, i),
        action_of(attempted(image_ref, namespace, Ok(mirrors))) == MirrorActionView::Copy(
            plans_for(image_ref, mirrors[i])[0],
        ),
{
    let i = one_that_is_there_is_chosen(mirrors, image_ref, namespace);
    planned_by_the_chosen_mirror(mirrors, image_ref, namespace, i);
    every_platform_is_copied(image_ref, mirrors[i]);
    i
}

/// An outcome tells of a problem exactly where it is an error, and of that one; and a list of
/// mirrors stands for all of them, in order.
pub proof fn outcomes_tell_what_happened(
    problem: String,
    mirrors: Vec<ImageMirror>,
    i: int,
)
    ensures
        problem_of(Ok(())) is None,
        problem_of(Err(problem)) == Some(problem@),
        listing(Err(problem)) == Err::<Seq<ImageMirrorView>, Seq<char>>(problem@),
        listing(Ok(mirrors)) matches Ok(seen) && seen.len() == mirrors@.len() && (0 <= i
            < mirrors@.len() ==> seen[i] == mirrors@[i]@),
{
}

} // verus!
