//! What the controller is told about its surroundings.

use vstd::prelude::*;

use crate::text::{
    trim, trimmed, trimming_gives_back_what_white_space_surrounds, white_space,
};

verus! {

/// What a [`ControllerConfig`] denotes.
pub ghost struct ControllerConfigView {
    pub namespace: Seq<char>,
    pub registry_host: Seq<char>,
}

/// The settings of the controller.
#[derive(Debug)]
pub struct ControllerConfig {
    /// The namespace in which Image resources are created.
    pub namespace: String,
    /// The registry whose images are tracked.
    pub registry_host: String,
}

impl View for ControllerConfig {
    type V = ControllerConfigView;

    open spec fn view(&self) -> ControllerConfigView {
        ControllerConfigView { namespace: self.namespace@, registry_host: self.registry_host@ }
    }
}

impl Clone for ControllerConfig {
    fn clone(&self) -> (r: Self)
        ensures
            r@ == self@,
    {
        ControllerConfig {
            namespace: self.namespace.clone(),
            registry_host: self.registry_host.clone(),
        }
    }
}

/// The namespace of the controller: the one that was asked for; else the one that the mounted
/// service account tells, unless it is blank; else the one of the environment; else `default`.
pub open spec fn controller_namespace(
    explicit: Option<Seq<char>>,
    mounted: Option<Seq<char>>,
    environment: Option<Seq<char>>,
) -> Seq<char> {
    match explicit {
        Some(ns) => ns,
        None => if mounted is Some && trimmed(mounted->0).len() > 0 {
            trimmed(mounted->0)
        } else {
            match environment {
                Some(ns) => ns,
                None => "default"@,
            }
        },
    }
}

/// The namespace of the controller, given the one that was asked for, the text of the namespace
/// file of the service account, and the value of the environment variable.
pub fn detect_controller_namespace(
    explicit: &Option<String>,
    mounted: &Option<String>,
    environment: &Option<String>,
) -> (r: String)
    ensures
        r@ == controller_namespace(
            explicit.deep_view(),
            mounted.deep_view(),
            environment.deep_view(),
        ),
{
    if let Some(ns) = explicit {
        return ns.clone();
    }
    if let Some(text) = mounted {
        let ns = trim(text.as_str());
        if !ns.is_empty() {
            return ns.to_owned();
        }
    }
    match environment {
        Some(ns) => ns.clone(),
        None => "default".to_owned(),
    }
}

/// A namespace that was asked for is taken as it is. Without one, the text of the mounted file
/// counts without the white space around it; where nothing is left of it, or there is no such
/// file, the environment decides, and without that the namespace is `default`.
pub proof fn namespace_comes_from_the_first_source_that_tells(
    asked: Seq<char>,
    left: Seq<char>,
    mounted: Seq<char>,
    right: Seq<char>,
    environment: Seq<char>,
    other_mounted: Option<Seq<char>>,
    other_environment: Option<Seq<char>>,
)
    requires
        forall|i: int| 0 <= i < left.len() ==> white_space(#[trigger] left[i]),
        forall|i: int| 0 <= i < right.len() ==> white_space(#[trigger] right[i]),
        mounted.len() > 0,
        !white_space(mounted[0]),
        !white_space(mounted.last()),
    ensures
        controller_namespace(Some(asked), other_mounted, other_environment) == asked,
        controller_namespace(None, Some(left + mounted + right), other_environment) == mounted,
        controller_namespace(None, Some(left), Some(environment)) == environment,
        controller_namespace(None, Some(left), None) == "default"@,
        controller_namespace(None, None, Some(environment)) == environment,
        controller_namespace(None, None, None) == "default"@,
{
    let none = Seq::<char>::empty();
    trimming_gives_back_what_white_space_surrounds(left, mounted, right);
    trimming_gives_back_what_white_space_surrounds(left, none, none);
    assert(left + none + none =~= left);
}

} // verus!
