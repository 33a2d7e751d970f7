//! What a watch on the cluster delivers.

use vstd::prelude::*;

verus! {

/// A change that a watch reports.
#[derive(Debug)]
pub enum WatchEvent<T> {
    /// An object was added or modified.
    Apply(T),
    /// An object is part of the initial listing.
    InitApply(T),
    /// An object was deleted.
    Delete(T),
    /// The initial listing starts.
    Init,
    /// The initial listing is complete.
    InitDone,
}

impl<T: DeepView> DeepView for WatchEvent<T> {
    type V = WatchEvent<T::V>;

    open spec fn deep_view(&self) -> WatchEvent<T::V> {
        match self {
            WatchEvent::Apply(t) => WatchEvent::Apply(t.deep_view()),
            WatchEvent::InitApply(t) => WatchEvent::InitApply(t.deep_view()),
            WatchEvent::Delete(t) => WatchEvent::Delete(t.deep_view()),
            WatchEvent::Init => WatchEvent::Init,
            WatchEvent::InitDone => WatchEvent::InitDone,
        }
    }
}

/// An item of the stream of a watch.
#[derive(Debug)]
pub enum StreamItem<T> {
    /// A change.
    Event(WatchEvent<T>),
    /// The stream reported an error and goes on.
    Failed,
    /// The stream has ended.
    Ended,
}

impl<T: DeepView> DeepView for StreamItem<T> {
    type V = StreamItem<T::V>;

    open spec fn deep_view(&self) -> StreamItem<T::V> {
        match self {
            StreamItem::Event(e) => StreamItem::Event(e.deep_view()),
            StreamItem::Failed => StreamItem::Failed,
            StreamItem::Ended => StreamItem::Ended,
        }
    }
}

} // verus!
