//! The limiter's view of a metric event: the ordered tag pairs it carries,
//! if any. The surrounding pipeline owns the rest of the metric (its name,
//! kind and sample value) and reattaches it after the transform; the limiter
//! inspects and rewrites only the tags.

use vstd::prelude::*;

verus! {

/// The tag pairs of one metric event, in the event's natural order. An event
/// may carry several pairs with the same key; they are processed
/// independently. An event without tags passes through the limiter
/// unchanged.
#[derive(Debug, Clone, PartialEq)]
pub struct Event {
    /// The (key, value) tag pairs, or none for an untagged event.
    pub tags: Option<Vec<(String, String)>>,
}

/// The views of a sequence of tag pairs.
pub open spec fn pair_views(pairs: Seq<(String, String)>) -> Seq<(Seq<char>, Seq<char>)> {
    pairs.map_values(|p: (String, String)| (p.0@, p.1@))
}

impl Event {
    /// The views of this event's tag pairs, if it has any.
    pub open spec fn tag_views(self) -> Option<Seq<(Seq<char>, Seq<char>)>> {
        match self.tags {
            Some(pairs) => Some(pair_views(pairs@)),
            None => None,
        }
    }

    /// An event carrying the given tag pairs.
    pub fn with_tags(tags: Vec<(String, String)>) -> (r: Event)
        ensures
            r.tags is Some,
            r.tag_views() == Some(pair_views(tags@)),
    {
        Event { tags: Some(tags) }
    }

    /// An event carrying no tags.
    pub fn untagged() -> (r: Event)
        ensures
            r.tags is None,
            r.tag_views() is None,
    {
        Event { tags: None }
    }
}

} // verus!
