//! The values that priority information is made of on the wire.

use vstd::prelude::*;

verus! {

/// The number of a stream; zero is the root that every dependency chain hangs from.
#[derive(Clone, Copy, Debug, PartialEq, Eq, Hash, Structural)]
pub struct StreamId(pub u32);

impl StreamId {
    /// The root, as a specification value.
    pub open spec fn spec_zero() -> StreamId {
        StreamId(0)
    }

    /// The root of the dependency tree.
    #[verifier::when_used_as_spec(spec_zero)]
    pub fn zero() -> (id: StreamId)
        ensures
            id == StreamId::spec_zero(),
    {
        StreamId(0)
    }
}

/// What a stream depends on: its parent, its encoded weight, and whether it takes
/// over the other children of that parent.
#[derive(Clone, Copy, Debug, PartialEq, Eq, Structural)]
pub struct StreamDependency {
    pub dependency_id: StreamId,
    pub weight: u8,
    pub is_exclusive: bool,
}

impl StreamDependency {
    /// A dependency on `dependency_id`.
    pub fn new(dependency_id: StreamId, weight: u8, is_exclusive: bool) -> (dependency: Self)
        ensures
            dependency == (StreamDependency { dependency_id, weight, is_exclusive }),
    {
        StreamDependency { dependency_id, weight, is_exclusive }
    }
}

/// A PRIORITY frame: it moves one stream to a new dependency.
#[derive(Clone, Copy, Debug, PartialEq, Eq, Structural)]
pub struct Priority {
    pub stream_id: StreamId,
    pub dependency: StreamDependency,
}

impl Priority {
    /// A frame that gives `stream_id` a new dependency.
    pub fn new(stream_id: StreamId, dependency: StreamDependency) -> (priority: Self)
        ensures
            priority == (Priority { stream_id, dependency }),
    {
        Priority { stream_id, dependency }
    }
}

} // verus!
