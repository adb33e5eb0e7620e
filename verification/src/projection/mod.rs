use vstd::prelude::*;

use crate::ids::{MemoryId, RevisionId, SpaceId};

pub mod embedding_view;
pub mod entities;
pub mod lexical;
pub mod relations;
pub mod rerank_view;
pub mod serving;
pub mod structural;
pub mod tags;
pub mod temporal;

verus! {

/// The version of the projection schema that Derived artifacts carry.
pub const PROJECTION_SCHEMA_VERSION: u32 = 1;

/// The Memory revision a projection was built for, where it is known.
#[derive(Clone, Copy, Debug)]
pub struct ProjectionTarget {
    pub space_id: Option<SpaceId>,
    pub memory_id: Option<MemoryId>,
    pub revision_id: Option<RevisionId>,
}

/// The target that names no revision.
pub open spec fn unnamed_target(target: ProjectionTarget) -> bool {
    target.space_id is None && target.memory_id is None && target.revision_id is None
}

impl Default for ProjectionTarget {
    fn default() -> (target: Self)
        ensures
            unnamed_target(target),
    {
        ProjectionTarget { space_id: None, memory_id: None, revision_id: None }
    }
}

impl ProjectionTarget {
    /// The target of one revision.
    pub fn of(space_id: SpaceId, memory_id: MemoryId, revision_id: RevisionId) -> (target: Self)
        ensures
            target.space_id == Some(space_id),
            target.memory_id == Some(memory_id),
            target.revision_id == Some(revision_id),
    {
        ProjectionTarget {
            space_id: Some(space_id),
            memory_id: Some(memory_id),
            revision_id: Some(revision_id),
        }
    }
}

} // verus!
