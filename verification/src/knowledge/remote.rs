//! The composed remote plane: vectors in one service, the entity graph in another.

use vstd::prelude::*;

use super::falkor::EntityDeleteOutcome;
use super::{KsCapabilities, VectorSpace};

verus! {

/// What the composed plane can do.
pub fn capabilities() -> (res: KsCapabilities)
    ensures
        res == (KsCapabilities { filtered_ann: true, graph_traversal: true }),
{
    KsCapabilities { filtered_ann: true, graph_traversal: true }
}

/// Whether the ids written to a space become chunks of the graph, too.
pub fn holds_chunks(space: &VectorSpace) -> (res: bool)
    ensures
        res == (space is Chunks),
{
    match space {
        VectorSpace::Chunks { .. } => true,
        VectorSpace::EntityNames => false,
    }
}

/// What follows the deletion of an entity in the graph: whether its vector is purged, and whether
/// the entity was removed. An entity that is still referenced keeps its vector; a vector without an
/// entity is purged, though nothing was removed.
pub fn after_delete(outcome: &EntityDeleteOutcome) -> (res: (bool, bool))
    ensures
        res.0 == !(outcome is Referenced),
        res.1 == (outcome is Deleted),
{
    match outcome {
        EntityDeleteOutcome::Deleted => (true, true),
        EntityDeleteOutcome::Absent => (true, false),
        EntityDeleteOutcome::Referenced => (false, false),
    }
}

} // verus!
