use vstd::prelude::*;

use crate::ir::{id_view, nearest_container_id, nearest_container_id_of, node_views, IrView, MemoryIr, NodeView, SemanticKind, SemanticNodeId};
use crate::projection::{unnamed_target, ProjectionTarget};
use crate::DerivedError;

verus! {

/// One node of the structure: its kind, id and the id of its nearest
/// container.
#[derive(Clone, Debug)]
pub struct StructuralEntry {
    pub target: ProjectionTarget,
    pub kind: SemanticKind,
    pub node_id: Option<SemanticNodeId>,
    pub parent_node_id: Option<SemanticNodeId>,
}

/// The structure of a revision: one entry per node, in node order.
#[derive(Clone, Debug)]
pub struct StructuralArtifact {
    target: ProjectionTarget,
    entries: Vec<StructuralEntry>,
}

impl View for StructuralArtifact {
    type V = (ProjectionTarget, Seq<StructuralEntry>);

    closed spec fn view(&self) -> (ProjectionTarget, Seq<StructuralEntry>) {
        (self.target, self.entries@)
    }
}

/// `entry` describes `node` of `ir` for `target`.
pub open spec fn describes_structure(
    entry: StructuralEntry,
    target: ProjectionTarget,
    ir: IrView,
    node: NodeView,
) -> bool {
    &&& entry.target == target
    &&& entry.kind == node.kind
    &&& id_view(entry.node_id) == node.id
    &&& id_view(entry.parent_node_id) == nearest_container_id(ir.nodes, node)
}

/// The artifact holds one entry per node of `ir`, in order.
pub open spec fn structure_of(artifact: StructuralArtifact, target: ProjectionTarget, ir: IrView) -> bool {
    &&& artifact@.0 == target
    &&& artifact@.1.len() == ir.nodes.len()
    &&& forall|i: int|
        0 <= i < ir.nodes.len() ==> describes_structure(
            #[trigger] artifact@.1[i],
            target,
            ir,
            ir.nodes[i],
        )
}

pub struct StructuralBuilder;

impl StructuralBuilder {
    pub fn build(ir: &MemoryIr) -> (result: Result<StructuralArtifact, DerivedError>)
        ensures
            result matches Ok(artifact) && unnamed_target(artifact@.0) && structure_of(
                artifact,
                artifact@.0,
                ir@,
            ),
    {
        Self::build_for(ir, ProjectionTarget::default())
    }

    pub fn build_for(ir: &MemoryIr, target: ProjectionTarget) -> (result: Result<
        StructuralArtifact,
        DerivedError,
    >)
        ensures
            result matches Ok(artifact) && structure_of(artifact, target, ir@),
    {
        let nodes = ir.nodes();
        let mut entries: Vec<StructuralEntry> = Vec::new();
        let mut i: usize = 0;
        while i < nodes.len()
            invariant
                node_views(nodes@) == ir@.nodes,
                i <= nodes@.len(),
                entries@.len() == i,
                forall|k: int|
                    0 <= k < i ==> describes_structure(
                        #[trigger] entries@[k],
                        target,
                        ir@,
                        ir@.nodes[k],
                    ),
            decreases nodes@.len() - i,
        {
            let node = &nodes[i];
            assert(ir@.nodes[i as int] == node@);
            let node_id = match node.id() {
                Some(id) => Some(id.clone()),
                None => None,
            };
            let parent_node_id = nearest_container_id_of(ir, node);
            entries.push(StructuralEntry { target, kind: node.kind(), node_id, parent_node_id });
            i = i + 1;
        }
        Ok(StructuralArtifact { target, entries })
    }
}

impl StructuralArtifact {
    pub fn target(&self) -> (target: ProjectionTarget)
        ensures
            target == self@.0,
    {
        self.target
    }

    pub fn entries(&self) -> (entries: &[StructuralEntry])
        ensures
            entries@ == self@.1,
    {
        self.entries.as_slice()
    }
}

} // verus!
