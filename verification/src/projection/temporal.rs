use vstd::prelude::*;

use crate::ir::{id_view, node_views, temporal_view, IrView, MemoryIr, NodeView, SemanticKind, SemanticNodeId, TemporalValue};
use crate::projection::{unnamed_target, ProjectionTarget};
use crate::DerivedError;

verus! {

/// The temporal annotations of one node.
#[derive(Clone, Debug)]
pub struct TemporalAssertion {
    pub target: ProjectionTarget,
    pub kind: SemanticKind,
    pub node_id: Option<SemanticNodeId>,
    pub occurred_at: Option<TemporalValue>,
    pub observed_at: Option<TemporalValue>,
    pub valid_from: Option<TemporalValue>,
    pub valid_to: Option<TemporalValue>,
}

/// The temporal annotations of a revision, one per annotated node.
#[derive(Clone, Debug)]
pub struct TemporalArtifact {
    target: ProjectionTarget,
    assertions: Vec<TemporalAssertion>,
}

impl View for TemporalArtifact {
    type V = (ProjectionTarget, Seq<TemporalAssertion>);

    closed spec fn view(&self) -> (ProjectionTarget, Seq<TemporalAssertion>) {
        (self.target, self.assertions@)
    }
}

/// The node carries at least one temporal annotation.
pub open spec fn is_temporal(node: NodeView) -> bool {
    node.occurred_at is Some || node.observed_at is Some || node.valid_from is Some
        || node.valid_to is Some
}

/// The annotated nodes, in order.
pub open spec fn temporal_nodes(nodes: Seq<NodeView>) -> Seq<NodeView>
    decreases nodes.len(),
{
    if nodes.len() == 0 {
        seq![]
    } else if is_temporal(nodes.last()) {
        temporal_nodes(nodes.drop_last()).push(nodes.last())
    } else {
        temporal_nodes(nodes.drop_last())
    }
}

/// `assertion` carries the annotations of `node` for `target`.
pub open spec fn describes_time(
    assertion: TemporalAssertion,
    target: ProjectionTarget,
    node: NodeView,
) -> bool {
    &&& assertion.target == target
    &&& assertion.kind == node.kind
    &&& id_view(assertion.node_id) == node.id
    &&& temporal_view(assertion.occurred_at) == node.occurred_at
    &&& temporal_view(assertion.observed_at) == node.observed_at
    &&& temporal_view(assertion.valid_from) == node.valid_from
    &&& temporal_view(assertion.valid_to) == node.valid_to
}

/// The artifact holds one assertion per annotated node of `ir`, in order.
pub open spec fn time_of(artifact: TemporalArtifact, target: ProjectionTarget, ir: IrView) -> bool {
    &&& artifact@.0 == target
    &&& artifact@.1.len() == temporal_nodes(ir.nodes).len()
    &&& forall|i: int|
        0 <= i < artifact@.1.len() ==> describes_time(
            #[trigger] artifact@.1[i],
            target,
            temporal_nodes(ir.nodes)[i],
        )
}

fn clone_temporal(value: Option<&TemporalValue>) -> (copy: Option<TemporalValue>)
    ensures
        temporal_view(copy) == crate::ir::temporal_ref_view(value),
{
    match value {
        Some(value) => Some(TemporalValue::new(value.as_str())),
        None => None,
    }
}

pub struct TemporalBuilder;

impl TemporalBuilder {
    pub fn build(ir: &MemoryIr) -> (result: Result<TemporalArtifact, DerivedError>)
        ensures
            result matches Ok(artifact) && unnamed_target(artifact@.0) && time_of(
                artifact,
                artifact@.0,
                ir@,
            ),
    {
        Self::build_for(ir, ProjectionTarget::default())
    }

    pub fn build_for(ir: &MemoryIr, target: ProjectionTarget) -> (result: Result<
        TemporalArtifact,
        DerivedError,
    >)
        ensures
            result matches Ok(artifact) && time_of(artifact, target, ir@),
    {
        let nodes = ir.nodes();
        let ghost views = ir@.nodes;
        let mut assertions: Vec<TemporalAssertion> = Vec::new();
        let mut i: usize = 0;
        assert(views.take(0) =~= Seq::<NodeView>::empty());
        while i < nodes.len()
            invariant
                node_views(nodes@) == views,
                i <= nodes@.len(),
                assertions@.len() == temporal_nodes(views.take(i as int)).len(),
                forall|k: int|
                    0 <= k < assertions@.len() ==> describes_time(
                        #[trigger] assertions@[k],
                        target,
                        temporal_nodes(views.take(i as int))[k],
                    ),
            decreases nodes@.len() - i,
        {
            let node = &nodes[i];
            assert(views[i as int] == node@);
            assert(views.take(i + 1).drop_last() =~= views.take(i as int));
            assert(views.take(i + 1).last() == node@);
            let occurred_at = node.occurred_at();
            let observed_at = node.observed_at();
            let valid_from = node.valid_from();
            let valid_to = node.valid_to();
            if occurred_at.is_some() || observed_at.is_some() || valid_from.is_some()
                || valid_to.is_some() {
                let node_id = match node.id() {
                    Some(id) => Some(id.clone()),
                    None => None,
                };
                assertions.push(
                    TemporalAssertion {
                        target,
                        kind: node.kind(),
                        node_id,
                        occurred_at: clone_temporal(occurred_at),
                        observed_at: clone_temporal(observed_at),
                        valid_from: clone_temporal(valid_from),
                        valid_to: clone_temporal(valid_to),
                    },
                );
            }
            i = i + 1;
        }
        assert(views.take(nodes@.len() as int) =~= views);
        Ok(TemporalArtifact { target, assertions })
    }
}

impl TemporalArtifact {
    pub fn target(&self) -> (target: ProjectionTarget)
        ensures
            target == self@.0,
    {
        self.target
    }

    pub fn assertions(&self) -> (assertions: &[TemporalAssertion])
        ensures
            assertions@ == self@.1,
    {
        self.assertions.as_slice()
    }
}

} // verus!
