use vstd::prelude::*;

use crate::ir::{attribute_spec, nearest_container_id, nearest_container_id_of, node_views, IrView, MemoryIr, NodeView, SemanticKind};
use crate::projection::{unnamed_target, ProjectionTarget};
use crate::{invalid, invalid_value, DerivedError};

verus! {

/// Where a tag membership came from.
#[derive(Clone, Copy, Debug, PartialEq, Eq, Hash, PartialOrd, Ord, Structural)]
pub enum TagProvenance {
    Explicit,
    Generated,
}

/// A tag the author wrote, with the id of the nearest node that holds it.
#[derive(Clone, Debug)]
pub struct TagMembership {
    pub target: ProjectionTarget,
    pub value: String,
    pub node_id: Option<String>,
    pub provenance: TagProvenance,
}

/// The explicit tags of a revision, in node order.
#[derive(Clone, Debug)]
pub struct ExplicitTagArtifact {
    target: ProjectionTarget,
    memberships: Vec<TagMembership>,
}

impl View for ExplicitTagArtifact {
    type V = (ProjectionTarget, Seq<TagMembership>);

    closed spec fn view(&self) -> (ProjectionTarget, Seq<TagMembership>) {
        (self.target, self.memberships@)
    }
}

/// The tags of `nodes` as (value, scope id), or the message of the first
/// tag without a value.
pub open spec fn explicit_tags(ir: IrView, nodes: Seq<NodeView>) -> Result<
    Seq<(Seq<char>, Option<Seq<char>>)>,
    Seq<char>,
>
    decreases nodes.len(),
{
    if nodes.len() == 0 {
        Ok(seq![])
    } else {
        match explicit_tags(ir, nodes.drop_last()) {
            Err(message) => Err(message),
            Ok(tags) => {
                let node = nodes.last();
                if node.kind != SemanticKind::Tag {
                    Ok(tags)
                } else {
                    match attribute_spec(node.attributes, "value"@) {
                        None => Err("Tag.value is missing"@),
                        Some(value) => Ok(tags.push((value, nearest_container_id(ir.nodes, node)))),
                    }
                }
            },
        }
    }
}

pub open spec fn string_option_view(value: Option<String>) -> Option<Seq<char>> {
    match value {
        Some(value) => Some(value@),
        None => None,
    }
}

/// `memberships` are the tags `tags` for `target`.
pub open spec fn tag_memberships_are(
    memberships: Seq<TagMembership>,
    target: ProjectionTarget,
    tags: Seq<(Seq<char>, Option<Seq<char>>)>,
) -> bool {
    &&& memberships.len() == tags.len()
    &&& forall|i: int|
        0 <= i < tags.len() ==> {
            let membership = #[trigger] memberships[i];
            &&& membership.target == target
            &&& membership.value@ == tags[i].0
            &&& string_option_view(membership.node_id) == tags[i].1
            &&& membership.provenance == TagProvenance::Explicit
        }
}

/// What building the tags of `ir` for `target` gives.
pub open spec fn explicit_tags_built(
    result: Result<ExplicitTagArtifact, DerivedError>,
    target: ProjectionTarget,
    ir: IrView,
) -> bool {
    match explicit_tags(ir, ir.nodes) {
        Ok(tags) => result matches Ok(artifact) && artifact@.0 == target && tag_memberships_are(
            artifact@.1,
            target,
            tags,
        ),
        Err(message) => result matches Err(error) && invalid_value(error, message),
    }
}

pub struct ExplicitTagBuilder;

impl ExplicitTagBuilder {
    pub fn build(ir: &MemoryIr) -> (result: Result<ExplicitTagArtifact, DerivedError>)
        ensures
            exists|target: ProjectionTarget|
                unnamed_target(target) && explicit_tags_built(result, target, ir@),
    {
        let target = ProjectionTarget::default();
        let result = Self::build_for(ir, target);
        assert(unnamed_target(target) && explicit_tags_built(result, target, ir@));
        result
    }

    pub fn build_for(ir: &MemoryIr, target: ProjectionTarget) -> (result: Result<
        ExplicitTagArtifact,
        DerivedError,
    >)
        ensures
            explicit_tags_built(result, target, ir@),
    {
        let nodes = ir.nodes();
        let ghost views = ir@.nodes;
        let mut memberships: Vec<TagMembership> = Vec::new();
        let mut i: usize = 0;
        assert(views.take(0) =~= Seq::<NodeView>::empty());
        while i < nodes.len()
            invariant
                node_views(nodes@) == views,
                views == ir@.nodes,
                i <= nodes@.len(),
                explicit_tags(ir@, views.take(i as int)) matches Ok(tags) && tag_memberships_are(
                    memberships@,
                    target,
                    tags,
                ),
            decreases nodes@.len() - i,
        {
            let node = &nodes[i];
            assert(views[i as int] == node@);
            assert(views.take(i + 1).drop_last() =~= views.take(i as int));
            assert(views.take(i + 1).last() == node@);
            if node.kind() == SemanticKind::Tag {
                let value = match node.attribute("value") {
                    Some(value) => value,
                    None => {
                        proof {
                            assert(explicit_tags(ir@, views.take(i + 1)) is Err);
                            lemma_error_persists(ir@, views, i + 1);
                            assert(views.take(nodes@.len() as int) =~= views);
                        }
                        return Err(invalid("Tag.value is missing"));
                    },
                };
                let node_id = match nearest_container_id_of(ir, node) {
                    Some(id) => Some(crate::text::owned(id.as_str())),
                    None => None,
                };
                memberships.push(
                    TagMembership {
                        target,
                        value: crate::text::owned(value),
                        node_id,
                        provenance: TagProvenance::Explicit,
                    },
                );
            }
            i = i + 1;
        }
        assert(views.take(nodes@.len() as int) =~= views);
        Ok(ExplicitTagArtifact { target, memberships })
    }
}

/// Once the tags of a prefix fail, every longer prefix fails the same way.
proof fn lemma_error_persists(ir: IrView, nodes: Seq<NodeView>, n: int)
    requires
        0 <= n <= nodes.len(),
        explicit_tags(ir, nodes.take(n)) is Err,
    ensures
        explicit_tags(ir, nodes) == explicit_tags(ir, nodes.take(n)),
    decreases nodes.len() - n,
{
    if n < nodes.len() {
        assert(nodes.take(n + 1).drop_last() =~= nodes.take(n));
        lemma_error_persists(ir, nodes, n + 1);
    } else {
        assert(nodes.take(n) =~= nodes);
    }
}

impl ExplicitTagArtifact {
    pub fn target(&self) -> (target: ProjectionTarget)
        ensures
            target == self@.0,
    {
        self.target
    }

    pub fn memberships(&self) -> (memberships: &[TagMembership])
        ensures
            memberships@ == self@.1,
    {
        self.memberships.as_slice()
    }
}

} // verus!
