use vstd::prelude::*;

use crate::ir::{attribute_spec, is_node_id, node_views, IrNode, IrView, MemoryIr, NodeView, SemanticKind, SemanticNodeId};
use crate::projection::{unnamed_target, ProjectionTarget};
use crate::text::push_char;
use crate::DerivedError;

verus! {

/// One relation between two nodes.
#[derive(Clone, Debug)]
pub struct RelationRecord {
    pub target: ProjectionTarget,
    pub node_id: SemanticNodeId,
    pub from: SemanticNodeId,
    pub to: SemanticNodeId,
    pub kind: String,
}

/// The relations of a revision, in node order.
#[derive(Clone, Debug)]
pub struct RelationArtifact {
    target: ProjectionTarget,
    relations: Vec<RelationRecord>,
}

impl View for RelationArtifact {
    type V = (ProjectionTarget, Seq<RelationRecord>);

    closed spec fn view(&self) -> (ProjectionTarget, Seq<RelationRecord>) {
        (self.target, self.relations@)
    }
}

/// An attribute's text without one leading `#`; a missing one is empty.
pub open spec fn local_id_text(value: Option<Seq<char>>) -> Seq<char> {
    let text = match value {
        Some(text) => text,
        None => seq![],
    };
    if text.len() > 0 && text[0] == '#' {
        text.drop_first()
    } else {
        text
    }
}

/// The relations of `nodes` as (id, from, to, kind), or the text of the
/// first id that is missing or invalid.
pub open spec fn relation_records(nodes: Seq<NodeView>) -> Result<
    Seq<(Seq<char>, Seq<char>, Seq<char>, Seq<char>)>,
    Seq<char>,
>
    decreases nodes.len(),
{
    if nodes.len() == 0 {
        Ok(seq![])
    } else {
        match relation_records(nodes.drop_last()) {
            Err(value) => Err(value),
            Ok(records) => {
                let node = nodes.last();
                let from = local_id_text(attribute_spec(node.attributes, "from"@));
                let to = local_id_text(attribute_spec(node.attributes, "to"@));
                let kind = match attribute_spec(node.attributes, "kind"@) {
                    Some(kind) => kind,
                    None => "association"@,
                };
                if node.kind != SemanticKind::Relation {
                    Ok(records)
                } else if node.id is None {
                    Err(seq![])
                } else if !is_node_id(from) {
                    Err(from)
                } else if !is_node_id(to) {
                    Err(to)
                } else {
                    Ok(records.push((node.id.unwrap(), from, to, kind)))
                }
            },
        }
    }
}

/// `relations` are the records `records` for `target`.
pub open spec fn relations_are(
    relations: Seq<RelationRecord>,
    target: ProjectionTarget,
    records: Seq<(Seq<char>, Seq<char>, Seq<char>, Seq<char>)>,
) -> bool {
    &&& relations.len() == records.len()
    &&& forall|i: int|
        0 <= i < records.len() ==> {
            let relation = #[trigger] relations[i];
            &&& relation.target == target
            &&& relation.node_id@ == records[i].0
            &&& relation.from@ == records[i].1
            &&& relation.to@ == records[i].2
            &&& relation.kind@ == records[i].3
        }
}

/// What building the relations of `ir` for `target` gives.
pub open spec fn relations_built(
    result: Result<RelationArtifact, DerivedError>,
    target: ProjectionTarget,
    ir: IrView,
) -> bool {
    match relation_records(ir.nodes) {
        Ok(records) => result matches Ok(artifact) && artifact@.0 == target && relations_are(
            artifact@.1,
            target,
            records,
        ),
        Err(value) => result matches Err(DerivedError::InvalidNodeId { value: text }) && text@
            == value,
    }
}

proof fn lemma_error_persists(nodes: Seq<NodeView>, n: int)
    requires
        0 <= n <= nodes.len(),
        relation_records(nodes.take(n)) is Err,
    ensures
        relation_records(nodes) == relation_records(nodes.take(n)),
    decreases nodes.len() - n,
{
    if n < nodes.len() {
        assert(nodes.take(n + 1).drop_last() =~= nodes.take(n));
        lemma_error_persists(nodes, n + 1);
    } else {
        assert(nodes.take(n) =~= nodes);
    }
}

/// The local id named by attribute `name`, without a leading `#`.
fn local_id(node: &IrNode, name: &str) -> (result: Result<SemanticNodeId, DerivedError>)
    ensures
        is_node_id(local_id_text(attribute_spec(node@.attributes, name@))) ==> (result matches Ok(
            id,
        ) && id@ == local_id_text(attribute_spec(node@.attributes, name@))),
        !is_node_id(local_id_text(attribute_spec(node@.attributes, name@))) ==> (result matches Err(
            DerivedError::InvalidNodeId { value },
        ) && value@ == local_id_text(attribute_spec(node@.attributes, name@))),
{
    let value: &str = match node.attribute(name) {
        Some(value) => value,
        None => "",
    };
    proof {
        reveal_strlit("");
    }
    let mut stripped = String::new();
    let mut first = true;
    for character in it: value.chars()
        invariant
            it.seq() == value@,
            first == (it.index() == 0),
            stripped@ == (if value@.len() > 0 && value@[0] == '#' && it.index() > 0 {
                value@.take(it.index() as int).drop_first()
            } else {
                value@.take(it.index() as int)
            }),
    {
        let ghost index = it.index() as int;
        proof {
            assert(value@[index] == character);
            assert(value@.take(index + 1) =~= value@.take(index).push(character));
            if index > 0 {
                assert(value@.take(index + 1).drop_first() =~= value@.take(index).drop_first().push(
                    character,
                ));
            } else {
                assert(value@.take(1).drop_first() =~= Seq::<char>::empty());
            }
        }
        if !(first && character == '#') {
            push_char(&mut stripped, character);
        }
        first = false;
    }
    proof {
        assert(value@.take(value@.len() as int) =~= value@);
    }
    SemanticNodeId::parse(stripped.as_str())
}

pub struct RelationBuilder;

impl RelationBuilder {
    pub fn build(ir: &MemoryIr) -> (result: Result<RelationArtifact, DerivedError>)
        ensures
            exists|target: ProjectionTarget|
                unnamed_target(target) && relations_built(result, target, ir@),
    {
        let target = ProjectionTarget::default();
        let result = Self::build_for(ir, target);
        assert(unnamed_target(target) && relations_built(result, target, ir@));
        result
    }

    pub fn build_for(ir: &MemoryIr, target: ProjectionTarget) -> (result: Result<
        RelationArtifact,
        DerivedError,
    >)
        ensures
            relations_built(result, target, ir@),
    {
        let nodes = ir.nodes();
        let ghost views = ir@.nodes;
        let mut relations: Vec<RelationRecord> = Vec::new();
        let mut i: usize = 0;
        assert(views.take(0) =~= Seq::<NodeView>::empty());
        while i < nodes.len()
            invariant
                node_views(nodes@) == views,
                views == ir@.nodes,
                i <= nodes@.len(),
                relation_records(views.take(i as int)) matches Ok(records) && relations_are(
                    relations@,
                    target,
                    records,
                ),
            decreases nodes@.len() - i,
        {
            let node = &nodes[i];
            assert(views[i as int] == node@);
            assert(views.take(i + 1).drop_last() =~= views.take(i as int));
            assert(views.take(i + 1).last() == node@);
            if node.kind() == SemanticKind::Relation {
                let node_id = match node.id() {
                    Some(id) => id.clone(),
                    None => {
                        proof {
                            lemma_error_persists(views, i + 1);
                        }
                        return Err(DerivedError::InvalidNodeId { value: String::new() });
                    },
                };
                let from = match local_id(node, "from") {
                    Ok(id) => id,
                    Err(error) => {
                        proof {
                            lemma_error_persists(views, i + 1);
                        }
                        return Err(error);
                    },
                };
                let to = match local_id(node, "to") {
                    Ok(id) => id,
                    Err(error) => {
                        proof {
                            lemma_error_persists(views, i + 1);
                        }
                        return Err(error);
                    },
                };
                let kind = match node.attribute("kind") {
                    Some(kind) => crate::text::owned(kind),
                    None => crate::text::owned("association"),
                };
                relations.push(RelationRecord { target, node_id, from, to, kind });
            }
            i = i + 1;
        }
        assert(views.take(nodes@.len() as int) =~= views);
        Ok(RelationArtifact { target, relations })
    }
}

impl RelationArtifact {
    pub fn target(&self) -> (target: ProjectionTarget)
        ensures
            target == self@.0,
    {
        self.target
    }

    pub fn relations(&self) -> (relations: &[RelationRecord])
        ensures
            relations@ == self@.1,
    {
        self.relations.as_slice()
    }
}

} // verus!
