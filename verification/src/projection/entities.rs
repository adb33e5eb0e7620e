use vstd::prelude::*;
use vstd::std_specs::cmp::PartialEqSpecImpl;

use crate::ir::{attribute_spec, id_view, node_views, IrView, MemoryIr, NodeView, SemanticKind, SemanticNodeId};
use crate::projection::{unnamed_target, ProjectionTarget};
use crate::text::{is_whitespace, is_whitespace_spec, str_eq};
use crate::{invalid, invalid_value, DerivedError};

verus! {

/// A valid entity reference: non-empty, with a `:`, without whitespace.
pub open spec fn is_entity_ref(value: Seq<char>) -> bool {
    &&& value.len() > 0
    &&& value.contains(':')
    &&& forall|i: int| 0 <= i < value.len() ==> !is_whitespace_spec(#[trigger] value[i])
}

/// A reference to an entity, such as `person:ABC`.
#[derive(Clone, Debug, Hash, PartialOrd, Ord)]
pub struct EntityRef(String);

impl View for EntityRef {
    type V = Seq<char>;

    closed spec fn view(&self) -> Seq<char> {
        self.0@
    }
}

impl PartialEq for EntityRef {
    fn eq(&self, other: &Self) -> (equal: bool) {
        str_eq(self.0.as_str(), other.0.as_str())
    }
}

impl Eq for EntityRef {}

impl PartialEqSpecImpl for EntityRef {
    open spec fn obeys_eq_spec() -> bool {
        true
    }

    open spec fn eq_spec(&self, other: &Self) -> bool {
        self@ == other@
    }
}

impl EntityRef {
    /// A reference; an invalid one is refused with its own text as the error.
    pub fn new(value: &str) -> (result: Result<Self, DerivedError>)
        ensures
            is_entity_ref(value@) ==> (result matches Ok(entity) && entity@ == value@),
            !is_entity_ref(value@) ==> (result matches Err(error) && invalid_value(error, value@)),
    {
        let mut colon = false;
        let mut spaced = false;
        for character in it: value.chars()
            invariant
                it.seq() == value@,
                colon == value@.take(it.index() as int).contains(':'),
                spaced == exists|i: int|
                    0 <= i < it.index() && is_whitespace_spec(#[trigger] value@[i]),
        {
            let ghost index = it.index() as int;
            proof {
                assert(value@[index] == character);
                assert(value@.take(index + 1) =~= value@.take(index).push(character));
                crate::seqs::lemma_push_contains(value@.take(index), character, ':');
            }
            if character == ':' {
                colon = true;
            }
            if is_whitespace(character) {
                spaced = true;
            }
        }
        proof {
            assert(value@.take(value@.len() as int) =~= value@);
        }
        if value.is_empty() || !colon || spaced {
            return Err(invalid(value));
        }
        Ok(EntityRef(crate::text::owned(value)))
    }

    pub fn as_str(&self) -> (value: &str)
        ensures
            value@ == self@,
    {
        self.0.as_str()
    }
}

/// One mention of an entity.
#[derive(Clone, Debug)]
pub struct EntityObservation {
    pub target: ProjectionTarget,
    pub entity_ref: EntityRef,
    pub surface: String,
    pub node_id: Option<SemanticNodeId>,
}

/// The entity mentions of a revision, in node order.
#[derive(Clone, Debug)]
pub struct EntityObservationArtifact {
    target: ProjectionTarget,
    observations: Vec<EntityObservation>,
}

impl View for EntityObservationArtifact {
    type V = (ProjectionTarget, Seq<EntityObservation>);

    closed spec fn view(&self) -> (ProjectionTarget, Seq<EntityObservation>) {
        (self.target, self.observations@)
    }
}

/// The mentions of `nodes` as (reference, surface, node id), or the
/// message of the first entity without a valid reference.
pub open spec fn entity_mentions(nodes: Seq<NodeView>) -> Result<
    Seq<(Seq<char>, Seq<char>, Option<Seq<char>>)>,
    Seq<char>,
>
    decreases nodes.len(),
{
    if nodes.len() == 0 {
        Ok(seq![])
    } else {
        match entity_mentions(nodes.drop_last()) {
            Err(message) => Err(message),
            Ok(mentions) => {
                let node = nodes.last();
                if node.kind != SemanticKind::Entity {
                    Ok(mentions)
                } else {
                    match attribute_spec(node.attributes, "ref"@) {
                        None => Err("Entity.ref is missing"@),
                        Some(reference) => if is_entity_ref(reference) {
                            Ok(mentions.push((reference, node.text, node.id)))
                        } else {
                            Err(reference)
                        },
                    }
                }
            },
        }
    }
}

/// `observations` are the mentions `mentions` for `target`.
pub open spec fn observations_are(
    observations: Seq<EntityObservation>,
    target: ProjectionTarget,
    mentions: Seq<(Seq<char>, Seq<char>, Option<Seq<char>>)>,
) -> bool {
    &&& observations.len() == mentions.len()
    &&& forall|i: int|
        0 <= i < mentions.len() ==> {
            let observation = #[trigger] observations[i];
            &&& observation.target == target
            &&& observation.entity_ref@ == mentions[i].0
            &&& observation.surface@ == mentions[i].1
            &&& id_view(observation.node_id) == mentions[i].2
        }
}

/// What building the entity mentions of `ir` for `target` gives.
pub open spec fn observations_built(
    result: Result<EntityObservationArtifact, DerivedError>,
    target: ProjectionTarget,
    ir: IrView,
) -> bool {
    match entity_mentions(ir.nodes) {
        Ok(mentions) => result matches Ok(artifact) && artifact@.0 == target && observations_are(
            artifact@.1,
            target,
            mentions,
        ),
        Err(message) => result matches Err(error) && invalid_value(error, message),
    }
}

proof fn lemma_error_persists(nodes: Seq<NodeView>, n: int)
    requires
        0 <= n <= nodes.len(),
        entity_mentions(nodes.take(n)) is Err,
    ensures
        entity_mentions(nodes) == entity_mentions(nodes.take(n)),
    decreases nodes.len() - n,
{
    if n < nodes.len() {
        assert(nodes.take(n + 1).drop_last() =~= nodes.take(n));
        lemma_error_persists(nodes, n + 1);
    } else {
        assert(nodes.take(n) =~= nodes);
    }
}

pub struct EntityObservationBuilder;

impl EntityObservationBuilder {
    pub fn build(ir: &MemoryIr) -> (result: Result<EntityObservationArtifact, DerivedError>)
        ensures
            exists|target: ProjectionTarget|
                unnamed_target(target) && observations_built(result, target, ir@),
    {
        let target = ProjectionTarget::default();
        let result = Self::build_for(ir, target);
        assert(unnamed_target(target) && observations_built(result, target, ir@));
        result
    }

    pub fn build_for(ir: &MemoryIr, target: ProjectionTarget) -> (result: Result<
        EntityObservationArtifact,
        DerivedError,
    >)
        ensures
            observations_built(result, target, ir@),
    {
        let nodes = ir.nodes();
        let ghost views = ir@.nodes;
        let mut observations: Vec<EntityObservation> = Vec::new();
        let mut i: usize = 0;
        assert(views.take(0) =~= Seq::<NodeView>::empty());
        while i < nodes.len()
            invariant
                node_views(nodes@) == views,
                views == ir@.nodes,
                i <= nodes@.len(),
                entity_mentions(views.take(i as int)) matches Ok(mentions) && observations_are(
                    observations@,
                    target,
                    mentions,
                ),
            decreases nodes@.len() - i,
        {
            let node = &nodes[i];
            assert(views[i as int] == node@);
            assert(views.take(i + 1).drop_last() =~= views.take(i as int));
            assert(views.take(i + 1).last() == node@);
            if node.kind() == SemanticKind::Entity {
                let reference = match node.attribute("ref") {
                    Some(reference) => reference,
                    None => {
                        proof {
                            lemma_error_persists(views, i + 1);
                        }
                        return Err(invalid("Entity.ref is missing"));
                    },
                };
                let entity_ref = match EntityRef::new(reference) {
                    Ok(entity_ref) => entity_ref,
                    Err(error) => {
                        proof {
                            lemma_error_persists(views, i + 1);
                        }
                        return Err(error);
                    },
                };
                let node_id = match node.id() {
                    Some(id) => Some(id.clone()),
                    None => None,
                };
                observations.push(
                    EntityObservation {
                        target,
                        entity_ref,
                        surface: crate::text::owned(node.text()),
                        node_id,
                    },
                );
            }
            i = i + 1;
        }
        assert(views.take(nodes@.len() as int) =~= views);
        Ok(EntityObservationArtifact { target, observations })
    }
}

impl EntityObservationArtifact {
    pub fn target(&self) -> (target: ProjectionTarget)
        ensures
            target == self@.0,
    {
        self.target
    }

    pub fn observations(&self) -> (observations: &[EntityObservation])
        ensures
            observations@ == self@.1,
    {
        self.observations.as_slice()
    }
}

} // verus!
