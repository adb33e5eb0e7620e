use vstd::prelude::*;

use crate::ids::{AuthorityGeneration, MemoryId, RevisionId, SpaceId};
use crate::ir::{node_views, NodeView};
use crate::projection::entities::{entity_mentions, observations_are, EntityObservationBuilder};
use crate::projection::lexical::{lexical_text_spec, LexicalDocument};
use crate::projection::tags::{explicit_tags, tag_memberships_are, ExplicitTagBuilder};
use crate::projection::ProjectionTarget;
use crate::{invalid_value, DerivedError};

verus! {

/// What the serving layer keeps of one current revision.
#[derive(Clone, Debug)]
pub struct ServingRecord {
    pub space_id: SpaceId,
    pub memory_id: MemoryId,
    pub revision_id: RevisionId,
    pub authority_generation: AuthorityGeneration,
    pub text: String,
    pub entity_refs: Vec<String>,
    pub tags: Vec<String>,
    pub node_ids: Vec<String>,
    pub current: bool,
    pub retired: bool,
}

/// The ids of the nodes that have one, in order.
pub open spec fn node_ids(nodes: Seq<NodeView>) -> Seq<Seq<char>>
    decreases nodes.len(),
{
    if nodes.len() == 0 {
        seq![]
    } else {
        match nodes.last().id {
            Some(id) => node_ids(nodes.drop_last()).push(id),
            None => node_ids(nodes.drop_last()),
        }
    }
}

pub open spec fn string_views(strings: Seq<String>) -> Seq<Seq<char>> {
    strings.map_values(|value: String| value@)
}

/// What the serving record of `document` at `generation` is.
pub open spec fn serving_record_built(
    result: Result<ServingRecord, DerivedError>,
    document: LexicalDocument,
    generation: AuthorityGeneration,
) -> bool {
    let ir = document.spec_ir()@;
    match entity_mentions(ir.nodes) {
        Err(message) => result matches Err(error) && invalid_value(error, message),
        Ok(mentions) => match explicit_tags(ir, ir.nodes) {
            Err(message) => result matches Err(error) && invalid_value(error, message),
            Ok(tags) => result matches Ok(record) && {
                &&& record.space_id == document.spec_space_id()
                &&& record.memory_id == document.spec_memory_id()
                &&& record.revision_id == document.spec_revision_id()
                &&& record.authority_generation == generation
                &&& record.text@ == lexical_text_spec(ir)
                &&& string_views(record.entity_refs@) == mentions.map_values(
                    |mention: (Seq<char>, Seq<char>, Option<Seq<char>>)| mention.0,
                )
                &&& string_views(record.tags@) == tags.map_values(
                    |tag: (Seq<char>, Option<Seq<char>>)| tag.0,
                )
                &&& string_views(record.node_ids@) == node_ids(ir.nodes)
                &&& record.current
                &&& !record.retired
            },
        },
    }
}

impl ServingRecord {
    /// A record is served to a query over `space_ids` at `generation` when
    /// its Space is in scope and it was written at that generation or
    /// before.
    pub fn visible_at(&self, space_ids: &[SpaceId], generation: AuthorityGeneration) -> (visible: bool)
        ensures
            visible == ((exists|i: int| 0 <= i < space_ids@.len() && #[trigger] space_ids@[i]@
                == self.space_id@) && self.authority_generation.spec_value()
                <= generation.spec_value()),
    {
        let mut i: usize = 0;
        while i < space_ids.len()
            invariant
                i <= space_ids@.len(),
                forall|j: int| 0 <= j < i ==> #[trigger] space_ids@[j]@ != self.space_id@,
            decreases space_ids@.len() - i,
        {
            if space_ids[i] == self.space_id {
                return self.authority_generation.value() <= generation.value();
            }
            i = i + 1;
        }
        false
    }

    /// The serving record of a current revision: its text, entity
    /// references, tags and node ids.
    pub fn from_document(document: &LexicalDocument, authority_generation: AuthorityGeneration) -> (result:
        Result<Self, DerivedError>)
        ensures
            serving_record_built(result, *document, authority_generation),
    {
        let target = ProjectionTarget::of(
            document.space_id(),
            document.memory_id(),
            document.revision_id(),
        );
        let ir = document.ir();
        let entities = EntityObservationBuilder::build_for(ir, target)?;
        let observations = entities.observations();
        let ghost mentions = entity_mentions(ir@.nodes)->Ok_0;
        let mut entity_refs: Vec<String> = Vec::new();
        let mut i: usize = 0;
        while i < observations.len()
            invariant
                observations_are(observations@, target, mentions),
                i <= observations@.len(),
                string_views(entity_refs@) == mentions.take(i as int).map_values(
                    |mention: (Seq<char>, Seq<char>, Option<Seq<char>>)| mention.0,
                ),
            decreases observations@.len() - i,
        {
            let ghost before = entity_refs@;
            entity_refs.push(crate::text::owned(observations[i].entity_ref.as_str()));
            proof {
                assert(mentions.take(i + 1) =~= mentions.take(i as int).push(mentions[i as int]));
                assert(string_views(entity_refs@) =~= string_views(before).push(mentions[i as int].0));
                assert(string_views(entity_refs@) =~= mentions.take(i + 1).map_values(
                    |mention: (Seq<char>, Seq<char>, Option<Seq<char>>)| mention.0,
                ));
            }
            i = i + 1;
        }
        assert(mentions.take(mentions.len() as int) =~= mentions);
        let tagged = ExplicitTagBuilder::build_for(ir, target)?;
        let memberships = tagged.memberships();
        let ghost tag_list = explicit_tags(ir@, ir@.nodes)->Ok_0;
        let mut tags: Vec<String> = Vec::new();
        let mut k: usize = 0;
        while k < memberships.len()
            invariant
                tag_memberships_are(memberships@, target, tag_list),
                k <= memberships@.len(),
                string_views(tags@) == tag_list.take(k as int).map_values(
                    |tag: (Seq<char>, Option<Seq<char>>)| tag.0,
                ),
            decreases memberships@.len() - k,
        {
            let ghost before = tags@;
            tags.push(memberships[k].value.clone());
            proof {
                assert(tag_list.take(k + 1) =~= tag_list.take(k as int).push(tag_list[k as int]));
                assert(string_views(tags@) =~= string_views(before).push(tag_list[k as int].0));
                assert(string_views(tags@) =~= tag_list.take(k + 1).map_values(
                    |tag: (Seq<char>, Option<Seq<char>>)| tag.0,
                ));
            }
            k = k + 1;
        }
        assert(tag_list.take(tag_list.len() as int) =~= tag_list);
        let nodes = ir.nodes();
        let ghost views = node_views(nodes@);
        let mut ids: Vec<String> = Vec::new();
        let mut n: usize = 0;
        assert(views.take(0) =~= Seq::<NodeView>::empty());
        while n < nodes.len()
            invariant
                views == node_views(nodes@),
                n <= nodes@.len(),
                string_views(ids@) == node_ids(views.take(n as int)),
            decreases nodes@.len() - n,
        {
            let node = &nodes[n];
            assert(views[n as int] == node@);
            assert(views.take(n + 1).drop_last() =~= views.take(n as int));
            assert(views.take(n + 1).last() == node@);
            let ghost before = ids@;
            match node.id() {
                Some(id) => {
                    ids.push(crate::text::owned(id.as_str()));
                    assert(string_views(ids@) =~= string_views(before).push(id@));
                },
                None => {},
            }
            n = n + 1;
        }
        assert(views.take(nodes@.len() as int) =~= views);
        Ok(
            ServingRecord {
                space_id: document.space_id(),
                memory_id: document.memory_id(),
                revision_id: document.revision_id(),
                authority_generation,
                text: document.lexical_text(),
                entity_refs,
                tags,
                node_ids: ids,
                current: true,
                retired: false,
            },
        )
    }
}

} // verus!
