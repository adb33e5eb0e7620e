use vstd::prelude::*;
use vstd::utf8::encode_utf8;

use crate::dependency::{projection_input_hash_spec, ProjectionInputHash, ProjectionKind};
use crate::encode::{framed, put_framed};
use crate::ids::{MemoryId, RevisionId, SpaceId};
use crate::ir::{node_views, semantic_kind_name, IrNode, IrView, MemoryIr, NodeView, SemanticKind};
use crate::projection::embedding_view::content_texts;
use crate::text::{chars_of, extend_chars, string_of};

verus! {

/// `output` with `value` added on a new line.
pub open spec fn joined(output: Seq<char>, value: Seq<char>) -> Seq<char> {
    if output.len() > 0 && output.last() != '\n' {
        output.push('\n') + value
    } else {
        output + value
    }
}

pub open spec fn join_all(output: Seq<char>, values: Seq<Seq<char>>) -> Seq<char>
    decreases values.len(),
{
    if values.len() == 0 {
        output
    } else {
        joined(join_all(output, values.drop_last()), values.last())
    }
}

/// What the lexical index reads of a revision: the heading and paragraph
/// text, then each node text that is not a tag on a line of its own.
pub open spec fn lexical_text_spec(ir: IrView) -> Seq<char> {
    join_all(ir.text_hierarchy, content_texts(ir.nodes))
}

/// The canonical bytes of the nodes that are not tags: kind, id (empty
/// without one) and text of each.
pub open spec fn lexical_node_bytes(nodes: Seq<NodeView>) -> Seq<u8>
    decreases nodes.len(),
{
    if nodes.len() == 0 {
        seq![]
    } else {
        let node = nodes.last();
        let earlier = lexical_node_bytes(nodes.drop_last());
        if node.kind == SemanticKind::Tag {
            earlier
        } else {
            let id = match node.id {
                Some(id) => id,
                None => seq![],
            };
            earlier + framed(encode_utf8(semantic_kind_name(node.kind))) + framed(encode_utf8(id))
                + framed(encode_utf8(node.text))
        }
    }
}

/// The canonical bytes of the lexical projection of `ir`.
pub open spec fn lexical_projection_bytes_spec(ir: IrView) -> Seq<u8> {
    framed(encode_utf8(ir.text_hierarchy)) + lexical_node_bytes(ir.nodes)
}

/// The text the lexical index holds for `ir`.
pub fn lexical_text(ir: &MemoryIr) -> (text: String)
    ensures
        text@ == lexical_text_spec(ir@),
{
    let mut output = chars_of(ir.text_hierarchy());
    let nodes = ir.nodes();
    let ghost views = node_views(nodes@);
    let ghost start = output@;
    let mut i: usize = 0;
    assert(views.take(0) =~= Seq::<NodeView>::empty());
    while i < nodes.len()
        invariant
            views == node_views(nodes@),
            views == ir@.nodes,
            start == ir@.text_hierarchy,
            i <= nodes@.len(),
            output@ == join_all(start, content_texts(views.take(i as int))),
        decreases nodes@.len() - i,
    {
        let node = &nodes[i];
        assert(views[i as int] == node@);
        assert(views.take(i + 1).drop_last() =~= views.take(i as int));
        assert(views.take(i + 1).last() == node@);
        if node.kind() != SemanticKind::Tag {
            if output.len() > 0 && output[output.len() - 1] != '\n' {
                output.push('\n');
            }
            let text = chars_of(node.text());
            extend_chars(&mut output, text.as_slice());
            proof {
                let texts = content_texts(views.take(i + 1));
                assert(texts.drop_last() =~= content_texts(views.take(i as int)));
            }
        }
        i = i + 1;
    }
    assert(views.take(nodes@.len() as int) =~= views);
    string_of(output.as_slice())
}

/// Appends the canonical bytes of the nodes of `ir` that are not tags.
pub fn push_lexical_node_bytes(bytes: &mut Vec<u8>, ir: &MemoryIr)
    ensures
        final(bytes)@ == old(bytes)@ + lexical_node_bytes(ir@.nodes),
{
    let nodes = ir.nodes();
    let ghost views = node_views(nodes@);
    let ghost start = bytes@;
    let mut i: usize = 0;
    assert(views.take(0) =~= Seq::<NodeView>::empty());
    while i < nodes.len()
        invariant
            views == node_views(nodes@),
            views == ir@.nodes,
            i <= nodes@.len(),
            bytes@ == start + lexical_node_bytes(views.take(i as int)),
        decreases nodes@.len() - i,
    {
        let node = &nodes[i];
        assert(views[i as int] == node@);
        assert(views.take(i + 1).drop_last() =~= views.take(i as int));
        assert(views.take(i + 1).last() == node@);
        if node.kind() != SemanticKind::Tag {
            put_framed(bytes, node.kind().as_str().as_bytes());
            match node.id() {
                Some(id) => put_framed(bytes, id.as_str().as_bytes()),
                None => {
                    let empty: &str = "";
                    proof {
                        reveal_strlit("");
                    }
                    put_framed(bytes, empty.as_bytes());
                },
            }
            put_framed(bytes, node.text().as_bytes());
            proof {
                assert(bytes@ =~= start + lexical_node_bytes(views.take(i + 1)));
            }
        }
        i = i + 1;
    }
    assert(views.take(nodes@.len() as int) =~= views);
}

/// The canonical bytes of the lexical projection of `ir`.
pub fn lexical_projection_bytes(ir: &MemoryIr) -> (bytes: Vec<u8>)
    ensures
        bytes@ == lexical_projection_bytes_spec(ir@),
{
    let mut bytes: Vec<u8> = Vec::new();
    put_framed(&mut bytes, ir.text_hierarchy().as_bytes());
    push_lexical_node_bytes(&mut bytes, ir);
    bytes
}

/// One revision as the lexical index sees it.
#[derive(Clone, Debug)]
pub struct LexicalDocument {
    space_id: SpaceId,
    memory_id: MemoryId,
    revision_id: RevisionId,
    ir: MemoryIr,
}

impl LexicalDocument {
    pub fn new(space_id: SpaceId, memory_id: MemoryId, revision_id: RevisionId, ir: MemoryIr) -> (document: Self)
        ensures
            document.spec_space_id() == space_id,
            document.spec_memory_id() == memory_id,
            document.spec_revision_id() == revision_id,
            document.spec_ir()@ == ir@,
    {
        LexicalDocument { space_id, memory_id, revision_id, ir }
    }

    pub closed spec fn spec_space_id(&self) -> SpaceId {
        self.space_id
    }

    pub closed spec fn spec_memory_id(&self) -> MemoryId {
        self.memory_id
    }

    pub closed spec fn spec_revision_id(&self) -> RevisionId {
        self.revision_id
    }

    pub closed spec fn spec_ir(&self) -> MemoryIr {
        self.ir
    }

    pub fn space_id(&self) -> (id: SpaceId)
        ensures
            id == self.spec_space_id(),
    {
        self.space_id
    }

    pub fn memory_id(&self) -> (id: MemoryId)
        ensures
            id == self.spec_memory_id(),
    {
        self.memory_id
    }

    pub fn revision_id(&self) -> (id: RevisionId)
        ensures
            id == self.spec_revision_id(),
    {
        self.revision_id
    }

    pub fn ir(&self) -> (ir: &MemoryIr)
        ensures
            ir@ == self.spec_ir()@,
    {
        &self.ir
    }

    /// The text the lexical index holds for this revision.
    pub fn lexical_text(&self) -> (text: String)
        ensures
            text@ == lexical_text_spec(self.spec_ir()@),
    {
        lexical_text(&self.ir)
    }
}

/// The projection input hash of a document's lexical projection.
pub fn lexical_projection_hash(document: &LexicalDocument) -> (hash: ProjectionInputHash)
    ensures
        hash@ == projection_input_hash_spec(
            ProjectionKind::Lexical,
            lexical_projection_bytes_spec(document.spec_ir()@),
            "tantivy-v1"@,
        ),
{
    let bytes = lexical_projection_bytes(document.ir());
    ProjectionInputHash::new(ProjectionKind::Lexical, bytes.as_slice(), "tantivy-v1")
}

} // verus!
