use vstd::prelude::*;
use vstd::utf8::encode_utf8;

use crate::dependency::{projection_input_hash_spec, ProjectionInputHash, ProjectionKind};
use crate::encode::{extend_bytes, framed, put_framed};
use crate::ir::{node_views, IrNode, IrView, MemoryIr, NodeView, SemanticKind};
use crate::text::{
    blank, chars_of, collapse, collapse_whitespace, extend_chars, is_blank, is_whitespace,
    is_whitespace_spec, string_of,
};
use crate::{invalid, invalid_value, DerivedError};

verus! {

pub const LOCAL_EMBEDDING_PROJECTION_VERSION: u32 = 1;

pub const CONTEXT_EMBEDDING_PROJECTION_VERSION: u32 = 1;

pub const QUERY_EMBEDDING_PROJECTION_VERSION: u32 = 1;

/// A line without the `\r` of a `\r\n` ending.
pub open spec fn strip_cr(line: Seq<char>) -> Seq<char> {
    if line.len() > 0 && line.last() == '\r' {
        line.drop_last()
    } else {
        line
    }
}

/// The lines ended so far and the line being read.
pub open spec fn line_split(text: Seq<char>) -> (Seq<Seq<char>>, Seq<char>)
    decreases text.len(),
{
    if text.len() == 0 {
        (seq![], seq![])
    } else {
        let (done, current) = line_split(text.drop_last());
        if text.last() == '\n' {
            (done.push(strip_cr(current)), seq![])
        } else {
            (done, current.push(text.last()))
        }
    }
}

/// The lines of a text as `str::lines` yields them: split at `\n`, a
/// `\r` before it dropped, no empty line after a final `\n`.
pub open spec fn text_lines(text: Seq<char>) -> Seq<Seq<char>> {
    let (done, current) = line_split(text);
    if current.len() > 0 {
        done.push(current)
    } else {
        done
    }
}

/// How many characters a sequence starts with that satisfy `pred`.
pub open spec fn leading_whitespace(s: Seq<char>) -> nat
    decreases s.len(),
{
    if s.len() > 0 && is_whitespace_spec(s[0]) {
        1 + leading_whitespace(s.drop_first())
    } else {
        0
    }
}

pub open spec fn leading_hashes(s: Seq<char>) -> nat
    decreases s.len(),
{
    if s.len() > 0 && s[0] == '#' {
        1 + leading_hashes(s.drop_first())
    } else {
        0
    }
}

/// A Markdown heading: after leading whitespace, one to six `#` followed
/// by a space or the end of the line.
pub open spec fn is_heading_line(line: Seq<char>) -> bool {
    let trimmed = line.skip(leading_whitespace(line) as int);
    let hashes = leading_hashes(trimmed);
    0 < hashes <= 6 && (hashes == trimmed.len() || trimmed[hashes as int] == ' ')
}

/// `output` with `value` added on a line of its own; an empty value adds
/// nothing.
pub open spec fn appended(output: Seq<char>, value: Seq<char>) -> Seq<char> {
    if value.len() == 0 {
        output
    } else if output.len() > 0 && output.last() != '\n' {
        output.push('\n') + value
    } else {
        output + value
    }
}

/// `output` with each of `values` appended in turn.
pub open spec fn append_all(output: Seq<char>, values: Seq<Seq<char>>) -> Seq<char>
    decreases values.len(),
{
    if values.len() == 0 {
        output
    } else {
        appended(append_all(output, values.drop_last()), values.last())
    }
}

/// The lines that are not headings.
pub open spec fn body_lines(lines: Seq<Seq<char>>) -> Seq<Seq<char>>
    decreases lines.len(),
{
    if lines.len() == 0 {
        seq![]
    } else if is_heading_line(lines.last()) {
        body_lines(lines.drop_last())
    } else {
        body_lines(lines.drop_last()).push(lines.last())
    }
}

/// The display texts of the nodes that are not tags, in order.
pub open spec fn content_texts(nodes: Seq<NodeView>) -> Seq<Seq<char>>
    decreases nodes.len(),
{
    if nodes.len() == 0 {
        seq![]
    } else if nodes.last().kind == SemanticKind::Tag {
        content_texts(nodes.drop_last())
    } else {
        content_texts(nodes.drop_last()).push(nodes.last().text)
    }
}

/// What a local embedding reads: the non-heading lines, then the node
/// texts, tags left out.
pub open spec fn local_embedding_text(ir: IrView) -> Seq<char> {
    append_all(append_all(seq![], body_lines(text_lines(ir.text_hierarchy))), content_texts(ir.nodes))
}

/// What a context embedding reads: the whole heading and paragraph text,
/// then the node texts, tags left out.
pub open spec fn context_embedding_text(ir: IrView) -> Seq<char> {
    append_all(ir.text_hierarchy, content_texts(ir.nodes))
}

/// The canonical bytes of provider-facing content.
pub open spec fn provider_projection_bytes(content: Seq<char>) -> Seq<u8> {
    encode_utf8("memoria-provider-projection-v1\0"@) + framed(encode_utf8(content))
}

proof fn lemma_leading_whitespace_skip(s: Seq<char>, i: int)
    requires
        0 <= i <= s.len(),
        forall|k: int| 0 <= k < i ==> is_whitespace_spec(#[trigger] s[k]),
    ensures
        leading_whitespace(s) == i + leading_whitespace(s.skip(i)),
    decreases i,
{
    if i > 0 {
        assert(is_whitespace_spec(s[0]));
        assert forall|k: int| 0 <= k < i - 1 implies is_whitespace_spec(
            #[trigger] s.drop_first()[k],
        ) by {
            assert(s.drop_first()[k] == s[k + 1]);
        }
        lemma_leading_whitespace_skip(s.drop_first(), i - 1);
        assert(s.drop_first().skip(i - 1) =~= s.skip(i));
    } else {
        assert(s.skip(0) =~= s);
    }
}

proof fn lemma_leading_hashes_skip(s: Seq<char>, i: int)
    requires
        0 <= i <= s.len(),
        forall|k: int| 0 <= k < i ==> #[trigger] s[k] == '#',
    ensures
        leading_hashes(s) == i + leading_hashes(s.skip(i)),
    decreases i,
{
    if i > 0 {
        assert(s[0] == '#');
        assert forall|k: int| 0 <= k < i - 1 implies #[trigger] s.drop_first()[k] == '#' by {
            assert(s.drop_first()[k] == s[k + 1]);
        }
        lemma_leading_hashes_skip(s.drop_first(), i - 1);
        assert(s.drop_first().skip(i - 1) =~= s.skip(i));
    } else {
        assert(s.skip(0) =~= s);
    }
}

/// Whether a line is a Markdown heading.
pub fn is_heading(line: &[char]) -> (heading: bool)
    ensures
        heading == is_heading_line(line@),
{
    let mut start: usize = 0;
    while start < line.len() && is_whitespace(line[start])
        invariant
            start <= line@.len(),
            forall|k: int| 0 <= k < start ==> is_whitespace_spec(#[trigger] line@[k]),
        decreases line@.len() - start,
    {
        start = start + 1;
    }
    proof {
        lemma_leading_whitespace_skip(line@, start as int);
        if start < line.len() {
            assert(line@.skip(start as int)[0] == line@[start as int]);
        }
        assert(leading_whitespace(line@.skip(start as int)) == 0);
    }
    let ghost trimmed = line@.skip(start as int);
    let mut end: usize = start;
    while end < line.len() && line[end] == '#'
        invariant
            start <= end <= line@.len(),
            trimmed == line@.skip(start as int),
            forall|k: int| 0 <= k < end - start ==> #[trigger] trimmed[k] == '#',
        decreases line@.len() - end,
    {
        end = end + 1;
    }
    let hashes = end - start;
    proof {
        lemma_leading_hashes_skip(trimmed, hashes as int);
        if end < line.len() {
            assert(trimmed.skip(hashes as int)[0] == line@[end as int]);
        }
        assert(leading_hashes(trimmed.skip(hashes as int)) == 0);
        if end < line.len() {
            assert(trimmed[hashes as int] == line@[end as int]);
        }
    }
    0 < hashes && hashes <= 6 && (end == line.len() || line[end] == ' ')
}

/// Appends `value` on a line of its own; an empty value adds nothing.
pub fn append_segment(output: &mut Vec<char>, value: &[char])
    ensures
        final(output)@ == appended(old(output)@, value@),
{
    if value.len() == 0 {
        return;
    }
    if output.len() > 0 && output[output.len() - 1] != '\n' {
        output.push('\n');
    }
    extend_chars(output, value);
}

/// The lines of a text, as `str::lines` yields them.
pub fn split_lines(text: &[char]) -> (lines: Vec<Vec<char>>)
    ensures
        lines@.map_values(|line: Vec<char>| line@) == text_lines(text@),
{
    let mut lines: Vec<Vec<char>> = Vec::new();
    let mut current: Vec<char> = Vec::new();
    let mut i: usize = 0;
    assert(text@.take(0) =~= Seq::<char>::empty());
    while i < text.len()
        invariant
            i <= text@.len(),
            (lines@.map_values(|line: Vec<char>| line@), current@) == line_split(
                text@.take(i as int),
            ),
        decreases text@.len() - i,
    {
        let c = text[i];
        assert(text@.take(i + 1).drop_last() =~= text@.take(i as int));
        assert(text@.take(i + 1).last() == c);
        if c == '\n' {
            let ghost before = lines@.map_values(|line: Vec<char>| line@);
            let mut line = current;
            if line.len() > 0 && line[line.len() - 1] == '\r' {
                line.pop();
            }
            lines.push(line);
            current = Vec::new();
            assert(lines@.map_values(|line: Vec<char>| line@) =~= before.push(
                strip_cr(line_split(text@.take(i as int)).1),
            ));
        } else {
            current.push(c);
        }
        i = i + 1;
    }
    assert(text@.take(text@.len() as int) =~= text@);
    if current.len() > 0 {
        let ghost before = lines@.map_values(|line: Vec<char>| line@);
        let ghost last = current@;
        lines.push(current);
        assert(lines@.map_values(|line: Vec<char>| line@) =~= before.push(last));
    }
    lines
}

/// Appends the display texts of the nodes that are not tags.
fn append_node_texts(output: &mut Vec<char>, nodes: &[IrNode])
    ensures
        final(output)@ == append_all(old(output)@, content_texts(node_views(nodes@))),
{
    let ghost views = node_views(nodes@);
    let ghost start = output@;
    let mut i: usize = 0;
    assert(views.take(0) =~= Seq::<NodeView>::empty());
    while i < nodes.len()
        invariant
            views == node_views(nodes@),
            i <= nodes@.len(),
            output@ == append_all(start, content_texts(views.take(i as int))),
        decreases nodes@.len() - i,
    {
        let node = &nodes[i];
        assert(views[i as int] == node@);
        assert(views.take(i + 1).drop_last() =~= views.take(i as int));
        assert(views.take(i + 1).last() == node@);
        if node.kind() != SemanticKind::Tag {
            let text = chars_of(node.text());
            append_segment(output, text.as_slice());
            proof {
                let texts = content_texts(views.take(i + 1));
                assert(texts.drop_last() =~= content_texts(views.take(i as int)));
            }
        }
        i = i + 1;
    }
    assert(views.take(nodes@.len() as int) =~= views);
}

/// The content of a local embedding.
pub fn local_embedding_content(ir: &MemoryIr) -> (content: String)
    ensures
        content@ == local_embedding_text(ir@),
{
    let text = chars_of(ir.text_hierarchy());
    let lines = split_lines(text.as_slice());
    let ghost line_views = lines@.map_values(|line: Vec<char>| line@);
    let mut output: Vec<char> = Vec::new();
    let mut i: usize = 0;
    assert(line_views.take(0) =~= Seq::<Seq<char>>::empty());
    while i < lines.len()
        invariant
            line_views == lines@.map_values(|line: Vec<char>| line@),
            line_views == text_lines(ir@.text_hierarchy),
            i <= lines@.len(),
            output@ == append_all(seq![], body_lines(line_views.take(i as int))),
        decreases lines@.len() - i,
    {
        let line = lines[i].as_slice();
        assert(line_views[i as int] == line@);
        assert(line_views.take(i + 1).drop_last() =~= line_views.take(i as int));
        assert(line_views.take(i + 1).last() == line@);
        if !is_heading(line) {
            append_segment(&mut output, line);
            proof {
                let body = body_lines(line_views.take(i + 1));
                assert(body.drop_last() =~= body_lines(line_views.take(i as int)));
            }
        }
        i = i + 1;
    }
    assert(line_views.take(lines@.len() as int) =~= line_views);
    append_node_texts(&mut output, ir.nodes());
    string_of(output.as_slice())
}

/// The content of a context embedding.
pub fn context_embedding_content(ir: &MemoryIr) -> (content: String)
    ensures
        content@ == context_embedding_text(ir@),
{
    let mut output = chars_of(ir.text_hierarchy());
    append_node_texts(&mut output, ir.nodes());
    string_of(output.as_slice())
}

/// The canonical bytes that identify provider-facing content.
pub fn canonical_projection_bytes(content: &str) -> (bytes: Vec<u8>)
    ensures
        bytes@ == provider_projection_bytes(content@),
{
    let mut bytes: Vec<u8> = Vec::new();
    let domain: &str = "memoria-provider-projection-v1\0";
    extend_bytes(&mut bytes, domain.as_bytes());
    put_framed(&mut bytes, content.as_bytes());
    bytes
}

/// What a query embedding reads: the text with whitespace collapsed.
#[derive(Clone, Debug)]
pub struct QueryEmbeddingProjectionV1 {
    content: String,
}

impl View for QueryEmbeddingProjectionV1 {
    type V = Seq<char>;

    closed spec fn view(&self) -> Seq<char> {
        self.content@
    }
}

impl QueryEmbeddingProjectionV1 {
    /// The query text, trimmed, with every whitespace run made one space.
    pub fn build(text: &str) -> (projection: Self)
        ensures
            projection@ == collapse_whitespace(text@, false),
    {
        QueryEmbeddingProjectionV1 { content: collapse(text, false) }
    }

    pub fn content(&self) -> (content: &str)
        ensures
            content@ == self@,
    {
        self.content.as_str()
    }

    pub fn version() -> (version: u32)
        ensures
            version == QUERY_EMBEDDING_PROJECTION_VERSION,
    {
        QUERY_EMBEDDING_PROJECTION_VERSION
    }
}

/// What a provider projection holds: its content, the input hash that
/// identifies it and the producer signature.
pub ghost struct ProviderProjectionView {
    pub content: Seq<char>,
    pub input_hash: Seq<u8>,
    pub producer_signature: Seq<char>,
}

/// The projection of `content` of `kind` for `producer_signature`.
pub open spec fn provider_projection(
    kind: ProjectionKind,
    content: Seq<char>,
    producer_signature: Seq<char>,
) -> ProviderProjectionView {
    ProviderProjectionView {
        content,
        input_hash: projection_input_hash_spec(
            kind,
            provider_projection_bytes(content),
            producer_signature,
        ),
        producer_signature,
    }
}

/// The text an embedding of one Memory reads, with its input hash.
#[derive(Clone, Debug)]
pub struct LocalEmbeddingProjectionV1 {
    content: String,
    input_hash: ProjectionInputHash,
    producer_signature: String,
}

impl View for LocalEmbeddingProjectionV1 {
    type V = ProviderProjectionView;

    closed spec fn view(&self) -> ProviderProjectionView {
        ProviderProjectionView {
            content: self.content@,
            input_hash: self.input_hash@,
            producer_signature: self.producer_signature@,
        }
    }
}

impl LocalEmbeddingProjectionV1 {
    /// The local projection of `ir`; the producer must not be blank.
    pub fn build(ir: &MemoryIr, producer_signature: &str) -> (result: Result<Self, DerivedError>)
        ensures
            is_blank(producer_signature@) ==> (result matches Err(error) && invalid_value(
                error,
                "embedding producer signature must not be empty"@,
            )),
            !is_blank(producer_signature@) ==> (result matches Ok(projection) && projection@
                == provider_projection(
                ProjectionKind::LocalEmbedding,
                local_embedding_text(ir@),
                producer_signature@,
            )),
    {
        if blank(producer_signature) {
            return Err(invalid("embedding producer signature must not be empty"));
        }
        let content = local_embedding_content(ir);
        let bytes = canonical_projection_bytes(content.as_str());
        let input_hash = ProjectionInputHash::new(
            ProjectionKind::LocalEmbedding,
            bytes.as_slice(),
            producer_signature,
        );
        Ok(
            LocalEmbeddingProjectionV1 {
                content,
                input_hash,
                producer_signature: crate::text::owned(producer_signature),
            },
        )
    }

    pub fn content(&self) -> (content: &str)
        ensures
            content@ == self@.content,
    {
        self.content.as_str()
    }

    pub fn input_hash(&self) -> (hash: &ProjectionInputHash)
        ensures
            hash@ == self@.input_hash,
    {
        &self.input_hash
    }

    pub fn producer_signature(&self) -> (signature: &str)
        ensures
            signature@ == self@.producer_signature,
    {
        self.producer_signature.as_str()
    }

    pub fn version() -> (version: u32)
        ensures
            version == LOCAL_EMBEDDING_PROJECTION_VERSION,
    {
        LOCAL_EMBEDDING_PROJECTION_VERSION
    }
}

/// The text a contextual embedding of one Memory reads, with its input hash.
#[derive(Clone, Debug)]
pub struct ContextEmbeddingProjectionV1 {
    content: String,
    input_hash: ProjectionInputHash,
    producer_signature: String,
}

impl View for ContextEmbeddingProjectionV1 {
    type V = ProviderProjectionView;

    closed spec fn view(&self) -> ProviderProjectionView {
        ProviderProjectionView {
            content: self.content@,
            input_hash: self.input_hash@,
            producer_signature: self.producer_signature@,
        }
    }
}

impl ContextEmbeddingProjectionV1 {
    /// The context projection of `ir`; the producer must not be blank.
    pub fn build(ir: &MemoryIr, producer_signature: &str) -> (result: Result<Self, DerivedError>)
        ensures
            is_blank(producer_signature@) ==> (result matches Err(error) && invalid_value(
                error,
                "embedding producer signature must not be empty"@,
            )),
            !is_blank(producer_signature@) ==> (result matches Ok(projection) && projection@
                == provider_projection(
                ProjectionKind::ContextEmbedding,
                context_embedding_text(ir@),
                producer_signature@,
            )),
    {
        if blank(producer_signature) {
            return Err(invalid("embedding producer signature must not be empty"));
        }
        let content = context_embedding_content(ir);
        let bytes = canonical_projection_bytes(content.as_str());
        let input_hash = ProjectionInputHash::new(
            ProjectionKind::ContextEmbedding,
            bytes.as_slice(),
            producer_signature,
        );
        Ok(
            ContextEmbeddingProjectionV1 {
                content,
                input_hash,
                producer_signature: crate::text::owned(producer_signature),
            },
        )
    }

    pub fn content(&self) -> (content: &str)
        ensures
            content@ == self@.content,
    {
        self.content.as_str()
    }

    pub fn input_hash(&self) -> (hash: &ProjectionInputHash)
        ensures
            hash@ == self@.input_hash,
    {
        &self.input_hash
    }

    pub fn producer_signature(&self) -> (signature: &str)
        ensures
            signature@ == self@.producer_signature,
    {
        self.producer_signature.as_str()
    }

    pub fn version() -> (version: u32)
        ensures
            version == CONTEXT_EMBEDDING_PROJECTION_VERSION,
    {
        CONTEXT_EMBEDDING_PROJECTION_VERSION
    }
}

proof fn lemma_content_texts_skip_tag(nodes: Seq<NodeView>, position: int, tag: NodeView)
    requires
        0 <= position <= nodes.len(),
        tag.kind == SemanticKind::Tag,
    ensures
        content_texts(nodes.insert(position, tag)) == content_texts(nodes),
    decreases nodes.len(),
{
    let inserted = nodes.insert(position, tag);
    if position == nodes.len() {
        assert(inserted.drop_last() =~= nodes);
    } else {
        let prefix = nodes.drop_last();
        lemma_content_texts_skip_tag(prefix, position, tag);
        assert(inserted.drop_last() =~= prefix.insert(position, tag));
        assert(inserted.last() == nodes.last());
    }
}

proof fn lemma_content_texts_kind_and_text(a: Seq<NodeView>, b: Seq<NodeView>)
    requires
        a.len() == b.len(),
        forall|i: int| 0 <= i < a.len() ==> (#[trigger] a[i]).kind == b[i].kind && a[i].text == b[i].text,
    ensures
        content_texts(a) == content_texts(b),
    decreases a.len(),
{
    if a.len() > 0 {
        lemma_content_texts_kind_and_text(a.drop_last(), b.drop_last());
        assert(a.last() == a[a.len() - 1]);
        assert(b.last() == b[b.len() - 1]);
    }
}

/// Tags never reach an embedding: a tag node inserted anywhere among the
/// nodes leaves the local and the context embedding text as they were, so
/// a revision that only changes tags keeps its embedding projections.
pub proof fn law_embedding_text_ignores_tags(ir: IrView, position: int, tag: NodeView)
    requires
        0 <= position <= ir.nodes.len(),
        tag.kind == SemanticKind::Tag,
    ensures
        local_embedding_text(IrView { nodes: ir.nodes.insert(position, tag), ..ir })
            == local_embedding_text(ir),
        context_embedding_text(IrView { nodes: ir.nodes.insert(position, tag), ..ir })
            == context_embedding_text(ir),
{
    lemma_content_texts_skip_tag(ir.nodes, position, tag);
}

/// Only the kind and text of the nodes reach an embedding: nodes that
/// differ in nothing else (ids, attributes, spans, times such as
/// `valid_to`) give the same local and context embedding text.
pub proof fn law_embedding_text_reads_only_kind_and_text(ir: IrView, nodes: Seq<NodeView>)
    requires
        nodes.len() == ir.nodes.len(),
        forall|i: int|
            0 <= i < nodes.len() ==> (#[trigger] nodes[i]).kind == ir.nodes[i].kind && nodes[i].text
                == ir.nodes[i].text,
    ensures
        local_embedding_text(IrView { nodes, ..ir }) == local_embedding_text(ir),
        context_embedding_text(IrView { nodes, ..ir }) == context_embedding_text(ir),
{
    lemma_content_texts_kind_and_text(nodes, ir.nodes);
}

} // verus!
