use vstd::prelude::*;

use crate::text::str_eq;
use crate::DerivedError;

verus! {

/// The kind of a semantic node of a Memory's IR.
#[derive(Clone, Copy, Debug, PartialEq, Eq, Hash, PartialOrd, Ord, Structural)]
pub enum SemanticKind {
    Section,
    State,
    Entity,
    Source,
    Relation,
    Tag,
}

/// The name of a kind, as its element is spelled.
pub open spec fn semantic_kind_name(kind: SemanticKind) -> Seq<char> {
    match kind {
        SemanticKind::Section => "Section"@,
        SemanticKind::State => "State"@,
        SemanticKind::Entity => "Entity"@,
        SemanticKind::Source => "Source"@,
        SemanticKind::Relation => "Relation"@,
        SemanticKind::Tag => "Tag"@,
    }
}

impl SemanticKind {
    pub fn as_str(self) -> (name: &'static str)
        ensures
            name@ == semantic_kind_name(self),
    {
        match self {
            SemanticKind::Section => "Section",
            SemanticKind::State => "State",
            SemanticKind::Entity => "Entity",
            SemanticKind::Source => "Source",
            SemanticKind::Relation => "Relation",
            SemanticKind::Tag => "Tag",
        }
    }
}

/// A character a node id may hold: an ASCII letter or digit, `-` or `_`.
pub open spec fn is_node_id_char(c: char) -> bool {
    ('a' <= c && c <= 'z') || ('A' <= c && c <= 'Z') || ('0' <= c && c <= '9') || c == '-' || c
        == '_'
}

/// A valid node id: non-empty, of id characters only.
pub open spec fn is_node_id(value: Seq<char>) -> bool {
    value.len() > 0 && forall|i: int| 0 <= i < value.len() ==> is_node_id_char(#[trigger] value[i])
}

/// The local id of a semantic node.
#[derive(Debug)]
pub struct SemanticNodeId(String);

impl Clone for SemanticNodeId {
    fn clone(&self) -> (copy: Self)
        ensures
            copy@ == self@,
    {
        SemanticNodeId(self.0.clone())
    }
}

impl View for SemanticNodeId {
    type V = Seq<char>;

    closed spec fn view(&self) -> Seq<char> {
        self.0@
    }
}

impl SemanticNodeId {
    /// Reads a node id; anything but a valid one is refused.
    pub fn parse(value: &str) -> (result: Result<Self, DerivedError>)
        ensures
            is_node_id(value@) ==> (result matches Ok(id) && id@ == value@),
            !is_node_id(value@) ==> (result matches Err(DerivedError::InvalidNodeId { value: text })
                && text@ == value@),
    {
        let mut valid = true;
        for character in it: value.chars()
            invariant
                it.seq() == value@,
                valid == forall|i: int|
                    0 <= i < it.index() ==> is_node_id_char(#[trigger] value@[i]),
        {
            let c = character;
            proof {
                assert(value@[it.index() as int] == c);
            }
            if !(('a' <= c && c <= 'z') || ('A' <= c && c <= 'Z') || ('0' <= c && c <= '9') || c
                == '-' || c == '_') {
                valid = false;
            }
        }
        if value.is_empty() || !valid {
            return Err(DerivedError::InvalidNodeId { value: crate::text::owned(value) });
        }
        Ok(SemanticNodeId(crate::text::owned(value)))
    }

    pub fn as_str(&self) -> (value: &str)
        ensures
            value@ == self@,
    {
        self.0.as_str()
    }

    /// Whether both ids are the same.
    pub fn same(&self, other: &Self) -> (same: bool)
        ensures
            same == (self@ == other@),
    {
        str_eq(self.0.as_str(), other.0.as_str())
    }
}

/// A temporal annotation of a node, as written.
#[derive(Clone, Debug)]
pub struct TemporalValue(String);

impl View for TemporalValue {
    type V = Seq<char>;

    closed spec fn view(&self) -> Seq<char> {
        self.0@
    }
}

impl TemporalValue {
    pub fn new(value: &str) -> (temporal: Self)
        ensures
            temporal@ == value@,
    {
        TemporalValue(crate::text::owned(value))
    }

    pub fn as_str(&self) -> (value: &str)
        ensures
            value@ == self@,
    {
        self.0.as_str()
    }
}

/// The byte range of a node in the source it was compiled from.
#[derive(Clone, Copy, Debug)]
pub struct Span {
    start: usize,
    end: usize,
}

impl Span {
    #[verifier::type_invariant]
    spec fn ordered(self) -> bool {
        self.start <= self.end
    }

    pub closed spec fn spec_start(self) -> usize {
        self.start
    }

    pub closed spec fn spec_end(self) -> usize {
        self.end
    }

    /// A span; the start must not pass the end.
    pub fn new(start: usize, end: usize) -> (span: Option<Self>)
        ensures
            start <= end ==> (span matches Some(s) && s.spec_start() == start && s.spec_end()
                == end),
            start > end ==> span is None,
    {
        if start <= end {
            Some(Span { start, end })
        } else {
            None
        }
    }

    pub fn start(&self) -> (start: usize)
        ensures
            start == self.spec_start(),
    {
        self.start
    }

    pub fn end(&self) -> (end: usize)
        ensures
            end == self.spec_end(),
    {
        self.end
    }

    pub fn len(&self) -> (len: usize)
        ensures
            self.spec_start() <= self.spec_end(),
            len == self.spec_end() - self.spec_start(),
    {
        proof {
            use_type_invariant(self);
        }
        self.end - self.start
    }
}

/// What a node holds.
pub ghost struct NodeView {
    pub kind: SemanticKind,
    pub id: Option<Seq<char>>,
    pub text: Seq<char>,
    pub attributes: Seq<(Seq<char>, Seq<char>)>,
    pub start: int,
    pub end: int,
    pub occurred_at: Option<Seq<char>>,
    pub observed_at: Option<Seq<char>>,
    pub valid_from: Option<Seq<char>>,
    pub valid_to: Option<Seq<char>>,
}

/// The view of an optional value with a view.
pub open spec fn id_view(id: Option<SemanticNodeId>) -> Option<Seq<char>> {
    match id {
        Some(id) => Some(id@),
        None => None,
    }
}

pub open spec fn temporal_view(value: Option<TemporalValue>) -> Option<Seq<char>> {
    match value {
        Some(value) => Some(value@),
        None => None,
    }
}

pub open spec fn temporal_ref_view(value: Option<&TemporalValue>) -> Option<Seq<char>> {
    match value {
        Some(value) => Some(value@),
        None => None,
    }
}

pub open spec fn attribute_views(attributes: Seq<(String, String)>) -> Seq<(Seq<char>, Seq<char>)> {
    attributes.map_values(|pair: (String, String)| (pair.0@, pair.1@))
}

/// One semantic node: its kind, optional id, display text, attributes,
/// source span and temporal annotations.
#[derive(Clone, Debug)]
pub struct IrNode {
    kind: SemanticKind,
    id: Option<SemanticNodeId>,
    text: String,
    attributes: Vec<(String, String)>,
    span: Span,
    occurred_at: Option<TemporalValue>,
    observed_at: Option<TemporalValue>,
    valid_from: Option<TemporalValue>,
    valid_to: Option<TemporalValue>,
}

impl View for IrNode {
    type V = NodeView;

    closed spec fn view(&self) -> NodeView {
        NodeView {
            kind: self.kind,
            id: id_view(self.id),
            text: self.text@,
            attributes: attribute_views(self.attributes@),
            start: self.span.spec_start() as int,
            end: self.span.spec_end() as int,
            occurred_at: temporal_view(self.occurred_at),
            observed_at: temporal_view(self.observed_at),
            valid_from: temporal_view(self.valid_from),
            valid_to: temporal_view(self.valid_to),
        }
    }
}

/// The first value of the attribute called `name`.
pub open spec fn attribute_spec(attributes: Seq<(Seq<char>, Seq<char>)>, name: Seq<char>) -> Option<
    Seq<char>,
>
    decreases attributes.len(),
{
    if attributes.len() == 0 {
        None
    } else if attributes[0].0 == name {
        Some(attributes[0].1)
    } else {
        attribute_spec(attributes.drop_first(), name)
    }
}

impl IrNode {
    /// A node without attributes or temporal annotations.
    pub fn new(kind: SemanticKind, id: Option<SemanticNodeId>, text: &str, span: Span) -> (node: Self)
        ensures
            node@ == (NodeView {
                kind,
                id: id_view(id),
                text: text@,
                attributes: Seq::empty(),
                start: span.spec_start() as int,
                end: span.spec_end() as int,
                occurred_at: None,
                observed_at: None,
                valid_from: None,
                valid_to: None,
            }),
    {
        let node = IrNode {
            kind,
            id,
            text: crate::text::owned(text),
            attributes: Vec::new(),
            span,
            occurred_at: None,
            observed_at: None,
            valid_from: None,
            valid_to: None,
        };
        assert(attribute_views(node.attributes@) =~= Seq::<(Seq<char>, Seq<char>)>::empty());
        node
    }

    /// The node with one more attribute.
    pub fn with_attribute(self, name: &str, value: &str) -> (node: Self)
        ensures
            node@ == (NodeView {
                attributes: self@.attributes.push((name@, value@)),
                ..self@
            }),
    {
        let mut node = self;
        node.attributes.push((crate::text::owned(name), crate::text::owned(value)));
        assert(attribute_views(node.attributes@) =~= self@.attributes.push((name@, value@)));
        node
    }

    /// The node with the given temporal annotations.
    pub fn with_temporal(
        self,
        occurred_at: Option<TemporalValue>,
        observed_at: Option<TemporalValue>,
        valid_from: Option<TemporalValue>,
        valid_to: Option<TemporalValue>,
    ) -> (node: Self)
        ensures
            node@ == (NodeView {
                occurred_at: temporal_view(occurred_at),
                observed_at: temporal_view(observed_at),
                valid_from: temporal_view(valid_from),
                valid_to: temporal_view(valid_to),
                ..self@
            }),
    {
        IrNode { occurred_at, observed_at, valid_from, valid_to, ..self }
    }

    pub fn kind(&self) -> (kind: SemanticKind)
        ensures
            kind == self@.kind,
    {
        self.kind
    }

    pub fn id(&self) -> (id: Option<&SemanticNodeId>)
        ensures
            id matches Some(value) ==> self@.id == Some(value@),
            id is None ==> self@.id is None,
    {
        match &self.id {
            Some(id) => Some(id),
            None => None,
        }
    }

    pub fn text(&self) -> (text: &str)
        ensures
            text@ == self@.text,
    {
        self.text.as_str()
    }

    pub fn attributes(&self) -> (attributes: &[(String, String)])
        ensures
            attribute_views(attributes@) == self@.attributes,
    {
        self.attributes.as_slice()
    }

    pub fn span(&self) -> (span: Span)
        ensures
            span.spec_start() == self@.start,
            span.spec_end() == self@.end,
    {
        self.span
    }

    pub fn occurred_at(&self) -> (value: Option<&TemporalValue>)
        ensures
            temporal_ref_view(value) == self@.occurred_at,
    {
        self.occurred_at.as_ref()
    }

    pub fn observed_at(&self) -> (value: Option<&TemporalValue>)
        ensures
            temporal_ref_view(value) == self@.observed_at,
    {
        self.observed_at.as_ref()
    }

    pub fn valid_from(&self) -> (value: Option<&TemporalValue>)
        ensures
            temporal_ref_view(value) == self@.valid_from,
    {
        self.valid_from.as_ref()
    }

    pub fn valid_to(&self) -> (value: Option<&TemporalValue>)
        ensures
            temporal_ref_view(value) == self@.valid_to,
    {
        self.valid_to.as_ref()
    }

    /// The first value of the attribute called `name`.
    pub fn attribute(&self, name: &str) -> (value: Option<&str>)
        ensures
            value matches Some(text) ==> attribute_spec(self@.attributes, name@) == Some(text@),
            value is None ==> attribute_spec(self@.attributes, name@) is None,
    {
        let ghost all = self@.attributes;
        let mut i: usize = 0;
        assert(all.skip(0) =~= all);
        while i < self.attributes.len()
            invariant
                all == attribute_views(self.attributes@),
                i <= self.attributes@.len(),
                attribute_spec(all, name@) == attribute_spec(all.skip(i as int), name@),
            decreases self.attributes@.len() - i,
        {
            let ghost rest = all.skip(i as int);
            assert(rest[0] == (self.attributes@[i as int].0@, self.attributes@[i as int].1@));
            if str_eq(self.attributes[i].0.as_str(), name) {
                return Some(self.attributes[i].1.as_str());
            }
            assert(rest.drop_first() =~= all.skip(i + 1));
            i = i + 1;
        }
        None
    }
}

/// What a compiled Memory holds: its heading and paragraph text, and its
/// semantic nodes in source order.
pub ghost struct IrView {
    pub text_hierarchy: Seq<char>,
    pub nodes: Seq<NodeView>,
}

pub open spec fn node_views(nodes: Seq<IrNode>) -> Seq<NodeView> {
    nodes.map_values(|node: IrNode| node@)
}

/// The semantic IR of one Memory revision.
#[derive(Clone, Debug)]
pub struct MemoryIr {
    text_hierarchy: String,
    nodes: Vec<IrNode>,
}

impl View for MemoryIr {
    type V = IrView;

    closed spec fn view(&self) -> IrView {
        IrView { text_hierarchy: self.text_hierarchy@, nodes: node_views(self.nodes@) }
    }
}

impl MemoryIr {
    pub fn new(text_hierarchy: &str, nodes: Vec<IrNode>) -> (ir: Self)
        ensures
            ir@ == (IrView { text_hierarchy: text_hierarchy@, nodes: node_views(nodes@) }),
    {
        MemoryIr { text_hierarchy: crate::text::owned(text_hierarchy), nodes }
    }

    pub fn text_hierarchy(&self) -> (text: &str)
        ensures
            text@ == self@.text_hierarchy,
    {
        self.text_hierarchy.as_str()
    }

    pub fn nodes(&self) -> (nodes: &[IrNode])
        ensures
            node_views(nodes@) == self@.nodes,
    {
        self.nodes.as_slice()
    }
}

/// `container` has an id and a span that holds `node`'s without being it.
pub open spec fn strictly_contains(container: NodeView, node: NodeView) -> bool {
    container.id is Some && container.start <= node.start && node.end <= container.end && !(
    container.start == node.start && container.end == node.end)
}

/// The index of the smallest node of `nodes` that strictly contains `node`;
/// among equally small ones, the first.
pub open spec fn nearest_container(nodes: Seq<NodeView>, node: NodeView) -> Option<int>
    decreases nodes.len(),
{
    if nodes.len() == 0 {
        None
    } else {
        let best = nearest_container(nodes.drop_last(), node);
        let last = nodes.len() - 1;
        if strictly_contains(nodes[last], node) && (best is None || nodes[last].end
            - nodes[last].start < nodes[best.unwrap()].end - nodes[best.unwrap()].start) {
            Some(last)
        } else {
            best
        }
    }
}

/// The id of the nearest container of `node` among `nodes`.
pub open spec fn nearest_container_id(nodes: Seq<NodeView>, node: NodeView) -> Option<Seq<char>> {
    match nearest_container(nodes, node) {
        Some(index) => nodes[index].id,
        None => None,
    }
}

proof fn lemma_nearest_container_bounds(nodes: Seq<NodeView>, node: NodeView)
    ensures
        nearest_container(nodes, node) matches Some(index) ==> 0 <= index < nodes.len()
            && strictly_contains(nodes[index], node),
    decreases nodes.len(),
{
    if nodes.len() > 0 {
        lemma_nearest_container_bounds(nodes.drop_last(), node);
    }
}

/// The id of the smallest node with an id whose span strictly holds
/// `node`'s; the first of equally small ones.
pub fn nearest_container_id_of(ir: &MemoryIr, node: &IrNode) -> (id: Option<SemanticNodeId>)
    ensures
        id_view(id) == nearest_container_id(ir@.nodes, node@),
{
    let nodes = ir.nodes.as_slice();
    let ghost views = node_views(nodes@);
    let span = node.span;
    let mut best: Option<usize> = None;
    let mut best_len: usize = 0;
    let mut i: usize = 0;
    assert(views.take(0) =~= Seq::<NodeView>::empty());
    while i < nodes.len()
        invariant
            views == node_views(nodes@),
            views == ir@.nodes,
            span.spec_start() == node@.start,
            span.spec_end() == node@.end,
            i <= nodes@.len(),
            best matches Some(b) ==> b < i && best_len == views[b as int].end - views[b as int].start,
            (match best {
                Some(b) => Some(b as int),
                None => None,
            }) == nearest_container(views.take(i as int), node@),
        decreases nodes@.len() - i,
    {
        let candidate = &nodes[i];
        assert(views[i as int] == candidate@);
        let candidate_span = candidate.span;
        let length = candidate_span.len();
        let contains = candidate.id.is_some() && candidate_span.start() <= span.start()
            && span.end() <= candidate_span.end() && !(candidate_span.start() == span.start()
            && candidate_span.end() == span.end());
        proof {
            assert(views.take(i + 1).drop_last() =~= views.take(i as int));
            assert(views.take(i + 1)[i as int] == views[i as int]);
            lemma_nearest_container_bounds(views.take(i as int), node@);
            if best is Some {
                assert(views.take(i + 1)[best.unwrap() as int] == views[best.unwrap() as int]);
            }
        }
        if contains {
            let better = match best {
                Some(_) => length < best_len,
                None => true,
            };
            if better {
                best = Some(i);
                best_len = length;
            }
        }
        i = i + 1;
    }
    assert(views.take(nodes@.len() as int) =~= views);
    match best {
        Some(b) => {
            assert(views[b as int] == nodes@[b as int]@);
            match &nodes[b].id {
                Some(id) => Some(id.clone()),
                None => None,
            }
        },
        None => None,
    }
}

} // verus!
