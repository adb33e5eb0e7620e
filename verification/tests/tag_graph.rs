use memoria_derived::{
    MemoryId, RevisionId, SpaceId, TagAssociationEvidence, TagDictionary, TagGraph, TagId,
    TagMembershipInput, TagProvenance, TagSpaceGraph,
};

struct TagFixture {
    dictionary: TagDictionary,
    tag_graph: TagGraph,
}

impl TagFixture {
    fn new() -> Self {
        Self {
            dictionary: TagDictionary::new(),
            tag_graph: TagGraph::new(),
        }
    }

    fn add_tag(&mut self, space: u8, value: &str, memory: u8) -> TagId {
        self.add_tag_with_provenance(space, value, memory, TagProvenance::Explicit)
    }

    fn add_tag_with_provenance(
        &mut self,
        space: u8,
        value: &str,
        memory: u8,
        provenance: TagProvenance,
    ) -> TagId {
        self.tag_graph
            .insert_membership(&mut self.dictionary, input(space, value, memory, provenance))
            .unwrap()
    }

    fn graph(&self, space: u8) -> TagSpaceGraph<'_> {
        self.tag_graph.for_space(SpaceId::from_bytes([space; 16]))
    }
}

fn input(space: u8, value: &str, memory: u8, provenance: TagProvenance) -> TagMembershipInput {
    TagMembershipInput::new(
        SpaceId::from_bytes([space; 16]),
        MemoryId::from_bytes([memory; 16]),
        RevisionId::from_bytes([memory; 32]),
        value,
        provenance,
    )
}

fn weight(edge: &TagAssociationEvidence) -> f32 {
    edge.explicit_evidence() as f32 + edge.generated_evidence() as f32 * 0.5
}

fn space_fingerprint(graph: TagSpaceGraph<'_>) -> [u8; 32] {
    let weights: Vec<u32> = graph
        .edges()
        .iter()
        .map(|edge| weight(edge).to_bits())
        .collect();
    graph.fingerprint(&weights)
}

fn graph_fingerprint(graph: &TagGraph) -> [u8; 32] {
    let weights: Vec<u32> = graph.edges().iter().map(|edge| weight(edge).to_bits()).collect();
    graph.fingerprint(&weights)
}

#[test]
fn same_tag_identity_does_not_merge_space_evidence() {
    let mut fixture = TagFixture::new();
    let a = fixture.add_tag(1, "Rust", 1);
    let b = fixture.add_tag(2, " rust ", 2);

    assert_eq!(a, b);
    assert_ne!(
        space_fingerprint(fixture.graph(1)),
        space_fingerprint(fixture.graph(2))
    );
    assert_eq!(fixture.graph(1).membership_count(a), 1);
    assert_eq!(fixture.graph(2).membership_count(b), 1);
}

#[test]
fn cooccurrence_keeps_provenance_separate_from_final_weight() {
    let mut fixture = TagFixture::new();
    let rust = fixture.add_tag(1, "Rust", 1);
    let systems = fixture.add_tag(1, "Systems", 1);
    fixture.add_tag_with_provenance(1, "Rust", 2, TagProvenance::Generated);
    fixture.add_tag_with_provenance(1, "Systems", 2, TagProvenance::Generated);

    let edge = fixture.graph(1).edge(rust, systems).unwrap();
    assert_eq!(edge.explicit_evidence(), 1);
    assert_eq!(edge.generated_evidence(), 1);
    assert_eq!(edge.weight_half_units(), 3);
    assert_eq!(weight(edge), 1.5);
}

#[test]
fn repeated_membership_is_recorded_once() {
    let mut fixture = TagFixture::new();
    fixture.add_tag(1, "Rust", 1);
    let before = fixture.tag_graph.membership_evidence().len();
    let fingerprint = graph_fingerprint(&fixture.tag_graph);
    fixture.add_tag(1, "  RUST ", 1);
    assert_eq!(fixture.tag_graph.membership_evidence().len(), before);
    assert_eq!(graph_fingerprint(&fixture.tag_graph), fingerprint);
    assert_eq!(fixture.dictionary.len(), 1);
}

#[test]
fn provenance_and_node_keep_memberships_apart() {
    let mut graph = TagGraph::new();
    let mut dictionary = TagDictionary::new();
    graph
        .insert_membership(&mut dictionary, input(1, "Rust", 1, TagProvenance::Explicit))
        .unwrap();
    graph
        .insert_membership(&mut dictionary, input(1, "Rust", 1, TagProvenance::Generated))
        .unwrap();
    graph
        .insert_membership(
            &mut dictionary,
            input(1, "Rust", 1, TagProvenance::Explicit).with_node_id("section-a"),
        )
        .unwrap();
    let memberships = graph.membership_evidence();
    assert_eq!(memberships.len(), 3);
    assert_eq!(memberships[0].provenance, TagProvenance::Explicit);
    assert_eq!(memberships[0].node_id, None);
    assert_eq!(memberships[1].node_id.as_deref(), Some("section-a"));
    assert_eq!(memberships[2].provenance, TagProvenance::Generated);
    assert_eq!(memberships[0].normalized_value, "rust");
    let space = graph.for_space(SpaceId::from_bytes([1; 16]));
    assert_eq!(space.membership_count(memberships[0].tag_id), 1);
    assert!(space.edges().is_empty());
}

#[test]
fn mixed_provenance_gives_no_association() {
    let mut fixture = TagFixture::new();
    let rust = fixture.add_tag(1, "Rust", 1);
    let systems = fixture.add_tag_with_provenance(1, "Systems", 1, TagProvenance::Generated);
    assert!(fixture.graph(1).edge(rust, systems).is_none());
    assert!(fixture.graph(1).edges().is_empty());
}

#[test]
fn edges_are_found_in_either_order_and_only_in_their_space() {
    let mut fixture = TagFixture::new();
    let rust = fixture.add_tag(1, "Rust", 1);
    let systems = fixture.add_tag(1, "Systems", 1);
    fixture.add_tag(1, "Rust", 2);
    fixture.add_tag(1, "Systems", 2);
    fixture.add_tag(2, "Rust", 3);
    let forward = fixture.graph(1).edge(rust, systems).unwrap();
    let backward = fixture.graph(1).edge(systems, rust).unwrap();
    assert_eq!(forward.explicit_evidence(), 2);
    assert_eq!(backward.explicit_evidence(), 2);
    assert!(forward.left < forward.right);
    assert!(fixture.graph(2).edge(rust, systems).is_none());
    assert!(fixture.graph(1).edge(rust, rust).is_none());
    assert_eq!(fixture.graph(1).membership_count(rust), 2);
    assert_eq!(fixture.graph(2).membership_count(rust), 1);
    assert_eq!(fixture.graph(1).edges().len(), 1);
}

#[test]
fn tag_ids_are_sorted_and_distinct() {
    let mut fixture = TagFixture::new();
    let a = fixture.add_tag(1, "zeta", 1);
    let b = fixture.add_tag(1, "alpha", 2);
    fixture.add_tag(1, "zeta", 3);
    fixture.add_tag(2, "other", 3);
    let tags = fixture.graph(1).tag_ids();
    let mut expected = vec![a, b];
    expected.sort();
    assert_eq!(tags, expected);
    assert_eq!(fixture.graph(1).memberships().len(), 3);
    assert_eq!(fixture.graph(2).memberships().len(), 1);
}

#[test]
fn empty_tag_value_is_refused_and_leaves_graph_empty() {
    let mut graph = TagGraph::new();
    let mut dictionary = TagDictionary::new();
    let error = graph
        .insert_membership(&mut dictionary, input(1, "  \t ", 1, TagProvenance::Explicit))
        .unwrap_err();
    assert_eq!(error.message(), "invalid projection value: Tag value must not be empty");
    assert!(graph.is_empty());
    assert!(dictionary.is_empty());
}
