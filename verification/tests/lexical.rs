use memoria_derived::lexical_artifact::lexical_tree_hash;
use memoria_derived::projection::lexical::lexical_text;
use memoria_derived::{
    lexical_projection_hash, AuthorityGeneration, IrNode, LexicalArtifactV1, LexicalDocument,
    MemoryId, MemoryIr, RevisionId, SemanticKind, SemanticNodeId, ServingRecord, SpaceId, Span,
};

fn document(text: &str, nodes: Vec<IrNode>) -> LexicalDocument {
    LexicalDocument::new(
        SpaceId::from_bytes([1; 16]),
        MemoryId::from_bytes([2; 16]),
        RevisionId::from_bytes([3; 32]),
        MemoryIr::new(text, nodes),
    )
}

fn node(kind: SemanticKind, text: &str) -> IrNode {
    IrNode::new(kind, None, text, Span::new(0, 10).unwrap())
}

#[test]
fn lexical_text_puts_each_node_on_its_own_line() {
    let ir = MemoryIr::new(
        "# Career",
        vec![
            node(SemanticKind::State, "Rust"),
            node(SemanticKind::Tag, "hidden"),
            node(SemanticKind::State, ""),
            node(SemanticKind::State, "systems"),
        ],
    );
    assert_eq!(lexical_text(&ir), "# Career\nRust\nsystems");
}

#[test]
fn tags_do_not_change_the_lexical_projection_hash() {
    let plain = document("# Career", vec![node(SemanticKind::State, "Rust")]);
    let tagged = document(
        "# Career",
        vec![node(SemanticKind::State, "Rust"), node(SemanticKind::Tag, "x").with_attribute("value", "x")],
    );
    let changed = document("# Career", vec![node(SemanticKind::State, "Go")]);
    assert_eq!(lexical_projection_hash(&plain), lexical_projection_hash(&tagged));
    assert_ne!(lexical_projection_hash(&plain), lexical_projection_hash(&changed));
}

#[test]
fn serving_record_collects_refs_tags_and_ids() {
    let doc = document(
        "",
        vec![
            IrNode::new(
                SemanticKind::State,
                Some(SemanticNodeId::parse("s").unwrap()),
                "A",
                Span::new(0, 50).unwrap(),
            ),
            node(SemanticKind::Entity, "Ada").with_attribute("ref", "person:1"),
            node(SemanticKind::Tag, "").with_attribute("value", "work"),
        ],
    );
    let record = ServingRecord::from_document(&doc, AuthorityGeneration::new(4)).unwrap();
    assert_eq!(record.entity_refs, vec!["person:1".to_owned()]);
    assert_eq!(record.tags, vec!["work".to_owned()]);
    assert_eq!(record.node_ids, vec!["s".to_owned()]);
    assert_eq!(record.text, "A\nAda");
    assert!(record.current && !record.retired);
}

#[test]
fn tree_hash_ignores_listing_order_and_sees_contents() {
    let first = lexical_tree_hash(vec![
        ("b".to_owned(), vec![2]),
        ("a".to_owned(), vec![1]),
    ]);
    let second = lexical_tree_hash(vec![
        ("a".to_owned(), vec![1]),
        ("b".to_owned(), vec![2]),
    ]);
    let third = lexical_tree_hash(vec![
        ("a".to_owned(), vec![1]),
        ("b".to_owned(), vec![3]),
    ]);
    assert_eq!(first, second);
    assert_ne!(first, third);
    let artifact = LexicalArtifactV1::new(first, AuthorityGeneration::new(2), 5);
    assert_eq!(artifact.object_path(), format!("objects/lexical/{}", first.as_hex()));
    assert_eq!(artifact.document_count(), 5);
}
