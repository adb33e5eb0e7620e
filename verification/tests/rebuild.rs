use memoria_derived::{
    EntityObservationBuilder, ExplicitTagBuilder, IrNode, MemoryIr, RelationBuilder, SemanticKind,
    SemanticNodeId, Span, StructuralBuilder, TagProvenance, TemporalBuilder, TemporalValue,
};

fn span(start: usize, end: usize) -> Span {
    Span::new(start, end).unwrap()
}

fn id(value: &str) -> Option<SemanticNodeId> {
    Some(SemanticNodeId::parse(value).unwrap())
}

#[test]
fn entity_observation_keeps_ref_and_surface() {
    let ir = MemoryIr::new(
        "",
        vec![IrNode::new(SemanticKind::Entity, None, "Alex", span(0, 38))
            .with_attribute("ref", "person:ABC")],
    );
    let artifact = EntityObservationBuilder::build(&ir).unwrap();
    assert_eq!(artifact.observations()[0].entity_ref.as_str(), "person:ABC");
    assert_eq!(artifact.observations()[0].surface, "Alex");
}

#[test]
fn explicit_tag_records_scope_and_provenance() {
    let ir = MemoryIr::new(
        "",
        vec![
            IrNode::new(SemanticKind::State, id("s"), "A", span(0, 42)),
            IrNode::new(SemanticKind::Tag, None, "", span(14, 34)).with_attribute("value", "work"),
        ],
    );
    let artifact = ExplicitTagBuilder::build(&ir).unwrap();
    assert_eq!(artifact.memberships()[0].node_id.as_deref(), Some("s"));
    assert_eq!(artifact.memberships()[0].provenance, TagProvenance::Explicit);
}

#[test]
fn missing_or_invalid_references_are_refused() {
    let missing = MemoryIr::new(
        "",
        vec![IrNode::new(SemanticKind::Entity, None, "Alex", span(0, 10))],
    );
    assert!(EntityObservationBuilder::build(&missing)
        .unwrap_err()
        .message()
        .contains("Entity.ref is missing"));
    let spaced = MemoryIr::new(
        "",
        vec![IrNode::new(SemanticKind::Entity, None, "Alex", span(0, 10))
            .with_attribute("ref", "person: ABC")],
    );
    assert!(EntityObservationBuilder::build(&spaced)
        .unwrap_err()
        .message()
        .contains("person: ABC"));
    let untagged = MemoryIr::new("", vec![IrNode::new(SemanticKind::Tag, None, "", span(0, 5))]);
    assert!(ExplicitTagBuilder::build(&untagged)
        .unwrap_err()
        .message()
        .contains("Tag.value is missing"));
}

#[test]
fn structure_names_the_smallest_container() {
    let ir = MemoryIr::new(
        "",
        vec![
            IrNode::new(SemanticKind::Section, id("outer"), "", span(0, 100)),
            IrNode::new(SemanticKind::State, id("inner"), "", span(10, 50)),
            IrNode::new(SemanticKind::Entity, None, "Ada", span(20, 30)),
            IrNode::new(SemanticKind::State, id("same"), "", span(10, 50)),
        ],
    );
    let artifact = StructuralBuilder::build(&ir).unwrap();
    let parents: Vec<Option<&str>> = artifact
        .entries()
        .iter()
        .map(|entry| entry.parent_node_id.as_ref().map(|id| id.as_str()))
        .collect();
    assert_eq!(parents, vec![None, Some("outer"), Some("inner"), Some("outer")]);
}

#[test]
fn temporal_assertions_cover_annotated_nodes_only() {
    let ir = MemoryIr::new(
        "",
        vec![
            IrNode::new(SemanticKind::State, id("a"), "A", span(0, 10)),
            IrNode::new(SemanticKind::State, id("b"), "B", span(11, 20)).with_temporal(
                None,
                None,
                Some(TemporalValue::new("2025")),
                Some(TemporalValue::new("2026")),
            ),
        ],
    );
    let artifact = TemporalBuilder::build(&ir).unwrap();
    assert_eq!(artifact.assertions().len(), 1);
    assert_eq!(artifact.assertions()[0].node_id.as_ref().unwrap().as_str(), "b");
    assert_eq!(artifact.assertions()[0].valid_to.as_ref().unwrap().as_str(), "2026");
}

#[test]
fn relations_read_local_ids_and_default_kind() {
    let ir = MemoryIr::new(
        "",
        vec![IrNode::new(SemanticKind::Relation, id("r"), "", span(0, 10))
            .with_attribute("from", "#a")
            .with_attribute("to", "b")],
    );
    let artifact = RelationBuilder::build(&ir).unwrap();
    assert_eq!(artifact.relations()[0].from.as_str(), "a");
    assert_eq!(artifact.relations()[0].to.as_str(), "b");
    assert_eq!(artifact.relations()[0].kind, "association");
    let anonymous = MemoryIr::new(
        "",
        vec![IrNode::new(SemanticKind::Relation, None, "", span(0, 10))],
    );
    assert!(RelationBuilder::build(&anonymous).is_err());
    let bad = MemoryIr::new(
        "",
        vec![IrNode::new(SemanticKind::Relation, id("r"), "", span(0, 10))
            .with_attribute("from", "a b")
            .with_attribute("to", "c")],
    );
    assert!(RelationBuilder::build(&bad).unwrap_err().message().contains("a b"));
}
