use memoria_derived::{
    ContextEmbeddingProjectionV1, IrNode, LocalEmbeddingProjectionV1, MemoryIr,
    QueryEmbeddingProjectionV1, RerankViewV1, SemanticKind, SemanticNodeId, Span, TemporalValue,
};

fn span(start: usize, end: usize) -> Span {
    Span::new(start, end).unwrap()
}

fn id(value: &str) -> Option<SemanticNodeId> {
    Some(SemanticNodeId::parse(value).unwrap())
}

fn state(node_id: &str, text: &str) -> IrNode {
    IrNode::new(SemanticKind::State, id(node_id), text, span(0, 40))
}

fn tag(value: &str) -> IrNode {
    IrNode::new(SemanticKind::Tag, None, "", span(41, 50)).with_attribute("value", value)
}

fn projection(ir: &MemoryIr) -> LocalEmbeddingProjectionV1 {
    LocalEmbeddingProjectionV1::build(ir, "embedding-v1").unwrap()
}

#[test]
fn embedding_projection_excludes_mdx_markup_refs_tags_and_source_locators() {
    let ir = MemoryIr::new(
        "# Career",
        vec![
            IrNode::new(SemanticKind::Entity, id("person"), "Ada", span(9, 58))
                .with_attribute("id", "person")
                .with_attribute("ref", "person:7K4Q"),
            IrNode::new(SemanticKind::Source, id("src"), "", span(59, 100))
                .with_attribute("ref", "host-message:ABC"),
            IrNode::new(SemanticKind::Tag, None, "", span(101, 123))
                .with_attribute("value", "private"),
            IrNode::new(SemanticKind::State, id("work"), "Rust systems work", span(124, 170)),
        ],
    );
    let local = projection(&ir);

    assert!(local.content().contains("Ada"));
    assert!(local.content().contains("Rust systems work"));
    assert!(!local.content().contains("<Entity"));
    assert!(!local.content().contains("person:7K4Q"));
    assert!(!local.content().contains("<Source"));
    assert!(!local.content().contains("host-message:ABC"));
    assert!(!local.content().contains("<Tag"));
    assert!(!local.content().contains("private"));
}

#[test]
fn tag_only_revision_keeps_content_embedding_projection_hash() {
    let before = projection(&MemoryIr::new(
        "",
        vec![state("s", "career planning"), tag("old")],
    ));
    let after = projection(&MemoryIr::new(
        "",
        vec![state("s", "career planning"), tag("new")],
    ));

    assert_eq!(before.input_hash(), after.input_hash());
    assert_eq!(before.content(), after.content());
}

#[test]
fn valid_to_only_revision_keeps_content_embedding_projection_hash() {
    let before = projection(&MemoryIr::new(
        "",
        vec![state("s", "career planning").with_temporal(
            None,
            None,
            Some(TemporalValue::new("2025")),
            None,
        )],
    ));
    let after = projection(&MemoryIr::new(
        "",
        vec![state("s", "career planning").with_temporal(
            None,
            None,
            Some(TemporalValue::new("2025")),
            Some(TemporalValue::new("2026")),
        )],
    ));

    assert_eq!(before.input_hash(), after.input_hash());
}

#[test]
fn context_projection_includes_heading_and_display_surface_not_entity_ref() {
    let ir = MemoryIr::new(
        "# Career",
        vec![
            IrNode::new(SemanticKind::Section, id("systems"), "Rust systems work", span(9, 120)),
            IrNode::new(SemanticKind::Entity, None, "Ada", span(30, 70))
                .with_attribute("ref", "person:7K4Q"),
        ],
    );
    let context = ContextEmbeddingProjectionV1::build(&ir, "context-v1").unwrap();

    assert!(context.content().contains("Career"));
    assert!(context.content().contains("Ada"));
    assert!(context.content().contains("Rust systems work"));
    assert!(!context.content().contains("person:7K4Q"));
}

#[test]
fn rerank_view_hashes_only_bounded_provider_surfaces_and_handle() {
    let view = RerankViewV1::build(
        "SP:MEM:REV",
        "Career",
        "Systems",
        "Rust systems work",
        "bounded neighboring context",
        "rerank-v1",
    )
    .unwrap();

    assert_eq!(view.handle(), "SP:MEM:REV");
    assert!(view.content().contains("Career"));
    assert!(view.content().contains("Rust systems work"));
    assert!(!view.content().contains("<State"));
}

#[test]
fn query_embedding_projection_normalizes_unicode_whitespace_only() {
    let projection = QueryEmbeddingProjectionV1::build("  career\u{00a0}\n\tRust  ");

    assert_eq!(projection.content(), "career Rust");
}

#[test]
fn rerank_view_joins_non_empty_parts_by_line_and_refuses_blank_handles() {
    let view = RerankViewV1::build("h", "Title", "", "match", "", "rerank-v1").unwrap();
    assert_eq!(view.content(), "Title\nmatch");
    let blank = RerankViewV1::build(" ", "Title", "", "match", "", "rerank-v1").unwrap_err();
    assert!(blank.message().contains("rerank view handle must not be empty"));
    let producer = RerankViewV1::build("h", "Title", "", "match", "", "\n").unwrap_err();
    assert!(producer.message().contains("rerank view producer signature must not be empty"));
    assert_eq!(RerankViewV1::version(), 1);
}

#[test]
fn local_projection_drops_headings_and_keeps_body_lines() {
    let ir = MemoryIr::new("# Title\nbody line\r\n  ## Sub\n#hashtag\n", vec![]);
    let local = projection(&ir);
    assert_eq!(local.content(), "body line\n#hashtag");
    let context = ContextEmbeddingProjectionV1::build(&ir, "context-v1").unwrap();
    assert_eq!(context.content(), "# Title\nbody line\r\n  ## Sub\n#hashtag\n");
}

#[test]
fn different_producers_give_different_input_hashes() {
    let ir = MemoryIr::new("", vec![state("s", "career planning")]);
    let first = LocalEmbeddingProjectionV1::build(&ir, "embedding-v1").unwrap();
    let second = LocalEmbeddingProjectionV1::build(&ir, "embedding-v2").unwrap();
    assert_ne!(first.input_hash(), second.input_hash());
    assert!(LocalEmbeddingProjectionV1::build(&ir, " ").is_err());
}

#[test]
fn query_projection_is_idempotent() {
    let first = QueryEmbeddingProjectionV1::build("  Career\u{00a0}\n\tRust  Systems ");
    assert_eq!(first.content(), "Career Rust Systems");
    let second = QueryEmbeddingProjectionV1::build(first.content());
    assert_eq!(second.content(), first.content());
}
