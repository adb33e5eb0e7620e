use memoria_derived::{
    lexical_projection_hash, EmbeddingNormalization, EmbeddingSignature, EmbeddingVector, EnrichmentProjection,
    GeneratedTagArtifact, GeneratedTagCandidate, IrNode, LexicalDocument, MemoryId, MemoryIr,
    ProjectionKind, RevisionId, SemanticKind, SpaceId, Span, TagDictionary, TagProvenance,
};

fn enrichment_document(heading: &str, text: &str) -> LexicalDocument {
    let ir = MemoryIr::new(
        heading,
        vec![IrNode::new(SemanticKind::State, None, text, Span::new(0, 20).unwrap())],
    );
    LexicalDocument::new(
        SpaceId::from_bytes([1; 16]),
        MemoryId::from_bytes([2; 16]),
        RevisionId::from_bytes([3; 32]),
        ir,
    )
}

fn candidates(values: &[&str]) -> Vec<GeneratedTagCandidate> {
    values.iter().map(|value| GeneratedTagCandidate::new(value)).collect()
}

#[test]
fn generated_tags_do_not_invalidate_content_embedding_payload() {
    let document = enrichment_document("# Career", "Rust systems work");
    let signature = EmbeddingSignature::new(
        "test-provider".to_owned(),
        "test-model".to_owned(),
        "content".to_owned(),
        3,
        EmbeddingNormalization::L2,
        ProjectionKind::LocalEmbedding.version(),
    )
    .unwrap();
    let embedding = EmbeddingVector::new(
        signature,
        vec![1.0f32.to_bits(), 0.0f32.to_bits(), 0.0f32.to_bits()],
    )
    .unwrap();
    let before = embedding.payload_hash();
    let projection = EnrichmentProjection::from_document(&document, "test-enrichment-v1").unwrap();
    let mut dictionary = TagDictionary::new();

    let _artifact =
        GeneratedTagArtifact::from_candidates(projection, &mut dictionary, candidates(&["career"]))
            .unwrap();

    assert_eq!(embedding.payload_hash(), before);
}

#[test]
fn generated_records_are_generated_unique_and_keep_the_projection_hash() {
    let document = enrichment_document("# Career", "Rust systems work");
    let projection = EnrichmentProjection::from_document(&document, "test-enrichment-v1").unwrap();
    assert_eq!(projection.content(), "# Career\nRust systems work");
    let mut dictionary = TagDictionary::new();
    let artifact = GeneratedTagArtifact::from_candidates(
        projection.clone(),
        &mut dictionary,
        candidates(&["Systems", " systems ", "career"]),
    )
    .unwrap();
    assert_eq!(artifact.projection_input_hash(), projection.input_hash());
    assert_eq!(artifact.records().len(), 2);
    assert!(artifact
        .records()
        .iter()
        .all(|record| record.provenance == TagProvenance::Generated));
    assert!(artifact.records()[0].tag_id.as_bytes() < artifact.records()[1].tag_id.as_bytes());
    assert_eq!(dictionary.len(), 2);
}

#[test]
fn metrics_and_counts_are_bounded() {
    let document = enrichment_document("", "text");
    let projection = EnrichmentProjection::from_document(&document, "p").unwrap();
    let mut dictionary = TagDictionary::new();
    let too_many = candidates(&["a", "b", "c", "d", "e", "f", "g", "h", "i"]);
    let error =
        GeneratedTagArtifact::from_candidates(projection.clone(), &mut dictionary, too_many)
            .unwrap_err();
    assert!(error.message().contains("limit of 8"));
    assert_eq!(dictionary.len(), 0);

    let scored = vec![
        GeneratedTagCandidate::new("a").with_score(1.0f32.to_bits()),
        GeneratedTagCandidate::new("b").with_score((-0.0f32).to_bits()),
    ];
    assert!(GeneratedTagArtifact::from_candidates(projection.clone(), &mut dictionary, scored).is_ok());
    let bad = vec![GeneratedTagCandidate::new("c").with_confidence(1.5f32.to_bits())];
    let error = GeneratedTagArtifact::from_candidates(projection.clone(), &mut dictionary, bad)
        .unwrap_err();
    assert!(error.message().contains("confidence"));
    let nan = vec![GeneratedTagCandidate::new("d").with_score(f32::NAN.to_bits())];
    assert!(GeneratedTagArtifact::from_candidates(projection, &mut dictionary, nan).is_err());
    assert!(EnrichmentProjection::from_document(&document, " ").is_err());
}

#[test]
fn generated_tags_do_not_change_source_or_semantic_hash() {
    let document = enrichment_document("# Career", "Rust systems work");
    let source_hash = lexical_projection_hash(&document);
    let projection = EnrichmentProjection::from_document(&document, "test-enrichment-v1").unwrap();
    let mut dictionary = TagDictionary::new();
    let artifact = GeneratedTagArtifact::from_candidates(
        projection.clone(),
        &mut dictionary,
        candidates(&["systems", "career"]),
    )
    .unwrap();

    assert_eq!(lexical_projection_hash(&document), source_hash);
    assert_eq!(artifact.projection_input_hash(), projection.input_hash());
    assert!(artifact
        .records()
        .iter()
        .all(|record| record.provenance == TagProvenance::Generated));
}

#[test]
fn candidates_convert_from_owned_values() {
    let candidate = GeneratedTagCandidate::from("career".to_owned());
    assert_eq!(candidate.value, "career");
    assert!(candidate.score.is_none());
    assert!(candidate.confidence.is_none());
}
