use memoria_derived::{
    semantic_publication_target, AuthorityGeneration, EmbeddingBuildIdentity, LatestMemoryState,
    MemoryId, ProjectionInputHash, RevisionId, SemanticPublicationDecision, SpaceId,
};

fn identity(
    generation: u64,
    memory_id: MemoryId,
    revision_id: RevisionId,
    space_id: SpaceId,
    projection_byte: u8,
) -> EmbeddingBuildIdentity {
    EmbeddingBuildIdentity {
        authority_generation: AuthorityGeneration::new(generation),
        memory_id,
        revision_id,
        space_id,
        projection_input_hash: ProjectionInputHash::from_bytes([projection_byte; 32]),
    }
}

fn latest(
    generation: u64,
    memory_id: MemoryId,
    revision_id: RevisionId,
    space_id: SpaceId,
    projection_byte: u8,
) -> LatestMemoryState {
    LatestMemoryState {
        authority_generation: AuthorityGeneration::new(generation),
        memory_id,
        revision_id,
        space_id,
        projection_input_hash: ProjectionInputHash::from_bytes([projection_byte; 32]),
    }
}

#[test]
fn unchanged_projection_rebases_to_latest_revision_and_space() {
    let memory_id = MemoryId::from_bytes([1; 16]);
    let original = identity(
        5,
        memory_id,
        RevisionId::from_bytes([2; 32]),
        SpaceId::from_bytes([3; 16]),
        7,
    );
    let current = latest(
        8,
        memory_id,
        RevisionId::from_bytes([4; 32]),
        SpaceId::from_bytes([5; 16]),
        7,
    );

    match semantic_publication_target(&original, &current) {
        SemanticPublicationDecision::PublishAt {
            authority_generation,
            memory_id: published_memory,
            revision_id,
        } => {
            assert_eq!(authority_generation, AuthorityGeneration::new(8));
            assert_eq!(published_memory, memory_id);
            assert_eq!(revision_id, RevisionId::from_bytes([4; 32]));
        }
        SemanticPublicationDecision::Superseded => panic!("unchanged projection must publish"),
    }
}

#[test]
fn changed_projection_supersedes_old_completion() {
    let memory_id = MemoryId::from_bytes([6; 16]);
    let original = identity(
        5,
        memory_id,
        RevisionId::from_bytes([7; 32]),
        SpaceId::from_bytes([8; 16]),
        9,
    );
    let current = latest(
        6,
        memory_id,
        RevisionId::from_bytes([10; 32]),
        SpaceId::from_bytes([8; 16]),
        11,
    );

    assert!(matches!(
        semantic_publication_target(&original, &current),
        SemanticPublicationDecision::Superseded
    ));
}

#[test]
fn another_memory_supersedes_even_with_the_same_projection() {
    let original = identity(
        5,
        MemoryId::from_bytes([1; 16]),
        RevisionId::from_bytes([2; 32]),
        SpaceId::from_bytes([3; 16]),
        7,
    );
    let current = latest(
        6,
        MemoryId::from_bytes([9; 16]),
        RevisionId::from_bytes([2; 32]),
        SpaceId::from_bytes([3; 16]),
        7,
    );
    assert!(matches!(
        semantic_publication_target(&original, &current),
        SemanticPublicationDecision::Superseded
    ));
}
