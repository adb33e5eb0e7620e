use memoria_derived::{
    default_content_signature, AuthorityGeneration, EmbeddingVector, MemoryId, RevisionId, SpaceId,
    VectorArtifact, VectorFilter, VectorMembership, VectorMembershipTable,
};

fn bits(values: &[f32]) -> Vec<u32> {
    values.iter().map(|value| value.to_bits()).collect()
}

fn artifact_with(values: &[f32]) -> VectorArtifact {
    let signature = default_content_signature("test".to_owned(), "model".to_owned(), 3).unwrap();
    let vector = EmbeddingVector::new(signature, bits(values)).unwrap();
    VectorArtifact::from_embedding(vector)
}

fn membership(
    space: u8,
    memory: u8,
    revision: u8,
    generation: u64,
    artifact: &VectorArtifact,
) -> VectorMembership {
    VectorMembership::new(
        SpaceId::from_bytes([space; 16]),
        MemoryId::from_bytes([memory; 16]),
        RevisionId::from_bytes([revision; 32]),
        AuthorityGeneration::new(generation),
        artifact,
    )
}

fn insert(table: &mut VectorMembershipTable, artifact: &VectorArtifact, membership: VectorMembership) -> Result<(), memoria_derived::DerivedError> {
    if let Some(key) = table.plan_insert(artifact, &membership)? {
        table.record(key, artifact.clone(), membership);
    }
    Ok(())
}

#[test]
fn membership_insert_is_idempotent_but_payload_conflicts_are_rejected() {
    let first_artifact = artifact_with(&[1.0, 0.0, 0.0]);
    let first_membership = membership(1, 2, 3, 7, &first_artifact);
    let mut index = VectorMembershipTable::new(first_artifact.signature().clone());
    insert(&mut index, &first_artifact, first_membership).unwrap();
    insert(&mut index, &first_artifact, first_membership).unwrap();
    assert_eq!(index.payload_count(), 1);
    assert_eq!(index.membership_count(), 1);

    let other_artifact = artifact_with(&[0.0, 1.0, 0.0]);
    let error = insert(&mut index, &other_artifact, first_membership)
        .expect_err("same authority membership must not change payload");
    assert!(error.message().contains("payload"));
}

#[test]
fn moving_membership_reuses_immutable_payload_and_filters_by_space() {
    let artifact = artifact_with(&[1.0, 0.0, 0.0]);
    let first = membership(1, 2, 3, 7, &artifact);
    let moved = membership(4, 2, 3, 8, &artifact);
    assert_eq!(first.payload_hash(), moved.payload_hash());
    assert_ne!(first.space_id(), moved.space_id());
    assert_ne!(first.authority_generation(), moved.authority_generation());

    let mut index = VectorMembershipTable::new(artifact.signature().clone());
    insert(&mut index, &artifact, first).unwrap();
    insert(&mut index, &artifact, moved).unwrap();
    assert_eq!(index.payload_count(), 1);
    assert_eq!(index.membership_count(), 2);
    assert_eq!(index.membership(1), Some(first));
    assert_eq!(index.membership(2), Some(moved));
    assert_eq!(index.membership(3), None);

    let first_space = VectorFilter::any().with_space_id(first.space_id());
    assert!(first_space.matches(&first));
    assert!(!first_space.matches(&moved));
    let moved_space = VectorFilter::any().with_space_id(moved.space_id());
    assert!(moved_space.matches(&moved));
    assert!(!moved_space.matches(&first));
}

#[test]
fn filters_select_by_each_field() {
    let artifact = artifact_with(&[1.0, 0.0, 0.0]);
    let first = membership(1, 2, 3, 7, &artifact);
    assert!(VectorFilter::any().matches(&first));
    assert!(VectorFilter::any().with_space_id(first.space_id()).matches(&first));
    assert!(!VectorFilter::any()
        .with_space_id(SpaceId::from_bytes([9; 16]))
        .matches(&first));
    assert!(!VectorFilter::any()
        .with_authority_generation(AuthorityGeneration::new(8))
        .matches(&first));
    assert!(VectorFilter::any()
        .with_memory_id(first.memory_id())
        .with_revision_id(first.revision_id())
        .matches(&first));
}

#[test]
fn mismatched_signature_or_payload_is_refused() {
    let artifact = artifact_with(&[1.0, 0.0, 0.0]);
    let other_signature =
        default_content_signature("test".to_owned(), "other".to_owned(), 3).unwrap();
    let table = VectorMembershipTable::new(other_signature);
    let error = table
        .plan_insert(&artifact, &membership(1, 2, 3, 7, &artifact))
        .unwrap_err();
    assert!(error.message().contains("signature does not match"));

    let table = VectorMembershipTable::new(artifact.signature().clone());
    let foreign = VectorMembership::from_parts(
        SpaceId::from_bytes([1; 16]),
        MemoryId::from_bytes([2; 16]),
        RevisionId::from_bytes([3; 32]),
        AuthorityGeneration::new(7),
        [0; 32],
    );
    let error = table.plan_insert(&artifact, &foreign).unwrap_err();
    assert!(error.message().contains("does not match artifact"));
}

#[test]
fn grown_capacity_doubles_with_a_floor() {
    assert_eq!(memoria_derived::membership::grown_capacity(0), Some(2));
    assert_eq!(memoria_derived::membership::grown_capacity(5), Some(10));
    assert_eq!(memoria_derived::membership::grown_capacity(usize::MAX), None);
}
