use memoria_derived::{
    validate_embedding_result, EmbeddingNormalization, EmbeddingPayloadCache, EmbeddingResult,
    EmbeddingResultItem, EmbeddingSignature, EmbeddingVector, EmbeddingWork, EmbeddingWorkItem,
    ProjectionInputHash, ProjectionKind,
};

fn signature(dimensions: usize) -> EmbeddingSignature {
    EmbeddingSignature::new(
        "test-provider".to_owned(),
        "test-model".to_owned(),
        "content".to_owned(),
        dimensions,
        EmbeddingNormalization::L2,
        1,
    )
    .unwrap()
}

fn bits(values: &[f32]) -> Vec<u32> {
    values.iter().map(|value| value.to_bits()).collect()
}

fn work(signature: EmbeddingSignature) -> EmbeddingWork {
    EmbeddingWork {
        work_id: "W1".to_owned(),
        signature,
        items: vec![EmbeddingWorkItem {
            key: "u1".to_owned(),
            input_hash: ProjectionInputHash::new(ProjectionKind::Ir, b"source", "producer"),
        }],
    }
}

#[test]
fn wrong_embedding_dimension_is_rejected_before_cache_insert() {
    let work = work(signature(3));
    let result = EmbeddingResult {
        work_id: "W1".to_owned(),
        signature: work.signature.clone(),
        items: vec![EmbeddingResultItem {
            key: "u1".to_owned(),
            values: bits(&[1.0, 2.0]),
        }],
    };
    assert!(validate_embedding_result(&work, &result).is_err());
}

#[test]
fn cache_identity_includes_provider_model_dimension_and_input_hash() {
    let input = ProjectionInputHash::new(ProjectionKind::Ir, b"source", "producer");
    let first = signature(3);
    let second = EmbeddingSignature::new(
        "test-provider".to_owned(),
        "other-model".to_owned(),
        "content".to_owned(),
        3,
        EmbeddingNormalization::L2,
        1,
    )
    .unwrap();
    assert_ne!(first.identity_hash(&input), second.identity_hash(&input));
    assert_ne!(first.cache_key(input.clone()), second.cache_key(input));
}

#[test]
fn reusable_payload_cache_rejects_conflicting_payload_for_same_identity() {
    let input = ProjectionInputHash::new(ProjectionKind::Ir, b"source", "producer");
    let signature = signature(2);
    let key = signature.cache_key(input);
    let first = EmbeddingVector::new(signature.clone(), bits(&[1.0, 0.0])).unwrap();
    let second = EmbeddingVector::new(signature, bits(&[0.0, 1.0])).unwrap();
    let mut cache = EmbeddingPayloadCache::new();
    cache.insert(key.clone(), first).unwrap();
    assert!(cache.insert(key.clone(), second).is_err());
    assert_eq!(cache.len(), 1);
}

#[test]
fn matching_result_is_accepted_in_work_order() {
    let work = work(signature(2));
    let result = EmbeddingResult {
        work_id: "W1".to_owned(),
        signature: work.signature.clone(),
        items: vec![EmbeddingResultItem {
            key: "u1".to_owned(),
            values: bits(&[0.5, 0.5]),
        }],
    };
    let vectors = validate_embedding_result(&work, &result).unwrap();
    assert_eq!(vectors.len(), 1);
    assert_eq!(vectors[0].values(), &bits(&[0.5, 0.5])[..]);
}

#[test]
fn non_finite_embedding_values_are_refused() {
    let error = EmbeddingVector::new(signature(1), vec![f32::NAN.to_bits()]).unwrap_err();
    assert!(error.message().contains("finite"));
}

#[test]
fn equal_values_give_equal_payload_hashes() {
    let first = EmbeddingVector::new(signature(2), bits(&[1.0, 0.0])).unwrap();
    let second = EmbeddingVector::new(signature(2), bits(&[1.0, 0.0])).unwrap();
    let third = EmbeddingVector::new(signature(2), bits(&[0.0, 1.0])).unwrap();
    assert_eq!(first.payload_hash(), second.payload_hash());
    assert_ne!(first.payload_hash(), third.payload_hash());
}
