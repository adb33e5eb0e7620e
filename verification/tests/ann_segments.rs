use memoria_derived::{
    should_schedule_ann_compaction, AnnSegmentEntry, AnnSegmentV1, AuthorityGeneration, MemoryId,
    RevisionId, SpaceId, VectorFilter, VectorMembership,
};

fn membership(seed: u8, generation: u64) -> VectorMembership {
    VectorMembership::from_parts(
        SpaceId::from_bytes([1; 16]),
        MemoryId::from_bytes([seed; 16]),
        RevisionId::from_bytes([seed; 32]),
        AuthorityGeneration::new(generation),
        [seed; 32],
    )
}

fn bits(values: &[f32]) -> Vec<u32> {
    values.iter().map(|value| value.to_bits()).collect()
}

fn entry(target: &str, seed: u8, generation: u64, values: Vec<f32>) -> AnnSegmentEntry {
    AnnSegmentEntry::new(target, membership(seed, generation), bits(&values)).unwrap()
}

#[test]
fn query_across_segments_deduplicates_same_target_to_newest_membership() {
    let older = AnnSegmentV1::build(
        "provider:model:v1",
        vec![entry("memory:one", 1, 1, vec![1.0, 0.0])],
    )
    .unwrap();
    let newer = AnnSegmentV1::build(
        "provider:model:v1",
        vec![
            entry("memory:one", 2, 2, vec![0.0, 1.0]),
            entry("memory:two", 3, 2, vec![1.0, 0.0]),
        ],
    )
    .unwrap();

    let hits = AnnSegmentV1::merge_candidates(&[&newer, &older], &[], &VectorFilter::any());

    assert_eq!(hits.len(), 2);
    assert_eq!(
        hits[0].membership().memory_id(),
        MemoryId::from_bytes([2; 16])
    );
    assert_eq!(
        hits[0].membership().authority_generation(),
        AuthorityGeneration::new(2)
    );
}

#[test]
fn tombstoned_target_is_never_returned_from_older_segment() {
    let older = AnnSegmentV1::build(
        "provider:model:v1",
        vec![entry("memory:removed", 1, 1, vec![1.0, 0.0])],
    )
    .unwrap();
    let tombstones = vec!["memory:removed".to_owned()];

    let hits = AnnSegmentV1::merge_candidates(&[&older], &tombstones, &VectorFilter::any());

    assert!(hits.is_empty());
}

#[test]
fn ninth_delta_segment_schedules_compaction() {
    assert!(!should_schedule_ann_compaction(8, 0, 100));
    assert!(should_schedule_ann_compaction(9, 0, 100));
}

#[test]
fn tombstone_ratio_above_twenty_percent_schedules_compaction() {
    assert!(!should_schedule_ann_compaction(1, 20, 80));
    assert!(should_schedule_ann_compaction(1, 21, 79));
}

#[test]
fn compaction_counts_saturate_and_empty_targets_do_not_schedule() {
    assert!(!should_schedule_ann_compaction(0, 0, 0));
    assert!(should_schedule_ann_compaction(0, u64::MAX, u64::MAX));
    assert!(!should_schedule_ann_compaction(0, 1, u64::MAX));
}

#[test]
fn build_keeps_the_last_entry_per_key_in_key_order() {
    let segment = AnnSegmentV1::build(
        "provider:model:v1",
        vec![
            entry("memory:b", 1, 1, vec![1.0, 0.0]),
            entry("memory:a", 2, 1, vec![0.0, 1.0]),
            entry("memory:b", 3, 2, vec![0.5, 0.5]),
        ],
    )
    .unwrap();
    let keys: Vec<&str> = segment.entries().iter().map(|entry| entry.target_key()).collect();
    assert_eq!(keys, vec!["memory:a", "memory:b"]);
    assert_eq!(
        segment.entries()[1].membership().memory_id(),
        MemoryId::from_bytes([3; 16])
    );
    assert_eq!(segment.dimension(), 2);
    assert_eq!(segment.vector_count(), 2);
}

#[test]
fn build_refusals_name_what_is_wrong() {
    let blank = AnnSegmentV1::build("  \t", vec![entry("memory:a", 1, 1, vec![1.0])]).unwrap_err();
    assert!(blank.message().contains("producer signature must not be empty"));
    let empty = AnnSegmentV1::build("p", Vec::new()).unwrap_err();
    assert!(empty.message().contains("at least one vector"));
    let mixed = AnnSegmentV1::build(
        "p",
        vec![entry("memory:a", 1, 1, vec![1.0]), entry("memory:b", 2, 1, vec![1.0, 2.0])],
    )
    .unwrap_err();
    assert!(mixed.message().contains("inconsistent dimensions"));
}

#[test]
fn entry_refuses_empty_non_finite_values_and_empty_keys() {
    assert!(AnnSegmentEntry::new("k", membership(1, 1), Vec::new()).is_err());
    assert!(AnnSegmentEntry::new("k", membership(1, 1), vec![f32::INFINITY.to_bits()]).is_err());
    let error = AnnSegmentEntry::new("", membership(1, 1), vec![1.0f32.to_bits()]).unwrap_err();
    assert!(error.message().contains("target key must not be empty"));
}

#[test]
fn canonical_bytes_read_back_to_the_same_segment() {
    let segment = AnnSegmentV1::build(
        "provider:model:v1",
        vec![
            entry("memory:two", 2, 3, vec![0.25, -1.5]),
            entry("memory:one", 1, 4, vec![1.0, 0.0]),
        ],
    )
    .unwrap();
    let bytes = segment.canonical_bytes();
    assert_eq!(&bytes[..8], b"MEMANN01");
    let restored = AnnSegmentV1::from_canonical_bytes(&bytes).unwrap();
    assert_eq!(restored.canonical_bytes(), bytes);
    assert_eq!(restored.hash(), segment.hash());
    assert_eq!(restored.producer_signature(), "provider:model:v1");
}

#[test]
fn corrupt_segments_are_refused() {
    let segment =
        AnnSegmentV1::build("provider:model:v1", vec![entry("memory:one", 1, 1, vec![1.0])])
            .unwrap();
    let mut bytes = segment.canonical_bytes();
    bytes[0] = b'X';
    assert!(AnnSegmentV1::from_canonical_bytes(&bytes)
        .unwrap_err()
        .message()
        .contains("magic"));
    let mut longer = segment.canonical_bytes();
    longer.push(0);
    assert!(AnnSegmentV1::from_canonical_bytes(&longer)
        .unwrap_err()
        .message()
        .contains("invalid encoded length"));
    assert!(AnnSegmentV1::from_canonical_bytes(&bytes[..10])
        .unwrap_err()
        .message()
        .contains("truncated"));
}

#[test]
fn filter_refuses_other_spaces_in_merge() {
    let segment =
        AnnSegmentV1::build("provider:model:v1", vec![entry("memory:one", 1, 1, vec![1.0])])
            .unwrap();
    let other_space = VectorFilter::any().with_space_id(SpaceId::from_bytes([9; 16]));
    assert!(AnnSegmentV1::merge_candidates(&[&segment], &[], &other_space).is_empty());
    let same_space = VectorFilter::any().with_space_id(SpaceId::from_bytes([1; 16]));
    assert_eq!(AnnSegmentV1::merge_candidates(&[&segment], &[], &same_space).len(), 1);
}

#[test]
fn segment_path_uses_the_first_byte_as_directory() {
    let path = memoria_derived::ann::ann_segment_relative_path(&[0xab; 32]);
    assert!(path.starts_with("objects/ann/ab/abab"));
    assert!(path.ends_with(".usearch"));
    assert_eq!(path.len(), "objects/ann/ab/".len() + 64 + ".usearch".len());
}

#[test]
fn stored_segment_must_hash_to_its_address() {
    let segment =
        AnnSegmentV1::build("provider:model:v1", vec![entry("memory:one", 1, 1, vec![1.0])])
            .unwrap();
    let bytes = segment.canonical_bytes();
    let restored = AnnSegmentV1::from_stored_bytes(&bytes, &segment.hash()).unwrap();
    assert_eq!(restored.hash(), segment.hash());
    let error = AnnSegmentV1::from_stored_bytes(&bytes, &[0; 32]).unwrap_err();
    assert!(error.message().contains("ANN segment checksum does not match its path"));
}
