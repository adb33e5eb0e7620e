use memoria_derived::artifact::{build_job_failure, build_job_id};
use memoria_derived::gc::{plan_gc, state_after_collection, GcRoots, ManifestLinks};
use memoria_derived::lease::lease_expiry;
use memoria_derived::records::{
    decode_strings, encode_strings, generation_from_sql, normalization_from_sql,
    normalization_to_sql, provenance_from_sql, provenance_to_sql,
};
use memoria_derived::{
    capabilities_for_kinds, plan_manifest_publication, ArtifactId, ArtifactRow, ArtifactState,
    AuthorityGeneration, BuildJobState, DerivedManifest, DerivedStatus, EmbeddingNormalization,
    ManifestId, ManifestLease, TagProvenance,
};
use memoria_derived::{
    LexicalArtifactRecord, MemoryId, ProjectionInputHash, ProjectionKind, RevisionId,
    ServingRecord, SpaceId, VectorPayloadHash, VectorPayloadRecord,
};

fn row(state: &str, generation: i64, kind: &str) -> ArtifactRow {
    ArtifactRow {
        state: state.to_owned(),
        authority_generation: generation,
        kind: kind.to_owned(),
        version: 1,
        has_vector_membership: false,
        has_lexical_record: false,
    }
}

fn strings(values: &[&str]) -> Vec<String> {
    values.iter().map(|value| value.to_string()).collect()
}

#[test]
fn unvalidated_artifact_cannot_be_published() {
    let rows = vec![(ArtifactId::from_raw(1), Some(row("staged", 3, "ir")))];
    let error = plan_manifest_publication(&rows, AuthorityGeneration::new(3), &[], false).unwrap_err();
    assert!(matches!(
        error,
        memoria_derived::DerivedError::ArtifactNotValidated { state: ArtifactState::Staged, .. }
    ));
}

#[test]
fn missing_and_stale_artifacts_are_refused() {
    let missing = vec![(ArtifactId::from_raw(9), None)];
    assert!(matches!(
        plan_manifest_publication(&missing, AuthorityGeneration::new(3), &[], false),
        Err(memoria_derived::DerivedError::ArtifactNotFound { .. })
    ));
    let stale = vec![(ArtifactId::from_raw(1), Some(row("validated", 2, "ir")))];
    assert!(matches!(
        plan_manifest_publication(&stale, AuthorityGeneration::new(3), &[], false),
        Err(memoria_derived::DerivedError::ArtifactGenerationMismatch { .. })
    ));
}

#[test]
fn accepted_embedding_without_vector_artifact_cannot_publish_semantic() {
    let rows = vec![(ArtifactId::from_raw(1), Some(row("validated", 5, "semantic")))];
    let capabilities =
        plan_manifest_publication(&rows, AuthorityGeneration::new(5), &strings(&["semantic"]), false)
            .unwrap();
    assert!(capabilities.is_empty());
}

#[test]
fn base_kinds_give_base_search_with_a_lexical_object() {
    let kinds = strings(&[
        "ir",
        "structural",
        "temporal",
        "relations",
        "entity_observations",
        "explicit_tags",
        "lexical",
    ]);
    assert_eq!(
        capabilities_for_kinds(&kinds, false, true),
        strings(&["lexical", "structured", "base-search"])
    );
    assert_eq!(capabilities_for_kinds(&kinds, true, false), strings(&["semantic", "structured"]));
}

#[test]
fn collection_keeps_roots_and_their_artifacts() {
    let manifests = vec![
        ManifestLinks {
            manifest: ManifestId::from_raw(1),
            artifacts: vec![ArtifactId::from_raw(10), ArtifactId::from_raw(11)],
        },
        ManifestLinks { manifest: ManifestId::from_raw(2), artifacts: vec![ArtifactId::from_raw(11)] },
    ];
    let roots = GcRoots {
        grace: Vec::new(),
        pins: Vec::new(),
        serving: Some(ManifestId::from_raw(2)),
        leased: Vec::new(),
    };
    let report = plan_gc(&manifests, &roots, false);
    assert_eq!(report.deleted_manifests, vec![ManifestId::from_raw(1)]);
    assert_eq!(report.collected_artifacts, vec![ArtifactId::from_raw(10)]);
    let leased = GcRoots { leased: vec![ManifestId::from_raw(1)], ..roots };
    let report = plan_gc(&manifests, &leased, false);
    assert!(report.deleted_manifests.is_empty());
}

#[test]
fn stored_strings_read_back() {
    let values = strings(&["alpha", "", "ünïcode"]);
    let bytes = encode_strings(&values).unwrap();
    assert_eq!(&bytes[..4], &3u32.to_le_bytes());
    assert_eq!(decode_strings(&bytes), Some(values));
    assert_eq!(decode_strings(&bytes[..bytes.len() - 1]), None);
    assert_eq!(decode_strings(&[1, 0, 0, 0, 1, 0, 0, 0, 0xff]), None);
}

#[test]
fn stored_codes_read_back() {
    for normalization in [EmbeddingNormalization::Unnormalized, EmbeddingNormalization::L2] {
        assert_eq!(normalization_from_sql(normalization_to_sql(normalization)), Some(normalization));
    }
    assert_eq!(normalization_from_sql(2), None);
    for provenance in [TagProvenance::Explicit, TagProvenance::Generated] {
        assert_eq!(provenance_from_sql(provenance_to_sql(provenance)), Some(provenance));
    }
    assert_eq!(provenance_from_sql("inferred"), None);
    assert_eq!(generation_from_sql(7), Some(AuthorityGeneration::new(7)));
    assert_eq!(generation_from_sql(-1), None);
}

#[test]
fn lease_expiry_is_checked() {
    assert_eq!(lease_expiry(100, 60).unwrap(), 160);
    assert!(matches!(
        lease_expiry(i64::MAX - 1, 2),
        Err(memoria_derived::DerivedError::LeaseDuration { seconds: 2 })
    ));
    assert!(lease_expiry(0, u64::MAX).is_err());
    let lease = ManifestLease::new(4, ManifestId::from_raw(2), 160);
    assert_eq!(lease.manifest_id(), ManifestId::from_raw(2));
    assert_eq!(lease.expires_at_unix_seconds(), 160);
}

#[test]
fn status_reports_base_coverage_of_the_serving_manifest() {
    let manifest = DerivedManifest::new(
        ManifestId::from_raw(3),
        AuthorityGeneration::new(6),
        vec![ArtifactId::from_raw(1)],
        strings(&["base-search"]),
    );
    let status = DerivedStatus::from_manifest(AuthorityGeneration::new(7), Some(&manifest), None, true);
    assert_eq!(status.base_coverage, AuthorityGeneration::new(6));
    assert_eq!(status.serving_manifest, Some(ManifestId::from_raw(3)));
    let empty = DerivedStatus::from_manifest(AuthorityGeneration::new(7), None, None, false);
    assert_eq!(empty.base_coverage, AuthorityGeneration::initial());
}

#[test]
fn build_jobs_are_keyed_and_retried() {
    assert_eq!(build_job_id("embedding", "input", "p:v1"), "BJ:embedding:input:p:v1");
    assert_eq!(build_job_failure(1, true, 100), (BuildJobState::Queued, 101));
    assert_eq!(build_job_failure(5, true, 100), (BuildJobState::Failed, 700));
    assert_eq!(build_job_failure(2, false, i64::MAX), (BuildJobState::Failed, i64::MAX));
}

#[test]
fn error_messages_name_their_subject() {
    let error = memoria_derived::DerivedError::ArtifactNotFound { id: ArtifactId::from_raw(-12) };
    assert_eq!(error.message(), "artifact A_-12 was not found");
    let error = memoria_derived::DerivedError::ManifestImmutable { id: ManifestId::from_raw(3) };
    assert_eq!(error.message(), "manifest MF_3 is immutable");
    let error = memoria_derived::DerivedError::InvalidArtifactTransition {
        id: ArtifactId::from_raw(7),
        state: ArtifactState::Staged,
    };
    assert_eq!(error.message(), "invalid artifact state transition for A_7: Staged");
    let error = memoria_derived::DerivedError::IntegerConversion;
    assert_eq!(
        error.message(),
        "integer conversion failed: out of range integral type conversion attempted"
    );
    let error = memoria_derived::DerivedError::LeaseDuration { seconds: 90 };
    assert_eq!(error.message(), "lease duration of 90 seconds is out of range");
}

#[test]
fn identity_texts_carry_their_prefix() {
    assert_eq!(ArtifactId::from_raw(7).display_text(), "A_7");
    assert_eq!(ArtifactId::from_raw(-3).display_text(), "A_-3");
    assert_eq!(ManifestId::from_raw(12).display_text(), "MF_12");
}

#[test]
fn registrations_compare_every_field_but_creation_time() {
    let record = VectorPayloadRecord {
        payload_hash: VectorPayloadHash::from_bytes([1; 32]),
        dimension: 3,
        normalization: EmbeddingNormalization::L2,
        producer_signature: "provider:model:v1".to_owned(),
        projection_input_hash: ProjectionInputHash::new(ProjectionKind::Lexical, b"x", "p"),
        object_path: "objects/vector/01/01.vec".to_owned(),
        byte_length: 91,
        checksum: [2; 32],
        created_at: 10,
    };
    let mut later = record.clone();
    later.created_at = 20;
    assert!(record.same_registration(&later));
    let mut moved = record.clone();
    moved.object_path = "elsewhere".to_owned();
    assert!(!record.same_registration(&moved));
    let mut resized = record.clone();
    resized.byte_length = 92;
    assert!(!record.same_registration(&resized));

    let lexical = LexicalArtifactRecord {
        artifact_id: ArtifactId::from_raw(1),
        object_hash: [3; 32],
        object_path: "objects/lexical/03".to_owned(),
        document_count: 2,
    };
    assert!(lexical.same_registration(&[3; 32], "objects/lexical/03", 2));
    assert!(!lexical.same_registration(&[3; 32], "objects/lexical/03", 3));
    assert!(!lexical.same_registration(&[4; 32], "objects/lexical/03", 2));
}

#[test]
fn serving_records_are_visible_in_scope_up_to_their_generation() {
    let record = ServingRecord {
        space_id: SpaceId::from_bytes([1; 16]),
        memory_id: MemoryId::from_bytes([2; 16]),
        revision_id: RevisionId::from_bytes([3; 32]),
        authority_generation: AuthorityGeneration::new(5),
        text: "Rust".to_owned(),
        entity_refs: Vec::new(),
        tags: Vec::new(),
        node_ids: Vec::new(),
        current: true,
        retired: false,
    };
    let scope = [SpaceId::from_bytes([9; 16]), SpaceId::from_bytes([1; 16])];
    assert!(record.visible_at(&scope, AuthorityGeneration::new(5)));
    assert!(record.visible_at(&scope, AuthorityGeneration::new(6)));
    assert!(!record.visible_at(&scope, AuthorityGeneration::new(4)));
    assert!(!record.visible_at(&scope[..1], AuthorityGeneration::new(6)));
}

fn semantic_row(state: &str, generation: i64) -> ArtifactRow {
    ArtifactRow {
        has_vector_membership: true,
        ..row(state, generation, "semantic")
    }
}

#[test]
fn semantic_manifest_publication_happens_after_artifact_validation() {
    let staged = vec![(ArtifactId::from_raw(1), Some(semantic_row("staged", 5)))];
    assert!(plan_manifest_publication(&staged, AuthorityGeneration::new(5), &[], false).is_err());
    let validated = vec![(ArtifactId::from_raw(1), Some(semantic_row("validated", 5)))];
    let capabilities =
        plan_manifest_publication(&validated, AuthorityGeneration::new(5), &[], false).unwrap();
    assert!(capabilities.contains(&"semantic".to_owned()));
}

#[test]
fn rebased_manifest_accepts_older_compatible_semantic_artifact() {
    let rows = vec![
        (ArtifactId::from_raw(1), Some(row("validated", 8, "lexical"))),
        (ArtifactId::from_raw(2), Some(semantic_row("validated", 5))),
    ];
    let capabilities =
        plan_manifest_publication(&rows, AuthorityGeneration::new(8), &[], true).unwrap();
    assert!(capabilities.contains(&"semantic".to_owned()));
    assert!(matches!(
        plan_manifest_publication(&rows, AuthorityGeneration::new(8), &[], false),
        Err(memoria_derived::DerivedError::ArtifactGenerationMismatch { .. })
    ));
}

#[test]
fn active_lease_keeps_old_manifest() {
    let old = ManifestId::from_raw(1);
    let new = ManifestId::from_raw(2);
    let manifests = vec![
        ManifestLinks { manifest: old, artifacts: Vec::new() },
        ManifestLinks { manifest: new, artifacts: Vec::new() },
    ];
    let leased = GcRoots { grace: Vec::new(), pins: Vec::new(), serving: Some(new), leased: vec![old] };
    let report = plan_gc(&manifests, &leased, false);
    assert!(!report.deleted_manifests.contains(&old));
    let released = GcRoots { leased: Vec::new(), ..leased };
    let report = plan_gc(&manifests, &released, false);
    assert!(report.deleted_manifests.contains(&old));
}

#[test]
fn collected_artifact_is_not_reported_as_published() {
    let old = ManifestId::from_raw(1);
    let new = ManifestId::from_raw(2);
    let artifact = ArtifactId::from_raw(10);
    let manifests = vec![
        ManifestLinks { manifest: old, artifacts: vec![artifact] },
        ManifestLinks { manifest: new, artifacts: Vec::new() },
    ];
    let roots = GcRoots { grace: Vec::new(), pins: Vec::new(), serving: Some(new), leased: Vec::new() };
    let report = plan_gc(&manifests, &roots, false);
    assert_eq!(report.collected_artifacts, vec![artifact]);
    assert!(report.deleted_manifests.contains(&old));
    assert_eq!(state_after_collection(ArtifactState::Published), ArtifactState::Collected);
}

#[test]
fn build_job_key_deduplicates_same_projection_and_producer() {
    let first = build_job_id("local-embedding", "input-hash", "provider:model:v1");
    let second = build_job_id("local-embedding", "input-hash", "provider:model:v1");
    assert_eq!(first, second);
    assert_ne!(first, build_job_id("local-embedding", "other-hash", "provider:model:v1"));
}

#[test]
fn superseded_revision_work_is_cancelled_or_marked_superseded() {
    let state = BuildJobState::parse(BuildJobState::Superseded.as_str()).unwrap();
    assert_eq!(state, BuildJobState::Superseded);
}
