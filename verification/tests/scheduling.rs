use memoria_derived::compiler::{
    publishes_rebased, select_carried_semantic_artifacts, CarriedSemanticCandidate,
};
use memoria_derived::scheduler::capability_reached;
use memoria_derived::{
    ArtifactId, AuthorityGeneration, DerivedCompiler, DerivedError, DerivedManifest, ManifestId,
    MemoryId, ProjectionKind, RevisionId, SchedulerState, SpaceId,
};

fn target(seed: u8) -> (SpaceId, MemoryId, RevisionId) {
    (
        SpaceId::from_bytes([seed; 16]),
        MemoryId::from_bytes([seed; 16]),
        RevisionId::from_bytes([seed; 32]),
    )
}

#[test]
fn newer_generation_coalesces_queued_work() {
    let mut state = SchedulerState::new(AuthorityGeneration::new(1));
    assert_eq!(state.enqueue(AuthorityGeneration::new(2), Vec::new()).unwrap(), true);
    assert_eq!(state.enqueue(AuthorityGeneration::new(3), Vec::new()).unwrap(), true);
    assert_eq!(state.queued.as_ref().unwrap().generation, AuthorityGeneration::new(3));
    assert_eq!(state.enqueue(AuthorityGeneration::new(2), Vec::new()).unwrap(), false);
    assert_eq!(state.authority_generation, AuthorityGeneration::new(3));
    let request = state.start_build().unwrap();
    assert_eq!(request.generation, AuthorityGeneration::new(3));
    assert!(state.building);
    assert!(state.worker_waits());
    state.finish_build(Some("failed".to_owned()));
    assert!(!state.building);
    assert_eq!(state.last_error.as_deref(), Some("failed"));
    state.stop();
    assert!(matches!(
        state.enqueue(AuthorityGeneration::new(9), Vec::new()),
        Err(DerivedError::SchedulerStopped)
    ));
}

#[test]
fn paused_scheduler_waits() {
    let mut state = SchedulerState::new(AuthorityGeneration::new(1));
    state.enqueue(AuthorityGeneration::new(1), Vec::new()).unwrap();
    assert!(!state.worker_waits());
    state.pause();
    assert!(state.worker_waits());
    state.resume();
    assert!(!state.worker_waits());
}

#[test]
fn capability_wait_needs_readiness_and_coverage() {
    let manifest = DerivedManifest::new(
        ManifestId::from_raw(1),
        AuthorityGeneration::new(4),
        Vec::new(),
        vec!["lexical".to_owned()],
    );
    assert!(capability_reached(&manifest, "lexical", AuthorityGeneration::new(4)));
    assert!(!capability_reached(&manifest, "lexical", AuthorityGeneration::new(5)));
    assert!(!capability_reached(&manifest, "semantic", AuthorityGeneration::new(1)));
}

#[test]
fn carried_semantic_artifacts_need_a_current_membership() {
    let candidates = vec![
        CarriedSemanticCandidate {
            artifact_id: ArtifactId::from_raw(1),
            compatible: true,
            targets: vec![target(1)],
        },
        CarriedSemanticCandidate {
            artifact_id: ArtifactId::from_raw(2),
            compatible: true,
            targets: vec![target(5)],
        },
        CarriedSemanticCandidate {
            artifact_id: ArtifactId::from_raw(3),
            compatible: false,
            targets: vec![target(1)],
        },
    ];
    let carried = select_carried_semantic_artifacts(&candidates, &[target(1), target(2)]);
    assert_eq!(carried, vec![ArtifactId::from_raw(1)]);
    assert!(!publishes_rebased(7));
    assert!(publishes_rebased(8));
}

#[test]
fn compiler_signatures() {
    let compiler = DerivedCompiler::default();
    assert_eq!(compiler.producer_signature(), "memoria-derived-v1");
    assert_eq!(compiler.enrichment_signature(), "memoria-derived-v1:generated-tags-v1");
    let first = compiler.input_hash(ProjectionKind::Lexical, b"bytes");
    let second = DerivedCompiler::new("other").input_hash(ProjectionKind::Lexical, b"bytes");
    assert_ne!(first, second);
}

#[test]
fn authority_commit_is_visible_before_derived_catches_up() {
    let mut state = SchedulerState::new(AuthorityGeneration::initial());
    state.pause();
    let generation = AuthorityGeneration::new(1);
    state.enqueue(generation, Vec::new()).unwrap();
    let status = state.status(None);
    assert_eq!(status.authority_generation, generation);
    assert!(status.base_coverage < generation);

    state.resume();
    let manifest = DerivedManifest::new(
        ManifestId::from_raw(1),
        generation,
        Vec::new(),
        vec!["base-search".to_owned()],
    );
    assert!(capability_reached(&manifest, "base-search", generation));
    assert_eq!(manifest.authority_generation(), generation);
    assert!(state.status(Some(&manifest)).base_coverage >= generation);
}
