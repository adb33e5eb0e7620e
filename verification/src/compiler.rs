use vstd::prelude::*;

use crate::artifact::ArtifactId;
use crate::dependency::{
    plan_for, projection_input_hash_spec, InvalidationPlan, ProjectionInputHash, ProjectionKind,
    SemanticDiff,
};
use crate::ids::{AuthorityGeneration, MemoryId, RevisionId, SpaceId};
use crate::enrichment::EnrichmentProjection;
use crate::manifest::DerivedManifest;
use crate::text::push_str;

verus! {

/// The artifact kinds every base build stages, in staging order.
pub const BASE_ARTIFACT_KINDS: [&'static str; 7] = [
    "ir",
    "structural",
    "temporal",
    "relations",
    "entity_observations",
    "explicit_tags",
    "lexical",
];

/// What an embedding build was started for.
#[derive(Clone, Copy, Debug)]
pub struct EmbeddingBuildIdentity {
    pub authority_generation: AuthorityGeneration,
    pub memory_id: MemoryId,
    pub revision_id: RevisionId,
    pub space_id: SpaceId,
    pub projection_input_hash: ProjectionInputHash,
}

/// The latest authority state of the Memory an embedding was built for.
#[derive(Clone, Copy, Debug)]
pub struct LatestMemoryState {
    pub authority_generation: AuthorityGeneration,
    pub memory_id: MemoryId,
    pub revision_id: RevisionId,
    pub space_id: SpaceId,
    pub projection_input_hash: ProjectionInputHash,
}

/// Where a finished embedding may be published, if anywhere.
#[derive(Clone, Copy, Debug)]
pub enum SemanticPublicationDecision {
    PublishAt {
        authority_generation: AuthorityGeneration,
        memory_id: MemoryId,
        revision_id: RevisionId,
    },
    Superseded,
}

/// A finished embedding is published at the latest state of its Memory
/// when that Memory still projects the same input; otherwise it is
/// superseded.
pub fn semantic_publication_target(original: &EmbeddingBuildIdentity, latest: &LatestMemoryState) -> (decision:
    SemanticPublicationDecision)
    ensures
        original.memory_id@ != latest.memory_id@ || original.projection_input_hash@
            != latest.projection_input_hash@ ==> decision is Superseded,
        original.memory_id@ == latest.memory_id@ && original.projection_input_hash@
            == latest.projection_input_hash@ ==> decision == (SemanticPublicationDecision::PublishAt {
            authority_generation: latest.authority_generation,
            memory_id: latest.memory_id,
            revision_id: latest.revision_id,
        }),
{
    if !(original.memory_id == latest.memory_id) || !(original.projection_input_hash
        == latest.projection_input_hash) {
        return SemanticPublicationDecision::Superseded;
    }
    SemanticPublicationDecision::PublishAt {
        authority_generation: latest.authority_generation,
        memory_id: latest.memory_id,
        revision_id: latest.revision_id,
    }
}

/// A semantic artifact that a base build may carry into its manifest: its
/// id, whether it is a compatible semantic artifact, and the revisions its
/// vector memberships point at.
#[derive(Clone, Debug)]
pub struct CarriedSemanticCandidate {
    pub artifact_id: ArtifactId,
    pub compatible: bool,
    pub targets: Vec<(SpaceId, MemoryId, RevisionId)>,
}

/// The view of a revision target.
pub open spec fn target_view(target: (SpaceId, MemoryId, RevisionId)) -> (Seq<u8>, Seq<u8>, Seq<u8>) {
    (target.0@, target.1@, target.2@)
}

/// Whether some target of `targets` is among `current`.
pub open spec fn points_at_current(
    targets: Seq<(SpaceId, MemoryId, RevisionId)>,
    current: Seq<(SpaceId, MemoryId, RevisionId)>,
) -> bool {
    exists|i: int, j: int|
        0 <= i < targets.len() && 0 <= j < current.len() && target_view(#[trigger] targets[i])
            == target_view(#[trigger] current[j])
}

/// The candidates that are kept: compatible ones with a membership at a
/// current revision, in order.
pub open spec fn carried_ids(
    candidates: Seq<CarriedSemanticCandidate>,
    current: Seq<(SpaceId, MemoryId, RevisionId)>,
) -> Seq<ArtifactId>
    decreases candidates.len(),
{
    if candidates.len() == 0 {
        seq![]
    } else {
        let last = candidates.last();
        let earlier = carried_ids(candidates.drop_last(), current);
        if last.compatible && points_at_current(last.targets@, current) {
            earlier.push(last.artifact_id)
        } else {
            earlier
        }
    }
}

fn same_target(a: &(SpaceId, MemoryId, RevisionId), b: &(SpaceId, MemoryId, RevisionId)) -> (same:
    bool)
    ensures
        same == (target_view(*a) == target_view(*b)),
{
    a.0 == b.0 && a.1 == b.1 && a.2 == b.2
}

fn points_at(
    targets: &[(SpaceId, MemoryId, RevisionId)],
    current: &[(SpaceId, MemoryId, RevisionId)],
) -> (found: bool)
    ensures
        found == points_at_current(targets@, current@),
{
    let mut i: usize = 0;
    while i < targets.len()
        invariant
            i <= targets@.len(),
            forall|a: int, b: int|
                0 <= a < i && 0 <= b < current@.len() ==> target_view(#[trigger] targets@[a])
                    != target_view(#[trigger] current@[b]),
        decreases targets@.len() - i,
    {
        let mut j: usize = 0;
        while j < current.len()
            invariant
                i < targets@.len(),
                j <= current@.len(),
                forall|a: int, b: int|
                    0 <= a < i && 0 <= b < current@.len() ==> target_view(#[trigger] targets@[a])
                        != target_view(#[trigger] current@[b]),
                forall|b: int|
                    0 <= b < j ==> target_view(targets@[i as int]) != target_view(
                        #[trigger] current@[b],
                    ),
            decreases current@.len() - j,
        {
            if same_target(&targets[i], &current[j]) {
                return true;
            }
            j = j + 1;
        }
        i = i + 1;
    }
    false
}

/// The semantic artifacts a base build carries into its manifest: the
/// compatible ones that still have a membership at a current revision.
pub fn select_carried_semantic_artifacts(
    candidates: &[CarriedSemanticCandidate],
    current: &[(SpaceId, MemoryId, RevisionId)],
) -> (carried: Vec<ArtifactId>)
    ensures
        carried@ == carried_ids(candidates@, current@),
{
    let mut carried: Vec<ArtifactId> = Vec::new();
    let mut i: usize = 0;
    while i < candidates.len()
        invariant
            i <= candidates@.len(),
            carried@ == carried_ids(candidates@.take(i as int), current@),
        decreases candidates@.len() - i,
    {
        let candidate = &candidates[i];
        assert(candidates@.take(i + 1).drop_last() =~= candidates@.take(i as int));
        assert(candidates@.take(i + 1).last() == *candidate);
        if candidate.compatible && points_at(candidate.targets.as_slice(), current) {
            carried.push(candidate.artifact_id);
        }
        i = i + 1;
    }
    assert(candidates@.take(candidates@.len() as int) =~= candidates@);
    carried
}

/// A base build publishes a rebased manifest exactly when it carries
/// semantic artifacts beyond the base kinds.
pub fn publishes_rebased(artifact_count: usize) -> (rebased: bool)
    ensures
        rebased == (artifact_count != 7),
{
    artifact_count != BASE_ARTIFACT_KINDS.len()
}

/// What a base build reports.
#[derive(Clone, Debug)]
pub struct BaseReadyReport {
    pub provider_work_items: usize,
    pub coverage: AuthorityGeneration,
    pub manifest: DerivedManifest,
    pub enrichment_projections: Vec<EnrichmentProjection>,
}

impl BaseReadyReport {
    pub fn new(
        provider_work_items: usize,
        coverage: AuthorityGeneration,
        manifest: DerivedManifest,
        enrichment_projections: Vec<EnrichmentProjection>,
    ) -> (report: Self)
        ensures
            report.provider_work_items == provider_work_items,
            report.coverage == coverage,
            report.manifest == manifest,
            report.enrichment_projections@ == enrichment_projections@,
    {
        BaseReadyReport { provider_work_items, coverage, manifest, enrichment_projections }
    }

    /// The projections that the build hands to a tag generator.
    pub fn enrichment_projections(&self) -> (projections: &[EnrichmentProjection])
        ensures
            projections@ == self.enrichment_projections@,
    {
        self.enrichment_projections.as_slice()
    }

    pub fn provider_work_items(&self) -> (count: usize)
        ensures
            count == self.provider_work_items,
    {
        self.provider_work_items
    }

    pub fn coverage(&self) -> (coverage: AuthorityGeneration)
        ensures
            coverage == self.coverage,
    {
        self.coverage
    }

    pub fn manifest(&self) -> (manifest: &DerivedManifest)
        ensures
            *manifest == self.manifest,
    {
        &self.manifest
    }
}

/// The compiler of Derived projections for one producer.
#[derive(Clone, Debug)]
pub struct DerivedCompiler {
    producer_signature: String,
}

impl View for DerivedCompiler {
    type V = Seq<char>;

    closed spec fn view(&self) -> Seq<char> {
        self.producer_signature@
    }
}

impl Default for DerivedCompiler {
    fn default() -> (compiler: Self)
        ensures
            compiler@ == "memoria-derived-v1"@,
    {
        DerivedCompiler::new("memoria-derived-v1")
    }
}

impl DerivedCompiler {
    pub fn new(producer_signature: &str) -> (compiler: Self)
        ensures
            compiler@ == producer_signature@,
    {
        DerivedCompiler { producer_signature: crate::text::owned(producer_signature) }
    }

    /// The projections a semantic change invalidates.
    pub fn plan(&self, diff: &SemanticDiff) -> (plan: InvalidationPlan)
        ensures
            plan@ == plan_for(diff@),
    {
        InvalidationPlan::from_diff(diff)
    }

    /// The input hash of canonical projection bytes under this producer.
    pub fn input_hash(&self, kind: ProjectionKind, canonical_projection_bytes: &[u8]) -> (hash:
        ProjectionInputHash)
        ensures
            hash@ == projection_input_hash_spec(kind, canonical_projection_bytes@, self@),
    {
        ProjectionInputHash::new(kind, canonical_projection_bytes, self.producer_signature.as_str())
    }

    pub fn producer_signature(&self) -> (signature: &str)
        ensures
            signature@ == self@,
    {
        self.producer_signature.as_str()
    }

    /// The producer signature of the generated tags this compiler plans.
    pub fn enrichment_signature(&self) -> (signature: String)
        ensures
            signature@ == self@ + ":generated-tags-v1"@,
    {
        let mut signature = crate::text::owned(self.producer_signature.as_str());
        push_str(&mut signature, ":generated-tags-v1");
        signature
    }
}

} // verus!
