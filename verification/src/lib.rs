use vstd::prelude::*;

pub mod digest;
pub mod encode;
pub mod text;
pub mod seqs;
pub mod ids;
pub mod dependency;
pub mod artifact;
pub mod manifest;
pub mod catalog;
pub mod gc;
pub mod tag_dictionary;
pub mod embedding;
pub mod projection;
pub mod vector;
pub mod membership;
pub mod ann;
pub mod ir;
pub mod lease;
pub mod status;
pub mod compiler;
pub mod records;
pub mod enrichment;
pub mod scheduler;
pub mod lexical_artifact;
pub mod tag_graph;

pub use ann::{should_schedule_ann_compaction, AnnSegmentEntry, AnnSegmentV1};
pub use artifact::{ArtifactDescriptor, ArtifactId, ArtifactState, BuildJob, BuildJobState};
pub use catalog::{capabilities_for_kinds, plan_manifest_publication, ArtifactRow};
pub use compiler::{
    semantic_publication_target, BaseReadyReport, DerivedCompiler, EmbeddingBuildIdentity,
    LatestMemoryState, SemanticPublicationDecision, BASE_ARTIFACT_KINDS,
};
pub use dependency::{
    InvalidationCategory, InvalidationPlan, ProjectionInputHash, ProjectionKind, SemanticDiff,
};
pub use embedding::{
    default_content_signature, validate_embedding_result, EmbeddingCacheKey,
    EmbeddingNormalization, EmbeddingPayloadCache, EmbeddingResult, EmbeddingResultItem,
    EmbeddingSignature, EmbeddingVector, EmbeddingWork, EmbeddingWorkItem,
};
pub use enrichment::{
    EnrichmentProjection, GeneratedTagArtifact, GeneratedTagCandidate, GeneratedTagRecord,
};
pub use gc::GcReport;
pub use ids::{AuthorityGeneration, MemoryId, RevisionId, SpaceId};
pub use ir::{IrNode, MemoryIr, SemanticKind, SemanticNodeId, Span, TemporalValue};
pub use lease::ManifestLease;
pub use lexical_artifact::{LexicalArtifactHash, LexicalArtifactV1};
pub use manifest::{CapabilityStatus, DerivedManifest, ManifestId};
pub use membership::{VectorArtifact, VectorFilter, VectorMembership, VectorMembershipTable};
pub use projection::embedding_view::{
    ContextEmbeddingProjectionV1, LocalEmbeddingProjectionV1, QueryEmbeddingProjectionV1,
};
pub use projection::entities::{EntityObservationBuilder, EntityRef};
pub use projection::lexical::{lexical_projection_hash, LexicalDocument};
pub use projection::relations::RelationBuilder;
pub use projection::rerank_view::RerankViewV1;
pub use projection::serving::ServingRecord;
pub use projection::structural::StructuralBuilder;
pub use projection::tags::{ExplicitTagBuilder, TagProvenance};
pub use projection::temporal::TemporalBuilder;
pub use projection::{ProjectionTarget, PROJECTION_SCHEMA_VERSION};
pub use records::{AnnSegmentRecord, LexicalArtifactRecord, VectorPayloadRecord};
pub use scheduler::SchedulerState;
pub use status::DerivedStatus;
pub use tag_dictionary::{normalize_tag, TagDictionary, TagId};
pub use tag_graph::{
    TagAssociationEvidence, TagGraph, TagMembershipEvidence, TagMembershipInput, TagSpaceGraph,
};
pub use vector::{VectorPayloadHash, VectorPayloadV1};

verus! {

/// Every failure that Derived state management reports.
#[allow(inconsistent_fields)]
#[derive(Debug)]
pub enum DerivedError {
    Io { message: String },
    Sql { message: String },
    Search { message: String },
    ArtifactNotValidated { id: ArtifactId, state: ArtifactState },
    ArtifactNotFound { id: ArtifactId },
    ArtifactGenerationMismatch {
        id: ArtifactId,
        expected: AuthorityGeneration,
        actual: AuthorityGeneration,
    },
    ManifestImmutable { id: ManifestId },
    ManifestNotFound { id: ManifestId },
    InvalidCatalogState { value: String },
    InvalidArtifactTransition { id: ArtifactId, state: ArtifactState },
    InvalidGeneration { value: i64 },
    IntegerConversion,
    InvalidProjectionValue { value: String },
    InvalidNodeId { value: String },
    LeaseDuration { seconds: u64 },
    CapabilityTimeout { capability: String, generation: AuthorityGeneration },
    SchedulerStopped,
    SchedulerPoisoned,
    VectorIndex { value: String },
}

/// An `InvalidProjectionValue` error carrying `message`.
pub open spec fn invalid_value(error: DerivedError, message: Seq<char>) -> bool {
    error matches DerivedError::InvalidProjectionValue { value } && value@ == message
}

pub(crate) fn invalid(message: &str) -> (error: DerivedError)
    ensures
        invalid_value(error, message@),
{
    DerivedError::InvalidProjectionValue { value: crate::text::owned(message) }
}

/// The generation as a signed SQLite integer, when it fits.
pub fn generation_to_sql(generation: AuthorityGeneration) -> (result: Result<i64, DerivedError>)
    ensures
        generation.spec_value() <= i64::MAX ==> result == Ok::<i64, DerivedError>(
            generation.spec_value() as i64,
        ),
        generation.spec_value() > i64::MAX ==> result matches Err(DerivedError::IntegerConversion),
{
    let value = generation.value();
    if value <= 9223372036854775807u64 {
        Ok(value as i64)
    } else {
        Err(DerivedError::IntegerConversion)
    }
}

/// How an artifact state is written in messages.
pub open spec fn state_label(state: ArtifactState) -> Seq<char> {
    match state {
        ArtifactState::Planned => "Planned"@,
        ArtifactState::Building => "Building"@,
        ArtifactState::Staged => "Staged"@,
        ArtifactState::Validated => "Validated"@,
        ArtifactState::Published => "Published"@,
        ArtifactState::Failed => "Failed"@,
        ArtifactState::Superseded => "Superseded"@,
        ArtifactState::Collected => "Collected"@,
    }
}

fn state_label_exec(state: ArtifactState) -> (label: &'static str)
    ensures
        label@ == state_label(state),
{
    match state {
        ArtifactState::Planned => "Planned",
        ArtifactState::Building => "Building",
        ArtifactState::Staged => "Staged",
        ArtifactState::Validated => "Validated",
        ArtifactState::Published => "Published",
        ArtifactState::Failed => "Failed",
        ArtifactState::Superseded => "Superseded",
        ArtifactState::Collected => "Collected",
    }
}

/// A signed number as messages write it.
pub open spec fn signed_text(n: i64) -> Seq<char> {
    if n >= 0 {
        crate::text::decimal_spec(n as nat)
    } else {
        seq!['-'] + crate::text::decimal_spec((-n) as nat)
    }
}

/// The text an error is reported with.
pub open spec fn error_message(error: DerivedError) -> Seq<char> {
    match error {
        DerivedError::Io { message } => "derived catalog I/O error: "@ + message@,
        DerivedError::Sql { message } => "derived catalog SQLite error: "@ + message@,
        DerivedError::Search { message } => "lexical search error: "@ + message@,
        DerivedError::ArtifactNotValidated { id, state } => "artifact A_"@ + signed_text(id.0)
            + " is not validated (state: "@ + state_label(state) + ")"@,
        DerivedError::ArtifactNotFound { id } => "artifact A_"@ + signed_text(id.0) + " was not found"@,
        DerivedError::ArtifactGenerationMismatch { id, expected, actual } => "artifact A_"@
            + signed_text(id.0) + " has generation "@ + crate::text::decimal_spec(actual.0 as nat)
            + ", expected "@ + crate::text::decimal_spec(expected.0 as nat),
        DerivedError::ManifestImmutable { id } => "manifest MF_"@ + signed_text(id.0) + " is immutable"@,
        DerivedError::ManifestNotFound { id } => "manifest MF_"@ + signed_text(id.0) + " was not found"@,
        DerivedError::InvalidCatalogState { value } => "invalid artifact state in catalog: "@
            + value@,
        DerivedError::InvalidArtifactTransition { id, state } => "invalid artifact state transition for A_"@
            + signed_text(id.0) + ": "@ + state_label(state),
        DerivedError::InvalidGeneration { value } =>
            "authority generation cannot be represented as SQLite integer: "@ + signed_text(value),
        DerivedError::IntegerConversion => "integer conversion failed: out of range integral type conversion attempted"@,
        DerivedError::InvalidProjectionValue { value } => "invalid projection value: "@ + value@,
        DerivedError::InvalidNodeId { value } => "invalid semantic node id: "@ + value@,
        DerivedError::LeaseDuration { seconds } => "lease duration of "@ + crate::text::decimal_spec(
            seconds as nat,
        ) + " seconds is out of range"@,
        DerivedError::CapabilityTimeout { capability, generation } =>
            "timed out waiting for capability "@ + capability@ + " at generation "@
                + crate::text::decimal_spec(generation.0 as nat),
        DerivedError::SchedulerStopped => "derived scheduler has stopped"@,
        DerivedError::SchedulerPoisoned => "derived scheduler state is poisoned"@,
        DerivedError::VectorIndex { value } => "vector index error: "@ + value@,
    }
}

fn joined2(first: &str, second: &str) -> (text: String)
    ensures
        text@ == first@ + second@,
{
    let mut text = crate::text::owned(first);
    crate::text::push_str(&mut text, second);
    text
}

fn joined3(first: &str, second: &str, third: &str) -> (text: String)
    ensures
        text@ == first@ + second@ + third@,
{
    let mut text = crate::text::owned(first);
    crate::text::push_str(&mut text, second);
    crate::text::push_str(&mut text, third);
    text
}

impl DerivedError {
    /// The text this error is reported with.
    pub fn message(&self) -> (text: String)
        ensures
            text@ == error_message(*self),
    {
        match self {
            DerivedError::Io { message } => joined2("derived catalog I/O error: ", message.as_str()),
            DerivedError::Sql { message } => joined2("derived catalog SQLite error: ", message.as_str()),
            DerivedError::Search { message } => joined2("lexical search error: ", message.as_str()),
            DerivedError::ArtifactNotValidated { id, state } => {
                let number = crate::text::signed_decimal(id.0);
                let mut text = joined3("artifact A_", number.as_str(), " is not validated (state: ");
                crate::text::push_str(&mut text, state_label_exec(*state));
                crate::text::push_str(&mut text, ")");
                text
            },
            DerivedError::ArtifactNotFound { id } => {
                let number = crate::text::signed_decimal(id.0);
                joined3("artifact A_", number.as_str(), " was not found")
            },
            DerivedError::ArtifactGenerationMismatch { id, expected, actual } => {
                let number = crate::text::signed_decimal(id.0);
                let mut text = joined3("artifact A_", number.as_str(), " has generation ");
                let found = crate::text::decimal(actual.0);
                crate::text::push_str(&mut text, found.as_str());
                crate::text::push_str(&mut text, ", expected ");
                let wanted = crate::text::decimal(expected.0);
                crate::text::push_str(&mut text, wanted.as_str());
                text
            },
            DerivedError::ManifestImmutable { id } => {
                let number = crate::text::signed_decimal(id.0);
                joined3("manifest MF_", number.as_str(), " is immutable")
            },
            DerivedError::ManifestNotFound { id } => {
                let number = crate::text::signed_decimal(id.0);
                joined3("manifest MF_", number.as_str(), " was not found")
            },
            DerivedError::InvalidCatalogState { value } => joined2("invalid artifact state in catalog: ", value.as_str()),
            DerivedError::InvalidArtifactTransition { id, state } => {
                let number = crate::text::signed_decimal(id.0);
                let mut text = joined3("invalid artifact state transition for A_", number.as_str(), ": ");
                crate::text::push_str(&mut text, state_label_exec(*state));
                text
            },
            DerivedError::InvalidGeneration { value } => {
                let number = crate::text::signed_decimal(*value);
                joined2("authority generation cannot be represented as SQLite integer: ", number.as_str())
            },
            DerivedError::IntegerConversion => crate::text::owned("integer conversion failed: out of range integral type conversion attempted"),
            DerivedError::InvalidProjectionValue { value } => joined2("invalid projection value: ", value.as_str()),
            DerivedError::InvalidNodeId { value } => joined2("invalid semantic node id: ", value.as_str()),
            DerivedError::LeaseDuration { seconds } => {
                let number = crate::text::decimal(*seconds);
                joined3("lease duration of ", number.as_str(), " seconds is out of range")
            },
            DerivedError::CapabilityTimeout { capability, generation } => {
                let mut text = joined3(
                    "timed out waiting for capability ",
                    capability.as_str(),
                    " at generation ",
                );
                let number = crate::text::decimal(generation.0);
                crate::text::push_str(&mut text, number.as_str());
                text
            },
            DerivedError::SchedulerStopped => crate::text::owned("derived scheduler has stopped"),
            DerivedError::SchedulerPoisoned => crate::text::owned("derived scheduler state is poisoned"),
            DerivedError::VectorIndex { value } => joined2("vector index error: ", value.as_str()),
        }
    }
}

} // verus!
