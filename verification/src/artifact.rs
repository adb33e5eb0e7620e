use vstd::prelude::*;

use crate::ids::AuthorityGeneration;
use crate::text::str_eq;
use crate::DerivedError;

verus! {

/// The catalog identity of an artifact.
#[derive(Clone, Copy, Debug, PartialEq, Eq, Hash, PartialOrd, Ord, Structural)]
pub struct ArtifactId(pub i64);

impl ArtifactId {
    pub fn from_raw(value: i64) -> (id: Self)
        ensures
            id.0 == value,
    {
        ArtifactId(value)
    }

    pub fn value(self) -> (value: i64)
        ensures
            value == self.0,
    {
        self.0
    }

    /// The identity as text: `A_` and its number in decimal.
    pub fn display_text(self) -> (text: String)
        ensures
            self.0 >= 0 ==> text@ == "A_"@ + crate::text::decimal_spec(self.0 as nat),
            self.0 < 0 ==> text@ == "A_-"@ + crate::text::decimal_spec((-self.0) as nat),
    {
        let mut text = crate::text::owned("A_");
        let number = crate::text::signed_decimal(self.0);
        crate::text::push_str(&mut text, number.as_str());
        proof {
            reveal_strlit("A_");
            reveal_strlit("A_-");
        }
        text
    }
}

/// The lifecycle of an artifact.
#[derive(Clone, Copy, Debug, PartialEq, Eq, Hash, PartialOrd, Ord, Structural)]
pub enum ArtifactState {
    Planned,
    Building,
    Staged,
    Validated,
    Published,
    Failed,
    Superseded,
    Collected,
}

/// The stored name of an artifact state.
pub open spec fn artifact_state_name(state: ArtifactState) -> Seq<char> {
    match state {
        ArtifactState::Planned => "planned"@,
        ArtifactState::Building => "building"@,
        ArtifactState::Staged => "staged"@,
        ArtifactState::Validated => "validated"@,
        ArtifactState::Published => "published"@,
        ArtifactState::Failed => "failed"@,
        ArtifactState::Superseded => "superseded"@,
        ArtifactState::Collected => "collected"@,
    }
}

/// Only validated or already published artifacts may enter a manifest.
pub open spec fn can_publish_spec(state: ArtifactState) -> bool {
    state == ArtifactState::Validated || state == ArtifactState::Published
}

impl ArtifactState {
    pub fn as_str(self) -> (name: &'static str)
        ensures
            name@ == artifact_state_name(self),
    {
        match self {
            ArtifactState::Planned => "planned",
            ArtifactState::Building => "building",
            ArtifactState::Staged => "staged",
            ArtifactState::Validated => "validated",
            ArtifactState::Published => "published",
            ArtifactState::Failed => "failed",
            ArtifactState::Superseded => "superseded",
            ArtifactState::Collected => "collected",
        }
    }

    /// Reads a stored state name.
    pub fn parse(value: &str) -> (result: Result<Self, DerivedError>)
        ensures
            forall|state: ArtifactState|
                artifact_state_name(state) == value@ ==> result == Ok::<
                    ArtifactState,
                    DerivedError,
                >(state),
            (forall|state: ArtifactState| artifact_state_name(state) != value@) ==> (
            result matches Err(DerivedError::InvalidCatalogState { value: v }) && v@ == value@),
    {
        let states = [
            ArtifactState::Planned,
            ArtifactState::Building,
            ArtifactState::Staged,
            ArtifactState::Validated,
            ArtifactState::Published,
            ArtifactState::Failed,
            ArtifactState::Superseded,
            ArtifactState::Collected,
        ];
        let mut i: usize = 0;
        while i < 8
            invariant
                i <= 8,
                states@ == seq![
                    ArtifactState::Planned,
                    ArtifactState::Building,
                    ArtifactState::Staged,
                    ArtifactState::Validated,
                    ArtifactState::Published,
                    ArtifactState::Failed,
                    ArtifactState::Superseded,
                    ArtifactState::Collected,
                ],
                forall|j: int| 0 <= j < i ==> artifact_state_name(#[trigger] states@[j]) != value@,
            decreases 8 - i,
        {
            let state = states[i];
            if str_eq(state.as_str(), value) {
                proof {
                    lemma_artifact_state_names_distinct();
                }
                return Ok(state);
            }
            i = i + 1;
        }
        proof {
            assert forall|state: ArtifactState| artifact_state_name(state) != value@ by {
                match state {
                    ArtifactState::Planned => assert(states@[0] == state),
                    ArtifactState::Building => assert(states@[1] == state),
                    ArtifactState::Staged => assert(states@[2] == state),
                    ArtifactState::Validated => assert(states@[3] == state),
                    ArtifactState::Published => assert(states@[4] == state),
                    ArtifactState::Failed => assert(states@[5] == state),
                    ArtifactState::Superseded => assert(states@[6] == state),
                    ArtifactState::Collected => assert(states@[7] == state),
                }
            }
        }
        Err(DerivedError::InvalidCatalogState { value: crate::text::owned(value) })
    }

    pub fn can_publish(self) -> (publishable: bool)
        ensures
            publishable == can_publish_spec(self),
    {
        match self {
            ArtifactState::Validated | ArtifactState::Published => true,
            _ => false,
        }
    }
}

/// Different states have different stored names.
pub proof fn lemma_artifact_state_names_distinct()
    ensures
        forall|a: ArtifactState, b: ArtifactState|
            artifact_state_name(a) == artifact_state_name(b) ==> a == b,
{
    reveal_strlit("planned");
    reveal_strlit("building");
    reveal_strlit("staged");
    reveal_strlit("validated");
    reveal_strlit("published");
    reveal_strlit("failed");
    reveal_strlit("superseded");
    reveal_strlit("collected");
    assert forall|a: ArtifactState, b: ArtifactState|
        artifact_state_name(a) == artifact_state_name(b) implies a == b by {
        if a != b {
            assert(artifact_state_name(a).len() != artifact_state_name(b).len()
                || artifact_state_name(a)[0] != artifact_state_name(b)[0]
                || artifact_state_name(a)[1] != artifact_state_name(b)[1]);
        }
    }
}

/// A catalog row describing one artifact.
#[derive(Clone, Debug)]
pub struct ArtifactDescriptor {
    id: ArtifactId,
    kind: String,
    version: u32,
    authority_generation: AuthorityGeneration,
    state: ArtifactState,
}

impl ArtifactDescriptor {
    pub fn new(
        id: ArtifactId,
        kind: String,
        version: u32,
        authority_generation: AuthorityGeneration,
        state: ArtifactState,
    ) -> (descriptor: Self)
        ensures
            descriptor.spec_id() == id,
            descriptor.spec_kind() == kind@,
            descriptor.spec_version() == version,
            descriptor.spec_authority_generation() == authority_generation,
            descriptor.spec_state() == state,
    {
        ArtifactDescriptor { id, kind, version, authority_generation, state }
    }

    pub closed spec fn spec_id(&self) -> ArtifactId {
        self.id
    }

    pub closed spec fn spec_kind(&self) -> Seq<char> {
        self.kind@
    }

    pub closed spec fn spec_version(&self) -> u32 {
        self.version
    }

    pub closed spec fn spec_authority_generation(&self) -> AuthorityGeneration {
        self.authority_generation
    }

    pub closed spec fn spec_state(&self) -> ArtifactState {
        self.state
    }

    pub fn id(&self) -> (id: ArtifactId)
        ensures
            id == self.spec_id(),
    {
        self.id
    }

    pub fn kind(&self) -> (kind: &str)
        ensures
            kind@ == self.spec_kind(),
    {
        self.kind.as_str()
    }

    pub fn version(&self) -> (version: u32)
        ensures
            version == self.spec_version(),
    {
        self.version
    }

    pub fn authority_generation(&self) -> (generation: AuthorityGeneration)
        ensures
            generation == self.spec_authority_generation(),
    {
        self.authority_generation
    }

    pub fn state(&self) -> (state: ArtifactState)
        ensures
            state == self.spec_state(),
    {
        self.state
    }

    /// A semantic artifact of the first version, which later manifests can
    /// carry forward.
    pub fn is_compatible_semantic(&self) -> (compatible: bool)
        ensures
            compatible == (self.spec_kind() == "semantic"@ && self.spec_version() == 1),
    {
        crate::text::str_eq(self.kind.as_str(), "semantic") && self.version == 1
    }
}


/// The lifecycle of a queued unit of Derived build work.
#[derive(Clone, Copy, Debug, PartialEq, Eq, Hash, PartialOrd, Ord, Structural)]
pub enum BuildJobState {
    Queued,
    Running,
    Succeeded,
    Failed,
    Superseded,
}

/// The stored name of a build job state.
pub open spec fn build_job_state_name(state: BuildJobState) -> Seq<char> {
    match state {
        BuildJobState::Queued => "queued"@,
        BuildJobState::Running => "running"@,
        BuildJobState::Succeeded => "succeeded"@,
        BuildJobState::Failed => "failed"@,
        BuildJobState::Superseded => "superseded"@,
    }
}

impl BuildJobState {
    pub fn as_str(self) -> (name: &'static str)
        ensures
            name@ == build_job_state_name(self),
    {
        match self {
            BuildJobState::Queued => "queued",
            BuildJobState::Running => "running",
            BuildJobState::Succeeded => "succeeded",
            BuildJobState::Failed => "failed",
            BuildJobState::Superseded => "superseded",
        }
    }

    /// Reads a stored state name.
    pub fn parse(value: &str) -> (result: Result<Self, DerivedError>)
        ensures
            forall|state: BuildJobState|
                build_job_state_name(state) == value@ ==> result == Ok::<
                    BuildJobState,
                    DerivedError,
                >(state),
            (forall|state: BuildJobState| build_job_state_name(state) != value@) ==> (
            result matches Err(DerivedError::InvalidCatalogState { value: v }) && v@ == value@),
    {
        proof {
            lemma_build_job_state_names_distinct();
        }
        let states = [
            BuildJobState::Queued,
            BuildJobState::Running,
            BuildJobState::Succeeded,
            BuildJobState::Failed,
            BuildJobState::Superseded,
        ];
        let mut i: usize = 0;
        while i < 5
            invariant
                i <= 5,
                states@ == seq![
                    BuildJobState::Queued,
                    BuildJobState::Running,
                    BuildJobState::Succeeded,
                    BuildJobState::Failed,
                    BuildJobState::Superseded,
                ],
                forall|j: int| 0 <= j < i ==> build_job_state_name(#[trigger] states@[j]) != value@,
                forall|a: BuildJobState, b: BuildJobState|
                    build_job_state_name(a) == build_job_state_name(b) ==> a == b,
            decreases 5 - i,
        {
            let state = states[i];
            if str_eq(state.as_str(), value) {
                return Ok(state);
            }
            i = i + 1;
        }
        proof {
            assert forall|state: BuildJobState| build_job_state_name(state) != value@ by {
                match state {
                    BuildJobState::Queued => assert(states@[0] == state),
                    BuildJobState::Running => assert(states@[1] == state),
                    BuildJobState::Succeeded => assert(states@[2] == state),
                    BuildJobState::Failed => assert(states@[3] == state),
                    BuildJobState::Superseded => assert(states@[4] == state),
                }
            }
        }
        Err(DerivedError::InvalidCatalogState { value: crate::text::owned(value) })
    }
}

/// Different build job states have different stored names.
pub proof fn lemma_build_job_state_names_distinct()
    ensures
        forall|a: BuildJobState, b: BuildJobState|
            build_job_state_name(a) == build_job_state_name(b) ==> a == b,
{
    reveal_strlit("queued");
    reveal_strlit("running");
    reveal_strlit("succeeded");
    reveal_strlit("failed");
    reveal_strlit("superseded");
    assert forall|a: BuildJobState, b: BuildJobState|
        build_job_state_name(a) == build_job_state_name(b) implies a == b by {
        if a != b {
            assert(build_job_state_name(a).len() != build_job_state_name(b).len()
                || build_job_state_name(a)[0] != build_job_state_name(b)[0]);
        }
    }
}

/// A durable unit of Derived build work, keyed by kind, input and producer.
#[derive(Clone, Debug)]
pub struct BuildJob {
    pub job_id: String,
    pub kind: String,
    pub input_hash: String,
    pub producer_signature: String,
    pub authority_generation: AuthorityGeneration,
    pub state: BuildJobState,
    pub attempt_count: u32,
    pub next_attempt_at: i64,
    pub last_error_code: Option<String>,
    pub last_error_message: Option<String>,
    pub created_at: i64,
    pub updated_at: i64,
}

/// The deduplication key of a build job.
pub open spec fn build_job_id_spec(kind: Seq<char>, input_hash: Seq<char>, producer_signature: Seq<char>) -> Seq<char> {
    "BJ:"@ + kind + ":"@ + input_hash + ":"@ + producer_signature
}

/// The deduplication key of a build job: one job per kind, input hash and
/// producer signature.
pub fn build_job_id(kind: &str, input_hash: &str, producer_signature: &str) -> (job_id: String)
    ensures
        job_id@ == build_job_id_spec(kind@, input_hash@, producer_signature@),
{
    let mut job_id = crate::text::owned("BJ:");
    crate::text::push_str(&mut job_id, kind);
    crate::text::push_str(&mut job_id, ":");
    crate::text::push_str(&mut job_id, input_hash);
    crate::text::push_str(&mut job_id, ":");
    crate::text::push_str(&mut job_id, producer_signature);
    job_id
}

/// The number of attempts after which a failing job stops being retried.
pub const BUILD_JOB_MAX_ATTEMPTS: u32 = 5;

/// The retry delay, in seconds, after a failure on the given attempt.
pub open spec fn retry_delay_spec(attempt: u32, retryable: bool) -> i64 {
    if !retryable {
        0
    } else if attempt <= 1 {
        1
    } else if attempt == 2 {
        5
    } else if attempt == 3 {
        30
    } else if attempt == 4 {
        120
    } else {
        600
    }
}

/// `now + delay`, clamped at the largest timestamp.
pub open spec fn saturating_add_spec(now: i64, delay: i64) -> i64 {
    if now + delay > i64::MAX {
        i64::MAX
    } else if now + delay < i64::MIN {
        i64::MIN
    } else {
        (now + delay) as i64
    }
}

/// What a failure does to a build job: when it is retried, and whether it
/// goes back to the queue or fails for good.
pub fn build_job_failure(attempt: u32, retryable: bool, now: i64) -> (outcome: (BuildJobState, i64))
    ensures
        outcome.1 == saturating_add_spec(now, retry_delay_spec(attempt, retryable)),
        outcome.0 == if retryable && attempt < 5 {
            BuildJobState::Queued
        } else {
            BuildJobState::Failed
        },
{
    let delay: i64 = if !retryable {
        0
    } else {
        match attempt {
            0 | 1 => 1,
            2 => 5,
            3 => 30,
            4 => 120,
            _ => 600,
        }
    };
    let next_attempt_at = if now > i64::MAX - delay {
        i64::MAX
    } else {
        now + delay
    };
    let state = if retryable && attempt < BUILD_JOB_MAX_ATTEMPTS {
        BuildJobState::Queued
    } else {
        BuildJobState::Failed
    };
    (state, next_attempt_at)
}

} // verus!
