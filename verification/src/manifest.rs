use vstd::prelude::*;

use crate::artifact::ArtifactId;
use crate::ids::AuthorityGeneration;
use crate::text::str_eq;

verus! {

/// Whether a manifest serves a capability, and the generation it covers.
#[derive(Clone, Copy, Debug, PartialEq, Eq, Structural)]
pub struct CapabilityStatus {
    ready: bool,
    coverage: AuthorityGeneration,
}

impl CapabilityStatus {
    pub fn new(ready: bool, coverage: AuthorityGeneration) -> (status: Self)
        ensures
            status.spec_ready() == ready,
            status.spec_coverage() == coverage,
    {
        CapabilityStatus { ready, coverage }
    }

    pub closed spec fn spec_ready(self) -> bool {
        self.ready
    }

    pub closed spec fn spec_coverage(self) -> AuthorityGeneration {
        self.coverage
    }

    pub fn is_ready(self) -> (ready: bool)
        ensures
            ready == self.spec_ready(),
    {
        self.ready
    }

    pub fn coverage(self) -> (coverage: AuthorityGeneration)
        ensures
            coverage == self.spec_coverage(),
    {
        self.coverage
    }

    /// The generation that queries can rely on: the coverage when ready,
    /// the initial generation otherwise.
    pub fn serving_coverage(self) -> (coverage: AuthorityGeneration)
        ensures
            coverage == if self.spec_ready() {
                self.spec_coverage()
            } else {
                AuthorityGeneration(0)
            },
    {
        if self.ready {
            self.coverage
        } else {
            AuthorityGeneration::initial()
        }
    }
}

/// The catalog identity of a manifest.
#[derive(Clone, Copy, Debug, PartialEq, Eq, Hash, PartialOrd, Ord, Structural)]
pub struct ManifestId(pub i64);

impl ManifestId {
    pub fn from_raw(value: i64) -> (id: Self)
        ensures
            id.0 == value,
    {
        ManifestId(value)
    }

    pub fn value(self) -> (value: i64)
        ensures
            value == self.0,
    {
        self.0
    }

    /// The identity as text: `MF_` and its number in decimal.
    pub fn display_text(self) -> (text: String)
        ensures
            self.0 >= 0 ==> text@ == "MF_"@ + crate::text::decimal_spec(self.0 as nat),
            self.0 < 0 ==> text@ == "MF_-"@ + crate::text::decimal_spec((-self.0) as nat),
    {
        let mut text = crate::text::owned("MF_");
        let number = crate::text::signed_decimal(self.0);
        crate::text::push_str(&mut text, number.as_str());
        proof {
            reveal_strlit("MF_");
            reveal_strlit("MF_-");
        }
        text
    }
}

/// An immutable set of artifacts that queries can be served from.
#[derive(Clone, Debug)]
pub struct DerivedManifest {
    id: ManifestId,
    authority_generation: AuthorityGeneration,
    artifacts: Vec<ArtifactId>,
    capabilities: Vec<String>,
}

/// `capabilities` lists `name`.
pub open spec fn lists_capability(capabilities: Seq<String>, name: Seq<char>) -> bool {
    exists|i: int| 0 <= i < capabilities.len() && #[trigger] capabilities[i]@ == name
}

impl DerivedManifest {
    /// The manifest of an empty Derived state for lexical-only queries.
    pub fn empty_for_lexical_query(authority_generation: AuthorityGeneration) -> (manifest: Self)
        ensures
            manifest.spec_id() == ManifestId(0),
            manifest.spec_authority_generation() == authority_generation,
            manifest.spec_artifacts().len() == 0,
            manifest.spec_capabilities().len() == 0,
    {
        DerivedManifest {
            id: ManifestId::from_raw(0),
            authority_generation,
            artifacts: Vec::new(),
            capabilities: Vec::new(),
        }
    }

    pub fn new(
        id: ManifestId,
        authority_generation: AuthorityGeneration,
        artifacts: Vec<ArtifactId>,
        capabilities: Vec<String>,
    ) -> (manifest: Self)
        ensures
            manifest.spec_id() == id,
            manifest.spec_authority_generation() == authority_generation,
            manifest.spec_artifacts() == artifacts@,
            manifest.spec_capabilities() == capabilities@,
    {
        DerivedManifest { id, authority_generation, artifacts, capabilities }
    }

    pub closed spec fn spec_id(&self) -> ManifestId {
        self.id
    }

    pub closed spec fn spec_authority_generation(&self) -> AuthorityGeneration {
        self.authority_generation
    }

    pub closed spec fn spec_artifacts(&self) -> Seq<ArtifactId> {
        self.artifacts@
    }

    pub closed spec fn spec_capabilities(&self) -> Seq<String> {
        self.capabilities@
    }

    pub fn id(&self) -> (id: ManifestId)
        ensures
            id == self.spec_id(),
    {
        self.id
    }

    pub fn authority_generation(&self) -> (generation: AuthorityGeneration)
        ensures
            generation == self.spec_authority_generation(),
    {
        self.authority_generation
    }

    /// The artifacts the manifest pins.
    pub fn artifacts(&self) -> (artifacts: &[ArtifactId])
        ensures
            artifacts@ == self.spec_artifacts(),
    {
        self.artifacts.as_slice()
    }

    /// Whether the manifest serves `name`, at the manifest's generation.
    pub fn capability(&self, name: &str) -> (status: CapabilityStatus)
        ensures
            status.spec_ready() == lists_capability(self.spec_capabilities(), name@),
            status.spec_coverage() == self.spec_authority_generation(),
    {
        let mut found = false;
        let mut i: usize = 0;
        while i < self.capabilities.len()
            invariant
                i <= self.capabilities@.len(),
                found == exists|j: int|
                    0 <= j < i && #[trigger] self.capabilities@[j]@ == name@,
            decreases self.capabilities@.len() - i,
        {
            if str_eq(self.capabilities[i].as_str(), name) {
                found = true;
            }
            i = i + 1;
        }
        CapabilityStatus::new(found, self.authority_generation)
    }

    /// The capability names the manifest serves.
    pub fn capabilities(&self) -> (capabilities: &[String])
        ensures
            capabilities@ == self.spec_capabilities(),
    {
        self.capabilities.as_slice()
    }
}

} // verus!
