use vstd::prelude::*;

use crate::ids::AuthorityGeneration;
use crate::manifest::{lists_capability, DerivedManifest, ManifestId};

verus! {

/// What Derived state reports about itself.
#[derive(Clone, Copy, Debug)]
pub struct DerivedStatus {
    pub authority_generation: AuthorityGeneration,
    pub base_coverage: AuthorityGeneration,
    pub serving_manifest: Option<ManifestId>,
    pub queued_generation: Option<AuthorityGeneration>,
    pub building: bool,
}

impl DerivedStatus {
    /// The status around a serving manifest: base search covers the
    /// manifest's generation when the manifest serves it, and the initial
    /// generation otherwise.
    pub fn from_manifest(
        authority_generation: AuthorityGeneration,
        manifest: Option<&DerivedManifest>,
        queued_generation: Option<AuthorityGeneration>,
        building: bool,
    ) -> (status: Self)
        ensures
            status.authority_generation == authority_generation,
            status.queued_generation == queued_generation,
            status.building == building,
            manifest is None ==> status.base_coverage == AuthorityGeneration(0)
                && status.serving_manifest is None,
            manifest matches Some(m) ==> status.base_coverage == m.spec_authority_generation()
                && status.serving_manifest == Some(m.spec_id()),
    {
        let (base_coverage, serving_manifest) = match manifest {
            Some(manifest) => {
                let base = manifest.capability("base-search");
                (base.coverage(), Some(manifest.id()))
            },
            None => (AuthorityGeneration::initial(), None),
        };
        DerivedStatus {
            authority_generation,
            base_coverage,
            serving_manifest,
            queued_generation,
            building,
        }
    }
}

} // verus!
