use vstd::prelude::*;

use crate::artifact::{ArtifactId, ArtifactState};
use crate::manifest::ManifestId;

verus! {

/// What one garbage collection removed.
#[derive(Clone, Debug)]
pub struct GcReport {
    pub deleted_manifests: Vec<ManifestId>,
    pub collected_artifacts: Vec<ArtifactId>,
}

impl Default for GcReport {
    fn default() -> (report: Self)
        ensures
            report.deleted_manifests@.len() == 0,
            report.collected_artifacts@.len() == 0,
    {
        GcReport { deleted_manifests: Vec::new(), collected_artifacts: Vec::new() }
    }
}

/// A manifest together with the artifacts it pins.
#[derive(Clone, Debug)]
pub struct ManifestLinks {
    pub manifest: ManifestId,
    pub artifacts: Vec<ArtifactId>,
}

/// What keeps a manifest alive through garbage collection.
#[derive(Clone, Debug)]
pub struct GcRoots {
    /// Manifests retained for a grace period.
    pub grace: Vec<ManifestId>,
    /// Manifests pinned by the caller.
    pub pins: Vec<ManifestId>,
    /// The manifest behind the serving pointer.
    pub serving: Option<ManifestId>,
    /// Manifests with a lease that has not expired.
    pub leased: Vec<ManifestId>,
}

/// The manifest must survive collection.
pub open spec fn is_gc_root(roots: GcRoots, manifest: ManifestId) -> bool {
    ||| roots.grace@.contains(manifest)
    ||| roots.pins@.contains(manifest)
    ||| roots.serving == Some(manifest)
    ||| roots.leased@.contains(manifest)
}

/// The manifests collection deletes, in catalog order.
pub open spec fn deleted_manifests_spec(manifests: Seq<ManifestLinks>, roots: GcRoots) -> Seq<ManifestId>
    decreases manifests.len(),
{
    if manifests.len() == 0 {
        seq![]
    } else {
        let prefix = deleted_manifests_spec(manifests.drop_last(), roots);
        let last = manifests.last().manifest;
        if is_gc_root(roots, last) {
            prefix
        } else {
            prefix.push(last)
        }
    }
}

/// Some manifest that `keep` selects pins `artifact`.
pub open spec fn pinned_by(
    manifests: Seq<ManifestLinks>,
    roots: GcRoots,
    artifact: ArtifactId,
    kept: bool,
) -> bool {
    exists|i: int|
        0 <= i < manifests.len() && is_gc_root(roots, manifests[i].manifest) == kept
            && (#[trigger] manifests[i].artifacts@).contains(artifact)
}

/// The artifact becomes garbage: only deleted manifests pinned it, and no
/// build is in flight that might still publish it.
pub open spec fn is_collected(
    manifests: Seq<ManifestLinks>,
    roots: GcRoots,
    active_build: bool,
    artifact: ArtifactId,
) -> bool {
    &&& !active_build
    &&& pinned_by(manifests, roots, artifact, false)
    &&& !pinned_by(manifests, roots, artifact, true)
}

/// The identities increase strictly.
pub open spec fn strictly_increasing(ids: Seq<ArtifactId>) -> bool {
    forall|i: int, j: int| 0 <= i < j < ids.len() ==> ids[i].0 < ids[j].0
}

fn contains_manifest(ids: &[ManifestId], id: ManifestId) -> (found: bool)
    ensures
        found == ids@.contains(id),
{
    let mut i: usize = 0;
    while i < ids.len()
        invariant
            i <= ids@.len(),
            forall|j: int| 0 <= j < i ==> ids@[j] != id,
        decreases ids@.len() - i,
    {
        if ids[i] == id {
            return true;
        }
        i = i + 1;
    }
    false
}

fn contains_artifact(ids: &[ArtifactId], id: ArtifactId) -> (found: bool)
    ensures
        found == ids@.contains(id),
{
    let mut i: usize = 0;
    while i < ids.len()
        invariant
            i <= ids@.len(),
            forall|j: int| 0 <= j < i ==> ids@[j] != id,
        decreases ids@.len() - i,
    {
        if ids[i] == id {
            return true;
        }
        i = i + 1;
    }
    false
}

fn is_root(roots: &GcRoots, manifest: ManifestId) -> (root: bool)
    ensures
        root == is_gc_root(*roots, manifest),
{
    contains_manifest(roots.grace.as_slice(), manifest) || contains_manifest(
        roots.pins.as_slice(),
        manifest,
    ) || match roots.serving {
        Some(serving) => serving == manifest,
        None => false,
    } || contains_manifest(roots.leased.as_slice(), manifest)
}

/// Inserts `id` into a strictly increasing sequence, unless present.
fn insert_sorted(ids: &mut Vec<ArtifactId>, id: ArtifactId)
    requires
        strictly_increasing(old(ids)@),
    ensures
        strictly_increasing(final(ids)@),
        final(ids)@.to_set() == old(ids)@.to_set().insert(id),
{
    let mut i: usize = 0;
    while i < ids.len() && ids[i].0 < id.0
        invariant
            i <= ids@.len(),
            forall|j: int| 0 <= j < i ==> ids@[j].0 < id.0,
        decreases ids@.len() - i,
    {
        i = i + 1;
    }
    if i < ids.len() && ids[i].0 == id.0 {
        assert(ids@[i as int] == id);
        assert(ids@.to_set().insert(id) =~= ids@.to_set());
        return;
    }
    let ghost before = ids@;
    ids.insert(i, id);
    assert(ids@ =~= before.subrange(0, i as int).push(id) + before.subrange(i as int, before.len() as int));
    assert(ids@.to_set() =~= before.to_set().insert(id)) by {
        assert forall|x: ArtifactId| ids@.to_set().contains(x) implies before.to_set().insert(id).contains(x) by {
            let k = choose|k: int| 0 <= k < ids@.len() && ids@[k] == x;
            if k < i {
                assert(before[k] == x);
            } else if k > i {
                assert(before[k - 1] == x);
            }
        }
        assert forall|x: ArtifactId| before.to_set().insert(id).contains(x) implies ids@.to_set().contains(x) by {
            if x == id {
                assert(ids@[i as int] == x);
            } else {
                let k = choose|k: int| 0 <= k < before.len() && before[k] == x;
                if k < i {
                    assert(ids@[k] == x);
                } else {
                    assert(ids@[k + 1] == x);
                }
            }
        }
    }
}

/// Decides what a garbage collection removes: every manifest that no root
/// keeps alive is deleted, and every artifact that only deleted manifests
/// pinned is collected, unless a build is in flight.
pub fn plan_gc(manifests: &[ManifestLinks], roots: &GcRoots, active_build: bool) -> (report: GcReport)
    ensures
        report.deleted_manifests@ == deleted_manifests_spec(manifests@, *roots),
        strictly_increasing(report.collected_artifacts@),
        forall|artifact: ArtifactId|
            report.collected_artifacts@.contains(artifact) <==> is_collected(
                manifests@,
                *roots,
                active_build,
                artifact,
            ),
{
    let mut deleted: Vec<ManifestId> = Vec::new();
    let mut removed: Vec<ArtifactId> = Vec::new();
    let mut i: usize = 0;
    while i < manifests.len()
        invariant
            i <= manifests@.len(),
            deleted@ == deleted_manifests_spec(manifests@.subrange(0, i as int), *roots),
            strictly_increasing(removed@),
            forall|artifact: ArtifactId|
                removed@.contains(artifact) <==> pinned_by(
                    manifests@.subrange(0, i as int),
                    *roots,
                    artifact,
                    false,
                ),
        decreases manifests@.len() - i,
    {
        let links = &manifests[i];
        let ghost prefix = manifests@.subrange(0, i as int);
        let ghost next = manifests@.subrange(0, i + 1);
        proof {
            assert(next.drop_last() =~= prefix);
            assert(next.last() == manifests@[i as int]);
        }
        if !is_root(roots, links.manifest) {
            deleted.push(links.manifest);
            let mut k: usize = 0;
            while k < links.artifacts.len()
                invariant
                    k <= links.artifacts@.len(),
                    links == &manifests@[i as int],
                    !is_gc_root(*roots, links.manifest),
                    strictly_increasing(removed@),
                    forall|artifact: ArtifactId|
                        removed@.contains(artifact) <==> (pinned_by(prefix, *roots, artifact, false)
                            || links.artifacts@.subrange(0, k as int).contains(artifact)),
                decreases links.artifacts@.len() - k,
            {
                let ghost before = removed@;
                insert_sorted(&mut removed, links.artifacts[k]);
                proof {
                    assert forall|artifact: ArtifactId|
                        removed@.contains(artifact) <==> (pinned_by(prefix, *roots, artifact, false)
                            || links.artifacts@.subrange(0, k + 1).contains(artifact)) by {
                        assert(removed@.to_set().contains(artifact) == removed@.contains(artifact));
                        assert(before.to_set().contains(artifact) == before.contains(artifact));
                        crate::seqs::lemma_prefix_contains(links.artifacts@, k as int, artifact);
                    }
                }
                k = k + 1;
            }
            proof {
                assert(links.artifacts@.subrange(0, links.artifacts@.len() as int) =~= links.artifacts@);
            }
        }
        proof {
            assert forall|artifact: ArtifactId|
                removed@.contains(artifact) <==> pinned_by(next, *roots, artifact, false) by {
                if pinned_by(next, *roots, artifact, false) {
                    let w = choose|w: int|
                        0 <= w < next.len() && is_gc_root(*roots, next[w].manifest) == false
                            && (#[trigger] next[w].artifacts@).contains(artifact);
                    if w < i {
                        assert(prefix[w] == next[w]);
                    }
                }
                if pinned_by(prefix, *roots, artifact, false) {
                    let w = choose|w: int|
                        0 <= w < prefix.len() && is_gc_root(*roots, prefix[w].manifest) == false
                            && (#[trigger] prefix[w].artifacts@).contains(artifact);
                    assert(next[w] == prefix[w]);
                }
                if !is_gc_root(*roots, links.manifest) && links.artifacts@.contains(artifact) {
                    assert(next[i as int] == *links);
                }
            }
        }
        i = i + 1;
    }
    proof {
        assert(manifests@.subrange(0, manifests@.len() as int) =~= manifests@);
    }
    let mut collected: Vec<ArtifactId> = Vec::new();
    if !active_build {
        let mut k: usize = 0;
        while k < removed.len()
            invariant
                k <= removed@.len(),
                !active_build,
                strictly_increasing(removed@),
                forall|artifact: ArtifactId|
                    removed@.contains(artifact) <==> pinned_by(manifests@, *roots, artifact, false),
                collected@.len() <= k,
                strictly_increasing(collected@),
                forall|a: int|
                    0 <= a < collected@.len() && k < removed@.len() ==> #[trigger] collected@[a].0
                        < removed@[k as int].0,
                forall|artifact: ArtifactId|
                    collected@.contains(artifact) <==> (removed@.subrange(0, k as int).contains(artifact)
                        && !pinned_by(manifests@, *roots, artifact, true)),
            decreases removed@.len() - k,
        {
            let artifact = removed[k];
            let mut still_referenced = false;
            let mut m: usize = 0;
            while m < manifests.len()
                invariant
                    m <= manifests@.len(),
                    still_referenced == exists|w: int|
                        0 <= w < m && is_gc_root(*roots, manifests@[w].manifest) == true
                            && (#[trigger] manifests@[w].artifacts@).contains(artifact),
                decreases manifests@.len() - m,
            {
                if is_root(roots, manifests[m].manifest) && contains_artifact(
                    manifests[m].artifacts.as_slice(),
                    artifact,
                ) {
                    still_referenced = true;
                }
                m = m + 1;
            }
            let ghost before = collected@;
            assert(still_referenced == pinned_by(manifests@, *roots, artifact, true));
            assert(!before.contains(artifact)) by {
                if before.contains(artifact) {
                    let w = choose|w: int| 0 <= w < before.len() && before[w] == artifact;
                    assert(before[w].0 < removed@[k as int].0);
                }
            }
            if !still_referenced {
                collected.push(artifact);
            }
            proof {
                assert forall|x: ArtifactId|
                    collected@.contains(x) <==> (removed@.subrange(0, k + 1).contains(x)
                        && !pinned_by(manifests@, *roots, x, true)) by {
                    crate::seqs::lemma_prefix_contains(removed@, k as int, x);
                    crate::seqs::lemma_push_contains(before, artifact, x);
                    if !still_referenced {
                        assert(collected@ == before.push(artifact));
                    } else {
                        assert(collected@ == before);
                    }
                }
                assert forall|a: int|
                    0 <= a < collected@.len() && k + 1 < removed@.len() implies #[trigger] collected@[a].0
                        < removed@[k + 1].0 by {
                    assert(removed@[k as int].0 < removed@[k + 1].0);
                    if a < before.len() {
                        assert(before[a] == collected@[a]);
                    }
                }
            }
            k = k + 1;
        }
        proof {
            assert(removed@.subrange(0, removed@.len() as int) =~= removed@);
        }
    }
    GcReport { deleted_manifests: deleted, collected_artifacts: collected }
}

/// The state an artifact takes when collection removes it: unfinished or
/// merely validated artifacts keep their state.
pub open spec fn state_after_collection_spec(state: ArtifactState) -> ArtifactState {
    match state {
        ArtifactState::Planned | ArtifactState::Building | ArtifactState::Staged
        | ArtifactState::Validated => state,
        _ => ArtifactState::Collected,
    }
}

pub fn state_after_collection(state: ArtifactState) -> (after: ArtifactState)
    ensures
        after == state_after_collection_spec(state),
{
    match state {
        ArtifactState::Planned | ArtifactState::Building | ArtifactState::Staged
        | ArtifactState::Validated => state,
        _ => ArtifactState::Collected,
    }
}

/// Collection never deletes a manifest that a root keeps alive: not the
/// serving manifest, not a leased, pinned or grace manifest.
pub proof fn law_gc_keeps_roots(manifests: Seq<ManifestLinks>, roots: GcRoots, manifest: ManifestId)
    requires
        is_gc_root(roots, manifest),
    ensures
        !deleted_manifests_spec(manifests, roots).contains(manifest),
    decreases manifests.len(),
{
    if manifests.len() > 0 {
        law_gc_keeps_roots(manifests.drop_last(), roots, manifest);
    }
}


/// Collection deletes no manifest that is in its grace period, pinned,
/// serving or leased, and collects no artifact that such a manifest
/// links, nor any artifact while a build is in flight; every other listed
/// manifest is deleted.
pub proof fn law_gc_spares_protected_manifests(
    manifests: Seq<ManifestLinks>,
    roots: GcRoots,
    active_build: bool,
    manifest: ManifestId,
    artifact: ArtifactId,
)
    ensures
        active_build ==> !is_collected(manifests, roots, active_build, artifact),
        roots.grace@.contains(manifest) || roots.pins@.contains(manifest) || roots.serving == Some(
            manifest,
        ) || roots.leased@.contains(manifest) ==> !deleted_manifests_spec(manifests, roots).contains(
            manifest,
        ),
        (exists|i: int|
            0 <= i < manifests.len() && manifests[i].manifest == manifest
                && (#[trigger] manifests[i].artifacts@).contains(artifact)) && (
        roots.grace@.contains(manifest) || roots.pins@.contains(manifest) || roots.serving == Some(
            manifest,
        ) || roots.leased@.contains(manifest)) ==> !is_collected(
            manifests,
            roots,
            active_build,
            artifact,
        ),
        (exists|i: int| 0 <= i < manifests.len() && #[trigger] manifests[i].manifest == manifest)
            && !roots.grace@.contains(manifest) && !roots.pins@.contains(manifest) && roots.serving
            != Some(manifest) && !roots.leased@.contains(manifest) ==> deleted_manifests_spec(
            manifests,
            roots,
        ).contains(manifest),
    decreases manifests.len(),
{
    if manifests.len() > 0 {
        law_gc_spares_protected_manifests(manifests.drop_last(), roots, active_build, manifest, artifact);
        let prefix = manifests.drop_last();
        let deleted = deleted_manifests_spec(prefix, roots);
        let last = manifests.last().manifest;
        if deleted.contains(manifest) {
            let k = choose|k: int| 0 <= k < deleted.len() && deleted[k] == manifest;
            assert(deleted.push(last)[k] == manifest);
        }
        if deleted.push(last).contains(manifest) && last != manifest {
            let k = choose|k: int| 0 <= k < deleted.push(last).len() && deleted.push(last)[k] == manifest;
            assert(deleted[k] == manifest);
        }
        assert(deleted.push(last)[deleted.len() as int] == last);
        if exists|i: int| 0 <= i < manifests.len() && #[trigger] manifests[i].manifest == manifest {
            let i = choose|i: int| 0 <= i < manifests.len() && #[trigger] manifests[i].manifest == manifest;
            if i < prefix.len() {
                assert(prefix[i].manifest == manifest);
            } else {
                assert(last == manifest);
            }
        }
    }
    if (exists|i: int|
        0 <= i < manifests.len() && manifests[i].manifest == manifest
            && (#[trigger] manifests[i].artifacts@).contains(artifact)) && is_gc_root(roots, manifest) {
        let i = choose|i: int|
            0 <= i < manifests.len() && manifests[i].manifest == manifest
                && (#[trigger] manifests[i].artifacts@).contains(artifact);
        assert(pinned_by(manifests, roots, artifact, true));
    }
}

} // verus!
