use vstd::prelude::*;

use crate::manifest::ManifestId;
use crate::DerivedError;

verus! {

/// A lease that keeps a manifest from collection until it expires.
#[derive(Debug)]
pub struct ManifestLease {
    id: i64,
    manifest_id: ManifestId,
    expires_at: i64,
}

impl ManifestLease {
    pub fn new(id: i64, manifest_id: ManifestId, expires_at: i64) -> (lease: Self)
        ensures
            lease.spec_id() == id,
            lease.spec_manifest_id() == manifest_id,
            lease.spec_expires_at() == expires_at,
    {
        ManifestLease { id, manifest_id, expires_at }
    }

    pub closed spec fn spec_id(&self) -> i64 {
        self.id
    }

    pub closed spec fn spec_manifest_id(&self) -> ManifestId {
        self.manifest_id
    }

    pub closed spec fn spec_expires_at(&self) -> i64 {
        self.expires_at
    }

    /// The lease row that holds the manifest.
    pub fn id(&self) -> (id: i64)
        ensures
            id == self.spec_id(),
    {
        self.id
    }

    pub fn manifest_id(&self) -> (id: ManifestId)
        ensures
            id == self.spec_manifest_id(),
    {
        self.manifest_id
    }

    pub fn expires_at_unix_seconds(&self) -> (expires_at: i64)
        ensures
            expires_at == self.spec_expires_at(),
    {
        self.expires_at
    }
}

/// When a lease taken at `now` for `ttl_seconds` expires; a duration that
/// does not fit a signed second count, or an expiry past it, is refused.
pub fn lease_expiry(now: i64, ttl_seconds: u64) -> (result: Result<i64, DerivedError>)
    ensures
        ttl_seconds <= i64::MAX && now + ttl_seconds <= i64::MAX ==> result == Ok::<
            i64,
            DerivedError,
        >((now + ttl_seconds) as i64),
        ttl_seconds > i64::MAX || now + ttl_seconds > i64::MAX ==> (result matches Err(
            DerivedError::LeaseDuration { seconds },
        ) && seconds == ttl_seconds),
{
    if ttl_seconds > 9223372036854775807u64 {
        return Err(DerivedError::LeaseDuration { seconds: ttl_seconds });
    }
    let ttl = ttl_seconds as i64;
    match now.checked_add(ttl) {
        Some(expires_at) => Ok(expires_at),
        None => Err(DerivedError::LeaseDuration { seconds: ttl_seconds }),
    }
}

} // verus!
