use vstd::prelude::*;

use crate::ids::AuthorityGeneration;
use crate::manifest::{lists_capability, DerivedManifest};
use crate::projection::lexical::LexicalDocument;
use crate::status::DerivedStatus;
use crate::DerivedError;

verus! {

/// A base build waiting to run: its generation and its documents.
#[derive(Clone, Debug)]
pub struct BuildRequest {
    pub generation: AuthorityGeneration,
    pub documents: Vec<LexicalDocument>,
}

/// The decisions of the base build scheduler: the newest authority
/// generation seen, at most one queued build, and whether a build runs,
/// work is paused or the scheduler has stopped.
#[derive(Debug)]
pub struct SchedulerState {
    pub authority_generation: AuthorityGeneration,
    pub queued: Option<BuildRequest>,
    pub building: bool,
    pub paused: bool,
    pub shutdown: bool,
    pub last_error: Option<String>,
}

impl SchedulerState {
    pub fn new(authority_generation: AuthorityGeneration) -> (state: Self)
        ensures
            state.authority_generation == authority_generation,
            state.queued is None,
            !state.building,
            !state.paused,
            !state.shutdown,
            state.last_error is None,
    {
        SchedulerState {
            authority_generation,
            queued: None,
            building: false,
            paused: false,
            shutdown: false,
            last_error: None,
        }
    }

    /// Queues a base build of `documents` at `generation`, replacing any
    /// queued one. A stopped scheduler refuses; an older generation than
    /// the newest seen is ignored. Returns whether the build was queued.
    pub fn enqueue(&mut self, generation: AuthorityGeneration, documents: Vec<LexicalDocument>) -> (result:
        Result<bool, DerivedError>)
        ensures
            old(self).shutdown ==> (result matches Err(DerivedError::SchedulerStopped))
                && *final(self) == *old(self),
            final(self).authority_generation.spec_value() >= old(
                self,
            ).authority_generation.spec_value(),
            !old(self).shutdown && generation.spec_value() < old(
                self,
            ).authority_generation.spec_value() ==> result == Ok::<bool, DerivedError>(false)
                && *final(self) == *old(self),
            !old(self).shutdown && generation.spec_value() >= old(
                self,
            ).authority_generation.spec_value() ==> result == Ok::<bool, DerivedError>(true)
                && final(self).authority_generation == generation && final(self).queued
                == Some(BuildRequest { generation, documents }) && final(self).last_error is None
                && final(self).building == old(self).building && final(self).paused == old(
                self,
            ).paused && final(self).shutdown == old(self).shutdown,
    {
        if self.shutdown {
            return Err(DerivedError::SchedulerStopped);
        }
        if generation.value() < self.authority_generation.value() {
            return Ok(false);
        }
        self.authority_generation = generation;
        self.queued = Some(BuildRequest { generation, documents });
        self.last_error = None;
        Ok(true)
    }

    pub fn pause(&mut self)
        ensures
            *final(self) == (SchedulerState { paused: true, ..*old(self) }),
    {
        self.paused = true;
    }

    pub fn resume(&mut self)
        ensures
            *final(self) == (SchedulerState { paused: false, ..*old(self) }),
    {
        self.paused = false;
    }

    /// The worker sleeps while the scheduler stopped, is paused or has
    /// nothing queued.
    pub fn worker_waits(&self) -> (waits: bool)
        ensures
            waits == (self.shutdown || self.paused || self.queued is None),
    {
        self.shutdown || self.paused || self.queued.is_none()
    }

    /// Starts the queued build: it leaves the queue and the scheduler is
    /// building.
    pub fn start_build(&mut self) -> (request: Option<BuildRequest>)
        ensures
            request == old(self).queued,
            *final(self) == (SchedulerState { building: true, queued: None, ..*old(self) }),
    {
        self.building = true;
        self.queued.take()
    }

    /// Records the end of a build and its error, if it failed.
    pub fn finish_build(&mut self, error: Option<String>)
        ensures
            !final(self).building,
            error is Some ==> final(self).last_error == error,
            error is None ==> final(self).last_error == old(self).last_error,
            final(self).authority_generation == old(self).authority_generation,
            final(self).queued == old(self).queued,
            final(self).paused == old(self).paused,
            final(self).shutdown == old(self).shutdown,
    {
        self.building = false;
        if error.is_some() {
            self.last_error = error;
        }
    }

    /// Stops the scheduler and drops the queued build.
    pub fn stop(&mut self)
        ensures
            *final(self) == (SchedulerState { shutdown: true, queued: None, ..*old(self) }),
    {
        self.shutdown = true;
        self.queued = None;
    }

    /// The status of the scheduler around the serving manifest.
    pub fn status(&self, manifest: Option<&DerivedManifest>) -> (status: DerivedStatus)
        ensures
            status.authority_generation == self.authority_generation,
            status.building == self.building,
            status.queued_generation == match self.queued {
                Some(request) => Some(request.generation),
                None => None,
            },
            manifest is None ==> status.base_coverage == AuthorityGeneration(0)
                && status.serving_manifest is None,
            manifest matches Some(m) ==> status.base_coverage == m.spec_authority_generation()
                && status.serving_manifest == Some(m.spec_id()),
    {
        let queued = match &self.queued {
            Some(request) => Some(request.generation),
            None => None,
        };
        DerivedStatus::from_manifest(self.authority_generation, manifest, queued, self.building)
    }
}

/// Whether a serving manifest already serves `capability` at
/// `at_least` or later.
pub fn capability_reached(manifest: &DerivedManifest, capability: &str, at_least: AuthorityGeneration) -> (reached:
    bool)
    ensures
        reached == (lists_capability(manifest.spec_capabilities(), capability@)
            && manifest.spec_authority_generation().spec_value() >= at_least.spec_value()),
{
    let status = manifest.capability(capability);
    status.is_ready() && status.coverage().value() >= at_least.value()
}

} // verus!
