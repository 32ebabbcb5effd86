//! The job handler's decisions: which work each job variant asks for,
//! and when a job is obsolete before any byte moves.

use vstd::prelude::*;

use crate::movedirs::RealStoreError;
use crate::types::Job;

verus! {

/// Dispatches jobs to the routine for their variant. The peers and the
/// local store stay with the caller; the handler holds the decisions.
pub struct JobHandlerImpl {}

/// What a download job should do.
pub enum DownloadDecision {
    /// The local store already holds the content under the expected
    /// digest: the job is obsolete and ends `Abandoned`, with nothing
    /// transferred.
    AlreadyStaged,
    /// Fetch the content from a peer and stage it.
    Fetch,
}

impl JobHandlerImpl {
    /// A handler; it carries no state of its own.
    pub fn new() -> (r: JobHandlerImpl)
        ensures
            r == (JobHandlerImpl {  }),
    {
        JobHandlerImpl {  }
    }

    /// Decide a download against what the local store already holds for
    /// the path. A rerun of a completed download finds the content staged
    /// and abandons without transferring a byte.
    pub fn download_decision(
        &self,
        expected: &crate::types::Hash,
        local: Option<&crate::types::Hash>,
    ) -> (r: DownloadDecision)
        ensures
            r is AlreadyStaged <==> (local matches Some(h) && *h == *expected),
    {
        match local {
            Some(h) => if *h == *expected {
                DownloadDecision::AlreadyStaged
            } else {
                DownloadDecision::Fetch
            },
            None => DownloadDecision::Fetch,
        }
    }

    /// Decide a realize: the staged content goes into the index only when
    /// the index still shows the expected prior state, a compare-and-swap.
    pub fn realize_decision(
        &self,
        current_index: Option<&crate::types::Hash>,
        expected_prior: Option<&crate::types::Hash>,
    ) -> (r: Result<(), RealStoreError>)
        ensures
            r is Ok <==> match (current_index, expected_prior) {
                (None, None) => true,
                (Some(c), Some(p)) => c == p,
                _ => false,
            },
            r matches Err(e) ==> e == RealStoreError::HashMismatch,
    {
        let same = match (current_index, expected_prior) {
            (None, None) => true,
            (Some(c), Some(p)) => *c == *p,
            _ => false,
        };
        if same {
            Ok(())
        } else {
            Err(RealStoreError::HashMismatch)
        }
    }

    /// Decide an unrealize: an indexed file is demoted only when the index
    /// still shows exactly the expected digest.
    pub fn unrealize_decision(
        &self,
        current_index: Option<&crate::types::Hash>,
        expected: &crate::types::Hash,
    ) -> (r: Result<(), RealStoreError>)
        ensures
            r is Ok <==> (current_index matches Some(c) && *c == *expected),
            r matches Err(e) ==> e == RealStoreError::HashMismatch,
    {
        match current_index {
            Some(c) => if *c == *expected {
                Ok(())
            } else {
                Err(RealStoreError::HashMismatch)
            },
            None => Err(RealStoreError::HashMismatch),
        }
    }

    /// The digest a job's work converges toward.
    pub fn expected_hash<'a>(&self, job: &'a Job) -> (r: &'a crate::types::Hash)
        ensures
            *r == job.spec_hash(),
    {
        match job {
            Job::Download(_, h) => h,
            Job::Realize(_, h, _) => h,
            Job::Unrealize(_, h) => h,
        }
    }
}

} // verus!
