//! Lifecycle notifications broadcast by the scheduler, and the observable
//! progress and phase of a job.

use vstd::prelude::*;

use crate::types::Arena;
use crate::types::Job;
use crate::types::JobId;

verus! {

/// The phase a running job is in, as shown to subscribers.
#[derive(Clone, Copy, Debug, PartialEq, Eq, Structural)]
pub enum JobAction {
    /// Fetching remote content.
    Download,
    /// Checking hashes.
    Verify,
    /// Delta transfer over existing bytes.
    Rsync,
    /// Bulk copy of missing bytes.
    Copy,
    /// Waiting for a resource, such as the copy permit.
    Pending,
}

/// The observable progress of a job. `Done`, `Abandoned`, `Cancelled` and
/// `Failed` are terminal.
#[derive(Debug, PartialEq, Eq)]
pub enum JobProgress {
    /// Observed in the stream, not yet picked up by a worker.
    Pending,
    /// Picked up by a worker.
    Running,
    /// Finished its work; the job is retired.
    Done,
    /// Became obsolete before or during the run; retired, not an error.
    Abandoned,
    /// Stopped by a shutdown; retained for reissue.
    Cancelled,
    /// Ended in an error, carried as text; retained for reissue.
    Failed(String),
}

/// Two progress values that carry the same outcome and message.
pub open spec fn progress_like(a: JobProgress, b: JobProgress) -> bool {
    match (a, b) {
        (JobProgress::Failed(s1), JobProgress::Failed(s2)) => s1@ == s2@,
        _ => a == b,
    }
}

impl Clone for JobProgress {
    fn clone(&self) -> (r: Self)
        ensures
            progress_like(r, *self),
    {
        match self {
            JobProgress::Pending => JobProgress::Pending,
            JobProgress::Running => JobProgress::Running,
            JobProgress::Done => JobProgress::Done,
            JobProgress::Abandoned => JobProgress::Abandoned,
            JobProgress::Cancelled => JobProgress::Cancelled,
            JobProgress::Failed(msg) => JobProgress::Failed(msg.clone()),
        }
    }
}

impl JobProgress {
    /// True when the job will not move again.
    pub open spec fn spec_is_terminal(self) -> bool {
        !(self is Pending || self is Running)
    }

    /// True when the job will not move again.
    pub fn is_terminal(&self) -> (r: bool)
        ensures
            r == self.spec_is_terminal(),
    {
        !(matches!(self, JobProgress::Pending) || matches!(self, JobProgress::Running))
    }
}

/// One notification on the scheduler's broadcast stream. `index` orders
/// the update notifications of one job.
#[derive(Clone, Debug, PartialEq, Eq)]
pub enum ChurtenNotification {
    /// A pending job was observed on the storage stream.
    New { arena: Arena, job_id: JobId, job: Job },
    /// A worker picked the job up.
    Start { arena: Arena, job_id: JobId },
    /// The job moved to another phase.
    UpdateAction { arena: Arena, job_id: JobId, action: JobAction, index: u64 },
    /// The job moved its byte counter.
    UpdateByteCount { arena: Arena, job_id: JobId, current_bytes: u64, total_bytes: u64, index: u64 },
    /// The job reached a terminal state.
    Finish { arena: Arena, job_id: JobId, progress: JobProgress },
}

impl ChurtenNotification {
    /// The job the notification speaks of.
    pub open spec fn spec_job_id(self) -> JobId {
        match self {
            ChurtenNotification::New { job_id, .. } => job_id,
            ChurtenNotification::Start { job_id, .. } => job_id,
            ChurtenNotification::UpdateAction { job_id, .. } => job_id,
            ChurtenNotification::UpdateByteCount { job_id, .. } => job_id,
            ChurtenNotification::Finish { job_id, .. } => job_id,
        }
    }

    /// The per-job order of the notification, where it carries one.
    pub open spec fn spec_index(self) -> Option<u64> {
        match self {
            ChurtenNotification::UpdateAction { index, .. } => Some(index),
            ChurtenNotification::UpdateByteCount { index, .. } => Some(index),
            _ => None,
        }
    }

    /// The job the notification speaks of.
    pub fn job_id(&self) -> (r: JobId)
        ensures
            r == self.spec_job_id(),
    {
        match self {
            ChurtenNotification::New { job_id, .. } => *job_id,
            ChurtenNotification::Start { job_id, .. } => *job_id,
            ChurtenNotification::UpdateAction { job_id, .. } => *job_id,
            ChurtenNotification::UpdateByteCount { job_id, .. } => *job_id,
            ChurtenNotification::Finish { job_id, .. } => *job_id,
        }
    }
}

} // verus!
