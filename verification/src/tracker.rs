//! A bounded snapshot of recent and active jobs, kept in step with the
//! notification stream: active jobs in arrival order, finished jobs in a
//! window capped at a fixed number of entries, oldest evicted first.

use vstd::prelude::*;

use crate::notify::ChurtenNotification;
use crate::notify::JobAction;
use crate::notify::JobProgress;
use crate::notify::progress_like;
use crate::types::Arena;
use crate::types::Job;
use crate::types::JobId;
use crate::types::job_like;

verus! {

/// What the tracker knows of one job.
#[derive(Debug, PartialEq, Eq)]
pub struct JobInfo {
    pub arena: Arena,
    pub id: JobId,
    pub job: Job,
    pub progress: JobProgress,
    pub action: Option<JobAction>,
    pub byte_progress: Option<(u64, u64)>,
    pub notification_index: u64,
}

/// Two snapshots that say the same of the same job.
pub open spec fn info_like(a: JobInfo, b: JobInfo) -> bool {
    &&& a.arena@ == b.arena@
    &&& a.id == b.id
    &&& job_like(a.job, b.job)
    &&& progress_like(a.progress, b.progress)
    &&& a.action == b.action
    &&& a.byte_progress == b.byte_progress
    &&& a.notification_index == b.notification_index
}

impl Clone for JobInfo {
    fn clone(&self) -> (r: Self)
        ensures
            info_like(r, *self),
    {
        JobInfo {
            arena: self.arena.clone(),
            id: self.id,
            job: self.job.clone(),
            progress: self.progress.clone(),
            action: self.action,
            byte_progress: self.byte_progress,
            notification_index: self.notification_index,
        }
    }
}

/// Some entry of `s` is about the job `id`.
pub open spec fn has_id(s: Seq<JobInfo>, id: JobId) -> bool {
    exists|k: int| 0 <= k < s.len() && (#[trigger] s[k]).id == id
}

/// A bounded snapshot of recent and active jobs.
pub struct JobInfoTracker {
    active: Vec<JobInfo>,
    recent: Vec<JobInfo>,
    capacity: usize,
}

impl JobInfoTracker {
    /// The jobs not yet finished, in arrival order.
    pub closed spec fn spec_active(self) -> Seq<JobInfo> {
        self.active@
    }

    /// The finished jobs still remembered, oldest first.
    pub closed spec fn spec_recent(self) -> Seq<JobInfo> {
        self.recent@
    }

    /// How many finished jobs are remembered at most.
    pub closed spec fn spec_capacity(self) -> usize {
        self.capacity
    }

    /// Active entries are never terminal, remembered entries always are,
    /// and the window of remembered entries is bounded.
    pub open spec fn wf(self) -> bool {
        &&& forall|k: int|
            0 <= k < self.spec_active().len() ==> !(#[trigger] self.spec_active()[k]).progress.spec_is_terminal()
        &&& forall|k: int|
            0 <= k < self.spec_recent().len() ==> (#[trigger] self.spec_recent()[k]).progress.spec_is_terminal()
        &&& self.spec_recent().len() <= self.spec_capacity()
    }

    /// An empty tracker remembering at most `capacity` finished jobs.
    pub fn new(capacity: usize) -> (r: JobInfoTracker)
        ensures
            r.wf(),
            r.spec_active().len() == 0,
            r.spec_recent().len() == 0,
            r.spec_capacity() == capacity,
    {
        JobInfoTracker { active: Vec::new(), recent: Vec::new(), capacity }
    }

    /// Find the active entry about `id`.
    fn find_active(&self, id: JobId) -> (r: Option<usize>)
        ensures
            match r {
                Some(k) => k < self.spec_active().len() && self.spec_active()[k as int].id == id,
                None => !has_id(self.spec_active(), id),
            },
    {
        let mut k: usize = 0;
        while k < self.active.len()
            invariant
                k <= self.active@.len(),
                forall|j: int| 0 <= j < k ==> (#[trigger] self.active@[j]).id != id,
            decreases self.active.len() - k,
        {
            if self.active[k].id.0 == id.0 {
                return Some(k);
            }
            k = k + 1;
        }
        None
    }

    /// Apply one notification. A `New` opens an entry, updates move it,
    /// and a `Finish` closes it into the bounded window, evicting the
    /// oldest finished entry when the window is full. Notifications about
    /// jobs the tracker never saw, or saw finish already, are skipped:
    /// subscribers that lag catch up on the next notification per job.
    pub fn update(&mut self, n: &ChurtenNotification)
        requires
            old(self).wf(),
        ensures
            final(self).wf(),
            final(self).spec_capacity() == old(self).spec_capacity(),
            ({
                let opened = n matches ChurtenNotification::New { job_id, .. } && !has_id(
                    old(self).spec_active(),
                    n.spec_job_id(),
                );
                opened ==> {
                    &&& final(self).spec_active().len() == old(self).spec_active().len() + 1
                    &&& final(self).spec_active().drop_last() == old(self).spec_active()
                    &&& final(self).spec_active().last().id == n.spec_job_id()
                    &&& final(self).spec_active().last().progress == JobProgress::Pending
                    &&& final(self).spec_active().last().action is None
                    &&& final(self).spec_active().last().byte_progress is None
                    &&& final(self).spec_active().last().notification_index == 0
                    &&& (n matches ChurtenNotification::New { arena, job_id: _, job } ==> final(self).spec_active().last().arena@
                        == arena@ && job_like(final(self).spec_active().last().job, *job))
                    &&& final(self).spec_recent() == old(self).spec_recent()
                }
            }),
            ({
                let started = n matches ChurtenNotification::Start { .. } && has_id(
                    old(self).spec_active(),
                    n.spec_job_id(),
                );
                started ==> exists|k: int|
                    0 <= k < old(self).spec_active().len() && (#[trigger] old(self).spec_active()[k]).id
                        == n.spec_job_id() && {
                        &&& final(self).spec_active() == old(self).spec_active().update(
                            k,
                            JobInfo {
                                progress: JobProgress::Running,
                                ..old(self).spec_active()[k]
                            },
                        )
                        &&& final(self).spec_recent() == old(self).spec_recent()
                    }
            }),
            ({
                let retagged = n matches ChurtenNotification::UpdateAction { .. } && has_id(
                    old(self).spec_active(),
                    n.spec_job_id(),
                );
                retagged ==> exists|k: int|
                    0 <= k < old(self).spec_active().len() && (#[trigger] old(self).spec_active()[k]).id
                        == n.spec_job_id() && (n matches ChurtenNotification::UpdateAction {
                        action,
                        index,
                        ..
                    } ==> {
                        &&& final(self).spec_active() == old(self).spec_active().update(
                            k,
                            JobInfo {
                                action: Some(*action),
                                notification_index: *index,
                                ..old(self).spec_active()[k]
                            },
                        )
                        &&& final(self).spec_recent() == old(self).spec_recent()
                    })
            }),
            ({
                let recounted = n matches ChurtenNotification::UpdateByteCount { .. } && has_id(
                    old(self).spec_active(),
                    n.spec_job_id(),
                );
                recounted ==> exists|k: int|
                    0 <= k < old(self).spec_active().len() && (#[trigger] old(self).spec_active()[k]).id
                        == n.spec_job_id() && (n matches ChurtenNotification::UpdateByteCount {
                        current_bytes,
                        total_bytes,
                        index,
                        ..
                    } ==> {
                        &&& final(self).spec_active() == old(self).spec_active().update(
                            k,
                            JobInfo {
                                byte_progress: Some((*current_bytes, *total_bytes)),
                                notification_index: *index,
                                ..old(self).spec_active()[k]
                            },
                        )
                        &&& final(self).spec_recent() == old(self).spec_recent()
                    })
            }),
            ({
                let closed = (n matches ChurtenNotification::Finish { progress, .. } &&
                progress.spec_is_terminal()) && has_id(old(self).spec_active(), n.spec_job_id())
                    && old(self).spec_capacity() > 0;
                closed ==> {
                    &&& final(self).spec_active().len() == old(self).spec_active().len() - 1
                    &&& final(self).spec_recent().len() > 0
                    &&& final(self).spec_recent().last().id == n.spec_job_id()
                    &&& exists|k: int|
                        0 <= k < old(self).spec_active().len() && (#[trigger] old(self).spec_active()[k]).id
                            == n.spec_job_id() && {
                            &&& final(self).spec_active() == old(self).spec_active().remove(k)
                            &&& final(self).spec_recent().last().arena == old(self).spec_active()[k].arena
                            &&& final(self).spec_recent().last().job == old(self).spec_active()[k].job
                            &&& final(self).spec_recent().last().action == old(self).spec_active()[k].action
                            &&& final(self).spec_recent().last().byte_progress == old(self).spec_active()[k].byte_progress
                            &&& final(self).spec_recent().last().notification_index == old(self).spec_active()[k].notification_index
                            &&& (n matches ChurtenNotification::Finish { progress, .. }
                                ==> progress_like(final(self).spec_recent().last().progress, *progress))
                        }
                    &&& (old(self).spec_recent().len() < old(self).spec_capacity() ==> final(self).spec_recent().drop_last()
                        == old(self).spec_recent())
                    &&& (old(self).spec_recent().len() >= old(self).spec_capacity() ==> final(self).spec_recent().drop_last()
                        == old(self).spec_recent().drop_first())
                }
            }),
    {
        match n {
            ChurtenNotification::New { arena, job_id, job } => {
                if self.find_active(*job_id).is_none() {
                    self.active.push(
                        JobInfo {
                            arena: arena.clone(),
                            id: *job_id,
                            job: job.clone(),
                            progress: JobProgress::Pending,
                            action: None,
                            byte_progress: None,
                            notification_index: 0,
                        },
                    );
                    proof {
                        assert(self.active@.drop_last() =~= old(self).active@);
                    }
                }
            },
            ChurtenNotification::Start { job_id, .. } => {
                if let Some(k) = self.find_active(*job_id) {
                    self.active[k].progress = JobProgress::Running;
                    proof {
                        assert(self.active@ =~= old(self).active@.update(
                            k as int,
                            JobInfo {
                                progress: JobProgress::Running,
                                ..old(self).active@[k as int]
                            },
                        ));
                    }
                }
            },
            ChurtenNotification::UpdateAction { job_id, action, index, .. } => {
                if let Some(k) = self.find_active(*job_id) {
                    self.active[k].action = Some(*action);
                    self.active[k].notification_index = *index;
                    proof {
                        assert(self.active@ =~= old(self).active@.update(
                            k as int,
                            JobInfo {
                                action: Some(*action),
                                notification_index: *index,
                                ..old(self).active@[k as int]
                            },
                        ));
                    }
                }
            },
            ChurtenNotification::UpdateByteCount {
                job_id,
                current_bytes,
                total_bytes,
                index,
                ..
            } => {
                if let Some(k) = self.find_active(*job_id) {
                    self.active[k].byte_progress = Some((*current_bytes, *total_bytes));
                    self.active[k].notification_index = *index;
                    proof {
                        assert(self.active@ =~= old(self).active@.update(
                            k as int,
                            JobInfo {
                                byte_progress: Some((*current_bytes, *total_bytes)),
                                notification_index: *index,
                                ..old(self).active@[k as int]
                            },
                        ));
                    }
                }
            },
            ChurtenNotification::Finish { job_id, progress, .. } => {
                if progress.is_terminal() {
                    if let Some(k) = self.find_active(*job_id) {
                        let ghost pre_recent = self.recent@;
                        let mut info = self.active.remove(k);
                        info.progress = progress.clone();
                        if self.capacity == 0 {
                            return ;
                        }
                        if self.recent.len() >= self.capacity {
                            self.recent.remove(0);
                            proof {
                                assert(self.recent@ =~= pre_recent.drop_first());
                            }
                        }
                        self.recent.push(info);
                        proof {
                            assert(self.recent@.drop_last() =~= if pre_recent.len()
                                < old(self).capacity as int {
                                pre_recent
                            } else {
                                pre_recent.drop_first()
                            });
                            assert(self.spec_active() == old(self).spec_active().remove(k as int));
                            assert(old(self).spec_active()[k as int].id == n.spec_job_id());
                        }
                    }
                }
            },
        }
    }

    /// Snapshots of the jobs not yet finished, in arrival order.
    pub fn active(&self) -> (r: Vec<JobInfo>)
        ensures
            r@.len() == self.spec_active().len(),
            forall|k: int|
                0 <= k < r@.len() ==> info_like(#[trigger] r@[k], self.spec_active()[k]),
    {
        let mut out: Vec<JobInfo> = Vec::new();
        let mut k: usize = 0;
        while k < self.active.len()
            invariant
                k <= self.active@.len(),
                out@.len() == k,
                forall|j: int| 0 <= j < k ==> info_like(#[trigger] out@[j], self.active@[j]),
            decreases self.active.len() - k,
        {
            out.push(self.active[k].clone());
            k = k + 1;
        }
        out
    }

    /// Snapshots of everything the tracker holds: the remembered finished
    /// jobs, oldest first, then the active jobs in arrival order.
    pub fn all_jobs(&self) -> (r: Vec<JobInfo>)
        ensures
            r@.len() == self.spec_recent().len() + self.spec_active().len(),
            forall|k: int|
                0 <= k < self.spec_recent().len() ==> info_like(
                    #[trigger] r@[k],
                    self.spec_recent()[k],
                ),
            forall|k: int|
                self.spec_recent().len() <= k < r@.len() ==> info_like(
                    #[trigger] r@[k],
                    self.spec_active()[k - self.spec_recent().len()],
                ),
    {
        let mut out: Vec<JobInfo> = Vec::new();
        let mut k: usize = 0;
        while k < self.recent.len()
            invariant
                k <= self.recent@.len(),
                out@.len() == k,
                forall|j: int| 0 <= j < k ==> info_like(#[trigger] out@[j], self.recent@[j]),
            decreases self.recent.len() - k,
        {
            out.push(self.recent[k].clone());
            k = k + 1;
        }
        let ghost nr = self.recent@.len() as int;
        let mut k2: usize = 0;
        while k2 < self.active.len()
            invariant
                nr == self.recent@.len(),
                k2 <= self.active@.len(),
                out@.len() == nr + k2,
                forall|j: int| 0 <= j < nr ==> info_like(#[trigger] out@[j], self.recent@[j]),
                forall|j: int| nr <= j < out@.len() ==> info_like(#[trigger] out@[j], self.active@[j - nr]),
            decreases self.active.len() - k2,
        {
            out.push(self.active[k2].clone());
            k2 = k2 + 1;
        }
        out
    }
}

} // verus!
