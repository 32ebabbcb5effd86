//! The job scheduler: it consumes pending jobs from storage, drives up to
//! a fixed number of them at once, numbers and hands out the lifecycle
//! notifications to broadcast, and produces the terminal report that goes
//! back to storage.
//!
//! The scheduler is a state machine over plain values. The caller runs the
//! loop: it feeds each job from the stream to [`Churten::observe`], starts
//! work with [`Churten::try_start`], runs the handler, and closes the job
//! with [`Churten::finish`], broadcasting each returned notification and
//! delivering the returned report. A ghost history of the handed-out
//! notifications carries the bookkeeping the contracts speak of: per job
//! exactly one observation, at most one start, and a finish exactly for
//! the finished.

use vstd::prelude::*;

use crate::notify::ChurtenNotification;
use crate::notify::JobProgress;
use crate::progress::ByteCountProgress;
use crate::types::Arena;
use crate::types::Job;
use crate::types::JobId;
use crate::types::JobStatus;

verus! {

/// How many jobs run at the same time at most.
pub const PARALLEL_JOB_COUNT: usize = 4;

/// Capacity of the broadcast channel the caller should use; the reporter
/// scales its byte threshold against it.
pub const BROADCAST_CHANNEL_CAPACITY: u64 = 128;

/// Byte counts are published when they moved at least this far.
pub const BROADCAST_CHANNEL_RESOLUTION_BYTES: u64 = 64 * 1024;

/// The stage a job is at inside the scheduler.
#[derive(Clone, Copy, Debug, PartialEq, Eq, Structural)]
pub enum JobPhase {
    /// Observed on the stream, waiting for a worker slot.
    Pending,
    /// A worker is on it.
    Running,
    /// Its terminal notification went out and storage was told.
    Finished,
}

/// One job the scheduler has seen this run.
pub struct JobRecord {
    pub arena: Arena,
    pub id: JobId,
    pub job: Job,
    pub phase: JobPhase,
}

/// The kind of a handed-out lifecycle notification.
pub enum NotifKind {
    New,
    Start,
    Finish,
}

/// A ghost summary of one handed-out notification.
pub struct NotifRecord {
    pub kind: NotifKind,
    pub job_id: JobId,
}

/// How many records in `h` are of this kind and job.
pub open spec fn count_kind(h: Seq<NotifRecord>, kind: NotifKind, id: JobId) -> nat
    decreases h.len(),
{
    if h.len() == 0 {
        0
    } else {
        count_kind(h.drop_last(), kind, id) + if h.last().kind == kind && h.last().job_id == id {
            1nat
        } else {
            0nat
        }
    }
}

/// Appending one record raises exactly its own count by one.
pub proof fn lemma_count_push(h: Seq<NotifRecord>, r: NotifRecord, kind: NotifKind, id: JobId)
    ensures
        count_kind(h.push(r), kind, id) == count_kind(h, kind, id) + if r.kind == kind && r.job_id
            == id {
            1nat
        } else {
            0nat
        },
{
    assert(h.push(r).drop_last() =~= h);
    assert(h.push(r).last() == r);
}

/// No notification of any kind went out for the job `id`.
pub open spec fn counts_zero(h: Seq<NotifRecord>, id: JobId) -> bool {
    &&& count_kind(h, NotifKind::New, id) == 0
    &&& count_kind(h, NotifKind::Start, id) == 0
    &&& count_kind(h, NotifKind::Finish, id) == 0
}

/// The history shows the record's job exactly where its phase says: one
/// observation, a start once it left `Pending`, a finish once finished.
pub open spec fn job_accounted(h: Seq<NotifRecord>, r: JobRecord) -> bool {
    &&& count_kind(h, NotifKind::New, r.id) == 1
    &&& count_kind(h, NotifKind::Start, r.id) == (if r.phase is Pending {
        0nat
    } else {
        1nat
    })
    &&& count_kind(h, NotifKind::Finish, r.id) == (if r.phase is Finished {
        1nat
    } else {
        0nat
    })
}

/// How many of the scheduler's jobs are running.
pub open spec fn running_count(jobs: Seq<JobRecord>) -> nat
    decreases jobs.len(),
{
    if jobs.len() == 0 {
        0
    } else {
        running_count(jobs.drop_last()) + if jobs.last().phase is Running {
            1nat
        } else {
            0nat
        }
    }
}

/// Replacing one record changes the running count by the phase change.
proof fn lemma_running_count_update(jobs: Seq<JobRecord>, k: int, r: JobRecord)
    requires
        0 <= k < jobs.len(),
    ensures
        running_count(jobs.update(k, r)) == running_count(jobs) + (if r.phase is Running {
            1int
        } else {
            0int
        }) - (if jobs[k].phase is Running {
            1int
        } else {
            0int
        }),
    decreases jobs.len(),
{
    let u = jobs.update(k, r);
    if k == jobs.len() - 1 {
        assert(u.drop_last() =~= jobs.drop_last());
        assert(u.last() == r);
    } else {
        assert(u.drop_last() =~= jobs.drop_last().update(k, r));
        assert(u.last() == jobs.last());
        lemma_running_count_update(jobs.drop_last(), k, r);
    }
}

/// Appending a record adds its own contribution to the running count.
proof fn lemma_running_count_push(jobs: Seq<JobRecord>, r: JobRecord)
    ensures
        running_count(jobs.push(r)) == running_count(jobs) + if r.phase is Running {
            1nat
        } else {
            0nat
        },
{
    assert(jobs.push(r).drop_last() =~= jobs);
    assert(jobs.push(r).last() == r);
}

/// Some record in `jobs` is about the job `id`.
pub open spec fn jobs_have_id(jobs: Seq<JobRecord>, id: JobId) -> bool {
    exists|k: int| 0 <= k < jobs.len() && (#[trigger] jobs[k]).id == id
}

/// The report the scheduler hands back for storage after a job ended:
/// exactly what the handler returned, tied to the job it was for.
pub struct StorageReport {
    pub arena: Arena,
    pub job_id: JobId,
    pub status: Result<JobStatus, String>,
}

/// The scheduler's state over one run.
pub struct Churten {
    jobs: Vec<JobRecord>,
    running: bool,
    cancelled: bool,
    history: Ghost<Seq<NotifRecord>>,
}

impl Churten {
    /// The jobs seen this run, in arrival order.
    pub closed spec fn spec_jobs(self) -> Seq<JobRecord> {
        self.jobs@
    }

    /// A ghost summary of every notification handed out, in order.
    pub closed spec fn spec_history(self) -> Seq<NotifRecord> {
        self.history@
    }

    /// Whether the run was shut down.
    pub closed spec fn spec_cancelled(self) -> bool {
        self.cancelled
    }

    /// Whether the background run is on.
    pub closed spec fn spec_running(self) -> bool {
        self.running
    }

    /// The phase of the job `id`, when the scheduler has seen it.
    pub open spec fn phase_of(self, id: JobId) -> JobPhase {
        self.spec_jobs()[choose|k: int|
            0 <= k < self.spec_jobs().len() && (#[trigger] self.spec_jobs()[k]).id == id].phase
    }

    /// Notification discipline: for every job seen, exactly one
    /// observation went out; one start exactly when it left `Pending`; one
    /// finish exactly when it finished. Nothing went out for jobs never
    /// seen.
    pub open spec fn history_accounts(self) -> bool {
        &&& forall|k: int|
            0 <= k < self.spec_jobs().len() ==> job_accounted(
                self.spec_history(),
                #[trigger] self.spec_jobs()[k],
            )
        &&& forall|id: JobId|
            !jobs_have_id(self.spec_jobs(), id) ==> counts_zero(self.spec_history(), id)
    }

    /// Job identifiers are unique, at most the allowed number of jobs run
    /// at once, and the history accounts for every job.
    pub open spec fn wf(self) -> bool {
        &&& forall|k1: int, k2: int|
            0 <= k1 < k2 < self.spec_jobs().len() ==> (#[trigger] self.spec_jobs()[k1]).id != (
            #[trigger] self.spec_jobs()[k2]).id
        &&& running_count(self.spec_jobs()) <= PARALLEL_JOB_COUNT
        &&& self.history_accounts()
    }

    /// A fresh scheduler: nothing seen, nothing sent, not yet started.
    pub fn new() -> (r: Churten)
        ensures
            r.wf(),
            r.spec_jobs().len() == 0,
            r.spec_history().len() == 0,
            !r.spec_cancelled(),
            !r.spec_running(),
    {
        let r = Churten { jobs: Vec::new(), running: false, cancelled: false, history: Ghost(
            Seq::empty(),
        ) };
        proof {
            assert(forall|id: JobId| counts_zero(r.spec_history(), id));
        }
        r
    }

    /// Begin a run with a fresh cancellation state, as each run gets its
    /// own token; starting while running changes nothing.
    pub fn start(&mut self)
        requires
            old(self).wf(),
        ensures
            final(self).wf(),
            final(self).spec_running(),
            final(self).spec_jobs() == old(self).spec_jobs(),
            final(self).spec_history() == old(self).spec_history(),
            old(self).spec_running() ==> final(self).spec_cancelled() == old(
                self,
            ).spec_cancelled(),
            !old(self).spec_running() ==> !final(self).spec_cancelled(),
    {
        if !self.running {
            self.cancelled = false;
        }
        self.running = true;
    }

    /// Whether the run is on.
    pub fn is_running(&self) -> (r: bool)
        ensures
            r == self.spec_running(),
    {
        self.running
    }

    /// Shut the run down: jobs that end in an error from here on are
    /// reported as cancelled.
    pub fn shutdown(&mut self)
        requires
            old(self).wf(),
        ensures
            final(self).wf(),
            !final(self).spec_running(),
            final(self).spec_cancelled(),
            final(self).spec_jobs() == old(self).spec_jobs(),
            final(self).spec_history() == old(self).spec_history(),
    {
        self.running = false;
        self.cancelled = true;
    }

    /// Find the record about `id`.
    fn find_job(&self, id: JobId) -> (r: Option<usize>)
        ensures
            match r {
                Some(k) => k < self.spec_jobs().len() && self.spec_jobs()[k as int].id == id,
                None => !jobs_have_id(self.spec_jobs(), id),
            },
    {
        let mut k: usize = 0;
        while k < self.jobs.len()
            invariant
                k <= self.jobs@.len(),
                forall|j: int| 0 <= j < k ==> (#[trigger] self.jobs@[j]).id != id,
            decreases self.jobs.len() - k,
        {
            if self.jobs[k].id.0 == id.0 {
                return Some(k);
            }
            k = k + 1;
        }
        None
    }

    /// Whether this run has seen the job already; a stream handing the
    /// same identifier out twice is the caller's to refuse.
    pub fn has_job(&self, id: JobId) -> (r: bool)
        ensures
            r == jobs_have_id(self.spec_jobs(), id),
    {
        match self.find_job(id) {
            Some(k) => {
                proof {
                    assert(self.spec_jobs()[k as int].id == id);
                }
                true
            },
            None => false,
        }
    }

    /// How many jobs are running right now.
    pub fn running_jobs(&self) -> (r: usize)
        requires
            self.wf(),
        ensures
            r == running_count(self.spec_jobs()),
    {
        let mut count: usize = 0;
        let mut k: usize = 0;
        while k < self.jobs.len()
            invariant
                self.wf(),
                k <= self.jobs@.len(),
                count == running_count(self.jobs@.take(k as int)),
                count <= k,
            decreases self.jobs.len() - k,
        {
            proof {
                assert(self.jobs@.take(k + 1).drop_last() =~= self.jobs@.take(k as int));
                assert(self.jobs@.take(k + 1).last() == self.jobs@[k as int]);
            }
            if matches!(self.jobs[k].phase, JobPhase::Running) {
                count = count + 1;
            }
            k = k + 1;
        }
        proof {
            assert(self.jobs@.take(self.jobs@.len() as int) =~= self.jobs@);
        }
        count
    }

    /// Take one pending job from the stream into the run. Storage issues
    /// each job identifier once, so the job is new to this run.
    pub fn observe(&mut self, arena: Arena, job_id: JobId, job: Job) -> (r: ChurtenNotification)
        requires
            old(self).wf(),
            !jobs_have_id(old(self).spec_jobs(), job_id),
        ensures
            final(self).wf(),
            r matches ChurtenNotification::New { arena: a, job_id: j, job: jb } && a@ == arena@ && j
                == job_id && crate::types::job_like(jb, job),
            final(self).spec_jobs().len() == old(self).spec_jobs().len() + 1,
            final(self).spec_jobs().drop_last() == old(self).spec_jobs(),
            final(self).spec_jobs().last().id == job_id,
            final(self).spec_jobs().last().phase is Pending,
            final(self).spec_jobs().last().arena@ == arena@,
            crate::types::job_like(final(self).spec_jobs().last().job, job),
            final(self).spec_history() == old(self).spec_history().push(
                NotifRecord { kind: NotifKind::New, job_id },
            ),
            final(self).spec_cancelled() == old(self).spec_cancelled(),
    {
        let n = ChurtenNotification::New { arena: arena.clone(), job_id, job: job.clone() };
        let rec = JobRecord { arena, id: job_id, job, phase: JobPhase::Pending };
        proof {
            lemma_running_count_push(self.jobs@, rec);
            let h = self.history@;
            let hr = NotifRecord { kind: NotifKind::New, job_id };
            lemma_count_push_all(h, hr);
        }
        self.jobs.push(rec);
        proof {
            self.history@ = self.history@.push(NotifRecord { kind: NotifKind::New, job_id });
        }
        proof {
            assert(self.jobs@.drop_last() =~= old(self).jobs@);
            assert forall|k: int|
                0 <= k < self.spec_jobs().len() implies job_accounted(
                self.spec_history(),
                #[trigger] self.spec_jobs()[k],
            ) by {
                if k < self.spec_jobs().len() - 1 {
                    assert(self.spec_jobs()[k] == old(self).spec_jobs()[k]);
                    assert(self.spec_jobs()[k].id != job_id) by {
                        if self.spec_jobs()[k].id == job_id {
                            assert(jobs_have_id(old(self).spec_jobs(), job_id));
                        }
                    }
                } else {
                    assert(counts_zero(old(self).spec_history(), job_id));
                }
            }
            assert forall|id: JobId|
                !jobs_have_id(self.spec_jobs(), id) implies counts_zero(
                self.spec_history(),
                id,
            ) by {
                assert forall|k: int|
                    0 <= k < old(self).spec_jobs().len() implies (#[trigger] old(
                    self,
                ).spec_jobs()[k]).id != id by {
                    assert(self.spec_jobs()[k] == old(self).spec_jobs()[k]);
                }
                assert(id != job_id) by {
                    assert(self.spec_jobs().last().id == job_id);
                }
                assert(!jobs_have_id(old(self).spec_jobs(), id));
                assert(counts_zero(old(self).spec_history(), id));
            }
        }
        n
    }

    /// Put a pending job to work if a worker slot is free. Hands back the
    /// start notification to broadcast and the job's progress reporter.
    pub fn try_start(&mut self, job_id: JobId) -> (r: Option<(ChurtenNotification,
        ByteCountProgress)>)
        requires
            old(self).wf(),
        ensures
            final(self).wf(),
            final(self).spec_cancelled() == old(self).spec_cancelled(),
            r matches Some((n, p)) ==> {
                &&& n matches ChurtenNotification::Start { arena: a, job_id: j } && j == job_id
                    && p.spec_arena() == a@
                &&& p.wf()
                &&& p.spec_job_id() == job_id
                &&& p.spec_next_index() == 2
                &&& p.spec_last_published() is None
                &&& p.spec_published().len() == 0
                &&& p.spec_counts().len() == 0
                &&& p.spec_effective_delta() == BROADCAST_CHANNEL_RESOLUTION_BYTES
                &&& p.spec_min_byte_delta() == BROADCAST_CHANNEL_RESOLUTION_BYTES
                &&& p.spec_capacity() == BROADCAST_CHANNEL_CAPACITY
                &&& final(self).phase_of(job_id) is Running
                &&& final(self).spec_history() == old(self).spec_history().push(
                    NotifRecord { kind: NotifKind::Start, job_id },
                )
                &&& running_count(final(self).spec_jobs()) == running_count(
                    old(self).spec_jobs(),
                ) + 1
                &&& final(self).spec_jobs().len() == old(self).spec_jobs().len()
                &&& exists|k: int|
                    0 <= k < old(self).spec_jobs().len() && (#[trigger] old(self).spec_jobs()[k]).id
                        == job_id && {
                        &&& final(self).spec_jobs()[k].phase is Running
                        &&& final(self).spec_jobs()[k].id == job_id
                        &&& final(self).spec_jobs()[k].arena@ == old(self).spec_jobs()[k].arena@
                        &&& crate::types::job_like(
                            final(self).spec_jobs()[k].job,
                            old(self).spec_jobs()[k].job,
                        )
                        &&& (n matches ChurtenNotification::Start { arena: a2, job_id: _ } && a2@
                            == old(self).spec_jobs()[k].arena@)
                        &&& p.spec_arena() == old(self).spec_jobs()[k].arena@
                        &&& forall|k2: int|
                            0 <= k2 < old(self).spec_jobs().len() && k2 != k ==> final(self).spec_jobs()[k2]
                                == old(self).spec_jobs()[k2]
                    }
            },
            r is None ==> final(self).spec_history() == old(self).spec_history() && (running_count(
                old(self).spec_jobs(),
            ) >= PARALLEL_JOB_COUNT || !jobs_have_id(old(self).spec_jobs(), job_id) || !(old(
                self,
            ).phase_of(job_id) is Pending)),
    {
        let slot = self.running_jobs();
        if slot >= PARALLEL_JOB_COUNT {
            return None;
        }
        let found = self.find_job(job_id);
        let k = match found {
            Some(k) => k,
            None => {
                return None;
            },
        };
        if !matches!(self.jobs[k].phase, JobPhase::Pending) {
            proof {
                lemma_phase_of(self.spec_jobs(), k as int);
            }
            return None;
        }
        let arena = self.jobs[k].arena.clone();
        let n = ChurtenNotification::Start { arena: arena.clone(), job_id };
        let reporter = ByteCountProgress::new(
            arena,
            job_id,
            BROADCAST_CHANNEL_CAPACITY,
            BROADCAST_CHANNEL_RESOLUTION_BYTES,
        );
        let ghost pre = self.jobs@;
        let updated = JobRecord {
            arena: self.jobs[k].arena.clone(),
            id: job_id,
            job: self.jobs[k].job.clone(),
            phase: JobPhase::Running,
        };
        self.jobs[k] = updated;
        proof {
            lemma_running_count_update(pre, k as int, updated);
            let hr = NotifRecord { kind: NotifKind::Start, job_id };
            lemma_count_push_all(self.history@, hr);
            self.history@ = self.history@.push(hr);
            assert forall|k2: int|
                0 <= k2 < self.spec_jobs().len() implies job_accounted(
                self.spec_history(),
                #[trigger] self.spec_jobs()[k2],
            ) by {
                if k2 != k {
                    assert(self.spec_jobs()[k2] == pre[k2]);
                    assert(pre[k2].id != job_id) by {
                        if k2 < k {
                            assert(pre[k2].id != pre[k as int].id);
                        } else {
                            assert(pre[k as int].id != pre[k2].id);
                        }
                    }
                } else {
                    assert(count_kind(old(self).spec_history(), NotifKind::Start, job_id) == 0);
                }
            }
            assert forall|id: JobId|
                !jobs_have_id(self.spec_jobs(), id) implies counts_zero(
                self.spec_history(),
                id,
            ) by {
                assert forall|k2: int| 0 <= k2 < pre.len() implies (#[trigger] pre[k2]).id
                    != id by {
                    if k2 == k {
                        assert(self.spec_jobs()[k2].id == pre[k2].id);
                    } else {
                        assert(self.spec_jobs()[k2] == pre[k2]);
                    }
                }
                assert(!jobs_have_id(pre, id));
            }
            lemma_phase_of(self.spec_jobs(), k as int);
        }
        Some((n, reporter))
    }

    /// Close a running job with what the handler returned. Hands back the
    /// finish notification to broadcast and the report for storage: the
    /// report carries the handler's result word for word, and the
    /// notification shows the same outcome — `Done` and `Abandoned` as
    /// themselves, an error as `Cancelled` after a shutdown and as
    /// `Failed` with the error's text otherwise.
    pub fn finish(&mut self, job_id: JobId, outcome: Result<JobStatus, String>) -> (r: (
        ChurtenNotification,
        StorageReport,
    ))
        requires
            old(self).wf(),
            jobs_have_id(old(self).spec_jobs(), job_id),
            old(self).phase_of(job_id) is Running,
        ensures
            final(self).wf(),
            final(self).spec_cancelled() == old(self).spec_cancelled(),
            final(self).phase_of(job_id) is Finished,
            final(self).spec_history() == old(self).spec_history().push(
                NotifRecord { kind: NotifKind::Finish, job_id },
            ),
            running_count(final(self).spec_jobs()) == running_count(old(self).spec_jobs()) - 1,
            final(self).spec_jobs().len() == old(self).spec_jobs().len(),
            exists|k: int|
                0 <= k < old(self).spec_jobs().len() && (#[trigger] old(self).spec_jobs()[k]).id
                    == job_id && {
                    &&& final(self).spec_jobs()[k].phase is Finished
                    &&& final(self).spec_jobs()[k].id == job_id
                    &&& final(self).spec_jobs()[k].arena@ == old(self).spec_jobs()[k].arena@
                    &&& crate::types::job_like(
                        final(self).spec_jobs()[k].job,
                        old(self).spec_jobs()[k].job,
                    )
                    &&& (r.0 matches ChurtenNotification::Finish { arena: a2, .. } && a2@
                        == old(self).spec_jobs()[k].arena@)
                    &&& r.1.arena@ == old(self).spec_jobs()[k].arena@
                    &&& forall|k2: int|
                        0 <= k2 < old(self).spec_jobs().len() && k2 != k ==> final(self).spec_jobs()[k2]
                            == old(self).spec_jobs()[k2]
                },
            r.0 matches ChurtenNotification::Finish { arena: _, job_id: j, progress } && j == job_id
                && match outcome {
                Ok(JobStatus::Done) => progress is Done,
                Ok(JobStatus::Abandoned) => progress is Abandoned,
                Err(e) => if old(self).spec_cancelled() {
                    progress is Cancelled
                } else {
                    progress matches JobProgress::Failed(msg) && msg@ == e@
                },
            },
            r.1.job_id == job_id,
            match (r.1.status, outcome) {
                (Ok(s1), Ok(s2)) => s1 == s2,
                (Err(e1), Err(e2)) => e1@ == e2@,
                _ => false,
            },
    {
        let found = self.find_job(job_id);
        let k = match found {
            Some(k) => k,
            None => {
                proof {
                    assert(false);
                }
                unreached()
            },
        };
        proof {
            lemma_phase_of_unique(self.spec_jobs(), k as int, job_id);
        }
        let arena = self.jobs[k].arena.clone();
        let progress = match &outcome {
            Ok(JobStatus::Done) => JobProgress::Done,
            Ok(JobStatus::Abandoned) => JobProgress::Abandoned,
            Err(e) => if self.cancelled {
                JobProgress::Cancelled
            } else {
                JobProgress::Failed(e.clone())
            },
        };
        let n = ChurtenNotification::Finish { arena: arena.clone(), job_id, progress };
        let status: Result<JobStatus, String> = match &outcome {
            Ok(s) => Ok(*s),
            Err(e) => Err(e.clone()),
        };
        let report = StorageReport { arena, job_id, status };
        let ghost pre = self.jobs@;
        let updated = JobRecord {
            arena: self.jobs[k].arena.clone(),
            id: job_id,
            job: self.jobs[k].job.clone(),
            phase: JobPhase::Finished,
        };
        self.jobs[k] = updated;
        proof {
            lemma_running_count_update(pre, k as int, updated);
            let hr = NotifRecord { kind: NotifKind::Finish, job_id };
            lemma_count_push_all(self.history@, hr);
            self.history@ = self.history@.push(hr);
            assert forall|k2: int|
                0 <= k2 < self.spec_jobs().len() implies job_accounted(
                self.spec_history(),
                #[trigger] self.spec_jobs()[k2],
            ) by {
                if k2 != k {
                    assert(self.spec_jobs()[k2] == pre[k2]);
                    assert(pre[k2].id != job_id) by {
                        if k2 < k {
                            assert(pre[k2].id != pre[k as int].id);
                        } else {
                            assert(pre[k as int].id != pre[k2].id);
                        }
                    }
                } else {
                    assert(count_kind(old(self).spec_history(), NotifKind::Finish, job_id) == 0);
                }
            }
            assert forall|id: JobId|
                !jobs_have_id(self.spec_jobs(), id) implies counts_zero(
                self.spec_history(),
                id,
            ) by {
                assert forall|k2: int| 0 <= k2 < pre.len() implies (#[trigger] pre[k2]).id
                    != id by {
                    if k2 == k {
                        assert(self.spec_jobs()[k2].id == pre[k2].id);
                    } else {
                        assert(self.spec_jobs()[k2] == pre[k2]);
                    }
                }
                assert(!jobs_have_id(pre, id));
            }
            lemma_phase_of(self.spec_jobs(), k as int);
        }
        (n, report)
    }
}

/// `phase_of` reads the record at any index whose identifier matches,
/// because identifiers are unique.
proof fn lemma_phase_of(jobs: Seq<JobRecord>, k: int)
    requires
        0 <= k < jobs.len(),
        forall|k1: int, k2: int|
            0 <= k1 < k2 < jobs.len() ==> (#[trigger] jobs[k1]).id != (#[trigger] jobs[k2]).id,
    ensures
        jobs[choose|j: int| 0 <= j < jobs.len() && (#[trigger] jobs[j]).id == jobs[k].id] == jobs[k],
{
    lemma_phase_of_unique(jobs, k, jobs[k].id);
}

/// The chosen index of a matching identifier is the only one.
proof fn lemma_phase_of_unique(jobs: Seq<JobRecord>, k: int, id: JobId)
    requires
        0 <= k < jobs.len(),
        jobs[k].id == id,
        forall|k1: int, k2: int|
            0 <= k1 < k2 < jobs.len() ==> (#[trigger] jobs[k1]).id != (#[trigger] jobs[k2]).id,
    ensures
        jobs[choose|j: int| 0 <= j < jobs.len() && (#[trigger] jobs[j]).id == id] == jobs[k],
{
    assert(jobs[k].id == id);
    let j = choose|j: int| 0 <= j < jobs.len() && (#[trigger] jobs[j]).id == id;
    if j < k {
        assert(jobs[j].id != jobs[k].id);
    } else if k < j {
        assert(jobs[k].id != jobs[j].id);
    }
}

/// Appending one record raises its own count by one and no other.
proof fn lemma_count_push_all(h: Seq<NotifRecord>, r: NotifRecord)
    ensures
        forall|kind: NotifKind, id: JobId|
            count_kind(#[trigger] h.push(r), kind, id) == count_kind(h, kind, id) + if r.kind
                == kind && r.job_id == id {
                1nat
            } else {
                0nat
            },
{
    assert forall|kind: NotifKind, id: JobId|
        count_kind(#[trigger] h.push(r), kind, id) == count_kind(h, kind, id) + if r.kind == kind
            && r.job_id == id {
            1nat
        } else {
            0nat
        } by {
        lemma_count_push(h, r, kind, id);
    }
}

/// Of every job the scheduler saw this run, subscribers were told exactly
/// once that it exists, at most once that it started, and exactly once
/// that it finished — the latter exactly for the jobs that finished.
pub proof fn lemma_notification_discipline(c: Churten, k: int)
    requires
        c.wf(),
        0 <= k < c.spec_jobs().len(),
    ensures
        count_kind(c.spec_history(), NotifKind::New, c.spec_jobs()[k].id) == 1,
        count_kind(c.spec_history(), NotifKind::Start, c.spec_jobs()[k].id) <= 1,
        count_kind(c.spec_history(), NotifKind::Finish, c.spec_jobs()[k].id) == (if c.spec_jobs()[k].phase is Finished {
            1nat
        } else {
            0nat
        }),
{
    assert(job_accounted(c.spec_history(), c.spec_jobs()[k]));
}

/// No more jobs run at once than the scheduler's worker-slot count.
pub proof fn lemma_bounded_parallelism(c: Churten)
    requires
        c.wf(),
    ensures
        running_count(c.spec_jobs()) <= PARALLEL_JOB_COUNT,
{
}

} // verus!
