//! The per-job byte-count reporter: a rate-limited, adaptively backed-off
//! filter in front of the notification stream.
//!
//! Every publish carries a per-job `index` that increases by one; byte
//! counts pass only when they moved far enough since the last publish, or
//! reach the total. When the channel the caller feeds runs low on free
//! slots, the byte threshold doubles, up to a fixed factor; it halves
//! again, down to the baseline, while the channel drains.

use vstd::prelude::*;

use crate::notify::ChurtenNotification;
use crate::notify::JobAction;
use crate::types::Arena;
use crate::types::JobId;

verus! {

/// Largest factor by which back-off may raise the byte threshold.
pub const MAX_BACKOFF_FACTOR: u64 = 64;

/// Decides which byte-count updates of one job are published, and numbers
/// every published notification.
pub struct ByteCountProgress {
    arena: Arena,
    job_id: JobId,
    next_index: u64,
    last_published: Option<u64>,
    min_byte_delta: u64,
    effective_delta: u64,
    capacity: u64,
    published: Ghost<Seq<u64>>,
    counts: Ghost<Seq<(u64, u64)>>,
}

impl ByteCountProgress {
    /// The thresholds stay between the baseline and the back-off cap, and
    /// the index never runs out.
    pub closed spec fn wf(self) -> bool {
        &&& 1 <= self.min_byte_delta
        &&& self.min_byte_delta <= u64::MAX / MAX_BACKOFF_FACTOR
        &&& self.min_byte_delta <= self.effective_delta
        &&& self.effective_delta <= self.min_byte_delta * MAX_BACKOFF_FACTOR
        &&& forall|k: int|
            0 <= k < self.published@.len() ==> #[trigger] self.published@[k] < self.next_index
                || (self.published@[k] == u64::MAX && self.next_index == u64::MAX)
        &&& forall|k1: int, k2: int|
            0 <= k1 < k2 < self.published@.len() ==> #[trigger] self.published@[k1] < #[trigger] self.published@[k2]
                || self.published@[k2] == u64::MAX
        &&& forall|k: int|
            0 <= k < self.counts@.len() ==> (#[trigger] self.counts@[k]).0 <= self.counts@[k].1
        &&& forall|k1: int, k2: int|
            0 <= k1 < k2 < self.counts@.len() ==> (#[trigger] self.counts@[k1]).0 <= (
            #[trigger] self.counts@[k2]).0
        &&& (self.last_published matches Some(prev) ==> forall|k: int|
            0 <= k < self.counts@.len() ==> (#[trigger] self.counts@[k]).0 <= prev)
        &&& (self.last_published is None ==> self.counts@.len() == 0)
    }

    /// The byte counts published so far, in emission order, each a pair of
    /// current and total.
    pub closed spec fn spec_counts(self) -> Seq<(u64, u64)> {
        self.counts@
    }

    /// The `index` values published so far, in emission order.
    pub closed spec fn spec_published(self) -> Seq<u64> {
        self.published@
    }

    /// The per-job index of the next published notification.
    pub closed spec fn spec_next_index(self) -> u64 {
        self.next_index
    }

    /// The byte count most recently published, if any.
    pub closed spec fn spec_last_published(self) -> Option<u64> {
        self.last_published
    }

    /// The name of the arena the reporter publishes for.
    pub closed spec fn spec_arena(self) -> Seq<u8> {
        self.arena@
    }

    /// The job the reporter publishes for.
    pub closed spec fn spec_job_id(self) -> JobId {
        self.job_id
    }

    /// The byte threshold currently in force.
    pub closed spec fn spec_effective_delta(self) -> u64 {
        self.effective_delta
    }

    /// The baseline byte threshold the reporter was made with.
    pub closed spec fn spec_min_byte_delta(self) -> u64 {
        self.min_byte_delta
    }

    /// The channel capacity the back-off is scaled against.
    pub closed spec fn spec_capacity(self) -> u64 {
        self.capacity
    }

    /// A reporter for one job. The first two per-job notifications, the
    /// observation and the pickup, are the scheduler's, so published
    /// updates count from two.
    pub fn new(arena: Arena, job_id: JobId, capacity: u64, min_byte_delta: u64) -> (r:
        ByteCountProgress)
        requires
            1 <= min_byte_delta <= u64::MAX / MAX_BACKOFF_FACTOR,
        ensures
            r.wf(),
            r.spec_next_index() == 2,
            r.spec_last_published() is None,
            r.spec_arena() == arena@,
            r.spec_job_id() == job_id,
            r.spec_published().len() == 0,
            r.spec_counts().len() == 0,
            r.spec_effective_delta() == min_byte_delta,
            r.spec_min_byte_delta() == min_byte_delta,
            r.spec_capacity() == capacity,
    {
        ByteCountProgress {
            arena,
            job_id,
            next_index: 2,
            last_published: None,
            min_byte_delta,
            effective_delta: min_byte_delta,
            capacity,
            published: Ghost(Seq::empty()),
            counts: Ghost(Seq::empty()),
        }
    }

    /// Publish a phase change. Phase changes always pass the filter.
    pub fn set_action(&mut self, action: JobAction) -> (r: ChurtenNotification)
        requires
            old(self).wf(),
        ensures
            final(self).wf(),
            r matches ChurtenNotification::UpdateAction { arena, job_id, action: act, index }
                && arena@ == old(self).spec_arena() && job_id == old(self).spec_job_id() && act
                == action && index == old(self).spec_next_index(),
            old(self).spec_next_index() < u64::MAX ==> final(self).spec_next_index() == old(
                self,
            ).spec_next_index() + 1,
            final(self).spec_next_index() >= old(self).spec_next_index(),
            final(self).spec_last_published() == old(self).spec_last_published(),
            final(self).spec_published() == old(self).spec_published().push(
                old(self).spec_next_index(),
            ),
            final(self).spec_counts() == old(self).spec_counts(),
    {
        let n = ChurtenNotification::UpdateAction {
            arena: self.arena.clone(),
            job_id: self.job_id,
            action,
            index: self.next_index,
        };
        proof {
            assert(self.arena@ == old(self).arena@);
            self.published@ = self.published@.push(self.next_index);
            assert(forall|k: int|
                0 <= k < old(self).published@.len() ==> self.published@[k] == old(
                    self,
                ).published@[k]);
            assert(self.published@.last() == self.next_index);
        }
        if self.next_index < u64::MAX {
            self.next_index = self.next_index + 1;
        }
        n
    }

    /// Offer a byte count. Returns the notification to publish, or nothing
    /// when the count moved too little since the last publish. A count
    /// that reaches the total always passes; every published count lies
    /// under its total and over the count published before it.
    pub fn update(&mut self, current: u64, total: u64, free_slots: u64) -> (r: Option<
        ChurtenNotification,
    >)
        requires
            old(self).wf(),
            current <= total,
            old(self).spec_last_published() matches Some(prev) ==> prev <= current,
        ensures
            final(self).wf(),
            r is Some <==> (old(self).spec_last_published() is None || current == total || current
                - old(self).spec_last_published()->Some_0 >= old(self).spec_effective_delta()),
            r matches Some(n) ==> n matches ChurtenNotification::UpdateByteCount {
                arena,
                job_id,
                current_bytes,
                total_bytes,
                index,
            } && arena@ == old(self).spec_arena() && job_id == old(self).spec_job_id()
                && current_bytes == current && total_bytes == total && index == old(
                self,
            ).spec_next_index(),
            r is Some ==> final(self).spec_last_published() == Some(current),
            r is Some && old(self).spec_next_index() < u64::MAX ==> final(self).spec_next_index()
                == old(self).spec_next_index() + 1,
            final(self).spec_next_index() >= old(self).spec_next_index(),
            r is None ==> final(self).spec_next_index() == old(self).spec_next_index(),
            r is None ==> final(self).spec_last_published() == old(self).spec_last_published(),
            r is Some ==> final(self).spec_published() == old(self).spec_published().push(
                old(self).spec_next_index(),
            ),
            r is None ==> final(self).spec_published() == old(self).spec_published(),
            r is Some ==> final(self).spec_counts() == old(self).spec_counts().push(
                (current, total),
            ),
            r is None ==> final(self).spec_counts() == old(self).spec_counts(),
    {
        let publish = match self.last_published {
            None => true,
            Some(prev) => current == total || current - prev >= self.effective_delta,
        };
        proof {
            assert(self.min_byte_delta * MAX_BACKOFF_FACTOR <= u64::MAX && self.min_byte_delta * (
            MAX_BACKOFF_FACTOR / 2) <= u64::MAX && (self.effective_delta <= self.min_byte_delta * (
            MAX_BACKOFF_FACTOR / 2) ==> self.effective_delta * 2 <= self.min_byte_delta
                * MAX_BACKOFF_FACTOR)) by (nonlinear_arith)
                requires
                    self.min_byte_delta <= u64::MAX / MAX_BACKOFF_FACTOR,
                    self.effective_delta <= self.min_byte_delta * MAX_BACKOFF_FACTOR,
            ;
        }
        // Back off while the channel is crowded; recover while it drains.
        if free_slots < self.capacity / 4 {
            if self.effective_delta <= self.min_byte_delta * (MAX_BACKOFF_FACTOR / 2) {
                self.effective_delta = self.effective_delta * 2;
            } else {
                self.effective_delta = self.min_byte_delta * MAX_BACKOFF_FACTOR;
            }
        } else {
            let halved = self.effective_delta / 2;
            self.effective_delta = if halved >= self.min_byte_delta {
                halved
            } else {
                self.min_byte_delta
            };
        }
        if publish {
            let n = ChurtenNotification::UpdateByteCount {
                arena: self.arena.clone(),
                job_id: self.job_id,
                current_bytes: current,
                total_bytes: total,
                index: self.next_index,
            };
            proof {
                assert(self.arena@ == old(self).arena@);
                self.published@ = self.published@.push(self.next_index);
                assert(forall|k: int|
                    0 <= k < old(self).published@.len() ==> self.published@[k] == old(
                        self,
                    ).published@[k]);
                assert(self.published@.last() == self.next_index);
                self.counts@ = self.counts@.push((current, total));
                assert(forall|k: int|
                    0 <= k < old(self).counts@.len() ==> self.counts@[k] == old(self).counts@[k]);
                assert(self.counts@.last() == (current, total));
            }
            if self.next_index < u64::MAX {
                self.next_index = self.next_index + 1;
            }
            self.last_published = Some(current);
            Some(n)
        } else {
            None
        }
    }
    /// Published byte counts never pass their totals, and rise between
    /// publishes: progress shown to subscribers only moves forward.
    pub proof fn lemma_published_counts_monotone(self, k1: int, k2: int)
        requires
            self.wf(),
            0 <= k1 <= k2 < self.spec_counts().len(),
        ensures
            self.spec_counts()[k1].0 <= self.spec_counts()[k1].1,
            self.spec_counts()[k1].0 <= self.spec_counts()[k2].0,
    {
    }

    /// Published `index` values rise strictly in emission order, until the
    /// index space of the counter is spent.
    pub proof fn lemma_published_indexes_increase(self, k1: int, k2: int)
        requires
            self.wf(),
            0 <= k1 < k2 < self.spec_published().len(),
        ensures
            self.spec_published()[k1] < self.spec_published()[k2] || self.spec_published()[k2]
                == u64::MAX,
    {
    }
}

} // verus!
