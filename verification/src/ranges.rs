//! Byte ranges and canonical sets of byte ranges.
//!
//! A [`ByteRange`] is a half-open interval `[start, end)` of byte offsets.
//! A [`ByteRanges`] is a canonical set of such intervals: sorted, disjoint,
//! with no empty and no adjacent (mergeable) members. The contracts speak
//! of the set of offsets a value covers, through `spec_contains`.

use vstd::prelude::*;

verus! {

/// A half-open range of byte offsets `[start, end)` with `start <= end`.
#[derive(Clone, Copy, Debug, PartialEq, Eq, Structural)]
pub struct ByteRange {
    pub start: u64,
    pub end: u64,
}

/// The ranges of a canonical sequence are nonempty, sorted and separated
/// by at least one byte, so that none could be merged into a neighbour.
pub open spec fn canonical(s: Seq<ByteRange>) -> bool {
    &&& forall|k: int| 0 <= k < s.len() ==> (#[trigger] s[k]).start < s[k].end
    &&& forall|k: int| 0 <= k < s.len() - 1 ==> (#[trigger] s[k]).end < s[k + 1].start
}

/// The offset `i` lies inside one of the ranges of `s`.
pub open spec fn seq_covers(s: Seq<ByteRange>, i: int) -> bool {
    exists|k: int| 0 <= k < s.len() && (#[trigger] s[k]).spec_contains(i)
}

/// Total number of bytes covered by the ranges of `s`.
pub open spec fn sum_bytes(s: Seq<ByteRange>) -> int
    decreases s.len(),
{
    if s.len() == 0 {
        0
    } else {
        sum_bytes(s.drop_last()) + s.last().spec_bytecount()
    }
}

/// In a canonical sequence, an earlier range ends strictly before a later
/// range starts.
pub proof fn lemma_canonical_ordered(s: Seq<ByteRange>, k1: int, k2: int)
    requires
        canonical(s),
        0 <= k1 < k2 < s.len(),
    ensures
        s[k1].end < s[k2].start,
    decreases k2 - k1,
{
    if k1 + 1 < k2 {
        lemma_canonical_ordered(s, k1 + 1, k2);
    }
}

/// The bytes of a canonical sequence all fit between the first start and
/// the last end, so the byte count is bounded by that span.
pub proof fn lemma_sum_le_span(s: Seq<ByteRange>)
    requires
        canonical(s),
        s.len() > 0,
    ensures
        sum_bytes(s) <= s.last().end - s[0].start,
    decreases s.len(),
{
    reveal_with_fuel(sum_bytes, 2);
    if s.len() > 1 {
        let t = s.drop_last();
        assert(forall|k: int| 0 <= k < t.len() ==> t[k] == s[k]);
        assert(canonical(t));
        lemma_sum_le_span(t);
        assert(t.last() == s[s.len() - 2]);
        assert(t[0] == s[0]);
        lemma_canonical_ordered(s, s.len() - 2, s.len() - 1);
        assert(sum_bytes(s) == sum_bytes(t) + s.last().spec_bytecount());
        assert(sum_bytes(t) <= s[s.len() - 2].end - s[0].start);
        assert(s[s.len() - 2].end < s.last().start);
    }
}

/// A canonical set whose offsets all lie under `bound` covers at most
/// `bound` bytes.
pub proof fn lemma_bytecount_within(r: ByteRanges, bound: u64)
    requires
        r.wf(),
        forall|i: int| r.spec_contains(i) ==> 0 <= i < bound,
    ensures
        0 <= r.spec_bytecount() <= bound,
{
    reveal_with_fuel(sum_bytes, 2);
    lemma_sum_nonneg(r.seq());
    if r.seq().len() > 0 {
        lemma_sum_le_span(r.seq());
        let last = r.seq()[r.seq().len() - 1];
        assert(r.spec_contains(last.end - 1)) by {
            assert(r.seq()[r.seq().len() - 1].spec_contains(last.end - 1));
        }
    }
}

/// Nonempty ranges only add bytes.
proof fn lemma_sum_nonneg(s: Seq<ByteRange>)
    requires
        canonical(s),
    ensures
        sum_bytes(s) >= 0,
    decreases s.len(),
{
    if s.len() > 0 {
        let t = s.drop_last();
        assert(forall|k: int| 0 <= k < t.len() ==> t[k] == s[k]);
        assert(canonical(t));
        lemma_sum_nonneg(t);
    }
}

impl ByteRange {
    /// True when the offset `i` lies inside the range.
    pub open spec fn spec_contains(self, i: int) -> bool {
        self.start <= i < self.end
    }

    /// A range is well formed when its bounds are ordered.
    pub open spec fn wf(self) -> bool {
        self.start <= self.end
    }

    /// Number of bytes covered by the range.
    pub open spec fn spec_bytecount(self) -> int {
        self.end - self.start
    }

    /// Build the range `[start, end)`.
    pub fn new(start: u64, end: u64) -> (r: ByteRange)
        requires
            start <= end,
        ensures
            r == (ByteRange { start, end }),
    {
        ByteRange { start, end }
    }

    /// Number of bytes covered by the range.
    pub fn bytecount(&self) -> (r: u64)
        requires
            self.wf(),
        ensures
            r == self.spec_bytecount(),
    {
        self.end - self.start
    }

    /// True when the range covers no byte.
    pub fn is_empty(&self) -> (r: bool)
        requires
            self.wf(),
        ensures
            r == (forall|i: int| !self.spec_contains(i)),
    {
        if self.start == self.end {
            true
        } else {
            assert(self.spec_contains(self.start as int));
            false
        }
    }

    /// Split the range front to back into pieces of `chunk` bytes, the
    /// last piece possibly shorter.
    pub fn chunked(&self, chunk: u64) -> (r: Vec<ByteRange>)
        requires
            self.wf(),
            chunk > 0,
        ensures
            r@ == chunk_seq(self.start, self.end, chunk),
    {
        let mut out: Vec<ByteRange> = Vec::new();
        let mut cur: u64 = self.start;
        while self.end - cur > chunk
            invariant
                self.wf(),
                chunk > 0,
                self.start <= cur <= self.end,
                chunk_seq(self.start, self.end, chunk) == out@ + chunk_seq(cur, self.end, chunk),
            decreases self.end - cur,
        {
            out.push(ByteRange { start: cur, end: cur + chunk });
            assert(out@ + chunk_seq((cur + chunk) as u64, self.end, chunk) =~= out@.drop_last()
                + chunk_seq(cur, self.end, chunk));
            cur = cur + chunk;
        }
        if cur < self.end {
            out.push(ByteRange { start: cur, end: self.end });
            assert(out@ =~= out@.drop_last() + chunk_seq(cur, self.end, chunk));
        } else {
            assert(out@ =~= out@ + chunk_seq(cur, self.end, chunk));
        }
        out
    }
}

/// The pieces of `[start, end)` cut front to back at every multiple of
/// `chunk` bytes.
pub open spec fn chunk_seq(start: u64, end: u64, chunk: u64) -> Seq<ByteRange>
    decreases end - start when chunk > 0
{
    if chunk == 0 || start >= end {
        Seq::empty()
    } else if end - start <= chunk {
        seq![ByteRange { start, end }]
    } else {
        seq![ByteRange { start, end: (start + chunk) as u64 }] + chunk_seq(
            (start + chunk) as u64,
            end,
            chunk,
        )
    }
}

/// The pieces of `chunk_seq` are nonempty, no larger than `chunk`, and
/// tile `[start, end)` exactly, back to back and in order.
pub proof fn lemma_chunk_seq_shape(start: u64, end: u64, chunk: u64)
    requires
        start <= end,
        chunk > 0,
    ensures
        forall|k: int|
            0 <= k < chunk_seq(start, end, chunk).len() ==> {
                let c = #[trigger] chunk_seq(start, end, chunk)[k];
                c.start < c.end && c.end - c.start <= chunk
            },
        forall|k: int|
            0 <= k < chunk_seq(start, end, chunk).len() - 1 ==> (#[trigger] chunk_seq(
                start,
                end,
                chunk,
            )[k]).end == chunk_seq(start, end, chunk)[k + 1].start,
        chunk_seq(start, end, chunk).len() > 0 ==> chunk_seq(start, end, chunk)[0].start == start
            && chunk_seq(start, end, chunk).last().end == end,
        chunk_seq(start, end, chunk).len() == 0 <==> start == end,
    decreases end - start,
{
    let cs = chunk_seq(start, end, chunk);
    if start < end && end - start > chunk {
        let mid = (start + chunk) as u64;
        lemma_chunk_seq_shape(mid, end, chunk);
        let rest = chunk_seq(mid, end, chunk);
        let head = seq![ByteRange { start, end: mid }];
        assert(cs == head + rest);
        assert forall|k: int| 0 <= k < rest.len() implies cs[k + 1] == rest[k] by {
            assert((head + rest)[k + 1] == rest[k]);
        }
        assert(cs.last() == rest.last());
    }
}

/// `chunk_seq` covers exactly the offsets of `[start, end)`.
pub proof fn lemma_chunk_seq_covers(start: u64, end: u64, chunk: u64)
    requires
        start <= end,
        chunk > 0,
    ensures
        forall|i: int| seq_covers(chunk_seq(start, end, chunk), i) <==> start <= i < end,
    decreases end - start,
{
    let cs = chunk_seq(start, end, chunk);
    if start == end {
        assert(forall|i: int| !seq_covers(cs, i)) by {
            assert(cs.len() == 0);
        }
    } else if end - start <= chunk {
        assert forall|i: int| start <= i < end implies seq_covers(cs, i) by {
            assert(cs[0].spec_contains(i));
        }
    } else {
        let mid = (start + chunk) as u64;
        lemma_chunk_seq_covers(mid, end, chunk);
        let rest = chunk_seq(mid, end, chunk);
        let head = seq![ByteRange { start, end: mid }];
        assert(cs == head + rest);
        assert forall|i: int| start <= i < end implies seq_covers(cs, i) by {
            if i < mid {
                assert(cs[0] == (head + rest)[0]);
                assert(cs[0].spec_contains(i));
            } else {
                assert(seq_covers(rest, i));
                let k = choose|k: int| 0 <= k < rest.len() && (#[trigger] rest[k]).spec_contains(
                    i,
                );
                assert((head + rest)[k + 1] == rest[k]);
                assert(cs[k + 1].spec_contains(i));
            }
        }
        assert forall|i: int| seq_covers(cs, i) implies start <= i < end by {
            let k = choose|k: int| 0 <= k < cs.len() && (#[trigger] cs[k]).spec_contains(i);
            if k > 0 {
                assert((head + rest)[k] == rest[k - 1]);
                assert(seq_covers(rest, i)) by {
                    assert(rest[k - 1].spec_contains(i));
                }
            } else {
                assert(cs[0] == (head + rest)[0]);
            }
        }
    }
}

/// Appending one range extends the covered offsets by exactly that range.
pub proof fn lemma_covers_push(s: Seq<ByteRange>, x: ByteRange, i: int)
    ensures
        seq_covers(s.push(x), i) <==> (seq_covers(s, i) || x.spec_contains(i)),
{
    let p = s.push(x);
    if seq_covers(p, i) {
        let k = choose|k: int| 0 <= k < p.len() && (#[trigger] p[k]).spec_contains(i);
        if k < s.len() {
            assert(s[k] == p[k]);
            assert(seq_covers(s, i));
        } else {
            assert(p[k] == x);
        }
    }
    if seq_covers(s, i) {
        let k = choose|k: int| 0 <= k < s.len() && (#[trigger] s[k]).spec_contains(i);
        assert(p[k] == s[k]);
        assert(seq_covers(p, i));
    }
    if x.spec_contains(i) {
        assert(p[s.len() as int] == x);
        assert(seq_covers(p, i));
    }
}

/// Concatenation covers an offset exactly when one of the parts does.
pub proof fn lemma_covers_concat(a: Seq<ByteRange>, b: Seq<ByteRange>, i: int)
    ensures
        seq_covers(a + b, i) <==> (seq_covers(a, i) || seq_covers(b, i)),
{
    let c = a + b;
    if seq_covers(c, i) {
        let k = choose|k: int| 0 <= k < c.len() && (#[trigger] c[k]).spec_contains(i);
        if k < a.len() {
            assert(a[k] == c[k]);
            assert(seq_covers(a, i));
        } else {
            assert(b[k - a.len()] == c[k]);
            assert(seq_covers(b, i));
        }
    }
    if seq_covers(a, i) {
        let k = choose|k: int| 0 <= k < a.len() && (#[trigger] a[k]).spec_contains(i);
        assert(c[k] == a[k]);
        assert(seq_covers(c, i));
    }
    if seq_covers(b, i) {
        let k = choose|k: int| 0 <= k < b.len() && (#[trigger] b[k]).spec_contains(i);
        assert(c[k + a.len()] == b[k]);
        assert(seq_covers(c, i));
    }
}

/// A prefix one longer covers what the shorter prefix covers, plus the
/// next range.
pub proof fn lemma_covers_take_step(s: Seq<ByteRange>, j: int, i: int)
    requires
        0 <= j < s.len(),
    ensures
        seq_covers(s.take(j + 1), i) <==> (seq_covers(s.take(j), i) || s[j].spec_contains(i)),
{
    assert(s.take(j + 1) =~= s.take(j).push(s[j]));
    lemma_covers_push(s.take(j), s[j], i);
}

/// Pushing a nonempty range past the end of a canonical sequence keeps it
/// canonical.
pub proof fn lemma_canonical_push(s: Seq<ByteRange>, x: ByteRange)
    requires
        canonical(s),
        x.start < x.end,
        s.len() > 0 ==> s.last().end < x.start,
    ensures
        canonical(s.push(x)),
{
    let p = s.push(x);
    assert(forall|k: int| 0 <= k < s.len() ==> p[k] == s[k]);
    assert(p[p.len() - 1] == x);
}

/// A canonical set of byte ranges: sorted, disjoint, nothing mergeable.
#[derive(Clone, Debug, PartialEq, Eq)]
pub struct ByteRanges {
    ranges: Vec<ByteRange>,
}

impl ByteRanges {
    /// The ranges of the set, in ascending order.
    pub closed spec fn seq(self) -> Seq<ByteRange> {
        self.ranges@
    }

    /// The set is well formed when its range sequence is canonical.
    pub open spec fn wf(self) -> bool {
        canonical(self.seq())
    }

    /// True when the offset `i` lies inside one of the set's ranges.
    pub open spec fn spec_contains(self, i: int) -> bool {
        seq_covers(self.seq(), i)
    }

    /// Total number of bytes covered by the set.
    pub open spec fn spec_bytecount(self) -> int {
        sum_bytes(self.seq())
    }

    /// The empty set of ranges.
    pub fn new() -> (r: ByteRanges)
        ensures
            r.wf(),
            forall|i: int| !r.spec_contains(i),
            r.seq().len() == 0,
    {
        ByteRanges { ranges: Vec::new() }
    }

    /// The set holding exactly `[start, end)`; empty when `start == end`.
    pub fn single(start: u64, end: u64) -> (r: ByteRanges)
        requires
            start <= end,
        ensures
            r.wf(),
            forall|i: int| r.spec_contains(i) <==> start <= i < end,
    {
        let mut ranges: Vec<ByteRange> = Vec::new();
        if start < end {
            ranges.push(ByteRange { start, end });
            let r = ByteRanges { ranges };
            assert forall|i: int| start <= i < end implies r.spec_contains(i) by {
                assert(r.seq()[0].spec_contains(i));
            }
            r
        } else {
            ByteRanges { ranges }
        }
    }

    /// True when the set covers no byte.
    pub fn is_empty(&self) -> (r: bool)
        requires
            self.wf(),
        ensures
            r == (forall|i: int| !self.spec_contains(i)),
    {
        if self.ranges.len() == 0 {
            true
        } else {
            assert(self.spec_contains(self.seq()[0].start as int)) by {
                assert(self.seq()[0].spec_contains(self.seq()[0].start as int));
            }
            false
        }
    }

    /// The ranges of the set, ascending, as a plain vector.
    pub fn to_vec(&self) -> (r: Vec<ByteRange>)
        ensures
            r@ == self.seq(),
    {
        self.ranges.clone()
    }

    /// A copy covering the same offsets.
    pub fn duplicate(&self) -> (r: ByteRanges)
        ensures
            r.seq() == self.seq(),
    {
        ByteRanges { ranges: self.ranges.clone() }
    }

    /// Total number of bytes covered by the set.
    pub fn bytecount(&self) -> (r: u64)
        requires
            self.wf(),
        ensures
            r == self.spec_bytecount(),
    {
        let mut acc: u64 = 0;
        let mut idx: usize = 0;
        while idx < self.ranges.len()
            invariant
                self.wf(),
                idx <= self.ranges.len(),
                acc == sum_bytes(self.seq().take(idx as int)),
                idx > 0 ==> acc <= self.seq()[idx - 1].end,
            decreases self.ranges.len() - idx,
        {
            let r = self.ranges[idx];
            proof {
                if idx > 0 {
                    lemma_canonical_ordered(self.seq(), idx - 1, idx as int);
                }
                assert(self.seq().take(idx + 1).drop_last() =~= self.seq().take(idx as int));
                assert(self.seq().take(idx + 1).last() == self.seq()[idx as int]);
            }
            acc = acc + (r.end - r.start);
            proof {
                let t = self.seq().take(idx + 1);
                assert(canonical(t)) by {
                    assert(forall|k: int| 0 <= k < t.len() ==> t[k] == self.seq()[k]);
                }
                lemma_sum_le_span(t);
            }
            idx = idx + 1;
        }
        proof {
            assert(self.seq().take(self.ranges@.len() as int) =~= self.seq());
        }
        acc
    }

    /// The set of offsets of `self` that lie outside `b`.
    #[verifier::rlimit(50)]
    fn subtract_range(&self, b: &ByteRange) -> (r: ByteRanges)
        requires
            self.wf(),
            b.wf(),
        ensures
            r.wf(),
            forall|i: int|
                r.spec_contains(i) <==> (self.spec_contains(i) && !b.spec_contains(i)),
    {
        if b.start == b.end {
            let r = ByteRanges { ranges: self.ranges.clone() };
            assert(forall|i: int| !b.spec_contains(i));
            return r;
        }
        let mut out: Vec<ByteRange> = Vec::new();
        let mut idx: usize = 0;
        while idx < self.ranges.len()
            invariant
                self.wf(),
                b.start < b.end,
                idx <= self.ranges.len(),
                canonical(out@),
                out@.len() > 0 ==> idx > 0 && out@.last().end <= self.seq()[idx - 1].end,
                forall|i: int|
                    #![trigger seq_covers(out@, i)]
                    #![trigger seq_covers(self.seq().take(idx as int), i)]
                    seq_covers(out@, i) <==> (seq_covers(self.seq().take(idx as int), i)
                        && !b.spec_contains(i)),
            decreases self.ranges.len() - idx,
        {
            let ghost prev = out@;
            let a = self.ranges[idx];
            proof {
                if prev.len() > 0 {
                    lemma_canonical_ordered(self.seq(), idx - 1, idx as int);
                }
            }
            let left_end = if a.end < b.start {
                a.end
            } else {
                b.start
            };
            let left = ByteRange { start: a.start, end: left_end };
            if a.start < left_end {
                proof {
                    lemma_canonical_push(prev, left);
                }
                out.push(left);
            }
            let ghost mid = out@;
            let right_start = if a.start > b.end {
                a.start
            } else {
                b.end
            };
            let right = ByteRange { start: right_start, end: a.end };
            if right_start < a.end {
                proof {
                    lemma_canonical_push(mid, right);
                }
                out.push(right);
            }
            let ghost prev_idx = idx as int;
            idx = idx + 1;
            proof {
                assert forall|i: int|
                    #![trigger seq_covers(out@, i)]
                    #![trigger seq_covers(self.seq().take(idx as int), i)]
                    seq_covers(out@, i) <==> (seq_covers(self.seq().take(idx as int), i)
                        && !b.spec_contains(i)) by {
                    lemma_covers_take_step(self.seq(), prev_idx, i);
                    if mid.len() > prev.len() {
                        lemma_covers_push(prev, left, i);
                    } else {
                        assert(mid == prev);
                    }
                    if out@.len() > mid.len() {
                        lemma_covers_push(mid, right, i);
                    } else {
                        assert(out@ == mid);
                    }
                    assert(seq_covers(prev, i) <==> (seq_covers(self.seq().take(prev_idx), i)
                        && !b.spec_contains(i)));
                    if a.spec_contains(i) && !b.spec_contains(i) {
                        if i < b.start {
                            assert(left.spec_contains(i) && a.start < left_end);
                        } else {
                            assert(right.spec_contains(i) && right_start < a.end);
                        }
                    }
                }
            }
        }
        proof {
            assert(self.seq().take(self.ranges@.len() as int) =~= self.seq());
        }
        ByteRanges { ranges: out }
    }

    /// The set of offsets of `self` that lie outside `other`.
    #[verifier::rlimit(50)]
    pub fn subtraction(&self, other: &ByteRanges) -> (r: ByteRanges)
        requires
            self.wf(),
            other.wf(),
        ensures
            r.wf(),
            forall|i: int|
                r.spec_contains(i) <==> (self.spec_contains(i) && !other.spec_contains(i)),
    {
        let mut cur = ByteRanges { ranges: self.ranges.clone() };
        let mut j: usize = 0;
        while j < other.ranges.len()
            invariant
                self.wf(),
                other.wf(),
                cur.wf(),
                j <= other.ranges.len(),
                forall|i: int|
                    #![trigger cur.spec_contains(i)]
                    #![trigger seq_covers(other.seq().take(j as int), i)]
                    cur.spec_contains(i) <==> (self.spec_contains(i) && !seq_covers(
                        other.seq().take(j as int),
                        i,
                    )),
            decreases other.ranges.len() - j,
        {
            let b = other.ranges[j];
            let ghost prev_j = j as int;
            let ghost prev = cur;
            cur = cur.subtract_range(&b);
            j = j + 1;
            proof {
                assert forall|i: int|
                    #![trigger cur.spec_contains(i)]
                    #![trigger seq_covers(other.seq().take(j as int), i)]
                    cur.spec_contains(i) <==> (self.spec_contains(i) && !seq_covers(
                        other.seq().take(j as int),
                        i,
                    )) by {
                    lemma_covers_take_step(other.seq(), prev_j, i);
                    assert(cur.spec_contains(i) <==> (prev.spec_contains(i) && !b.spec_contains(
                        i,
                    )));
                    assert(prev.spec_contains(i) <==> (self.spec_contains(i) && !seq_covers(
                        other.seq().take(prev_j),
                        i,
                    )));
                }
            }
        }
        proof {
            assert(other.seq().take(other.ranges@.len() as int) =~= other.seq());
        }
        cur
    }

    /// Add the offsets of `r` to the set, merging with whatever it meets.
    #[verifier::rlimit(100)]
    pub fn add(&mut self, r: &ByteRange)
        requires
            old(self).wf(),
            r.wf(),
        ensures
            final(self).wf(),
            forall|i: int|
                #![trigger final(self).spec_contains(i)]
                #![trigger old(self).spec_contains(i)]
                final(self).spec_contains(i) <==> (old(self).spec_contains(i)
                    || r.spec_contains(i)),
    {
        if r.start == r.end {
            assert(forall|i: int| !r.spec_contains(i));
            return ;
        }
        let ghost s = self.seq();
        let mut out: Vec<ByteRange> = Vec::new();
        let mut idx: usize = 0;
        // Ranges that end strictly before the new range begins stay as they are.
        while idx < self.ranges.len() && self.ranges[idx].end < r.start
            invariant
                self.wf(),
                s == self.seq(),
                r.start < r.end,
                idx <= self.ranges.len(),
                out@ == s.take(idx as int),
                forall|k: int| 0 <= k < idx ==> (#[trigger] s[k]).end < r.start,
            decreases self.ranges.len() - idx,
        {
            out.push(self.ranges[idx]);
            assert(out@ =~= s.take(idx + 1));
            idx = idx + 1;
        }
        let ghost idx_a = idx as int;
        // Merge the new range with every range it overlaps or touches.
        let mut new_start: u64 = r.start;
        let mut new_end: u64 = r.end;
        while idx < self.ranges.len() && self.ranges[idx].start <= new_end
            invariant
                self.wf(),
                s == self.seq(),
                r.start < r.end,
                0 <= idx_a <= idx <= self.ranges.len(),
                out@ == s.take(idx_a),
                forall|k: int| 0 <= k < idx_a ==> (#[trigger] s[k]).end < r.start,
                idx_a < s.len() ==> s[idx_a].end >= r.start,
                idx_a > 0 ==> s[idx_a - 1].end < new_start,
                new_start <= r.start,
                r.end <= new_end,
                new_start <= new_end,
                forall|k: int|
                    idx_a <= k < idx ==> new_start <= (#[trigger] s[k]).start && s[k].end
                        <= new_end,
                forall|i: int|
                    new_start <= i < new_end ==> r.spec_contains(i) || seq_covers(
                        s.subrange(idx_a, idx as int),
                        i,
                    ),
            decreases self.ranges.len() - idx,
        {
            let a = self.ranges[idx];
            let ghost old_start = new_start;
            let ghost old_end = new_end;
            proof {
                if idx_a < idx {
                    lemma_canonical_ordered(s, idx_a, idx as int);
                }
                if idx_a > 0 {
                    lemma_canonical_ordered(s, idx_a - 1, idx as int);
                }
            }
            if a.start < new_start {
                new_start = a.start;
            }
            if a.end > new_end {
                new_end = a.end;
            }
            proof {
                assert(a.end >= r.start);
                assert forall|i: int|
                    new_start <= i < new_end implies r.spec_contains(i) || seq_covers(
                    s.subrange(idx_a, idx + 1),
                    i,
                ) by {
                    assert(s.subrange(idx_a, idx + 1) =~= s.subrange(idx_a, idx as int).push(
                        s[idx as int],
                    ));
                    lemma_covers_push(s.subrange(idx_a, idx as int), s[idx as int], i);
                    if old_start <= i < old_end {
                    } else if i < old_start {
                        assert(a.start <= i && i < r.start <= a.end);
                        assert(a.spec_contains(i));
                    } else {
                        assert(a.start <= old_end <= i < a.end);
                        assert(a.spec_contains(i));
                    }
                }
            }
            idx = idx + 1;
        }
        let ghost idx_b = idx as int;
        proof {
            if out@.len() > 0 {
                assert(out@.last() == s[idx_a - 1]);
            }
            lemma_canonical_push(out@, ByteRange { start: new_start, end: new_end });
        }
        out.push(ByteRange { start: new_start, end: new_end });
        let ghost merged = out@;
        proof {
            assert(out@ =~= merged + s.subrange(idx_b, idx_b));
        }
        // Ranges past the merged interval stay as they are.
        while idx < self.ranges.len()
            invariant
                self.wf(),
                s == self.seq(),
                0 <= idx_a < merged.len(),
                idx_a + 1 == merged.len(),
                idx_a <= idx_b <= idx <= self.ranges.len(),
                merged.last() == (ByteRange { start: new_start, end: new_end }),
                new_start < new_end,
                canonical(merged),
                out@ == merged + s.subrange(idx_b, idx as int),
                idx_b < s.len() ==> new_end < s[idx_b].start,
                canonical(out@),
                out@.len() > 0,
                out@.last().end <= if idx == idx_b {
                    new_end as int
                } else {
                    s[idx - 1].end as int
                },
            decreases self.ranges.len() - idx,
        {
            proof {
                if idx > idx_b {
                    lemma_canonical_ordered(s, idx - 1, idx as int);
                }
                lemma_canonical_push(out@, s[idx as int]);
            }
            out.push(self.ranges[idx]);
            proof {
                assert(out@ =~= merged + s.subrange(idx_b, idx + 1));
                assert(out@.last() == s[idx as int]);
            }
            idx = idx + 1;
        }
        proof {
            // Every offset of the result was in the old set or in `r`, and
            // the other way round.
            let fin = merged + s.subrange(idx_b, s.len() as int);
            assert(out@ == fin);
            lemma_add_coverage(s, idx_a, idx_b, new_start, new_end, *r, merged, fin);
        }
        self.ranges = out;
    }
}

/// The merged form covers exactly the old offsets and the added range.
#[verifier::rlimit(100)]
proof fn lemma_add_coverage(
    s: Seq<ByteRange>,
    idx_a: int,
    idx_b: int,
    new_start: u64,
    new_end: u64,
    r: ByteRange,
    merged: Seq<ByteRange>,
    fin: Seq<ByteRange>,
)
    requires
        canonical(s),
        0 <= idx_a <= idx_b <= s.len(),
        forall|k: int| 0 <= k < idx_a ==> (#[trigger] s[k]).end < r.start,
        r.start < r.end,
        new_start <= r.start,
        r.end <= new_end,
        forall|k: int|
            idx_a <= k < idx_b ==> new_start <= (#[trigger] s[k]).start && s[k].end <= new_end,
        forall|i: int|
            new_start <= i < new_end ==> r.spec_contains(i) || seq_covers(
                s.subrange(idx_a, idx_b),
                i,
            ),
        merged == s.take(idx_a).push(ByteRange { start: new_start, end: new_end }),
        fin == merged + s.subrange(idx_b, s.len() as int),
    ensures
        forall|i: int| seq_covers(fin, i) <==> (seq_covers(s, i) || r.spec_contains(i)),
{
    assert forall|i: int| seq_covers(fin, i) <==> (seq_covers(s, i) || r.spec_contains(i)) by {
                lemma_covers_concat(merged, s.subrange(idx_b, s.len() as int), i);
                assert(merged =~= s.take(idx_a).push(ByteRange { start: new_start, end: new_end }));
                lemma_covers_push(s.take(idx_a), ByteRange { start: new_start, end: new_end }, i);
                if seq_covers(s, i) {
                    let k = choose|k: int| 0 <= k < s.len() && (#[trigger] s[k]).spec_contains(i);
                    if k < idx_a {
                        assert(s.take(idx_a)[k] == s[k]);
                        assert(seq_covers(s.take(idx_a), i));
                    } else if k < idx_b {
                        assert(new_start <= s[k].start && s[k].end <= new_end);
                    } else {
                        assert(s.subrange(idx_b, s.len() as int)[k - idx_b] == s[k]);
                        assert(seq_covers(s.subrange(idx_b, s.len() as int), i));
                    }
                }
                if seq_covers(s.take(idx_a), i) {
                    let k = choose|k: int|
                        0 <= k < s.take(idx_a).len() && (#[trigger] s.take(idx_a)[k]).spec_contains(
                            i,
                        );
                    assert(s[k].spec_contains(i));
                    assert(seq_covers(s, i));
                }
                if seq_covers(s.subrange(idx_b, s.len() as int), i) {
                    let k = choose|k: int|
                        0 <= k < s.subrange(idx_b, s.len() as int).len() && (#[trigger] s.subrange(
                            idx_b,
                            s.len() as int,
                        )[k]).spec_contains(i);
                    assert(s[k + idx_b].spec_contains(i));
                    assert(seq_covers(s, i));
                }
                if new_start <= i < new_end {
                    if r.spec_contains(i) {
                    } else {
                        assert(seq_covers(s.subrange(idx_a, idx_b), i));
                        let k = choose|k: int|
                            0 <= k < s.subrange(idx_a, idx_b).len() && (#[trigger] s.subrange(
                                idx_a,
                                idx_b,
                            )[k]).spec_contains(i);
                        assert(s[k + idx_a].spec_contains(i));
                        assert(seq_covers(s, i));
                    }
                }
    }
}

impl ByteRanges {
    /// Cut every range of the set into pieces of at most `chunk` bytes,
    /// in ascending order.
    pub fn chunked(&self, chunk: u64) -> (r: Vec<ByteRange>)
        requires
            self.wf(),
            chunk > 0,
        ensures
            forall|k: int|
                0 <= k < r@.len() ==> (#[trigger] r@[k]).start < r@[k].end && r@[k].end - r@[k].start
                    <= chunk,
            forall|k: int| 0 <= k < r@.len() - 1 ==> (#[trigger] r@[k]).end <= r@[k + 1].start,
            forall|i: int| seq_covers(r@, i) <==> self.spec_contains(i),
    {
        let mut out: Vec<ByteRange> = Vec::new();
        let mut idx: usize = 0;
        while idx < self.ranges.len()
            invariant
                self.wf(),
                chunk > 0,
                idx <= self.ranges.len(),
                forall|k: int|
                    0 <= k < out@.len() ==> (#[trigger] out@[k]).start < out@[k].end && out@[k].end
                        - out@[k].start <= chunk,
                forall|k: int|
                    0 <= k < out@.len() - 1 ==> (#[trigger] out@[k]).end <= out@[k + 1].start,
                out@.len() > 0 ==> idx > 0 && out@.last().end <= self.seq()[idx - 1].end,
                forall|i: int|
                    seq_covers(out@, i) <==> seq_covers(self.seq().take(idx as int), i),
            decreases self.ranges.len() - idx,
        {
            let a = self.ranges[idx];
            let mut pieces = a.chunked(chunk);
            let ghost prev = out@;
            let ghost ps = pieces@;
            proof {
                lemma_chunk_seq_shape(a.start, a.end, chunk);
                if prev.len() > 0 {
                    lemma_canonical_ordered(self.seq(), idx - 1, idx as int);
                }
            }
            out.append(&mut pieces);
            proof {
                assert(out@ == prev + ps);
                assert forall|k: int|
                    0 <= k < out@.len() implies (#[trigger] out@[k]).start < out@[k].end
                    && out@[k].end - out@[k].start <= chunk by {
                    if k < prev.len() {
                        assert(out@[k] == prev[k]);
                    } else {
                        assert(out@[k] == ps[k - prev.len()]);
                    }
                }
                assert forall|k: int|
                    0 <= k < out@.len() - 1 implies (#[trigger] out@[k]).end <= out@[k + 1].start by {
                    if k + 1 < prev.len() {
                        assert(out@[k] == prev[k] && out@[k + 1] == prev[k + 1]);
                    } else if k + 1 == prev.len() {
                        assert(out@[k] == prev[k] && out@[k + 1] == ps[0]);
                        assert(ps[0].start == a.start);
                    } else {
                        assert(out@[k] == ps[k - prev.len()] && out@[k + 1] == ps[k + 1
                            - prev.len()]);
                    }
                }
                assert forall|i: int|
                    seq_covers(out@, i) <==> seq_covers(self.seq().take(idx + 1), i) by {
                    lemma_covers_concat(prev, ps, i);
                    lemma_covers_take_step(self.seq(), idx as int, i);
                    lemma_chunk_seq_covers(a.start, a.end, chunk);
                }
                if out@.len() > 0 {
                    if ps.len() > 0 {
                        assert(out@.last() == ps.last());
                    } else {
                        assert(a.start == a.end);
                        assert(out@.last() == prev.last());
                        if prev.len() > 0 {
                            lemma_canonical_ordered(self.seq(), idx - 1, idx as int);
                        }
                    }
                }
            }
            idx = idx + 1;
        }
        proof {
            assert(self.seq().take(self.ranges@.len() as int) =~= self.seq());
        }
        out
    }
}

} // verus!
