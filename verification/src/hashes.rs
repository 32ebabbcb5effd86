//! An ordered mapping from byte ranges to content digests, covering a
//! prefix of a file, with completeness and difference checks.

use vstd::prelude::*;

use crate::ranges::ByteRange;
use crate::ranges::ByteRanges;
use crate::ranges::lemma_covers_take_step;

verus! {

/// One entry: a byte range and the digest of its content.
pub type HashEntry = (ByteRange, crate::types::Hash);

/// The offset `i` lies inside the range of one of the entries.
pub open spec fn entries_cover(s: Seq<HashEntry>, i: int) -> bool {
    exists|k: int| 0 <= k < s.len() && (#[trigger] s[k]).0.spec_contains(i)
}

/// The offset `i` lies inside a range that both sequences map to the same
/// digest.
pub open spec fn entries_match(a: Seq<HashEntry>, b: Seq<HashEntry>, i: int) -> bool {
    exists|k1: int, k2: int|
        0 <= k1 < a.len() && 0 <= k2 < b.len() && (#[trigger] a[k1]).0 == (#[trigger] b[k2]).0
            && a[k1].1 == b[k2].1 && a[k1].0.spec_contains(i)
}

/// An ordered mapping from disjoint byte ranges to digests.
#[derive(Clone, Debug, PartialEq, Eq)]
pub struct RangedHash {
    entries: Vec<HashEntry>,
}

impl RangedHash {
    /// The entries, ascending by range start.
    pub closed spec fn entries(self) -> Seq<HashEntry> {
        self.entries@
    }

    /// Entries hold nonempty ranges, sorted and disjoint; adjacent ranges
    /// are allowed.
    pub open spec fn wf(self) -> bool {
        &&& forall|k: int|
            0 <= k < self.entries().len() ==> (#[trigger] self.entries()[k]).0.start
                < self.entries()[k].0.end
        &&& forall|k: int|
            0 <= k < self.entries().len() - 1 ==> (#[trigger] self.entries()[k]).0.end
                <= self.entries()[k + 1].0.start
    }

    /// The offset `i` lies inside one of the mapped ranges.
    pub open spec fn spec_covers(self, i: int) -> bool {
        entries_cover(self.entries(), i)
    }

    /// The ranges tile `[0, size)` exactly and no digest is the
    /// distinguished zero value, which a peer reports for a range past the
    /// end of its file.
    pub open spec fn spec_is_complete(self, size: u64) -> bool {
        let s = self.entries();
        &&& (s.len() == 0 ==> size == 0)
        &&& (s.len() > 0 ==> s[0].0.start == 0 && s[s.len() - 1].0.end == size)
        &&& forall|k: int| 0 <= k < s.len() - 1 ==> (#[trigger] s[k]).0.end == s[k + 1].0.start
        &&& forall|k: int| 0 <= k < s.len() ==> (#[trigger] s[k]).1 != crate::types::Hash::spec_zero()
    }

    /// The empty mapping.
    pub fn new() -> (r: RangedHash)
        ensures
            r.wf(),
            r.entries().len() == 0,
    {
        RangedHash { entries: Vec::new() }
    }

    /// The mapping holding exactly one range and its digest.
    pub fn single(range: ByteRange, hash: crate::types::Hash) -> (r: RangedHash)
        requires
            range.start < range.end,
        ensures
            r.wf(),
            r.entries() =~= seq![(range, hash)],
    {
        let mut entries: Vec<HashEntry> = Vec::new();
        entries.push((range, hash));
        RangedHash { entries }
    }

    /// Record the digest of a range that overlaps no recorded range. The
    /// returned ghost index is where the entry was put.
    pub fn add(&mut self, range: ByteRange, hash: crate::types::Hash) -> (pos: Ghost<int>)
        requires
            old(self).wf(),
            range.start < range.end,
            forall|k: int|
                0 <= k < old(self).entries().len() ==> (range.end <= (#[trigger] old(
                    self,
                ).entries()[k]).0.start || old(self).entries()[k].0.end <= range.start),
        ensures
            final(self).wf(),
            0 <= pos@ <= old(self).entries().len(),
            final(self).entries() == old(self).entries().insert(pos@, (range, hash)),
            forall|i: int|
                #[trigger] final(self).spec_covers(i) <==> (old(self).spec_covers(i)
                    || range.spec_contains(i)),
    {
        let ghost s = self.entries@;
        let mut k: usize = 0;
        while k < self.entries.len() && self.entries[k].0.start < range.start
            invariant
                s == self.entries@,
                k <= s.len(),
                forall|j: int| 0 <= j < k ==> (#[trigger] s[j]).0.start < range.start,
            decreases self.entries.len() - k,
        {
            k = k + 1;
        }
        self.entries.insert(k, (range, hash));
        proof {
            let t = self.entries@;
            assert(t == s.insert(k as int, (range, hash)));
            assert(forall|j: int| 0 <= j < k ==> t[j] == s[j]);
            assert(t[k as int] == (range, hash));
            assert(forall|j: int| k < j < t.len() ==> t[j] == s[j - 1]);
            assert forall|j: int| 0 <= j < t.len() - 1 implies (#[trigger] t[j]).0.end <= t[j
                + 1].0.start by {
                if j + 1 == k {
                    assert(t[j] == s[j]);
                    assert(s[j].0.start < range.start);
                    assert(range.end <= (#[trigger] old(self).entries()[j]).0.start || old(
                        self,
                    ).entries()[j].0.end <= range.start);
                    assert(s[j].0.end <= range.start || range.end <= s[j].0.start);
                } else if j == k {
                    assert(t[j + 1] == s[j]);
                    assert(s[j].0.start >= range.start);
                    assert(range.end <= (#[trigger] old(self).entries()[j]).0.start || old(
                        self,
                    ).entries()[j].0.end <= range.start);
                    assert(s[j].0.end <= range.start || range.end <= s[j].0.start);
                }
            }
            assert forall|i: int|
                #[trigger] self.spec_covers(i) <==> (old(self).spec_covers(i)
                    || range.spec_contains(i)) by {
                if old(self).spec_covers(i) {
                    let j = choose|j: int|
                        0 <= j < s.len() && (#[trigger] s[j]).0.spec_contains(i);
                    if j < k {
                        assert(t[j].0.spec_contains(i));
                    } else {
                        assert(t[j + 1].0.spec_contains(i));
                    }
                }
                if range.spec_contains(i) {
                    assert(t[k as int].0.spec_contains(i));
                }
                if self.spec_covers(i) {
                    let j = choose|j: int|
                        0 <= j < t.len() && (#[trigger] t[j]).0.spec_contains(i);
                    if j < k {
                        assert(s[j].0.spec_contains(i));
                    } else if j > k {
                        assert(s[j - 1].0.spec_contains(i));
                    }
                }
            }
        }
        Ghost(k as int)
    }

    /// True when the ranges tile `[0, size)` and no digest is zero.
    pub fn is_complete(&self, size: u64) -> (r: bool)
        requires
            self.wf(),
        ensures
            r == self.spec_is_complete(size),
    {
        let n = self.entries.len();
        if n == 0 {
            return size == 0;
        }
        if self.entries[0].0.start != 0 {
            return false;
        }
        if self.entries[n - 1].0.end != size {
            return false;
        }
        let mut k: usize = 0;
        while k < n
            invariant
                n == self.entries@.len(),
                k <= n,
                forall|j: int|
                    0 <= j < k && j < n - 1 ==> (#[trigger] self.entries@[j]).0.end
                        == self.entries@[j + 1].0.start,
                forall|j: int|
                    0 <= j < k ==> (#[trigger] self.entries@[j]).1
                        != crate::types::Hash::spec_zero(),
            decreases n - k,
        {
            if k + 1 < n && self.entries[k].0.end != self.entries[k + 1].0.start {
                return false;
            }
            if self.entries[k].1.is_zero() {
                return false;
            }
            k = k + 1;
        }
        true
    }

    /// Split the covered offsets by agreement with `other`: first the
    /// offsets of ranges both sides map to the same digest, then every
    /// other offset either side covers.
    ///
    /// The split is symmetric in its matches: `a` and `b` swapped give the
    /// same matching set, and the mismatching set is exactly what either
    /// side covers less the matches.
    #[verifier::rlimit(100)]
    pub fn diff(&self, other: &RangedHash) -> (r: (ByteRanges, ByteRanges))
        requires
            self.wf(),
            other.wf(),
        ensures
            r.0.wf(),
            r.1.wf(),
            forall|i: int|
                #[trigger] r.0.spec_contains(i) <==> entries_match(
                    self.entries(),
                    other.entries(),
                    i,
                ),
            forall|i: int|
                #[trigger] r.1.spec_contains(i) <==> ((self.spec_covers(i) || other.spec_covers(
                    i,
                )) && !entries_match(self.entries(), other.entries(), i)),
    {
        let ghost a = self.entries@;
        let ghost b = other.entries@;
        proof {
            assert forall|j: int| 0 <= j < a.len() implies (#[trigger] a[j]).0.start
                < a[j].0.end by {
                assert((#[trigger] self.entries()[j]).0.start < self.entries()[j].0.end);
            }
            assert forall|j: int| 0 <= j < b.len() implies (#[trigger] b[j]).0.start
                < b[j].0.end by {
                assert((#[trigger] other.entries()[j]).0.start < other.entries()[j].0.end);
            }
            assert forall|j: int| 0 <= j < b.len() - 1 implies (#[trigger] b[j]).0.end <= b[j
                + 1].0.start by {
                assert((#[trigger] other.entries()[j]).0.end <= other.entries()[j + 1].0.start);
            }
        }
        let mut matches = ByteRanges::new();
        let mut covered = ByteRanges::new();
        let mut k: usize = 0;
        while k < self.entries.len()
            invariant
                self.wf(),
                other.wf(),
                a == self.entries@,
                b == other.entries@,
                forall|j: int| 0 <= j < a.len() ==> (#[trigger] a[j]).0.start < a[j].0.end,
                forall|j: int| 0 <= j < b.len() ==> (#[trigger] b[j]).0.start < b[j].0.end,
                forall|j: int| 0 <= j < b.len() - 1 ==> (#[trigger] b[j]).0.end <= b[j + 1].0.start,
                k <= a.len(),
                matches.wf(),
                covered.wf(),
                forall|i: int|
                    #[trigger] matches.spec_contains(i) <==> entries_match(a.take(k as int), b, i),
                forall|i: int|
                    #[trigger] covered.spec_contains(i) <==> entries_cover(a.take(k as int), i),
            decreases self.entries.len() - k,
        {
            let (range, hash) = self.entries[k];
            proof {
                assert(a[k as int] == (range, hash));
                assert(a[k as int].0.start < a[k as int].0.end);
            }
            let found = find_entry(&other.entries, range);
            let ghost old_matches = matches;
            let ghost old_covered = covered;
            let is_match = match found {
                Some(j) => {
                    let (_, h2) = other.entries[j];
                    hash == h2
                },
                None => false,
            };
            if is_match {
                matches.add(&range);
            }
            covered.add(&range);
            k = k + 1;
            proof {
                let kp = k - 1;
                assert(a.take(k as int) =~= a.take(kp).push(a[kp]));
                assert forall|i: int|
                    #[trigger] matches.spec_contains(i) <==> entries_match(a.take(k as int), b, i)
                by {
                    lemma_match_take_step(a, b, kp, i);
                    if is_match {
                        let j = found->Some_0;
                        assert(a[kp].0 == b[j as int].0 && a[kp].1 == b[j as int].1);
                        if range.spec_contains(i) {
                            assert(entry_matched(a, b, kp, i)) by {
                                assert(b[j as int].0 == a[kp].0);
                            }
                        }
                    } else {
                        if entry_matched(a, b, kp, i) {
                            let j2 = choose|j2: int|
                                0 <= j2 < b.len() && (#[trigger] b[j2]).0 == a[kp].0 && b[j2].1
                                    == a[kp].1 && a[kp].0.spec_contains(i);
                            match found {
                                Some(j) => {
                                    assert(b[j as int].0 == range);
                                    assert(b[j2] == b[j as int]) by {
                                        if j2 != j as int {
                                            lemma_distinct_ranges(b, j2, j as int);
                                        }
                                    }
                                },
                                None => {
                                    assert(b[j2].0 != range);
                                },
                            }
                        }
                    }
                }
                assert forall|i: int|
                    #[trigger] covered.spec_contains(i) <==> entries_cover(a.take(k as int), i)
                by {
                    lemma_covers_entry_take_step(a, kp, i);
                }
            }
        }
        proof {
            assert(a.take(a.len() as int) =~= a);
        }
        // Offsets covered by `other` count toward the union as well.
        let mut all = covered;
        let mut k2: usize = 0;
        while k2 < other.entries.len()
            invariant
                other.wf(),
                b == other.entries@,
                forall|j: int| 0 <= j < b.len() ==> (#[trigger] b[j]).0.start < b[j].0.end,
                k2 <= b.len(),
                all.wf(),
                forall|i: int|
                    #[trigger] all.spec_contains(i) <==> (entries_cover(a, i) || entries_cover(
                        b.take(k2 as int),
                        i,
                    )),
            decreases other.entries.len() - k2,
        {
            let (range, _) = other.entries[k2];
            proof {
                assert(b[k2 as int].0 == range);
                assert(b[k2 as int].0.start < b[k2 as int].0.end);
            }
            all.add(&range);
            k2 = k2 + 1;
            proof {
                let kp = k2 - 1;
                assert forall|i: int|
                    #[trigger] all.spec_contains(i) <==> (entries_cover(a, i) || entries_cover(
                        b.take(k2 as int),
                        i,
                    )) by {
                    lemma_covers_entry_take_step(b, kp, i);
                }
            }
        }
        proof {
            assert(b.take(b.len() as int) =~= b);
        }
        let mismatches = all.subtraction(&matches);
        (matches, mismatches)
    }
}

/// The entries up to `k`, and `a[k]`, cover together what the entries up
/// to `k + 1` cover.
proof fn lemma_covers_entry_take_step(a: Seq<HashEntry>, k: int, i: int)
    requires
        0 <= k < a.len(),
    ensures
        entries_cover(a.take(k + 1), i) <==> (entries_cover(a.take(k), i)
            || a[k].0.spec_contains(i)),
{
    let t = a.take(k + 1);
    if entries_cover(t, i) {
        let j = choose|j: int| 0 <= j < t.len() && (#[trigger] t[j]).0.spec_contains(i);
        if j < k {
            assert(a.take(k)[j] == t[j]);
            assert(entries_cover(a.take(k), i));
        } else {
            assert(t[k] == a[k]);
        }
    }
    if entries_cover(a.take(k), i) {
        let j = choose|j: int|
            0 <= j < a.take(k).len() && (#[trigger] a.take(k)[j]).0.spec_contains(i);
        assert(t[j] == a.take(k)[j]);
        assert(entries_cover(t, i));
    }
    if a[k].0.spec_contains(i) {
        assert(t[k] == a[k]);
        assert(entries_cover(t, i));
    }
}

/// The offset `i` lies in `a[k]`'s range and `b` maps that range to the
/// same digest.
pub open spec fn entry_matched(a: Seq<HashEntry>, b: Seq<HashEntry>, k: int, i: int) -> bool {
    exists|j: int|
        0 <= j < b.len() && (#[trigger] b[j]).0 == a[k].0 && b[j].1 == a[k].1
            && a[k].0.spec_contains(i)
}

/// Matching against a one-longer prefix adds exactly the new entry's
/// matched offsets.
proof fn lemma_match_take_step(a: Seq<HashEntry>, b: Seq<HashEntry>, k: int, i: int)
    requires
        0 <= k < a.len(),
    ensures
        entries_match(a.take(k + 1), b, i) <==> (entries_match(a.take(k), b, i) || entry_matched(
            a,
            b,
            k,
            i,
        )),
{
    let t = a.take(k + 1);
    if entries_match(t, b, i) {
        let (k1, k2) = choose|k1: int, k2: int|
            0 <= k1 < t.len() && 0 <= k2 < b.len() && (#[trigger] t[k1]).0 == (#[trigger] b[k2]).0
                && t[k1].1 == b[k2].1 && t[k1].0.spec_contains(i);
        if k1 < k {
            assert(a.take(k)[k1] == t[k1]);
            assert(entries_match(a.take(k), b, i));
        } else {
            assert(t[k1] == a[k]);
            assert(entry_matched(a, b, k, i));
        }
    }
    if entries_match(a.take(k), b, i) {
        let (k1, k2) = choose|k1: int, k2: int|
            0 <= k1 < a.take(k).len() && 0 <= k2 < b.len() && (#[trigger] a.take(k)[k1]).0 == (
            #[trigger] b[k2]).0 && a.take(k)[k1].1 == b[k2].1 && a.take(k)[k1].0.spec_contains(i);
        assert(t[k1] == a.take(k)[k1]);
        assert(entries_match(t, b, i));
    }
    if entry_matched(a, b, k, i) {
        let j = choose|j: int|
            0 <= j < b.len() && (#[trigger] b[j]).0 == a[k].0 && b[j].1 == a[k].1
                && a[k].0.spec_contains(i);
        assert(t[k] == a[k]);
        assert(entries_match(t, b, i));
    }
}

/// In a well-formed entry sequence two distinct entries have distinct,
/// disjoint ranges.
proof fn lemma_distinct_ranges(b: Seq<HashEntry>, j1: int, j2: int)
    requires
        forall|k: int| 0 <= k < b.len() ==> (#[trigger] b[k]).0.start < b[k].0.end,
        forall|k: int| 0 <= k < b.len() - 1 ==> (#[trigger] b[k]).0.end <= b[k + 1].0.start,
        0 <= j1 < b.len(),
        0 <= j2 < b.len(),
        j1 != j2,
    ensures
        b[j1].0 != b[j2].0,
{
    if j1 < j2 {
        lemma_entry_ordered(b, j1, j2);
    } else {
        lemma_entry_ordered(b, j2, j1);
    }
}

/// In a well-formed entry sequence an earlier range ends no later than a
/// later range starts.
proof fn lemma_entry_ordered(b: Seq<HashEntry>, j1: int, j2: int)
    requires
        forall|k: int| 0 <= k < b.len() ==> (#[trigger] b[k]).0.start < b[k].0.end,
        forall|k: int| 0 <= k < b.len() - 1 ==> (#[trigger] b[k]).0.end <= b[k + 1].0.start,
        0 <= j1 < j2 < b.len(),
    ensures
        b[j1].0.end <= b[j2].0.start,
        b[j1].0.start < b[j2].0.start,
    decreases j2 - j1,
{
    if j1 + 1 < j2 {
        lemma_entry_ordered(b, j1 + 1, j2);
    }
}

/// Look up the entry holding exactly the range `r`.
fn find_entry(entries: &Vec<HashEntry>, r: ByteRange) -> (res: Option<usize>)
    ensures
        match res {
            Some(j) => j < entries@.len() && entries@[j as int].0 == r,
            None => forall|k: int| 0 <= k < entries@.len() ==> (#[trigger] entries@[k]).0 != r,
        },
{
    let mut k: usize = 0;
    while k < entries.len()
        invariant
            k <= entries@.len(),
            forall|j: int| 0 <= j < k ==> (#[trigger] entries@[j]).0 != r,
        decreases entries.len() - k,
    {
        let (r2, _) = entries[k];
        if r2.start == r.start && r2.end == r.end {
            assert(entries@[k as int].0 == r);
            return Some(k);
        }
        k = k + 1;
    }
    None
}

/// Matching is symmetric: swapping the sides leaves the matched offsets
/// unchanged.
pub proof fn lemma_entries_match_symmetric(a: Seq<HashEntry>, b: Seq<HashEntry>, i: int)
    ensures
        entries_match(a, b, i) == entries_match(b, a, i),
{
    if entries_match(a, b, i) {
        let (k1, k2) = choose|k1: int, k2: int|
            0 <= k1 < a.len() && 0 <= k2 < b.len() && (#[trigger] a[k1]).0 == (#[trigger] b[k2]).0
                && a[k1].1 == b[k2].1 && a[k1].0.spec_contains(i);
        assert(b[k2].0 == a[k1].0 && b[k2].1 == a[k1].1 && b[k2].0.spec_contains(i));
        assert(entries_match(b, a, i));
    }
    if entries_match(b, a, i) {
        let (k1, k2) = choose|k1: int, k2: int|
            0 <= k1 < b.len() && 0 <= k2 < a.len() && (#[trigger] b[k1]).0 == (#[trigger] a[k2]).0
                && b[k1].1 == a[k2].1 && b[k1].0.spec_contains(i);
        assert(a[k2].0 == b[k1].0 && a[k2].1 == b[k1].1 && a[k2].0.spec_contains(i));
        assert(entries_match(a, b, i));
    }
}

} // verus!
