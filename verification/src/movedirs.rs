//! The per-file sync protocol and the helpers around it: what to copy,
//! what to hash, what to repair by delta transfer, and when a file counts
//! as moved.
//!
//! The protocol is a state machine over plain values; the caller performs
//! the peer calls and feeds their results back. A file is moved only after
//! a verification pass found the destination's ranged hash complete and
//! equal to the source's, and the source is deleted only after the
//! destination promoted the file.

use vstd::prelude::*;

use crate::hashes::RangedHash;
use crate::hashes::entries_match;
use crate::ranges::ByteRange;
use crate::ranges::ByteRanges;
use crate::types::Arena;
use crate::types::Path;
use crate::types::SyncedFile;

verus! {

/// Transfers move in pieces of this many bytes.
pub const CHUNK_SIZE: u64 = 4 * 1024 * 1024;

/// How many files are moved at the same time at most.
pub const PARALLEL_FILE_COUNT: usize = 4;

/// Hashing asks the peer for pieces of this many bytes.
pub const HASH_FILE_CHUNK: u64 = 256 * 1024 * 1024;

/// How many hash requests are in flight at once.
pub const PARALLEL_FILE_HASH: usize = 4;

/// Progress events sent while directories move.
#[derive(Clone, Debug, PartialEq, Eq)]
pub enum ProgressEvent {
    /// A directory starts moving: total files and bytes, and how many
    /// bytes the destination already holds.
    MovingDir { arena: Arena, total_files: usize, total_bytes: u64, available_bytes: u64 },
    /// A file starts moving: its size and how many bytes already exist.
    MovingFile { arena: Arena, path: Path, bytes: u64, available: u64 },
    /// The file's hashes are being checked.
    VerifyingFile { arena: Arena, path: Path },
    /// The file is being repaired by delta transfer.
    RsyncingFile { arena: Arena, path: Path },
    /// The file's bytes are being copied.
    CopyingFile { arena: Arena, path: Path },
    /// The file waits for its turn to copy.
    PendingFile { arena: Arena, path: Path },
    /// This many more bytes of the file are in place.
    IncrementByteCount { arena: Arena, path: Path, bytecount: u64 },
    /// This many bytes, counted as in place before, are being redone.
    DecrementByteCount { arena: Arena, path: Path, bytecount: u64 },
    /// The file was moved.
    FileSuccess { arena: Arena, path: Path },
    /// Moving the file failed.
    FileError { arena: Arena, path: Path, error: String },
}

/// A transport failure on a peer call.
#[derive(Clone, Debug, PartialEq, Eq)]
pub enum RpcError {
    /// The call ran out of time; the work counts as interrupted, not
    /// failed.
    DeadlineExceeded,
    /// Any other transport fault, carried as text.
    Transport(String),
}

/// A semantic error a peer store reports.
#[derive(Clone, Debug, PartialEq, Eq)]
pub enum RealStoreError {
    /// Applied data did not hash to what was promised.
    HashMismatch,
    /// The path is not there.
    NotFound,
    /// The data cannot be served right now.
    Unavailable,
    /// The path names a directory.
    IsADirectory,
    /// Any other store fault, carried as text.
    Other(String),
}

/// Why a file could not be moved.
#[derive(Clone, Debug, PartialEq, Eq)]
pub enum MoveFileError {
    /// The transport failed.
    Rpc(RpcError),
    /// A peer store reported an error.
    Realize(RealStoreError),
    /// The destination still mismatched after delta repair and copy.
    FailedToSync,
}

/// What to transfer before anything else: the source bytes past what the
/// destination already holds, and whether the destination must shrink.
pub fn copy_plan(src_size: u64, dst_size: u64) -> (r: (ByteRanges, bool))
    ensures
        r.0.wf(),
        forall|i: int|
            #[trigger] r.0.spec_contains(i) <==> (dst_size <= i < src_size && 0 <= i),
        r.1 == (dst_size > src_size),
{
    let whole = ByteRanges::single(0, src_size);
    let existing = ByteRanges::single(0, dst_size);
    let copy = whole.subtraction(&existing);
    (copy, dst_size > src_size)
}

/// What to repair by delta transfer: everything the verification pass did
/// not see matching.
pub fn rsync_plan(src_size: u64, partial_match: &ByteRanges) -> (r: ByteRanges)
    requires
        partial_match.wf(),
    ensures
        r.wf(),
        forall|i: int|
            #[trigger] r.spec_contains(i) <==> (0 <= i < src_size && !partial_match.spec_contains(
                i,
            )),
{
    let whole = ByteRanges::single(0, src_size);
    whole.subtraction(partial_match)
}

/// The ranges whose hashes a peer is asked for, covering the whole file
/// front to back.
pub fn hash_plan(file_size: u64, chunk_size: u64) -> (r: Vec<ByteRange>)
    requires
        chunk_size > 0,
    ensures
        r@ == crate::ranges::chunk_seq(0, file_size, chunk_size),
{
    let whole = ByteRange::new(0, file_size);
    whole.chunked(chunk_size)
}

/// Assemble the hashes a peer returned, in whatever order they came, into
/// one ranged hash: every entry is one of the given pairs — a range with
/// exactly the digest handed in for it — and every pair is taken, as the
/// count and the coverage show. The returned ghost sequence is the
/// witness: it maps each entry to the pair it came from. The ranges must
/// be the disjoint pieces that were asked for.
#[verifier::rlimit(100)]
pub fn build_ranged_hash(pairs: Vec<(ByteRange, crate::types::Hash)>) -> (r: (RangedHash, Ghost<
    Seq<int>,
>))
    requires
        forall|k: int| 0 <= k < pairs@.len() ==> (#[trigger] pairs@[k]).0.start < pairs@[k].0.end,
        forall|k1: int, k2: int|
            0 <= k1 < k2 < pairs@.len() ==> ((#[trigger] pairs@[k1]).0.end <= (
            #[trigger] pairs@[k2]).0.start || pairs@[k2].0.end <= pairs@[k1].0.start),
    ensures
        r.0.wf(),
        r.0.entries().len() == pairs@.len(),
        r.1@.len() == pairs@.len(),
        forall|j: int|
            0 <= j < r.0.entries().len() ==> 0 <= #[trigger] r.1@[j] < pairs@.len()
                && r.0.entries()[j] == pairs@[r.1@[j]],
        forall|j: int, w: int|
            0 <= j < r.0.entries().len() && 0 <= w < pairs@.len() && (#[trigger] r.0.entries()[j]).0
                == (#[trigger] pairs@[w]).0 ==> r.0.entries()[j].1 == pairs@[w].1,
        forall|i: int|
            #[trigger] r.0.spec_covers(i) <==> exists|k: int|
                0 <= k < pairs@.len() && (#[trigger] pairs@[k]).0.spec_contains(i),
{
    let mut out = RangedHash::new();
    let ghost mut perm: Seq<int> = Seq::empty();
    let mut k: usize = 0;
    while k < pairs.len()
        invariant
            forall|j: int| 0 <= j < pairs@.len() ==> (#[trigger] pairs@[j]).0.start < pairs@[j].0.end,
            forall|j1: int, j2: int|
                0 <= j1 < j2 < pairs@.len() ==> ((#[trigger] pairs@[j1]).0.end <= (
                #[trigger] pairs@[j2]).0.start || pairs@[j2].0.end <= pairs@[j1].0.start),
            k <= pairs@.len(),
            out.wf(),
            out.entries().len() == k,
            perm.len() == k,
            forall|j: int|
                0 <= j < out.entries().len() ==> 0 <= #[trigger] perm[j] < k && out.entries()[j]
                    == pairs@[perm[j]],
            forall|j: int|
                #![trigger out.entries()[j]]
                0 <= j < out.entries().len() ==> exists|w: int|
                    0 <= w < k && out.entries()[j] == #[trigger] pairs@[w],
            forall|j: int, w: int|
                0 <= j < out.entries().len() && 0 <= w < pairs@.len() && (
                #[trigger] out.entries()[j]).0 == (#[trigger] pairs@[w]).0
                    ==> out.entries()[j].1 == pairs@[w].1,
            forall|i: int|
                #[trigger] out.spec_covers(i) <==> exists|j: int|
                    0 <= j < k && (#[trigger] pairs@[j]).0.spec_contains(i),
        decreases pairs.len() - k,
    {
        let (range, hash) = pairs[k];
        let ghost prev = out;
        proof {
            assert((#[trigger] pairs@[k as int]).0.start < pairs@[k as int].0.end);
            assert forall|j: int|
                0 <= j < out.entries().len() implies (range.end <= (#[trigger] out.entries()[j]).0.start
                || out.entries()[j].0.end <= range.start) by {
                let w = choose|w: int| 0 <= w < k && out.entries()[j] == #[trigger] pairs@[w];
                // The recorded entry is an earlier pair, and pairs are
                // mutually disjoint, so the new range avoids it.
                assert(pairs@[w].0.end <= pairs@[k as int].0.start || pairs@[k as int].0.end
                    <= pairs@[w].0.start);
            }
        }
        let pos = out.add(range, hash);
        k = k + 1;
        proof {
            let prev_perm = perm;
            perm = perm.insert(pos@, (k - 1) as int);
            assert forall|j: int|
                0 <= j < out.entries().len() implies 0 <= #[trigger] perm[j] < k
                && out.entries()[j] == pairs@[perm[j]] by {
                assert(out.entries() == prev.entries().insert(pos@, (range, hash)));
                if j < pos@ {
                    assert(perm[j] == prev_perm[j]);
                    assert(out.entries()[j] == prev.entries()[j]);
                } else if j == pos@ {
                    assert(perm[j] == k - 1);
                    assert(out.entries()[j] == (range, hash));
                    assert(pairs@[k - 1] == (range, hash));
                } else {
                    assert(perm[j] == prev_perm[j - 1]);
                    assert(out.entries()[j] == prev.entries()[j - 1]);
                }
            }
            assert forall|j: int|
                #![trigger out.entries()[j]]
                0 <= j < out.entries().len() implies exists|w: int|
                    0 <= w < k && out.entries()[j] == #[trigger] pairs@[w] by {
                assert(out.entries() == prev.entries().insert(pos@, (range, hash)));
                if j < pos@ {
                    assert(out.entries()[j] == prev.entries()[j]);
                    let w = choose|w: int|
                        0 <= w < k - 1 && prev.entries()[j] == #[trigger] pairs@[w];
                    assert(out.entries()[j] == pairs@[w]);
                } else if j == pos@ {
                    assert(out.entries()[j] == pairs@[k - 1]);
                } else {
                    assert(out.entries()[j] == prev.entries()[j - 1]);
                    let w = choose|w: int|
                        0 <= w < k - 1 && prev.entries()[j - 1] == #[trigger] pairs@[w];
                    assert(out.entries()[j] == pairs@[w]);
                }
            }
            assert forall|j: int, w: int|
                0 <= j < out.entries().len() && 0 <= w < pairs@.len() && (
                #[trigger] out.entries()[j]).0 == (#[trigger] pairs@[w]).0 implies out.entries()[j].1
                == pairs@[w].1 by {
                let w2 = choose|w2: int|
                    0 <= w2 < k && out.entries()[j] == #[trigger] pairs@[w2];
                assert(out.entries()[j] == pairs@[w2]);
                // Disjoint nonempty ranges are distinct, so the pair with
                // this range is the one the entry came from.
                if w < w2 {
                    assert(pairs@[w].0.end <= pairs@[w2].0.start || pairs@[w2].0.end
                        <= pairs@[w].0.start);
                } else if w2 < w {
                    assert(pairs@[w2].0.end <= pairs@[w].0.start || pairs@[w].0.end
                        <= pairs@[w2].0.start);
                }
                assert(w == w2);
            }
            assert forall|i: int|
                #[trigger] out.spec_covers(i) <==> exists|j: int|
                    0 <= j < k && (#[trigger] pairs@[j]).0.spec_contains(i) by {
                if out.spec_covers(i) {
                    if range.spec_contains(i) {
                        assert(pairs@[k - 1].0.spec_contains(i));
                    }
                }
                if exists|j: int| 0 <= j < k && (#[trigger] pairs@[j]).0.spec_contains(i) {
                    let j = choose|j: int|
                        0 <= j < k && (#[trigger] pairs@[j]).0.spec_contains(i);
                    if j < k - 1 {
                    } else {
                        assert(range.spec_contains(i));
                    }
                }
            }
        }
    }
    (out, Ghost(perm))
}

/// Source and destination agree: both ranged hashes cover the whole file
/// of `size` bytes and no covered offset mismatches.
pub open spec fn hashes_agree(sh: RangedHash, dh: RangedHash, size: u64) -> bool {
    &&& sh.spec_is_complete(size)
    &&& dh.spec_is_complete(size)
    &&& forall|i: int|
        (sh.spec_covers(i) || dh.spec_covers(i)) ==> entries_match(sh.entries(), dh.entries(), i)
}

/// What a verification pass found.
pub enum HashCheck {
    /// Source and destination agree everywhere and both cover the file:
    /// the file may be promoted and the source deleted.
    Match,
    /// Something differs or is missing; the matching offsets are kept as
    /// provisionally correct.
    Mismatch { partial_match: ByteRanges },
}

/// Compare the two ranged hashes over a file of `size` bytes. The check
/// passes only when both sides cover the whole file and no range
/// mismatches; otherwise the matching offsets come back for the repair
/// plan.
pub fn check_hashes(src_hash: &RangedHash, dst_hash: &RangedHash, size: u64) -> (r: HashCheck)
    requires
        src_hash.wf(),
        dst_hash.wf(),
    ensures
        r is Match <==> hashes_agree(*src_hash, *dst_hash, size),
        r matches HashCheck::Mismatch { partial_match } ==> partial_match.wf() && forall|i: int|
            #[trigger] partial_match.spec_contains(i) <==> entries_match(
                src_hash.entries(),
                dst_hash.entries(),
                i,
            ),
{
    let (matches, mismatches) = src_hash.diff(dst_hash);
    let complete = src_hash.is_complete(size) && dst_hash.is_complete(size);
    if complete && mismatches.is_empty() {
        proof {
            assert forall|i: int|
                (src_hash.spec_covers(i) || dst_hash.spec_covers(i)) implies entries_match(
                src_hash.entries(),
                dst_hash.entries(),
                i,
            ) by {
                assert(!mismatches.spec_contains(i));
            }
            assert(hashes_agree(*src_hash, *dst_hash, size));
        }
        HashCheck::Match
    } else {
        proof {
            if src_hash.spec_is_complete(size) && dst_hash.spec_is_complete(size) {
                assert(exists|i: int| #[trigger] mismatches.spec_contains(i));
                let i = choose|i: int| #[trigger] mismatches.spec_contains(i);
                assert((src_hash.spec_covers(i) || dst_hash.spec_covers(i)) && !entries_match(
                    src_hash.entries(),
                    dst_hash.entries(),
                    i,
                ));
            }
            assert(!hashes_agree(*src_hash, *dst_hash, size));
        }
        HashCheck::Mismatch { partial_match: matches }
    }
}

/// The one copy permit shared by all files of a run: bulk transfers are
/// serialized so they do not saturate the link.
pub struct CopyGate {
    busy: bool,
}

/// Held by the one file allowed to copy. It cannot be copied or made up;
/// it only comes out of [`CopyGate::acquire`] and goes back into
/// [`CopyGate::release`].
pub struct CopyPermit {
    seal: bool,
}

impl CopyGate {
    /// Whether some file holds the permit.
    pub closed spec fn spec_busy(self) -> bool {
        self.busy
    }

    /// A gate with the permit free.
    pub fn new() -> (r: CopyGate)
        ensures
            !r.spec_busy(),
    {
        CopyGate { busy: false }
    }

    /// Take the permit, if it is free. While a file holds it, every other
    /// file asking to copy is told to wait.
    pub fn acquire(&mut self) -> (r: Option<CopyPermit>)
        ensures
            r is Some <==> !old(self).spec_busy(),
            final(self).spec_busy(),
    {
        if self.busy {
            None
        } else {
            self.busy = true;
            Some(CopyPermit { seal: true })
        }
    }

    /// Give the permit back.
    pub fn release(&mut self, permit: CopyPermit)
        ensures
            !final(self).spec_busy(),
    {
        let _ = permit;
        self.busy = false;
    }
}

/// Where the per-file protocol stands.
#[derive(Clone, Copy, Debug, PartialEq, Eq, Structural)]
pub enum MovePhase {
    /// Copying the missing bytes while the source hash is computed.
    Transfer,
    /// First hash comparison.
    Verify,
    /// Delta repair of the ranges that did not match.
    Rsync,
    /// Copying the ranges whose delta was rejected, under the copy permit.
    FallbackCopy,
    /// Second hash comparison.
    Reverify,
    /// Verified; the destination is promoting the file.
    Finishing,
    /// Promoted; the source copy is being deleted.
    Deleting,
    /// Moved: verified, promoted, source deleted.
    Complete,
    /// The move failed.
    Failed,
}

/// The per-file sync protocol, as a machine over the values the peers
/// return. The caller copies, hashes, and repairs as told, and feeds the
/// results back; the machine decides what follows.
pub struct MoveFile {
    src_size: u64,
    phase: MovePhase,
    src_hash: Option<RangedHash>,
    fallback: ByteRanges,
    checked: Ghost<Option<(RangedHash, RangedHash)>>,
}

impl MoveFile {
    /// The size of the source file.
    pub closed spec fn spec_size(self) -> u64 {
        self.src_size
    }

    /// Where the protocol stands.
    pub closed spec fn spec_phase(self) -> MovePhase {
        self.phase
    }

    /// The source and destination hashes of the verification pass that let
    /// the file move on toward promotion.
    pub closed spec fn spec_checked(self) -> Option<(RangedHash, RangedHash)> {
        self.checked@
    }

    /// The source hash, once the transfer phase handed it in.
    pub closed spec fn spec_src_hash(self) -> Option<RangedHash> {
        self.src_hash
    }

    /// The ranges whose delta was rejected and must be copied whole.
    pub closed spec fn spec_fallback(self) -> ByteRanges {
        self.fallback
    }

    /// Past verification, the machine remembers a passed check: both
    /// hashes complete for the file and matching everywhere.
    pub open spec fn wf(self) -> bool {
        &&& self.spec_fallback().wf()
        &&& (self.spec_src_hash() matches Some(h) ==> h.wf())
        &&& (self.spec_phase() is Finishing || self.spec_phase() is Deleting || self.spec_phase()
            is Complete) ==> (self.spec_checked() matches Some((sh, dh)) && hashes_agree(
            sh,
            dh,
            self.spec_size(),
        ))
    }

    /// Start moving one file: the missing bytes are copied while the
    /// source is hashed.
    pub fn start(src_size: u64, dst_size: u64) -> (r: (MoveFile, ByteRanges, bool))
        ensures
            r.0.wf(),
            r.0.spec_phase() is Transfer,
            r.0.spec_size() == src_size,
            forall|i: int| !r.0.spec_fallback().spec_contains(i),
            r.1.wf(),
            forall|i: int|
                #[trigger] r.1.spec_contains(i) <==> (dst_size <= i < src_size && 0 <= i),
            r.2 == (dst_size > src_size),
    {
        let (copy, truncate) = copy_plan(src_size, dst_size);
        let m = MoveFile {
            src_size,
            phase: MovePhase::Transfer,
            src_hash: None,
            fallback: ByteRanges::new(),
            checked: Ghost(None),
        };
        (m, copy, truncate)
    }

    /// The missing bytes are in place and the source hash arrived.
    #[verifier::rlimit(50)]
    pub fn transfer_done(&mut self, src_hash: RangedHash)
        requires
            old(self).wf(),
            old(self).spec_phase() is Transfer,
            src_hash.wf(),
        ensures
            final(self).wf(),
            final(self).spec_phase() is Verify,
            final(self).spec_size() == old(self).spec_size(),
            final(self).spec_src_hash() matches Some(h) && h == src_hash,
            final(self).spec_fallback() == old(self).spec_fallback(),
    {
        self.src_hash = Some(src_hash);
        self.phase = MovePhase::Verify;
    }

    /// Compare the destination's hash with the source's. On a match the
    /// file moves on to promotion; otherwise the repair plan comes back:
    /// the ranges to fix by delta transfer, and how many bytes of progress
    /// to take back, because the existing bytes had been counted as
    /// correct.
    pub fn verify(&mut self, dst_hash: &RangedHash) -> (r: Option<(ByteRanges, u64)>)
        requires
            old(self).wf(),
            old(self).spec_phase() is Verify,
            old(self).spec_src_hash() is Some,
            dst_hash.wf(),
        ensures
            final(self).wf(),
            final(self).spec_size() == old(self).spec_size(),
            final(self).spec_src_hash() == old(self).spec_src_hash(),
            final(self).spec_fallback() == old(self).spec_fallback(),
            r is None <==> hashes_agree(
                old(self).spec_src_hash()->Some_0,
                *dst_hash,
                old(self).spec_size(),
            ),
            r is None ==> final(self).spec_phase() is Finishing,
            r matches Some((ranges, dec)) ==> {
                &&& final(self).spec_phase() is Rsync
                &&& ranges.wf()
                &&& forall|i: int|
                    #[trigger] ranges.spec_contains(i) <==> (0 <= i < old(self).spec_size()
                        && !entries_match(
                        old(self).spec_src_hash()->Some_0.entries(),
                        dst_hash.entries(),
                        i,
                    ))
                &&& dec == ranges.spec_bytecount()
                &&& dec <= old(self).spec_size()
            },
    {
        let src_hash = match &self.src_hash {
            Some(h) => h,
            None => {
                proof {
                    assert(false);
                }
                unreached()
            },
        };
        match check_hashes(src_hash, dst_hash, self.src_size) {
            HashCheck::Match => {
                proof {
                    self.checked@ = Some((*src_hash, *dst_hash));
                }
                self.phase = MovePhase::Finishing;
                None
            },
            HashCheck::Mismatch { partial_match } => {
                let ranges = rsync_plan(self.src_size, &partial_match);
                proof {
                    crate::ranges::lemma_bytecount_within(ranges, self.src_size);
                }
                let dec = ranges.bytecount();
                self.phase = MovePhase::Rsync;
                Some((ranges, dec))
            },
        }
    }

    /// Record what applying one delta chunk did: accepted chunks count as
    /// progress, a hash mismatch queues the chunk for a whole copy, and
    /// any other store error fails the move.
    pub fn apply_chunk(&mut self, range: ByteRange, outcome: Result<(), RealStoreError>) -> (r:
        Result<bool, MoveFileError>)
        requires
            old(self).wf(),
            old(self).spec_phase() is Rsync,
            range.wf(),
        ensures
            final(self).wf(),
            final(self).spec_size() == old(self).spec_size(),
            final(self).spec_src_hash() == old(self).spec_src_hash(),
            outcome is Ok ==> r == Result::<bool, MoveFileError>::Ok(true) && final(self).spec_phase() is Rsync
                && final(self).spec_fallback() == old(self).spec_fallback(),
            outcome == Result::<(), RealStoreError>::Err(RealStoreError::HashMismatch) ==> r
                == Result::<bool, MoveFileError>::Ok(false) && final(self).spec_phase() is Rsync
                && (forall|i: int|
                #[trigger] final(self).spec_fallback().spec_contains(i) <==> (old(self).spec_fallback().spec_contains(i)
                    || range.spec_contains(i))),
            !(outcome is Ok) && outcome != Result::<(), RealStoreError>::Err(
                RealStoreError::HashMismatch,
            ) ==> (r matches Err(e) && e == MoveFileError::Realize(outcome->Err_0) && final(self).spec_phase() is Failed),
    {
        match outcome {
            Ok(()) => Ok(true),
            Err(RealStoreError::HashMismatch) => {
                self.fallback.add(&range);
                proof {
                    assert forall|i: int|
                        #[trigger] self.spec_fallback().spec_contains(i) <==> (old(self).spec_fallback().spec_contains(i)
                            || range.spec_contains(i)) by {
                        assert(self.fallback.spec_contains(i) <==> (old(self).fallback.spec_contains(i)
                            || range.spec_contains(i)));
                    }
                }
                Ok(false)
            },
            Err(e) => {
                self.phase = MovePhase::Failed;
                Err(MoveFileError::Realize(e))
            },
        }
    }

    /// All delta chunks were tried: what is left must be copied whole,
    /// under the run's one copy permit.
    pub fn rsync_done(&mut self) -> (r: ByteRanges)
        requires
            old(self).wf(),
            old(self).spec_phase() is Rsync,
        ensures
            final(self).wf(),
            final(self).spec_size() == old(self).spec_size(),
            final(self).spec_src_hash() == old(self).spec_src_hash(),
            final(self).spec_phase() is FallbackCopy,
            r.wf(),
            forall|i: int|
                #[trigger] r.spec_contains(i) == old(self).spec_fallback().spec_contains(i),
    {
        self.phase = MovePhase::FallbackCopy;
        self.fallback.duplicate()
    }

    /// The fallback copies are in place; verify once more.
    pub fn fallback_done(&mut self)
        requires
            old(self).wf(),
            old(self).spec_phase() is FallbackCopy,
        ensures
            final(self).wf(),
            final(self).spec_size() == old(self).spec_size(),
            final(self).spec_src_hash() == old(self).spec_src_hash(),
            final(self).spec_phase() is Reverify,
    {
        self.phase = MovePhase::Reverify;
    }

    /// The second comparison: a match sends the file on to promotion;
    /// anything else is a failed move.
    pub fn reverify(&mut self, dst_hash: &RangedHash) -> (r: Result<(), MoveFileError>)
        requires
            old(self).wf(),
            old(self).spec_phase() is Reverify,
            old(self).spec_src_hash() is Some,
            dst_hash.wf(),
        ensures
            final(self).wf(),
            final(self).spec_size() == old(self).spec_size(),
            r is Ok <==> hashes_agree(
                old(self).spec_src_hash()->Some_0,
                *dst_hash,
                old(self).spec_size(),
            ),
            r is Ok ==> final(self).spec_phase() is Finishing,
            r matches Err(e) ==> e == MoveFileError::FailedToSync && final(self).spec_phase()
                is Failed,
    {
        let src_hash = match &self.src_hash {
            Some(h) => h,
            None => {
                proof {
                    assert(false);
                }
                unreached()
            },
        };
        match check_hashes(src_hash, dst_hash, self.src_size) {
            HashCheck::Match => {
                proof {
                    self.checked@ = Some((*src_hash, *dst_hash));
                }
                self.phase = MovePhase::Finishing;
                Ok(())
            },
            HashCheck::Mismatch { .. } => {
                self.phase = MovePhase::Failed;
                Err(MoveFileError::FailedToSync)
            },
        }
    }

    /// The destination promoted the staged file.
    pub fn finish_done(&mut self)
        requires
            old(self).wf(),
            old(self).spec_phase() is Finishing,
        ensures
            final(self).wf(),
            final(self).spec_size() == old(self).spec_size(),
            final(self).spec_phase() is Deleting,
            final(self).spec_checked() == old(self).spec_checked(),
    {
        self.phase = MovePhase::Deleting;
    }

    /// The source copy is gone: the move is complete.
    pub fn delete_done(&mut self)
        requires
            old(self).wf(),
            old(self).spec_phase() is Deleting,
        ensures
            final(self).wf(),
            final(self).spec_size() == old(self).spec_size(),
            final(self).spec_phase() is Complete,
            final(self).spec_checked() == old(self).spec_checked(),
    {
        self.phase = MovePhase::Complete;
    }

    /// A completed move rests on a passed verification: both hashes cover
    /// the whole file and agree everywhere, so the destination's content
    /// hashes exactly as the source's did — and the source was deleted
    /// only after the destination promoted the file, in the order the
    /// phases force.
    pub proof fn lemma_complete_verified(self)
        requires
            self.wf(),
            self.spec_phase() is Complete,
        ensures
            self.spec_checked() is Some,
            hashes_agree(
                self.spec_checked()->Some_0.0,
                self.spec_checked()->Some_0.1,
                self.spec_size(),
            ),
    {
    }
}

/// Count one file's outcome the way a directory move tallies it: moved,
/// failed, or interrupted by a deadline.
pub fn classify_outcome(result: &Result<(), MoveFileError>) -> (r: (usize, usize, usize))
    ensures
        result is Ok ==> r == (1usize, 0usize, 0usize),
        result == Result::<(), MoveFileError>::Err(MoveFileError::Rpc(RpcError::DeadlineExceeded))
            ==> r == (0usize, 0usize, 1usize),
        result is Err && result != Result::<(), MoveFileError>::Err(
            MoveFileError::Rpc(RpcError::DeadlineExceeded),
        ) ==> r == (0usize, 1usize, 0usize),
{
    match result {
        Ok(()) => (1, 0, 0),
        Err(MoveFileError::Rpc(RpcError::DeadlineExceeded)) => (0, 0, 1),
        Err(_) => (0, 1, 0),
    }
}

/// The sizes of the files of a listing, added up.
pub open spec fn sum_sizes(files: Seq<SyncedFile>) -> int
    decreases files.len(),
{
    if files.len() == 0 {
        0
    } else {
        sum_sizes(files.drop_last()) + files.last().size
    }
}

/// Find the listing entry with exactly this path.
fn find_by_path(files: &Vec<SyncedFile>, path: &Path) -> (r: Option<usize>)
    ensures
        match r {
            Some(j) => j < files@.len() && files@[j as int].path@ == path@,
            None => forall|j: int| 0 <= j < files@.len() ==> (#[trigger] files@[j]).path@ != path@,
        },
{
    let mut j: usize = 0;
    while j < files.len()
        invariant
            j <= files@.len(),
            forall|k: int| 0 <= k < j ==> (#[trigger] files@[k]).path@ != path@,
        decreases files.len() - j,
    {
        if files[j].path == *path {
            return Some(j);
        }
        j = j + 1;
    }
    None
}

/// Pair each source file with the destination's file of the same path,
/// when there is one: who syncs against whom when a directory moves.
pub fn pair_files(src_files: &Vec<SyncedFile>, dst_files: &Vec<SyncedFile>) -> (r: Vec<(
    usize,
    Option<usize>,
)>)
    ensures
        r@.len() == src_files@.len(),
        forall|k: int| 0 <= k < r@.len() ==> (#[trigger] r@[k]).0 == k,
        forall|k: int|
            0 <= k < r@.len() && (#[trigger] r@[k]).1 is Some ==> r@[k].1->Some_0
                < dst_files@.len() && dst_files@[r@[k].1->Some_0 as int].path@
                == src_files@[k].path@,
        forall|k: int, j: int|
            0 <= k < r@.len() && (#[trigger] r@[k]).1 is None && 0 <= j < dst_files@.len() ==> (
            #[trigger] dst_files@[j]).path@ != src_files@[k].path@,
{
    let mut out: Vec<(usize, Option<usize>)> = Vec::new();
    let mut k: usize = 0;
    while k < src_files.len()
        invariant
            k <= src_files@.len(),
            out@.len() == k,
            forall|k2: int| 0 <= k2 < k ==> (#[trigger] out@[k2]).0 == k2,
            forall|k2: int|
                0 <= k2 < k && (#[trigger] out@[k2]).1 is Some ==> out@[k2].1->Some_0
                    < dst_files@.len() && dst_files@[out@[k2].1->Some_0 as int].path@
                    == src_files@[k2].path@,
            forall|k2: int, j: int|
                0 <= k2 < k && (#[trigger] out@[k2]).1 is None && 0 <= j < dst_files@.len() ==> (
                #[trigger] dst_files@[j]).path@ != src_files@[k2].path@,
        decreases src_files.len() - k,
    {
        let found = find_by_path(dst_files, &src_files[k].path);
        out.push((k, found));
        k = k + 1;
    }
    out
}

/// The destination bytes already in place for the matched pairs: the
/// matched destination files' sizes, added up as listed.
pub open spec fn sum_matched_sizes(
    dst_files: Seq<SyncedFile>,
    pairs: Seq<(usize, Option<usize>)>,
) -> int
    decreases pairs.len(),
{
    if pairs.len() == 0 {
        0
    } else {
        sum_matched_sizes(dst_files, pairs.drop_last()) + (match pairs.last().1 {
            Some(j) => if j < dst_files.len() {
                dst_files[j as int].size as int
            } else {
                0
            },
            None => 0,
        })
    }
}

/// A prefix of the pairs never counts more destination bytes than all of
/// them.
proof fn lemma_sum_matched_prefix(
    dst_files: Seq<SyncedFile>,
    pairs: Seq<(usize, Option<usize>)>,
    n: int,
)
    requires
        0 <= n <= pairs.len(),
    ensures
        sum_matched_sizes(dst_files, pairs.take(n)) <= sum_matched_sizes(dst_files, pairs),
    decreases pairs.len() - n,
{
    if n < pairs.len() {
        lemma_sum_matched_prefix(dst_files, pairs, n + 1);
        assert(pairs.take(n + 1).drop_last() =~= pairs.take(n));
        assert(pairs.take(n + 1).last() == pairs[n]);
    } else {
        assert(pairs.take(n) =~= pairs);
    }
}

/// The totals announced when a directory starts moving: how many files,
/// how many bytes they hold, and how many bytes the destination already
/// has of them — the matched destination sizes summed as listed.
pub fn dir_totals(src_files: &Vec<SyncedFile>, dst_files: &Vec<SyncedFile>, pairs: &Vec<(
    usize,
    Option<usize>,
)>) -> (r: (usize, u64, u64))
    requires
        sum_sizes(src_files@) <= u64::MAX,
        sum_matched_sizes(dst_files@, pairs@) <= u64::MAX,
        pairs@.len() == src_files@.len(),
        forall|k: int|
            0 <= k < pairs@.len() ==> ((#[trigger] pairs@[k]).1 matches Some(j) ==> j
                < dst_files@.len()),
    ensures
        r.0 == src_files@.len(),
        r.1 == sum_sizes(src_files@),
        r.2 == sum_matched_sizes(dst_files@, pairs@),
{
    let mut total_bytes: u64 = 0;
    let mut available: u64 = 0;
    let mut k: usize = 0;
    while k < src_files.len()
        invariant
            sum_sizes(src_files@) <= u64::MAX,
            sum_matched_sizes(dst_files@, pairs@) <= u64::MAX,
            pairs@.len() == src_files@.len(),
            forall|k2: int|
                0 <= k2 < pairs@.len() ==> ((#[trigger] pairs@[k2]).1 matches Some(j) ==> j
                    < dst_files@.len()),
            k <= src_files@.len(),
            total_bytes == sum_sizes(src_files@.take(k as int)),
            available == sum_matched_sizes(dst_files@, pairs@.take(k as int)),
        decreases src_files.len() - k,
    {
        proof {
            assert(src_files@.take(k + 1).drop_last() =~= src_files@.take(k as int));
            assert(src_files@.take(k + 1).last() == src_files@[k as int]);
            lemma_sum_sizes_prefix(src_files@, k + 1);
            assert(pairs@.take(k + 1).drop_last() =~= pairs@.take(k as int));
            assert(pairs@.take(k + 1).last() == pairs@[k as int]);
            lemma_sum_matched_prefix(dst_files@, pairs@, k + 1);
        }
        total_bytes = total_bytes + src_files[k].size;
        let dst_size = match pairs[k].1 {
            Some(j) => dst_files[j].size,
            None => 0,
        };
        available = available + dst_size;
        k = k + 1;
    }
    proof {
        assert(src_files@.take(src_files@.len() as int) =~= src_files@);
        assert(pairs@.take(pairs@.len() as int) =~= pairs@);
    }
    (src_files.len(), total_bytes, available)
}

/// A prefix of a listing never holds more bytes than the whole.
proof fn lemma_sum_sizes_prefix(files: Seq<SyncedFile>, n: int)
    requires
        0 <= n <= files.len(),
    ensures
        sum_sizes(files.take(n)) <= sum_sizes(files),
    decreases files.len() - n,
{
    if n < files.len() {
        lemma_sum_sizes_prefix(files, n + 1);
        assert(files.take(n + 1).drop_last() =~= files.take(n));
        assert(files.take(n + 1).last() == files[n]);
    } else {
        assert(files.take(n) =~= files);
    }
}

/// The component sums of a sequence of outcome triples.
pub open spec fn sum_triples(s: Seq<(usize, usize, usize)>) -> (int, int, int)
    decreases s.len(),
{
    if s.len() == 0 {
        (0int, 0int, 0int)
    } else {
        let rest = sum_triples(s.drop_last());
        (rest.0 + s.last().0, rest.1 + s.last().1, rest.2 + s.last().2)
    }
}

/// Add up per-file outcome counts into the directory totals: exactly the
/// componentwise sums of the moved, failed and interrupted marks.
pub fn tally(outcomes: &Vec<(usize, usize, usize)>) -> (r: (usize, usize, usize))
    requires
        forall|k: int|
            0 <= k < outcomes@.len() ==> (#[trigger] outcomes@[k]).0 + outcomes@[k].1
                + outcomes@[k].2 <= 1,
    ensures
        r.0 == sum_triples(outcomes@).0,
        r.1 == sum_triples(outcomes@).1,
        r.2 == sum_triples(outcomes@).2,
        r.0 + r.1 + r.2 <= outcomes@.len(),
{
    let mut s: usize = 0;
    let mut e: usize = 0;
    let mut i: usize = 0;
    let mut k: usize = 0;
    while k < outcomes.len()
        invariant
            forall|k2: int|
                0 <= k2 < outcomes@.len() ==> (#[trigger] outcomes@[k2]).0 + outcomes@[k2].1
                    + outcomes@[k2].2 <= 1,
            k <= outcomes@.len(),
            s == sum_triples(outcomes@.take(k as int)).0,
            e == sum_triples(outcomes@.take(k as int)).1,
            i == sum_triples(outcomes@.take(k as int)).2,
            s + e + i <= k,
        decreases outcomes.len() - k,
    {
        proof {
            assert(outcomes@.take(k + 1).drop_last() =~= outcomes@.take(k as int));
            assert(outcomes@.take(k + 1).last() == outcomes@[k as int]);
        }
        let (s1, e1, i1) = outcomes[k];
        s = s + s1;
        e = e + e1;
        i = i + i1;
        k = k + 1;
    }
    proof {
        assert(outcomes@.take(outcomes@.len() as int) =~= outcomes@);
    }
    (s, e, i)
}

} // verus!
