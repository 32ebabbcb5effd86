//! Reading files that the local index knows, and the delta computation
//! over them: consistency rules against the index, and the
//! rolling-checksum diff of the outside rsync implementation.

use vstd::prelude::*;

use crate::errors::StorageError;
use crate::ranges::ByteRange;
use crate::types::Delta;
use crate::types::Signature;
use crate::types::UnixTime;

verus! {

/// What the index records for a path: the file's size, modification time
/// and digest as of the last indexing.
#[derive(Clone, Copy, Debug, PartialEq, Eq, Structural)]
pub struct IndexEntry {
    pub size: u64,
    pub mtime: UnixTime,
    pub hash: crate::types::Hash,
}

/// A file may be opened for indexed reading only when the index holds an
/// entry for its path; otherwise the caller gets `NotFound`.
pub fn open_check(entry: Option<&IndexEntry>) -> (r: Result<(), StorageError>)
    ensures
        r is Ok <==> entry is Some,
        r matches Err(e) ==> e is NotFound,
{
    match entry {
        Some(_) => Ok(()),
        None => Err(StorageError::NotFound),
    }
}

/// The digest to report with a file's metadata: the indexed digest is
/// trusted only while the size and modification time on disk still equal
/// the index entry; anything else reports no digest, telling the caller
/// to re-hash if it needs certainty.
pub fn metadata_hash(entry: Option<&IndexEntry>, disk_size: u64, disk_mtime: UnixTime) -> (r:
    Option<crate::types::Hash>)
    ensures
        r is Some <==> (entry matches Some(e) && e.size == disk_size && e.mtime == disk_mtime),
        r matches Some(h) ==> h == entry->Some_0.hash,
{
    match entry {
        Some(e) => if e.size == disk_size && e.mtime.secs == disk_mtime.secs && e.mtime.nanos
            == disk_mtime.nanos {
            Some(e.hash)
        } else {
            None
        },
        None => None,
    }
}

/// The delta that the outside rsync implementation computes for `data`
/// against a serialized signature. A function of the two byte strings
/// alone.
pub uninterp spec fn delta_of(sig: Seq<u8>, data: Seq<u8>) -> Seq<u8>;

/// Whether the outside rsync implementation accepts the serialized
/// signature: it parses and names a supported digest. A function of the
/// bytes alone.
pub uninterp spec fn valid_rsync_signature(sig: Seq<u8>) -> bool;

/// A serialized signature's header declares a nonzero block size. The
/// header is four magic bytes, then the block size and the digest width
/// as four big-endian bytes each; the block size is nonzero exactly when
/// one of its bytes is. A signature too short to parse is harmless.
pub open spec fn declares_nonzero_block(sig: Seq<u8>) -> bool {
    sig.len() >= 12 ==> (sig[4] != 0 || sig[5] != 0 || sig[6] != 0 || sig[7] != 0)
}

/// True when the signature bytes declare a nonzero block size, or are too
/// short to carry a header at all.
pub fn check_signature_header(sig: &Vec<u8>) -> (r: bool)
    ensures
        r == declares_nonzero_block(sig@),
{
    if sig.len() < 12 {
        true
    } else {
        sig[4] != 0 || sig[5] != 0 || sig[6] != 0 || sig[7] != 0
    }
}

/// Relies on fast_rsync::Signature::deserialize, Signature::index and
/// fast_rsync::diff. Deserializing and indexing depend on the signature
/// bytes alone, the delta on the signature and data bytes alone; the two
/// error paths of diff are an unsupported signature, and writing into the
/// output, which never fails into a Vec. A parseable signature declaring
/// a zero block size would keep diff from returning — its block scan
/// would stand still or step past the end — so such bytes are excluded
/// here and refused in [`rsync`] before any outside call.
#[verifier::external_body]
fn fast_rsync_delta(sig: &Vec<u8>, data: &Vec<u8>) -> (r: Result<Vec<u8>, StorageError>)
    requires
        declares_nonzero_block(sig@),
    ensures
        r is Ok <==> valid_rsync_signature(sig@),
        r matches Ok(d) ==> d@ == delta_of(sig@, data@),
        r matches Err(e) ==> e is InvalidRsyncSignature,
{
    let parsed = match fast_rsync::Signature::deserialize(sig.clone()) {
        Ok(s) => s,
        Err(_) => return Err(StorageError::InvalidRsyncSignature),
    };
    let mut out: Vec<u8> = Vec::new();
    match fast_rsync::diff(&parsed.index(), data.as_slice(), &mut out) {
        Ok(()) => Ok(out),
        Err(_) => Err(StorageError::InvalidRsyncSignature),
    }
}

/// Compute the delta that patches a range of an indexed file toward the
/// caller's copy. The caller read exactly the range's bytes from the file;
/// the path must still be in the index, and the signature must be
/// readable. The signature is judged whole before the index is consulted —
/// a zero block size is refused without touching the outside
/// implementation, and a signature it cannot use is reported ahead of a
/// missing index entry. Hashes are not checked here: that stays with the
/// caller.
pub fn rsync(
    entry: Option<&IndexEntry>,
    range: &ByteRange,
    sig: &Signature,
    data: Vec<u8>,
) -> (r: Result<Delta, StorageError>)
    requires
        range.wf(),
        data@.len() == range.spec_bytecount(),
    ensures
        !declares_nonzero_block(sig.0@) ==> (r matches Err(e) && e is InvalidRsyncSignature),
        declares_nonzero_block(sig.0@) && !valid_rsync_signature(sig.0@) ==> (r matches Err(e)
            && e is InvalidRsyncSignature),
        declares_nonzero_block(sig.0@) && valid_rsync_signature(sig.0@) && entry is None ==> (
        r matches Err(e) && e is NotFound),
        declares_nonzero_block(sig.0@) && valid_rsync_signature(sig.0@) && entry is Some ==> (
        r matches Ok(d) && d.0@ == delta_of(sig.0@, data@)),
{
    if !check_signature_header(&sig.0) {
        return Err(StorageError::InvalidRsyncSignature);
    }
    let delta = match fast_rsync_delta(&sig.0, &data) {
        Ok(d) => d,
        Err(e) => {
            return Err(e);
        },
    };
    match entry {
        Some(_) => Ok(Delta(delta)),
        None => Err(StorageError::NotFound),
    }
}

} // verus!
