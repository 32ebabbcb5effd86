//! The indexed-store helpers against the real rsync implementation and
//! the real index database's error type.

use realize_core::ByteRange;
use realize_core::IndexEntry;
use realize_core::Signature;
use realize_core::StorageError;
use realize_core::metadata_hash;
use realize_core::open_check;
use realize_core::rsync;
use realize_core::types::UnixTime;
use redb::ReadableDatabase;

fn entry() -> IndexEntry {
    IndexEntry {
        size: 6,
        mtime: UnixTime { secs: 100, nanos: 0 },
        hash: realize_core::types::Hash::from_words(1, 2, 3, 4),
    }
}

#[test]
fn open_check_requires_an_index_entry() {
    let e = entry();
    assert!(open_check(Some(&e)).is_ok());
    assert!(matches!(open_check(None), Err(StorageError::NotFound)));
}

#[test]
fn read_file_metadata() {
    // Size and modification time both still match the index: the indexed
    // digest is safe to report.
    let e = entry();
    let h = metadata_hash(Some(&e), 6, UnixTime { secs: 100, nanos: 0 });
    assert_eq!(h, Some(e.hash));
}

#[test]
fn read_file_modified_after_open() {
    // The file on disk moved on: report no digest, the caller must
    // re-hash.
    let e = entry();
    assert_eq!(metadata_hash(Some(&e), 8, UnixTime { secs: 100, nanos: 0 }), None);
    assert_eq!(metadata_hash(Some(&e), 6, UnixTime { secs: 101, nanos: 0 }), None);
    assert_eq!(metadata_hash(None, 6, UnixTime { secs: 100, nanos: 0 }), None);
}

#[test]
fn rsync_computes_a_delta_that_applies() {
    // The destination's copy differs in the middle; the delta computed
    // against its signature must rebuild the source bytes exactly.
    let base: Vec<u8> = b"the quick brown fox jumps over the lazy dog".to_vec();
    let mut target = base.clone();
    target[10] = b'X';
    target[11] = b'Y';
    let sig = fast_rsync::Signature::calculate(
        &base,
        fast_rsync::SignatureOptions { block_size: 8, crypto_hash_size: 8 },
    );
    let range = ByteRange { start: 0, end: target.len() as u64 };
    let e = entry();
    let delta = rsync(Some(&e), &range, &Signature(sig.into_serialized()), target.clone())
        .expect("a valid signature and an indexed path");
    let mut rebuilt: Vec<u8> = Vec::new();
    fast_rsync::apply(&base, &delta.0, &mut rebuilt).expect("the delta applies to the base");
    assert_eq!(rebuilt, target);
}

#[test]
fn rsync_rejects_garbage_signatures() {
    let e = entry();
    let range = ByteRange { start: 0, end: 3 };
    let r = rsync(Some(&e), &range, &Signature(vec![1, 2, 3]), b"abc".to_vec());
    assert!(matches!(r, Err(StorageError::InvalidRsyncSignature)));
}

#[test]
fn rsync_requires_an_index_entry() {
    let base: Vec<u8> = b"abcdefgh".to_vec();
    let sig = fast_rsync::Signature::calculate(
        &base,
        fast_rsync::SignatureOptions { block_size: 4, crypto_hash_size: 8 },
    );
    let range = ByteRange { start: 0, end: 8 };
    let r = rsync(None, &range, &Signature(sig.into_serialized()), base.clone());
    assert!(matches!(r, Err(StorageError::NotFound)));
}

#[test]
fn from_redb_splits_io_faults() {
    let io = std::io::Error::new(std::io::ErrorKind::Other, "disk fell off");
    let e = redb::Error::from(io);
    assert!(matches!(StorageError::from_redb(e), StorageError::Io(_)));
    let txn_poisoned = redb::Error::from(std::io::Error::new(
        std::io::ErrorKind::PermissionDenied,
        "no",
    ));
    assert!(matches!(StorageError::from_redb(txn_poisoned), StorageError::Io(_)));
}

#[test]
fn from_redb_boxes_database_faults() {
    let db = redb::Database::builder()
        .create_with_backend(redb::backends::InMemoryBackend::new())
        .expect("an in-memory database");
    let txn = db.begin_read().expect("a read transaction");
    let missing: redb::TableDefinition<u64, u64> = redb::TableDefinition::new("no_such_table");
    let err = txn.open_table(missing).expect_err("the table does not exist");
    let e = redb::Error::from(err);
    assert!(matches!(StorageError::from_redb(e), StorageError::Database(_)));
}

#[test]
fn rsync_rejects_zero_block_signatures() {
    // A parseable header that declares a zero block size is refused up
    // front: such a signature must never reach the delta computation.
    let mut sig: Vec<u8> = Vec::new();
    sig.extend_from_slice(&0x72730136u32.to_be_bytes());
    sig.extend_from_slice(&0u32.to_be_bytes());
    sig.extend_from_slice(&8u32.to_be_bytes());
    let e = entry();
    let range = ByteRange { start: 0, end: 3 };
    let r = rsync(Some(&e), &range, &Signature(sig), b"abc".to_vec());
    assert!(matches!(r, Err(StorageError::InvalidRsyncSignature)));
}
