//! The per-file sync protocol driven through its phases on concrete
//! values, and the helpers around it.

use realize_core::ByteRange;
use realize_core::ByteRanges;
use realize_core::CopyGate;
use realize_core::HASH_FILE_CHUNK;
use realize_core::MoveFile;
use realize_core::MoveFileError;
use realize_core::RangedHash;
use realize_core::RealStoreError;
use realize_core::RpcError;
use realize_core::build_ranged_hash;
use realize_core::classify_outcome;
use realize_core::copy_plan;
use realize_core::hash_plan;
use realize_core::rsync_plan;

fn digest(seed: u64) -> realize_core::types::Hash {
    realize_core::types::Hash::from_words(seed, seed ^ 7, seed.wrapping_mul(31), seed + 1)
}

#[test]
fn copy_plan_fresh_download() {
    // Source holds eleven bytes, the destination nothing: everything is
    // copied, nothing truncated.
    let (copy, truncate) = copy_plan(11, 0);
    assert_eq!(copy.to_vec(), vec![ByteRange { start: 0, end: 11 }]);
    assert_eq!(copy.bytecount(), 11);
    assert!(!truncate);
}

#[test]
fn copy_plan_continuation() {
    // Nine bytes at the source, three already at the destination: six move.
    let (copy, truncate) = copy_plan(9, 3);
    assert_eq!(copy.to_vec(), vec![ByteRange { start: 3, end: 9 }]);
    assert_eq!(copy.bytecount(), 6);
    assert!(!truncate);
}

#[test]
fn copy_plan_identical_sizes_copies_nothing() {
    let (copy, truncate) = copy_plan(5, 5);
    assert!(copy.is_empty());
    assert!(!truncate);
}

#[test]
fn copy_plan_longer_destination_truncates() {
    let (copy, truncate) = copy_plan(4, 9);
    assert!(copy.is_empty());
    assert!(truncate);
}

#[test]
fn hash_plan_single_chunk() {
    let plan = hash_plan(21, HASH_FILE_CHUNK);
    assert_eq!(plan, vec![ByteRange { start: 0, end: 21 }]);
}

#[test]
fn hash_plan_chunked() {
    let plan = hash_plan(21, 4);
    assert_eq!(plan.len(), 6);
    assert_eq!(plan[0], ByteRange { start: 0, end: 4 });
    assert_eq!(plan[5], ByteRange { start: 20, end: 21 });
}

#[test]
fn build_ranged_hash_accepts_any_order() {
    let pairs = vec![
        (ByteRange { start: 4, end: 8 }, digest(2)),
        (ByteRange { start: 0, end: 4 }, digest(1)),
    ];
    let built = build_ranged_hash(pairs).0;
    let mut expected = RangedHash::new();
    expected.add(ByteRange { start: 0, end: 4 }, digest(1));
    expected.add(ByteRange { start: 4, end: 8 }, digest(2));
    assert_eq!(built, expected);
    assert!(built.is_complete(8));
}

#[test]
fn move_file_fresh_download_verifies_and_completes() {
    // Source "this is foo", eleven bytes, destination empty: copy all,
    // verify once, promote, delete.
    let (mut m, copy, truncate) = MoveFile::start(11, 0);
    assert_eq!(copy.bytecount(), 11);
    assert!(!truncate);
    let h = digest(42);
    let src_hash = RangedHash::single(ByteRange { start: 0, end: 11 }, h);
    m.transfer_done(src_hash);
    let dst_hash = RangedHash::single(ByteRange { start: 0, end: 11 }, h);
    let repair = m.verify(&dst_hash);
    assert!(repair.is_none());
    m.finish_done();
    m.delete_done();
}

#[test]
fn move_file_identical_files_verify_only() {
    // Already-identical files: no copy, hash verification only, then
    // promote and delete.
    let (mut m, copy, truncate) = MoveFile::start(5, 5);
    assert!(copy.is_empty());
    assert!(!truncate);
    let h = digest(3);
    m.transfer_done(RangedHash::single(ByteRange { start: 0, end: 5 }, h));
    assert!(m.verify(&RangedHash::single(ByteRange { start: 0, end: 5 }, h)).is_none());
    m.finish_done();
    m.delete_done();
}

#[test]
fn move_file_corrupted_existing_repairs_by_rsync() {
    // Source "abcdefghi", destination partial "xxx": after the copy of the
    // missing six bytes the first verify fails on everything, nine bytes
    // of progress are taken back, the delta repair runs, and the second
    // verify passes.
    let (mut m, copy, _) = MoveFile::start(9, 3);
    assert_eq!(copy.bytecount(), 6);
    let good = digest(1);
    let bad = digest(2);
    m.transfer_done(RangedHash::single(ByteRange { start: 0, end: 9 }, good));
    let repair = m.verify(&RangedHash::single(ByteRange { start: 0, end: 9 }, bad));
    let (ranges, decrement) = repair.expect("the hashes differ");
    assert_eq!(ranges.to_vec(), vec![ByteRange { start: 0, end: 9 }]);
    assert_eq!(decrement, 9);
    for chunk in ranges.chunked(realize_core::CHUNK_SIZE) {
        assert_eq!(m.apply_chunk(chunk, Ok(())), Ok(true));
    }
    let fallback = m.rsync_done();
    assert!(fallback.is_empty());
    m.fallback_done();
    assert!(m.reverify(&RangedHash::single(ByteRange { start: 0, end: 9 }, good)).is_ok());
    m.finish_done();
    m.delete_done();
}

#[test]
fn move_file_rejected_delta_falls_back_to_copy() {
    let (mut m, _, _) = MoveFile::start(9, 9);
    let good = digest(1);
    let bad = digest(2);
    m.transfer_done(RangedHash::single(ByteRange { start: 0, end: 9 }, good));
    let (ranges, _) = m.verify(&RangedHash::single(ByteRange { start: 0, end: 9 }, bad)).unwrap();
    for chunk in ranges.chunked(realize_core::CHUNK_SIZE) {
        assert_eq!(
            m.apply_chunk(chunk, Err(RealStoreError::HashMismatch)),
            Ok(false)
        );
    }
    let fallback = m.rsync_done();
    assert_eq!(fallback.to_vec(), vec![ByteRange { start: 0, end: 9 }]);
    m.fallback_done();
    assert!(m.reverify(&RangedHash::single(ByteRange { start: 0, end: 9 }, good)).is_ok());
    m.finish_done();
    m.delete_done();
}

#[test]
fn move_file_still_mismatched_fails_to_sync() {
    let (mut m, _, _) = MoveFile::start(4, 4);
    let good = digest(1);
    let bad = digest(2);
    m.transfer_done(RangedHash::single(ByteRange { start: 0, end: 4 }, good));
    let (_, _) = m.verify(&RangedHash::single(ByteRange { start: 0, end: 4 }, bad)).unwrap();
    let _ = m.rsync_done();
    m.fallback_done();
    let r = m.reverify(&RangedHash::single(ByteRange { start: 0, end: 4 }, bad));
    assert_eq!(r, Err(MoveFileError::FailedToSync));
}

#[test]
fn move_file_store_error_aborts() {
    let (mut m, _, _) = MoveFile::start(4, 4);
    m.transfer_done(RangedHash::single(ByteRange { start: 0, end: 4 }, digest(1)));
    let (ranges, _) = m.verify(&RangedHash::single(ByteRange { start: 0, end: 4 }, digest(2))).unwrap();
    let chunk = ranges.chunked(realize_core::CHUNK_SIZE)[0];
    let r = m.apply_chunk(chunk, Err(RealStoreError::Unavailable));
    assert_eq!(r, Err(MoveFileError::Realize(RealStoreError::Unavailable)));
}

#[test]
fn incomplete_destination_hash_is_no_match() {
    // The destination answered with a zero digest past its end of file:
    // the verify cannot pass even though every range is present.
    let (mut m, _, _) = MoveFile::start(8, 8);
    let h = digest(1);
    let mut src = RangedHash::new();
    src.add(ByteRange { start: 0, end: 4 }, h);
    src.add(ByteRange { start: 4, end: 8 }, digest(2));
    m.transfer_done(src);
    let mut dst = RangedHash::new();
    dst.add(ByteRange { start: 0, end: 4 }, h);
    dst.add(ByteRange { start: 4, end: 8 }, realize_core::types::Hash::zero());
    let repair = m.verify(&dst);
    assert!(repair.is_some());
}

#[test]
fn copy_gate_admits_one_at_a_time() {
    let mut gate = CopyGate::new();
    let permit = gate.acquire().expect("free gate");
    assert!(gate.acquire().is_none());
    gate.release(permit);
    let again = gate.acquire();
    assert!(again.is_some());
    gate.release(again.unwrap());
}

#[test]
fn classify_outcome_counts() {
    assert_eq!(classify_outcome(&Ok(())), (1, 0, 0));
    assert_eq!(
        classify_outcome(&Err(MoveFileError::Rpc(RpcError::DeadlineExceeded))),
        (0, 0, 1)
    );
    assert_eq!(classify_outcome(&Err(MoveFileError::FailedToSync)), (0, 1, 0));
}

#[test]
fn rsync_plan_subtracts_partial_match() {
    let mut partial = ByteRanges::new();
    partial.add(&ByteRange { start: 0, end: 3 });
    let plan = rsync_plan(9, &partial);
    assert_eq!(plan.to_vec(), vec![ByteRange { start: 3, end: 9 }]);
}

#[test]
fn pair_files_matches_by_path() {
    let f = |name: &str, size: u64| realize_core::SyncedFile {
        path: realize_core::Path::parse(name.as_bytes().to_vec()).unwrap(),
        size,
        mtime: realize_core::UnixTime { secs: 0, nanos: 0 },
    };
    let src = vec![f("same_length", 5), f("longer", 5), f("partial", 11)];
    let dst = vec![f("partial", 13), f("same_length", 5)];
    let pairs = realize_core::pair_files(&src, &dst);
    assert_eq!(pairs, vec![(0, Some(1)), (1, None), (2, Some(0))]);
    // Available bytes are the matched destination sizes as listed, even
    // where a destination file is longer than its source.
    let (files, total, available) = realize_core::dir_totals(&src, &dst, &pairs);
    assert_eq!(files, 3);
    assert_eq!(total, 21);
    assert_eq!(available, 18);
}

#[test]
fn tally_adds_outcomes() {
    let outcomes = vec![(1, 0, 0), (0, 1, 0), (1, 0, 0), (0, 0, 1)];
    assert_eq!(realize_core::tally(&outcomes), (2, 1, 1));
}

#[test]
fn assembled_zero_digest_stays_and_blocks_completeness() {
    // The remote answers the past-end range with the zero digest; the
    // assembled hash keeps it, so the result never counts as complete.
    let pairs = vec![
        (ByteRange { start: 0, end: 4 }, digest(6)),
        (ByteRange { start: 4, end: 8 }, realize_core::types::Hash::zero()),
    ];
    let built = build_ranged_hash(pairs).0;
    let mut expected = RangedHash::new();
    expected.add(ByteRange { start: 0, end: 4 }, digest(6));
    expected.add(ByteRange { start: 4, end: 8 }, realize_core::types::Hash::zero());
    assert_eq!(built, expected);
    assert!(!built.is_complete(8));
}
