//! Byte-range bookkeeping and ranged-hash comparison on concrete values.

use realize_core::ByteRange;
use realize_core::ByteRanges;
use realize_core::RangedHash;
use realize_core::types::Path;

fn digest(seed: u64) -> realize_core::types::Hash {
    realize_core::types::Hash::from_words(seed, seed ^ 7, seed.wrapping_mul(31), seed + 1)
}

#[test]
fn single_range_bytecount() {
    let r = ByteRanges::single(0, 9);
    assert_eq!(r.bytecount(), 9);
    assert!(!r.is_empty());
    let e = ByteRanges::single(4, 4);
    assert_eq!(e.bytecount(), 0);
    assert!(e.is_empty());
}

#[test]
fn subtraction_of_prefix() {
    let whole = ByteRanges::single(0, 9);
    let existing = ByteRanges::single(0, 3);
    let rest = whole.subtraction(&existing);
    assert_eq!(rest.to_vec(), vec![ByteRange { start: 3, end: 9 }]);
    assert_eq!(rest.bytecount(), 6);
}

#[test]
fn subtraction_cuts_holes() {
    let whole = ByteRanges::single(0, 10);
    let mut mid = ByteRanges::new();
    mid.add(&ByteRange { start: 2, end: 4 });
    mid.add(&ByteRange { start: 6, end: 7 });
    let rest = whole.subtraction(&mid);
    assert_eq!(
        rest.to_vec(),
        vec![
            ByteRange { start: 0, end: 2 },
            ByteRange { start: 4, end: 6 },
            ByteRange { start: 7, end: 10 },
        ]
    );
    assert_eq!(rest.bytecount(), 7);
}

#[test]
fn add_merges_adjacent_and_overlapping() {
    let mut r = ByteRanges::new();
    r.add(&ByteRange { start: 0, end: 2 });
    r.add(&ByteRange { start: 2, end: 5 });
    assert_eq!(r.to_vec(), vec![ByteRange { start: 0, end: 5 }]);
    r.add(&ByteRange { start: 8, end: 9 });
    assert_eq!(r.to_vec().len(), 2);
    r.add(&ByteRange { start: 4, end: 8 });
    assert_eq!(r.to_vec(), vec![ByteRange { start: 0, end: 9 }]);
}

#[test]
fn chunked_splits_exactly() {
    let r = ByteRange { start: 0, end: 21 };
    let pieces = r.chunked(4);
    assert_eq!(
        pieces,
        vec![
            ByteRange { start: 0, end: 4 },
            ByteRange { start: 4, end: 8 },
            ByteRange { start: 8, end: 12 },
            ByteRange { start: 12, end: 16 },
            ByteRange { start: 16, end: 20 },
            ByteRange { start: 20, end: 21 },
        ]
    );
    let set = ByteRanges::single(3, 9);
    let pieces = set.chunked(4);
    assert_eq!(
        pieces,
        vec![ByteRange { start: 3, end: 7 }, ByteRange { start: 7, end: 9 }]
    );
}

#[test]
fn path_parse_accepts_relative_paths() {
    assert!(Path::parse(b"foo".to_vec()).is_ok());
    let p = Path::parse(b"foo/bar.txt".to_vec()).unwrap();
    assert_eq!(p.as_bytes(), &b"foo/bar.txt".to_vec());
    assert!(Path::parse(b"a.b/c..d/...".to_vec()).is_ok());
}

#[test]
fn path_parse_rejects_invalid_paths() {
    assert!(Path::parse(b"".to_vec()).is_err());
    assert!(Path::parse(b"/abs".to_vec()).is_err());
    assert!(Path::parse(b"trail/".to_vec()).is_err());
    assert!(Path::parse(b"a//b".to_vec()).is_err());
    assert!(Path::parse(b"..".to_vec()).is_err());
    assert!(Path::parse(b".".to_vec()).is_err());
    assert!(Path::parse(b"a/../b".to_vec()).is_err());
    assert!(Path::parse(b"./a".to_vec()).is_err());
    assert!(Path::parse(b"a/.".to_vec()).is_err());
}

#[test]
fn ranged_hash_is_complete_tiles_file() {
    let mut h = RangedHash::new();
    h.add(ByteRange { start: 0, end: 4 }, digest(1));
    h.add(ByteRange { start: 4, end: 8 }, digest(2));
    assert!(h.is_complete(8));
    assert!(!h.is_complete(9));
    let mut gap = RangedHash::new();
    gap.add(ByteRange { start: 0, end: 4 }, digest(1));
    gap.add(ByteRange { start: 5, end: 8 }, digest(2));
    assert!(!gap.is_complete(8));
}

#[test]
fn ranged_hash_zero_digest_is_incomplete() {
    // A peer answers a range past the end of its file with the zero
    // digest; such a hash never counts as complete.
    let mut h = RangedHash::new();
    h.add(ByteRange { start: 0, end: 4 }, digest(1));
    h.add(ByteRange { start: 4, end: 8 }, realize_core::types::Hash::zero());
    assert!(!h.is_complete(8));
}

#[test]
fn ranged_hash_out_of_order_adds() {
    let mut a = RangedHash::new();
    a.add(ByteRange { start: 4, end: 8 }, digest(2));
    a.add(ByteRange { start: 0, end: 4 }, digest(1));
    let mut b = RangedHash::new();
    b.add(ByteRange { start: 0, end: 4 }, digest(1));
    b.add(ByteRange { start: 4, end: 8 }, digest(2));
    assert_eq!(a, b);
}

#[test]
fn diff_matching_and_mismatching() {
    let mut a = RangedHash::new();
    a.add(ByteRange { start: 0, end: 4 }, digest(1));
    a.add(ByteRange { start: 4, end: 8 }, digest(2));
    let mut b = RangedHash::new();
    b.add(ByteRange { start: 0, end: 4 }, digest(1));
    b.add(ByteRange { start: 4, end: 8 }, digest(9));
    let (matches, mismatches) = a.diff(&b);
    assert_eq!(matches.to_vec(), vec![ByteRange { start: 0, end: 4 }]);
    assert_eq!(mismatches.to_vec(), vec![ByteRange { start: 4, end: 8 }]);
}

#[test]
fn diff_is_symmetric_on_matches() {
    let mut a = RangedHash::new();
    a.add(ByteRange { start: 0, end: 4 }, digest(1));
    a.add(ByteRange { start: 4, end: 8 }, digest(2));
    let mut b = RangedHash::new();
    b.add(ByteRange { start: 0, end: 4 }, digest(1));
    b.add(ByteRange { start: 4, end: 6 }, digest(2));
    let (m_ab, mm_ab) = a.diff(&b);
    let (m_ba, mm_ba) = b.diff(&a);
    assert_eq!(m_ab, m_ba);
    assert_eq!(mm_ab, mm_ba);
    // Complementary: matches and mismatches split what either side covers.
    assert_eq!(m_ab.to_vec(), vec![ByteRange { start: 0, end: 4 }]);
    assert_eq!(mm_ab.to_vec(), vec![ByteRange { start: 4, end: 8 }]);
}

#[test]
fn diff_equal_hashes_has_no_mismatch() {
    let mut a = RangedHash::new();
    a.add(ByteRange { start: 0, end: 21 }, digest(5));
    let b = RangedHash::single(ByteRange { start: 0, end: 21 }, digest(5));
    let (matches, mismatches) = a.diff(&b);
    assert_eq!(matches.to_vec(), vec![ByteRange { start: 0, end: 21 }]);
    assert!(mismatches.is_empty());
}
