use std::hash::Hash;
use std::hash::Hasher;

use pithanos::cms::CountMinSketch;
use pithanos::error::DimensionError;
use pithanos::traits::FrequencySketch;
use xxhash_rust::xxh3::Xxh3;

const SKETCH_WIDTH: usize = 1024;
const SKETCH_DEPTH: usize = 4;

fn digests(item: &str) -> (u64, u64) {
    let mut first = Xxh3::new();
    item.hash(&mut first);
    let mut second = Xxh3::with_seed(0x7FFFFFFF);
    item.hash(&mut second);
    (first.finish(), second.finish())
}

#[test]
fn cms_construct() {
    let cms = CountMinSketch::new(SKETCH_WIDTH, SKETCH_DEPTH).unwrap();

    assert_eq!(cms.depth(), SKETCH_DEPTH);
    for row in 0..cms.depth() {
        assert!((0..cms.width()).all(|col| cms.counter(row, col) == 0));
    }
    assert_eq!(cms.width(), SKETCH_WIDTH);
    assert_eq!(cms.depth(), SKETCH_DEPTH);
}

#[test]
fn cms_hash_positions_consistent() {
    let cms = CountMinSketch::new(SKETCH_WIDTH, SKETCH_DEPTH).unwrap();

    let item = "foo";
    let positions1 = cms.hash_positions(&item);
    let positions2 = cms.hash_positions(&item);

    assert_eq!(positions1, positions2);
    assert_eq!(positions1.len(), SKETCH_DEPTH);
    for pos in positions1 {
        assert!(pos < SKETCH_WIDTH);
    }
}

#[test]
fn increment() {
    let mut cms = CountMinSketch::new(SKETCH_WIDTH, SKETCH_DEPTH).unwrap();

    let item = "foo";
    cms.increment(&item, 3);

    for (i, pos) in cms.hash_positions(&item).iter().enumerate() {
        let count = cms.counter(i, *pos);
        assert_eq!(count, 3);
    }
}

#[test]
fn frequency() {
    let mut cms = CountMinSketch::new(SKETCH_WIDTH, SKETCH_DEPTH).unwrap();

    let item = "foo";
    cms.increment(&item, 3);
    assert_eq!(cms.frequency(&item), 3);

    let not_inserted_item = "bar";
    assert_eq!(cms.frequency(&not_inserted_item), 0);
}

#[test]
fn cms_wide_sketch_counts_exactly() {
    let mut cms = CountMinSketch::new(1_000_000, 4).unwrap();
    cms.increment("foo", 3);
    assert_eq!(cms.frequency("foo"), 3);
    assert_eq!(cms.frequency("bar"), 0);
}

#[test]
fn cms_rejects_zero_width() {
    assert_eq!(CountMinSketch::new(0, 4).err(), Some(DimensionError::ZeroWidth));
    assert_eq!(CountMinSketch::new(0, 0).err(), Some(DimensionError::ZeroWidth));
}

#[test]
fn cms_rejects_zero_depth() {
    assert_eq!(CountMinSketch::new(1024, 0).err(), Some(DimensionError::ZeroDepth));
}

#[test]
fn cms_repeated_unit_increments_add_up() {
    let mut cms = CountMinSketch::new(SKETCH_WIDTH, SKETCH_DEPTH).unwrap();
    for _ in 0..4 {
        cms.increment("key0", 1);
    }
    assert!(cms.frequency("key0") >= 4);
}

#[test]
fn cms_counters_saturate() {
    let mut cms = CountMinSketch::new(SKETCH_WIDTH, SKETCH_DEPTH).unwrap();
    cms.increment("foo", u32::MAX - 1);
    assert_eq!(cms.frequency("foo"), u32::MAX - 1);
    cms.increment("foo", 5);
    assert_eq!(cms.frequency("foo"), u32::MAX);
    cms.increment("foo", 1);
    assert_eq!(cms.frequency("foo"), u32::MAX);
}

#[test]
fn cms_zero_increment_changes_nothing() {
    let mut cms = CountMinSketch::new(SKETCH_WIDTH, SKETCH_DEPTH).unwrap();
    cms.increment("foo", 0);
    assert_eq!(cms.frequency("foo"), 0);
}

#[test]
fn cms_single_column_takes_all_mass() {
    let mut cms = CountMinSketch::new(1, 3).unwrap();
    cms.increment("a", 2);
    cms.increment("b", 5);
    assert_eq!(cms.frequency("a"), 7);
    assert_eq!(cms.frequency("never"), 7);
    assert_eq!(cms.counter(2, 0), 7);
}

#[test]
fn cms_estimate_is_row_minimum() {
    let mut cms = CountMinSketch::new(SKETCH_WIDTH, 2).unwrap();
    cms.increment_hashed(0, 1, 10);
    cms.increment_hashed(1, 0, 4);
    assert_eq!(cms.digest_positions(0, 1), vec![0, 1]);
    assert_eq!(cms.digest_positions(1, 0), vec![1, 1]);
    assert_eq!(cms.counter(0, 0), 10);
    assert_eq!(cms.counter(0, 1), 4);
    assert_eq!(cms.counter(1, 1), 14);
    assert_eq!(cms.frequency_hashed(0, 1), 10);
    assert_eq!(cms.frequency_hashed(1, 0), 4);
}

#[test]
fn cms_hashed_and_plain_agree() {
    let mut cms = CountMinSketch::new(SKETCH_WIDTH, SKETCH_DEPTH).unwrap();
    let (h1, h2) = digests("foo");
    assert_eq!(cms.hash_positions("foo"), cms.digest_positions(h1, h2));
    cms.increment_hashed(h1, h2, 6);
    assert_eq!(cms.frequency("foo"), 6);
    cms.increment("foo", 1);
    assert_eq!(cms.frequency_hashed(h1, h2), 7);
}

#[test]
fn cms_never_undercounts_many_keys() {
    let mut cms = CountMinSketch::new(100_000, SKETCH_DEPTH).unwrap();
    for t in 0..4 {
        for i in 0..2_000 {
            cms.increment(&format!("t{}-key{}", t, i), 1);
            cms.increment(&format!("key{}", i), 1);
        }
    }
    for t in 0..4 {
        for i in 0..2_000 {
            assert!(cms.frequency(&format!("t{}-key{}", t, i)) >= 1);
            assert!(cms.frequency(&format!("key{}", i)) >= 4);
        }
    }
}
