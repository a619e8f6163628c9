use std::hash::Hash;
use std::hash::Hasher;

use pithanos::utils::multi_hash;
use pithanos::utils::raw_position_of;
use xxhash_rust::xxh3::Xxh3;

#[test]
fn multi_hash_correct() {
    let item = "foo";
    let mut output = vec![0; 2];
    multi_hash(&item, &mut output);

    let first_hash = {
        let mut hasher = Xxh3::new();
        item.hash(&mut hasher);
        hasher.finish() as usize
    };
    let second_hash = {
        let mut hasher = Xxh3::with_seed(0x7FFFFFFF);
        item.hash(&mut hasher);
        first_hash.wrapping_add(hasher.finish() as usize)
    };

    assert_eq!(output[0], first_hash);
    assert_eq!(output[1], second_hash);
}

#[test]
fn multi_hash_is_deterministic() {
    let mut a = vec![0usize; 6];
    let mut b = vec![0usize; 6];
    multi_hash("key42", &mut a);
    multi_hash("key42", &mut b);
    assert_eq!(a, b);
    let mut c = vec![0usize; 6];
    multi_hash("key43", &mut c);
    assert_ne!(a, c);
}

#[test]
fn multi_hash_empty_output() {
    let mut output: Vec<usize> = Vec::new();
    multi_hash("foo", &mut output);
    assert!(output.is_empty());
}

#[test]
fn raw_position_wraps() {
    assert_eq!(raw_position_of(5, 3, 0), 5);
    assert_eq!(raw_position_of(5, 3, 4), 17);
    assert_eq!(raw_position_of(u64::MAX, 1, 1), 0);
    assert_eq!(raw_position_of(1, u64::MAX, 2), u64::MAX);
}
