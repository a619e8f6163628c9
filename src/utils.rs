//! Derivation of hash positions by enhanced double hashing.

use std::hash::Hash;
use std::hash::Hasher;
use vstd::prelude::*;
use xxhash_rust::xxh3::Xxh3;

verus! {

/// Seed of the xxh3 hasher that gives the first digest.
pub const FIRST_SEED: u64 = 0;

/// Seed of the xxh3 hasher that gives the second digest.
pub const SECOND_SEED: u64 = 0x7FFFFFFF;

/// The digest that an xxh3 hasher built with `seed` gives for `item`.
pub uninterp spec fn xxh3_digest(item: Seq<char>, seed: u64) -> u64;

/// Relies on `xxhash_rust::xxh3::Xxh3`: `with_seed`, then `Hasher::write`
/// (through `Hash` for `str`), then `Hasher::finish`. The digest is a
/// function of the characters and the seed.
#[verifier::external_body]
fn xxh3_with_seed(item: &str, seed: u64) -> (r: u64)
    ensures
        r == xxh3_digest(item@, seed),
{
    let mut hasher = Xxh3::with_seed(seed);
    item.hash(&mut hasher);
    hasher.finish()
}

/// The first digest of an item.
pub open spec fn first_digest(item: Seq<char>) -> u64 {
    xxh3_digest(item, FIRST_SEED)
}

/// The second digest of an item.
pub open spec fn second_digest(item: Seq<char>) -> u64 {
    xxh3_digest(item, SECOND_SEED)
}

/// The `i`-th raw position: `h1 + i * h2` modulo 2^64.
pub open spec fn raw_position(h1: u64, h2: u64, i: int) -> u64 {
    ((h1 as int + i * (h2 as int)) % 0x1_0000_0000_0000_0000) as u64
}

/// The `k` positions in `[0, range)` derived from the digests `h1` and `h2`.
pub open spec fn digest_positions(h1: u64, h2: u64, k: nat, range: nat) -> Seq<int> {
    Seq::new(k, |i: int| (raw_position(h1, h2, i) as usize) as int % (range as int))
}

/// The `k` positions in `[0, range)` derived from an item.
pub open spec fn item_positions(item: Seq<char>, k: nat, range: nat) -> Seq<int> {
    digest_positions(first_digest(item), second_digest(item), k, range)
}

/// The positions as integers.
pub open spec fn as_ints(ps: Seq<usize>) -> Seq<int> {
    ps.map_values(|p: usize| p as int)
}

/// Computes `h1 + i * h2` with wraparound.
pub fn raw_position_of(h1: u64, h2: u64, i: u64) -> (r: u64)
    ensures
        r == raw_position(h1, h2, i as int),
{
    let p = i.wrapping_mul(h2);
    let r = h1.wrapping_add(p);
    proof {
        let m: int = 0x1_0000_0000_0000_0000;
        assert(p as int == (i as int * h2 as int) % m);
        vstd::arithmetic::div_mod::lemma_add_mod_noop(h1 as int, i as int * h2 as int, m);
        vstd::arithmetic::div_mod::lemma_small_mod(h1 as nat, m as nat);
        vstd::arithmetic::div_mod::lemma_mod_twice(i as int * h2 as int, m);
    }
    r
}

/// Writes the raw positions derived from the digests `h1` and `h2` into
/// every slot of `output`.
pub fn fill_raw_positions(h1: u64, h2: u64, output: &mut [usize])
    ensures
        final(output)@.len() == old(output)@.len(),
        forall|i: int|
            0 <= i < final(output)@.len() ==> final(output)@[i] == raw_position(h1, h2, i) as usize,
{
    let n = output.len();
    let mut i: usize = 0;
    while i < n
        invariant
            i <= n,
            output@.len() == n,
            n == old(output)@.len(),
            forall|j: int| 0 <= j < i ==> output@[j] == raw_position(h1, h2, j) as usize,
        decreases n - i,
    {
        let r = raw_position_of(h1, h2, i as u64);
        output[i] = r as usize;
        i = i + 1;
    }
}

/// Writes into every slot of `output` the raw position of the item for that
/// slot's index, by double hashing over its two xxh3 digests.
pub fn multi_hash(item: &str, output: &mut [usize])
    ensures
        final(output)@.len() == old(output)@.len(),
        forall|i: int|
            0 <= i < final(output)@.len() ==> final(output)@[i] == raw_position(
                first_digest(item@),
                second_digest(item@),
                i,
            ) as usize,
{
    let h1 = xxh3_with_seed(item, FIRST_SEED);
    let h2 = xxh3_with_seed(item, SECOND_SEED);
    fill_raw_positions(h1, h2, output);
}

/// Reduces each raw position modulo `range`.
pub fn reduce_positions(positions: &mut Vec<usize>, range: usize)
    requires
        range > 0,
    ensures
        final(positions)@.len() == old(positions)@.len(),
        forall|i: int|
            0 <= i < old(positions)@.len() ==> final(positions)@[i] as int == old(positions)@[i] as int
                % (range as int),
{
    let n = positions.len();
    let mut i: usize = 0;
    while i < n
        invariant
            range > 0,
            i <= n,
            n == old(positions)@.len(),
            positions@.len() == n,
            forall|j: int|
                0 <= j < i ==> positions@[j] as int == old(positions)@[j] as int % (range as int),
            forall|j: int| i <= j < n ==> positions@[j] == old(positions)@[j],
        decreases n - i,
    {
        let p = positions[i] % range;
        positions.set(i, p);
        i = i + 1;
    }
}

/// Every position of an item lies in `[0, range)`.
pub proof fn lemma_positions_in_range(item: Seq<char>, k: nat, range: nat)
    requires
        range > 0,
    ensures
        forall|i: int|
            0 <= i < k ==> 0 <= #[trigger] item_positions(item, k, range)[i] < range,
{
}

/// Deriving positions is deterministic: equal items with the same count
/// and range always give the same positions.
pub proof fn lemma_positions_deterministic(a: Seq<char>, b: Seq<char>, k: nat, range: nat)
    requires
        a == b,
    ensures
        item_positions(a, k, range) == item_positions(b, k, range),
{
}

} // verus!
