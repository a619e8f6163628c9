//! A Bloom filter over a packed bit array.

use crate::error::DimensionError;
use crate::utils::as_ints;
use crate::utils::digest_positions;
use crate::utils::fill_raw_positions;
use crate::utils::item_positions;
use crate::utils::lemma_positions_in_range;
use crate::traits::ProbabilisticSet;
use crate::utils::multi_hash;
use crate::utils::reduce_positions;
use vstd::prelude::*;

verus! {

/// Number of bits held by one word of the bit array.
pub const WORD_BITS: usize = 64;

/// Whether bit `i` is set in the packed words.
pub open spec fn word_bit(words: Seq<u64>, i: int) -> bool {
    (words[i / 64] >> ((i % 64) as u64)) & 1u64 == 1u64
}

/// The bits after setting each of `ps`.
pub open spec fn set_bits(bits: Seq<bool>, ps: Seq<int>) -> Seq<bool> {
    Seq::new(bits.len(), |j: int| bits[j] || ps.contains(j))
}

/// Whether every one of the positions `ps` is set.
pub open spec fn all_set(bits: Seq<bool>, ps: Seq<int>) -> bool {
    forall|i: int| 0 <= i < ps.len() ==> bits[ps[i]]
}

/// Number of words that hold `size` bits.
pub open spec fn word_count_for(size: nat) -> nat {
    ((size + 63) / 64) as nat
}

/// A fixed-size bit array with `hash_fn_count` positions per item. Bits go
/// from clear to set and never back.
pub struct BloomFilter {
    bits: Vec<u64>,
    size: usize,
    hash_fn_count: usize,
}

impl View for BloomFilter {
    type V = Seq<bool>;

    /// The bit array, one entry for each of the `size` bits.
    closed spec fn view(&self) -> Seq<bool> {
        Seq::new(self.size as nat, |i: int| word_bit(self.bits@, i))
    }
}

proof fn lemma_or_bit(w: u64, b: u64, c: u64)
    requires
        b < 64,
        c < 64,
    ensures
        ((w | (1u64 << b)) >> c) & 1u64 == 1u64 <==> ((w >> c) & 1u64 == 1u64 || b == c),
{
    assert(((w | (1u64 << b)) >> c) & 1u64 == 1u64 <==> ((w >> c) & 1u64 == 1u64 || b == c))
        by (bit_vector)
        requires
            b < 64,
            c < 64,
    ;
}

impl BloomFilter {
    /// The filter's invariant: the words hold exactly `size` bits, and both
    /// dimensions are positive.
    pub closed spec fn wf(&self) -> bool {
        &&& self.size > 0
        &&& self.hash_fn_count > 0
        &&& self.bits@.len() == word_count_for(self.size as nat)
    }

    /// Number of positions derived for each item.
    pub closed spec fn spec_hash_fn_count(&self) -> nat {
        self.hash_fn_count as nat
    }

    /// The positions of `item` in this filter.
    pub open spec fn positions_of(&self, item: Seq<char>) -> Seq<int> {
        item_positions(item, self.spec_hash_fn_count(), self@.len())
    }

    /// Builds a filter of `size` clear bits that derives `hash_fn_count`
    /// positions per item. Fails when either is zero.
    pub fn new(size: usize, hash_fn_count: usize) -> (r: Result<Self, DimensionError>)
        ensures
            size == 0 ==> r == Err::<Self, DimensionError>(DimensionError::ZeroSize),
            size > 0 && hash_fn_count == 0 ==> r == Err::<Self, DimensionError>(
                DimensionError::ZeroHashFnCount,
            ),
            size > 0 && hash_fn_count > 0 ==> r is Ok,
            r matches Ok(f) ==> {
                &&& f.wf()
                &&& f@ == Seq::new(size as nat, |i: int| false)
                &&& f.spec_hash_fn_count() == hash_fn_count
            },
    {
        if size == 0 {
            return Err(DimensionError::ZeroSize);
        }
        if hash_fn_count == 0 {
            return Err(DimensionError::ZeroHashFnCount);
        }
        let words = size / WORD_BITS + if size % WORD_BITS == 0 { 0 } else { 1 };
        let bits = vec![0u64; words];
        let f = BloomFilter { bits, size, hash_fn_count };
        assert forall|i: int| 0 <= i < size implies !word_bit(f.bits@, i) by {
            let c = (i % 64) as u64;
            assert((0u64 >> c) & 1u64 == 0u64) by (bit_vector);
        }
        assert(f@ =~= Seq::new(size as nat, |i: int| false));
        Ok(f)
    }

    /// Number of bits.
    pub fn size(&self) -> (r: usize)
        ensures
            r == self@.len(),
    {
        self.size
    }

    /// Number of positions derived for each item.
    pub fn hash_fn_count(&self) -> (r: usize)
        ensures
            r == self.spec_hash_fn_count(),
    {
        self.hash_fn_count
    }

    /// Number of words in the bit array.
    pub fn word_count(&self) -> (r: usize)
        requires
            self.wf(),
        ensures
            r == word_count_for(self@.len()),
    {
        self.bits.len()
    }

    /// Whether bit `pos` is set.
    pub fn bit(&self, pos: usize) -> (r: bool)
        requires
            self.wf(),
            pos < self@.len(),
        ensures
            r == self@[pos as int],
    {
        (self.bits[pos / WORD_BITS] >> ((pos % WORD_BITS) as u64)) & 1u64 == 1u64
    }

    /// The positions in `[0, size)` derived from the digests `h1` and `h2`.
    pub fn digest_positions(&self, h1: u64, h2: u64) -> (r: Vec<usize>)
        requires
            self.wf(),
        ensures
            r@.len() == self.spec_hash_fn_count(),
            forall|i: int|
                0 <= i < r@.len() ==> r@[i] as int == digest_positions(
                    h1,
                    h2,
                    self.spec_hash_fn_count(),
                    self@.len(),
                )[i],
    {
        let mut positions = vec![0usize; self.hash_fn_count];
        fill_raw_positions(h1, h2, positions.as_mut_slice());
        reduce_positions(&mut positions, self.size);
        positions
    }

    /// The positions of `item` in `[0, size)`: the same item always gives
    /// the same positions.
    pub fn hash_positions(&self, item: &str) -> (r: Vec<usize>)
        requires
            self.wf(),
        ensures
            r@.len() == self.spec_hash_fn_count(),
            forall|i: int| 0 <= i < r@.len() ==> r@[i] as int == self.positions_of(item@)[i],
    {
        let mut positions = vec![0usize; self.hash_fn_count];
        multi_hash(item, positions.as_mut_slice());
        reduce_positions(&mut positions, self.size);
        positions
    }

    /// Sets bit `pos`.
    fn set_bit(&mut self, pos: usize)
        requires
            old(self).wf(),
            pos < old(self)@.len(),
        ensures
            final(self).wf(),
            final(self).spec_hash_fn_count() == old(self).spec_hash_fn_count(),
            final(self)@ == set_bits(old(self)@, seq![pos as int]),
    {
        let w = pos / WORD_BITS;
        let b = (pos % WORD_BITS) as u64;
        let ghost old_bits = self.bits@;
        let word = self.bits[w] | (1u64 << b);
        self.bits.set(w, word);
        let ghost one = seq![pos as int];
        assert forall|i: int| 0 <= i < self.size implies #[trigger] self@[i] == set_bits(
            old(self)@,
            one,
        )[i] by {
            let c = (i % 64) as u64;
            if i / 64 == w as int {
                lemma_or_bit(old_bits[w as int], b, c);
                if i != pos {
                    assert(c != b);
                }
            } else {
                assert(self.bits@[i / 64] == old_bits[i / 64]);
                assert(i != pos);
            }
            assert(word_bit(self.bits@, i) == (word_bit(old_bits, i) || i == pos));
            if i == pos {
                assert(one[0] == i);
            }
            assert(one.contains(i) <==> i == pos);
        }
        assert(self@ =~= set_bits(old(self)@, one));
    }

    /// Sets every one of `positions`.
    fn set_positions(&mut self, positions: &Vec<usize>)
        requires
            old(self).wf(),
            forall|i: int| 0 <= i < positions@.len() ==> positions@[i] < old(self)@.len(),
        ensures
            final(self).wf(),
            final(self).spec_hash_fn_count() == old(self).spec_hash_fn_count(),
            final(self)@ == set_bits(old(self)@, as_ints(positions@)),
    {
        let n = positions.len();
        let mut j: usize = 0;
        while j < n
            invariant
                self.wf(),
                n == positions@.len(),
                j <= n,
                self.spec_hash_fn_count() == old(self).spec_hash_fn_count(),
                self@.len() == old(self)@.len(),
                forall|i: int| 0 <= i < positions@.len() ==> positions@[i] < old(self)@.len(),
                self@ == set_bits(old(self)@, as_ints(positions@.take(j as int))),
            decreases n - j,
        {
            self.set_bit(positions[j]);
            assert(as_ints(positions@.take(j + 1)) =~= as_ints(positions@.take(j as int)).push(
                positions@[j as int] as int,
            ));
            let ghost ps = as_ints(positions@.take(j as int));
            let ghost qs = as_ints(positions@.take(j + 1));
            assert forall|i: int| 0 <= i < self@.len() implies (qs.contains(i) <==> (ps.contains(i)
                || seq![positions@[j as int] as int].contains(i))) by {
                if qs.contains(i) {
                    let k = choose|k: int| 0 <= k < qs.len() && qs[k] == i;
                    if k < j {
                        assert(ps[k] == i);
                    } else {
                        assert(seq![positions@[j as int] as int][0] == i);
                    }
                }
                if ps.contains(i) {
                    let k = choose|k: int| 0 <= k < ps.len() && ps[k] == i;
                    assert(qs[k] == i);
                }
                if seq![positions@[j as int] as int].contains(i) {
                    assert(qs[j as int] == i);
                }
            }
            assert(self@ =~= set_bits(old(self)@, qs));
            j = j + 1;
        }
        assert(positions@.take(n as int) =~= positions@);
    }

    /// Whether every one of `positions` is set.
    fn all_positions_set(&self, positions: &Vec<usize>) -> (r: bool)
        requires
            self.wf(),
            forall|i: int| 0 <= i < positions@.len() ==> positions@[i] < self@.len(),
        ensures
            r == all_set(self@, as_ints(positions@)),
    {
        let n = positions.len();
        let mut j: usize = 0;
        while j < n
            invariant
                self.wf(),
                n == positions@.len(),
                j <= n,
                forall|i: int| 0 <= i < positions@.len() ==> positions@[i] < self@.len(),
                forall|i: int| 0 <= i < j ==> self@[positions@[i] as int],
            decreases n - j,
        {
            if !self.bit(positions[j]) {
                assert(!self@[as_ints(positions@)[j as int]]);
                return false;
            }
            j = j + 1;
        }
        true
    }

    /// Records the item whose digests are `h1` and `h2`: sets the bit at
    /// each of its positions.
    pub fn insert_hashed(&mut self, h1: u64, h2: u64)
        requires
            old(self).wf(),
        ensures
            final(self).wf(),
            final(self).spec_hash_fn_count() == old(self).spec_hash_fn_count(),
            final(self)@ == set_bits(
                old(self)@,
                digest_positions(h1, h2, old(self).spec_hash_fn_count(), old(self)@.len()),
            ),
    {
        let positions = self.digest_positions(h1, h2);
        assert(as_ints(positions@) =~= digest_positions(
            h1,
            h2,
            self.spec_hash_fn_count(),
            self@.len(),
        ));
        self.set_positions(&positions);
    }

    /// Whether every position of the item whose digests are `h1` and `h2`
    /// is set.
    pub fn contains_hashed(&self, h1: u64, h2: u64) -> (r: bool)
        requires
            self.wf(),
        ensures
            r == all_set(
                self@,
                digest_positions(h1, h2, self.spec_hash_fn_count(), self@.len()),
            ),
    {
        let positions = self.digest_positions(h1, h2);
        assert(as_ints(positions@) =~= digest_positions(
            h1,
            h2,
            self.spec_hash_fn_count(),
            self@.len(),
        ));
        self.all_positions_set(&positions)
    }
}

impl ProbabilisticSet for BloomFilter {
    open spec fn well_formed(&self) -> bool {
        self.wf()
    }

    /// Every position of the item is set.
    open spec fn may_contain(&self, item: Seq<char>) -> bool {
        all_set(self@, self.positions_of(item))
    }

    /// Sets the bit at each position of the item.
    fn insert(&mut self, item: &str)
        ensures
            final(self).spec_hash_fn_count() == old(self).spec_hash_fn_count(),
            final(self)@ == set_bits(old(self)@, old(self).positions_of(item@)),
    {
        let positions = self.hash_positions(item);
        assert(as_ints(positions@) =~= self.positions_of(item@));
        self.set_positions(&positions);
        proof {
            lemma_set_bits_keeps(old(self)@, self.positions_of(item@));
        }
    }

    /// Whether the bit at each position of the item is set.
    fn contains(&self, item: &str) -> (r: bool)
        ensures
            r == all_set(self@, self.positions_of(item@)),
    {
        let positions = self.hash_positions(item);
        assert(as_ints(positions@) =~= self.positions_of(item@));
        self.all_positions_set(&positions)
    }
}

/// Setting positions leaves them set and keeps every bit that was set.
pub proof fn lemma_set_bits_keeps(bits: Seq<bool>, ps: Seq<int>)
    requires
        forall|i: int| 0 <= i < ps.len() ==> 0 <= #[trigger] ps[i] < bits.len(),
    ensures
        all_set(set_bits(bits, ps), ps),
        forall|qs: Seq<int>|
            #![trigger all_set(bits, qs)]
            (forall|i: int| 0 <= i < qs.len() ==> 0 <= #[trigger] qs[i] < bits.len()) && all_set(bits, qs)
                ==> all_set(set_bits(bits, ps), qs),
{
    assert forall|i: int| 0 <= i < ps.len() implies set_bits(bits, ps)[ps[i]] by {
        assert(ps.contains(ps[i]));
    }
}

/// The bits after inserting each of `items` in turn, from `bits`, with `k`
/// positions per item.
pub open spec fn insert_all(bits: Seq<bool>, items: Seq<Seq<char>>, k: nat) -> Seq<bool>
    decreases items.len(),
{
    if items.len() == 0 {
        bits
    } else {
        set_bits(insert_all(bits, items.drop_last(), k), item_positions(items.last(), k, bits.len()))
    }
}

proof fn lemma_insert_all_len(bits: Seq<bool>, items: Seq<Seq<char>>, k: nat)
    ensures
        insert_all(bits, items, k).len() == bits.len(),
    decreases items.len(),
{
    if items.len() > 0 {
        lemma_insert_all_len(bits, items.drop_last(), k);
    }
}

/// No false negatives: once an item has been inserted, it tests positively
/// after any number of further insertions, of any items.
pub proof fn lemma_no_false_negatives(bits: Seq<bool>, items: Seq<Seq<char>>, k: nat, j: int)
    requires
        bits.len() > 0,
        0 <= j < items.len(),
    ensures
        all_set(insert_all(bits, items, k), item_positions(items[j], k, bits.len())),
    decreases items.len(),
{
    let n = bits.len();
    let prev = insert_all(bits, items.drop_last(), k);
    lemma_insert_all_len(bits, items.drop_last(), k);
    lemma_positions_in_range(items.last(), k, n);
    lemma_positions_in_range(items[j], k, n);
    lemma_set_bits_keeps(prev, item_positions(items.last(), k, n));
    if j < items.len() - 1 {
        lemma_no_false_negatives(bits, items.drop_last(), k, j);
        assert(items.drop_last()[j] == items[j]);
    }
}

/// Inserting an item a second time leaves the bit array exactly as the
/// first insertion left it.
pub proof fn lemma_insert_idempotent(bits: Seq<bool>, item: Seq<char>, k: nat)
    ensures
        set_bits(
            set_bits(bits, item_positions(item, k, bits.len())),
            item_positions(item, k, bits.len()),
        ) == set_bits(bits, item_positions(item, k, bits.len())),
{
    let ps = item_positions(item, k, bits.len());
    assert(set_bits(set_bits(bits, ps), ps) =~= set_bits(bits, ps));
}

} // verus!
