//! A Count-Min sketch over a matrix of saturating counters.

use crate::error::DimensionError;
use crate::traits::min_int;
use crate::traits::FrequencySketch;
use crate::utils::as_ints;
use crate::utils::digest_positions;
use crate::utils::fill_raw_positions;
use crate::utils::item_positions;
use crate::utils::lemma_positions_in_range;
use crate::utils::multi_hash;
use crate::utils::reduce_positions;
use vstd::prelude::*;

verus! {

/// `a + b`, or `u32::MAX` where the sum does not fit.
pub open spec fn sat_add(a: u32, b: u32) -> u32 {
    if a as int + b as int > u32::MAX as int {
        u32::MAX
    } else {
        (a + b) as u32
    }
}

/// Whether `t` has `depth` rows of `width` counters each.
pub open spec fn shaped(t: Seq<Seq<u32>>, width: nat, depth: nat) -> bool {
    &&& t.len() == depth
    &&& forall|i: int| 0 <= i < depth ==> (#[trigger] t[i]).len() == width
}

/// Whether `ps` holds one column in `[0, width)` for each of `depth` rows.
pub open spec fn columns(ps: Seq<int>, width: nat, depth: nat) -> bool {
    &&& ps.len() == depth
    &&& forall|i: int| 0 <= i < depth ==> 0 <= #[trigger] ps[i] < width
}

/// The counters after adding `count`, saturating, to the counter of row
/// `i` at column `ps[i]`, for each row.
pub open spec fn add_at(t: Seq<Seq<u32>>, ps: Seq<int>, count: u32) -> Seq<Seq<u32>> {
    Seq::new(
        t.len(),
        |i: int|
            if i < ps.len() {
                t[i].update(ps[i], sat_add(t[i][ps[i]], count))
            } else {
                t[i]
            },
    )
}

/// The least of the counters of row `i` at column `ps[i]`, over the rows
/// that `ps` names; `u32::MAX` for none.
pub open spec fn row_min(t: Seq<Seq<u32>>, ps: Seq<int>) -> u32
    decreases ps.len(),
{
    if ps.len() == 0 {
        u32::MAX
    } else {
        let m = row_min(t, ps.drop_last());
        let c = t[ps.len() - 1][ps.last()];
        if c < m {
            c
        } else {
            m
        }
    }
}

/// A `depth` by `width` matrix of counters. Counters only grow, and
/// saturate at `u32::MAX` rather than wrap.
pub struct CountMinSketch {
    table: Vec<Vec<u32>>,
    width: usize,
    depth: usize,
}

impl View for CountMinSketch {
    type V = Seq<Seq<u32>>;

    /// The counters, row by row.
    closed spec fn view(&self) -> Seq<Seq<u32>> {
        self.table@.map_values(|row: Vec<u32>| row@)
    }
}

impl CountMinSketch {
    /// The sketch's invariant: the matrix has `depth` rows of `width`
    /// counters, and both are positive.
    pub closed spec fn wf(&self) -> bool {
        &&& self.width > 0
        &&& self.depth > 0
        &&& shaped(self@, self.width as nat, self.depth as nat)
        &&& self.table@.len() == self.depth
    }

    /// Number of counters in each row.
    pub closed spec fn spec_width(&self) -> nat {
        self.width as nat
    }

    /// Number of rows.
    pub closed spec fn spec_depth(&self) -> nat {
        self.depth as nat
    }

    /// The columns of `item`, one per row.
    pub open spec fn positions_of(&self, item: Seq<char>) -> Seq<int> {
        item_positions(item, self.spec_depth(), self.spec_width())
    }

    /// Builds a sketch of `depth` rows of `width` zero counters. Fails when
    /// either is zero.
    pub fn new(width: usize, depth: usize) -> (r: Result<Self, DimensionError>)
        ensures
            width == 0 ==> r == Err::<Self, DimensionError>(DimensionError::ZeroWidth),
            width > 0 && depth == 0 ==> r == Err::<Self, DimensionError>(
                DimensionError::ZeroDepth,
            ),
            width > 0 && depth > 0 ==> r is Ok,
            r matches Ok(s) ==> {
                &&& s.wf()
                &&& s.spec_width() == width
                &&& s.spec_depth() == depth
                &&& s@ == Seq::new(depth as nat, |i: int| Seq::new(width as nat, |j: int| 0u32))
            },
    {
        if width == 0 {
            return Err(DimensionError::ZeroWidth);
        }
        if depth == 0 {
            return Err(DimensionError::ZeroDepth);
        }
        let mut table: Vec<Vec<u32>> = Vec::new();
        let mut i: usize = 0;
        while i < depth
            invariant
                i <= depth,
                table@.len() == i,
                forall|r: int| 0 <= r < i ==> (#[trigger] table@[r])@ == Seq::new(
                    width as nat,
                    |j: int| 0u32,
                ),
            decreases depth - i,
        {
            let row = vec![0u32; width];
            assert(row@ =~= Seq::new(width as nat, |j: int| 0u32));
            table.push(row);
            i = i + 1;
        }
        let s = CountMinSketch { table, width, depth };
        assert(s@ =~= Seq::new(depth as nat, |i: int| Seq::new(width as nat, |j: int| 0u32)));
        Ok(s)
    }

    /// Number of counters in each row.
    pub fn width(&self) -> (r: usize)
        ensures
            r == self.spec_width(),
    {
        self.width
    }

    /// Number of rows.
    pub fn depth(&self) -> (r: usize)
        ensures
            r == self.spec_depth(),
    {
        self.depth
    }

    /// The counter of row `row` at column `col`.
    pub fn counter(&self, row: usize, col: usize) -> (r: u32)
        requires
            self.wf(),
            row < self.spec_depth(),
            col < self.spec_width(),
        ensures
            r == self@[row as int][col as int],
    {
        assert(self@[row as int] == self.table@[row as int]@);
        self.table[row][col]
    }

    /// The columns in `[0, width)` derived from the digests `h1` and `h2`,
    /// one per row.
    pub fn digest_positions(&self, h1: u64, h2: u64) -> (r: Vec<usize>)
        requires
            self.wf(),
        ensures
            r@.len() == self.spec_depth(),
            forall|i: int|
                0 <= i < r@.len() ==> r@[i] as int == digest_positions(
                    h1,
                    h2,
                    self.spec_depth(),
                    self.spec_width(),
                )[i],
    {
        let mut positions = vec![0usize; self.depth];
        fill_raw_positions(h1, h2, positions.as_mut_slice());
        reduce_positions(&mut positions, self.width);
        positions
    }

    /// The columns of `item`, one per row: the same item always gives the
    /// same columns.
    pub fn hash_positions(&self, item: &str) -> (r: Vec<usize>)
        requires
            self.wf(),
        ensures
            r@.len() == self.spec_depth(),
            forall|i: int| 0 <= i < r@.len() ==> r@[i] as int == self.positions_of(item@)[i],
    {
        let mut positions = vec![0usize; self.depth];
        multi_hash(item, positions.as_mut_slice());
        reduce_positions(&mut positions, self.width);
        positions
    }

    /// Adds `count`, saturating, to the counter of each row at that row's
    /// column in `positions`.
    fn add_positions(&mut self, positions: &Vec<usize>, count: u32)
        requires
            old(self).wf(),
            columns(as_ints(positions@), old(self).spec_width(), old(self).spec_depth()),
        ensures
            final(self).wf(),
            final(self).spec_width() == old(self).spec_width(),
            final(self).spec_depth() == old(self).spec_depth(),
            final(self)@ == add_at(old(self)@, as_ints(positions@), count),
    {
        let n = positions.len();
        let mut i: usize = 0;
        while i < n
            invariant
                self.wf(),
                n == positions@.len(),
                i <= n,
                self.spec_width() == old(self).spec_width(),
                self.spec_depth() == old(self).spec_depth(),
                columns(as_ints(positions@), old(self).spec_width(), old(self).spec_depth()),
                self@ == add_at(old(self)@, as_ints(positions@.take(i as int)), count),
            decreases n - i,
        {
            let pos = positions[i];
            assert(as_ints(positions@)[i as int] == pos as int);
            assert(self@[i as int] == self.table@[i as int]@);
            let c = self.table[i][pos];
            let v = c.saturating_add(count);
            let ghost before = self@;
            let ghost old_table = self.table@;
            self.table[i][pos] = v;
            assert(forall|r: int| 0 <= r < old_table.len() && r != i ==> self.table@[r] == old_table[r]);
            assert(self@ =~= before.update(i as int, before[i as int].update(pos as int, v)));
            assert(as_ints(positions@.take(i + 1)) =~= as_ints(positions@.take(i as int)).push(
                pos as int,
            ));
            assert(self@ =~= add_at(old(self)@, as_ints(positions@.take(i + 1)), count)) by {
                assert forall|r: int| 0 <= r < self.depth implies #[trigger] self@[r] == add_at(
                    old(self)@,
                    as_ints(positions@.take(i + 1)),
                    count,
                )[r] by {
                    if r == i {
                        assert(self@[r] =~= before[r].update(pos as int, v));
                    }
                }
            }
            i = i + 1;
        }
        assert(positions@.take(n as int) =~= positions@);
    }

    /// The least counter over the rows, each at its column in `positions`.
    fn min_at_positions(&self, positions: &Vec<usize>) -> (r: u32)
        requires
            self.wf(),
            columns(as_ints(positions@), self.spec_width(), self.spec_depth()),
        ensures
            r == row_min(self@, as_ints(positions@)),
    {
        let n = positions.len();
        let mut min_count = u32::MAX;
        let mut i: usize = 0;
        while i < n
            invariant
                self.wf(),
                n == positions@.len(),
                i <= n,
                columns(as_ints(positions@), self.spec_width(), self.spec_depth()),
                min_count == row_min(self@, as_ints(positions@.take(i as int))),
            decreases n - i,
        {
            let pos = positions[i];
            assert(as_ints(positions@)[i as int] == pos as int);
            assert(self@[i as int] == self.table@[i as int]@);
            let count = self.table[i][pos];
            if count < min_count {
                min_count = count;
            }
            assert(as_ints(positions@.take(i + 1)).drop_last() =~= as_ints(
                positions@.take(i as int),
            ));
            i = i + 1;
        }
        assert(positions@.take(n as int) =~= positions@);
        min_count
    }

    /// Adds `count`, saturating, to the frequency of the item whose digests
    /// are `h1` and `h2`.
    pub fn increment_hashed(&mut self, h1: u64, h2: u64, count: u32)
        requires
            old(self).wf(),
        ensures
            final(self).wf(),
            final(self).spec_width() == old(self).spec_width(),
            final(self).spec_depth() == old(self).spec_depth(),
            final(self)@ == add_at(
                old(self)@,
                digest_positions(h1, h2, old(self).spec_depth(), old(self).spec_width()),
                count,
            ),
    {
        let positions = self.digest_positions(h1, h2);
        assert(as_ints(positions@) =~= digest_positions(
            h1,
            h2,
            self.spec_depth(),
            self.spec_width(),
        ));
        self.add_positions(&positions, count);
    }

    /// The estimated frequency of the item whose digests are `h1` and `h2`.
    pub fn frequency_hashed(&self, h1: u64, h2: u64) -> (r: u32)
        requires
            self.wf(),
        ensures
            r == row_min(
                self@,
                digest_positions(h1, h2, self.spec_depth(), self.spec_width()),
            ),
    {
        let positions = self.digest_positions(h1, h2);
        assert(as_ints(positions@) =~= digest_positions(
            h1,
            h2,
            self.spec_depth(),
            self.spec_width(),
        ));
        self.min_at_positions(&positions)
    }
}

impl FrequencySketch for CountMinSketch {
    open spec fn well_formed(&self) -> bool {
        self.wf()
    }

    /// The least counter over the rows, each at the item's column.
    open spec fn estimate(&self, item: Seq<char>) -> u32 {
        row_min(self@, self.positions_of(item))
    }

    /// Adds `count`, saturating, to the counter of each row at the item's
    /// column.
    fn increment(&mut self, item: &str, count: u32)
        ensures
            final(self).spec_width() == old(self).spec_width(),
            final(self).spec_depth() == old(self).spec_depth(),
            final(self)@ == add_at(old(self)@, old(self).positions_of(item@), count),
    {
        let positions = self.hash_positions(item);
        assert(as_ints(positions@) =~= self.positions_of(item@));
        proof {
            lemma_positions_in_range(item@, self.spec_depth(), self.spec_width());
        }
        self.add_positions(&positions, count);
        proof {
            let w = self.spec_width();
            let d = self.spec_depth();
            assert forall|x: Seq<char>| #[trigger] self.estimate(x) >= old(self).estimate(x) by {
                lemma_positions_in_range(x, d, w);
                lemma_add_at_estimates(old(self)@, self.positions_of(item@), count, old(self).positions_of(x), w, d);
            }
            lemma_add_at_estimates(old(self)@, self.positions_of(item@), count, self.positions_of(item@), w, d);
        }
    }

    /// The least counter over the rows, each at the item's column.
    fn frequency(&self, item: &str) -> (r: u32)
        ensures
            r == row_min(self@, self.positions_of(item@)),
    {
        let positions = self.hash_positions(item);
        assert(as_ints(positions@) =~= self.positions_of(item@));
        proof {
            lemma_positions_in_range(item@, self.spec_depth(), self.spec_width());
        }
        self.min_at_positions(&positions)
    }
}

/// The row minimum is at most the counter of any row it ranges over.
proof fn lemma_row_min_le(t: Seq<Seq<u32>>, ps: Seq<int>, i: int)
    requires
        0 <= i < ps.len(),
    ensures
        row_min(t, ps) <= t[i][ps[i]],
    decreases ps.len(),
{
    if i < ps.len() - 1 {
        lemma_row_min_le(t, ps.drop_last(), i);
    }
}

/// The row minimum is at least any bound that every row's counter meets.
proof fn lemma_row_min_ge(t: Seq<Seq<u32>>, ps: Seq<int>, v: int)
    requires
        v <= u32::MAX,
        forall|i: int| 0 <= i < ps.len() ==> t[i][ps[i]] >= v,
    ensures
        row_min(t, ps) >= v,
    decreases ps.len(),
{
    if ps.len() > 0 {
        lemma_row_min_ge(t, ps.drop_last(), v);
    }
}

/// Adding at the columns `ps` keeps the shape, lowers no estimate, and
/// raises the estimate at `ps` by the count, saturating.
pub proof fn lemma_add_at_estimates(
    t: Seq<Seq<u32>>,
    ps: Seq<int>,
    count: u32,
    qs: Seq<int>,
    width: nat,
    depth: nat,
)
    requires
        shaped(t, width, depth),
        columns(ps, width, depth),
        columns(qs, width, depth),
    ensures
        shaped(add_at(t, ps, count), width, depth),
        row_min(add_at(t, ps, count), qs) >= row_min(t, qs),
        row_min(add_at(t, ps, count), ps) >= min_int(row_min(t, ps) + count, u32::MAX as int),
{
    let u = add_at(t, ps, count);
    assert forall|i: int| 0 <= i < depth implies (#[trigger] u[i]).len() == width by {}
    assert forall|i: int| 0 <= i < qs.len() implies u[i][qs[i]] >= row_min(t, qs) by {
        lemma_row_min_le(t, qs, i);
    }
    lemma_row_min_ge(u, qs, row_min(t, qs) as int);
    assert forall|i: int| 0 <= i < ps.len() implies u[i][ps[i]] >= min_int(
        row_min(t, ps) + count,
        u32::MAX as int,
    ) by {
        lemma_row_min_le(t, ps, i);
    }
    lemma_row_min_ge(u, ps, min_int(row_min(t, ps) + count, u32::MAX as int));
}

/// The counters after adding each `(item, count)` of `ops` in turn, from
/// `t`, in a sketch of `depth` rows of `width` counters.
pub open spec fn increment_all(
    t: Seq<Seq<u32>>,
    ops: Seq<(Seq<char>, u32)>,
    width: nat,
    depth: nat,
) -> Seq<Seq<u32>>
    decreases ops.len(),
{
    if ops.len() == 0 {
        t
    } else {
        add_at(
            increment_all(t, ops.drop_last(), width, depth),
            item_positions(ops.last().0, depth, width),
            ops.last().1,
        )
    }
}

/// The total count that `ops` adds for `item`.
pub open spec fn weight(ops: Seq<(Seq<char>, u32)>, item: Seq<char>) -> int
    decreases ops.len(),
{
    if ops.len() == 0 {
        0
    } else {
        weight(ops.drop_last(), item) + if ops.last().0 == item {
            ops.last().1 as int
        } else {
            0
        }
    }
}

/// No undercount: after any sequence of increments, the estimate of an item
/// is at least the total count added for it, up to `u32::MAX`.
pub proof fn lemma_never_undercounts(
    t: Seq<Seq<u32>>,
    ops: Seq<(Seq<char>, u32)>,
    item: Seq<char>,
    width: nat,
    depth: nat,
)
    requires
        width > 0,
        shaped(t, width, depth),
    ensures
        shaped(increment_all(t, ops, width, depth), width, depth),
        row_min(increment_all(t, ops, width, depth), item_positions(item, depth, width))
            >= min_int(weight(ops, item), u32::MAX as int),
    decreases ops.len(),
{
    lemma_positions_in_range(item, depth, width);
    if ops.len() > 0 {
        let prev = increment_all(t, ops.drop_last(), width, depth);
        lemma_never_undercounts(t, ops.drop_last(), item, width, depth);
        lemma_positions_in_range(ops.last().0, depth, width);
        lemma_add_at_estimates(
            prev,
            item_positions(ops.last().0, depth, width),
            ops.last().1,
            item_positions(item, depth, width),
            width,
            depth,
        );
    }
}

} // verus!
