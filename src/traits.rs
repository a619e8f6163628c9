//! The capabilities that the structures offer to their callers.

use vstd::prelude::*;

verus! {

/// The smaller of two integers.
pub open spec fn min_int(a: int, b: int) -> int {
    if a <= b {
        a
    } else {
        b
    }
}

/// A structure that supports probabilistic membership queries: an item that
/// was inserted always tests positively; one that was not may too.
pub trait ProbabilisticSet {
    /// The structure's invariant.
    spec fn well_formed(&self) -> bool;

    /// Whether `item` tests positively in this state.
    spec fn may_contain(&self, item: Seq<char>) -> bool;

    /// Inserts an item: it tests positively afterwards, and so does every
    /// item that did before.
    fn insert(&mut self, item: &str)
        requires
            old(self).well_formed(),
        ensures
            final(self).well_formed(),
            final(self).may_contain(item@),
            forall|x: Seq<char>| old(self).may_contain(x) ==> final(self).may_contain(x),
    ;

    /// Whether an item is probably in the set.
    fn contains(&self, item: &str) -> (r: bool)
        requires
            self.well_formed(),
        ensures
            r == self.may_contain(item@),
    ;
}

/// A structure that supports approximate frequency counting: an estimate is
/// never below the total weight added for the item (up to `u32::MAX`).
pub trait FrequencySketch {
    /// The structure's invariant.
    spec fn well_formed(&self) -> bool;

    /// The estimated frequency of `item` in this state.
    spec fn estimate(&self, item: Seq<char>) -> u32;

    /// Adds `count` to the frequency of an item: its estimate grows by at
    /// least `count` (up to `u32::MAX`), and no estimate shrinks.
    fn increment(&mut self, item: &str, count: u32)
        requires
            old(self).well_formed(),
        ensures
            final(self).well_formed(),
            final(self).estimate(item@) >= min_int(
                old(self).estimate(item@) + count,
                u32::MAX as int,
            ),
            forall|x: Seq<char>| final(self).estimate(x) >= old(self).estimate(x),
    ;

    /// Estimates the frequency of an item.
    fn frequency(&self, item: &str) -> (r: u32)
        requires
            self.well_formed(),
        ensures
            r == self.estimate(item@),
    ;
}

} // verus!
