//! Arcs over the circular location space.
use vstd::prelude::*;

verus! {

/// A range of the circular `u32` location space, from `start` to `end`.
///
/// When `start <= end` the arc is the half-open interval `[start, end)`.
/// When `start > end` the arc wraps past the top of the space and covers
/// `[start, u32::MAX]` together with `[0, end]`.
#[derive(Clone, Copy, Debug, PartialEq, Eq, Structural)]
pub struct StorageArc {
    pub start: u32,
    pub end: u32,
}

/// Whether `loc` lies in the arc from `start` to `end`.
pub open spec fn arc_contains(start: u32, end: u32, loc: u32) -> bool {
    if start <= end {
        start <= loc && loc < end
    } else {
        start <= loc || loc <= end
    }
}

/// Whether some location lies in both arcs.
pub open spec fn arcs_overlap(a: StorageArc, b: StorageArc) -> bool {
    exists|x: u32| arc_contains(a.start, a.end, x) && arc_contains(b.start, b.end, x)
}

impl StorageArc {
    pub fn new(start: u32, end: u32) -> (r: StorageArc)
        ensures
            r.start == start,
            r.end == end,
    {
        StorageArc { start, end }
    }

    /// Whether the arc covers the location.
    pub fn contains(&self, loc: u32) -> (r: bool)
        ensures
            r == arc_contains(self.start, self.end, loc),
    {
        if self.start <= self.end {
            self.start <= loc && loc < self.end
        } else {
            self.start <= loc || loc <= self.end
        }
    }

    /// Whether the two arcs share at least one location.
    pub fn overlaps(&self, other: &StorageArc) -> (r: bool)
        ensures
            r == arcs_overlap(*self, *other),
    {
        let r = (other.contains(other.start) && self.contains(other.start))
            || (self.contains(self.start) && other.contains(self.start));
        proof {
            if r {
                if arc_contains(other.start, other.end, other.start) && arc_contains(
                    self.start,
                    self.end,
                    other.start,
                ) {
                    assert(arc_contains(self.start, self.end, other.start) && arc_contains(
                        other.start,
                        other.end,
                        other.start,
                    ));
                } else {
                    assert(arc_contains(self.start, self.end, self.start) && arc_contains(
                        other.start,
                        other.end,
                        self.start,
                    ));
                }
            } else {
                assert forall|x: u32|
                    !(arc_contains(self.start, self.end, x) && arc_contains(
                        other.start,
                        other.end,
                        x,
                    )) by {}
            }
        }
        r
    }
}

} // verus!
