//! Axis-aligned rectangles with clipping arithmetic.
//!
//! A `RectArea` may sit partly or wholly outside a surface: `left` and `top`
//! can be negative. A rectangle with zero width or height is empty and
//! overlaps nothing, itself included.

use vstd::prelude::*;

verus! {

/// An axis-aligned rectangle: top-left corner plus non-negative extent.
#[derive(Clone, Copy, PartialEq, Eq, Structural, Debug)]
pub struct RectArea {
    pub left: i32,
    pub top: i32,
    pub width: u32,
    pub height: u32,
}

impl RectArea {
    /// True when the rectangle covers no point at all.
    pub open spec fn spec_is_empty(self) -> bool {
        self.width == 0 || self.height == 0
    }

    /// Rightmost covered column (inclusive); below `left` when empty.
    pub open spec fn spec_right(self) -> int {
        self.left + self.width - 1
    }

    /// Bottommost covered row (inclusive); above `top` when empty.
    pub open spec fn spec_bottom(self) -> int {
        self.top + self.height - 1
    }

    /// Whether the point `(x, y)` lies inside the rectangle.
    pub open spec fn spec_contains(self, x: int, y: int) -> bool {
        &&& self.left <= x
        &&& x <= self.spec_right()
        &&& self.top <= y
        &&& y <= self.spec_bottom()
    }

    /// The overlap of `a` and `b`: the maximal rectangle covered by both, or
    /// the canonical empty rectangle when they share no point.
    pub open spec fn spec_intersect(a: RectArea, b: RectArea) -> RectArea {
        let l = if a.left >= b.left {
            a.left as int
        } else {
            b.left as int
        };
        let t = if a.top >= b.top {
            a.top as int
        } else {
            b.top as int
        };
        let r = if a.spec_right() <= b.spec_right() {
            a.spec_right()
        } else {
            b.spec_right()
        };
        let m = if a.spec_bottom() <= b.spec_bottom() {
            a.spec_bottom()
        } else {
            b.spec_bottom()
        };
        if r - l + 1 > 0 && m - t + 1 > 0 {
            RectArea {
                left: l as i32,
                top: t as i32,
                width: (r - l + 1) as u32,
                height: (m - t + 1) as u32,
            }
        } else {
            RectArea { left: 0, top: 0, width: 0, height: 0 }
        }
    }

    /// Builds a rectangle from its corner and extent; no validation is
    /// needed, a corner outside any surface is legal.
    pub fn new(left: i32, top: i32, width: u32, height: u32) -> (r: RectArea)
        ensures
            r == (RectArea { left, top, width, height }),
    {
        RectArea { left, top, width, height }
    }

    /// True when the rectangle covers no point at all.
    pub fn is_empty(self) -> (r: bool)
        ensures
            r == self.spec_is_empty(),
    {
        self.width == 0 || self.height == 0
    }

    /// Clips `self` against `other`: the returned rectangle covers exactly
    /// the points covered by both, and is the canonical empty rectangle when
    /// there are none. Never fails; an empty result is the expected outcome
    /// for disjoint arguments.
    pub fn intersect(self, other: RectArea) -> (r: RectArea)
        ensures
            r == RectArea::spec_intersect(self, other),
            forall|x: int, y: int|
                r.spec_contains(x, y) <==> self.spec_contains(x, y) && other.spec_contains(x, y),
    {
        let la: i64 = self.left as i64;
        let lb: i64 = other.left as i64;
        let ta: i64 = self.top as i64;
        let tb: i64 = other.top as i64;
        let ra: i64 = la + self.width as i64 - 1;
        let rb: i64 = lb + other.width as i64 - 1;
        let ma: i64 = ta + self.height as i64 - 1;
        let mb: i64 = tb + other.height as i64 - 1;
        let l: i64 = if la >= lb { la } else { lb };
        let t: i64 = if ta >= tb { ta } else { tb };
        let r: i64 = if ra <= rb { ra } else { rb };
        let m: i64 = if ma <= mb { ma } else { mb };
        if r - l + 1 > 0 && m - t + 1 > 0 {
            RectArea {
                left: l as i32,
                top: t as i32,
                width: (r - l + 1) as u32,
                height: (m - t + 1) as u32,
            }
        } else {
            RectArea { left: 0, top: 0, width: 0, height: 0 }
        }
    }
}

/// Intersection is commutative: `A.intersect(B)` and `B.intersect(A)` are the
/// same rectangle, not merely the same point set.
pub proof fn lemma_intersect_commutes(a: RectArea, b: RectArea)
    ensures
        RectArea::spec_intersect(a, b) == RectArea::spec_intersect(b, a),
{
}

/// The intersection is contained in both arguments: it covers a point if and
/// only if both arguments cover it, so it never reaches outside either.
pub proof fn lemma_intersect_contained(a: RectArea, b: RectArea, x: int, y: int)
    ensures
        RectArea::spec_intersect(a, b).spec_contains(x, y) <==> a.spec_contains(x, y)
            && b.spec_contains(x, y),
{
}

/// A non-empty rectangle intersected with itself is itself.
pub proof fn lemma_intersect_self(a: RectArea)
    requires
        !a.spec_is_empty(),
    ensures
        RectArea::spec_intersect(a, a) == a,
{
}

/// An empty rectangle intersected with anything, on either side, is empty.
pub proof fn lemma_intersect_empty(a: RectArea, b: RectArea)
    requires
        a.spec_is_empty() || b.spec_is_empty(),
    ensures
        RectArea::spec_intersect(a, b).spec_is_empty(),
{
}

/// Intersection is associative, again as rectangle values: empty results are
/// canonicalized, so both groupings yield the same rectangle.
pub proof fn lemma_intersect_assoc(a: RectArea, b: RectArea, c: RectArea)
    ensures
        RectArea::spec_intersect(RectArea::spec_intersect(a, b), c) == RectArea::spec_intersect(
            a,
            RectArea::spec_intersect(b, c),
        ),
{
}

} // verus!
