//! Axis-aligned boxes in image coordinates, their areas and overlaps, and the
//! intersection-over-union (IoU) comparison that box suppression is built on.
//!
//! IoU of two boxes is the ratio `inter / union`, where `inter` is the area of
//! the intersection and `union = area(a) + area(b) - inter`. The ratio itself
//! is never materialised: every use of it is a comparison against a rational
//! threshold `num / den`, which is decided exactly in integers. When the union
//! is zero (both boxes have zero area) the IoU is defined to be zero.

use vstd::prelude::*;

verus! {

/// Coordinates and side lengths are bounded so that every product and sum in
/// the IoU comparison fits comfortably in `i64`.
pub const COORD_LIMIT: i64 = 1_000_000;

/// Denominator bound for overlap thresholds; `inter * den` stays within `i64`.
pub const THRESHOLD_LIMIT: i64 = 1_000_000;

/// An axis-aligned rectangle `(x, y, width, height)` in image coordinates.
#[derive(Clone, Copy, PartialEq, Eq, Structural, Debug)]
pub struct BBox {
    pub x: i64,
    pub y: i64,
    pub w: i64,
    pub h: i64,
}

/// An overlap threshold, the rational `num / den`, required to lie in (0, 1).
#[derive(Clone, Copy, PartialEq, Eq, Structural, Debug)]
pub struct Threshold {
    pub num: i64,
    pub den: i64,
}

impl BBox {
    /// Well-formed boxes have bounded coordinates and nonnegative sides.
    pub open spec fn wf(self) -> bool {
        &&& -COORD_LIMIT <= self.x <= COORD_LIMIT
        &&& -COORD_LIMIT <= self.y <= COORD_LIMIT
        &&& 0 <= self.w <= COORD_LIMIT
        &&& 0 <= self.h <= COORD_LIMIT
    }

    pub open spec fn spec_area(self) -> int {
        self.w * self.h
    }

    /// `width * height`; nonnegative for well-formed boxes.
    pub fn area(&self) -> (r: i64)
        requires
            self.wf(),
        ensures
            r == self.spec_area(),
            0 <= r <= COORD_LIMIT * COORD_LIMIT,
    {
        proof {
            lemma_mul_bound(self.w as int, self.h as int, COORD_LIMIT as int);
        }
        self.w * self.h
    }
}

impl Threshold {
    pub open spec fn wf(self) -> bool {
        0 < self.num < self.den <= THRESHOLD_LIMIT
    }
}

/// Width of the overlap of `a` and `b`, zero if they do not meet horizontally.
pub open spec fn overlap_w(a: BBox, b: BBox) -> int {
    let lo = if a.x >= b.x { a.x as int } else { b.x as int };
    let hi = if a.x + a.w <= b.x + b.w { a.x + a.w } else { b.x + b.w };
    if hi > lo { hi - lo } else { 0 }
}

/// Height of the overlap of `a` and `b`, zero if they do not meet vertically.
pub open spec fn overlap_h(a: BBox, b: BBox) -> int {
    let lo = if a.y >= b.y { a.y as int } else { b.y as int };
    let hi = if a.y + a.h <= b.y + b.h { a.y + a.h } else { b.y + b.h };
    if hi > lo { hi - lo } else { 0 }
}

/// Area of the intersection of `a` and `b`.
pub open spec fn spec_inter_area(a: BBox, b: BBox) -> int {
    overlap_w(a, b) * overlap_h(a, b)
}

/// Area of the union of `a` and `b` (for boxes: sum of areas minus overlap).
pub open spec fn spec_union_area(a: BBox, b: BBox) -> int {
    a.spec_area() + b.spec_area() - spec_inter_area(a, b)
}

/// `IoU(a, b) > num / den`, decided exactly in integers. A zero union (both
/// areas zero) has IoU defined as zero, which exceeds no threshold in (0, 1).
pub open spec fn spec_iou_exceeds(a: BBox, b: BBox, t: Threshold) -> bool {
    spec_inter_area(a, b) * t.den > t.num * spec_union_area(a, b)
}

proof fn lemma_mul_bound(x: int, y: int, lim: int)
    requires
        0 <= x <= lim,
        0 <= y <= lim,
    ensures
        0 <= x * y <= lim * lim,
{
    assert(0 <= x * y <= lim * lim) by (nonlinear_arith)
        requires
            0 <= x <= lim,
            0 <= y <= lim,
    ;
}

/// Overlap dimensions are bounded by the coordinate limit.
proof fn lemma_overlap_bounds(a: BBox, b: BBox)
    requires
        a.wf(),
        b.wf(),
    ensures
        0 <= overlap_w(a, b) <= COORD_LIMIT,
        0 <= overlap_h(a, b) <= COORD_LIMIT,
        overlap_w(a, b) <= a.w,
        overlap_h(a, b) <= a.h,
        0 <= spec_inter_area(a, b) <= COORD_LIMIT * COORD_LIMIT,
        0 <= spec_union_area(a, b) <= 2 * COORD_LIMIT * COORD_LIMIT,
{
    lemma_mul_bound(overlap_w(a, b), overlap_h(a, b), COORD_LIMIT as int);
    lemma_mul_bound(a.w as int, a.h as int, COORD_LIMIT as int);
    lemma_mul_bound(b.w as int, b.h as int, COORD_LIMIT as int);
    assert(overlap_w(a, b) * overlap_h(a, b) <= a.w * a.h) by (nonlinear_arith)
        requires
            0 <= overlap_w(a, b) <= a.w,
            0 <= overlap_h(a, b) <= a.h,
    ;
}

/// Area of the intersection of `a` and `b` as executable code.
pub fn inter_area(a: &BBox, b: &BBox) -> (r: i64)
    requires
        a.wf(),
        b.wf(),
    ensures
        r == spec_inter_area(*a, *b),
        0 <= r,
{
    proof {
        lemma_overlap_bounds(*a, *b);
    }
    let lo_x: i64 = if a.x >= b.x { a.x } else { b.x };
    let hi_x: i64 = if a.x + a.w <= b.x + b.w { a.x + a.w } else { b.x + b.w };
    let lo_y: i64 = if a.y >= b.y { a.y } else { b.y };
    let hi_y: i64 = if a.y + a.h <= b.y + b.h { a.y + a.h } else { b.y + b.h };
    let ow: i64 = if hi_x > lo_x { hi_x - lo_x } else { 0 };
    let oh: i64 = if hi_y > lo_y { hi_y - lo_y } else { 0 };
    ow * oh
}

/// Decides `IoU(a, b) > t`, exactly, without leaving the integers.
pub fn iou_exceeds(a: &BBox, b: &BBox, t: &Threshold) -> (r: bool)
    requires
        a.wf(),
        b.wf(),
        t.wf(),
    ensures
        r == spec_iou_exceeds(*a, *b, *t),
{
    let inter: i64 = inter_area(a, b);
    let union: i64 = a.area() + b.area() - inter;
    proof {
        lemma_overlap_bounds(*a, *b);
        assert(inter * t.den <= 1_000_000_000_000i64 * 1_000_000) by (nonlinear_arith)
            requires
                0 <= inter <= 1_000_000_000_000i64,
                0 < t.den <= 1_000_000,
        ;
        assert(0 <= t.num * union <= 1_000_000i64 * 2_000_000_000_000) by (nonlinear_arith)
            requires
                0 <= union <= 2_000_000_000_000i64,
                0 < t.num <= 1_000_000,
        ;
    }
    inter * t.den > t.num * union
}

/// Intersection-over-union is symmetric: the intersection and union areas of
/// a pair of boxes do not depend on the order of the pair, so IoU(a, b) and
/// IoU(b, a) are the same ratio and exceed exactly the same thresholds.
pub proof fn lemma_iou_symmetric(a: BBox, b: BBox)
    ensures
        spec_inter_area(a, b) == spec_inter_area(b, a),
        spec_union_area(a, b) == spec_union_area(b, a),
        forall|t: Threshold| spec_iou_exceeds(a, b, t) == spec_iou_exceeds(b, a, t),
{
}

} // verus!
