use vstd::prelude::*;

use crate::config::SCALE;

verus! {

/// An axis-aligned rectangle in pixel coordinates of the original frame.
#[derive(Clone, Copy, Debug, PartialEq, Eq, Structural)]
pub struct BoundingBox {
    pub x: i32,
    pub y: i32,
    pub width: i32,
    pub height: i32,
}

pub open spec fn min(a: int, b: int) -> int {
    if a <= b { a } else { b }
}

pub open spec fn max(a: int, b: int) -> int {
    if a >= b { a } else { b }
}

impl BoundingBox {
    /// Area of the rectangle; a rectangle without positive extent has none.
    pub open spec fn area(self) -> int {
        if self.width > 0 && self.height > 0 {
            self.width * self.height
        } else {
            0
        }
    }
}

/// Area that two rectangles have in common.
pub open spec fn intersection_spec(a: BoundingBox, b: BoundingBox) -> int {
    let w = min(a.x + a.width, b.x + b.width) - max(a.x as int, b.x as int);
    let h = min(a.y + a.height, b.y + b.height) - max(a.y as int, b.y as int);
    if w > 0 && h > 0 {
        w * h
    } else {
        0
    }
}

/// Area that the two rectangles cover together.
pub open spec fn union_spec(a: BoundingBox, b: BoundingBox) -> int {
    a.area() + b.area() - intersection_spec(a, b)
}

/// Whether the intersection-over-union of `a` and `b` exceeds
/// `threshold / SCALE`. Two rectangles that cover nothing at all count as
/// identical, with an overlap of one.
pub open spec fn overlaps_spec(a: BoundingBox, b: BoundingBox, threshold: int) -> bool {
    let u = union_spec(a, b);
    if u == 0 {
        SCALE > threshold
    } else {
        intersection_spec(a, b) * SCALE > threshold * u
    }
}

/// The overlap test does not depend on the order of its two rectangles.
pub proof fn lemma_overlaps_symmetric(a: BoundingBox, b: BoundingBox, threshold: int)
    ensures
        overlaps_spec(a, b, threshold) == overlaps_spec(b, a, threshold),
{
    assert(intersection_spec(a, b) == intersection_spec(b, a));
}

fn area_of(b: &BoundingBox) -> (r: i128)
    ensures
        r == b.area(),
        0 <= r <= 0x4000_0000_0000_0000,
{
    if b.width > 0 && b.height > 0 {
        let w = b.width as i128;
        let h = b.height as i128;
        assert(w * h <= 0x8000_0000 * 0x8000_0000) by (nonlinear_arith)
            requires
                0 < w < 0x8000_0000,
                0 < h < 0x8000_0000,
        ;
        w * h
    } else {
        0
    }
}

/// Area that two rectangles have in common.
pub fn intersection_area(a: &BoundingBox, b: &BoundingBox) -> (r: i128)
    ensures
        r == intersection_spec(*a, *b),
        0 <= r <= 0x4_0000_0000_0000_0000,
{
    let ax2 = a.x as i128 + a.width as i128;
    let bx2 = b.x as i128 + b.width as i128;
    let ay2 = a.y as i128 + a.height as i128;
    let by2 = b.y as i128 + b.height as i128;
    let right = if ax2 <= bx2 { ax2 } else { bx2 };
    let left = if a.x >= b.x { a.x as i128 } else { b.x as i128 };
    let bottom = if ay2 <= by2 { ay2 } else { by2 };
    let top = if a.y >= b.y { a.y as i128 } else { b.y as i128 };
    let w = right - left;
    let h = bottom - top;
    if w > 0 && h > 0 {
        assert(w * h <= 0x2_0000_0000 * 0x2_0000_0000) by (nonlinear_arith)
            requires
                0 < w <= 0x2_0000_0000,
                0 < h <= 0x2_0000_0000,
        ;
        w * h
    } else {
        0
    }
}

/// Area that two rectangles cover together.
pub fn union_area(a: &BoundingBox, b: &BoundingBox) -> (r: i128)
    ensures
        r == union_spec(*a, *b),
        -0x5_0000_0000_0000_0000 <= r <= 0x8_0000_0000_0000_0000,
{
    area_of(a) + area_of(b) - intersection_area(a, b)
}

/// Whether the intersection-over-union of `a` and `b` exceeds
/// `threshold / SCALE`.
pub fn overlaps(a: &BoundingBox, b: &BoundingBox, threshold: i32) -> (r: bool)
    ensures
        r == overlaps_spec(*a, *b, threshold as int),
{
    let inter = intersection_area(a, b);
    let u = union_area(a, b);
    if u == 0 {
        SCALE > threshold
    } else {
        let t = threshold as i128;
        assert(inter * 1_000_000 <= 0x4_0000_0000_0000_0000 * 1_000_000) by (nonlinear_arith)
            requires
                0 <= inter <= 0x4_0000_0000_0000_0000,
        ;
        assert(-0x10_0000_0000_0000_0000_0000_0000 <= t * u <= 0x10_0000_0000_0000_0000_0000_0000)
            by (nonlinear_arith)
            requires
                -0x8000_0000 <= t < 0x8000_0000,
                -0x5_0000_0000_0000_0000 <= u <= 0x8_0000_0000_0000_0000,
        ;
        inter * (SCALE as i128) > t * u
    }
}

} // verus!
