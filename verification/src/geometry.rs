//! Points of the plane and the two circle predicates.
//!
//! Coordinates are fixed-point integers: one unit is a thousandth of a
//! pixel. Both predicates compare squared lengths, so they are exact.

use vstd::prelude::*;
use crate::arith::{isqrt, lemma_isqrt_floor};

verus! {

/// How many position units make one pixel.
pub const UNITS_PER_PIXEL: i32 = 1000;

/// A point or a displacement of the plane, in position units.
#[derive(Clone, Copy, Debug, PartialEq, Eq, Structural)]
pub struct Vec2 {
    pub x: i32,
    pub y: i32,
}

impl Vec2 {
    /// The vector with the given components.
    pub fn new(x: i32, y: i32) -> (v: Vec2)
        ensures
            v == (Vec2 { x, y }),
    {
        Vec2 { x, y }
    }

    /// The zero vector: the velocity of a body at rest.
    pub fn zero() -> (v: Vec2)
        ensures
            v == (Vec2 { x: 0, y: 0 }),
    {
        Vec2 { x: 0, y: 0 }
    }

    /// The squared Euclidean length.
    pub open spec fn norm_sq(self) -> int {
        self.x * self.x + self.y * self.y
    }
}

/// The squared Euclidean distance between two points.
pub open spec fn dist_sq(a: Vec2, b: Vec2) -> int {
    (a.x - b.x) * (a.x - b.x) + (a.y - b.y) * (a.y - b.y)
}

/// The point lies in the closed disc around `center`.
pub open spec fn point_in_circle(point: Vec2, center: Vec2, radius: int) -> bool {
    dist_sq(center, point) <= radius * radius
}

/// The two closed discs meet; discs that only touch do.
pub open spec fn circles_overlap(center_1: Vec2, radius_1: int, center_2: Vec2, radius_2: int) -> bool {
    dist_sq(center_1, center_2) <= (radius_1 + radius_2) * (radius_1 + radius_2)
}

/// A squared distance between representable points is non-negative and
/// below `2^65`.
pub proof fn lemma_dist_sq_bounds(a: Vec2, b: Vec2)
    ensures
        0 <= dist_sq(a, b) <= 0x1_ffff_fffc_0000_0002,
        dist_sq(a, b) == 0 <==> a == b,
        dist_sq(a, b) == dist_sq(b, a),
{
    let dx = a.x - b.x;
    let dy = a.y - b.y;
    assert(0 <= dx * dx <= 0xffff_ffff * 0xffff_ffff) by (nonlinear_arith)
        requires
            -0xffff_ffff <= dx <= 0xffff_ffff,
    ;
    assert(0 <= dy * dy <= 0xffff_ffff * 0xffff_ffff) by (nonlinear_arith)
        requires
            -0xffff_ffff <= dy <= 0xffff_ffff,
    ;
    assert(dx * dx == 0 <==> dx == 0) by (nonlinear_arith);
    assert(dy * dy == 0 <==> dy == 0) by (nonlinear_arith);
    assert((b.x - a.x) * (b.x - a.x) == dx * dx) by (nonlinear_arith)
        requires
            dx == a.x - b.x,
    ;
    assert((b.y - a.y) * (b.y - a.y) == dy * dy) by (nonlinear_arith)
        requires
            dy == a.y - b.y,
    ;
}

/// Overlap does not depend on the order of the two circles.
pub proof fn lemma_overlap_symmetric(center_1: Vec2, radius_1: int, center_2: Vec2, radius_2: int)
    ensures
        circles_overlap(center_1, radius_1, center_2, radius_2) == circles_overlap(
            center_2,
            radius_2,
            center_1,
            radius_1,
        ),
{
    lemma_dist_sq_bounds(center_1, center_2);
    assert((radius_1 + radius_2) * (radius_1 + radius_2) == (radius_2 + radius_1) * (radius_2
        + radius_1));
}

/// Overlap in terms of the centre distance, rounded down to whole units:
/// circles whose centres are less than the sum of the radii apart overlap,
/// circles that touch overlap, and circles that are further apart than the
/// sum of their radii do not.
pub proof fn lemma_overlap_by_distance(center_1: Vec2, radius_1: int, center_2: Vec2, radius_2: int)
    requires
        0 <= radius_1 + radius_2,
    ensures
        isqrt(dist_sq(center_1, center_2)) < radius_1 + radius_2 ==> circles_overlap(
            center_1,
            radius_1,
            center_2,
            radius_2,
        ),
        dist_sq(center_1, center_2) == (radius_1 + radius_2) * (radius_1 + radius_2)
            ==> circles_overlap(center_1, radius_1, center_2, radius_2),
        isqrt(dist_sq(center_1, center_2)) > radius_1 + radius_2 ==> !circles_overlap(
            center_1,
            radius_1,
            center_2,
            radius_2,
        ),
{
    let d = dist_sq(center_1, center_2);
    let r = radius_1 + radius_2;
    let s = isqrt(d);
    lemma_dist_sq_bounds(center_1, center_2);
    lemma_isqrt_floor(d as nat);
    if s < r {
        assert((s + 1) * (s + 1) <= r * r) by (nonlinear_arith)
            requires
                0 <= s,
                s + 1 <= r,
        ;
    }
    if s > r {
        assert(r * r < s * s) by (nonlinear_arith)
            requires
                0 <= r < s,
        ;
    }
}

/// Computes the squared distance between two points.
pub fn distance_squared(a: &Vec2, b: &Vec2) -> (d: u128)
    ensures
        d == dist_sq(*a, *b),
{
    proof {
        lemma_dist_sq_bounds(*a, *b);
    }
    let dx: i128 = a.x as i128 - b.x as i128;
    let dy: i128 = a.y as i128 - b.y as i128;
    assert(0 <= dx * dx <= 0xffff_ffff * 0xffff_ffff) by (nonlinear_arith)
        requires
            -0xffff_ffff <= dx <= 0xffff_ffff,
    ;
    assert(0 <= dy * dy <= 0xffff_ffff * 0xffff_ffff) by (nonlinear_arith)
        requires
            -0xffff_ffff <= dy <= 0xffff_ffff,
    ;
    (dx * dx + dy * dy) as u128
}

/// Tells whether `point` lies within `radius` of `circle`, the border
/// included.
pub fn is_point_in_circle(point: &Vec2, circle: &Vec2, radius: i32) -> (inside: bool)
    ensures
        inside == point_in_circle(*point, *circle, radius as int),
{
    let r: i128 = radius as i128;
    assert(0 <= r * r <= 0x8000_0000 * 0x8000_0000) by (nonlinear_arith)
        requires
            -0x8000_0000 <= r <= 0x8000_0000,
    ;
    distance_squared(circle, point) <= (r * r) as u128
}

/// Tells whether two circles overlap; circles that touch in one point
/// count as overlapping.
pub fn do_circles_overlap(circle_1: &Vec2, radius_1: i32, circle_2: &Vec2, radius_2: i32) -> (overlap:
    bool)
    ensures
        overlap == circles_overlap(*circle_1, radius_1 as int, *circle_2, radius_2 as int),
{
    let r: i128 = radius_1 as i128 + radius_2 as i128;
    assert(0 <= r * r <= 0x1_0000_0000 * 0x1_0000_0000) by (nonlinear_arith)
        requires
            -0x1_0000_0000 <= r <= 0x1_0000_0000,
    ;
    distance_squared(circle_1, circle_2) <= (r * r) as u128
}

} // verus!
