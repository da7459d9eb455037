//! The collision resolver.
//!
//! One pass visits every unordered pair of bodies once, in lexicographic
//! order of their indices. A pair that overlaps is pushed apart along its
//! centre line, each body by half the overlap, and then exchanges velocity
//! as in an elastic collision of two masses; the exchange uses the
//! corrected centres. Corrections take effect at once, so later pairs of
//! the same pass see them. A pair whose centres coincide, or whose new
//! values cannot be stored, is left as it is for that pass.

use vstd::prelude::*;
use crate::arith::{
    div_trunc,
    integer_sqrt,
    is_floor_sqrt,
    isqrt,
    lemma_div_trunc_bounds,
    lemma_div_trunc_shrinks,
    lemma_isqrt_floor,
};
use crate::body::{bodies, Ball, Body};
use crate::collision_lemmas::lemma_resolve_all;
use crate::geometry::{
    circles_overlap,
    dist_sq,
    distance_squared,
    do_circles_overlap,
    lemma_dist_sq_bounds,
    Vec2,
};
use crate::settings::FrictionMode;

verus! {

/// Centre distances are measured in steps of `1 / FINE` of a position
/// unit, so that the rounding of the square root stays below one unit
/// after it is multiplied by a sum of radii.
pub const FINE: i128 = 2_097_152;

/// A vector as it is computed, before it is stored in 32 bits.
pub struct Exact {
    pub x: int,
    pub y: int,
}

impl Exact {
    /// Both components can be stored.
    pub open spec fn fits(self) -> bool {
        i32::MIN <= self.x <= i32::MAX && i32::MIN <= self.y <= i32::MAX
    }

    /// The stored vector; meaningful where `fits` holds.
    pub open spec fn stored(self) -> Vec2 {
        Vec2 { x: self.x as i32, y: self.y as i32 }
    }
}

/// The distance between two centres in steps of `1 / FINE`, rounded down.
pub open spec fn fine_distance(a: Vec2, b: Vec2) -> int {
    isqrt(dist_sq(a, b) * (FINE * FINE))
}

/// How far a body is pushed along one axis: half the overlap times the
/// direction of the centre line, in one rounded division. `distance` is a
/// fine distance, `radii` the sum of the two radii, `delta` the first
/// centre minus the second on that axis. For a pair that overlaps the
/// result points from the first centre to the second: the first body
/// subtracts it and the second adds it.
pub open spec fn push(distance: int, radii: int, delta: int) -> int {
    div_trunc((distance - radii * FINE) * delta, 2 * distance)
}

/// The two centres after the pair was pushed apart.
pub open spec fn separated(a: Body, b: Body) -> (Exact, Exact) {
    let distance = fine_distance(a.position, b.position);
    let radii = a.radius + b.radius;
    let px = push(distance, radii, a.position.x - b.position.x);
    let py = push(distance, radii, a.position.y - b.position.y);
    (
        Exact { x: a.position.x - px, y: a.position.y - py },
        Exact { x: b.position.x + px, y: b.position.y + py },
    )
}

/// The velocity that one body hands over along one axis:
/// `2 m / (m1 + m2) * dot / |delta|^2 * delta`, in one rounded division.
/// `mass_other` is the mass of the other body, `dot` the scalar product of
/// relative velocity and centre line, `dsq` the squared centre distance.
pub open spec fn impulse(mass_other: int, mass_sum: int, dot: int, delta: int, dsq: int) -> int {
    div_trunc(2 * mass_other * dot * delta, mass_sum * dsq)
}

/// The two velocities after an elastic collision of `a` and `b` whose
/// centres are `at_a` and `at_b`.
pub open spec fn exchanged(a: Body, b: Body, at_a: Vec2, at_b: Vec2) -> (Exact, Exact) {
    let dx = at_a.x - at_b.x;
    let dy = at_a.y - at_b.y;
    let dsq = dist_sq(at_a, at_b);
    let dot = (a.velocity.x - b.velocity.x) * dx + (a.velocity.y - b.velocity.y) * dy;
    let sum = a.mass() + b.mass();
    (
        Exact {
            x: a.velocity.x - impulse(b.mass(), sum, dot, dx, dsq),
            y: a.velocity.y - impulse(b.mass(), sum, dot, dy, dsq),
        },
        Exact {
            x: b.velocity.x + impulse(a.mass(), sum, dot, dx, dsq),
            y: b.velocity.y + impulse(a.mass(), sum, dot, dy, dsq),
        },
    )
}

/// A velocity component after the damping of a collision: 95 percent of
/// it, rounded toward zero.
pub open spec fn damped(v: int) -> int {
    div_trunc(v * 95, 100)
}

/// The velocity that a body keeps from a collision in the given mode.
pub open spec fn after_collision(v: Vec2, mode: FrictionMode) -> Vec2 {
    if mode == FrictionMode::Collision {
        Vec2 { x: damped(v.x as int) as i32, y: damped(v.y as int) as i32 }
    } else {
        v
    }
}

/// What one pair becomes: `None` where the pair is left as it is, that is
/// where the two do not overlap, where their centres coincide before or
/// after the push, or where a new position or velocity cannot be stored.
pub open spec fn resolved(a: Body, b: Body, mode: FrictionMode) -> Option<(Body, Body)> {
    if !circles_overlap(a.position, a.radius as int, b.position, b.radius as int) {
        None
    } else if a.position == b.position {
        None
    } else {
        let (at_a, at_b) = separated(a, b);
        if !at_a.fits() || !at_b.fits() || at_a.stored() == at_b.stored() {
            None
        } else {
            let (va, vb) = exchanged(a, b, at_a.stored(), at_b.stored());
            if !va.fits() || !vb.fits() {
                None
            } else {
                Some(
                    (
                        a.moved(at_a.stored(), after_collision(va.stored(), mode)),
                        b.moved(at_b.stored(), after_collision(vb.stored(), mode)),
                    ),
                )
            }
        }
    }
}

/// The pass from pair `(i, j)` on: the bodies after it, and the pairs
/// that were resolved, in the order in which they were visited. The pairs
/// `(i, j)`, `(i, j + 1)`, ... come first, then those of the rows after `i`.
pub open spec fn resolve_from(s: Seq<Body>, i: int, j: int, mode: FrictionMode) -> (Seq<Body>, Seq<(int, int)>)
    decreases s.len() - i, s.len() - j,
{
    if i < 0 || j <= i || i >= s.len() {
        (s, Seq::empty())
    } else if j >= s.len() {
        resolve_from(s, i + 1, i + 2, mode)
    } else {
        match resolved(s[i], s[j], mode) {
            Some((a, b)) => {
                let rest = resolve_from(s.update(i, a).update(j, b), i, j + 1, mode);
                (rest.0, seq![(i, j)] + rest.1)
            },
            None => resolve_from(s, i, j + 1, mode),
        }
    }
}

/// One whole pass over the bodies `s`.
pub open spec fn resolve_all(s: Seq<Body>, mode: FrictionMode) -> (Seq<Body>, Seq<(int, int)>) {
    resolve_from(s, 0, 1, mode)
}

/// Index pairs as integers.
pub open spec fn index_pairs(pairs: Seq<(usize, usize)>) -> Seq<(int, int)> {
    pairs.map_values(|p: (usize, usize)| (p.0 as int, p.1 as int))
}

/// The fine distance of two distinct centres is the floor square root that
/// its definition names, and at least one position unit.
pub proof fn lemma_fine_distance(a: Vec2, b: Vec2)
    requires
        a != b,
    ensures
        is_floor_sqrt(dist_sq(a, b) * (FINE * FINE), fine_distance(a, b)),
        fine_distance(a, b) >= FINE,
        fine_distance(b, a) == fine_distance(a, b),
{
    let d = dist_sq(a, b);
    let s = fine_distance(a, b);
    lemma_dist_sq_bounds(a, b);
    assert(d * (FINE * FINE) >= FINE * FINE) by (nonlinear_arith)
        requires
            d >= 1,
    ;
    lemma_isqrt_floor((d * (FINE * FINE)) as nat);
    if s < FINE {
        assert((s + 1) * (s + 1) <= FINE * FINE) by (nonlinear_arith)
            requires
                0 <= s,
                s + 1 <= FINE,
        ;
    }
}

proof fn lemma_product_bound(x: int, bound_x: int, y: int, bound_y: int)
    by (nonlinear_arith)
    requires
        -bound_x <= x <= bound_x,
        -bound_y <= y <= bound_y,
    ensures
        -(bound_x * bound_y) <= x * y <= bound_x * bound_y,
{
}

/// Measures the fine distance between two distinct centres.
pub(crate) fn measure(a: &Vec2, b: &Vec2) -> (distance: i128)
    requires
        *a != *b,
    ensures
        distance == fine_distance(*a, *b),
        FINE <= distance < 0x40_0000_0000_0000,
{
    proof {
        lemma_dist_sq_bounds(*a, *b);
    }
    let dsq: u128 = distance_squared(a, b);
    let scale: u128 = (FINE * FINE) as u128;
    assert(scale == 0x400_0000_0000);
    let scaled: u128 = dsq * scale;
    let root: u64 = integer_sqrt(scaled);
    proof {
        let r = root as int;
        assert(dsq * (FINE * FINE) == scaled);
        if r < FINE {
            assert((r + 1) * (r + 1) <= FINE * FINE) by (nonlinear_arith)
                requires
                    0 <= r,
                    r + 1 <= FINE,
            ;
        }
        if r >= 0x40_0000_0000_0000 {
            assert(r * r >= 0x40_0000_0000_0000 * 0x40_0000_0000_0000) by (nonlinear_arith)
                requires
                    r >= 0x40_0000_0000_0000,
            ;
        }
    }
    root as i128
}

/// Computes `push` for one axis.
fn push_along(distance: i128, radii: i128, delta: i128) -> (p: i128)
    requires
        FINE <= distance < 0x40_0000_0000_0000,
        0 <= radii <= 0x7fff_ffff,
        -0xffff_ffff <= delta <= 0xffff_ffff,
    ensures
        p == push(distance as int, radii as int, delta as int),
        -0x40_0000_0000_0000 * 0xffff_ffff <= p <= 0x40_0000_0000_0000 * 0xffff_ffff,
{
    let gap: i128 = distance - radii * FINE;
    proof {
        lemma_product_bound(gap as int, 0x40_0000_0000_0000, delta as int, 0xffff_ffff);
        lemma_div_trunc_shrinks(gap * delta, 2 * distance);
    }
    (gap * delta) / (2 * distance)
}

/// Computes `impulse` for one axis.
fn impulse_along(mass_other: i128, mass_sum: i128, dot: i128, delta: i128, dsq: i128) -> (p: i128)
    requires
        0 < mass_other < mass_sum <= 0x200_0000,
        -0x2_0000_0000_0000_0000 <= dot <= 0x2_0000_0000_0000_0000,
        -0xffff_ffff <= delta <= 0xffff_ffff,
        0 < dsq <= 0x2_0000_0000_0000_0000,
    ensures
        p == impulse(mass_other as int, mass_sum as int, dot as int, delta as int, dsq as int),
        -0x400_0000 * 0x2_0000_0000_0000_0000 * 0xffff_ffff <= p <= 0x400_0000
            * 0x2_0000_0000_0000_0000 * 0xffff_ffff,
{
    proof {
        lemma_product_bound(2 * mass_other as int, 0x400_0000, dot as int, 0x2_0000_0000_0000_0000);
        lemma_product_bound(
            2 * mass_other * dot,
            0x400_0000int * 0x2_0000_0000_0000_0000int,
            delta as int,
            0xffff_ffff,
        );
        lemma_product_bound(mass_sum as int, 0x200_0000, dsq as int, 0x2_0000_0000_0000_0000);
        assert(mass_sum * dsq > 0) by (nonlinear_arith)
            requires
                mass_sum > 0,
                dsq > 0,
        ;
        lemma_div_trunc_shrinks(2 * mass_other * dot * delta, mass_sum * dsq);
    }
    (2 * mass_other * dot * delta) / (mass_sum * dsq)
}

/// Stores a computed vector, if both components fit.
fn store(x: i128, y: i128) -> (v: Option<Vec2>)
    ensures
        v is Some <==> (Exact { x: x as int, y: y as int }).fits(),
        v matches Some(s) ==> s == (Exact { x: x as int, y: y as int }).stored(),
{
    if x < i32::MIN as i128 || x > i32::MAX as i128 || y < i32::MIN as i128 || y > i32::MAX as i128 {
        None
    } else {
        Some(Vec2 { x: x as i32, y: y as i32 })
    }
}

/// Computes `after_collision`.
fn damp(v: Vec2, friction_mode: &FrictionMode) -> (w: Vec2)
    ensures
        w == after_collision(v, *friction_mode),
{
    match friction_mode {
        FrictionMode::Collision => {
            proof {
                lemma_div_trunc_bounds(v.x * 95, 100);
                lemma_div_trunc_bounds(v.y * 95, 100);
            }
            let x: i64 = (v.x as i64 * 95) / 100;
            let y: i64 = (v.y as i64 * 95) / 100;
            Vec2 { x: x as i32, y: y as i32 }
        },
        _ => v,
    }
}

/// Resolves one pair: pushes the two balls apart and lets them exchange
/// velocity, or returns `None` where the pair is left as it is.
pub fn resolve_pair(a: &Ball, b: &Ball, friction_mode: &FrictionMode) -> (outcome: Option<(Ball, Ball)>)
    ensures
        match outcome {
            Some((x, y)) => resolved(a@, b@, *friction_mode) == Some((x@, y@)),
            None => resolved(a@, b@, *friction_mode) is None,
        },
{
    let pa = a.position();
    let pb = b.position();
    if !do_circles_overlap(&pa, a.radius(), &pb, b.radius()) {
        return None;
    }
    if pa.x == pb.x && pa.y == pb.y {
        return None;
    }
    let distance = measure(&pa, &pb);
    let radii: i128 = a.radius() as i128 + b.radius() as i128;
    let px = push_along(distance, radii, pa.x as i128 - pb.x as i128);
    let py = push_along(distance, radii, pa.y as i128 - pb.y as i128);
    let at_a = match store(pa.x as i128 - px, pa.y as i128 - py) {
        Some(v) => v,
        None => {
            return None;
        },
    };
    let at_b = match store(pb.x as i128 + px, pb.y as i128 + py) {
        Some(v) => v,
        None => {
            return None;
        },
    };
    if at_a.x == at_b.x && at_a.y == at_b.y {
        return None;
    }
    let va = a.velocity();
    let vb = b.velocity();
    let dx: i128 = at_a.x as i128 - at_b.x as i128;
    let dy: i128 = at_a.y as i128 - at_b.y as i128;
    proof {
        lemma_dist_sq_bounds(at_a, at_b);
        lemma_product_bound(va.x - vb.x, 0xffff_ffff, dx as int, 0xffff_ffff);
        lemma_product_bound(va.y - vb.y, 0xffff_ffff, dy as int, 0xffff_ffff);
    }
    let dsq: i128 = distance_squared(&at_a, &at_b) as i128;
    let dot: i128 = (va.x as i128 - vb.x as i128) * dx + (va.y as i128 - vb.y as i128) * dy;
    let ma: i128 = a.mass() as i128;
    let mb: i128 = b.mass() as i128;
    let sum: i128 = ma + mb;
    let ax = impulse_along(mb, sum, dot, dx, dsq);
    let ay = impulse_along(mb, sum, dot, dy, dsq);
    let bx = impulse_along(ma, sum, dot, dx, dsq);
    let by = impulse_along(ma, sum, dot, dy, dsq);
    let new_va = match store(va.x as i128 - ax, va.y as i128 - ay) {
        Some(v) => v,
        None => {
            return None;
        },
    };
    let new_vb = match store(vb.x as i128 + bx, vb.y as i128 + by) {
        Some(v) => v,
        None => {
            return None;
        },
    };
    Some((a.moved(at_a, damp(new_va, friction_mode)), b.moved(at_b, damp(new_vb, friction_mode))))
}

/// Runs one pass of the resolver over `balls` and returns the pairs that
/// were resolved, for whoever draws the collision lines. Each pair is
/// `(i, j)` with `i < j`, both indices of `balls`.
pub fn resolve_collisions(balls: &mut Vec<Ball>, friction_mode: &FrictionMode) -> (collisions: Vec<(usize, usize)>)
    ensures
        bodies(final(balls)@) == resolve_all(bodies(old(balls)@), *friction_mode).0,
        index_pairs(collisions@) == resolve_all(bodies(old(balls)@), *friction_mode).1,
        final(balls)@.len() == old(balls)@.len(),
        forall|k: int|
            0 <= k < collisions@.len() ==> (#[trigger] collisions@[k]).0 < collisions@[k].1
                < old(balls)@.len(),
{
    let ghost goal = resolve_all(bodies(balls@), *friction_mode);
    let n = balls.len();
    let mut collisions: Vec<(usize, usize)> = Vec::new();
    let mut i: usize = 0;
    assert(index_pairs(collisions@) + goal.1 == goal.1);
    while i < n
        invariant
            balls.len() == n,
            i <= n,
            goal.0 == resolve_from(bodies(balls@), i as int, i + 1, *friction_mode).0,
            goal.1 == index_pairs(collisions@) + resolve_from(
                bodies(balls@),
                i as int,
                i + 1,
                *friction_mode,
            ).1,
        decreases n - i,
    {
        let mut j: usize = i + 1;
        while j < n
            invariant
                balls.len() == n,
                i < j <= n,
                goal.0 == resolve_from(bodies(balls@), i as int, j as int, *friction_mode).0,
                goal.1 == index_pairs(collisions@) + resolve_from(
                    bodies(balls@),
                    i as int,
                    j as int,
                    *friction_mode,
                ).1,
            decreases n - j,
        {
            let a = balls[i];
            let b = balls[j];
            let ghost before = bodies(balls@);
            let ghost found = index_pairs(collisions@);
            match resolve_pair(&a, &b, friction_mode) {
                Some((x, y)) => {
                    balls.set(i, x);
                    balls.set(j, y);
                    collisions.push((i, j));
                    proof {
                        let rest = resolve_from(
                            before.update(i as int, x@).update(j as int, y@),
                            i as int,
                            j + 1,
                            *friction_mode,
                        );
                        assert(bodies(balls@) == before.update(i as int, x@).update(j as int, y@));
                        assert(index_pairs(collisions@) == found + seq![(i as int, j as int)]);
                        assert(found + (seq![(i as int, j as int)] + rest.1) == (found + seq![
                            (i as int, j as int),
                        ]) + rest.1);
                    }
                },
                None => {},
            }
            j = j + 1;
        }
        i = i + 1;
    }
    proof {
        assert(index_pairs(collisions@) + Seq::<(int, int)>::empty() == index_pairs(collisions@));
        lemma_resolve_all(bodies(old(balls)@), *friction_mode);
        assert forall|k: int| 0 <= k < collisions@.len() implies (#[trigger] collisions@[k]).0
            < collisions@[k].1 < old(balls)@.len() by {
            assert(index_pairs(collisions@)[k] == (collisions@[k].0 as int, collisions@[k].1 as int));
        }
    }
    collisions
}

} // verus!
