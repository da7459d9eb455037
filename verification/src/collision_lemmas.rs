//! What holds of a resolved pair and of a pass.
//!
//! Of a pair: a head-on collision of equal masses reverses both
//! velocities; bodies at rest stay at rest; a pair that was pushed apart
//! ends at a centre distance of the sum of its radii, up to
//! `SEPARATION_TOLERANCE` position units; and the outcome does not depend
//! on which body is named first. Of a pass: it keeps every body's radius
//! and colour and resolves no pair twice.

use vstd::prelude::*;
use crate::arith::{lemma_div_trunc_bounds, lemma_div_trunc_exact, lemma_div_trunc_odd};
use crate::body::Body;
use crate::collision::{
    after_collision,
    exchanged,
    fine_distance,
    impulse,
    lemma_fine_distance,
    push,
    resolve_all,
    resolve_from,
    resolved,
    separated,
    Exact,
    FINE,
};
use crate::geometry::{
    circles_overlap,
    dist_sq,
    lemma_dist_sq_bounds,
    lemma_overlap_symmetric,
    Vec2,
};
use crate::settings::FrictionMode;

verus! {

/// How far the centre distance of a pair that was pushed apart may be from
/// the sum of the radii, in position units.
pub const SEPARATION_TOLERANCE: i32 = 5;

proof fn lemma_head_on_numerator(m: int, vx: int, vy: int, dx: int, dy: int)
    requires
        vx * dy == vy * dx,
    ensures
        2 * m * (2 * vx * dx + 2 * vy * dy) * dx == (2 * vx) * ((m + m) * (dx * dx + dy * dy)),
        2 * m * (2 * vx * dx + 2 * vy * dy) * dy == (2 * vy) * ((m + m) * (dx * dx + dy * dy)),
{
    assert(vy * dy * dx == vx * dy * dy) by (nonlinear_arith)
        requires
            vx * dy == vy * dx,
    ;
    assert(vx * dx * dy == vy * dx * dx) by (nonlinear_arith)
        requires
            vx * dy == vy * dx,
    ;
    assert(2 * m * (2 * vx * dx + 2 * vy * dy) * dx == 4 * m * (vx * dx * dx) + 4 * m * (vy * dy
        * dx)) by (nonlinear_arith);
    assert((2 * vx) * ((m + m) * (dx * dx + dy * dy)) == 4 * m * (vx * dx * dx) + 4 * m * (vx * dy
        * dy)) by (nonlinear_arith);
    assert(2 * m * (2 * vx * dx + 2 * vy * dy) * dy == 4 * m * (vx * dx * dy) + 4 * m * (vy * dy
        * dy)) by (nonlinear_arith);
    assert((2 * vy) * ((m + m) * (dx * dx + dy * dy)) == 4 * m * (vy * dx * dx) + 4 * m * (vy * dy
        * dy)) by (nonlinear_arith);
}

/// Two bodies of equal radius, hence of equal mass, whose velocities are
/// opposite and lie along the line through their centres, leave an elastic
/// collision with their velocities exactly reversed.
pub proof fn lemma_head_on_exchange(a: Body, b: Body, at_a: Vec2, at_b: Vec2)
    requires
        a.valid(),
        b.valid(),
        a.radius == b.radius,
        at_a != at_b,
        b.velocity.x == -a.velocity.x,
        b.velocity.y == -a.velocity.y,
        a.velocity.x * (at_a.y - at_b.y) == a.velocity.y * (at_a.x - at_b.x),
    ensures
        exchanged(a, b, at_a, at_b).0 == (Exact { x: -a.velocity.x, y: -a.velocity.y }),
        exchanged(a, b, at_a, at_b).1 == (Exact { x: -b.velocity.x, y: -b.velocity.y }),
{
    let m = a.mass();
    let vx = a.velocity.x as int;
    let vy = a.velocity.y as int;
    let dx = at_a.x - at_b.x;
    let dy = at_a.y - at_b.y;
    let dsq = dist_sq(at_a, at_b);
    let dot = (a.velocity.x - b.velocity.x) * dx + (a.velocity.y - b.velocity.y) * dy;
    lemma_dist_sq_bounds(at_a, at_b);
    assert(dot == 2 * vx * dx + 2 * vy * dy) by (nonlinear_arith)
        requires
            dot == (vx - (-vx)) * dx + (vy - (-vy)) * dy,
    ;
    lemma_head_on_numerator(m, vx, vy, dx, dy);
    assert((m + m) * dsq > 0) by (nonlinear_arith)
        requires
            m > 0,
            dsq > 0,
    ;
    lemma_div_trunc_exact(2 * vx, (m + m) * dsq);
    lemma_div_trunc_exact(2 * vy, (m + m) * dsq);
    assert(impulse(m, m + m, dot, dx, dsq) == 2 * vx);
    assert(impulse(m, m + m, dot, dy, dsq) == 2 * vy);
}

/// The same at the level of a resolved pair: where the velocities of two
/// bodies of equal radius are opposite and lie along the corrected centre
/// line, each body leaves with the velocity that the other had, damped in
/// `Collision` mode.
pub proof fn lemma_head_on_reverses(a: Body, b: Body, mode: FrictionMode)
    requires
        a.valid(),
        b.valid(),
        a.radius == b.radius,
        b.velocity.x == -a.velocity.x,
        b.velocity.y == -a.velocity.y,
        resolved(a, b, mode) is Some,
        a.velocity.x * (separated(a, b).0.y - separated(a, b).1.y) == a.velocity.y * (separated(
            a,
            b,
        ).0.x - separated(a, b).1.x),
    ensures
        resolved(a, b, mode) == Some(
            (
                a.moved(separated(a, b).0.stored(), after_collision(b.velocity, mode)),
                b.moved(separated(a, b).1.stored(), after_collision(a.velocity, mode)),
            ),
        ),
{
    let (at_a, at_b) = separated(a, b);
    lemma_head_on_exchange(a, b, at_a.stored(), at_b.stored());
}

/// A head-on collision on one axis: two bodies of equal radius whose
/// centres share a coordinate, with opposite velocities along the other
/// axis, leave with their velocities reversed, damped in `Collision` mode.
pub proof fn lemma_head_on_along_axis(a: Body, b: Body, mode: FrictionMode)
    requires
        a.valid(),
        b.valid(),
        a.radius == b.radius,
        b.velocity.x == -a.velocity.x,
        b.velocity.y == -a.velocity.y,
        resolved(a, b, mode) is Some,
        (a.position.y == b.position.y && a.velocity.y == 0) || (a.position.x == b.position.x
            && a.velocity.x == 0),
    ensures
        ({
            let (x, y) = resolved(a, b, mode)->0;
            &&& x.velocity == after_collision(b.velocity, mode)
            &&& y.velocity == after_collision(a.velocity, mode)
        }),
{
    let d = fine_distance(a.position, b.position);
    let radii = a.radius + b.radius;
    let (at_a, at_b) = separated(a, b);
    lemma_fine_distance(a.position, b.position);
    lemma_div_trunc_exact(0, 2 * d);
    assert(0int * (2 * d) == 0);
    if a.position.y == b.position.y && a.velocity.y == 0 {
        assert((d - radii * FINE) * (a.position.y - b.position.y) == 0) by (nonlinear_arith)
            requires
                a.position.y - b.position.y == 0,
        ;
        assert(at_a.y - at_b.y == 0);
        assert(a.velocity.x * (at_a.y - at_b.y) == 0) by (nonlinear_arith)
            requires
                at_a.y - at_b.y == 0,
        ;
        assert(a.velocity.y * (at_a.x - at_b.x) == 0) by (nonlinear_arith)
            requires
                a.velocity.y == 0,
        ;
    } else {
        assert((d - radii * FINE) * (a.position.x - b.position.x) == 0) by (nonlinear_arith)
            requires
                a.position.x - b.position.x == 0,
        ;
        assert(at_a.x - at_b.x == 0);
        assert(a.velocity.y * (at_a.x - at_b.x) == 0) by (nonlinear_arith)
            requires
                at_a.x - at_b.x == 0,
        ;
        assert(a.velocity.x * (at_a.y - at_b.y) == 0) by (nonlinear_arith)
            requires
                a.velocity.x == 0,
        ;
    }
    lemma_head_on_reverses(a, b, mode);
}

/// Two overlapping bodies at rest are still at rest after they were
/// resolved.
pub proof fn lemma_rest_stays_at_rest(a: Body, b: Body, mode: FrictionMode)
    requires
        a.valid(),
        b.valid(),
        a.at_rest(),
        b.at_rest(),
        resolved(a, b, mode) is Some,
    ensures
        ({
            let (x, y) = resolved(a, b, mode)->0;
            x.at_rest() && y.at_rest()
        }),
{
    let (at_a, at_b) = separated(a, b);
    let pa = at_a.stored();
    let pb = at_b.stored();
    let dx = pa.x - pb.x;
    let dy = pa.y - pb.y;
    let dsq = dist_sq(pa, pb);
    let sum = a.mass() + b.mass();
    lemma_dist_sq_bounds(pa, pb);
    let dot = (a.velocity.x - b.velocity.x) * dx + (a.velocity.y - b.velocity.y) * dy;
    assert(dot == 0) by (nonlinear_arith)
        requires
            dot == (0 - 0) * dx + (0 - 0) * dy,
    ;
    assert(sum * dsq > 0) by (nonlinear_arith)
        requires
            sum > 0,
            dsq > 0,
    ;
    assert(2 * a.mass() * dot * dx == 0 && 2 * a.mass() * dot * dy == 0 && 2 * b.mass() * dot * dx
        == 0 && 2 * b.mass() * dot * dy == 0) by (nonlinear_arith)
        requires
            dot == 0,
    ;
    lemma_div_trunc_exact(0, sum * dsq);
    lemma_div_trunc_exact(0, 100);
    assert(0int * (sum * dsq) == 0);
    assert(0int * 95 == 0);
}

proof fn lemma_square_below(x: int, y: int)
    by (nonlinear_arith)
    requires
        x * x < y * y,
        y >= 0,
    ensures
        -y < x < y,
{
}

proof fn lemma_square_of_sum(a: int, b: int)
    by (nonlinear_arith)
    ensures
        (a + b) * (a + b) == a * a + 2 * (a * b) + b * b,
        (a - b) * (a - b) == a * a - 2 * (a * b) + b * b,
{
}

proof fn lemma_square_of_product(a: int, b: int)
    by (nonlinear_arith)
    ensures
        (a * b) * (a * b) == (a * a) * (b * b),
{
}

proof fn lemma_square_monotone(x: int, y: int)
    by (nonlinear_arith)
    requires
        0 <= x <= y,
    ensures
        x * x <= y * y,
{
}

proof fn lemma_swap_factors(a: int, b: int, c: int, d: int)
    by (nonlinear_arith)
    ensures
        (a * b) * (c * d) == (a * d) * (c * b),
{
}

proof fn lemma_expand_product(a: int, b: int, c: int, d: int)
    by (nonlinear_arith)
    ensures
        (a + b) * (c + d) == a * c + a * d + b * c + b * d,
{
}

proof fn lemma_cauchy_schwarz(ax: int, ay: int, ux: int, uy: int)
    ensures
        (ax * ux + ay * uy) * (ax * ux + ay * uy) <= (ax * ax + ay * ay) * (ux * ux + uy * uy),
{
    let k = ax * uy - ay * ux;
    lemma_expand_product(ax * ax, ay * ay, ux * ux, uy * uy);
    lemma_square_of_sum(ax * ux, ay * uy);
    lemma_square_of_sum(ax * uy, ay * ux);
    lemma_square_of_product(ax, ux);
    lemma_square_of_product(ay, uy);
    lemma_square_of_product(ax, uy);
    lemma_square_of_product(ay, ux);
    lemma_swap_factors(ax, ux, ay, uy);
    assert(k * k >= 0) by (nonlinear_arith);
}

proof fn lemma_product_below(a: int, p: int, u: int, q: int)
    by (nonlinear_arith)
    requires
        0 <= a < p,
        0 <= u < q,
    ensures
        a * u < p * q,
{
}

proof fn lemma_cancel_factor(k: int, e: int, t: int)
    by (nonlinear_arith)
    requires
        k > 0,
    ensures
        k * e < k * t ==> e < t,
        k * e >= k * t ==> e >= t,
{
}

proof fn lemma_scale_bounds(k: int, lo: int, mid: int, hi: int)
    by (nonlinear_arith)
    requires
        k > 0,
        lo <= mid < hi,
    ensures
        k * lo <= k * mid < k * hi,
{
}

proof fn lemma_upper_margin(r: int, s: int)
    by (nonlinear_arith)
    requires
        0 < r <= s,
    ensures
        0 <= r * (s + 1) + 3 * s <= s * (r + 4),
        r * (s + 1) >= 0,
{
}

/// Where the mixed term `c` is bounded by Cauchy and Schwarz, `na` is at
/// least `(r * s)^2` and `nu` is below `(3 * s)^2`, the sum `na + 2 * c`
/// stays above `s^2 * (r^2 - 6 * r)`. Here `ss` is `s^2`.
proof fn lemma_lower_margin(na: int, nu: int, c: int, r: int, ss: int)
    requires
        c * c <= na * nu,
        0 <= nu < 9 * ss,
        (r * r) * ss <= na,
        3 <= r,
        0 < ss,
    ensures
        na + 2 * c > ss * (r * r - 6 * r),
{
    let y = na - (r * r) * ss;
    let w = y + 6 * (r * ss);
    assert(ss * (r * r - 6 * r) == (r * r) * ss - 6 * (r * ss)) by (nonlinear_arith);
    assert(r * ss > 0) by (nonlinear_arith)
        requires
            r > 0,
            ss > 0,
    ;
    assert((r * r) * ss > 0) by (nonlinear_arith)
        requires
            r > 0,
            ss > 0,
    ;
    if c < 0 {
        let t = -c;
        assert(t * t == c * c) by (nonlinear_arith)
            requires
                t == -c,
        ;
        assert(na * nu < na * (9 * ss)) by (nonlinear_arith)
            requires
                na > 0,
                nu < 9 * ss,
        ;
        assert((2 * t) * (2 * t) == 4 * (t * t)) by (nonlinear_arith);
        assert(4 * (na * (9 * ss)) == 36 * (ss * na)) by (nonlinear_arith);
        // `w^2 - 36 * ss * na` is `y^2 + 12 * ss * y * (r - 3)`, which is not negative.
        assert(w * w - 36 * (ss * na) == y * y + 12 * ((ss * y) * (r - 3))) by (nonlinear_arith)
            requires
                w == y + 6 * (r * ss),
                na == y + (r * r) * ss,
        ;
        assert(y * y + 12 * ((ss * y) * (r - 3)) >= 0) by (nonlinear_arith)
            requires
                y >= 0,
                ss > 0,
                r >= 3,
        ;
        assert((2 * t) * (2 * t) < w * w);
        lemma_square_below(2 * t, w);
    }
}

/// The arithmetic behind the separation law. `s` is the fine distance of
/// the old centres, `r` the sum of the radii, `(dx, dy)` the old and
/// `(ex, ey)` the new difference of the centres.
proof fn lemma_rescaled_length(dx: int, dy: int, s: int, r: int, ex: int, ey: int)
    requires
        6 <= s,
        0 < r <= s,
        s * s <= (dx * dx + dy * dy) * (FINE * FINE) < (s + 1) * (s + 1),
        -(2 * s) < s * ex - r * FINE * dx < 2 * s,
        -(2 * s) < s * ey - r * FINE * dy < 2 * s,
    ensures
        ex * ex + ey * ey < (r + 4) * (r + 4),
        r >= 5 ==> (r - 5) * (r - 5) <= ex * ex + ey * ey,
{
    let k = r * FINE;
    let ax = k * dx;
    let ay = k * dy;
    let ux = s * ex - ax;
    let uy = s * ey - ay;
    let na = ax * ax + ay * ay;
    let nu = ux * ux + uy * uy;
    let c = ax * ux + ay * uy;
    let p = r * (s + 1);
    let q = 3 * s;
    let ss = s * s;
    let e = ex * ex + ey * ey;
    let d = dx * dx + dy * dy;
    let d2 = d * (FINE * FINE);
    // The old difference, scaled by `r * FINE`, has length between `r * s`
    // and `r * (s + 1)`.
    assert(na == (r * r) * d2) by {
        lemma_square_of_product(k, dx);
        lemma_square_of_product(k, dy);
        lemma_square_of_product(r, FINE as int);
        assert((k * k) * (dx * dx) + (k * k) * (dy * dy) == (k * k) * d) by (nonlinear_arith)
            requires
                d == dx * dx + dy * dy,
        ;
        assert(((r * r) * (FINE * FINE)) * d == (r * r) * (d * (FINE * FINE)))
            by (nonlinear_arith);
    }
    assert(r * r > 0) by (nonlinear_arith)
        requires
            r > 0,
    ;
    lemma_scale_bounds(r * r, ss, d2, (s + 1) * (s + 1));
    lemma_square_of_product(r, s + 1);
    assert(na < p * p);
    assert((r * r) * ss <= na);
    // The rounding error of each axis is below `2 * s`.
    assert(0 <= ux * ux < 4 * ss) by (nonlinear_arith)
        requires
            -(2 * s) < ux < 2 * s,
            ss == s * s,
    ;
    assert(0 <= uy * uy < 4 * ss) by (nonlinear_arith)
        requires
            -(2 * s) < uy < 2 * s,
            ss == s * s,
    ;
    assert(q * q == 9 * ss) by (nonlinear_arith)
        requires
            q == 3 * s,
            ss == s * s,
    ;
    assert(ss > 0) by (nonlinear_arith)
        requires
            s > 0,
            ss == s * s,
    ;
    assert(0 <= nu < q * q);
    assert(0 <= na) by (nonlinear_arith)
        requires
            na == ax * ax + ay * ay,
    ;
    // The mixed term is below `p * q` in magnitude.
    lemma_cauchy_schwarz(ax, ay, ux, uy);
    lemma_product_below(na, p * p, nu, q * q);
    lemma_square_of_product(p, q);
    lemma_upper_margin(r, s);
    assert(p * q >= 0) by (nonlinear_arith)
        requires
            p >= 0,
            q >= 0,
    ;
    assert(c * c < (p * q) * (p * q));
    lemma_square_below(c, p * q);
    // `s * s * e` is the squared length of the scaled new difference.
    assert(ss * e == na + 2 * c + nu) by {
        lemma_square_of_product(s, ex);
        lemma_square_of_product(s, ey);
        lemma_square_of_sum(ax, ux);
        lemma_square_of_sum(ay, uy);
        assert(ss * e == ss * (ex * ex) + ss * (ey * ey)) by (nonlinear_arith)
            requires
                e == ex * ex + ey * ey,
        ;
        assert(s * ex == ax + ux);
        assert(s * ey == ay + uy);
    }
    // Upper bound.
    lemma_square_of_sum(p, q);
    lemma_square_monotone(p + q, s * (r + 4));
    lemma_square_of_product(s, r + 4);
    assert(ss * e < ss * ((r + 4) * (r + 4)));
    lemma_cancel_factor(ss, e, (r + 4) * (r + 4));
    // Lower bound.
    assert(0 <= e) by (nonlinear_arith)
        requires
            e == ex * ex + ey * ey,
    ;
    if r >= 6 {
        lemma_lower_margin(na, nu, c, r, ss);
        assert(ss * e > ss * (r * r - 6 * r));
        lemma_cancel_factor(ss, r * r - 6 * r, e);
        assert((r - 5) * (r - 5) <= r * r - 6 * r + 1) by (nonlinear_arith)
            requires
                r >= 6,
        ;
    } else if r == 5 {
        assert((r - 5) * (r - 5) == 0);
    }
}

/// A pair that overlaps, with distinct centres, is pushed apart to a
/// centre distance that differs from the sum of its radii by at most
/// `SEPARATION_TOLERANCE`.
pub proof fn lemma_separation_distance(a: Body, b: Body)
    requires
        a.valid(),
        b.valid(),
        circles_overlap(a.position, a.radius as int, b.position, b.radius as int),
        a.position != b.position,
    ensures
        ({
            let (at_a, at_b) = separated(a, b);
            let radii = a.radius + b.radius;
            let reach = (at_a.x - at_b.x) * (at_a.x - at_b.x) + (at_a.y - at_b.y) * (at_a.y
                - at_b.y);
            &&& reach <= (radii + SEPARATION_TOLERANCE) * (radii + SEPARATION_TOLERANCE)
            &&& radii >= SEPARATION_TOLERANCE ==> (radii - SEPARATION_TOLERANCE) * (radii
                - SEPARATION_TOLERANCE) <= reach
        }),
{
    let (at_a, at_b) = separated(a, b);
    let r = a.radius + b.radius;
    let dx = a.position.x - b.position.x;
    let dy = a.position.y - b.position.y;
    let s = fine_distance(a.position, b.position);
    lemma_fine_distance(a.position, b.position);
    let px = push(s, r, dx);
    let py = push(s, r, dy);
    lemma_div_trunc_bounds((s - r * FINE) * dx, 2 * s);
    lemma_div_trunc_bounds((s - r * FINE) * dy, 2 * s);
    let ex = at_a.x - at_b.x;
    let ey = at_a.y - at_b.y;
    assert(ex == dx - 2 * px);
    assert(ey == dy - 2 * py);
    assert(s * ex - r * FINE * dx == (s - r * FINE) * dx - px * (2 * s)) by (nonlinear_arith)
        requires
            ex == dx - 2 * px,
    ;
    assert(s * ey - r * FINE * dy == (s - r * FINE) * dy - py * (2 * s)) by (nonlinear_arith)
        requires
            ey == dy - 2 * py,
    ;
    lemma_rescaled_length(dx, dy, s, r, ex, ey);
    assert((r + 4) * (r + 4) <= (r + 5) * (r + 5)) by (nonlinear_arith)
        requires
            r > 0,
    ;
}

/// A pair at rest that was resolved is still at rest, and its centres are
/// as far apart as the sum of its radii, up to `SEPARATION_TOLERANCE`.
pub proof fn lemma_pair_at_rest(a: Body, b: Body, mode: FrictionMode)
    requires
        a.valid(),
        b.valid(),
        a.at_rest(),
        b.at_rest(),
        resolved(a, b, mode) is Some,
    ensures
        ({
            let (x, y) = resolved(a, b, mode)->0;
            let radii = a.radius + b.radius;
            &&& x.at_rest()
            &&& y.at_rest()
            &&& dist_sq(x.position, y.position) <= (radii + SEPARATION_TOLERANCE) * (radii
                + SEPARATION_TOLERANCE)
            &&& radii >= SEPARATION_TOLERANCE ==> (radii - SEPARATION_TOLERANCE) * (radii
                - SEPARATION_TOLERANCE) <= dist_sq(x.position, y.position)
        }),
{
    lemma_rest_stays_at_rest(a, b, mode);
    lemma_separation_distance(a, b);
}

/// An overlapping pair at rest is resolved wherever its centres are
/// distinct, the corrected centres can be stored, and the radii add up to
/// more than `SEPARATION_TOLERANCE`.
pub proof fn lemma_pair_at_rest_is_resolved(a: Body, b: Body, mode: FrictionMode)
    requires
        a.valid(),
        b.valid(),
        a.at_rest(),
        b.at_rest(),
        circles_overlap(a.position, a.radius as int, b.position, b.radius as int),
        a.position != b.position,
        separated(a, b).0.fits(),
        separated(a, b).1.fits(),
        a.radius + b.radius > SEPARATION_TOLERANCE,
    ensures
        resolved(a, b, mode) is Some,
{
    let (at_a, at_b) = separated(a, b);
    let pa = at_a.stored();
    let pb = at_b.stored();
    let radii = a.radius + b.radius;
    lemma_separation_distance(a, b);
    assert((radii - SEPARATION_TOLERANCE) * (radii - SEPARATION_TOLERANCE) > 0) by (nonlinear_arith)
        requires
            radii > SEPARATION_TOLERANCE,
    ;
    if pa == pb {
        assert((at_a.x - at_b.x) * (at_a.x - at_b.x) + (at_a.y - at_b.y) * (at_a.y - at_b.y) == 0)
            by (nonlinear_arith)
            requires
                at_a.x == at_b.x,
                at_a.y == at_b.y,
        ;
    }
    let dx = pa.x - pb.x;
    let dy = pa.y - pb.y;
    let dsq = dist_sq(pa, pb);
    let sum = a.mass() + b.mass();
    lemma_dist_sq_bounds(pa, pb);
    let dot = (a.velocity.x - b.velocity.x) * dx + (a.velocity.y - b.velocity.y) * dy;
    assert(dot == 0) by (nonlinear_arith)
        requires
            dot == (0 - 0) * dx + (0 - 0) * dy,
    ;
    assert(sum * dsq > 0) by (nonlinear_arith)
        requires
            sum > 0,
            dsq > 0,
    ;
    assert(2 * a.mass() * dot * dx == 0 && 2 * a.mass() * dot * dy == 0 && 2 * b.mass() * dot * dx
        == 0 && 2 * b.mass() * dot * dy == 0) by (nonlinear_arith)
        requires
            dot == 0,
    ;
    lemma_div_trunc_exact(0, sum * dsq);
    assert(0int * (sum * dsq) == 0);
}

/// A pass over two bodies resolves their one pair.
pub proof fn lemma_pass_over_one_pair(a: Body, b: Body, mode: FrictionMode)
    ensures
        resolve_all(seq![a, b], mode) == match resolved(a, b, mode) {
            Some((x, y)) => (seq![x, y], seq![(0int, 1int)]),
            None => (seq![a, b], Seq::<(int, int)>::empty()),
        },
{
    let s = seq![a, b];
    assert(s[0] == a && s[1] == b);
    match resolved(a, b, mode) {
        Some((x, y)) => {
            let next = s.update(0, x).update(1, y);
            assert(next == seq![x, y]);
            assert(resolve_from(next, 0, 2, mode) == resolve_from(next, 1, 2, mode));
            assert(resolve_from(next, 1, 2, mode) == resolve_from(next, 2, 3, mode));
            assert(resolve_from(next, 2, 3, mode).0 == next);
            assert(seq![(0int, 1int)] + Seq::<(int, int)>::empty() == seq![(0int, 1int)]);
        },
        None => {
            assert(resolve_from(s, 0, 2, mode) == resolve_from(s, 1, 2, mode));
            assert(resolve_from(s, 1, 2, mode) == resolve_from(s, 2, 3, mode));
        },
    }
}

/// It does not matter which body of a pair is named first: the two are
/// pushed apart and exchange velocity in the same way.
pub proof fn lemma_resolved_symmetric(a: Body, b: Body, mode: FrictionMode)
    requires
        a.valid(),
        b.valid(),
    ensures
        resolved(b, a, mode) == match resolved(a, b, mode) {
            Some((x, y)) => Some((y, x)),
            None => None,
        },
{
    lemma_overlap_symmetric(a.position, a.radius as int, b.position, b.radius as int);
    lemma_dist_sq_bounds(a.position, b.position);
    if circles_overlap(a.position, a.radius as int, b.position, b.radius as int) && a.position
        != b.position {
        let d = fine_distance(a.position, b.position);
        let radii = a.radius + b.radius;
        let dx = a.position.x - b.position.x;
        let dy = a.position.y - b.position.y;
        lemma_fine_distance(a.position, b.position);
        assert((d - radii * FINE) * (-dx) == -((d - radii * FINE) * dx)) by (nonlinear_arith);
        assert((d - radii * FINE) * (-dy) == -((d - radii * FINE) * dy)) by (nonlinear_arith);
        lemma_div_trunc_odd((d - radii * FINE) * dx, 2 * d);
        lemma_div_trunc_odd((d - radii * FINE) * dy, 2 * d);
        let (at_a, at_b) = separated(a, b);
        assert(separated(b, a) == (at_b, at_a));
        if at_a.fits() && at_b.fits() && at_a.stored() != at_b.stored() {
            let pa = at_a.stored();
            let pb = at_b.stored();
            let ex = pa.x - pb.x;
            let ey = pa.y - pb.y;
            let dsq = dist_sq(pa, pb);
            let sum = a.mass() + b.mass();
            let dot = (a.velocity.x - b.velocity.x) * ex + (a.velocity.y - b.velocity.y) * ey;
            let tod = (b.velocity.x - a.velocity.x) * (-ex) + (b.velocity.y - a.velocity.y) * (-ey);
            lemma_dist_sq_bounds(pa, pb);
            assert(tod == dot) by (nonlinear_arith)
                requires
                    dot == (a.velocity.x - b.velocity.x) * ex + (a.velocity.y - b.velocity.y) * ey,
                    tod == (b.velocity.x - a.velocity.x) * (-ex) + (b.velocity.y - a.velocity.y)
                        * (-ey),
            ;
            assert(sum * dsq > 0) by (nonlinear_arith)
                requires
                    sum > 0,
                    dsq > 0,
            ;
            assert(2 * a.mass() * dot * (-ex) == -(2 * a.mass() * dot * ex)) by (nonlinear_arith);
            assert(2 * a.mass() * dot * (-ey) == -(2 * a.mass() * dot * ey)) by (nonlinear_arith);
            assert(2 * b.mass() * dot * (-ex) == -(2 * b.mass() * dot * ex)) by (nonlinear_arith);
            assert(2 * b.mass() * dot * (-ey) == -(2 * b.mass() * dot * ey)) by (nonlinear_arith);
            lemma_div_trunc_odd(2 * a.mass() * dot * ex, sum * dsq);
            lemma_div_trunc_odd(2 * a.mass() * dot * ey, sum * dsq);
            lemma_div_trunc_odd(2 * b.mass() * dot * ex, sum * dsq);
            lemma_div_trunc_odd(2 * b.mass() * dot * ey, sum * dsq);
            let (va, vb) = exchanged(a, b, pa, pb);
            assert(b.mass() + a.mass() == sum);
            assert(exchanged(b, a, pb, pa) == (vb, va));
        }
    }
}

/// `t` holds the bodies of `s`, each with its own radius and colour; they
/// may have moved.
pub open spec fn same_bodies(s: Seq<Body>, t: Seq<Body>) -> bool {
    &&& t.len() == s.len()
    &&& forall|k: int|
        0 <= k < s.len() ==> (#[trigger] t[k]).radius == s[k].radius && t[k].color == s[k].color
}

/// The pair `p` comes before the pair `q` in lexicographic order.
pub open spec fn pair_before(p: (int, int), q: (int, int)) -> bool {
    p.0 < q.0 || (p.0 == q.0 && p.1 < q.1)
}

/// Every pair of `hits` is a pair `(a, b)` of indices below `count` with
/// `a < b`, none comes before `(i, j)`, and they stand in strictly
/// ascending order.
pub open spec fn ascending_pairs(hits: Seq<(int, int)>, i: int, j: int, count: int) -> bool {
    &&& forall|k: int|
        0 <= k < hits.len() ==> 0 <= (#[trigger] hits[k]).0 < hits[k].1 < count && !pair_before(
            hits[k],
            (i, j),
        )
    &&& forall|k: int, l: int|
        0 <= k < l < hits.len() ==> pair_before(#[trigger] hits[k], #[trigger] hits[l])
}

/// A resolved pair keeps the radius and the colour of either body.
pub proof fn lemma_resolved_keeps_bodies(a: Body, b: Body, mode: FrictionMode)
    requires
        resolved(a, b, mode) is Some,
    ensures
        ({
            let (x, y) = resolved(a, b, mode)->0;
            x.radius == a.radius && x.color == a.color && y.radius == b.radius && y.color
                == b.color
        }),
{
}

/// A pass neither adds nor removes a body nor changes a radius or a
/// colour, and it resolves no pair twice: the pairs it reports are pairs of
/// distinct indices in strictly ascending order.
pub proof fn lemma_resolve_from(s: Seq<Body>, i: int, j: int, mode: FrictionMode)
    requires
        0 <= i < j,
    ensures
        same_bodies(s, resolve_from(s, i, j, mode).0),
        ascending_pairs(resolve_from(s, i, j, mode).1, i, j, s.len() as int),
    decreases s.len() - i, s.len() - j,
{
    if i >= s.len() {
    } else if j >= s.len() {
        lemma_resolve_from(s, i + 1, i + 2, mode);
    } else {
        match resolved(s[i], s[j], mode) {
            Some((a, b)) => {
                let next = s.update(i, a).update(j, b);
                lemma_resolved_keeps_bodies(s[i], s[j], mode);
                lemma_resolve_from(next, i, j + 1, mode);
                let rest = resolve_from(next, i, j + 1, mode);
                let hits = seq![(i, j)] + rest.1;
                assert(same_bodies(s, rest.0)) by {
                    assert forall|k: int| 0 <= k < s.len() implies (#[trigger] rest.0[k]).radius
                        == s[k].radius && rest.0[k].color == s[k].color by {
                        assert(next[k].radius == s[k].radius && next[k].color == s[k].color);
                    }
                }
                assert forall|k: int| 0 <= k < hits.len() implies 0 <= (#[trigger] hits[k]).0
                    < hits[k].1 < s.len() && !pair_before(hits[k], (i, j)) by {
                    if k > 0 {
                        assert(hits[k] == rest.1[k - 1]);
                    }
                }
                assert forall|k: int, l: int| 0 <= k < l < hits.len() implies pair_before(
                    #[trigger] hits[k],
                    #[trigger] hits[l],
                ) by {
                    assert(hits[l] == rest.1[l - 1]);
                    if k > 0 {
                        assert(hits[k] == rest.1[k - 1]);
                    }
                }
            },
            None => {
                lemma_resolve_from(s, i, j + 1, mode);
            },
        }
    }
}

/// The same of a whole pass.
pub proof fn lemma_resolve_all(s: Seq<Body>, mode: FrictionMode)
    ensures
        same_bodies(s, resolve_all(s, mode).0),
        ascending_pairs(resolve_all(s, mode).1, 0, 1, s.len() as int),
{
    lemma_resolve_from(s, 0, 1, mode);
}

} // verus!
