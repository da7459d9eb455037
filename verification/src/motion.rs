//! The integrator: it moves every body by its velocity, applies drag,
//! brings slow bodies to rest and wraps positions around the plane.
//!
//! Time is counted in milliseconds and velocity in position units per
//! second. A coordinate that reaches zero or less reappears at the far
//! edge, and one beyond the far edge reappears at zero.

use vstd::prelude::*;
use crate::arith::{div_trunc, lemma_div_trunc_bounds, lemma_div_trunc_shrinks};
use crate::body::{bodies, Ball, Body};
use crate::geometry::Vec2;
use crate::settings::{Bounds, FrictionMode};

verus! {

/// A body whose squared speed is below this comes to rest: a twentieth of
/// a squared pixel per second, in squared position units.
pub const SNAP_THRESHOLD: i128 = 50_000;

/// A coordinate after `elapsed_ms` milliseconds at `velocity`.
pub open spec fn advanced(position: int, velocity: int, elapsed_ms: int) -> int {
    position + div_trunc(velocity * elapsed_ms, 1000)
}

/// A velocity component after one tick of drag: 99 percent of it, rounded
/// toward zero.
pub open spec fn dragged(v: int) -> int {
    div_trunc(v * 99, 100)
}

/// The velocity after the friction of one tick in the given mode.
pub open spec fn after_drag(v: Vec2, mode: FrictionMode) -> Vec2 {
    if mode == FrictionMode::Drag {
        Vec2 { x: dragged(v.x as int) as i32, y: dragged(v.y as int) as i32 }
    } else {
        v
    }
}

/// A velocity below the threshold becomes the zero vector; any other is
/// kept.
pub open spec fn snapped(v: Vec2) -> Vec2 {
    if v.norm_sq() < SNAP_THRESHOLD {
        Vec2 { x: 0, y: 0 }
    } else {
        v
    }
}

/// A coordinate wrapped into `0 ..= limit`.
pub open spec fn wrapped(coordinate: int, limit: int) -> int {
    if coordinate <= 0 {
        limit
    } else if coordinate > limit {
        0
    } else {
        coordinate
    }
}

/// One body after one tick on a plane of the given size. The position
/// advances by the velocity the body had when the tick began.
pub open spec fn stepped(b: Body, elapsed_ms: int, width: int, height: int, mode: FrictionMode) -> Body {
    b.moved(
        Vec2 {
            x: wrapped(advanced(b.position.x as int, b.velocity.x as int, elapsed_ms), width) as i32,
            y: wrapped(advanced(b.position.y as int, b.velocity.y as int, elapsed_ms), height) as i32,
        },
        snapped(after_drag(b.velocity, mode)),
    )
}

/// All bodies after one tick of the integrator.
pub open spec fn stepped_all(s: Seq<Body>, elapsed_ms: int, width: int, height: int, mode: FrictionMode) -> Seq<Body> {
    s.map_values(|b: Body| stepped(b, elapsed_ms, width, height, mode))
}

/// The body lies on the plane, its edges included.
pub open spec fn on_plane(b: Body, width: int, height: int) -> bool {
    0 <= b.position.x <= width && 0 <= b.position.y <= height
}

/// The body is at rest or at least as fast as the snap threshold.
pub open spec fn settled(b: Body) -> bool {
    b.at_rest() || b.velocity.norm_sq() >= SNAP_THRESHOLD
}

/// Wrapping keeps a coordinate on the plane: one beyond the far edge goes
/// to zero, one at zero or below goes to the far edge, any other stays.
pub proof fn lemma_wrap(coordinate: int, limit: int)
    requires
        0 < limit,
    ensures
        0 <= wrapped(coordinate, limit) <= limit,
        coordinate > limit ==> wrapped(coordinate, limit) == 0,
        coordinate <= 0 ==> wrapped(coordinate, limit) == limit,
        0 < coordinate <= limit ==> wrapped(coordinate, limit) == coordinate,
{
}

/// The snap rule: below the threshold the velocity becomes zero, at or
/// above it the velocity is kept; what results is at rest or at least as
/// fast as the threshold.
pub proof fn lemma_snap(v: Vec2)
    ensures
        v.norm_sq() < SNAP_THRESHOLD ==> snapped(v) == (Vec2 { x: 0, y: 0 }),
        v.norm_sq() >= SNAP_THRESHOLD ==> snapped(v) == v,
        snapped(v) == (Vec2 { x: 0, y: 0 }) || snapped(v).norm_sq() >= SNAP_THRESHOLD,
{
}

/// After a tick a body lies on the plane and is settled, with the radius
/// and the colour it had.
pub proof fn lemma_stepped(b: Body, elapsed_ms: int, width: int, height: int, mode: FrictionMode)
    requires
        0 < width <= i32::MAX,
        0 < height <= i32::MAX,
    ensures
        on_plane(stepped(b, elapsed_ms, width, height, mode), width, height),
        settled(stepped(b, elapsed_ms, width, height, mode)),
        stepped(b, elapsed_ms, width, height, mode).radius == b.radius,
        stepped(b, elapsed_ms, width, height, mode).color == b.color,
{
    lemma_wrap(advanced(b.position.x as int, b.velocity.x as int, elapsed_ms), width);
    lemma_wrap(advanced(b.position.y as int, b.velocity.y as int, elapsed_ms), height);
    lemma_snap(after_drag(b.velocity, mode));
}

/// Computes `wrapped` for a coordinate that was just advanced.
fn wrap(coordinate: i128, limit: i32) -> (c: i32)
    requires
        0 < limit,
    ensures
        c == wrapped(coordinate as int, limit as int),
        0 <= c <= limit,
{
    if coordinate <= 0 {
        limit
    } else if coordinate > limit as i128 {
        0
    } else {
        coordinate as i32
    }
}

/// Computes `advanced`.
fn advance(position: i32, velocity: i32, elapsed_ms: u32) -> (p: i128)
    ensures
        p == advanced(position as int, velocity as int, elapsed_ms as int),
{
    proof {
        assert(-0x8000_0000 * 0xffff_ffff <= velocity * elapsed_ms <= 0x8000_0000 * 0xffff_ffff)
            by (nonlinear_arith)
            requires
                -0x8000_0000 <= velocity <= 0x8000_0000,
                0 <= elapsed_ms <= 0xffff_ffff,
        ;
        lemma_div_trunc_shrinks(velocity * elapsed_ms, 1000);
    }
    position as i128 + (velocity as i128 * elapsed_ms as i128) / 1000
}

/// Computes `after_drag`.
fn drag(v: Vec2, friction_mode: &FrictionMode) -> (w: Vec2)
    ensures
        w == after_drag(v, *friction_mode),
{
    match friction_mode {
        FrictionMode::Drag => {
            proof {
                lemma_div_trunc_bounds(v.x * 99, 100);
                lemma_div_trunc_bounds(v.y * 99, 100);
            }
            let x: i64 = (v.x as i64 * 99) / 100;
            let y: i64 = (v.y as i64 * 99) / 100;
            Vec2 { x: x as i32, y: y as i32 }
        },
        _ => v,
    }
}

/// Computes `snapped`.
fn snap(v: Vec2) -> (w: Vec2)
    ensures
        w == snapped(v),
{
    let x: i128 = v.x as i128;
    let y: i128 = v.y as i128;
    assert(0 <= x * x <= 0x8000_0000 * 0x8000_0000) by (nonlinear_arith)
        requires
            -0x8000_0000 <= x <= 0x8000_0000,
    ;
    assert(0 <= y * y <= 0x8000_0000 * 0x8000_0000) by (nonlinear_arith)
        requires
            -0x8000_0000 <= y <= 0x8000_0000,
    ;
    if x * x + y * y < SNAP_THRESHOLD {
        Vec2 { x: 0, y: 0 }
    } else {
        v
    }
}

/// Advances one ball by one tick of `elapsed_ms` milliseconds.
///
/// Afterwards the ball lies on the plane, and its velocity is zero or not
/// below the snap threshold.
pub fn integrate_ball(ball: &mut Ball, elapsed_ms: u32, bounds: &Bounds, friction_mode: &FrictionMode)
    ensures
        final(ball)@ == stepped(
            old(ball)@,
            elapsed_ms as int,
            bounds.width() as int,
            bounds.height() as int,
            *friction_mode,
        ),
        on_plane(final(ball)@, bounds.width() as int, bounds.height() as int),
        settled(final(ball)@),
{
    let p = ball.position();
    let v = ball.velocity();
    let x = wrap(advance(p.x, v.x, elapsed_ms), bounds.width());
    let y = wrap(advance(p.y, v.y, elapsed_ms), bounds.height());
    let w = snap(drag(v, friction_mode));
    *ball = ball.moved(Vec2 { x, y }, w);
}

/// Advances every ball by one tick of `elapsed_ms` milliseconds. Afterwards
/// every ball lies on the plane and is settled.
pub fn integrate(balls: &mut Vec<Ball>, elapsed_ms: u32, bounds: &Bounds, friction_mode: &FrictionMode)
    ensures
        bodies(final(balls)@) == stepped_all(
            bodies(old(balls)@),
            elapsed_ms as int,
            bounds.width() as int,
            bounds.height() as int,
            *friction_mode,
        ),
        final(balls)@.len() == old(balls)@.len(),
        forall|k: int|
            0 <= k < final(balls)@.len() ==> on_plane(
                (#[trigger] final(balls)@[k])@,
                bounds.width() as int,
                bounds.height() as int,
            ) && settled(final(balls)@[k]@),
{
    let ghost before = bodies(balls@);
    let ghost goal = stepped_all(
        before,
        elapsed_ms as int,
        bounds.width() as int,
        bounds.height() as int,
        *friction_mode,
    );
    let n = balls.len();
    let mut i: usize = 0;
    while i < n
        invariant
            balls.len() == n,
            before.len() == n,
            i <= n,
            goal == stepped_all(
                before,
                elapsed_ms as int,
                bounds.width() as int,
                bounds.height() as int,
                *friction_mode,
            ),
            forall|k: int| 0 <= k < i ==> #[trigger] balls@[k]@ == goal[k],
            forall|k: int|
                0 <= k < i ==> on_plane(
                    (#[trigger] balls@[k])@,
                    bounds.width() as int,
                    bounds.height() as int,
                ) && settled(balls@[k]@),
            forall|k: int| i <= k < n ==> #[trigger] balls@[k]@ == before[k],
        decreases n - i,
    {
        let mut ball = balls[i];
        integrate_ball(&mut ball, elapsed_ms, bounds, friction_mode);
        balls.set(i, ball);
        i = i + 1;
    }
    assert(bodies(balls@) == goal);
}

} // verus!
