//! What the pointer and the keyboard do to the simulation: picking a ball
//! up, carrying it, aiming at it and launching it.
//!
//! At most one ball is held and at most one is aimed at. The decisions are
//! made here; reading the devices is the caller's part.

use vstd::prelude::*;
use crate::arith::{div_trunc, lemma_div_trunc_bounds};
use crate::body::{bodies, Ball, Body};
use crate::collision::{fine_distance, lemma_fine_distance, measure, FINE};
use crate::geometry::{dist_sq, is_point_in_circle, point_in_circle, Vec2};

verus! {

/// The largest launch speed: five thousand pixels per second.
pub const MAX_SPEED: i32 = 5_000_000;

/// One notch of the wheel changes the launch speed by a hundred pixels per
/// second; the wheel is read in thousandths of a notch.
pub const SPEED_PER_WHEEL_UNIT: i32 = 100;

/// Which ball is held and which is aimed at.
#[derive(Clone, Copy, Debug, PartialEq, Eq)]
pub struct Selection {
    /// The ball that follows the pointer, if any.
    pub held: Option<usize>,
    /// The ball that waits to be launched, if any.
    pub aimed: Option<usize>,
}

/// The point lies on the body.
pub open spec fn covers(body: Body, point: Vec2) -> bool {
    point_in_circle(point, body.position, body.radius as int)
}

/// `found` is the first body of `s` that covers `point`, or `None` where
/// none does.
pub open spec fn is_first_hit(s: Seq<Body>, point: Vec2, found: Option<usize>) -> bool {
    match found {
        Some(i) => i < s.len() && covers(s[i as int], point) && forall|k: int|
            0 <= k < i ==> !covers(#[trigger] s[k], point),
        None => forall|k: int| 0 <= k < s.len() ==> !covers(#[trigger] s[k], point),
    }
}

/// The bodies `s` with body `i` brought to rest.
pub open spec fn halted(s: Seq<Body>, i: int) -> Seq<Body> {
    s.update(i, s[i].moved(s[i].position, Vec2 { x: 0, y: 0 }))
}

/// The launch speed after the wheel moved by `wheel` thousandths of a
/// notch: changed by a hundred pixels per second and notch, and kept
/// within `0 ..= MAX_SPEED`.
pub open spec fn speed_after(speed: int, wheel: int) -> int {
    let raw = speed + wheel * SPEED_PER_WHEEL_UNIT;
    if raw < 0 {
        0
    } else if raw > MAX_SPEED {
        MAX_SPEED as int
    } else {
        raw
    }
}

/// One component of the launch velocity: `speed` times the direction from
/// the pointer to the ball, whose centre is `delta` away on this axis and
/// at the fine distance `distance` in all.
pub open spec fn launch_component(delta: int, speed: int, distance: int) -> int {
    div_trunc(delta * speed * FINE, distance)
}

/// The velocity of a ball at `from` that is launched away from `pointer`
/// at `speed`. A ball right under the pointer has no direction to go and
/// gets the zero vector.
pub open spec fn launch_velocity(from: Vec2, pointer: Vec2, speed: int) -> Vec2 {
    if from == pointer {
        Vec2 { x: 0, y: 0 }
    } else {
        let distance = fine_distance(from, pointer);
        Vec2 {
            x: launch_component(from.x - pointer.x, speed, distance) as i32,
            y: launch_component(from.y - pointer.y, speed, distance) as i32,
        }
    }
}

/// Finds the first ball under `point`, in the order of `balls`.
pub fn hit_test(balls: &Vec<Ball>, point: &Vec2) -> (found: Option<usize>)
    ensures
        is_first_hit(bodies(balls@), *point, found),
{
    let mut i: usize = 0;
    while i < balls.len()
        invariant
            i <= balls.len(),
            forall|k: int| 0 <= k < i ==> !covers(#[trigger] bodies(balls@)[k], *point),
        decreases balls.len() - i,
    {
        let center = balls[i].position();
        if is_point_in_circle(point, &center, balls[i].radius()) {
            return Some(i);
        }
        i = i + 1;
    }
    None
}

/// Brings every ball to rest.
pub fn stop_all(balls: &mut Vec<Ball>)
    ensures
        final(balls)@.len() == old(balls)@.len(),
        forall|k: int|
            0 <= k < old(balls)@.len() ==> #[trigger] final(balls)@[k]@ == old(balls)@[k]@.moved(
                old(balls)@[k]@.position,
                Vec2 { x: 0, y: 0 },
            ),
{
    let n = balls.len();
    let mut i: usize = 0;
    while i < n
        invariant
            balls.len() == n,
            n == old(balls)@.len(),
            i <= n,
            forall|k: int|
                0 <= k < i ==> #[trigger] balls@[k]@ == old(balls)@[k]@.moved(
                    old(balls)@[k]@.position,
                    Vec2 { x: 0, y: 0 },
                ),
            forall|k: int| i <= k < n ==> #[trigger] balls@[k] == old(balls)@[k],
        decreases n - i,
    {
        let mut ball = balls[i];
        ball.set_velocity(Vec2 { x: 0, y: 0 });
        balls.set(i, ball);
        i = i + 1;
    }
}

/// Computes `speed_after`.
pub fn adjust_speed(speed: i32, wheel: i32) -> (adjusted: i32)
    ensures
        adjusted == speed_after(speed as int, wheel as int),
        0 <= adjusted <= MAX_SPEED,
{
    assert(wheel * SPEED_PER_WHEEL_UNIT == wheel * 100);
    let raw: i64 = speed as i64 + wheel as i64 * 100;
    if raw < 0 {
        0
    } else if raw > MAX_SPEED as i64 {
        MAX_SPEED
    } else {
        raw as i32
    }
}

proof fn lemma_square_order(x: int, y: int)
    by (nonlinear_arith)
    requires
        0 <= x,
        0 <= y,
        x * x < y * y,
    ensures
        x < y,
{
}

/// A component of a difference of centres, in fine steps, is no longer
/// than the fine distance.
proof fn lemma_component_within_distance(from: Vec2, pointer: Vec2, delta: int)
    requires
        from != pointer,
        delta == from.x - pointer.x || delta == from.y - pointer.y,
    ensures
        -fine_distance(from, pointer) <= delta * FINE <= fine_distance(from, pointer),
        fine_distance(from, pointer) >= FINE,
{
    let d = dist_sq(from, pointer);
    let s = fine_distance(from, pointer);
    lemma_fine_distance(from, pointer);
    let m = if delta >= 0 {
        delta * FINE
    } else {
        -(delta * FINE)
    };
    assert(0 <= delta * delta <= d) by (nonlinear_arith)
        requires
            d == (from.x - pointer.x) * (from.x - pointer.x) + (from.y - pointer.y) * (from.y
                - pointer.y),
            delta == from.x - pointer.x || delta == from.y - pointer.y,
    ;
    assert(m * m == (delta * delta) * (FINE * FINE)) by (nonlinear_arith)
        requires
            m == delta * FINE || m == -(delta * FINE),
    ;
    assert((delta * delta) * (FINE * FINE) <= d * (FINE * FINE)) by (nonlinear_arith)
        requires
            delta * delta <= d,
    ;
    assert(m >= 0) by (nonlinear_arith)
        requires
            m == delta * FINE && delta >= 0 || m == -(delta * FINE) && delta < 0,
    ;
    lemma_square_order(m, s + 1);
}

/// Computes `launch_component`.
fn launch_along(delta: i128, speed: i128, distance: i128) -> (v: i32)
    requires
        0 <= speed <= MAX_SPEED,
        FINE <= distance < 0x40_0000_0000_0000,
        -distance <= delta * FINE <= distance,
    ensures
        v == launch_component(delta as int, speed as int, distance as int),
{
    let reach: i128 = delta * FINE;
    proof {
        assert(-(distance * speed) <= reach * speed <= distance * speed) by (nonlinear_arith)
            requires
                -distance <= reach <= distance,
                0 <= speed,
        ;
        assert(0 <= distance * speed <= 0x40_0000_0000_0000 * 5_000_000) by (nonlinear_arith)
            requires
                0 <= distance <= 0x40_0000_0000_0000,
                0 <= speed <= 5_000_000,
        ;
        assert(delta * speed * FINE == reach * speed) by (nonlinear_arith)
            requires
                reach == delta * FINE,
        ;
        lemma_div_trunc_bounds(reach * speed, distance as int);
        let q = div_trunc(reach * speed, distance as int);
        assert(-speed <= q <= speed) by (nonlinear_arith)
            requires
                -(distance * speed) <= reach * speed <= distance * speed,
                reach * speed >= 0 ==> 0 <= q * distance <= reach * speed,
                reach * speed <= 0 ==> reach * speed <= q * distance <= 0,
                distance > 0,
                speed >= 0,
        ;
    }
    ((reach * speed) / distance) as i32
}

/// Computes `launch_velocity`.
pub fn launch(from: &Vec2, pointer: &Vec2, speed: i32) -> (velocity: Vec2)
    requires
        0 <= speed <= MAX_SPEED,
    ensures
        velocity == launch_velocity(*from, *pointer, speed as int),
{
    if from.x == pointer.x && from.y == pointer.y {
        return Vec2 { x: 0, y: 0 };
    }
    let distance = measure(from, pointer);
    proof {
        lemma_component_within_distance(*from, *pointer, from.x - pointer.x);
        lemma_component_within_distance(*from, *pointer, from.y - pointer.y);
    }
    Vec2 {
        x: launch_along(from.x as i128 - pointer.x as i128, speed as i128, distance),
        y: launch_along(from.y as i128 - pointer.y as i128, speed as i128, distance),
    }
}

impl Selection {
    /// Each index that is set names one of `count` balls.
    pub open spec fn valid_for(self, count: nat) -> bool {
        &&& self.held matches Some(i) ==> i < count
        &&& self.aimed matches Some(i) ==> i < count
    }

    /// No ball is held while another, or the same, is aimed at. This holds
    /// after every event.
    pub open spec fn exclusive(self) -> bool {
        self.held is None || self.aimed is None
    }

    /// Nothing held, nothing aimed at.
    pub fn new() -> (selection: Selection)
        ensures
            selection.held is None,
            selection.aimed is None,
    {
        Selection { held: None, aimed: None }
    }

    /// The escape key: lets go of both balls.
    pub fn cancel(&mut self)
        ensures
            final(self).held is None,
            final(self).aimed is None,
    {
        self.held = None;
        self.aimed = None;
    }

    /// The left button. It releases the held ball, if there is one.
    /// Otherwise it stops aiming, picks up the first ball under the
    /// pointer and brings that ball to rest.
    pub fn left_click(&mut self, balls: &mut Vec<Ball>, pointer: &Vec2)
        ensures
            old(self).held is Some ==> final(self).held is None && final(self).aimed == old(
                self,
            ).aimed && final(balls)@ == old(balls)@,
            old(self).held is None ==> final(self).aimed is None && is_first_hit(
                bodies(old(balls)@),
                *pointer,
                final(self).held,
            ) && bodies(final(balls)@) == match final(self).held {
                Some(i) => halted(bodies(old(balls)@), i as int),
                None => bodies(old(balls)@),
            },
            final(balls)@.len() == old(balls)@.len(),
    {
        if self.held.is_some() {
            self.held = None;
        } else {
            self.aimed = None;
            self.held = hit_test(balls, pointer);
            if let Some(i) = self.held {
                let mut ball = balls[i];
                ball.set_velocity(Vec2 { x: 0, y: 0 });
                balls.set(i, ball);
                assert(bodies(balls@) == halted(bodies(old(balls)@), i as int));
            }
        }
    }

    /// The right button. It launches the ball that is aimed at, away from
    /// the pointer at `speed`, and stops aiming. Where no ball is aimed at,
    /// it lets go of the held ball and aims at the first ball under the
    /// pointer.
    pub fn right_click(&mut self, balls: &mut Vec<Ball>, pointer: &Vec2, speed: i32)
        requires
            old(self).aimed matches Some(i) ==> i < old(balls)@.len(),
            0 <= speed <= MAX_SPEED,
        ensures
            old(self).aimed matches Some(i) ==> final(self).aimed is None && final(self).held
                == old(self).held && bodies(final(balls)@) == bodies(old(balls)@).update(
                i as int,
                old(balls)@[i as int]@.moved(
                    old(balls)@[i as int]@.position,
                    launch_velocity(old(balls)@[i as int]@.position, *pointer, speed as int),
                ),
            ),
            old(self).aimed is None ==> final(self).held is None && is_first_hit(
                bodies(old(balls)@),
                *pointer,
                final(self).aimed,
            ) && final(balls)@ == old(balls)@,
            final(balls)@.len() == old(balls)@.len(),
            final(self).exclusive(),
            old(self).valid_for(old(balls)@.len()) ==> final(self).valid_for(final(balls)@.len()),
    {
        if let Some(i) = self.aimed {
            let mut ball = balls[i];
            let from = ball.position();
            ball.set_velocity(launch(&from, pointer, speed));
            balls.set(i, ball);
            self.aimed = None;
            assert(bodies(balls@) == bodies(old(balls)@).update(i as int, ball@));
        } else {
            self.held = None;
            self.aimed = hit_test(balls, pointer);
        }
    }

    /// Once per tick, before the resolver runs: the held ball, if there is
    /// one, is put under the pointer.
    pub fn carry(&self, balls: &mut Vec<Ball>, pointer: &Vec2)
        requires
            self.held matches Some(i) ==> i < old(balls)@.len(),
        ensures
            bodies(final(balls)@) == match self.held {
                Some(i) => bodies(old(balls)@).update(
                    i as int,
                    old(balls)@[i as int]@.moved(*pointer, old(balls)@[i as int]@.velocity),
                ),
                None => bodies(old(balls)@),
            },
            final(balls)@.len() == old(balls)@.len(),
    {
        if let Some(i) = self.held {
            let mut ball = balls[i];
            ball.set_position(*pointer);
            balls.set(i, ball);
            assert(bodies(balls@) == bodies(old(balls)@).update(i as int, ball@));
        }
    }
}

} // verus!
