//! The spawner: it places new balls at random so that no two overlap.
//!
//! A new ball keeps its radius and colour while positions are drawn for
//! it; the first position at which it overlaps no ball placed before is
//! taken. The number of draws per ball is bounded.

use vstd::prelude::*;
use crate::body::{bodies, freshly_drawn, Ball, Body};
use crate::geometry::{circles_overlap, do_circles_overlap, Vec2};
use crate::random::draw_between;
use crate::settings::{Bounds, RadiusRange};

verus! {

/// How many positions are drawn for one ball before the spawner gives up.
pub const SPAWN_ATTEMPTS: u32 = 10_000;

/// The plane is too crowded: no free position was found for a ball within
/// `SPAWN_ATTEMPTS` draws.
#[derive(Clone, Copy, Debug, PartialEq, Eq, Structural)]
pub struct SpawnDensityError {
    /// How many balls had been placed when the spawner gave up.
    pub placed: usize,
}

/// The two bodies overlap or touch.
pub open spec fn overlapping(a: Body, b: Body) -> bool {
    circles_overlap(a.position, a.radius as int, b.position, b.radius as int)
}

/// No body of `s` overlaps `candidate`.
pub open spec fn clear_of(s: Seq<Body>, candidate: Body) -> bool {
    forall|k: int| 0 <= k < s.len() ==> !overlapping(#[trigger] s[k], candidate)
}

/// No two bodies of `s` overlap.
pub open spec fn pairwise_apart(s: Seq<Body>) -> bool {
    forall|i: int, j: int| 0 <= i < j < s.len() ==> !overlapping(#[trigger] s[i], #[trigger] s[j])
}

/// Finds the first ball, in the order of `balls`, that `candidate`
/// overlaps.
pub fn first_overlap(balls: &Vec<Ball>, candidate: &Ball) -> (found: Option<usize>)
    ensures
        match found {
            Some(i) => i < balls.len() && overlapping(balls[i as int]@, candidate@) && clear_of(
                bodies(balls@).take(i as int),
                candidate@,
            ),
            None => clear_of(bodies(balls@), candidate@),
        },
{
    let position = candidate.position();
    let radius = candidate.radius();
    let mut i: usize = 0;
    while i < balls.len()
        invariant
            i <= balls.len(),
            position == candidate@.position,
            radius == candidate@.radius,
            clear_of(bodies(balls@).take(i as int), candidate@),
        decreases balls.len() - i,
    {
        let other = balls[i].position();
        if do_circles_overlap(&other, balls[i].radius(), &position, radius) {
            return Some(i);
        }
        i = i + 1;
        assert(bodies(balls@).take(i as int)[i - 1] == balls[i - 1]@);
    }
    assert(bodies(balls@).take(i as int) == bodies(balls@));
    None
}

/// Adds `candidate` to `balls` if it overlaps none of them, and tells
/// whether it did.
pub fn try_place(balls: &mut Vec<Ball>, candidate: Ball) -> (placed: bool)
    ensures
        placed == clear_of(bodies(old(balls)@), candidate@),
        placed ==> final(balls)@ == old(balls)@.push(candidate),
        !placed ==> final(balls)@ == old(balls)@,
{
    match first_overlap(balls, &candidate) {
        Some(i) => {
            assert(overlapping(bodies(balls@)[i as int], candidate@));
            false
        },
        None => {
            balls.push(candidate);
            true
        },
    }
}

/// Adding a body that is clear of all others keeps the bodies apart.
pub proof fn lemma_apart_after_push(s: Seq<Body>, candidate: Body)
    requires
        pairwise_apart(s),
        clear_of(s, candidate),
    ensures
        pairwise_apart(s.push(candidate)),
{
    let t = s.push(candidate);
    assert forall|i: int, j: int| 0 <= i < j < t.len() implies !overlapping(
        #[trigger] t[i],
        #[trigger] t[j],
    ) by {
        if j < s.len() {
            assert(t[i] == s[i] && t[j] == s[j]);
        } else {
            assert(t[i] == s[i] && t[j] == candidate);
        }
    }
}

/// Adds one random ball to `balls`, at a position where it overlaps none
/// of them.
///
/// The outcome depends on what is drawn. Either way: on success exactly
/// one ball was added, it is `freshly_drawn` and clear of the others; on
/// failure `balls` is unchanged. The first ball on an empty plane is
/// always placed.
pub fn add_new_ball(balls: &mut Vec<Ball>, bounds: &Bounds, radii: &RadiusRange) -> (added: Result<(), SpawnDensityError>)
    ensures
        match added {
            Ok(_) => {
                &&& final(balls)@.len() == old(balls)@.len() + 1
                &&& final(balls)@.drop_last() == old(balls)@
                &&& freshly_drawn(final(balls)@.last()@, *bounds, *radii)
                &&& clear_of(bodies(old(balls)@), final(balls)@.last()@)
            },
            Err(e) => final(balls)@ == old(balls)@ && e.placed == old(balls)@.len(),
        },
        old(balls)@.len() == 0 ==> added is Ok,
        pairwise_apart(bodies(old(balls)@)) ==> pairwise_apart(bodies(final(balls)@)),
{
    let mut new_ball = Ball::new(bounds, radii);
    let mut attempt: u32 = 0;
    while attempt < SPAWN_ATTEMPTS
        invariant
            balls@ == old(balls)@,
            freshly_drawn(new_ball@, *bounds, *radii),
            attempt > 0 ==> balls@.len() > 0,
        decreases SPAWN_ATTEMPTS - attempt,
    {
        if try_place(balls, new_ball) {
            proof {
                assert(balls@.drop_last() == old(balls)@);
                assert(bodies(balls@) == bodies(old(balls)@).push(new_ball@));
                if pairwise_apart(bodies(old(balls)@)) {
                    lemma_apart_after_push(bodies(old(balls)@), new_ball@);
                }
            }
            return Ok(());
        }
        let position = Vec2 { x: draw_between(0, bounds.width()), y: draw_between(0, bounds.height()) };
        new_ball.set_position(position);
        attempt = attempt + 1;
    }
    Err(SpawnDensityError { placed: balls.len() })
}

/// Places `count` random balls so that no two overlap, or fails where a
/// ball found no free position within `SPAWN_ATTEMPTS` draws.
///
/// Whatever is drawn, the balls of a successful call are `count` many,
/// each `freshly_drawn`, and pairwise apart. A call for at most one ball
/// always succeeds.
pub fn spawn_non_overlapping(count: usize, bounds: &Bounds, radii: &RadiusRange) -> (spawned: Result<Vec<Ball>, SpawnDensityError>)
    ensures
        match spawned {
            Ok(balls) => {
                &&& balls@.len() == count
                &&& pairwise_apart(bodies(balls@))
                &&& forall|k: int| 0 <= k < count ==> freshly_drawn(#[trigger] balls@[k]@, *bounds, *radii)
            },
            Err(e) => 0 < e.placed < count,
        },
        count <= 1 ==> spawned is Ok,
{
    let mut balls: Vec<Ball> = Vec::new();
    let mut i: usize = 0;
    while i < count
        invariant
            i <= count,
            balls@.len() == i,
            pairwise_apart(bodies(balls@)),
            forall|k: int| 0 <= k < i ==> freshly_drawn(#[trigger] balls@[k]@, *bounds, *radii),
        decreases count - i,
    {
        let ghost before = balls@;
        match add_new_ball(&mut balls, bounds, radii) {
            Ok(_) => {
                assert forall|k: int| 0 <= k < i + 1 implies freshly_drawn(
                    #[trigger] balls@[k]@,
                    *bounds,
                    *radii,
                ) by {
                    if k < i {
                        assert(balls@[k] == balls@.drop_last()[k]);
                    }
                }
            },
            Err(e) => {
                return Err(e);
            },
        }
        i = i + 1;
    }
    Ok(balls)
}

} // verus!
