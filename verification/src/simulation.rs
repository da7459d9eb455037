//! One tick of the simulation: the resolver pass, then the integrator.

use vstd::prelude::*;
use crate::body::{bodies, Ball, Body};
use crate::collision::{index_pairs, resolve_all, resolve_collisions};
use crate::collision_lemmas::{lemma_resolve_all, same_bodies};
use crate::motion::{integrate, lemma_stepped, on_plane, settled, stepped_all};
use crate::settings::{Bounds, FrictionMode};

verus! {

/// The bodies after one tick: every overlapping pair is resolved, then
/// every body moves for `elapsed_ms` milliseconds.
pub open spec fn ticked(s: Seq<Body>, mode: FrictionMode, elapsed_ms: int, width: int, height: int) -> Seq<Body> {
    stepped_all(resolve_all(s, mode).0, elapsed_ms, width, height, mode)
}

/// A tick neither adds nor removes a body, and every body keeps its radius
/// and its colour; afterwards each lies on the plane and is settled.
pub proof fn lemma_ticked(s: Seq<Body>, mode: FrictionMode, elapsed_ms: int, width: int, height: int)
    requires
        0 < width <= i32::MAX,
        0 < height <= i32::MAX,
    ensures
        same_bodies(s, ticked(s, mode, elapsed_ms, width, height)),
        forall|k: int|
            0 <= k < s.len() ==> on_plane(
                #[trigger] ticked(s, mode, elapsed_ms, width, height)[k],
                width,
                height,
            ) && settled(ticked(s, mode, elapsed_ms, width, height)[k]),
{
    let resolved = resolve_all(s, mode).0;
    let after = ticked(s, mode, elapsed_ms, width, height);
    lemma_resolve_all(s, mode);
    assert forall|k: int| 0 <= k < s.len() implies (#[trigger] after[k]).radius == s[k].radius
        && after[k].color == s[k].color && on_plane(after[k], width, height) && settled(
        after[k],
    ) by {
        lemma_stepped(resolved[k], elapsed_ms, width, height, mode);
    }
}

/// Advances the simulation by one tick and returns the pairs that
/// collided in it, each as `(i, j)` with `i < j`.
///
/// No ball is added or removed. Afterwards every ball lies on the plane,
/// and is at rest or not slower than the snap threshold.
pub fn physics(balls: &mut Vec<Ball>, friction_mode: &FrictionMode, elapsed_ms: u32, bounds: &Bounds) -> (collisions: Vec<(usize, usize)>)
    ensures
        bodies(final(balls)@) == ticked(
            bodies(old(balls)@),
            *friction_mode,
            elapsed_ms as int,
            bounds.width() as int,
            bounds.height() as int,
        ),
        index_pairs(collisions@) == resolve_all(bodies(old(balls)@), *friction_mode).1,
        final(balls)@.len() == old(balls)@.len(),
        forall|k: int|
            0 <= k < collisions@.len() ==> (#[trigger] collisions@[k]).0 < collisions@[k].1
                < old(balls)@.len(),
        forall|k: int|
            0 <= k < final(balls)@.len() ==> on_plane(
                (#[trigger] final(balls)@[k])@,
                bounds.width() as int,
                bounds.height() as int,
            ) && settled(final(balls)@[k]@),
{
    let collisions = resolve_collisions(balls, friction_mode);
    integrate(balls, elapsed_ms, bounds, friction_mode);
    collisions
}

} // verus!
