//! The simulated body.
//!
//! `Body` is the plain record that contracts speak of. `Ball` is a body
//! whose radius is known to be valid; the simulation stores balls, and the
//! view of a ball is its body.

use vstd::prelude::*;
use crate::geometry::Vec2;
use crate::random::draw_between;
use crate::settings::{Bounds, RadiusRange};

verus! {

/// The largest radius of a ball, in position units (a thousand pixels).
pub const MAX_RADIUS: i32 = 1_000_000;

/// The mass of a body is its radius times this factor.
pub const MASS_FACTOR: i32 = 10;

/// An RGBA colour. It plays no part in the physics.
#[derive(Clone, Copy, Debug, PartialEq, Eq, Structural)]
pub struct Color {
    pub r: u8,
    pub g: u8,
    pub b: u8,
    pub a: u8,
}

/// Position, velocity (units per second), radius and colour of one body.
#[derive(Clone, Copy, Debug, PartialEq, Eq, Structural)]
pub struct Body {
    pub position: Vec2,
    pub velocity: Vec2,
    pub radius: i32,
    pub color: Color,
}

impl Body {
    /// The radius is positive and at most `MAX_RADIUS`.
    pub open spec fn valid(self) -> bool {
        0 < self.radius <= MAX_RADIUS
    }

    /// The mass, derived from the radius.
    pub open spec fn mass(self) -> int {
        self.radius * MASS_FACTOR
    }

    /// The body has zero velocity.
    pub open spec fn at_rest(self) -> bool {
        self.velocity.x == 0 && self.velocity.y == 0
    }

    /// This body moved to `position` with `velocity`.
    pub open spec fn moved(self, position: Vec2, velocity: Vec2) -> Body {
        Body { position, velocity, radius: self.radius, color: self.color }
    }
}

/// A body with a valid radius. The radius is fixed when the ball is made.
#[derive(Clone, Copy, Debug, PartialEq, Eq)]
pub struct Ball {
    body: Body,
}

impl View for Ball {
    type V = Body;

    closed spec fn view(&self) -> Body {
        self.body
    }
}

/// The bodies of a sequence of balls, in order.
pub open spec fn bodies(balls: Seq<Ball>) -> Seq<Body> {
    balls.map_values(|ball: Ball| ball@)
}

/// What holds of every body that was drawn at random for the plane
/// `bounds` with a radius from `radii`: it lies on the plane, it is at
/// rest, its radius is in the range, and its colour is opaque with each
/// component from 64 up to, but not including, 255.
pub open spec fn freshly_drawn(body: Body, bounds: Bounds, radii: RadiusRange) -> bool {
    &&& radii.contains(body.radius as int)
    &&& 0 <= body.position.x < bounds.width()
    &&& 0 <= body.position.y < bounds.height()
    &&& body.at_rest()
    &&& 64 <= body.color.r < 255
    &&& 64 <= body.color.g < 255
    &&& 64 <= body.color.b < 255
    &&& body.color.a == 255
}

impl Ball {
    #[verifier::type_invariant]
    spec fn well_formed(self) -> bool {
        self.body.valid()
    }

    /// A ball at rest with a random radius, colour and position. Whatever
    /// is drawn, the ball is `freshly_drawn`.
    pub fn new(bounds: &Bounds, radii: &RadiusRange) -> (ball: Ball)
        ensures
            freshly_drawn(ball@, *bounds, *radii),
    {
        let radius = draw_between(radii.min(), radii.max());
        let color = Color {
            r: draw_between(64, 255) as u8,
            g: draw_between(64, 255) as u8,
            b: draw_between(64, 255) as u8,
            a: 255,
        };
        let position = Vec2 { x: draw_between(0, bounds.width()), y: draw_between(0, bounds.height()) };
        Ball { body: Body { position, velocity: Vec2 { x: 0, y: 0 }, radius, color } }
    }

    /// Makes a ball of a body, if the body's radius is valid.
    pub fn from_body(body: Body) -> (ball: Option<Ball>)
        ensures
            ball is Some <==> body.valid(),
            ball matches Some(b) ==> b@ == body,
    {
        if 0 < body.radius && body.radius <= MAX_RADIUS {
            Some(Ball { body })
        } else {
            None
        }
    }

    /// The ball's body; it is always valid.
    pub fn body(&self) -> (body: Body)
        ensures
            body == self@,
            body.valid(),
    {
        proof {
            use_type_invariant(self);
        }
        self.body
    }

    pub fn position(&self) -> (position: Vec2)
        ensures
            position == self@.position,
    {
        self.body.position
    }

    pub fn velocity(&self) -> (velocity: Vec2)
        ensures
            velocity == self@.velocity,
    {
        self.body.velocity
    }

    pub fn radius(&self) -> (radius: i32)
        ensures
            radius == self@.radius,
            0 < radius <= MAX_RADIUS,
    {
        proof {
            use_type_invariant(self);
        }
        self.body.radius
    }

    pub fn color(&self) -> (color: Color)
        ensures
            color == self@.color,
    {
        self.body.color
    }

    /// The mass: the radius times `MASS_FACTOR`, computed anew at each call.
    pub fn mass(&self) -> (mass: i32)
        ensures
            mass == self@.mass(),
            0 < mass <= MAX_RADIUS * MASS_FACTOR,
    {
        proof {
            use_type_invariant(self);
        }
        self.body.radius * MASS_FACTOR
    }

    /// The same ball at another place, with another velocity.
    pub fn moved(&self, position: Vec2, velocity: Vec2) -> (ball: Ball)
        ensures
            ball@ == self@.moved(position, velocity),
    {
        proof {
            use_type_invariant(self);
        }
        Ball { body: Body { position, velocity, radius: self.body.radius, color: self.body.color } }
    }

    /// Puts the ball at `position`; nothing else changes.
    pub fn set_position(&mut self, position: Vec2)
        ensures
            final(self)@ == old(self)@.moved(position, old(self)@.velocity),
    {
        proof {
            use_type_invariant(&*self);
        }
        self.body.position = position;
    }

    /// Gives the ball the velocity `velocity`; nothing else changes.
    pub fn set_velocity(&mut self, velocity: Vec2)
        ensures
            final(self)@ == old(self)@.moved(old(self)@.position, velocity),
    {
        proof {
            use_type_invariant(&*self);
        }
        self.body.velocity = velocity;
    }
}

} // verus!
