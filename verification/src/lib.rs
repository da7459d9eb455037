//! Circular bodies on a wrap-around plane: overlap tests, separation of
//! overlapping pairs, elastic velocity exchange, friction and integration,
//! all in fixed-point integer arithmetic.
//!
//! Positions are counted in thousandths of a pixel, velocities in such
//! units per second, time in milliseconds.

pub mod arith;
pub mod body;
pub mod collision;
pub mod collision_lemmas;
pub mod control;
pub mod geometry;
pub mod motion;
mod random;
pub mod settings;
pub mod simulation;
pub mod spawn;

pub use crate::body::{Ball, Body, Color};
pub use crate::control::Selection;
pub use crate::geometry::{do_circles_overlap, is_point_in_circle, Vec2};
pub use crate::settings::{window_config, Bounds, FrictionMode, RadiusRange, WindowConfig};
pub use crate::simulation::physics;
pub use crate::spawn::{add_new_ball, spawn_non_overlapping, SpawnDensityError};
