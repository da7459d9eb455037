//! What the simulation is configured with: the friction mode, the size of
//! the plane, the range of radii and the window.

use vstd::prelude::*;
use crate::body::MAX_RADIUS;

verus! {

/// When velocity decays.
#[derive(Clone, Copy, Debug, PartialEq, Eq, Structural)]
pub enum FrictionMode {
    /// Every body loses a hundredth of its velocity at each tick.
    Drag,
    /// Both bodies of a pair lose a twentieth of their velocity when they
    /// collide.
    Collision,
    /// Velocity never decays.
    Frictionless,
}

/// A configuration value that was refused.
#[derive(Clone, Copy, Debug, PartialEq, Eq, Structural)]
pub enum ConfigError {
    /// A width or a height that is not positive.
    EmptyArea,
    /// A radius that is not positive, a radius above `MAX_RADIUS`, or a
    /// smallest radius above the largest.
    BadRadius,
}

/// The size of the plane, in position units. Both sides are positive.
#[derive(Clone, Copy, Debug, PartialEq, Eq)]
pub struct Bounds {
    width: i32,
    height: i32,
}

impl Bounds {
    #[verifier::type_invariant]
    spec fn well_formed(self) -> bool {
        0 < self.width && 0 < self.height
    }

    pub closed spec fn spec_width(&self) -> i32 {
        self.width
    }

    pub closed spec fn spec_height(&self) -> i32 {
        self.height
    }

    /// A plane of the given size; refused unless both sides are positive.
    pub fn new(width: i32, height: i32) -> (bounds: Result<Bounds, ConfigError>)
        ensures
            bounds is Ok <==> 0 < width && 0 < height,
            bounds matches Ok(b) ==> b.width() == width && b.height() == height,
            bounds matches Err(e) ==> e == ConfigError::EmptyArea,
    {
        if 0 < width && 0 < height {
            Ok(Bounds { width, height })
        } else {
            Err(ConfigError::EmptyArea)
        }
    }

    #[verifier::when_used_as_spec(spec_width)]
    pub fn width(&self) -> (width: i32)
        ensures
            width == self.width(),
            0 < width,
    {
        proof {
            use_type_invariant(self);
        }
        self.width
    }

    #[verifier::when_used_as_spec(spec_height)]
    pub fn height(&self) -> (height: i32)
        ensures
            height == self.height(),
            0 < height,
    {
        proof {
            use_type_invariant(self);
        }
        self.height
    }
}

/// The radii that new balls are drawn from: `min <= radius < max`, or
/// exactly `min` where the two are equal.
#[derive(Clone, Copy, Debug, PartialEq, Eq)]
pub struct RadiusRange {
    min: i32,
    max: i32,
}

impl RadiusRange {
    #[verifier::type_invariant]
    spec fn well_formed(self) -> bool {
        0 < self.min <= self.max <= MAX_RADIUS
    }

    pub closed spec fn spec_min(&self) -> i32 {
        self.min
    }

    pub closed spec fn spec_max(&self) -> i32 {
        self.max
    }

    /// The radius lies in this range.
    pub open spec fn contains(&self, radius: int) -> bool {
        self.min() <= radius && (radius < self.max() || radius == self.min())
    }

    /// The range from `min` to `max`; refused unless
    /// `0 < min <= max <= MAX_RADIUS`.
    pub fn new(min: i32, max: i32) -> (range: Result<RadiusRange, ConfigError>)
        ensures
            range is Ok <==> 0 < min <= max <= MAX_RADIUS,
            range matches Ok(r) ==> r.min() == min && r.max() == max,
            range matches Err(e) ==> e == ConfigError::BadRadius,
    {
        if 0 < min && min <= max && max <= MAX_RADIUS {
            Ok(RadiusRange { min, max })
        } else {
            Err(ConfigError::BadRadius)
        }
    }

    /// Radii from four pixels up to, but not including, forty.
    pub fn standard() -> (range: RadiusRange)
        ensures
            range.min() == 4_000,
            range.max() == 40_000,
    {
        RadiusRange { min: 4_000, max: 40_000 }
    }

    #[verifier::when_used_as_spec(spec_min)]
    pub fn min(&self) -> (min: i32)
        ensures
            min == self.min(),
            0 < min <= self.max() <= MAX_RADIUS,
    {
        proof {
            use_type_invariant(self);
        }
        self.min
    }

    #[verifier::when_used_as_spec(spec_max)]
    pub fn max(&self) -> (max: i32)
        ensures
            max == self.max(),
            0 < self.min() <= max <= MAX_RADIUS,
    {
        proof {
            use_type_invariant(self);
        }
        self.max
    }
}

/// How the window is opened. Sizes are in pixels.
#[derive(Clone, Copy, Debug, PartialEq, Eq)]
pub struct WindowConfig {
    pub window_title: &'static str,
    pub window_width: i32,
    pub window_height: i32,
    pub fullscreen: bool,
    pub window_resizable: bool,
    pub sample_count: i32,
}

/// The window of the simulation: 1290 by 720 pixels, of fixed size, with
/// fourfold multisampling.
pub fn window_config() -> (conf: WindowConfig)
    ensures
        conf.window_title@ == "Balls with physics"@,
        conf.window_width == 1290,
        conf.window_height == 720,
        !conf.fullscreen,
        !conf.window_resizable,
        conf.sample_count == 4,
{
    WindowConfig {
        window_title: "Balls with physics",
        window_width: 1290,
        window_height: 720,
        fullscreen: false,
        window_resizable: false,
        sample_count: 4,
    }
}

} // verus!
