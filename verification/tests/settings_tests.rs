use ball_physics::body::{Ball, Body, Color, MASS_FACTOR, MAX_RADIUS};
use ball_physics::geometry::Vec2;
use ball_physics::settings::{window_config, Bounds, ConfigError, RadiusRange};

fn body(radius: i32) -> Body {
    Body {
        position: Vec2::new(1, 2),
        velocity: Vec2::new(3, 4),
        radius,
        color: Color { r: 1, g: 2, b: 3, a: 4 },
    }
}

#[test]
fn window_is_configured() {
    let conf = window_config();
    assert_eq!(conf.window_title, "Balls with physics");
    assert_eq!(conf.window_width, 1290);
    assert_eq!(conf.window_height, 720);
    assert!(!conf.fullscreen);
    assert!(!conf.window_resizable);
    assert_eq!(conf.sample_count, 4);
}

#[test]
fn bounds_must_be_positive() {
    let b = Bounds::new(1_290_000, 720_000).unwrap();
    assert_eq!(b.width(), 1_290_000);
    assert_eq!(b.height(), 720_000);
    assert!(Bounds::new(1, 1).is_ok());
    assert_eq!(Bounds::new(0, 5), Err(ConfigError::EmptyArea));
    assert_eq!(Bounds::new(5, 0), Err(ConfigError::EmptyArea));
    assert_eq!(Bounds::new(-1, -1), Err(ConfigError::EmptyArea));
}

#[test]
fn radius_range_must_be_positive_and_ordered() {
    let r = RadiusRange::new(5_000, 5_000).unwrap();
    assert_eq!((r.min(), r.max()), (5_000, 5_000));
    assert!(RadiusRange::new(1, MAX_RADIUS).is_ok());
    assert_eq!(RadiusRange::new(0, 5), Err(ConfigError::BadRadius));
    assert_eq!(RadiusRange::new(-4, 5), Err(ConfigError::BadRadius));
    assert_eq!(RadiusRange::new(5, 4), Err(ConfigError::BadRadius));
    assert_eq!(RadiusRange::new(1, MAX_RADIUS + 1), Err(ConfigError::BadRadius));
}

#[test]
fn standard_radii_run_from_four_to_forty_pixels() {
    let r = RadiusRange::standard();
    assert_eq!((r.min(), r.max()), (4_000, 40_000));
}

#[test]
fn ball_needs_a_valid_radius() {
    assert!(Ball::from_body(body(0)).is_none());
    assert!(Ball::from_body(body(-1)).is_none());
    assert!(Ball::from_body(body(MAX_RADIUS + 1)).is_none());
    assert_eq!(Ball::from_body(body(1)).unwrap().body(), body(1));
    assert_eq!(Ball::from_body(body(MAX_RADIUS)).unwrap().body(), body(MAX_RADIUS));
}

#[test]
fn ball_gives_back_its_parts() {
    let b = Ball::from_body(body(2_500)).unwrap();
    assert_eq!(b.position(), Vec2::new(1, 2));
    assert_eq!(b.velocity(), Vec2::new(3, 4));
    assert_eq!(b.radius(), 2_500);
    assert_eq!(b.color(), Color { r: 1, g: 2, b: 3, a: 4 });
}

#[test]
fn mass_is_ten_times_the_radius() {
    assert_eq!(MASS_FACTOR, 10);
    assert_eq!(Ball::from_body(body(2_500)).unwrap().mass(), 25_000);
    assert_eq!(Ball::from_body(body(MAX_RADIUS)).unwrap().mass(), 10_000_000);
}

#[test]
fn moving_a_ball_keeps_radius_and_colour() {
    let mut b = Ball::from_body(body(2_500)).unwrap();
    b.set_position(Vec2::new(-7, 8));
    assert_eq!(b.body(), Body { position: Vec2::new(-7, 8), ..body(2_500) });
    b.set_velocity(Vec2::new(0, -9));
    assert_eq!(b.body(), Body { position: Vec2::new(-7, 8), velocity: Vec2::new(0, -9), ..body(2_500) });
    let c = b.moved(Vec2::new(1, 1), Vec2::zero());
    assert_eq!(c.body(), Body { position: Vec2::new(1, 1), velocity: Vec2::zero(), ..body(2_500) });
    assert_eq!(b.position(), Vec2::new(-7, 8));
}
