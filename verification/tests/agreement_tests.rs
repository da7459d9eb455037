use ball_physics::body::{Ball, Body, Color};
use ball_physics::collision::resolve_pair;
use ball_physics::geometry::Vec2;
use ball_physics::motion::integrate_ball;
use ball_physics::settings::{Bounds, FrictionMode};

const BLUE: Color = Color { r: 64, g: 64, b: 254, a: 255 };

fn ball(x: i32, y: i32, vx: i32, vy: i32, radius: i32) -> Ball {
    Ball::from_body(Body {
        position: Vec2::new(x, y),
        velocity: Vec2::new(vx, vy),
        radius,
        color: BLUE,
    })
    .unwrap()
}

/// A small generator of its own, so that the inputs are the same at every run.
fn next(state: &mut u64, low: i32, high: i32) -> i32 {
    *state = state.wrapping_mul(6364136223846793005).wrapping_add(1442695040888963407);
    let span = (high - low) as u64;
    low + ((*state >> 33) % span) as i32
}

fn close(found: i32, expected: f64, tolerance: f64) -> bool {
    (found as f64 - expected).abs() <= tolerance
}

#[test]
fn pair_agrees_with_the_formulas_in_floating_point() {
    let mut state = 7u64;
    let mut resolved = 0;
    for _ in 0..2_000 {
        let ra = next(&mut state, 4_000, 40_000);
        let rb = next(&mut state, 4_000, 40_000);
        let a = ball(
            next(&mut state, 0, 100_000),
            next(&mut state, 0, 100_000),
            next(&mut state, -500_000, 500_000),
            next(&mut state, -500_000, 500_000),
            ra,
        );
        let b = ball(
            a.position().x + next(&mut state, -60_000, 60_000),
            a.position().y + next(&mut state, -60_000, 60_000),
            next(&mut state, -500_000, 500_000),
            next(&mut state, -500_000, 500_000),
            rb,
        );
        let (pa, pb) = (a.position(), b.position());
        let (dx, dy) = ((pa.x - pb.x) as f64, (pa.y - pb.y) as f64);
        let d = (dx * dx + dy * dy).sqrt();
        let radii = (ra + rb) as f64;
        let outcome = resolve_pair(&a, &b, &FrictionMode::Frictionless);
        if d > radii {
            assert!(outcome.is_none());
            continue;
        }
        if d == 0. {
            assert!(outcome.is_none());
            continue;
        }
        let (x, y) = outcome.unwrap();
        resolved += 1;

        // positions: each centre moves by half the overlap along the centre line
        let overlap = 0.5 * (d - radii);
        let (ax, ay) = (pa.x as f64 - overlap * dx / d, pa.y as f64 - overlap * dy / d);
        let (bx, by) = (pb.x as f64 + overlap * dx / d, pb.y as f64 + overlap * dy / d);
        assert!(close(x.position().x, ax, 1.));
        assert!(close(x.position().y, ay, 1.));
        assert!(close(y.position().x, bx, 1.));
        assert!(close(y.position().y, by, 1.));

        // velocities: the elastic exchange at the corrected centres
        let (ex, ey) = (ax - bx, ay - by);
        let esq = ex * ex + ey * ey;
        let (va, vb) = (a.velocity(), b.velocity());
        let dot = (va.x - vb.x) as f64 * ex + (va.y - vb.y) as f64 * ey;
        let (ma, mb) = (ra as f64 * 10., rb as f64 * 10.);
        let fa = 2. * mb / (ma + mb) * dot / esq;
        let fb = 2. * ma / (ma + mb) * dot / esq;
        // the centres are rounded to whole units, which turns the centre line a little
        let slack = 2. + 8. * ((va.x - vb.x).abs().max((va.y - vb.y).abs()) as f64) / radii;
        assert!(close(x.velocity().x, va.x as f64 - fa * ex, slack));
        assert!(close(x.velocity().y, va.y as f64 - fa * ey, slack));
        assert!(close(y.velocity().x, vb.x as f64 + fb * ex, slack));
        assert!(close(y.velocity().y, vb.y as f64 + fb * ey, slack));

        // the pair ends at the sum of its radii
        let (fx, fy) = ((x.position().x - y.position().x) as f64, (x.position().y - y.position().y) as f64);
        assert!(((fx * fx + fy * fy).sqrt() - radii).abs() <= 5.);
    }
    assert!(resolved > 500);
}

#[test]
fn collision_keeps_momentum_up_to_rounding() {
    let mut state = 99u64;
    for _ in 0..2_000 {
        let ra = next(&mut state, 4_000, 40_000);
        let rb = next(&mut state, 4_000, 40_000);
        let a = ball(50_000, 50_000, next(&mut state, -500_000, 500_000), next(&mut state, -500_000, 500_000), ra);
        let b = ball(
            50_000 + next(&mut state, 1, 5_000),
            50_000 + next(&mut state, -5_000, 5_000),
            next(&mut state, -500_000, 500_000),
            next(&mut state, -500_000, 500_000),
            rb,
        );
        let (x, y) = resolve_pair(&a, &b, &FrictionMode::Frictionless).unwrap();
        let (ma, mb) = (ra as i64 * 10, rb as i64 * 10);
        let before_x = ma * a.velocity().x as i64 + mb * b.velocity().x as i64;
        let after_x = ma * x.velocity().x as i64 + mb * y.velocity().x as i64;
        let before_y = ma * a.velocity().y as i64 + mb * b.velocity().y as i64;
        let after_y = ma * x.velocity().y as i64 + mb * y.velocity().y as i64;
        // each velocity is rounded by less than one unit
        assert!((before_x - after_x).abs() < ma + mb);
        assert!((before_y - after_y).abs() < ma + mb);
    }
}

#[test]
fn step_agrees_with_the_formulas_in_floating_point() {
    let bounds = Bounds::new(1_290_000, 720_000).unwrap();
    let mut state = 3u64;
    for _ in 0..2_000 {
        let start = ball(
            next(&mut state, 1, 1_290_000),
            next(&mut state, 1, 720_000),
            next(&mut state, -5_000_000, 5_000_000),
            next(&mut state, -5_000_000, 5_000_000),
            10_000,
        );
        let elapsed_ms = next(&mut state, 0, 40) as u32;
        let mut moved = start;
        integrate_ball(&mut moved, elapsed_ms, &bounds, &FrictionMode::Drag);

        let seconds = elapsed_ms as f64 / 1000.;
        let wrap = |c: f64, limit: f64| {
            if c <= 0. {
                limit
            } else if c > limit {
                0.
            } else {
                c
            }
        };
        let (px, py) = (
            start.position().x as f64 + start.velocity().x as f64 * seconds,
            start.position().y as f64 + start.velocity().y as f64 * seconds,
        );
        // a coordinate within one unit of an edge may wrap in one computation only
        if (px - 0.).abs() > 1. && (px - 1_290_000.).abs() > 1. {
            assert!(close(moved.position().x, wrap(px, 1_290_000.), 1.));
        }
        if (py - 0.).abs() > 1. && (py - 720_000.).abs() > 1. {
            assert!(close(moved.position().y, wrap(py, 720_000.), 1.));
        }
        let (vx, vy) = (start.velocity().x as f64 * 0.99, start.velocity().y as f64 * 0.99);
        if vx * vx + vy * vy < 49_000. {
            assert_eq!(moved.velocity(), Vec2::zero());
        } else if vx * vx + vy * vy > 51_000. {
            assert!(close(moved.velocity().x, vx, 1.));
            assert!(close(moved.velocity().y, vy, 1.));
        }
    }
}
