use ball_physics::body::{Ball, Body, Color};
use ball_physics::control::{adjust_speed, hit_test, launch, stop_all, Selection, MAX_SPEED};
use ball_physics::geometry::Vec2;

fn ball(x: i32, y: i32, vx: i32, vy: i32, radius: i32) -> Ball {
    Ball::from_body(Body {
        position: Vec2::new(x, y),
        velocity: Vec2::new(vx, vy),
        radius,
        color: Color { r: 90, g: 90, b: 90, a: 255 },
    })
    .unwrap()
}

fn three() -> Vec<Ball> {
    vec![ball(0, 0, 100, 0, 10_000), ball(15_000, 0, 0, 200, 10_000), ball(100_000, 100_000, 300, 300, 5_000)]
}

#[test]
fn hit_test_finds_the_first_ball_under_the_point() {
    let balls = three();
    assert_eq!(hit_test(&balls, &Vec2::new(-1_000, 0)), Some(0));
    // under the first and the second
    assert_eq!(hit_test(&balls, &Vec2::new(8_000, 0)), Some(0));
    assert_eq!(hit_test(&balls, &Vec2::new(12_000, 0)), Some(1));
    assert_eq!(hit_test(&balls, &Vec2::new(100_000, 105_000)), Some(2));
    assert_eq!(hit_test(&balls, &Vec2::new(100_000, 105_001)), None);
    assert_eq!(hit_test(&Vec::new(), &Vec2::new(0, 0)), None);
}

#[test]
fn left_click_picks_a_ball_up_and_stops_it() {
    let mut balls = three();
    let mut selection = Selection { held: None, aimed: Some(2) };
    selection.left_click(&mut balls, &Vec2::new(15_000, 9_000));
    assert_eq!(selection, Selection { held: Some(1), aimed: None });
    assert_eq!(balls[1], ball(15_000, 0, 0, 0, 10_000));
    assert_eq!(balls[0], three()[0]);
    assert_eq!(balls[2], three()[2]);
}

#[test]
fn left_click_on_nothing_stops_aiming() {
    let mut balls = three();
    let mut selection = Selection { held: None, aimed: Some(0) };
    selection.left_click(&mut balls, &Vec2::new(50_000, 50_000));
    assert_eq!(selection, Selection { held: None, aimed: None });
    assert_eq!(balls, three());
}

#[test]
fn left_click_releases_the_held_ball() {
    let mut balls = three();
    let mut selection = Selection { held: Some(2), aimed: Some(1) };
    selection.left_click(&mut balls, &Vec2::new(0, 0));
    assert_eq!(selection, Selection { held: None, aimed: Some(1) });
    assert_eq!(balls, three());
}

#[test]
fn right_click_aims_at_a_ball() {
    let mut balls = three();
    let mut selection = Selection { held: Some(0), aimed: None };
    selection.right_click(&mut balls, &Vec2::new(100_000, 100_000), 1_000_000);
    assert_eq!(selection, Selection { held: None, aimed: Some(2) });
    assert_eq!(balls, three());
    let mut nothing = Selection { held: Some(0), aimed: None };
    nothing.right_click(&mut balls, &Vec2::new(50_000, 50_000), 1_000_000);
    assert_eq!(nothing, Selection::new());
}

#[test]
fn right_click_launches_the_aimed_ball_away_from_the_pointer() {
    let mut balls = three();
    let mut selection = Selection { held: Some(1), aimed: Some(0) };
    selection.right_click(&mut balls, &Vec2::new(-3_000, -4_000), 5_000);
    assert_eq!(selection, Selection { held: Some(1), aimed: None });
    assert_eq!(balls[0], ball(0, 0, 3_000, 4_000, 10_000));
    assert_eq!(balls[1], three()[1]);
    assert_eq!(balls[2], three()[2]);
}

#[test]
fn escape_lets_go_of_everything() {
    let mut selection = Selection { held: Some(1), aimed: Some(0) };
    selection.cancel();
    assert_eq!(selection, Selection { held: None, aimed: None });
}

#[test]
fn held_ball_follows_the_pointer() {
    let mut balls = three();
    let selection = Selection { held: Some(2), aimed: None };
    selection.carry(&mut balls, &Vec2::new(-5, 77));
    assert_eq!(balls[2], ball(-5, 77, 300, 300, 5_000));
    assert_eq!(balls[0], three()[0]);
    assert_eq!(balls[1], three()[1]);
    Selection::new().carry(&mut balls, &Vec2::new(1, 1));
    assert_eq!(balls[2], ball(-5, 77, 300, 300, 5_000));
}

#[test]
fn launch_velocity_has_the_launch_speed() {
    assert_eq!(launch(&Vec2::new(0, 0), &Vec2::new(-3_000, -4_000), 5_000), Vec2::new(3_000, 4_000));
    assert_eq!(launch(&Vec2::new(10, 10), &Vec2::new(10, 500), MAX_SPEED), Vec2::new(0, -MAX_SPEED));
    assert_eq!(launch(&Vec2::new(10, 10), &Vec2::new(9, 10), 123), Vec2::new(123, 0));
    // direction (1, 1): 1_000_000 / sqrt(2) = 707_106.78..
    assert_eq!(launch(&Vec2::new(1, 1), &Vec2::new(0, 0), 1_000_000), Vec2::new(707_106, 707_106));
    assert_eq!(launch(&Vec2::new(0, 0), &Vec2::new(1, 1), 1_000_000), Vec2::new(-707_106, -707_106));
    assert_eq!(launch(&Vec2::new(0, 0), &Vec2::new(7, -7), 0), Vec2::zero());
}

#[test]
fn launch_from_under_the_pointer_gives_no_velocity() {
    assert_eq!(launch(&Vec2::new(5, 5), &Vec2::new(5, 5), MAX_SPEED), Vec2::zero());
}

#[test]
fn launch_takes_the_widest_coordinates() {
    let v = launch(&Vec2::new(i32::MAX, i32::MAX), &Vec2::new(i32::MIN, i32::MIN), MAX_SPEED);
    assert_eq!(v, Vec2::new(3_535_533, 3_535_533));
}

#[test]
fn wheel_changes_the_speed_within_its_limits() {
    assert_eq!(adjust_speed(0, 1_000), 100_000);
    assert_eq!(adjust_speed(100_000, -1_000), 0);
    assert_eq!(adjust_speed(0, -1_000), 0);
    assert_eq!(adjust_speed(4_950_000, 1_000), 5_000_000);
    assert_eq!(adjust_speed(5_000_000, 1), 5_000_000);
    assert_eq!(adjust_speed(2_000_000, 250), 2_025_000);
    assert_eq!(adjust_speed(2_000_000, 0), 2_000_000);
    assert_eq!(adjust_speed(i32::MAX, i32::MAX), 5_000_000);
    assert_eq!(adjust_speed(i32::MIN, i32::MIN), 0);
    assert_eq!(adjust_speed(-5, 0), 0);
}

#[test]
fn stop_all_brings_every_ball_to_rest() {
    let mut balls = three();
    stop_all(&mut balls);
    assert_eq!(balls, vec![ball(0, 0, 0, 0, 10_000), ball(15_000, 0, 0, 0, 10_000), ball(100_000, 100_000, 0, 0, 5_000)]);
    let mut none: Vec<Ball> = Vec::new();
    stop_all(&mut none);
    assert!(none.is_empty());
}
