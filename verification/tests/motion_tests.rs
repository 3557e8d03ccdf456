use snake_core::angle::{normalize_angle, normalize_once};
use snake_core::geom::{Pos, isqrt, scaled_div};
use snake_core::motion::{Transform2, FollowConfig, SteerConfig};
use snake_core::motion::{follower_chase_speed, rotated_heading, translate, follower_step,
    steer_step};

#[test]
fn isqrt_rounds_down() {
    assert_eq!(isqrt(0), 0);
    assert_eq!(isqrt(1), 1);
    assert_eq!(isqrt(35), 5);
    assert_eq!(isqrt(36), 6);
    assert_eq!(isqrt(u64::MAX), 4_294_967_295);
}

#[test]
fn scaled_div_rounds_toward_zero() {
    assert_eq!(scaled_div(7, 2, 3), 4);
    assert_eq!(scaled_div(-7, 2, 3), -4);
    assert_eq!(scaled_div(0, 5, 9), 0);
}

#[test]
fn normalize_angle_wraps_into_half_turn() {
    assert_eq!(normalize_angle(0), 0);
    assert_eq!(normalize_angle(180_000), 180_000);
    assert_eq!(normalize_angle(-180_000), 180_000);
    assert_eq!(normalize_angle(190_000), -170_000);
    assert_eq!(normalize_angle(720_000), 0);
    assert_eq!(normalize_angle(-450_000), -90_000);
}

#[test]
fn normalize_once_corrects_by_one_turn() {
    assert_eq!(normalize_once(270_000), -90_000);
    assert_eq!(normalize_once(-450_000), -90_000);
    assert_eq!(normalize_once(90_000), 90_000);
}

#[test]
fn chase_speed_at_two_hundred_units_is_seventy() {
    // a tail 200 units behind its predecessor chases at
    // clamp(50 + 200 * 0.1, 10, 100) = 70 units per second
    let cfg = FollowConfig::standard();
    let pos = Pos { x: 0, y: 0 };
    let pred = Pos { x: 200_000, y: 0 };
    assert_eq!(follower_chase_speed(pos, pred, &cfg), 70_000);
}

#[test]
fn chase_speed_is_clamped_on_both_ends() {
    let cfg = FollowConfig::standard();
    let pos = Pos { x: 0, y: 0 };
    // far beyond the upper clamp: a million units away
    let far = Pos { x: 1_000_000_000, y: 0 };
    assert_eq!(follower_chase_speed(pos, far, &cfg), 100_000);
    // at zero distance the base speed alone, already above the lower clamp
    assert_eq!(follower_chase_speed(pos, pos, &cfg), 50_000);
    // a configuration whose base lies below the lower clamp
    let low = FollowConfig { base_speed: 2_000, min_speed: 10_000, ..cfg };
    assert_eq!(follower_chase_speed(pos, pos, &low), 10_000);
}

#[test]
fn follower_turns_a_quarter_turn_per_second() {
    let cfg = FollowConfig::standard();
    assert_eq!(rotated_heading(0, 1000, &cfg), 90_000);
    assert_eq!(rotated_heading(0, 500, &cfg), 45_000);
    assert_eq!(rotated_heading(135_000, 1000, &cfg), -135_000);
    assert_eq!(rotated_heading(42_000, 0, &cfg), 42_000);
}

#[test]
fn translate_moves_along_forward_vector() {
    let pos = Pos { x: 1000, y: 2000 };
    // facing +Y, 20 units per second, for one second: 20 units = 20000 milli
    let moved = translate(pos, (0, 1000), 20_000, 1000);
    assert_eq!(moved, Pos { x: 1000, y: 22_000 });
    // zero elapsed time moves nothing
    assert_eq!(translate(pos, (0, 1000), 20_000, 0), pos);
}

#[test]
fn follower_step_with_zero_elapsed_time_is_idle() {
    let cfg = FollowConfig::standard();
    let t = Transform2 { pos: Pos { x: 5000, y: -3000 }, heading: 77_000 };
    let pred = Pos { x: 9000, y: -3000 };
    let (t2, chase) = follower_step(&t, 20_000, pred, (0, 1000), 0, &cfg);
    assert_eq!(t2, t);
    // the chase speed is still derived from the 4-unit distance
    assert_eq!(chase, 50_400);
}

#[test]
fn steering_with_coincident_target_keeps_heading() {
    let cfg = SteerConfig::standard();
    let t = Transform2 { pos: Pos { x: 4000, y: 4000 }, heading: 30_000 };
    let (t2, _) = steer_step(&t, t.pos, 0, false, false, 16, &cfg);
    assert_eq!(t2.heading, 30_000);
    assert_eq!(t2.pos, t.pos);
}

#[test]
fn steering_with_zero_elapsed_time_is_idle() {
    let cfg = SteerConfig::standard();
    let t = Transform2 { pos: Pos { x: 0, y: 0 }, heading: 10_000 };
    let target = Pos { x: 100_000, y: 50_000 };
    let (t2, _) = steer_step(&t, target, 26_565, true, true, 0, &cfg);
    assert_eq!(t2, t);
}

#[test]
fn steering_speed_follows_boost_input() {
    let cfg = SteerConfig::standard();
    let t = Transform2 { pos: Pos { x: 0, y: 0 }, heading: 0 };
    let target = Pos { x: 10_000, y: 0 };
    let (_, held) = steer_step(&t, target, 0, true, false, 16, &cfg);
    assert_eq!(held, 25_000);
    let (_, released) = steer_step(&t, target, 0, false, false, 16, &cfg);
    assert_eq!(released, 10_000);
}

#[test]
fn steering_turns_proportionally_toward_target() {
    let cfg = SteerConfig::standard();
    let t = Transform2 { pos: Pos { x: 0, y: 0 }, heading: 0 };
    // target straight to the east: bearing 0, desired heading -90 degrees
    let target = Pos { x: 100_000, y: 0 };
    // 16 ms without boost: change = -90 deg * 10 * 0.016 = -14.4 deg
    let (t2, _) = steer_step(&t, target, 0, false, false, 16, &cfg);
    assert_eq!(t2.heading, -14_400);
}

#[test]
fn head_approaches_target_monotonically_without_overshoot() {
    // head at the origin, target 100 units east, advance held: each tick
    // moves 50 * 0.016 * 10 = 8 units east while the target lies outside
    // the 50-unit dead zone, and the approach never passes the target by
    // more than one tick's movement
    let cfg = SteerConfig::standard();
    let target = Pos { x: 100_000, y: 0 };
    let mut t = Transform2 { pos: Pos { x: 0, y: 0 }, heading: 0 };
    let tick_move: i64 = 8_000;
    let mut last_x: i64 = t.pos.x;
    for _ in 0..20 {
        let (t2, _) = steer_step(&t, target, 0, false, true, 16, &cfg);
        assert!(t2.pos.x >= last_x);
        assert!(t2.pos.x <= target.x + tick_move);
        assert_eq!(t2.pos.y, 0);
        last_x = t2.pos.x;
        t = t2;
    }
    // the head went forward but the dead zone stopped it short of the target
    assert!(t.pos.x > 0);
    assert!(t.pos.x <= target.x - 50_000 + tick_move);
}
