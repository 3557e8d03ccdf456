//! Per-tick motion rules: follower propagation and head steering.
//!
//! Every rule is a pure step: it takes a transform, the tick's elapsed time
//! in milliseconds, and the configured constants, and returns the next
//! transform. Trigonometry is not computed here; the caller's trig service
//! supplies a forward unit vector (scaled by 1000) for a heading the rules
//! have fixed, and the rules state exactly how that vector is integrated.

use vstd::prelude::*;
use vstd::arithmetic::div_mod::lemma_div_is_ordered;
use vstd::arithmetic::div_mod::lemma_div_nonincreasing;
use crate::angle::{HALF_TURN, QUARTER_TURN};
use crate::angle::{is_normal_angle, reduce_angle, normalize_angle, normalize_once};
use crate::angle::lemma_reduce_normal_angle;
use crate::geom::{Pos, in_bounds, dist_sq, sqrt_floor, abs1};
use crate::geom::{mul_div_toward_zero, clamp_coord, clamp_coord_exec, lemma_mul_div_zero};
use crate::geom::{distance, scaled_div, lemma_sqrt_floor_ge_component};

verus! {

/// Largest speed any rule accepts, in milli-units per second.
pub const SPEED_LIMIT: u64 = 1_000_000;

/// Largest elapsed time one tick may integrate, in milliseconds.
pub const DT_LIMIT: u64 = 10_000;

/// Largest constant turn rate, in milli-degrees per second.
pub const TURN_RATE_LIMIT: u64 = 3_600_000;

/// Largest dead-zone radius, in milli-units.
pub const THRESHOLD_LIMIT: u64 = 1_000_000;

/// Largest distance-gain numerator.
pub const GAIN_LIMIT: u64 = 1_000;

/// A segment's transform: a position and a normalized heading.
#[derive(Clone, Copy, PartialEq, Eq, Structural, Debug)]
pub struct Transform2 {
    pub pos: Pos,
    pub heading: i64,
}

/// The transform is within the world: position in bounds, heading
/// normalized.
pub open spec fn transform_wf(t: Transform2) -> bool {
    in_bounds(t.pos) && is_normal_angle(t.heading as int)
}

/// Constants of the follower rules.
#[derive(Clone, Copy, PartialEq, Eq, Structural, Debug)]
pub struct FollowConfig {
    /// Base chase speed, milli-units per second.
    pub base_speed: u64,
    /// Distance gain numerator: each milli-unit of distance adds
    /// `gain_num / gain_den` milli-units per second of chase speed.
    pub gain_num: u64,
    /// Distance gain denominator.
    pub gain_den: u64,
    /// Lower clamp of the chase speed.
    pub min_speed: u64,
    /// Upper clamp of the chase speed.
    pub max_speed: u64,
    /// Unconditional turn rate, milli-degrees per second.
    pub turn_rate: u64,
}

/// The follower constants are sane and small enough to integrate exactly.
pub open spec fn follow_config_wf(cfg: FollowConfig) -> bool {
    &&& cfg.gain_den > 0
    &&& cfg.gain_num <= GAIN_LIMIT
    &&& cfg.min_speed <= cfg.max_speed
    &&& cfg.base_speed <= SPEED_LIMIT
    &&& cfg.max_speed <= SPEED_LIMIT
    &&& cfg.turn_rate <= TURN_RATE_LIMIT
}

/// Constants of the head-steering rules.
#[derive(Clone, Copy, PartialEq, Eq, Structural, Debug)]
pub struct SteerConfig {
    /// Steering speed while the boost input is held, in thousandths per
    /// second.
    pub boost_speed: u64,
    /// Steering speed otherwise, in thousandths per second.
    pub normal_speed: u64,
    /// Dead-zone radius around the target, milli-units; also the constant
    /// factor of the approach rate.
    pub threshold: u64,
}

/// The steering constants are sane and small enough to integrate exactly.
pub open spec fn steer_config_wf(cfg: SteerConfig) -> bool {
    &&& cfg.boost_speed <= SPEED_LIMIT
    &&& cfg.normal_speed <= SPEED_LIMIT
    &&& cfg.threshold <= THRESHOLD_LIMIT
}

impl FollowConfig {
    /// The standard follower constants: base speed 50, gain 0.1 per unit of
    /// distance, clamp [10, 100], quarter-turn-per-second curl.
    pub fn standard() -> (c: FollowConfig)
        ensures
            c == (FollowConfig {
                base_speed: 50_000,
                gain_num: 1,
                gain_den: 10,
                min_speed: 10_000,
                max_speed: 100_000,
                turn_rate: 90_000,
            }),
            follow_config_wf(c),
    {
        FollowConfig {
            base_speed: 50_000,
            gain_num: 1,
            gain_den: 10,
            min_speed: 10_000,
            max_speed: 100_000,
            turn_rate: 90_000,
        }
    }
}

impl SteerConfig {
    /// The standard steering constants: speed 25 boosted, 10 otherwise,
    /// dead zone of 50 units.
    pub fn standard() -> (c: SteerConfig)
        ensures
            c == (SteerConfig { boost_speed: 25_000, normal_speed: 10_000, threshold: 50_000 }),
            steer_config_wf(c),
    {
        SteerConfig { boost_speed: 25_000, normal_speed: 10_000, threshold: 50_000 }
    }
}

/// The distance-derived chase speed: base plus gain times distance, clamped
/// into [min_speed, max_speed].
pub open spec fn spec_follower_speed(dist: int, cfg: FollowConfig) -> int {
    let raw = cfg.base_speed + dist * cfg.gain_num / (cfg.gain_den as int);
    if raw < cfg.min_speed {
        cfg.min_speed as int
    } else if raw > cfg.max_speed {
        cfg.max_speed as int
    } else {
        raw
    }
}

/// How far a segment moving at `speed` milli-units per second travels in
/// `dt` milliseconds.
pub open spec fn spec_move_dist(speed: int, dt: int) -> int {
    speed * dt / 1000
}

/// One axis of a translation along a forward unit vector scaled by 1000.
pub open spec fn spec_forward_delta(f: int, move_dist: int) -> int {
    mul_div_toward_zero(f, move_dist, 1000)
}

/// A position translated along a forward unit vector and clamped into the
/// world's bounds.
pub open spec fn spec_translate(pos: Pos, f: (i64, i64), move_dist: int) -> Pos {
    Pos {
        x: clamp_coord(pos.x + spec_forward_delta(f.0 as int, move_dist)) as i64,
        y: clamp_coord(pos.y + spec_forward_delta(f.1 as int, move_dist)) as i64,
    }
}

/// The heading after one tick of the followers' unconditional turn.
pub open spec fn spec_rotated_heading(heading: int, dt: int, cfg: FollowConfig) -> int {
    reduce_angle(heading + cfg.turn_rate * dt / 1000)
}

/// The chase speed a follower derives from the distance to its predecessor
/// this tick. The speed is clamped into [min_speed, max_speed] however far
/// the predecessor is.
pub fn follower_chase_speed(pos: Pos, pred_pos: Pos, cfg: &FollowConfig) -> (r: u64)
    requires
        in_bounds(pos),
        in_bounds(pred_pos),
        follow_config_wf(*cfg),
    ensures
        r as int == spec_follower_speed(sqrt_floor(dist_sq(pos, pred_pos)), *cfg),
        cfg.min_speed <= r <= cfg.max_speed,
{
    let dist: u64 = distance(pos, pred_pos);
    proof {
        assert(dist * cfg.gain_num <= 3_000_000_000_000_000) by (nonlinear_arith)
            requires
                dist <= 3_000_000_000,
                cfg.gain_num <= 1_000_000,
        ;
        lemma_div_nonincreasing((dist * cfg.gain_num) as int, cfg.gain_den as int);
    }
    let raw: u64 = cfg.base_speed + dist * cfg.gain_num / cfg.gain_den;
    if raw < cfg.min_speed {
        cfg.min_speed
    } else if raw > cfg.max_speed {
        cfg.max_speed
    } else {
        raw
    }
}

/// The heading a follower takes this tick: the constant turn rate,
/// integrated over the elapsed time and normalized. Zero elapsed time
/// leaves the heading unchanged.
pub fn rotated_heading(heading: i64, dt_ms: u64, cfg: &FollowConfig) -> (r: i64)
    requires
        is_normal_angle(heading as int),
        dt_ms <= DT_LIMIT,
        follow_config_wf(*cfg),
    ensures
        r as int == spec_rotated_heading(heading as int, dt_ms as int, *cfg),
        is_normal_angle(r as int),
        dt_ms == 0 ==> r == heading,
{
    proof {
        assert(cfg.turn_rate * dt_ms <= 36_000_000_000) by (nonlinear_arith)
            requires
                cfg.turn_rate <= 3_600_000,
                dt_ms <= 10_000,
        ;
        lemma_div_nonincreasing((cfg.turn_rate * dt_ms) as int, 1000);
    }
    let delta: u64 = cfg.turn_rate * dt_ms / 1000;
    let r = normalize_angle(heading + delta as i64);
    proof {
        if dt_ms == 0 {
            lemma_reduce_normal_angle(heading as int);
        }
    }
    r
}

/// A position translated by `speed` milli-units per second along a forward
/// unit vector (scaled by 1000) for `dt_ms` milliseconds, clamped into the
/// world. Zero elapsed time moves nothing.
pub fn translate(pos: Pos, forward: (i64, i64), speed: u64, dt_ms: u64) -> (r: Pos)
    requires
        in_bounds(pos),
        -1000 <= forward.0 <= 1000,
        -1000 <= forward.1 <= 1000,
        speed <= SPEED_LIMIT,
        dt_ms <= DT_LIMIT,
    ensures
        r == spec_translate(pos, forward, spec_move_dist(speed as int, dt_ms as int)),
        in_bounds(r),
        dt_ms == 0 ==> r == pos,
{
    proof {
        assert(speed * dt_ms <= 10_000_000_000) by (nonlinear_arith)
            requires
                speed <= 1_000_000,
                dt_ms <= 10_000,
        ;
    }
    let move_dist: u64 = speed * dt_ms / 1000;
    proof {
        lemma_div_is_ordered((speed * dt_ms) as int, 10_000_000_000, 1000);
        assert(abs1(forward.0 as int) * move_dist <= 10_000_000_000) by (nonlinear_arith)
            requires
                abs1(forward.0 as int) <= 1000,
                move_dist <= 10_000_000,
        ;
        assert(abs1(forward.1 as int) * move_dist <= 10_000_000_000) by (nonlinear_arith)
            requires
                abs1(forward.1 as int) <= 1000,
                move_dist <= 10_000_000,
        ;
    }
    let dx: i64 = scaled_div(forward.0, move_dist, 1000);
    let dy: i64 = scaled_div(forward.1, move_dist, 1000);
    proof {
        if dt_ms == 0 {
            assert(move_dist == 0);
            lemma_mul_div_zero(forward.0 as int, 1000);
            lemma_mul_div_zero(forward.1 as int, 1000);
        }
    }
    let r = Pos { x: clamp_coord_exec(pos.x + dx), y: clamp_coord_exec(pos.y + dy) };
    r
}

/// One follower tick: the segment turns by the constant turn rate and then
/// moves forward along its new heading at its own speed attribute; the
/// distance-derived chase speed is returned beside the new transform. The
/// chase speed deliberately does not drive the translation: forward motion
/// uses the segment's own speed attribute, and the chase speed is reported
/// for callers that tune attributes from it. `forward` must be the caller's
/// unit vector (scaled by 1000) for the post-turn heading, i.e. for
/// `rotated_heading(t.heading, dt_ms, cfg)`.
pub fn follower_step(
    t: &Transform2,
    own_speed: u64,
    pred_pos: Pos,
    forward: (i64, i64),
    dt_ms: u64,
    cfg: &FollowConfig,
) -> (r: (Transform2, u64))
    requires
        transform_wf(*t),
        in_bounds(pred_pos),
        -1000 <= forward.0 <= 1000,
        -1000 <= forward.1 <= 1000,
        own_speed <= SPEED_LIMIT,
        dt_ms <= DT_LIMIT,
        follow_config_wf(*cfg),
    ensures
        r.0.heading as int == spec_rotated_heading(t.heading as int, dt_ms as int, *cfg),
        r.0.pos == spec_translate(t.pos, forward, spec_move_dist(own_speed as int, dt_ms as int)),
        r.1 as int == spec_follower_speed(sqrt_floor(dist_sq(t.pos, pred_pos)), *cfg),
        cfg.min_speed <= r.1 <= cfg.max_speed,
        transform_wf(r.0),
        dt_ms == 0 ==> r.0 == *t,
{
    let chase = follower_chase_speed(t.pos, pred_pos, cfg);
    let heading = rotated_heading(t.heading, dt_ms, cfg);
    let pos = translate(t.pos, forward, own_speed, dt_ms);
    (Transform2 { pos, heading }, chase)
}

/// The steering speed this tick: a fixed higher value while the boost input
/// is held, a fixed lower value otherwise.
pub open spec fn spec_steer_speed(boost: bool, cfg: SteerConfig) -> int {
    if boost {
        cfg.boost_speed as int
    } else {
        cfg.normal_speed as int
    }
}

/// The head's heading after one steering tick: the shortest signed
/// difference between the desired heading (the target bearing minus the
/// fixed quarter-turn forward-axis offset) and the current heading,
/// scaled by the steering speed and the elapsed time — a proportional turn
/// that never snaps to the target in one tick.
pub open spec fn spec_steer_heading(heading: int, target_angle: int, speed: int, dt: int) -> int {
    let diff = reduce_angle(target_angle - QUARTER_TURN - heading);
    reduce_angle(heading + mul_div_toward_zero(diff, speed * dt, 1_000_000))
}

/// How far the head approaches the target in one tick: the dead-zone
/// constant times elapsed time times steering speed.
pub open spec fn spec_steer_move(threshold: int, speed: int, dt: int) -> int {
    threshold * dt * speed / 1_000_000
}

/// One axis of the head's approach translation: along the normalized
/// direction vector straight at the target, independent of facing.
pub open spec fn spec_approach_delta(d: int, dist: int, move_dist: int) -> int {
    mul_div_toward_zero(mul_div_toward_zero(d, 1000, dist), move_dist, 1000)
}

/// The head's position after one steering tick when the advance input is
/// held and the target lies outside the dead zone.
pub open spec fn spec_approach(pos: Pos, target: Pos, move_dist: int) -> Pos {
    let dist = sqrt_floor(dist_sq(pos, target));
    Pos {
        x: clamp_coord(pos.x + spec_approach_delta(target.x - pos.x, dist, move_dist)) as i64,
        y: clamp_coord(pos.y + spec_approach_delta(target.y - pos.y, dist, move_dist)) as i64,
    }
}

/// One head-steering tick.
///
/// The steering speed is set first from the boost input; the head then
/// turns proportionally toward the target point, unless the target
/// coincides with the head's position, in which case the heading is left
/// unchanged for the tick; finally, while the advance input is held and the
/// target lies strictly outside the dead zone, the head moves straight at
/// the target. `target_angle` must be the caller's bearing (in
/// milli-degrees, within a half turn of zero) of the target as seen from
/// `t.pos`; it is ignored when the target coincides with the position.
/// Returns the new transform and the steering speed that the tick used.
pub fn steer_step(
    t: &Transform2,
    target: Pos,
    target_angle: i64,
    boost: bool,
    advance: bool,
    dt_ms: u64,
    cfg: &SteerConfig,
) -> (r: (Transform2, u64))
    requires
        transform_wf(*t),
        in_bounds(target),
        -HALF_TURN <= target_angle <= HALF_TURN,
        dt_ms <= DT_LIMIT,
        steer_config_wf(*cfg),
    ensures
        r.1 as int == spec_steer_speed(boost, *cfg),
        r.0.heading as int == if target == t.pos {
            t.heading as int
        } else {
            spec_steer_heading(t.heading as int, target_angle as int, r.1 as int, dt_ms as int)
        },
        r.0.pos == if advance && sqrt_floor(dist_sq(t.pos, target)) > cfg.threshold {
            spec_approach(t.pos, target, spec_steer_move(cfg.threshold as int, r.1 as int, dt_ms as int))
        } else {
            t.pos
        },
        transform_wf(r.0),
        dt_ms == 0 ==> r.0 == *t,
{
    let speed: u64 = if boost {
        cfg.boost_speed
    } else {
        cfg.normal_speed
    };

    let dx: i64 = target.x - t.pos.x;
    let dy: i64 = target.y - t.pos.y;

    let heading: i64 = if dx == 0 && dy == 0 {
        t.heading
    } else {
        let diff = normalize_once(target_angle - QUARTER_TURN - t.heading);
        proof {
            assert(speed * dt_ms <= 10_000_000_000) by (nonlinear_arith)
                requires
                    speed <= 1_000_000,
                    dt_ms <= 10_000,
            ;
            assert(abs1(diff as int) * (speed * dt_ms) <= 1_800_000_000_000_000) by (nonlinear_arith)
                requires
                    abs1(diff as int) <= 180_000,
                    0 <= speed * dt_ms <= 10_000_000_000,
            ;
        }
        let change = scaled_div(diff, speed * dt_ms, 1_000_000);
        proof {
            assert(abs1(change as int) <= 2_000_000_000);
            if dt_ms == 0 {
                assert(speed * dt_ms == 0) by (nonlinear_arith)
                    requires
                        dt_ms == 0,
                ;
                lemma_mul_div_zero(diff as int, 1_000_000);
                assert(change == 0);
            }
        }
        let h = normalize_angle(t.heading + change);
        proof {
            if dt_ms == 0 {
                lemma_reduce_normal_angle(t.heading as int);
            }
        }
        h
    };

    let dist: u64 = distance(t.pos, target);
    let pos: Pos = if advance && dist > cfg.threshold {
        proof {
            assert(cfg.threshold * dt_ms <= 10_000_000_000) by (nonlinear_arith)
                requires
                    cfg.threshold <= 1_000_000,
                    dt_ms <= 10_000,
            ;
            assert(cfg.threshold * dt_ms * speed <= 10_000_000_000_000_000) by (nonlinear_arith)
                requires
                    0 <= cfg.threshold * dt_ms <= 10_000_000_000,
                    speed <= 1_000_000,
            ;
        }
        let move_dist: u64 = cfg.threshold * dt_ms * speed / 1_000_000;
        proof {
            lemma_div_is_ordered(
                (cfg.threshold * dt_ms * speed) as int,
                10_000_000_000_000_000,
                1_000_000,
            );
            assert((t.pos.x - target.x) * (t.pos.x - target.x) == (dx as int) * (dx as int)
                && (t.pos.y - target.y) * (t.pos.y - target.y) == (dy as int) * (dy as int))
                by (nonlinear_arith)
                requires
                    dx as int == target.x - t.pos.x,
                    dy as int == target.y - t.pos.y,
            ;
            lemma_sqrt_floor_ge_component(dx as int, dy as int, dist as int);
        }
        let ux: i64 = scaled_div(dx, 1000, dist);
        let uy: i64 = scaled_div(dy, 1000, dist);
        proof {
            assert(abs1(ux as int) <= 1000 && abs1(uy as int) <= 1000) by (nonlinear_arith)
                requires
                    abs1(ux as int) * (dist as int) <= abs1(dx as int) * 1000,
                    abs1(uy as int) * (dist as int) <= abs1(dy as int) * 1000,
                    abs1(dx as int) <= dist as int,
                    abs1(dy as int) <= dist as int,
                    dist >= 1,
            ;
            assert(abs1(ux as int) * move_dist <= 10_000_000_000_000
                && abs1(uy as int) * move_dist <= 10_000_000_000_000) by (nonlinear_arith)
                requires
                    abs1(ux as int) <= 1000,
                    abs1(uy as int) <= 1000,
                    move_dist <= 10_000_000_000,
            ;
        }
        let mx: i64 = scaled_div(ux, move_dist, 1000);
        let my: i64 = scaled_div(uy, move_dist, 1000);
        proof {
            if dt_ms == 0 {
                assert(cfg.threshold * dt_ms * speed == 0) by (nonlinear_arith)
                    requires
                        dt_ms == 0,
                ;
                vstd::arithmetic::div_mod::lemma_div_basics(1_000_000);
                assert(move_dist == 0);
                lemma_mul_div_zero(ux as int, 1000);
                lemma_mul_div_zero(uy as int, 1000);
                assert(mx == 0 && my == 0);
            }
        }
        Pos { x: clamp_coord_exec(t.pos.x + mx), y: clamp_coord_exec(t.pos.y + my) }
    } else {
        t.pos
    };

    (Transform2 { pos, heading }, speed)
}

} // verus!
