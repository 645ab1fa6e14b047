//! Velocity arithmetic for the resolver: the speed (magnitude) of a
//! velocity, mirror reflection off a crossed edge, rescaling a velocity to
//! a target speed, and the angled bounce off the paddle in which the
//! contact offset, not geometry, chooses the launch direction.

use vstd::prelude::*;
use crate::collide::{CollisionOutcome, CollisionX, CollisionY};
use crate::geom::{vel_wf, Vec2, VEL_LIMIT};
use crate::num::{
    clamp_i64, clamp_spec, div_trunc, isqrt_u64, mul_div_trunc, sin_q, sin_q_spec, sqrt_floor,
};

verus! {

/// Fixed speed increment a brick bounce adds, in pixels per second.
pub const BRICK_SPEED_INCREMENT: i64 = 30;

/// Fixed speed decrement a wall bounce subtracts, in pixels per second.
pub const WALL_SPEED_DECREMENT: i64 = 20;

/// The speed floor after any brick or wall bounce, in pixels per second,
/// so the ball never stalls.
pub const MIN_BOUNCE_SPEED: i64 = 100;

/// The largest horizontal offset from the paddle centre that still counts:
/// half the paddle plus half the ball.
pub const PADDLE_MAX_OFFSET: i64 = 75;

/// The launch angle off the paddle's edge, in millidegrees from straight up.
pub const PADDLE_MAX_ANGLE: i64 = 85000;

/// Rotational velocity per unit of speed: millidegrees per second of spin
/// for each pixel per second of motion.
pub const ROTATION_PER_SPEED: i64 = 900;

/// The speed of a velocity: the integer square root of the sum of the
/// squared components.
pub open spec fn speed_of(v: Vec2) -> int {
    sqrt_floor((v.x * v.x + v.y * v.y) as nat) as int
}

pub fn speed(v: &Vec2) -> (r: i64)
    requires
        vel_wf(*v),
    ensures
        r == speed_of(*v),
        0 <= r <= 3000000000,
{
    proof {
        assert(0 <= (v.x as int) * (v.x as int) <= 4000000000000000000
            && 0 <= (v.y as int) * (v.y as int) <= 4000000000000000000) by (nonlinear_arith)
            requires
                -2000000000 <= v.x as int <= 2000000000,
                -2000000000 <= v.y as int <= 2000000000,
        ;
    }
    let xx: u64 = (v.x * v.x) as u64;
    let yy: u64 = (v.y * v.y) as u64;
    let s: u64 = xx + yy;
    let m: u64 = isqrt_u64(s);
    proof {
        assert(m <= 3000000000) by (nonlinear_arith)
            requires
                (m as int) * (m as int) <= 8000000000000000000,
        ;
    }
    m as i64
}

/// A velocity component mirrored exactly when it points into the crossed
/// edge on its axis.
pub open spec fn reflected_x(vx: int, x: CollisionX) -> int {
    if (x == CollisionX::Left && vx > 0) || (x == CollisionX::Right && vx < 0) {
        -vx
    } else {
        vx
    }
}

pub open spec fn reflected_y(vy: int, y: CollisionY) -> int {
    if (y == CollisionY::Bottom && vy > 0) || (y == CollisionY::Top && vy < 0) {
        -vy
    } else {
        vy
    }
}

pub open spec fn reflected_vel(v: Vec2, o: CollisionOutcome) -> Vec2 {
    Vec2 { x: reflected_x(v.x as int, o.x) as i64, y: reflected_y(v.y as int, o.y) as i64 }
}

/// Mirror the velocity on each axis whose edge was crossed against the
/// direction of motion. Reflection leaves the speed unchanged.
pub fn reflect_velocity(v: &Vec2, o: &CollisionOutcome) -> (r: Vec2)
    requires
        vel_wf(*v),
    ensures
        r == reflected_vel(*v, *o),
        vel_wf(r),
        speed_of(r) == speed_of(*v),
{
    let x: i64 = if (matches!(o.x, CollisionX::Left) && v.x > 0) || (matches!(
        o.x,
        CollisionX::Right,
    ) && v.x < 0) {
        -v.x
    } else {
        v.x
    };
    let y: i64 = if (matches!(o.y, CollisionY::Bottom) && v.y > 0) || (matches!(
        o.y,
        CollisionY::Top,
    ) && v.y < 0) {
        -v.y
    } else {
        v.y
    };
    let r = Vec2 { x, y };
    proof {
        assert((r.x as int) * (r.x as int) == (v.x as int) * (v.x as int)
            && (r.y as int) * (r.y as int) == (v.y as int) * (v.y as int)) by (nonlinear_arith)
            requires
                r.x as int == v.x as int || r.x as int == -(v.x as int),
                r.y as int == v.y as int || r.y as int == -(v.y as int),
        ;
    }
    r
}

/// `v` scaled so its speed becomes `target`: each component multiplied by
/// `target` and divided by the current speed, truncating toward zero, then
/// held inside the velocity bound. The zero velocity has no direction and
/// is returned unchanged.
pub open spec fn rescaled_vel(v: Vec2, target: int) -> Vec2 {
    let m = speed_of(v);
    if m == 0 {
        v
    } else {
        Vec2 {
            x: clamp_spec(div_trunc(v.x * target, m), -VEL_LIMIT as int, VEL_LIMIT as int) as i64,
            y: clamp_spec(div_trunc(v.y * target, m), -VEL_LIMIT as int, VEL_LIMIT as int) as i64,
        }
    }
}

pub fn rescale_velocity(v: &Vec2, target: i64) -> (r: Vec2)
    requires
        vel_wf(*v),
        0 <= target <= 3000000100,
    ensures
        r == rescaled_vel(*v, target as int),
        vel_wf(r),
{
    let m: i64 = speed(v);
    if m == 0 {
        *v
    } else {
        proof {
            assert(-(i64::MAX as int) <= (v.x as int) * (target as int) <= i64::MAX as int
                && -(i64::MAX as int) <= (v.y as int) * (target as int)
                <= i64::MAX as int) by (nonlinear_arith)
                requires
                    -2000000000 <= v.x as int <= 2000000000,
                    -2000000000 <= v.y as int <= 2000000000,
                    0 <= target as int <= 3000000100,
            ;
        }
        let x: i64 = clamp_i64(mul_div_trunc(v.x, target, m), -VEL_LIMIT, VEL_LIMIT);
        let y: i64 = clamp_i64(mul_div_trunc(v.y, target, m), -VEL_LIMIT, VEL_LIMIT);
        Vec2 { x, y }
    }
}

/// The speed a brick bounce aims for: the fixed increment added, floored.
pub open spec fn brick_target_spec(m: int) -> int {
    if m + BRICK_SPEED_INCREMENT > MIN_BOUNCE_SPEED {
        m + BRICK_SPEED_INCREMENT
    } else {
        MIN_BOUNCE_SPEED as int
    }
}

pub fn brick_target(m: i64) -> (r: i64)
    requires
        0 <= m <= 3000000000,
    ensures
        r == brick_target_spec(m as int),
        MIN_BOUNCE_SPEED <= r <= 3000000030,
{
    let t: i64 = m + BRICK_SPEED_INCREMENT;
    if t > MIN_BOUNCE_SPEED {
        t
    } else {
        MIN_BOUNCE_SPEED
    }
}

/// The speed a wall bounce aims for: the fixed decrement subtracted,
/// floored at the minimum so the ball never stalls.
pub open spec fn wall_target_spec(m: int) -> int {
    if m - WALL_SPEED_DECREMENT > MIN_BOUNCE_SPEED {
        m - WALL_SPEED_DECREMENT
    } else {
        MIN_BOUNCE_SPEED as int
    }
}

pub fn wall_target(m: i64) -> (r: i64)
    requires
        0 <= m <= 3000000000,
    ensures
        r == wall_target_spec(m as int),
        MIN_BOUNCE_SPEED <= r <= 3000000000,
{
    let t: i64 = m - WALL_SPEED_DECREMENT;
    if t > MIN_BOUNCE_SPEED {
        t
    } else {
        MIN_BOUNCE_SPEED
    }
}

/// The launch angle off the paddle in millidegrees from straight up: the
/// contact offset, clamped to the paddle's reach, mapped linearly onto the
/// extreme angles.
pub open spec fn bounce_angle(offset: int) -> int {
    div_trunc(
        clamp_spec(offset, -PADDLE_MAX_OFFSET as int, PADDLE_MAX_OFFSET as int)
            * PADDLE_MAX_ANGLE,
        PADDLE_MAX_OFFSET as int,
    )
}

/// The velocity of a ball leaving the paddle: direction from the launch
/// angle, speed `m` kept from before the contact.
pub open spec fn paddle_bounce_vel(offset: int, m: int) -> Vec2 {
    let a = bounce_angle(offset);
    let ax = if a >= 0 {
        a
    } else {
        -a
    };
    let s = sin_q_spec(ax);
    let c = sin_q_spec(90000 - ax);
    let x_mag = div_trunc(s * m, 10000);
    Vec2 {
        x: (if a >= 0 {
            clamp_spec(x_mag, -VEL_LIMIT as int, VEL_LIMIT as int)
        } else {
            clamp_spec(-x_mag, -VEL_LIMIT as int, VEL_LIMIT as int)
        }) as i64,
        y: clamp_spec(div_trunc(c * m, 10000), -VEL_LIMIT as int, VEL_LIMIT as int) as i64,
    }
}

pub fn paddle_bounce(offset: i64, m: i64) -> (r: Vec2)
    requires
        0 <= m <= 3000000000,
    ensures
        r == paddle_bounce_vel(offset as int, m as int),
        vel_wf(r),
        r.y >= 0,
        bounce_angle(offset as int) >= 0 ==> r.x >= 0,
        bounce_angle(offset as int) < 0 ==> r.x <= 0,
{
    let clamped: i64 = clamp_i64(offset, -PADDLE_MAX_OFFSET, PADDLE_MAX_OFFSET);
    proof {
        assert(-6375000 <= (clamped as int) * (PADDLE_MAX_ANGLE as int)
            <= 6375000) by (nonlinear_arith)
            requires
                -75 <= clamped as int <= 75,
                PADDLE_MAX_ANGLE as int == 85000,
        ;
        if (clamped as int) * 85000 >= 0 {
            vstd::arithmetic::div_mod::lemma_div_is_ordered(
                (clamped as int) * 85000,
                6375000,
                75,
            );
            vstd::arithmetic::div_mod::lemma_div_is_ordered(0, (clamped as int) * 85000, 75);
        } else {
            vstd::arithmetic::div_mod::lemma_div_is_ordered(
                -((clamped as int) * 85000),
                6375000,
                75,
            );
            vstd::arithmetic::div_mod::lemma_div_is_ordered(
                0,
                -((clamped as int) * 85000),
                75,
            );
        }
        assert(6375000int / 75 == 85000);
    }
    let a: i64 = mul_div_trunc(clamped, PADDLE_MAX_ANGLE, PADDLE_MAX_OFFSET);
    let ax: i64 = if a >= 0 {
        a
    } else {
        -a
    };
    let s: i64 = sin_q(ax);
    let c: i64 = sin_q(90000 - ax);
    proof {
        assert(0 <= (s as int) * (m as int) <= 30000000000000
            && 0 <= (c as int) * (m as int) <= 30000000000000) by (nonlinear_arith)
            requires
                0 <= s as int <= 10000,
                0 <= c as int <= 10000,
                0 <= m as int <= 3000000000,
        ;
        vstd::arithmetic::div_mod::lemma_div_is_ordered(0, (s as int) * (m as int), 10000);
        vstd::arithmetic::div_mod::lemma_div_is_ordered(0, (c as int) * (m as int), 10000);
    }
    let x_mag: i64 = mul_div_trunc(s, m, 10000);
    let y_mag: i64 = mul_div_trunc(c, m, 10000);
    let x: i64 = if a >= 0 {
        clamp_i64(x_mag, -VEL_LIMIT, VEL_LIMIT)
    } else {
        clamp_i64(-x_mag, -VEL_LIMIT, VEL_LIMIT)
    };
    let y: i64 = clamp_i64(y_mag, -VEL_LIMIT, VEL_LIMIT);
    Vec2 { x, y }
}

} // verus!
