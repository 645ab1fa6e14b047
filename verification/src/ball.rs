//! The ball and its per-tick transition: integrate position, or — when a
//! collision was detected this tick — move to the contact point with the
//! old velocity, swap in the bounce velocity, finish the tick with it, and
//! clear the record. The split move makes the ball visibly stop at the
//! boundary before heading off in the new direction.
//!
//! Only one collision record is kept per ball per tick: the detection pass
//! stops at the first overlapping obstacle, so a simultaneous second
//! contact (a brick and a wall edge at once) is dropped. That is a known
//! compromise of the design, kept as documented behaviour.

use vstd::prelude::*;
use crate::collide::{CollisionOutcome, CollisionX, CollisionY};
use crate::color::{rgba_wf, Rgba};
use crate::geom::{
    pos_wf, vel_step, vel_step_i64, vel_wf, Vec2, MAX_TICK_MS, POS_LIMIT, VEL_LIMIT,
};
use crate::motion::{
    brick_target, brick_target_spec, paddle_bounce, paddle_bounce_vel, reflect_velocity,
    reflected_vel, rescale_velocity, rescaled_vel, speed, speed_of, wall_target, wall_target_spec,
    BRICK_SPEED_INCREMENT, MIN_BOUNCE_SPEED, ROTATION_PER_SPEED, WALL_SPEED_DECREMENT,
};
use crate::num::{add_clamped, clamp_i64, clamp_spec, div_trunc, mul_div_trunc, wrap_i64, wrap_spec};

verus! {

/// The category of an obstacle, which decides the side effects of hitting
/// it: the paddle redirects, the bottom wall removes the ball, the other
/// walls slow it, and bricks are destroyed and speed it up.
#[derive(Clone, Copy, PartialEq, Eq, Structural, Debug)]
pub enum Collider {
    BottomWall,
    OtherWall,
    Brick,
    Paddle,
}

/// The ball's rotational direction, set by which side of the paddle centre
/// it last contacted.
#[derive(Clone, Copy, PartialEq, Eq, Structural, Debug)]
pub enum Spin {
    Clockwise,
    CounterCw,
}

/// A collision recorded by the detection pass and consumed by the resolver
/// in the same tick: the detector's report, the collider kind struck, and
/// that collider's display colour.
#[derive(Clone, Copy, PartialEq, Eq, Structural, Debug)]
pub struct PendingCollision {
    pub outcome: CollisionOutcome,
    pub collider: Collider,
    pub color: Rgba,
}

/// Saturation bound on the stored rotation angle, in millidegrees.
pub const ROT_LIMIT: i64 = 1000000000000000;

/// Bound on the rotational velocity, in millidegrees per second.
pub const ROT_VEL_LIMIT: i64 = 3000000000000;

#[derive(Clone, Copy)]
pub struct Ball {
    /// Centre position, pixels.
    pub pos: Vec2,
    /// Half-extents of the ball's rectangle, pixels.
    pub half: Vec2,
    /// Velocity, pixels per second; its magnitude is the speed.
    pub vel: Vec2,
    /// Rotation angle, millidegrees.
    pub rotation: i64,
    /// Rotational velocity, millidegrees per second, non-negative.
    pub rotational_velocity: i64,
    /// The collision detected this tick, if any; consumed by the resolver.
    pub collided: Option<PendingCollision>,
    pub spin: Spin,
    /// Signed horizontal offset from the paddle centre at last paddle
    /// contact, pixels; it chooses the bounce angle.
    pub last_paddle_offset: i64,
    /// Current display colour.
    pub color: Rgba,
    /// False once the ball has fallen through the bottom boundary and is
    /// waiting to become a fading remnant at the end of the tick.
    pub in_play: bool,
}

pub open spec fn site_wf(site: int) -> bool {
    -3 * (POS_LIMIT as int) <= site <= 3 * (POS_LIMIT as int)
}

pub open spec fn pending_wf(p: PendingCollision) -> bool {
    &&& site_wf(p.outcome.x_site as int)
    &&& site_wf(p.outcome.y_site as int)
    &&& rgba_wf(p.color)
}

pub open spec fn ball_wf(b: Ball) -> bool {
    &&& pos_wf(b.pos)
    &&& 0 <= b.half.x <= POS_LIMIT
    &&& 0 <= b.half.y <= POS_LIMIT
    &&& vel_wf(b.vel)
    &&& -ROT_LIMIT <= b.rotation <= ROT_LIMIT
    &&& 0 <= b.rotational_velocity <= ROT_VEL_LIMIT
    &&& -2 * (POS_LIMIT as int) <= b.last_paddle_offset <= 2 * (POS_LIMIT as int)
    &&& rgba_wf(b.color)
    &&& (b.collided matches Some(p) ==> pending_wf(p))
}

/// The fraction of the tick, in thousandths, elapsed before the moving
/// centre reaches `site` on one axis; `den` is that axis's displacement
/// over the whole tick. An axis that does not move contributes zero, and
/// the fraction is confined to the tick.
pub open spec fn axis_frac_spec(start: int, site: int, den: int) -> int {
    if den == 0 {
        0
    } else if den > 0 {
        clamp_spec(div_trunc((site - start) * 1000, den), 0, 1000)
    } else {
        clamp_spec(div_trunc((start - site) * 1000, -den), 0, 1000)
    }
}

fn axis_fraction(start: i64, site: i64, den: i64) -> (r: i64)
    requires
        -(POS_LIMIT as int) <= start <= POS_LIMIT as int,
        site_wf(site as int),
        -400000000 <= den <= 400000000,
    ensures
        r == axis_frac_spec(start as int, site as int, den as int),
        0 <= r <= 1000,
{
    if den == 0 {
        0
    } else if den > 0 {
        let num: i64 = site - start;
        proof {
            assert(-4000000000000000 <= (num as int) * 1000 <= 4000000000000000);
        }
        clamp_i64(mul_div_trunc(num, 1000, den), 0, 1000)
    } else {
        let num: i64 = start - site;
        proof {
            assert(-4000000000000000 <= (num as int) * 1000 <= 4000000000000000);
        }
        clamp_i64(mul_div_trunc(num, 1000, -den), 0, 1000)
    }
}

/// The interpolation fraction of the tick before first contact: the
/// smaller of the per-axis fractions over the axes that actually crossed;
/// zero when neither crossed.
pub open spec fn midpoint_spec(b: Ball, p: PendingCollision, dt: int) -> int {
    let fx = axis_frac_spec(
        b.pos.x as int,
        p.outcome.x_site as int,
        vel_step(b.vel.x as int, dt),
    );
    let fy = axis_frac_spec(
        b.pos.y as int,
        p.outcome.y_site as int,
        vel_step(b.vel.y as int, dt),
    );
    let xc = p.outcome.x != CollisionX::Miss;
    let yc = p.outcome.y != CollisionY::Miss;
    if xc && yc {
        if fx <= fy {
            fx
        } else {
            fy
        }
    } else if xc {
        fx
    } else if yc {
        fy
    } else {
        0
    }
}

/// The velocity the ball leaves a collision with. A paddle hit on its top
/// face while the ball falls is reinterpreted as an angled bounce chosen by
/// the stored contact offset; any other collider mirrors the velocity on
/// each crossed axis and then re-aims the speed: bricks add the increment,
/// walls subtract the decrement, both floored.
pub open spec fn bounce_velocity_spec(b: Ball, p: PendingCollision) -> Vec2 {
    if p.collider == Collider::Paddle {
        if p.outcome.y == CollisionY::Top && b.vel.y < 0 {
            paddle_bounce_vel(b.last_paddle_offset as int, speed_of(b.vel))
        } else {
            b.vel
        }
    } else {
        let rv = reflected_vel(b.vel, p.outcome);
        if p.collider == Collider::Brick {
            rescaled_vel(rv, brick_target_spec(speed_of(rv)))
        } else {
            rescaled_vel(rv, wall_target_spec(speed_of(rv)))
        }
    }
}

pub fn bounce_velocity(b: &Ball, p: &PendingCollision) -> (r: Vec2)
    requires
        vel_wf(b.vel),
    ensures
        r == bounce_velocity_spec(*b, *p),
        vel_wf(r),
{
    if matches!(p.collider, Collider::Paddle) {
        if matches!(p.outcome.y, CollisionY::Top) && b.vel.y < 0 {
            let m: i64 = speed(&b.vel);
            paddle_bounce(b.last_paddle_offset, m)
        } else {
            b.vel
        }
    } else {
        let rv: Vec2 = reflect_velocity(&b.vel, &p.outcome);
        let m: i64 = speed(&rv);
        if matches!(p.collider, Collider::Brick) {
            rescale_velocity(&rv, brick_target(m))
        } else {
            rescale_velocity(&rv, wall_target(m))
        }
    }
}

/// The distance one velocity component covers in the given thousandths of
/// a tick of `dt` milliseconds.
pub open spec fn move_frac(v: int, dt: int, frac: int) -> int {
    div_trunc(v * dt * frac, 1000000)
}

fn move_frac_i64(v: i64, dt: u64, frac: i64) -> (r: i64)
    requires
        -(VEL_LIMIT as int) <= v <= VEL_LIMIT as int,
        dt <= MAX_TICK_MS,
        0 <= frac <= 1000,
    ensures
        r == move_frac(v as int, dt as int, frac as int),
        -400000000 <= r <= 400000000,
{
    proof {
        assert(-400000000000 <= (v as int) * (dt as int) <= 400000000000) by (nonlinear_arith)
            requires
                -2000000000 <= v as int <= 2000000000,
                0 <= dt as int <= 200,
        ;
    }
    let vd: i64 = v * (dt as i64);
    proof {
        assert(-400000000000000 <= (vd as int) * (frac as int)
            <= 400000000000000) by (nonlinear_arith)
            requires
                -400000000000 <= vd as int <= 400000000000,
                0 <= frac as int <= 1000,
        ;
        let prod: int = (vd as int) * (frac as int);
        if prod >= 0 {
            vstd::arithmetic::div_mod::lemma_div_is_ordered(0, prod, 1000000);
            vstd::arithmetic::div_mod::lemma_div_is_ordered(prod, 400000000000000, 1000000);
        } else {
            vstd::arithmetic::div_mod::lemma_div_is_ordered(0, -prod, 1000000);
            vstd::arithmetic::div_mod::lemma_div_is_ordered(-prod, 400000000000000, 1000000);
        }
    }
    mul_div_trunc(vd, frac, 1000000)
}

pub open spec fn clamp_pos(c: int) -> int {
    clamp_spec(c, -(POS_LIMIT as int), POS_LIMIT as int)
}

/// One resolver transition for one ball. With no pending collision the
/// position integrates one full tick. With one, the ball advances to the
/// contact point under the old velocity, takes the bounce velocity, covers
/// the rest of the tick with it, refreshes its rotational velocity in
/// proportion to the new speed, and clears the record. Positions saturate
/// at the coordinate bound, far outside the arena.
pub open spec fn resolve_step(b: Ball, dt: int) -> Ball {
    match b.collided {
        None => Ball {
            pos: Vec2 {
                x: clamp_pos(b.pos.x + vel_step(b.vel.x as int, dt)) as i64,
                y: clamp_pos(b.pos.y + vel_step(b.vel.y as int, dt)) as i64,
            },
            ..b
        },
        Some(p) => {
            let mid = midpoint_spec(b, p, dt);
            let nv = bounce_velocity_spec(b, p);
            let x1 = clamp_pos(b.pos.x + move_frac(b.vel.x as int, dt, mid));
            let y1 = clamp_pos(b.pos.y + move_frac(b.vel.y as int, dt, mid));
            Ball {
                pos: Vec2 {
                    x: clamp_pos(x1 + move_frac(nv.x as int, dt, 1000 - mid)) as i64,
                    y: clamp_pos(y1 + move_frac(nv.y as int, dt, 1000 - mid)) as i64,
                },
                vel: nv,
                rotational_velocity: (speed_of(nv) * (ROTATION_PER_SPEED as int)) as i64,
                collided: None,
                ..b
            }
        },
    }
}

/// Advance one ball by one tick of `dt` milliseconds, resolving the
/// pending collision if one was recorded.
pub fn resolve_and_move(b: &mut Ball, dt: u64)
    requires
        ball_wf(*old(b)),
        dt <= MAX_TICK_MS,
    ensures
        *final(b) == resolve_step(*old(b), dt as int),
        ball_wf(*final(b)),
{
    let pending_opt: Option<PendingCollision> = b.collided;
    match pending_opt {
        None => {
            let dx: i64 = vel_step_i64(b.vel.x, dt);
            let dy: i64 = vel_step_i64(b.vel.y, dt);
            b.pos.x = add_clamped(b.pos.x, dx, POS_LIMIT);
            b.pos.y = add_clamped(b.pos.y, dy, POS_LIMIT);
        },
        Some(p) => {
            let denx: i64 = vel_step_i64(b.vel.x, dt);
            let deny: i64 = vel_step_i64(b.vel.y, dt);
            let fx: i64 = axis_fraction(b.pos.x, p.outcome.x_site, denx);
            let fy: i64 = axis_fraction(b.pos.y, p.outcome.y_site, deny);
            let x_crossed: bool = !matches!(p.outcome.x, CollisionX::Miss);
            let y_crossed: bool = !matches!(p.outcome.y, CollisionY::Miss);
            let mid: i64 = if x_crossed && y_crossed {
                if fx <= fy {
                    fx
                } else {
                    fy
                }
            } else if x_crossed {
                fx
            } else if y_crossed {
                fy
            } else {
                0
            };
            let nv: Vec2 = bounce_velocity(&*b, &p);
            b.pos.x = add_clamped(b.pos.x, move_frac_i64(b.vel.x, dt, mid), POS_LIMIT);
            b.pos.y = add_clamped(b.pos.y, move_frac_i64(b.vel.y, dt, mid), POS_LIMIT);
            b.vel = nv;
            let sp: i64 = speed(&b.vel);
            b.rotational_velocity = sp * ROTATION_PER_SPEED;
            b.pos.x = add_clamped(b.pos.x, move_frac_i64(b.vel.x, dt, 1000 - mid), POS_LIMIT);
            b.pos.y = add_clamped(b.pos.y, move_frac_i64(b.vel.y, dt, 1000 - mid), POS_LIMIT);
            b.collided = None;
        },
    }
}

pub open spec fn spin_sign(s: Spin) -> int {
    if s == Spin::Clockwise {
        -1
    } else {
        1
    }
}

/// One rotation tick: the angle advances by the rotational velocity in the
/// spin direction and is folded once back into one half turn; the stored
/// angle saturates at a wide bound.
pub open spec fn rotation_step(b: Ball, dt: int) -> int {
    clamp_spec(
        wrap_spec(
            b.rotation + spin_sign(b.spin) * div_trunc(b.rotational_velocity * dt, 1000),
            0,
            180000,
        ),
        -(ROT_LIMIT as int),
        ROT_LIMIT as int,
    )
}

pub fn rotate_ball(b: &mut Ball, dt: u64)
    requires
        ball_wf(*old(b)),
        dt <= MAX_TICK_MS,
    ensures
        *final(b) == (Ball { rotation: rotation_step(*old(b), dt as int) as i64, ..*old(b) }),
        ball_wf(*final(b)),
{
    proof {
        assert(0 <= (b.rotational_velocity as int) * (dt as int)
            <= 600000000000000) by (nonlinear_arith)
            requires
                0 <= b.rotational_velocity as int <= 3000000000000,
                0 <= dt as int <= 200,
        ;
        vstd::arithmetic::div_mod::lemma_div_is_ordered(
            0,
            (b.rotational_velocity as int) * (dt as int),
            1000,
        );
        vstd::arithmetic::div_mod::lemma_div_is_ordered(
            (b.rotational_velocity as int) * (dt as int),
            600000000000000,
            1000,
        );
    }
    let delta: i64 = mul_div_trunc(b.rotational_velocity, dt as i64, 1000);
    let signed: i64 = match b.spin {
        Spin::Clockwise => -delta,
        Spin::CounterCw => delta,
    };
    let w: i64 = wrap_i64(b.rotation + signed, 0, 180000);
    b.rotation = clamp_i64(w, -ROT_LIMIT, ROT_LIMIT);
}

/// Law: a ball moving right and down that strikes a side wall crossing its
/// left edge, with no crossing on the y axis, leaves with the x component
/// mirrored and the y component still downward, re-aimed at the speed the
/// wall allows: the old speed less the decrement, floored at the minimum.
/// Inputs so slow or so oblique that a rescaled component truncates to
/// zero are left out.
pub proof fn lemma_side_wall_flips_x_only(b: Ball, p: PendingCollision)
    requires
        vel_wf(b.vel),
        b.vel.x > 0,
        b.vel.y < 0,
        p.collider == Collider::OtherWall,
        p.outcome.x == CollisionX::Left,
        p.outcome.y == CollisionY::Miss,
        (b.vel.x as int) * wall_target_spec(speed_of(b.vel)) >= speed_of(b.vel),
        (-(b.vel.y as int)) * wall_target_spec(speed_of(b.vel)) >= speed_of(b.vel),
    ensures
        ({
            let nv = bounce_velocity_spec(b, p);
            let m = speed_of(b.vel);
            &&& nv.x < 0
            &&& nv.y < 0
            &&& nv == rescaled_vel(
                Vec2 { x: (-(b.vel.x as int)) as i64, y: b.vel.y },
                wall_target_spec(m),
            )
            &&& wall_target_spec(m) == (if m - WALL_SPEED_DECREMENT > MIN_BOUNCE_SPEED {
                m - WALL_SPEED_DECREMENT
            } else {
                MIN_BOUNCE_SPEED as int
            })
        }),
{
    let rv = reflected_vel(b.vel, p.outcome);
    assert(rv == (Vec2 { x: (-(b.vel.x as int)) as i64, y: b.vel.y }));
    lemma_reflect_keeps_speed(b.vel, p.outcome);
    let m = speed_of(b.vel);
    let t = wall_target_spec(m);
    assert(m > 0) by {
        let n = (b.vel.x * b.vel.x + b.vel.y * b.vel.y) as nat;
        assert((b.vel.x as int) * (b.vel.x as int) >= 1) by (nonlinear_arith)
            requires
                b.vel.x as int >= 1,
        ;
        assert((b.vel.y as int) * (b.vel.y as int) >= 0) by (nonlinear_arith);
        crate::num::lemma_sqrt_floor_bracket(n);
        let s = crate::num::sqrt_floor(n);
        if s == 0 {
            assert((s + 1) * (s + 1) == 1) by (nonlinear_arith)
                requires
                    s == 0,
            ;
        }
    };
    lemma_scaled_component_sign(-(b.vel.x as int), t, m);
    lemma_scaled_component_sign(b.vel.y as int, t, m);
}

/// Law: a brick hit mirrors the velocity on each crossed axis and re-aims
/// the speed upward by exactly the brick increment (floored): the resolver
/// rescales the mirrored velocity, whose speed equals the incoming speed,
/// to that target.
pub proof fn lemma_brick_bounce_speeds_up(b: Ball, p: PendingCollision)
    requires
        vel_wf(b.vel),
        p.collider == Collider::Brick,
    ensures
        ({
            let m = speed_of(b.vel);
            &&& speed_of(reflected_vel(b.vel, p.outcome)) == m
            &&& bounce_velocity_spec(b, p) == rescaled_vel(
                reflected_vel(b.vel, p.outcome),
                brick_target_spec(m),
            )
            &&& brick_target_spec(m) == (if m + BRICK_SPEED_INCREMENT > MIN_BOUNCE_SPEED {
                m + BRICK_SPEED_INCREMENT
            } else {
                MIN_BOUNCE_SPEED as int
            })
        }),
{
    lemma_reflect_keeps_speed(b.vel, p.outcome);
}

/// Law: a ball climbing up and to the right into a brick, crossing its
/// bottom edge with no crossing on the x axis, leaves with the y component
/// mirrored downward and the x direction kept, re-aimed at the old speed
/// plus the brick increment (floored). Inputs so slow or so oblique that a
/// rescaled component truncates to zero are left out.
pub proof fn lemma_brick_bounce_flips_crossed_axis(b: Ball, p: PendingCollision)
    requires
        vel_wf(b.vel),
        b.vel.x > 0,
        b.vel.y > 0,
        p.collider == Collider::Brick,
        p.outcome.x == CollisionX::Miss,
        p.outcome.y == CollisionY::Bottom,
        (b.vel.x as int) * brick_target_spec(speed_of(b.vel)) >= speed_of(b.vel),
        (b.vel.y as int) * brick_target_spec(speed_of(b.vel)) >= speed_of(b.vel),
    ensures
        ({
            let nv = bounce_velocity_spec(b, p);
            let m = speed_of(b.vel);
            &&& nv.x > 0
            &&& nv.y < 0
            &&& nv == rescaled_vel(
                Vec2 { x: b.vel.x, y: (-(b.vel.y as int)) as i64 },
                brick_target_spec(m),
            )
        }),
{
    let rv = reflected_vel(b.vel, p.outcome);
    assert(rv == (Vec2 { x: b.vel.x, y: (-(b.vel.y as int)) as i64 }));
    lemma_reflect_keeps_speed(b.vel, p.outcome);
    let m = speed_of(b.vel);
    let t = brick_target_spec(m);
    assert(m > 0) by {
        let n = (b.vel.x * b.vel.x + b.vel.y * b.vel.y) as nat;
        assert((b.vel.x as int) * (b.vel.x as int) >= 1) by (nonlinear_arith)
            requires
                b.vel.x as int >= 1,
        ;
        assert((b.vel.y as int) * (b.vel.y as int) >= 0) by (nonlinear_arith);
        crate::num::lemma_sqrt_floor_bracket(n);
        let s = crate::num::sqrt_floor(n);
        if s == 0 {
            assert((s + 1) * (s + 1) == 1) by (nonlinear_arith)
                requires
                    s == 0,
            ;
        }
    };
    lemma_scaled_component_sign(b.vel.x as int, t, m);
    lemma_scaled_component_sign(-(b.vel.y as int), t, m);
}

/// Mirroring components leaves the speed unchanged.
pub proof fn lemma_reflect_keeps_speed(v: Vec2, o: CollisionOutcome)
    requires
        vel_wf(v),
    ensures
        speed_of(reflected_vel(v, o)) == speed_of(v),
{
    let rv = reflected_vel(v, o);
    assert((rv.x as int) * (rv.x as int) == (v.x as int) * (v.x as int)
        && (rv.y as int) * (rv.y as int) == (v.y as int) * (v.y as int)) by (nonlinear_arith)
        requires
            rv.x as int == v.x as int || rv.x as int == -(v.x as int),
            rv.y as int == v.y as int || rv.y as int == -(v.y as int),
    ;
}

/// A rescaled component keeps its sign strictly when its share of the
/// target is at least one whole unit.
proof fn lemma_scaled_component_sign(c: int, t: int, m: int)
    requires
        m > 0,
        t > 0,
        c != 0,
        c > 0 ==> c * t >= m,
        c < 0 ==> (-c) * t >= m,
        -(VEL_LIMIT as int) <= c <= VEL_LIMIT as int,
    ensures
        c > 0 ==> clamp_spec(div_trunc(c * t, m), -(VEL_LIMIT as int), VEL_LIMIT as int) > 0,
        c < 0 ==> clamp_spec(div_trunc(c * t, m), -(VEL_LIMIT as int), VEL_LIMIT as int) < 0,
{
    if c > 0 {
        vstd::arithmetic::div_mod::lemma_div_is_ordered(m, c * t, m);
        vstd::arithmetic::div_mod::lemma_div_multiples_vanish(1, m);
        assert(m * 1 == m);
        assert(div_trunc(c * t, m) >= 1);
    } else {
        assert(c * t == -((-c) * t)) by (nonlinear_arith);
        vstd::arithmetic::div_mod::lemma_div_is_ordered(m, (-c) * t, m);
        vstd::arithmetic::div_mod::lemma_div_multiples_vanish(1, m);
        assert(m * 1 == m);
        assert(div_trunc(c * t, m) <= -1);
    }
}

} // verus!
