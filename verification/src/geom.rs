//! Plane geometry for the arena: integer 2-D vectors, axis-aligned
//! rectangles stored as a centre plus half-extents, and the per-tick
//! displacement a velocity produces.
//!
//! Coordinates are pixels, velocities are pixels per second, and time
//! deltas are milliseconds.

use vstd::prelude::*;
use crate::num::{div_trunc, mul_div_trunc};

verus! {

/// Positions and sizes are confined to this many pixels from the origin;
/// the arena itself is a few hundred pixels wide, so the bound only serves
/// to keep every product of a coordinate with a time delta inside `i64`.
pub const POS_LIMIT: i64 = 1000000000000;

/// Velocity components are confined to this many pixels per second.
pub const VEL_LIMIT: i64 = 2000000000;

/// The largest time delta, in milliseconds, that one tick may integrate;
/// larger deltas are cut down to it so a frame hitch cannot tunnel the ball
/// through an obstacle.
pub const MAX_TICK_MS: u64 = 200;

#[derive(Clone, Copy, PartialEq, Eq, Structural, Debug)]
pub struct Vec2 {
    pub x: i64,
    pub y: i64,
}

/// An axis-aligned rectangle: centre position and half-extents.
#[derive(Clone, Copy, PartialEq, Eq, Structural, Debug)]
pub struct Rect {
    pub center: Vec2,
    pub half: Vec2,
}

pub open spec fn vec2_in_range(v: Vec2, limit: int) -> bool {
    -limit <= v.x <= limit && -limit <= v.y <= limit
}

/// A position the library is prepared to move around.
pub open spec fn pos_wf(v: Vec2) -> bool {
    vec2_in_range(v, POS_LIMIT as int)
}

/// A velocity the library is prepared to integrate.
pub open spec fn vel_wf(v: Vec2) -> bool {
    vec2_in_range(v, VEL_LIMIT as int)
}

pub open spec fn rect_wf(r: Rect) -> bool {
    &&& pos_wf(r.center)
    &&& 0 <= r.half.x <= POS_LIMIT
    &&& 0 <= r.half.y <= POS_LIMIT
}

pub open spec fn rect_left(r: Rect) -> int {
    r.center.x - r.half.x
}

pub open spec fn rect_right(r: Rect) -> int {
    r.center.x + r.half.x
}

pub open spec fn rect_bottom(r: Rect) -> int {
    r.center.y - r.half.y
}

pub open spec fn rect_top(r: Rect) -> int {
    r.center.y + r.half.y
}

/// The displacement one velocity component produces over `dt` milliseconds,
/// truncating toward zero.
pub open spec fn vel_step(v: int, dt: int) -> int {
    div_trunc(v * dt, 1000)
}

pub proof fn lemma_vel_step_range(v: int, dt: int)
    requires
        -VEL_LIMIT as int <= v <= VEL_LIMIT as int,
        0 <= dt <= MAX_TICK_MS as int,
    ensures
        -400000000 <= vel_step(v, dt) <= 400000000,
{
    assert(-400000000000 <= v * dt <= 400000000000) by (nonlinear_arith)
        requires
            -2000000000 <= v <= 2000000000,
            0 <= dt <= 200,
    ;
    if v * dt >= 0 {
        vstd::arithmetic::div_mod::lemma_div_is_ordered(0, v * dt, 1000);
        vstd::arithmetic::div_mod::lemma_div_is_ordered(v * dt, 400000000000, 1000);
    } else {
        vstd::arithmetic::div_mod::lemma_div_is_ordered(0, -(v * dt), 1000);
        vstd::arithmetic::div_mod::lemma_div_is_ordered(-(v * dt), 400000000000, 1000);
    }
}

pub fn vel_step_i64(v: i64, dt: u64) -> (r: i64)
    requires
        -VEL_LIMIT as int <= v <= VEL_LIMIT as int,
        dt <= MAX_TICK_MS,
    ensures
        r == vel_step(v as int, dt as int),
        -400000000 <= r <= 400000000,
{
    proof {
        assert(-400000000000 <= (v as int) * (dt as int) <= 400000000000) by (nonlinear_arith)
            requires
                -2000000000 <= v as int <= 2000000000,
                0 <= dt as int <= 200,
        ;
        lemma_vel_step_range(v as int, dt as int);
    }
    mul_div_trunc(v, dt as i64, 1000)
}

} // verus!
