//! The collision detector: given a moving rectangle's position at the start
//! of a tick, its velocity, a static rectangle, and the tick's duration,
//! decide whether the two will overlap by the end of the tick and, if so,
//! which of the static rectangle's edges the moving one first crosses on
//! each axis.
//!
//! Intersection alone cannot tell which side was struck once the moving
//! rectangle can travel more than half its width in one tick, so each axis
//! is classified by comparing the bounds *before* the tick with the bounds
//! extrapolated to the end of the tick. Both axes may report a crossing in
//! the same tick (a corner hit).

use vstd::prelude::*;
use crate::geom::{
    rect_bottom, rect_left, rect_right, rect_top, rect_wf, vel_step, vel_step_i64, vel_wf,
    Rect, Vec2, MAX_TICK_MS,
};

verus! {

/// How the moving rectangle crosses the static one on the x axis:
/// approaching from the left, from the right, or not crossing.
#[derive(Clone, Copy, PartialEq, Eq, Structural, Debug)]
pub enum CollisionX {
    Left,
    Right,
    Miss,
}

/// How the moving rectangle crosses the static one on the y axis:
/// approaching from above (`Top`), from below (`Bottom`), or not crossing.
#[derive(Clone, Copy, PartialEq, Eq, Structural, Debug)]
pub enum CollisionY {
    Top,
    Bottom,
    Miss,
}

/// The detector's report: a per-axis classification and, for each crossed
/// axis, the coordinate at which the moving rectangle's centre would rest
/// against the crossed edge.
#[derive(Clone, Copy, PartialEq, Eq, Structural, Debug)]
pub struct CollisionOutcome {
    pub x: CollisionX,
    pub x_site: i64,
    pub y: CollisionY,
    pub y_site: i64,
}

pub open spec fn next_left(moving: Rect, vel: Vec2, dt: int) -> int {
    rect_left(moving) + vel_step(vel.x as int, dt)
}

pub open spec fn next_right(moving: Rect, vel: Vec2, dt: int) -> int {
    rect_right(moving) + vel_step(vel.x as int, dt)
}

pub open spec fn next_bottom(moving: Rect, vel: Vec2, dt: int) -> int {
    rect_bottom(moving) + vel_step(vel.y as int, dt)
}

pub open spec fn next_top(moving: Rect, vel: Vec2, dt: int) -> int {
    rect_top(moving) + vel_step(vel.y as int, dt)
}

/// Whether the moving rectangle, extrapolated to the end of the tick,
/// overlaps the static one.
pub open spec fn overlaps_next(moving: Rect, vel: Vec2, obstacle: Rect, dt: int) -> bool {
    &&& next_left(moving, vel, dt) < rect_right(obstacle)
    &&& next_right(moving, vel, dt) > rect_left(obstacle)
    &&& next_bottom(moving, vel, dt) < rect_top(obstacle)
    &&& next_top(moving, vel, dt) > rect_bottom(obstacle)
}

pub open spec fn x_side(moving: Rect, vel: Vec2, obstacle: Rect, dt: int) -> CollisionX {
    if rect_right(moving) < rect_left(obstacle)
        && next_right(moving, vel, dt) > rect_left(obstacle) {
        CollisionX::Left
    } else if rect_left(moving) > rect_right(obstacle)
        && next_left(moving, vel, dt) < rect_right(obstacle) {
        CollisionX::Right
    } else {
        CollisionX::Miss
    }
}

pub open spec fn x_site(moving: Rect, vel: Vec2, obstacle: Rect, dt: int) -> int {
    match x_side(moving, vel, obstacle, dt) {
        CollisionX::Left => rect_left(obstacle) - moving.half.x,
        CollisionX::Right => rect_right(obstacle) + moving.half.x,
        CollisionX::Miss => 0,
    }
}

pub open spec fn y_side(moving: Rect, vel: Vec2, obstacle: Rect, dt: int) -> CollisionY {
    if rect_top(moving) < rect_bottom(obstacle)
        && next_top(moving, vel, dt) > rect_bottom(obstacle) {
        CollisionY::Bottom
    } else if rect_bottom(moving) > rect_top(obstacle)
        && next_bottom(moving, vel, dt) < rect_top(obstacle) {
        CollisionY::Top
    } else {
        CollisionY::Miss
    }
}

pub open spec fn y_site(moving: Rect, vel: Vec2, obstacle: Rect, dt: int) -> int {
    match y_side(moving, vel, obstacle, dt) {
        CollisionY::Bottom => rect_bottom(obstacle) - moving.half.y,
        CollisionY::Top => rect_top(obstacle) + moving.half.y,
        CollisionY::Miss => 0,
    }
}

/// The report the detector gives when the extrapolated bounds overlap.
pub open spec fn outcome_spec(moving: Rect, vel: Vec2, obstacle: Rect, dt: int) -> CollisionOutcome {
    CollisionOutcome {
        x: x_side(moving, vel, obstacle, dt),
        x_site: x_site(moving, vel, obstacle, dt) as i64,
        y: y_side(moving, vel, obstacle, dt),
        y_site: y_site(moving, vel, obstacle, dt) as i64,
    }
}

/// The full detector: a report exactly when the extrapolated bounds overlap.
pub open spec fn detect_spec(moving: Rect, vel: Vec2, obstacle: Rect, dt: int) -> Option<
    CollisionOutcome,
> {
    if overlaps_next(moving, vel, obstacle, dt) {
        Some(outcome_spec(moving, vel, obstacle, dt))
    } else {
        None
    }
}

/// Whether two rectangles overlap where they stand.
pub open spec fn rects_overlap(a: Rect, b: Rect) -> bool {
    &&& rect_left(a) < rect_right(b)
    &&& rect_right(a) > rect_left(b)
    &&& rect_bottom(a) < rect_top(b)
    &&& rect_top(a) > rect_bottom(b)
}

/// Determine whether `moving`, travelling at `vel` for `dt_ms` milliseconds,
/// ends the tick overlapping `obstacle`, and classify the crossing.
pub fn detect(moving: &Rect, vel: &Vec2, obstacle: &Rect, dt_ms: u64) -> (r: Option<
    CollisionOutcome,
>)
    requires
        rect_wf(*moving),
        rect_wf(*obstacle),
        vel_wf(*vel),
        dt_ms <= MAX_TICK_MS,
    ensures
        r == detect_spec(*moving, *vel, *obstacle, dt_ms as int),
{
    let dx: i64 = vel_step_i64(vel.x, dt_ms);
    let dy: i64 = vel_step_i64(vel.y, dt_ms);
    let prev_left: i64 = moving.center.x - moving.half.x;
    let prev_right: i64 = moving.center.x + moving.half.x;
    let prev_bottom: i64 = moving.center.y - moving.half.y;
    let prev_top: i64 = moving.center.y + moving.half.y;
    let nxt_left: i64 = prev_left + dx;
    let nxt_right: i64 = prev_right + dx;
    let nxt_bottom: i64 = prev_bottom + dy;
    let nxt_top: i64 = prev_top + dy;
    let obs_left: i64 = obstacle.center.x - obstacle.half.x;
    let obs_right: i64 = obstacle.center.x + obstacle.half.x;
    let obs_bottom: i64 = obstacle.center.y - obstacle.half.y;
    let obs_top: i64 = obstacle.center.y + obstacle.half.y;

    if nxt_left < obs_right && nxt_right > obs_left && nxt_bottom < obs_top && nxt_top > obs_bottom
    {
        let (xc, xs): (CollisionX, i64) = if prev_right < obs_left && nxt_right > obs_left {
            (CollisionX::Left, obs_left - moving.half.x)
        } else if prev_left > obs_right && nxt_left < obs_right {
            (CollisionX::Right, obs_right + moving.half.x)
        } else {
            (CollisionX::Miss, 0)
        };
        let (yc, ys): (CollisionY, i64) = if prev_top < obs_bottom && nxt_top > obs_bottom {
            (CollisionY::Bottom, obs_bottom - moving.half.y)
        } else if prev_bottom > obs_top && nxt_bottom < obs_top {
            (CollisionY::Top, obs_top + moving.half.y)
        } else {
            (CollisionY::Miss, 0)
        };
        Some(CollisionOutcome { x: xc, x_site: xs, y: yc, y_site: ys })
    } else {
        None
    }
}

/// Law: two rectangles that stand apart and do not move are never reported
/// as colliding, whatever the tick's duration.
pub proof fn lemma_still_separate_never_collides(moving: Rect, obstacle: Rect, dt: int)
    requires
        !rects_overlap(moving, obstacle),
    ensures
        detect_spec(moving, Vec2 { x: 0, y: 0 }, obstacle, dt) is None,
{
    let zero = Vec2 { x: 0, y: 0 };
    assert(vel_step(0, dt) == 0) by {
        assert(0 * dt == 0);
        vstd::arithmetic::div_mod::lemma_div_basics(1000);
    }
    assert(next_left(moving, zero, dt) == rect_left(moving));
    assert(next_right(moving, zero, dt) == rect_right(moving));
    assert(next_bottom(moving, zero, dt) == rect_bottom(moving));
    assert(next_top(moving, zero, dt) == rect_top(moving));
}

/// Law: a moving rectangle that starts fully to the left of an obstacle and
/// ends the tick overlapping it is reported as crossing the obstacle's left
/// edge, with the collision site where the moving rectangle's centre rests
/// against that edge.
pub proof fn lemma_cross_from_left(moving: Rect, vel: Vec2, obstacle: Rect, dt: int)
    requires
        rect_right(moving) < rect_left(obstacle),
        overlaps_next(moving, vel, obstacle, dt),
    ensures
        detect_spec(moving, vel, obstacle, dt) == Some(outcome_spec(moving, vel, obstacle, dt)),
        x_side(moving, vel, obstacle, dt) == CollisionX::Left,
        x_site(moving, vel, obstacle, dt) == rect_left(obstacle) - moving.half.x,
{
}

} // verus!
