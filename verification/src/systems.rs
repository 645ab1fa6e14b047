//! The per-tick systems, in the fixed order the driver applies them:
//! input, collision detection, colour feedback, ball movement, ball
//! rotation, ball trails, paddle movement, fade-out, the win check, and the
//! end-of-tick reaping that turns destroyed balls and bricks into fading
//! remnants. Each system is specified as a function over the world's
//! mathematical snapshot.

use vstd::prelude::*;
use crate::ball::{
    ball_wf, resolve_and_move, resolve_step, rotate_ball, rotation_step, site_wf, Ball, Collider,
    PendingCollision, Spin,
};
use crate::collide::{detect, detect_spec, outcome_spec, CollisionOutcome, CollisionY};
use crate::color::{lerp_rgba, lerp_rgba_spec, rgba_wf, Rgba};
use crate::combo::{
    combo_step, combo_step_done, combo_wf, reset_spec, InputState, Key,
};
use crate::geom::{Rect, Vec2, MAX_TICK_MS};
use crate::num::{clamp_spec, div_trunc, mul_div_trunc};
use crate::state::{after_input, state_after_input, GameState};
use crate::world::{
    count_live_balls, live_ball_count, obstacle_wf, remnant_wf, view_of, world_wf, Obstacle,
    Remnant, World, WorldView, DASH_DISTANCE, DESPAWN_TIME_MS, PADDLE_BOUND, TRAIL_FADE_MS,
};

verus! {

// ---------------------------------------------------------------- input

/// The input system: the primary and restart key releases move the state
/// machine; nothing else changes.
pub open spec fn input_spec(v: WorldView, input: InputState) -> WorldView {
    WorldView {
        state: after_input(
            v.state,
            input.just_released@.contains(Key::Space),
            input.just_released@.contains(Key::R),
        ),
        ..v
    }
}

pub fn start_pause_transition(w: &mut World, input: &InputState)
    ensures
        view_of(*final(w)) == input_spec(view_of(*old(w)), *input),
        world_wf(*old(w)) ==> world_wf(*final(w)),
{
    let primary: bool = input.is_just_released(Key::Space);
    let restart: bool = input.is_just_released(Key::R);
    w.state = state_after_input(w.state, primary, restart);
    proof {
        assert(view_of(*w) =~= input_spec(view_of(*old(w)), *input));
    }
}

// ------------------------------------------------------------- movement

/// The resolver pass: while playing, every ball takes one resolver
/// transition; otherwise nothing moves.
pub open spec fn movement_pass_spec(v: WorldView, dt: int) -> WorldView {
    if v.state == GameState::Playing {
        WorldView {
            balls: Seq::new(v.balls.len(), |i: int| resolve_step(v.balls[i], dt)),
            ..v
        }
    } else {
        v
    }
}

pub fn ball_movement_pass(w: &mut World, dt: u64)
    requires
        world_wf(*old(w)),
        dt <= MAX_TICK_MS,
    ensures
        view_of(*final(w)) == movement_pass_spec(view_of(*old(w)), dt as int),
        world_wf(*final(w)),
{
    if matches!(w.state, GameState::Playing) {
        let n: usize = w.balls.len();
        let mut i: usize = 0;
        while i < n
            invariant
                0 <= i <= n,
                n == w.balls@.len(),
                n == old(w).balls@.len(),
                forall|j: int|
                    0 <= j < i ==> w.balls@[j] == resolve_step(
                        #[trigger] old(w).balls@[j],
                        dt as int,
                    ),
                forall|j: int| i <= j < n ==> #[trigger] w.balls@[j] == old(w).balls@[j],
                forall|j: int| 0 <= j < n ==> ball_wf(#[trigger] w.balls@[j]),
                w.state == old(w).state,
                w.score == old(w).score,
                w.obstacles == old(w).obstacles,
                w.remnants == old(w).remnants,
                w.combo_left == old(w).combo_left,
                w.combo_right == old(w).combo_right,
                w.paddle_speed == old(w).paddle_speed,
                dt <= MAX_TICK_MS,
                world_wf(*old(w)),
            decreases n - i,
        {
            let mut b: Ball = w.balls[i];
            resolve_and_move(&mut b, dt);
            w.balls.set(i, b);
            i = i + 1;
        }
        proof {
            assert(w.balls@ =~= Seq::new(
                old(w).balls@.len(),
                |j: int| resolve_step(old(w).balls@[j], dt as int),
            ));
            assert(view_of(*w) =~= movement_pass_spec(view_of(*old(w)), dt as int));
        }
    } else {
        proof {
            assert(view_of(*w) =~= movement_pass_spec(view_of(*old(w)), dt as int));
        }
    }
}

// ------------------------------------------------------------- rotation

/// The rotation pass: while playing, every ball's angle advances in its
/// spin direction.
pub open spec fn rotation_pass_spec(v: WorldView, dt: int) -> WorldView {
    if v.state == GameState::Playing {
        WorldView {
            balls: Seq::new(
                v.balls.len(),
                |i: int| Ball { rotation: rotation_step(v.balls[i], dt) as i64, ..v.balls[i] },
            ),
            ..v
        }
    } else {
        v
    }
}

pub fn ball_rotation_pass(w: &mut World, dt: u64)
    requires
        world_wf(*old(w)),
        dt <= MAX_TICK_MS,
    ensures
        view_of(*final(w)) == rotation_pass_spec(view_of(*old(w)), dt as int),
        world_wf(*final(w)),
{
    if matches!(w.state, GameState::Playing) {
        let n: usize = w.balls.len();
        let mut i: usize = 0;
        while i < n
            invariant
                0 <= i <= n,
                n == w.balls@.len(),
                n == old(w).balls@.len(),
                forall|j: int|
                    0 <= j < i ==> w.balls@[j] == (Ball {
                        rotation: rotation_step(#[trigger] old(w).balls@[j], dt as int) as i64,
                        ..old(w).balls@[j]
                    }),
                forall|j: int| i <= j < n ==> #[trigger] w.balls@[j] == old(w).balls@[j],
                forall|j: int| 0 <= j < n ==> ball_wf(#[trigger] w.balls@[j]),
                w.state == old(w).state,
                w.score == old(w).score,
                w.obstacles == old(w).obstacles,
                w.remnants == old(w).remnants,
                w.combo_left == old(w).combo_left,
                w.combo_right == old(w).combo_right,
                w.paddle_speed == old(w).paddle_speed,
                dt <= MAX_TICK_MS,
                world_wf(*old(w)),
            decreases n - i,
        {
            let mut b: Ball = w.balls[i];
            rotate_ball(&mut b, dt);
            w.balls.set(i, b);
            i = i + 1;
        }
        proof {
            assert(w.balls@ =~= Seq::new(
                old(w).balls@.len(),
                |j: int| Ball {
                    rotation: rotation_step(old(w).balls@[j], dt as int) as i64,
                    ..old(w).balls@[j]
                },
            ));
            assert(view_of(*w) =~= rotation_pass_spec(view_of(*old(w)), dt as int));
        }
    } else {
        proof {
            assert(view_of(*w) =~= rotation_pass_spec(view_of(*old(w)), dt as int));
        }
    }
}

// ---------------------------------------------------------------- trail

/// The trail ghost a ball leaves behind: the ball's rectangle, coloured
/// four tenths of the way toward white, fading over the trail lifetime.
pub open spec fn trail_remnant_spec(b: Ball) -> Remnant {
    let c = lerp_rgba_spec(b.color, Rgba { red: 1000, green: 1000, blue: 1000, alpha: 1000 }, 400);
    Remnant {
        rect: Rect { center: b.pos, half: b.half },
        color: c,
        starting_color: c,
        fade_out_time: TRAIL_FADE_MS,
    }
}

/// The trail pass: while playing, every ball leaves one ghost at its
/// current position.
pub open spec fn trail_pass_spec(v: WorldView) -> WorldView {
    if v.state == GameState::Playing {
        WorldView {
            remnants: v.remnants + Seq::new(v.balls.len(), |i: int| trail_remnant_spec(v.balls[i])),
            ..v
        }
    } else {
        v
    }
}

pub fn ball_trail_pass(w: &mut World)
    requires
        world_wf(*old(w)),
    ensures
        view_of(*final(w)) == trail_pass_spec(view_of(*old(w))),
        world_wf(*final(w)),
{
    if matches!(w.state, GameState::Playing) {
        let n: usize = w.balls.len();
        let mut i: usize = 0;
        while i < n
            invariant
                0 <= i <= n,
                n == w.balls@.len(),
                w.balls == old(w).balls,
                w.remnants@ == old(w).remnants@ + Seq::new(
                    i as nat,
                    |j: int| trail_remnant_spec(old(w).balls@[j]),
                ),
                w.state == old(w).state,
                w.score == old(w).score,
                w.obstacles == old(w).obstacles,
                w.combo_left == old(w).combo_left,
                w.combo_right == old(w).combo_right,
                w.paddle_speed == old(w).paddle_speed,
                world_wf(*old(w)),
            decreases n - i,
        {
            let b: Ball = w.balls[i];
            let white: Rgba = Rgba { red: 1000, green: 1000, blue: 1000, alpha: 1000 };
            let c: Rgba = lerp_rgba(b.color, white, 400);
            w.remnants.push(Remnant {
                rect: Rect { center: b.pos, half: b.half },
                color: c,
                starting_color: c,
                fade_out_time: TRAIL_FADE_MS,
            });
            proof {
                assert(w.remnants@ =~= old(w).remnants@ + Seq::new(
                    (i + 1) as nat,
                    |j: int| trail_remnant_spec(old(w).balls@[j]),
                ));
            }
            i = i + 1;
        }
        proof {
            assert(w.remnants@ =~= old(w).remnants@ + Seq::new(
                old(w).balls@.len(),
                |j: int| trail_remnant_spec(old(w).balls@[j]),
            ));
            assert(view_of(*w) =~= trail_pass_spec(view_of(*old(w))));
            assert forall|k: int|
                0 <= k < w.remnants@.len() implies remnant_wf(#[trigger] w.remnants@[k]) by {
                if k >= old(w).remnants@.len() {
                    assert(w.remnants@[k] == trail_remnant_spec(
                        old(w).balls@[k - old(w).remnants@.len()],
                    ));
                }
            };
        }
    } else {
        proof {
            assert(view_of(*w) =~= trail_pass_spec(view_of(*old(w))));
        }
    }
}

// ----------------------------------------------------------------- fade

/// One fade tick for one remnant: the lifetime shrinks by `dt`; while some
/// remains, the colour is the starting colour with its alpha set to the
/// remaining fraction of the full despawn time; at or below zero the
/// remnant is removed.
pub open spec fn fade_step_spec(r: Remnant, dt: int) -> Option<Remnant> {
    if r.fade_out_time - dt > 0 {
        Some(
            Remnant {
                fade_out_time: (r.fade_out_time - dt) as i64,
                color: crate::color::faded_spec(
                    r.starting_color,
                    r.fade_out_time - dt,
                    DESPAWN_TIME_MS as int,
                ),
                ..r
            },
        )
    } else {
        None
    }
}

pub open spec fn faded_remnants(s: Seq<Remnant>, dt: int) -> Seq<Remnant>
    decreases s.len(),
{
    if s.len() == 0 {
        Seq::empty()
    } else {
        let rest = faded_remnants(s.drop_last(), dt);
        match fade_step_spec(s.last(), dt) {
            Some(r) => rest.push(r),
            None => rest,
        }
    }
}

/// The fade pass: runs except while paused or restarting.
pub open spec fn fade_pass_spec(v: WorldView, dt: int) -> WorldView {
    if v.state != GameState::Paused && v.state != GameState::Restarting {
        WorldView { remnants: faded_remnants(v.remnants, dt), ..v }
    } else {
        v
    }
}

pub fn fade_out_pass(w: &mut World, dt: u64)
    requires
        world_wf(*old(w)),
        dt <= MAX_TICK_MS,
    ensures
        view_of(*final(w)) == fade_pass_spec(view_of(*old(w)), dt as int),
        world_wf(*final(w)),
{
    if !matches!(w.state, GameState::Paused) && !matches!(w.state, GameState::Restarting) {
        let n: usize = w.remnants.len();
        let mut out: Vec<Remnant> = Vec::new();
        let mut i: usize = 0;
        while i < n
            invariant
                0 <= i <= n,
                n == w.remnants@.len(),
                w.remnants == old(w).remnants,
                out@ == faded_remnants(w.remnants@.take(i as int), dt as int),
                forall|k: int| 0 <= k < out@.len() ==> remnant_wf(#[trigger] out@[k]),
                world_wf(*old(w)),
                dt <= MAX_TICK_MS,
            decreases n - i,
        {
            proof {
                assert(w.remnants@.take(i + 1).drop_last() =~= w.remnants@.take(i as int));
                assert(w.remnants@.take(i + 1).last() == w.remnants@[i as int]);
            }
            let r: Remnant = w.remnants[i];
            let t: i64 = r.fade_out_time - (dt as i64);
            if t > 0 {
                let c: Rgba = crate::color::faded(r.starting_color, t, DESPAWN_TIME_MS);
                out.push(Remnant { fade_out_time: t, color: c, ..r });
            }
            i = i + 1;
        }
        proof {
            assert(w.remnants@.take(n as int) =~= w.remnants@);
        }
        w.remnants = out;
        proof {
            assert(view_of(*w) =~= fade_pass_spec(view_of(*old(w)), dt as int));
        }
    } else {
        proof {
            assert(view_of(*w) =~= fade_pass_spec(view_of(*old(w)), dt as int));
        }
    }
}

// ------------------------------------------------------------ win check

/// The win check: the tick on which the live brick count reaches zero
/// while playing moves the state to Win; it fires only from Playing, so it
/// fires once.
pub open spec fn win_check_spec(v: WorldView) -> WorldView {
    if crate::world::live_brick_count(v.obstacles) == 0 && v.state == GameState::Playing {
        WorldView { state: GameState::Win, ..v }
    } else {
        v
    }
}

pub fn check_win_condition(w: &mut World)
    requires
        world_wf(*old(w)),
    ensures
        view_of(*final(w)) == win_check_spec(view_of(*old(w))),
        world_wf(*final(w)),
{
    let bricks: usize = crate::world::count_live_bricks(&w.obstacles);
    if bricks == 0 && matches!(w.state, GameState::Playing) {
        w.state = GameState::Win;
    }
    proof {
        assert(view_of(*w) =~= win_check_spec(view_of(*old(w))));
    }
}

/// Law: while bricks remain live, the win check never moves the state.
pub proof fn lemma_bricks_left_no_win(v: WorldView)
    requires
        crate::world::live_brick_count(v.obstacles) > 0,
    ensures
        win_check_spec(v) == v,
{
}

// ----------------------------------------------------------------- reap

/// A brick destroyed this tick: its liveness is gone but its collider has
/// not yet been retired.
pub open spec fn reaped_brick(o: Obstacle) -> bool {
    o.kind == Collider::Brick && !o.brick_alive && o.collider_on
}

/// The remnant a destroyed brick leaves: the brick's rectangle, still in
/// the brick's colour, decaying from white over the full despawn lifetime.
pub open spec fn brick_remnant_spec(o: Obstacle) -> Remnant {
    Remnant {
        rect: o.rect,
        color: o.color,
        starting_color: Rgba { red: 1000, green: 1000, blue: 1000, alpha: 1000 },
        fade_out_time: DESPAWN_TIME_MS,
    }
}

/// The remnant a fallen ball leaves: the ball's rectangle and colour, with
/// the full despawn lifetime.
pub open spec fn ball_remnant_spec(b: Ball) -> Remnant {
    Remnant {
        rect: Rect { center: b.pos, half: b.half },
        color: b.color,
        starting_color: b.color,
        fade_out_time: DESPAWN_TIME_MS,
    }
}

/// The obstacles with this tick's destroyed bricks retired from collision.
pub open spec fn swept_obstacles(obs: Seq<Obstacle>) -> Seq<Obstacle> {
    Seq::new(
        obs.len(),
        |i: int| if reaped_brick(obs[i]) {
            Obstacle { collider_on: false, ..obs[i] }
        } else {
            obs[i]
        },
    )
}

/// The remnants of this tick's destroyed bricks, in obstacle order.
pub open spec fn brick_remnants(obs: Seq<Obstacle>) -> Seq<Remnant>
    decreases obs.len(),
{
    if obs.len() == 0 {
        Seq::empty()
    } else {
        let rest = brick_remnants(obs.drop_last());
        if reaped_brick(obs.last()) {
            rest.push(brick_remnant_spec(obs.last()))
        } else {
            rest
        }
    }
}

/// The remnants of this tick's fallen balls, in ball order.
pub open spec fn ball_remnants(balls: Seq<Ball>) -> Seq<Remnant>
    decreases balls.len(),
{
    if balls.len() == 0 {
        Seq::empty()
    } else {
        let rest = ball_remnants(balls.drop_last());
        if !balls.last().in_play {
            rest.push(ball_remnant_spec(balls.last()))
        } else {
            rest
        }
    }
}

/// The balls still in play, in order.
pub open spec fn live_balls(balls: Seq<Ball>) -> Seq<Ball>
    decreases balls.len(),
{
    if balls.len() == 0 {
        Seq::empty()
    } else {
        let rest = live_balls(balls.drop_last());
        if balls.last().in_play {
            rest.push(balls.last())
        } else {
            rest
        }
    }
}

/// The end-of-tick reaping: destroyed bricks retire from collision and
/// leave remnants, fallen balls leave remnants and disappear from play.
pub open spec fn reap_spec(v: WorldView) -> WorldView {
    WorldView {
        balls: live_balls(v.balls),
        obstacles: swept_obstacles(v.obstacles),
        remnants: v.remnants + brick_remnants(v.obstacles) + ball_remnants(v.balls),
        ..v
    }
}

pub fn reap_destroyed(w: &mut World)
    requires
        world_wf(*old(w)),
    ensures
        view_of(*final(w)) == reap_spec(view_of(*old(w))),
        world_wf(*final(w)),
        crate::world::world_normalized(*final(w)),
{
    let n_obs: usize = w.obstacles.len();
    let mut i: usize = 0;
    while i < n_obs
        invariant
            0 <= i <= n_obs,
            n_obs == w.obstacles@.len(),
            n_obs == old(w).obstacles@.len(),
            forall|j: int|
                0 <= j < i ==> w.obstacles@[j] == swept_obstacles(old(w).obstacles@)[j],
            forall|j: int| i <= j < n_obs ==> #[trigger] w.obstacles@[j] == old(w).obstacles@[j],
            w.remnants@ == old(w).remnants@ + brick_remnants(old(w).obstacles@.take(i as int)),
            forall|k: int| 0 <= k < w.remnants@.len() ==> remnant_wf(#[trigger] w.remnants@[k]),
            w.balls == old(w).balls,
            w.state == old(w).state,
            w.score == old(w).score,
            w.combo_left == old(w).combo_left,
            w.combo_right == old(w).combo_right,
            w.paddle_speed == old(w).paddle_speed,
            world_wf(*old(w)),
        decreases n_obs - i,
    {
        proof {
            assert(old(w).obstacles@.take(i + 1).drop_last() =~= old(w).obstacles@.take(i as int));
            assert(old(w).obstacles@.take(i + 1).last() == old(w).obstacles@[i as int]);
        }
        let o: Obstacle = w.obstacles[i];
        if matches!(o.kind, Collider::Brick) && !o.brick_alive && o.collider_on {
            w.remnants.push(Remnant {
                rect: o.rect,
                color: o.color,
                starting_color: Rgba { red: 1000, green: 1000, blue: 1000, alpha: 1000 },
                fade_out_time: DESPAWN_TIME_MS,
            });
            w.obstacles.set(i, Obstacle { collider_on: false, ..o });
        }
        i = i + 1;
    }
    proof {
        assert(old(w).obstacles@.take(n_obs as int) =~= old(w).obstacles@);
        assert(w.obstacles@ =~= swept_obstacles(old(w).obstacles@));
    }
    let ghost mid_remnants = w.remnants@;
    let n_balls: usize = w.balls.len();
    let mut out: Vec<Ball> = Vec::new();
    let mut k: usize = 0;
    while k < n_balls
        invariant
            0 <= k <= n_balls,
            n_balls == w.balls@.len(),
            w.balls == old(w).balls,
            out@ == live_balls(w.balls@.take(k as int)),
            w.remnants@ == mid_remnants + ball_remnants(w.balls@.take(k as int)),
            forall|j: int| 0 <= j < w.remnants@.len() ==> remnant_wf(#[trigger] w.remnants@[j]),
            forall|j: int| 0 <= j < out@.len() ==> ball_wf(#[trigger] out@[j]),
            forall|j: int| 0 <= j < out@.len() ==> (#[trigger] out@[j]).in_play,
            w.obstacles@ == swept_obstacles(old(w).obstacles@),
            w.state == old(w).state,
            w.score == old(w).score,
            w.combo_left == old(w).combo_left,
            w.combo_right == old(w).combo_right,
            w.paddle_speed == old(w).paddle_speed,
            world_wf(*old(w)),
        decreases n_balls - k,
    {
        proof {
            assert(w.balls@.take(k + 1).drop_last() =~= w.balls@.take(k as int));
            assert(w.balls@.take(k + 1).last() == w.balls@[k as int]);
        }
        let b: Ball = w.balls[k];
        if b.in_play {
            out.push(b);
        } else {
            w.remnants.push(Remnant {
                rect: Rect { center: b.pos, half: b.half },
                color: b.color,
                starting_color: b.color,
                fade_out_time: DESPAWN_TIME_MS,
            });
        }
        k = k + 1;
    }
    proof {
        assert(w.balls@.take(n_balls as int) =~= w.balls@);
    }
    w.balls = out;
    proof {
        assert(view_of(*w) =~= reap_spec(view_of(*old(w))));
        assert forall|j: int|
            0 <= j < w.obstacles@.len() && (#[trigger] w.obstacles@[j]).kind == Collider::Brick
            && w.obstacles@[j].collider_on implies w.obstacles@[j].brick_alive by {
            assert(w.obstacles@[j] == swept_obstacles(old(w).obstacles@)[j]);
        };
        assert forall|j: int|
            0 <= j < w.obstacles@.len() implies obstacle_wf(#[trigger] w.obstacles@[j]) by {
            assert(w.obstacles@[j] == swept_obstacles(old(w).obstacles@)[j]);
            assert(obstacle_wf(old(w).obstacles@[j]));
        };
    }
}

// ------------------------------------------------------------ collision

/// The rectangle a ball occupies.
pub open spec fn ball_rect(b: Ball) -> Rect {
    Rect { center: b.pos, half: b.half }
}

/// The first obstacle at or after `i`, in list order, whose collider is on
/// and which the ball will overlap by the end of the tick. Scanning stops
/// at the first hit: a simultaneous second contact is dropped (a known
/// compromise, kept as documented behaviour).
pub open spec fn first_hit_from(b: Ball, obs: Seq<Obstacle>, dt: int, i: int) -> Option<int>
    decreases obs.len() - i,
{
    if i < 0 || i >= obs.len() {
        None
    } else if obs[i].collider_on && detect_spec(ball_rect(b), b.vel, obs[i].rect, dt) is Some {
        Some(i)
    } else {
        first_hit_from(b, obs, dt, i + 1)
    }
}

/// The scoreboard after one brick: one more point, stopping at the
/// counter's ceiling.
pub open spec fn score_bump(s: u64) -> u64 {
    if s < u64::MAX {
        (s + 1) as u64
    } else {
        s
    }
}

/// The side effects of ball `bi` striking obstacle `oi`: the paddle stores
/// spin and contact offset on a falling top-face hit; the bottom wall takes
/// the ball out of play and, if it was the last one, loses the round on the
/// spot without recording the collision; a brick dies and scores one point.
/// In every other outcome the collision is recorded on the ball for the
/// resolver, along with the collider kind and colour.
pub open spec fn apply_hit(v: WorldView, dt: int, bi: int, oi: int) -> WorldView {
    let b = v.balls[bi];
    let o = v.obstacles[oi];
    let outcome = outcome_spec(ball_rect(b), b.vel, o.rect, dt);
    let pend = PendingCollision { outcome, collider: o.kind, color: o.color };
    match o.kind {
        Collider::Paddle => {
            let b2 = if outcome.y == CollisionY::Top && b.vel.y < 0 {
                Ball {
                    spin: if b.pos.x < o.rect.center.x {
                        Spin::CounterCw
                    } else {
                        Spin::Clockwise
                    },
                    last_paddle_offset: (b.pos.x - o.rect.center.x) as i64,
                    ..b
                }
            } else {
                b
            };
            WorldView { balls: v.balls.update(bi, Ball { collided: Some(pend), ..b2 }), ..v }
        },
        Collider::BottomWall => {
            let b2 = Ball { in_play: false, ..b };
            if live_ball_count(v.balls.update(bi, b2)) == 0 {
                WorldView { balls: v.balls.update(bi, b2), state: GameState::Lose, ..v }
            } else {
                WorldView { balls: v.balls.update(bi, Ball { collided: Some(pend), ..b2 }), ..v }
            }
        },
        Collider::Brick => WorldView {
            balls: v.balls.update(bi, Ball { collided: Some(pend), ..b }),
            obstacles: v.obstacles.update(oi, Obstacle { brick_alive: false, ..o }),
            score: score_bump(v.score),
            ..v
        },
        Collider::OtherWall => WorldView {
            balls: v.balls.update(bi, Ball { collided: Some(pend), ..b }),
            ..v
        },
    }
}

/// One ball's scan of the obstacle list.
pub open spec fn scan_ball(v: WorldView, dt: int, bi: int) -> WorldView {
    match first_hit_from(v.balls[bi], v.obstacles, dt, 0) {
        None => v,
        Some(oi) => apply_hit(v, dt, bi, oi),
    }
}

/// The collision pass folded over the first `k` balls; a round lost along
/// the way aborts the rest of the scan.
pub open spec fn pass_upto(v0: WorldView, dt: int, k: int) -> WorldView
    decreases k,
{
    if k <= 0 {
        v0
    } else {
        let prev = pass_upto(v0, dt, k - 1);
        if prev.state != GameState::Playing {
            prev
        } else {
            scan_ball(prev, dt, k - 1)
        }
    }
}

/// The collision detection pass: while playing, each ball in order scans
/// the obstacles for its first hit and the hit's side effects apply.
pub open spec fn collision_pass_spec(v: WorldView, dt: int) -> WorldView {
    if v.state != GameState::Playing {
        v
    } else {
        pass_upto(v, dt, v.balls.len() as int)
    }
}

/// Law: once the round is lost mid-pass, the rest of the scan does nothing.
pub proof fn lemma_pass_stops_when_not_playing(v0: WorldView, dt: int, k1: int, k2: int)
    requires
        0 <= k1 <= k2,
        pass_upto(v0, dt, k1).state != GameState::Playing,
    ensures
        pass_upto(v0, dt, k2) == pass_upto(v0, dt, k1),
    decreases k2,
{
    if k2 > k1 {
        lemma_pass_stops_when_not_playing(v0, dt, k1, k2 - 1);
    }
}

/// Law: whatever obstacle a scan reports was taking part in collision: an
/// obstacle whose collider is off is never hit.
pub proof fn lemma_hit_obstacle_is_on(b: Ball, obs: Seq<Obstacle>, dt: int, i: int, oi: int)
    requires
        first_hit_from(b, obs, dt, i) == Some(oi),
    ensures
        0 <= oi < obs.len(),
        obs[oi].collider_on,
    decreases obs.len() - i,
{
    if !(i < 0 || i >= obs.len()) {
        if obs[i].collider_on && detect_spec(ball_rect(b), b.vel, obs[i].rect, dt) is Some {
        } else {
            lemma_hit_obstacle_is_on(b, obs, dt, i + 1, oi);
        }
    }
}

/// Law: a destroyed brick is never scored twice. In a world where every
/// brick that still collides is live, a scan that hits a brick hits a live
/// one; the hit takes exactly one point and leaves the brick dead, and a
/// dead brick — its collider retired at the end of that tick — cannot be
/// hit again.
pub proof fn lemma_no_double_score(v: WorldView, dt: int, bi: int, oi: int)
    requires
        forall|i: int|
            0 <= i < v.obstacles.len() ==> ((#[trigger] v.obstacles[i]).kind == Collider::Brick
                && v.obstacles[i].collider_on ==> v.obstacles[i].brick_alive),
        0 <= bi < v.balls.len(),
        first_hit_from(v.balls[bi], v.obstacles, dt, 0) == Some(oi),
        v.obstacles[oi].kind == Collider::Brick,
    ensures
        v.obstacles[oi].brick_alive,
        apply_hit(v, dt, bi, oi).score == score_bump(v.score),
        !apply_hit(v, dt, bi, oi).obstacles[oi].brick_alive,
{
    lemma_hit_obstacle_is_on(v.balls[bi], v.obstacles, dt, 0, oi);
}

fn find_first_hit(b: &Ball, obstacles: &Vec<Obstacle>, dt: u64) -> (r: Option<
    (usize, CollisionOutcome),
>)
    requires
        ball_wf(*b),
        forall|i: int| 0 <= i < obstacles@.len() ==> obstacle_wf(#[trigger] obstacles@[i]),
        dt <= MAX_TICK_MS,
    ensures
        match r {
            None => first_hit_from(*b, obstacles@, dt as int, 0) is None,
            Some((oi, outc)) => {
                &&& first_hit_from(*b, obstacles@, dt as int, 0) == Some(oi as int)
                &&& oi < obstacles@.len()
                &&& outc == outcome_spec(
                    ball_rect(*b),
                    b.vel,
                    obstacles@[oi as int].rect,
                    dt as int,
                )
            },
        },
{
    let n: usize = obstacles.len();
    let mut i: usize = 0;
    while i < n
        invariant
            0 <= i <= n,
            n == obstacles@.len(),
            first_hit_from(*b, obstacles@, dt as int, 0) == first_hit_from(
                *b,
                obstacles@,
                dt as int,
                i as int,
            ),
            ball_wf(*b),
            forall|j: int| 0 <= j < obstacles@.len() ==> obstacle_wf(#[trigger] obstacles@[j]),
            dt <= MAX_TICK_MS,
        decreases n - i,
    {
        let o: Obstacle = obstacles[i];
        if o.collider_on {
            let rect: Rect = Rect { center: b.pos, half: b.half };
            let found: Option<CollisionOutcome> = detect(&rect, &b.vel, &o.rect, dt);
            match found {
                Some(outc) => {
                    return Some((i, outc));
                },
                None => {},
            }
        }
        i = i + 1;
    }
    None
}

pub fn ball_collision_pass(w: &mut World, dt: u64)
    requires
        world_wf(*old(w)),
        dt <= MAX_TICK_MS,
    ensures
        view_of(*final(w)) == collision_pass_spec(view_of(*old(w)), dt as int),
        world_wf(*final(w)),
{
    if !matches!(w.state, GameState::Playing) {
        proof {
            assert(view_of(*w) =~= collision_pass_spec(view_of(*old(w)), dt as int));
        }
        return;
    }
    let ghost v0 = view_of(*old(w));
    let n: usize = w.balls.len();
    let mut bi: usize = 0;
    while bi < n
        invariant_except_break
            0 <= bi <= n,
            n == w.balls@.len(),
            view_of(*w) == pass_upto(v0, dt as int, bi as int),
            w.state == GameState::Playing,
            v0 == view_of(*old(w)),
            world_wf(*w),
            world_wf(*old(w)),
            dt <= MAX_TICK_MS,
        ensures
            view_of(*w) == pass_upto(v0, dt as int, n as int),
            world_wf(*w),
        decreases n - bi,
    {
        let ghost vcur = view_of(*w);
        let b: Ball = w.balls[bi];
        let hit: Option<(usize, CollisionOutcome)> = find_first_hit(&b, &w.obstacles, dt);
        match hit {
            None => {},
            Some((oi, outc)) => {
                let o: Obstacle = w.obstacles[oi];
                proof {
                    assert(outc == outcome_spec(ball_rect(b), b.vel, o.rect, dt as int));
                    assert(site_wf(outc.x_site as int) && site_wf(outc.y_site as int));
                }
                let pend: PendingCollision = PendingCollision {
                    outcome: outc,
                    collider: o.kind,
                    color: o.color,
                };
                if matches!(o.kind, Collider::Paddle) {
                    let mut b2: Ball = b;
                    if matches!(outc.y, CollisionY::Top) && b.vel.y < 0 {
                        b2.spin = if b.pos.x < o.rect.center.x {
                            Spin::CounterCw
                        } else {
                            Spin::Clockwise
                        };
                        b2.last_paddle_offset = b.pos.x - o.rect.center.x;
                    }
                    b2.collided = Some(pend);
                    w.balls.set(bi, b2);
                } else if matches!(o.kind, Collider::BottomWall) {
                    let mut b2: Ball = b;
                    b2.in_play = false;
                    w.balls.set(bi, b2);
                    let live: usize = count_live_balls(&w.balls);
                    if live == 0 {
                        w.state = GameState::Lose;
                        proof {
                            assert(view_of(*w) =~= pass_upto(v0, dt as int, bi + 1));
                            lemma_pass_stops_when_not_playing(v0, dt as int, bi + 1, n as int);
                        }
                        break;
                    } else {
                        b2.collided = Some(pend);
                        w.balls.set(bi, b2);
                    }
                } else if matches!(o.kind, Collider::Brick) {
                    w.obstacles.set(oi, Obstacle { brick_alive: false, ..o });
                    w.score = if w.score < u64::MAX {
                        w.score + 1
                    } else {
                        w.score
                    };
                    let mut b2: Ball = b;
                    b2.collided = Some(pend);
                    w.balls.set(bi, b2);
                } else {
                    let mut b2: Ball = b;
                    b2.collided = Some(pend);
                    w.balls.set(bi, b2);
                }
            },
        }
        proof {
            assert(view_of(*w) =~= pass_upto(v0, dt as int, bi + 1));
        }
        bi = bi + 1;
    }
    proof {
        assert(view_of(*w) =~= collision_pass_spec(v0, dt as int));
    }
}

// --------------------------------------------------------------- colour

/// Every paddle repainted with the given colour.
pub open spec fn paddles_recolored(obs: Seq<Obstacle>, c: Rgba) -> Seq<Obstacle> {
    Seq::new(
        obs.len(),
        |i: int| if obs[i].kind == Collider::Paddle {
            Obstacle { color: c, ..obs[i] }
        } else {
            obs[i]
        },
    )
}

/// The colour feedback for one ball's recorded collision: a brick blends
/// the ball's colour halfway toward the brick's; a top-face paddle hit
/// paints every paddle with the ball's colour; walls change nothing.
pub open spec fn color_ball_step(v: WorldView, bi: int) -> WorldView {
    let b = v.balls[bi];
    match b.collided {
        None => v,
        Some(p) => match p.collider {
            Collider::Brick => WorldView {
                balls: v.balls.update(
                    bi,
                    Ball { color: lerp_rgba_spec(b.color, p.color, 500), ..b },
                ),
                ..v
            },
            Collider::Paddle => if p.outcome.y == CollisionY::Top {
                WorldView { obstacles: paddles_recolored(v.obstacles, b.color), ..v }
            } else {
                v
            },
            _ => v,
        },
    }
}

pub open spec fn recolored_upto(v: WorldView, k: int) -> WorldView
    decreases k,
{
    if k <= 0 {
        v
    } else {
        color_ball_step(recolored_upto(v, k - 1), k - 1)
    }
}

/// The colour feedback pass: runs except while paused.
pub open spec fn color_pass_spec(v: WorldView) -> WorldView {
    if v.state != GameState::Paused {
        recolored_upto(v, v.balls.len() as int)
    } else {
        v
    }
}

pub fn change_color_pass(w: &mut World)
    requires
        world_wf(*old(w)),
    ensures
        view_of(*final(w)) == color_pass_spec(view_of(*old(w))),
        world_wf(*final(w)),
{
    if matches!(w.state, GameState::Paused) {
        proof {
            assert(view_of(*w) =~= color_pass_spec(view_of(*old(w))));
        }
        return;
    }
    let ghost v0 = view_of(*old(w));
    let n: usize = w.balls.len();
    let mut bi: usize = 0;
    while bi < n
        invariant
            0 <= bi <= n,
            n == w.balls@.len(),
            view_of(*w) == recolored_upto(v0, bi as int),
            v0 == view_of(*old(w)),
            w.state == old(w).state,
            world_wf(*w),
        decreases n - bi,
    {
        let ghost vcur = view_of(*w);
        let b: Ball = w.balls[bi];
        match b.collided {
            Some(p) => {
                if matches!(p.collider, Collider::Brick) {
                    let c: Rgba = lerp_rgba(b.color, p.color, 500);
                    let mut b2: Ball = b;
                    b2.color = c;
                    w.balls.set(bi, b2);
                } else if matches!(p.collider, Collider::Paddle) && matches!(
                    p.outcome.y,
                    CollisionY::Top,
                ) {
                    let m: usize = w.obstacles.len();
                    let mut oi: usize = 0;
                    while oi < m
                        invariant
                            0 <= oi <= m,
                            m == w.obstacles@.len(),
                            m == vcur.obstacles.len(),
                            forall|j: int|
                                0 <= j < oi ==> w.obstacles@[j] == paddles_recolored(
                                    vcur.obstacles,
                                    b.color,
                                )[j],
                            forall|j: int|
                                oi <= j < m ==> #[trigger] w.obstacles@[j] == vcur.obstacles[j],
                            w.balls@ == vcur.balls,
                            w.state == vcur.state,
                            w.score == vcur.score,
                            w.remnants@ == vcur.remnants,
                            w.combo_left == vcur.combo_left,
                            w.combo_right == vcur.combo_right,
                            w.paddle_speed == vcur.paddle_speed,
                            rgba_wf(b.color),
                            forall|j: int|
                                0 <= j < w.balls@.len() ==> ball_wf(#[trigger] w.balls@[j]),
                            forall|j: int|
                                0 <= j < w.obstacles@.len() ==> obstacle_wf(
                                    #[trigger] w.obstacles@[j],
                                ),
                            forall|j: int|
                                0 <= j < w.remnants@.len() ==> remnant_wf(
                                    #[trigger] w.remnants@[j],
                                ),
                            combo_wf(w.combo_left),
                            combo_wf(w.combo_right),
                            0 <= w.paddle_speed <= 1000000,
                        decreases m - oi,
                    {
                        let o: Obstacle = w.obstacles[oi];
                        if matches!(o.kind, Collider::Paddle) {
                            w.obstacles.set(oi, Obstacle { color: b.color, ..o });
                        }
                        oi = oi + 1;
                    }
                    proof {
                        assert(w.obstacles@ =~= paddles_recolored(vcur.obstacles, b.color));
                    }
                }
            },
            None => {},
        }
        proof {
            assert(view_of(*w) =~= recolored_upto(v0, bi + 1));
        }
        bi = bi + 1;
    }
    proof {
        assert(view_of(*w) =~= color_pass_spec(v0));
    }
}

// --------------------------------------------------------------- paddle

/// One paddle's tick: a held direction key moves it at its configured
/// speed; an opposite held key resets the matching double-tap recogniser,
/// and a recognised double tap teleports the paddle by the dash distance;
/// the centre is then held inside the paddle bound. Each paddle steps the
/// recognisers once.
pub open spec fn paddle_step(v: WorldView, input: InputState, dt: int, oi: int) -> WorldView {
    let o = v.obstacles[oi];
    if o.kind != Collider::Paddle {
        v
    } else {
        let left = input.pressed@.contains(Key::Left);
        let right = input.pressed@.contains(Key::Right);
        let dir: int = (if left {
            -1int
        } else {
            0int
        }) + (if right {
            1int
        } else {
            0int
        });
        let cl2 = if right {
            reset_spec(v.combo_left)
        } else {
            combo_step(v.combo_left, input, dt)
        };
        let dash_l = if right {
            false
        } else {
            combo_step_done(v.combo_left, input, dt)
        };
        let cr2 = if left {
            reset_spec(v.combo_right)
        } else {
            combo_step(v.combo_right, input, dt)
        };
        let dash_r = if left {
            false
        } else {
            combo_step_done(v.combo_right, input, dt)
        };
        let x1 = o.rect.center.x + (if dash_l {
            -(DASH_DISTANCE as int)
        } else {
            0int
        }) + (if dash_r {
            DASH_DISTANCE as int
        } else {
            0int
        });
        let x2 = x1 + div_trunc(dir * v.paddle_speed * dt, 1000);
        let x3 = clamp_spec(x2, -(PADDLE_BOUND as int), PADDLE_BOUND as int);
        WorldView {
            obstacles: v.obstacles.update(
                oi,
                Obstacle {
                    rect: Rect {
                        center: Vec2 { x: x3 as i64, y: o.rect.center.y },
                        half: o.rect.half,
                    },
                    ..o
                },
            ),
            combo_left: cl2,
            combo_right: cr2,
            ..v
        }
    }
}

pub open spec fn paddle_upto(v: WorldView, input: InputState, dt: int, k: int) -> WorldView
    decreases k,
{
    if k <= 0 {
        v
    } else {
        paddle_step(paddle_upto(v, input, dt, k - 1), input, dt, k - 1)
    }
}

/// The paddle pass: while playing, each paddle obstacle takes its tick.
pub open spec fn paddle_pass_spec(v: WorldView, input: InputState, dt: int) -> WorldView {
    if v.state == GameState::Playing {
        paddle_upto(v, input, dt, v.obstacles.len() as int)
    } else {
        v
    }
}

pub fn paddle_movement_pass(w: &mut World, input: &InputState, dt: u64)
    requires
        world_wf(*old(w)),
        dt <= MAX_TICK_MS,
    ensures
        view_of(*final(w)) == paddle_pass_spec(view_of(*old(w)), *input, dt as int),
        world_wf(*final(w)),
{
    if !matches!(w.state, GameState::Playing) {
        proof {
            assert(view_of(*w) =~= paddle_pass_spec(view_of(*old(w)), *input, dt as int));
        }
        return;
    }
    let ghost v0 = view_of(*old(w));
    let n: usize = w.obstacles.len();
    let mut oi: usize = 0;
    while oi < n
        invariant
            0 <= oi <= n,
            n == w.obstacles@.len(),
            view_of(*w) == paddle_upto(v0, *input, dt as int, oi as int),
            v0 == view_of(*old(w)),
            w.state == GameState::Playing,
            world_wf(*w),
            dt <= MAX_TICK_MS,
        decreases n - oi,
    {
        let ghost vcur = view_of(*w);
        let o: Obstacle = w.obstacles[oi];
        if matches!(o.kind, Collider::Paddle) {
            let left: bool = input.is_pressed(Key::Left);
            let right: bool = input.is_pressed(Key::Right);
            let dir: i64 = (if left {
                -1i64
            } else {
                0i64
            }) + (if right {
                1i64
            } else {
                0i64
            });
            let mut x: i64 = o.rect.center.x;
            if right {
                w.combo_left.reset();
            } else if w.combo_left.done(input, dt) {
                x = x - DASH_DISTANCE;
            }
            if left {
                w.combo_right.reset();
            } else if w.combo_right.done(input, dt) {
                x = x + DASH_DISTANCE;
            }
            proof {
                assert(-1000000 <= (dir as int) * (w.paddle_speed as int)
                    <= 1000000) by (nonlinear_arith)
                    requires
                        -1 <= dir as int <= 1,
                        0 <= w.paddle_speed as int <= 1000000,
                ;
            }
            let ds: i64 = dir * w.paddle_speed;
            proof {
                assert(-200000000 <= (ds as int) * (dt as int) <= 200000000) by (nonlinear_arith)
                    requires
                        -1000000 <= ds as int <= 1000000,
                        0 <= dt as int <= 200,
                ;
            }
            let step: i64 = mul_div_trunc(ds, dt as i64, 1000);
            proof {
                if (ds as int) * (dt as int) >= 0 {
                    vstd::arithmetic::div_mod::lemma_div_is_ordered(
                        0,
                        (ds as int) * (dt as int),
                        1000,
                    );
                    vstd::arithmetic::div_mod::lemma_div_is_ordered(
                        (ds as int) * (dt as int),
                        200000000,
                        1000,
                    );
                } else {
                    vstd::arithmetic::div_mod::lemma_div_is_ordered(
                        0,
                        -((ds as int) * (dt as int)),
                        1000,
                    );
                    vstd::arithmetic::div_mod::lemma_div_is_ordered(
                        -((ds as int) * (dt as int)),
                        200000000,
                        1000,
                    );
                }
            }
            x = x + step;
            x = crate::num::clamp_i64(x, -PADDLE_BOUND, PADDLE_BOUND);
            w.obstacles.set(
                oi,
                Obstacle {
                    rect: Rect { center: Vec2 { x, y: o.rect.center.y }, half: o.rect.half },
                    ..o
                },
            );
            proof {
                assert((dir as int) * (vcur.paddle_speed as int) * (dt as int) == (ds as int) * (
                dt as int));
            }
        }
        proof {
            assert(view_of(*w) =~= paddle_upto(v0, *input, dt as int, oi + 1));
        }
        oi = oi + 1;
    }
    proof {
        assert(view_of(*w) =~= paddle_pass_spec(v0, *input, dt as int));
    }
}

// ------------------------------------------------------------- restart

/// Whether an obstacle outlives a restart: the walls do, the paddle and
/// bricks are respawned.
pub open spec fn kept_on_restart(o: Obstacle) -> bool {
    o.kind == Collider::BottomWall || o.kind == Collider::OtherWall
}

/// The obstacles that survive a restart, in order.
pub open spec fn walls_only(obs: Seq<Obstacle>) -> Seq<Obstacle>
    decreases obs.len(),
{
    if obs.len() == 0 {
        Seq::empty()
    } else {
        let rest = walls_only(obs.drop_last());
        if kept_on_restart(obs.last()) {
            rest.push(obs.last())
        } else {
            rest
        }
    }
}

/// The end-of-round cleanup: in the `Restarting` state every round entity
/// despawns, the walls persist, the scoreboard resets, a fresh round is
/// spawned, and the state returns to `Starting`. In any other state it
/// does nothing.
pub fn end_game_cleanup(w: &mut World)
    requires
        world_wf(*old(w)),
    ensures
        world_wf(*final(w)),
        old(w).state != GameState::Restarting ==> *final(w) == *old(w),
        old(w).state == GameState::Restarting ==> ({
            let v = view_of(*final(w));
            let walls = walls_only(old(w).obstacles@);
            &&& v.state == GameState::Starting
            &&& v.score == 0
            &&& v.remnants.len() == 0
            &&& v.balls.len() == 1
            &&& v.balls[0] == crate::world::initial_ball_spec()
            &&& v.paddle_speed == crate::world::PADDLE_SPEED
            &&& v.combo_left == old(w).combo_left
            &&& v.combo_right == old(w).combo_right
            &&& v.obstacles.len() == walls.len() + 21
            &&& v.obstacles.subrange(0, walls.len() as int) == walls
            &&& v.obstacles[walls.len() as int] == crate::world::initial_paddle_spec()
            &&& forall|k: int|
                0 <= k < 20 ==> crate::world::spawned_brick(
                    #[trigger] v.obstacles[walls.len() + 1 + k],
                    k,
                )
        }),
        crate::world::world_normalized(*old(w)) ==> crate::world::world_normalized(*final(w)),
        old(w).state == GameState::Restarting ==> crate::world::world_normalized(*final(w)),
{
    if matches!(w.state, GameState::Restarting) {
        w.balls = Vec::new();
        w.remnants = Vec::new();
        let n: usize = w.obstacles.len();
        let mut kept: Vec<Obstacle> = Vec::new();
        let mut i: usize = 0;
        while i < n
            invariant
                0 <= i <= n,
                n == w.obstacles@.len(),
                w.obstacles == old(w).obstacles,
                kept@ == walls_only(w.obstacles@.take(i as int)),
                forall|j: int| 0 <= j < kept@.len() ==> obstacle_wf(#[trigger] kept@[j]),
                forall|j: int| 0 <= j < kept@.len() ==> kept_on_restart(#[trigger] kept@[j]),
                world_wf(*old(w)),
            decreases n - i,
        {
            proof {
                assert(w.obstacles@.take(i + 1).drop_last() =~= w.obstacles@.take(i as int));
                assert(w.obstacles@.take(i + 1).last() == w.obstacles@[i as int]);
            }
            let o: Obstacle = w.obstacles[i];
            if matches!(o.kind, Collider::BottomWall) || matches!(o.kind, Collider::OtherWall) {
                kept.push(o);
            }
            i = i + 1;
        }
        proof {
            assert(w.obstacles@.take(n as int) =~= w.obstacles@);
        }
        w.obstacles = kept;
        w.score = 0;
        let ghost walls_view = w.obstacles@;
        w.spawn_round_entities();
        w.state = GameState::Starting;
        proof {
            let obs = w.obstacles@;
            let wl = walls_view.len() as int;
            assert forall|k: int|
                0 <= k < 20 implies crate::world::spawned_brick(#[trigger] obs[wl + 1 + k], k) by {
                assert(crate::world::spawned_brick(obs[walls_view.len() + 1 + k], k));
            };
            assert forall|j: int| 0 <= j < wl implies obs[j] == walls_view[j] by {
                assert(obs.subrange(0, wl)[j] == walls_view[j]);
            };
            assert(crate::ball::ball_wf(crate::world::initial_ball_spec()));
            assert(obstacle_wf(crate::world::initial_paddle_spec()));
            assert forall|j: int| 0 <= j < obs.len() implies obstacle_wf(#[trigger] obs[j]) by {
                if j > wl {
                    assert(crate::world::spawned_brick(obs[wl + 1 + (j - wl - 1)], j - wl - 1));
                    assert(0 <= (j - wl - 1) % 5 <= 4 && 0 <= (j - wl - 1) / 5 <= 3);
                }
            };
            assert forall|j: int|
                0 <= j < obs.len() && (#[trigger] obs[j]).kind == Collider::Brick
                && obs[j].collider_on implies obs[j].brick_alive by {
                if j > wl {
                    assert(crate::world::spawned_brick(obs[wl + 1 + (j - wl - 1)], j - wl - 1));
                }
            };
        }
    }
}

} // verus!
