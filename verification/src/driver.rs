//! The per-tick driver: one call advances the whole simulation by one
//! frame, applying the systems in a fixed order — input, collision
//! detection, colour feedback, ball resolution and movement, rotation,
//! trails, paddle movement, fade-out, the win check, the reaping of this
//! tick's destroyed entities, and the end-of-round cleanup. The raw time
//! delta is clamped once and used by every system.

use vstd::prelude::*;
use crate::ball::{Ball, Collider};
use crate::combo::{InputState, Key};
use crate::geom::MAX_TICK_MS;
use crate::state::{after_input, GameState};
use crate::systems::{
    ball_collision_pass, ball_movement_pass, ball_remnants, ball_rotation_pass, ball_trail_pass,
    brick_remnants, change_color_pass, check_win_condition, collision_pass_spec, color_pass_spec,
    end_game_cleanup, fade_out_pass, fade_pass_spec, first_hit_from, input_spec, kept_on_restart,
    live_balls, movement_pass_spec, paddle_movement_pass, paddle_pass_spec, pass_upto,
    reap_destroyed, reap_spec, reaped_brick, recolored_upto, rotation_pass_spec, scan_ball,
    start_pause_transition, swept_obstacles, trail_pass_spec, walls_only, win_check_spec,
};
use crate::world::{
    live_ball_count, view_of, world_normalized, world_wf, Obstacle, World, WorldView,
};

verus! {

/// The snapshot after the passes that follow the input system, in order.
pub open spec fn after_input_passes(v: WorldView, input: InputState, dt: int) -> WorldView {
    let v1 = collision_pass_spec(v, dt);
    let v2 = color_pass_spec(v1);
    let v3 = movement_pass_spec(v2, dt);
    let v4 = rotation_pass_spec(v3, dt);
    let v5 = trail_pass_spec(v4);
    let v6 = paddle_pass_spec(v5, input, dt);
    let v7 = fade_pass_spec(v6, dt);
    let v8 = win_check_spec(v7);
    reap_spec(v8)
}

/// One full tick on the snapshot, for ticks whose input does not call for a
/// restart: the raw delta is clamped once, the input moves the state
/// machine, and the remaining systems run in order.
pub open spec fn tick_spec(v: WorldView, input: InputState, dt_raw: int) -> WorldView {
    let dt = if dt_raw > MAX_TICK_MS as int {
        MAX_TICK_MS as int
    } else {
        dt_raw
    };
    after_input_passes(input_spec(v, input), input, dt)
}

/// The collision pass moves the state only to Lose.
pub proof fn lemma_pass_state(v0: WorldView, dt: int, k: int)
    ensures
        pass_upto(v0, dt, k).state == v0.state || pass_upto(v0, dt, k).state == GameState::Lose,
    decreases k,
{
    if k > 0 {
        lemma_pass_state(v0, dt, k - 1);
    }
}

/// The colour pass touches only ball colours and paddle colours: the state,
/// score, remnants, combos and speed are untouched, the obstacle list keeps
/// its length and kinds, and every non-paddle obstacle is untouched.
pub proof fn lemma_recolor_keeps_structure(v: WorldView, k: int)
    requires
        k <= v.balls.len(),
    ensures
        ({
            let r = recolored_upto(v, k);
            &&& r.state == v.state
            &&& r.score == v.score
            &&& r.remnants == v.remnants
            &&& r.combo_left == v.combo_left
            &&& r.combo_right == v.combo_right
            &&& r.paddle_speed == v.paddle_speed
            &&& r.balls.len() == v.balls.len()
            &&& r.obstacles.len() == v.obstacles.len()
            &&& forall|i: int|
                0 <= i < v.obstacles.len() ==> (#[trigger] r.obstacles[i]).kind
                    == v.obstacles[i].kind
            &&& forall|i: int|
                0 <= i < v.obstacles.len() && v.obstacles[i].kind != Collider::Paddle
                    ==> #[trigger] r.obstacles[i] == v.obstacles[i]
        }),
    decreases k,
{
    if k > 0 {
        lemma_recolor_keeps_structure(v, k - 1);
        let prev = recolored_upto(v, k - 1);
        let r = recolored_upto(v, k);
        let b = prev.balls[k - 1];
        match b.collided {
            None => {},
            Some(p) => {
                if p.collider == Collider::Paddle && p.outcome.y
                    == crate::collide::CollisionY::Top {
                    assert(r.obstacles == crate::systems::paddles_recolored(
                        prev.obstacles,
                        b.color,
                    ));
                    assert forall|i: int|
                        0 <= i < v.obstacles.len() implies (#[trigger] r.obstacles[i]).kind
                        == v.obstacles[i].kind && (v.obstacles[i].kind != Collider::Paddle
                        ==> r.obstacles[i] == v.obstacles[i]) by {
                        assert(r.obstacles[i] == crate::systems::paddles_recolored(
                            prev.obstacles,
                            b.color,
                        )[i]);
                    };
                }
            },
        }
    }
}

/// One paddle fold leaves the state, score, balls and remnants alone.
pub proof fn lemma_paddle_upto_keeps_rest(v: WorldView, input: InputState, dt: int, k: int)
    ensures
        ({
            let r = crate::systems::paddle_upto(v, input, dt, k);
            &&& r.state == v.state
            &&& r.score == v.score
            &&& r.balls == v.balls
            &&& r.remnants == v.remnants
        }),
    decreases k,
{
    if k > 0 {
        lemma_paddle_upto_keeps_rest(v, input, dt, k - 1);
    }
}

/// Two obstacle lists that agree on which entries survive a restart, and on
/// those entries themselves, keep the same walls.
pub proof fn lemma_walls_only_same(a: Seq<Obstacle>, b: Seq<Obstacle>)
    requires
        a.len() == b.len(),
        forall|i: int|
            0 <= i < a.len() ==> (kept_on_restart(#[trigger] a[i]) == kept_on_restart(b[i])
                && (kept_on_restart(a[i]) ==> a[i] == b[i])),
    ensures
        walls_only(a) == walls_only(b),
    decreases a.len(),
{
    if a.len() > 0 {
        lemma_walls_only_same(a.drop_last(), b.drop_last());
    }
}

/// A list of balls all in play is reaped to itself and leaves no remnants.
pub proof fn lemma_live_balls_all_in_play(balls: Seq<Ball>)
    requires
        forall|i: int| 0 <= i < balls.len() ==> (#[trigger] balls[i]).in_play,
    ensures
        live_balls(balls) == balls,
        ball_remnants(balls) == Seq::<crate::world::Remnant>::empty(),
    decreases balls.len(),
{
    if balls.len() > 0 {
        lemma_live_balls_all_in_play(balls.drop_last());
        assert(live_balls(balls) =~= balls);
    }
}

/// Obstacles with no freshly destroyed brick sweep to themselves and leave
/// no remnants.
pub proof fn lemma_no_bricks_to_reap(obs: Seq<Obstacle>)
    requires
        forall|i: int| 0 <= i < obs.len() ==> !reaped_brick(#[trigger] obs[i]),
    ensures
        swept_obstacles(obs) == obs,
        brick_remnants(obs) == Seq::<crate::world::Remnant>::empty(),
    decreases obs.len(),
{
    assert(swept_obstacles(obs) =~= obs);
    if obs.len() > 0 {
        lemma_no_bricks_to_reap(obs.drop_last());
    }
}

/// Law: reaping a snapshot with every ball in play and no freshly
/// destroyed brick changes nothing.
pub proof fn lemma_reap_identity(v: WorldView)
    requires
        forall|i: int| 0 <= i < v.balls.len() ==> (#[trigger] v.balls[i]).in_play,
        forall|i: int| 0 <= i < v.obstacles.len() ==> !reaped_brick(#[trigger] v.obstacles[i]),
    ensures
        reap_spec(v) == v,
{
    lemma_live_balls_all_in_play(v.balls);
    lemma_no_bricks_to_reap(v.obstacles);
    assert(v.remnants + brick_remnants(v.obstacles) + ball_remnants(v.balls) =~= v.remnants);
    assert(reap_spec(v) =~= v);
}

/// Law: the tick on which the live brick count reaches zero while playing
/// moves the state to Win; the check fires only from Playing, so a won
/// round announces itself exactly once.
pub proof fn lemma_no_bricks_wins(v: WorldView)
    requires
        v.state == GameState::Playing,
        crate::world::live_brick_count(v.obstacles) == 0,
    ensures
        win_check_spec(v).state == GameState::Win,
{
}

/// Law: when the last ball in play crosses the bottom wall, the round is
/// lost on the spot: the ball leaves play, its collision goes unrecorded,
/// and — by `lemma_pass_stops_when_not_playing` — the rest of that tick's
/// collision scan does nothing.
pub proof fn lemma_last_ball_lost_ends_round(v: WorldView, dt: int, bi: int, oi: int)
    requires
        v.state == GameState::Playing,
        0 <= bi < v.balls.len(),
        first_hit_from(v.balls[bi], v.obstacles, dt, 0) == Some(oi),
        0 <= oi < v.obstacles.len(),
        v.obstacles[oi].kind == Collider::BottomWall,
        live_ball_count(v.balls.update(bi, Ball { in_play: false, ..v.balls[bi] })) == 0,
    ensures
        scan_ball(v, dt, bi).state == GameState::Lose,
        !scan_ball(v, dt, bi).balls[bi].in_play,
        scan_ball(v, dt, bi).balls[bi].collided == v.balls[bi].collided,
{
}

/// Law: when a round's only ball crosses the bottom wall, the whole
/// collision pass ends with the round lost, the ball out of play, and the
/// collision unrecorded.
pub proof fn lemma_sole_ball_lost_loses_round(v: WorldView, dt: int, oi: int)
    requires
        v.state == GameState::Playing,
        v.balls.len() == 1,
        v.balls[0].in_play,
        first_hit_from(v.balls[0], v.obstacles, dt, 0) == Some(oi),
        0 <= oi < v.obstacles.len(),
        v.obstacles[oi].kind == Collider::BottomWall,
    ensures
        collision_pass_spec(v, dt).state == GameState::Lose,
        !collision_pass_spec(v, dt).balls[0].in_play,
        collision_pass_spec(v, dt).balls[0].collided == v.balls[0].collided,
{
    let b2 = Ball { in_play: false, ..v.balls[0] };
    let balls2 = v.balls.update(0, b2);
    assert(balls2.drop_last() =~= Seq::<Ball>::empty());
    assert(live_ball_count(Seq::<Ball>::empty()) == 0);
    assert(balls2.last() == b2);
    assert(live_ball_count(balls2) == 0);
    assert(pass_upto(v, dt, 0) == v);
    assert(pass_upto(v, dt, 1) == scan_ball(v, dt, 0));
}

/// Law: pausing performs no integration: a playing tick whose input
/// releases the primary key leaves every position, velocity, score and
/// remnant exactly as it was, and only the state moves to Paused.
pub proof fn lemma_pause_performs_no_integration(v: WorldView, input: InputState, dt_raw: int)
    requires
        v.state == GameState::Playing,
        input.just_released@.contains(Key::Space),
        forall|i: int| 0 <= i < v.balls.len() ==> (#[trigger] v.balls[i]).in_play,
        forall|i: int| 0 <= i < v.obstacles.len() ==> !reaped_brick(#[trigger] v.obstacles[i]),
    ensures
        tick_spec(v, input, dt_raw) == (WorldView { state: GameState::Paused, ..v }),
{
    let v1 = input_spec(v, input);
    assert(v1.state == GameState::Paused);
    lemma_reap_identity(v1);
    assert(tick_spec(v, input, dt_raw) =~= (WorldView { state: GameState::Paused, ..v }));
}

/// Law: a paused tick with no input edges changes nothing at all.
pub proof fn lemma_paused_tick_is_still(v: WorldView, input: InputState, dt_raw: int)
    requires
        v.state == GameState::Paused,
        !input.just_released@.contains(Key::Space),
        !input.just_released@.contains(Key::R),
        forall|i: int| 0 <= i < v.balls.len() ==> (#[trigger] v.balls[i]).in_play,
        forall|i: int| 0 <= i < v.obstacles.len() ==> !reaped_brick(#[trigger] v.obstacles[i]),
    ensures
        tick_spec(v, input, dt_raw) == v,
{
    let v1 = input_spec(v, input);
    assert(v1.state == GameState::Paused);
    lemma_reap_identity(v1);
    assert(v1 =~= v);
    assert(tick_spec(v, input, dt_raw) =~= v);
}

/// Law: the pause round trip restores the world: pausing a playing world
/// and letting any number of paused ticks go by leaves the paddle, every
/// ball, the bricks, the score and the remnants exactly as they were at the
/// moment of pausing, and the next primary key release resumes Playing on
/// that unchanged world.
pub proof fn lemma_pause_resume_round_trip(
    v: WorldView,
    pause_in: InputState,
    idle_in: InputState,
    dt1: int,
    dt2: int,
)
    requires
        v.state == GameState::Playing,
        pause_in.just_released@.contains(Key::Space),
        !idle_in.just_released@.contains(Key::Space),
        !idle_in.just_released@.contains(Key::R),
        forall|i: int| 0 <= i < v.balls.len() ==> (#[trigger] v.balls[i]).in_play,
        forall|i: int| 0 <= i < v.obstacles.len() ==> !reaped_brick(#[trigger] v.obstacles[i]),
    ensures
        ({
            let w1 = tick_spec(v, pause_in, dt1);
            let w2 = tick_spec(w1, idle_in, dt2);
            &&& w1 == (WorldView { state: GameState::Paused, ..v })
            &&& w2 == w1
            &&& after_input(w2.state, true, false) == GameState::Playing
            &&& w2.balls == v.balls
            &&& w2.obstacles == v.obstacles
            &&& w2.remnants == v.remnants
            &&& w2.score == v.score
        }),
{
    lemma_pause_performs_no_integration(v, pause_in, dt1);
    let w1 = tick_spec(v, pause_in, dt1);
    lemma_paused_tick_is_still(w1, idle_in, dt2);
}

/// Advance the world by one tick of `dt_ms` milliseconds of wall-clock
/// time under the given input. On a tick whose input calls for a restart
/// the round's entities are respawned; on every other tick the world
/// follows `tick_spec` exactly.
pub fn tick(w: &mut World, input: &InputState, dt_ms: u64)
    requires
        world_wf(*old(w)),
    ensures
        world_wf(*final(w)),
        world_normalized(*final(w)),
        ({
            let s1 = after_input(
                old(w).state,
                input.just_released@.contains(Key::Space),
                input.just_released@.contains(Key::R),
            );
            &&& (s1 != GameState::Restarting ==> view_of(*final(w)) == tick_spec(
                view_of(*old(w)),
                *input,
                dt_ms as int,
            ))
            &&& (s1 == GameState::Restarting ==> ({
                let v = view_of(*final(w));
                let walls = walls_only(old(w).obstacles@);
                &&& v.state == GameState::Starting
                &&& v.score == 0
                &&& v.remnants.len() == 0
                &&& v.balls.len() == 1
                &&& v.balls[0] == crate::world::initial_ball_spec()
                &&& v.paddle_speed == crate::world::PADDLE_SPEED
                &&& v.obstacles.len() == walls.len() + 21
                &&& v.obstacles.subrange(0, walls.len() as int) == walls
                &&& v.obstacles[walls.len() as int] == crate::world::initial_paddle_spec()
                &&& forall|k: int|
                    0 <= k < 20 ==> crate::world::spawned_brick(
                        #[trigger] v.obstacles[walls.len() + 1 + k],
                        k,
                    )
            }))
        }),
{
    let ghost v0 = view_of(*old(w));
    let ghost s1 = after_input(
        old(w).state,
        input.just_released@.contains(Key::Space),
        input.just_released@.contains(Key::R),
    );
    let dt: u64 = if dt_ms > MAX_TICK_MS {
        MAX_TICK_MS
    } else {
        dt_ms
    };
    start_pause_transition(w, input);
    ball_collision_pass(w, dt);
    change_color_pass(w);
    ball_movement_pass(w, dt);
    ball_rotation_pass(w, dt);
    ball_trail_pass(w);
    paddle_movement_pass(w, input, dt);
    fade_out_pass(w, dt);
    check_win_condition(w);
    reap_destroyed(w);
    let ghost v_before_end = view_of(*w);
    proof {
        let v1 = input_spec(v0, *input);
        assert(v1.state == s1);
        let vc = collision_pass_spec(v1, dt as int);
        lemma_pass_state(v1, dt as int, v1.balls.len() as int);
        assert(vc.state == s1 || vc.state == GameState::Lose);
        lemma_recolor_keeps_structure(vc, vc.balls.len() as int);
        let v2 = color_pass_spec(vc);
        assert(v2.state == vc.state);
        let v5 = trail_pass_spec(rotation_pass_spec(movement_pass_spec(v2, dt as int), dt as int));
        assert(v5.state == v2.state);
        lemma_paddle_upto_keeps_rest(v5, *input, dt as int, v5.obstacles.len() as int);
        let v6 = paddle_pass_spec(v5, *input, dt as int);
        assert(v6.state == v5.state);
        let v8 = win_check_spec(fade_pass_spec(v6, dt as int));
        assert(v8.state == v2.state || v8.state == GameState::Win);
        assert(v_before_end == after_input_passes(v1, *input, dt as int));
        assert(v_before_end.state == v8.state);
        if s1 == GameState::Restarting {
            assert(vc == v1);
            assert(w.state == GameState::Restarting);
            assert(v8.obstacles == v2.obstacles);
            assert(v_before_end.obstacles == swept_obstacles(v2.obstacles));
            assert forall|i: int|
                0 <= i < v0.obstacles.len() implies (kept_on_restart(
                #[trigger] v_before_end.obstacles[i]) == kept_on_restart(v0.obstacles[i]) && (
            kept_on_restart(v0.obstacles[i]) ==> v_before_end.obstacles[i]
                == v0.obstacles[i])) by {
                assert(v_before_end.obstacles[i] == swept_obstacles(v2.obstacles)[i]);
                assert(v2.obstacles[i].kind == v1.obstacles[i].kind);
            };
            lemma_walls_only_same(v_before_end.obstacles, v0.obstacles);
        } else {
            assert(w.state != GameState::Restarting);
        }
    }
    end_game_cleanup(w);
}

} // verus!
