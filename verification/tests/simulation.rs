use breakout_core::ball::{bounce_velocity, resolve_and_move, Ball, Collider, PendingCollision, Spin};
use breakout_core::collide::{CollisionOutcome, CollisionX, CollisionY};
use breakout_core::color::{faded, lerp_rgba, Rgba};
use breakout_core::combo::{InputState, Key, KeyCombo, Keypress};
use breakout_core::driver::tick;
use breakout_core::geom::Vec2;
use breakout_core::motion::paddle_bounce;
use breakout_core::state::GameState;
use breakout_core::systems::{
    ball_collision_pass, ball_movement_pass, ball_trail_pass, change_color_pass,
    check_win_condition, end_game_cleanup, fade_out_pass, paddle_movement_pass, reap_destroyed,
};
use breakout_core::world::{
    arena_walls, count_live_balls, count_live_bricks, entity_counts, fps_value, Obstacle, Remnant,
    World,
};
use breakout_core::geom::Rect;

fn white() -> Rgba {
    Rgba { red: 1000, green: 1000, blue: 1000, alpha: 1000 }
}

fn ball_at(x: i64, y: i64, vx: i64, vy: i64) -> Ball {
    Ball {
        pos: Vec2 { x, y },
        half: Vec2 { x: 15, y: 15 },
        vel: Vec2 { x: vx, y: vy },
        rotation: 45000,
        rotational_velocity: 360000,
        collided: None,
        spin: Spin::Clockwise,
        last_paddle_offset: 0,
        color: white(),
        in_play: true,
    }
}

fn obstacle(cx: i64, cy: i64, hw: i64, hh: i64, kind: Collider) -> Obstacle {
    Obstacle {
        rect: Rect { center: Vec2 { x: cx, y: cy }, half: Vec2 { x: hw, y: hh } },
        kind,
        collider_on: true,
        brick_alive: true,
        color: Rgba { red: 200, green: 300, blue: 400, alpha: 1000 },
    }
}

fn world_with(balls: Vec<Ball>, obstacles: Vec<Obstacle>, state: GameState) -> World {
    World {
        state,
        score: 0,
        balls,
        paddle_speed: 500,
        obstacles,
        remnants: vec![],
        combo_left: KeyCombo::new(
            vec![Keypress::new(Key::Left), Keypress::new(Key::Left)],
            500,
            250,
            false,
        ),
        combo_right: KeyCombo::new(
            vec![Keypress::new(Key::Right), Keypress::new(Key::Right)],
            500,
            250,
            false,
        ),
    }
}

fn idle() -> InputState {
    InputState { pressed: vec![], just_pressed: vec![], just_released: vec![] }
}

fn released(k: Key) -> InputState {
    InputState { pressed: vec![], just_pressed: vec![], just_released: vec![k] }
}

fn outcome(x: CollisionX, x_site: i64, y: CollisionY, y_site: i64) -> CollisionOutcome {
    CollisionOutcome { x, x_site, y, y_site }
}

#[test]
fn side_wall_flips_x_only_and_slows_by_decrement() {
    // Ball heading right and down into a side wall: the x component
    // mirrors, the y sign is kept, and the speed is re-aimed at the old
    // speed less twenty, floored at one hundred.
    let b = ball_at(0, 0, 283, -283); // speed isqrt(160178) == 400
    let p = PendingCollision {
        outcome: outcome(CollisionX::Left, 80, CollisionY::Miss, 0),
        collider: Collider::OtherWall,
        color: white(),
    };
    let nv = bounce_velocity(&b, &p);
    // target 380: each component is 283 * 380 / 400 truncated.
    assert_eq!(nv, Vec2 { x: -268, y: -268 });
}

#[test]
fn slow_ball_on_wall_is_floored_at_minimum_speed() {
    let b = ball_at(0, 0, 60, -80); // speed 100
    let p = PendingCollision {
        outcome: outcome(CollisionX::Left, 80, CollisionY::Miss, 0),
        collider: Collider::OtherWall,
        color: white(),
    };
    let nv = bounce_velocity(&b, &p);
    // target max(100 - 20, 100) == 100: magnitude preserved exactly here.
    assert_eq!(nv, Vec2 { x: -60, y: -80 });
}

#[test]
fn brick_bounce_flips_crossed_axis_and_speeds_up() {
    // Ball climbing into a brick from below: the y component mirrors and
    // the speed is re-aimed at the old speed plus thirty.
    let b = ball_at(0, 0, 300, 400); // speed 500
    let p = PendingCollision {
        outcome: outcome(CollisionX::Miss, 0, CollisionY::Bottom, 85),
        collider: Collider::Brick,
        color: white(),
    };
    let nv = bounce_velocity(&b, &p);
    // target 530: components 300*530/500 and -400*530/500.
    assert_eq!(nv, Vec2 { x: 318, y: -424 });
}

#[test]
fn paddle_top_hit_redirects_by_contact_offset() {
    // Dead-centre contact sends the ball straight up at its old speed.
    let straight = paddle_bounce(0, 400);
    assert_eq!(straight, Vec2 { x: 0, y: 400 });
    // The extreme offset launches at the extreme angle.
    let steep = paddle_bounce(75, 400);
    assert_eq!(steep, Vec2 { x: 398, y: 35 });
    let steep_left = paddle_bounce(-75, 400);
    assert_eq!(steep_left, Vec2 { x: -398, y: 35 });
    // Offsets beyond the paddle's reach clamp to the extreme angle.
    assert_eq!(paddle_bounce(500, 400), steep);
}

#[test]
fn resolver_split_move_stops_at_the_boundary_then_bounces() {
    let mut b = ball_at(0, 0, 1000, -1000);
    b.collided = Some(PendingCollision {
        outcome: outcome(CollisionX::Left, 50, CollisionY::Miss, 0),
        collider: Collider::OtherWall,
        color: white(),
    });
    resolve_and_move(&mut b, 100);
    // Contact halfway through the tick: 50 px forward with the old
    // velocity, then the rest with the mirrored, slowed one.
    assert_eq!(b.vel, Vec2 { x: -985, y: -985 });
    assert_eq!(b.pos, Vec2 { x: 1, y: -99 });
    assert_eq!(b.rotational_velocity, 1253700);
    assert!(b.collided.is_none());
}

#[test]
fn resolver_without_collision_integrates_full_tick() {
    let mut b = ball_at(10, 20, 400, -300);
    resolve_and_move(&mut b, 100);
    assert_eq!(b.pos, Vec2 { x: 50, y: -10 });
    assert_eq!(b.vel, Vec2 { x: 400, y: -300 });
}

#[test]
fn brick_hit_scores_once_and_kills_the_brick() {
    let b = ball_at(0, 0, 0, 1000);
    let brick = obstacle(0, 120, 75, 15, Collider::Brick);
    let mut w = world_with(vec![b], vec![brick], GameState::Playing);
    ball_collision_pass(&mut w, 100);
    assert_eq!(w.score, 1);
    assert!(!w.obstacles[0].brick_alive);
    assert!(w.obstacles[0].collider_on); // retired only at end of tick
    let pend = w.balls[0].collided.unwrap();
    assert!(matches!(pend.collider, Collider::Brick));
    reap_destroyed(&mut w);
    assert!(!w.obstacles[0].collider_on);
    assert_eq!(w.remnants.len(), 1);
    assert_eq!(w.remnants[0].starting_color, white());
    assert_eq!(w.remnants[0].fade_out_time, 2000);
}

#[test]
fn dead_brick_is_not_scored_again() {
    let b = ball_at(0, 0, 0, 1000);
    let brick = obstacle(0, 120, 75, 15, Collider::Brick);
    let mut w = world_with(vec![b], vec![brick], GameState::Playing);
    ball_collision_pass(&mut w, 100);
    reap_destroyed(&mut w);
    assert_eq!(w.score, 1);
    // Next tick: the remnant is colliderless, so the overlapping ball
    // cannot score it again.
    w.balls[0].collided = None;
    ball_collision_pass(&mut w, 100);
    assert_eq!(w.score, 1);
    assert!(w.balls[0].collided.is_none());
}

#[test]
fn last_ball_through_bottom_wall_loses_the_round() {
    let b = ball_at(0, -270, 0, -1000);
    let bottom = obstacle(0, -300, 455, 5, Collider::BottomWall);
    let mut w = world_with(vec![b], vec![bottom], GameState::Playing);
    ball_collision_pass(&mut w, 40);
    assert_eq!(w.state, GameState::Lose);
    assert!(!w.balls[0].in_play);
    // The round ended before the collision was recorded.
    assert!(w.balls[0].collided.is_none());
    reap_destroyed(&mut w);
    assert_eq!(w.balls.len(), 0);
    assert_eq!(w.remnants.len(), 1);
}

#[test]
fn losing_a_ball_with_another_in_play_keeps_playing() {
    let falling = ball_at(0, -270, 0, -1000);
    let spare = ball_at(0, 200, 100, 100);
    let bottom = obstacle(0, -300, 455, 5, Collider::BottomWall);
    let mut w = world_with(vec![falling, spare], vec![bottom], GameState::Playing);
    ball_collision_pass(&mut w, 40);
    assert_eq!(w.state, GameState::Playing);
    assert!(!w.balls[0].in_play);
    assert!(w.balls[0].collided.is_some());
    assert_eq!(count_live_balls(&w.balls), 1);
    reap_destroyed(&mut w);
    assert_eq!(w.balls.len(), 1);
    assert!(w.balls[0].in_play);
}

#[test]
fn last_live_brick_destroyed_wins_on_that_tick() {
    let mut dead = obstacle(0, 120, 75, 15, Collider::Brick);
    dead.brick_alive = false;
    let wall = obstacle(-450, 0, 5, 305, Collider::OtherWall);
    let mut w = world_with(vec![], vec![dead, wall], GameState::Playing);
    assert_eq!(count_live_bricks(&w.obstacles), 0);
    check_win_condition(&mut w);
    assert_eq!(w.state, GameState::Win);
}

#[test]
fn win_check_fires_only_from_playing() {
    let mut w = world_with(vec![], vec![], GameState::Starting);
    check_win_condition(&mut w);
    assert_eq!(w.state, GameState::Starting);
}

#[test]
fn live_bricks_prevent_the_win() {
    let brick = obstacle(0, 120, 75, 15, Collider::Brick);
    let mut w = world_with(vec![], vec![brick], GameState::Playing);
    check_win_condition(&mut w);
    assert_eq!(w.state, GameState::Playing);
}

#[test]
fn pause_round_trip_restores_positions_exactly() {
    let mut w = World::new();
    // Start the round, then play a few ticks.
    tick(&mut w, &released(Key::Space), 16);
    assert_eq!(w.state, GameState::Playing);
    for _ in 0..10 {
        tick(&mut w, &idle(), 16);
    }
    let ball_pos = w.balls[0].pos;
    let paddle_rect = w.obstacles[4].rect;
    let score = w.score;
    // Pause: the pausing tick itself performs no integration.
    tick(&mut w, &released(Key::Space), 16);
    assert_eq!(w.state, GameState::Paused);
    assert_eq!(w.balls[0].pos, ball_pos);
    assert_eq!(w.obstacles[4].rect, paddle_rect);
    // Paused ticks change nothing either.
    for _ in 0..5 {
        tick(&mut w, &idle(), 16);
    }
    assert_eq!(w.state, GameState::Paused);
    assert_eq!(w.balls[0].pos, ball_pos);
    assert_eq!(w.obstacles[4].rect, paddle_rect);
    assert_eq!(w.score, score);
    // Resume: play continues from exactly the paused positions.
    tick(&mut w, &released(Key::Space), 0);
    assert_eq!(w.state, GameState::Playing);
    assert_eq!(w.balls[0].pos, ball_pos);
    assert_eq!(w.obstacles[4].rect, paddle_rect);
}

#[test]
fn paddle_moves_at_its_speed_and_is_clamped() {
    let paddle = obstacle(0, -215, 60, 15, Collider::Paddle);
    let mut w = world_with(vec![], vec![paddle], GameState::Playing);
    let right_held = InputState {
        pressed: vec![Key::Right],
        just_pressed: vec![],
        just_released: vec![],
    };
    paddle_movement_pass(&mut w, &right_held, 100);
    assert_eq!(w.obstacles[0].rect.center.x, 50); // 500 px/s for 0.1 s
    w.obstacles[0].rect.center.x = 490;
    paddle_movement_pass(&mut w, &right_held, 100);
    assert_eq!(w.obstacles[0].rect.center.x, 500); // clamped at the bound
}

#[test]
fn opposite_keys_cancel_the_paddle_motion() {
    let paddle = obstacle(0, -215, 60, 15, Collider::Paddle);
    let mut w = world_with(vec![], vec![paddle], GameState::Playing);
    let both = InputState {
        pressed: vec![Key::Left, Key::Right],
        just_pressed: vec![],
        just_released: vec![],
    };
    paddle_movement_pass(&mut w, &both, 100);
    assert_eq!(w.obstacles[0].rect.center.x, 0);
}

#[test]
fn recognised_double_tap_dashes_the_paddle() {
    let paddle = obstacle(0, -215, 60, 15, Collider::Paddle);
    let mut w = world_with(vec![], vec![paddle], GameState::Playing);
    let press_left = InputState {
        pressed: vec![Key::Left],
        just_pressed: vec![Key::Left],
        just_released: vec![],
    };
    let release_left = InputState {
        pressed: vec![],
        just_pressed: vec![],
        just_released: vec![Key::Left],
    };
    paddle_movement_pass(&mut w, &press_left, 16);
    paddle_movement_pass(&mut w, &release_left, 16);
    paddle_movement_pass(&mut w, &press_left, 16);
    let x_before_dash = w.obstacles[0].rect.center.x;
    paddle_movement_pass(&mut w, &release_left, 16);
    // The dash lands the paddle 180 px further left than where the final
    // tick's held-key motion alone would have put it.
    assert_eq!(w.obstacles[0].rect.center.x, x_before_dash - 180);
}

#[test]
fn trail_ghosts_fade_and_expire() {
    let b = ball_at(10, 20, 0, 0);
    let mut w = world_with(vec![b], vec![], GameState::Playing);
    ball_trail_pass(&mut w);
    assert_eq!(w.remnants.len(), 1);
    // The ghost is the ball's colour pulled four tenths toward white; a
    // white ball stays white.
    assert_eq!(w.remnants[0].color, white());
    assert_eq!(w.remnants[0].fade_out_time, 1000);
    assert_eq!(w.remnants[0].rect.center, Vec2 { x: 10, y: 20 });
    fade_out_pass(&mut w, 100);
    assert_eq!(w.remnants[0].fade_out_time, 900);
    // Alpha decays against the full despawn time of two seconds.
    assert_eq!(w.remnants[0].color.alpha, 450);
    // Running the lifetime out removes the ghost.
    for _ in 0..9 {
        fade_out_pass(&mut w, 100);
    }
    assert_eq!(w.remnants.len(), 0);
}

#[test]
fn brick_hit_blends_ball_color_toward_brick() {
    let b = ball_at(0, 0, 0, 1000);
    let brick = obstacle(0, 120, 75, 15, Collider::Brick);
    let mut w = world_with(vec![b], vec![brick], GameState::Playing);
    ball_collision_pass(&mut w, 100);
    change_color_pass(&mut w);
    // Halfway from white (1000) toward the brick's channels (200,300,400).
    assert_eq!(w.balls[0].color, Rgba { red: 600, green: 650, blue: 700, alpha: 1000 });
}

#[test]
fn fresh_world_layout() {
    let w = World::new();
    assert_eq!(w.state, GameState::Starting);
    assert_eq!(w.score, 0);
    assert_eq!(w.balls.len(), 1);
    assert_eq!(w.balls[0].pos, Vec2 { x: 0, y: -30 });
    assert_eq!(w.balls[0].vel, Vec2 { x: 283, y: -283 });
    assert_eq!(w.obstacles.len(), 25);
    assert_eq!(count_live_bricks(&w.obstacles), 20);
    let walls = arena_walls();
    assert_eq!(w.obstacles[0].rect, walls[0].rect);
    assert!(matches!(w.obstacles[2].kind, Collider::BottomWall));
    assert!(matches!(w.obstacles[4].kind, Collider::Paddle));
    assert_eq!(w.obstacles[4].rect.center, Vec2 { x: 0, y: -215 });
    // The brick grid: five columns of four rows, centred above the ball.
    assert_eq!(w.obstacles[5].rect.center, Vec2 { x: -340, y: 100 });
    assert_eq!(w.obstacles[24].rect.center, Vec2 { x: 340, y: 250 });
    let (nb, no, nr) = entity_counts(&w);
    assert_eq!((nb, no, nr), (1, 25, 0));
}

#[test]
fn restart_resets_score_and_respawns_the_round() {
    let mut w = World::new();
    tick(&mut w, &released(Key::Space), 16);
    assert_eq!(w.state, GameState::Playing);
    w.score = 7;
    // The restart key forces the cleanup from any state.
    tick(&mut w, &released(Key::R), 16);
    assert_eq!(w.state, GameState::Starting);
    assert_eq!(w.score, 0);
    assert_eq!(w.balls.len(), 1);
    assert_eq!(w.balls[0].pos, Vec2 { x: 0, y: -30 });
    assert_eq!(w.obstacles.len(), 25);
    assert_eq!(count_live_bricks(&w.obstacles), 20);
    assert_eq!(w.remnants.len(), 0);
}

#[test]
fn end_game_cleanup_is_idle_outside_restarting() {
    let mut w = World::new();
    let balls_before = w.balls.len();
    end_game_cleanup(&mut w);
    assert_eq!(w.state, GameState::Starting);
    assert_eq!(w.balls.len(), balls_before);
    assert_eq!(w.obstacles.len(), 25);
}

#[test]
fn oversized_tick_delta_is_clamped() {
    let mut w = World::new();
    w.state = GameState::Playing;
    tick(&mut w, &idle(), 100000);
    // Only two hundred milliseconds of motion: 283 px/s for 0.2 s is 56 px.
    assert_eq!(w.balls[0].pos, Vec2 { x: 56, y: -86 });
    // The rotation advanced clockwise by 0.2 s of spin and wrapped once.
    assert_eq!(w.balls[0].rotation, 153000);
}

#[test]
fn movement_only_happens_while_playing() {
    let b = ball_at(0, 0, 400, 400);
    let mut w = world_with(vec![b], vec![], GameState::Paused);
    ball_movement_pass(&mut w, 100);
    assert_eq!(w.balls[0].pos, Vec2 { x: 0, y: 0 });
}

#[test]
fn untended_round_ends_in_a_loss() {
    // Nobody moves the paddle: the ball drifts right past it, falls
    // through the bottom wall, the round is lost, and the ball is reaped
    // into a fading remnant.
    let mut w = World::new();
    tick(&mut w, &released(Key::Space), 16);
    let mut lost = false;
    for _ in 0..600 {
        tick(&mut w, &idle(), 16);
        if w.state == GameState::Lose {
            lost = true;
            break;
        }
    }
    assert!(lost);
    assert_eq!(w.balls.len(), 0);
    assert!(w.remnants.iter().any(|r| r.fade_out_time > 1000));
    assert_eq!(w.score, 0);
}

#[test]
fn tracked_ball_scores_a_brick() {
    // A player who keeps the paddle under the ball returns it upward until
    // it destroys a brick and scores.
    let mut w = World::new();
    tick(&mut w, &released(Key::Space), 16);
    for _ in 0..2000 {
        let ball_x = w.balls[0].pos.x;
        let paddle_x = w
            .obstacles
            .iter()
            .find(|o| matches!(o.kind, Collider::Paddle))
            .unwrap()
            .rect
            .center
            .x;
        let input = if ball_x < paddle_x {
            InputState { pressed: vec![Key::Left], just_pressed: vec![], just_released: vec![] }
        } else if ball_x > paddle_x {
            InputState { pressed: vec![Key::Right], just_pressed: vec![], just_released: vec![] }
        } else {
            idle()
        };
        tick(&mut w, &input, 16);
        if w.score > 0 || w.state != GameState::Playing {
            break;
        }
    }
    assert_eq!(w.state, GameState::Playing);
    assert!(w.score > 0);
    assert!(count_live_bricks(&w.obstacles) < 20);
}

#[test]
fn fps_estimate() {
    assert_eq!(fps_value(16), 62);
    assert_eq!(fps_value(1000), 1);
    assert_eq!(fps_value(0), 0);
}

#[test]
fn color_blend_and_fade_formulas() {
    let half = lerp_rgba(
        white(),
        Rgba { red: 0, green: 0, blue: 0, alpha: 1000 },
        500,
    );
    assert_eq!(half, Rgba { red: 500, green: 500, blue: 500, alpha: 1000 });
    let faded_color = faded(Rgba { red: 200, green: 300, blue: 400, alpha: 1000 }, 1000, 2000);
    assert_eq!(faded_color, Rgba { red: 200, green: 300, blue: 400, alpha: 500 });
    let r = Remnant {
        rect: Rect { center: Vec2 { x: 0, y: 0 }, half: Vec2 { x: 15, y: 15 } },
        color: white(),
        starting_color: white(),
        fade_out_time: 2000,
    };
    assert_eq!(r.fade_out_time, 2000);
}
