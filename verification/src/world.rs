//! The simulation world: every piece of state the per-tick systems touch —
//! game state, scoreboard, balls, obstacles (walls, paddle, bricks),
//! fading remnants, and the two double-tap recognisers — together with the
//! functions that populate a round.

use vstd::prelude::*;
use crate::ball::{ball_wf, Ball, Collider, Spin};
use crate::color::{color_black, color_wall_grey, color_white, rgba_from_bytes, rgba_wf, Rgba};
use crate::combo::{combo_wf, Key, KeyCombo, Keypress};
use crate::geom::{rect_wf, Rect, Vec2};
use crate::rng::random_bytes3;
use crate::state::GameState;

verus! {

/// Lifetime of a destruction remnant, milliseconds; also the total against
/// which every remnant's alpha decays.
pub const DESPAWN_TIME_MS: i64 = 2000;

/// Lifetime given to a ball trail ghost, milliseconds.
pub const TRAIL_FADE_MS: i64 = 1000;

/// The paddle's fixed horizontal speed, pixels per second.
pub const PADDLE_SPEED: i64 = 500;

/// How far a recognised double tap teleports the paddle, pixels.
pub const DASH_DISTANCE: i64 = 180;

/// The paddle centre is held inside this range of x coordinates.
pub const PADDLE_BOUND: i64 = 500;

/// Milliseconds a double tap allows before the next press.
pub const DOUBLE_TAP_MAX_WAIT_PRESS: u64 = 500;

/// Milliseconds a double tap allows a key to stay held.
pub const DOUBLE_TAP_MAX_WAIT_RELEASE: u64 = 250;

/// A collidable obstacle: a rectangle tagged with its collider kind. A hit
/// brick first loses `brick_alive` (the flag that guards scoring and the
/// win check), and at the end of that tick loses `collider_on` and leaves a
/// remnant behind.
#[derive(Clone, Copy)]
pub struct Obstacle {
    pub rect: Rect,
    pub kind: Collider,
    /// Whether the obstacle still takes part in collision detection.
    pub collider_on: bool,
    /// A brick's liveness; true for every other kind.
    pub brick_alive: bool,
    /// Current display colour.
    pub color: Rgba,
}

pub open spec fn obstacle_wf(o: Obstacle) -> bool {
    rect_wf(o.rect) && rgba_wf(o.color)
}

/// The visual remnant of a destroyed ball or brick, or a trail ghost:
/// non-interactive, decaying toward transparency, removed when its time
/// runs out.
#[derive(Clone, Copy)]
pub struct Remnant {
    pub rect: Rect,
    /// Current display colour.
    pub color: Rgba,
    /// The colour snapshot the decay starts from.
    pub starting_color: Rgba,
    /// Remaining lifetime, milliseconds.
    pub fade_out_time: i64,
}

pub open spec fn remnant_wf(r: Remnant) -> bool {
    &&& rect_wf(r.rect)
    &&& rgba_wf(r.color)
    &&& rgba_wf(r.starting_color)
    &&& 0 < r.fade_out_time <= DESPAWN_TIME_MS
}

pub struct World {
    pub state: GameState,
    /// The scoreboard: one point per brick destroyed, reset on restart.
    pub score: u64,
    pub balls: Vec<Ball>,
    /// The paddle's configured speed, pixels per second.
    pub paddle_speed: i64,
    pub obstacles: Vec<Obstacle>,
    pub remnants: Vec<Remnant>,
    pub combo_left: KeyCombo,
    pub combo_right: KeyCombo,
}

/// The mathematical snapshot of a world: the same fields with the
/// containers seen as sequences. The per-tick systems are specified as
/// functions over this snapshot.
#[verifier::ext_equal]
pub struct WorldView {
    pub state: GameState,
    pub score: u64,
    pub balls: Seq<Ball>,
    pub paddle_speed: i64,
    pub obstacles: Seq<Obstacle>,
    pub remnants: Seq<Remnant>,
    pub combo_left: KeyCombo,
    pub combo_right: KeyCombo,
}

pub open spec fn view_of(w: World) -> WorldView {
    WorldView {
        state: w.state,
        score: w.score,
        balls: w.balls@,
        paddle_speed: w.paddle_speed,
        obstacles: w.obstacles@,
        remnants: w.remnants@,
        combo_left: w.combo_left,
        combo_right: w.combo_right,
    }
}

pub open spec fn world_wf(w: World) -> bool {
    &&& forall|i: int| 0 <= i < w.balls@.len() ==> ball_wf(#[trigger] w.balls@[i])
    &&& forall|i: int| 0 <= i < w.obstacles@.len() ==> obstacle_wf(#[trigger] w.obstacles@[i])
    &&& forall|i: int| 0 <= i < w.remnants@.len() ==> remnant_wf(#[trigger] w.remnants@[i])
    &&& combo_wf(w.combo_left)
    &&& combo_wf(w.combo_right)
    &&& 0 <= w.paddle_speed <= 1000000
}

/// A world at a tick boundary: every ball is in play (the fallen ones have
/// been reaped into remnants) and every dead brick has already lost its
/// collider.
pub open spec fn world_normalized(w: World) -> bool {
    &&& forall|i: int|
        0 <= i < w.balls@.len() ==> (#[trigger] w.balls@[i]).in_play
    &&& forall|i: int|
        0 <= i < w.obstacles@.len() ==> ((#[trigger] w.obstacles@[i]).kind == Collider::Brick
            && w.obstacles@[i].collider_on ==> w.obstacles@[i].brick_alive)
}

/// How many balls are still in play.
pub open spec fn live_ball_count(balls: Seq<Ball>) -> nat
    decreases balls.len(),
{
    if balls.len() == 0 {
        0
    } else {
        live_ball_count(balls.drop_last()) + if balls.last().in_play {
            1nat
        } else {
            0nat
        }
    }
}

/// How many bricks are still live.
pub open spec fn live_brick_count(obs: Seq<Obstacle>) -> nat
    decreases obs.len(),
{
    if obs.len() == 0 {
        0
    } else {
        live_brick_count(obs.drop_last()) + if obs.last().kind == Collider::Brick
            && obs.last().brick_alive {
            1nat
        } else {
            0nat
        }
    }
}

pub fn count_live_balls(balls: &Vec<Ball>) -> (r: usize)
    ensures
        r == live_ball_count(balls@),
{
    let mut count: usize = 0;
    let mut i: usize = 0;
    while i < balls.len()
        invariant
            0 <= i <= balls@.len(),
            count == live_ball_count(balls@.take(i as int)),
            count <= i,
        decreases balls@.len() - i,
    {
        proof {
            assert(balls@.take(i + 1).drop_last() =~= balls@.take(i as int));
            assert(balls@.take(i + 1).last() == balls@[i as int]);
        }
        if balls[i].in_play {
            count = count + 1;
        }
        i = i + 1;
    }
    proof {
        assert(balls@.take(balls@.len() as int) =~= balls@);
    }
    count
}

pub fn count_live_bricks(obstacles: &Vec<Obstacle>) -> (r: usize)
    ensures
        r == live_brick_count(obstacles@),
{
    let mut count: usize = 0;
    let mut i: usize = 0;
    while i < obstacles.len()
        invariant
            0 <= i <= obstacles@.len(),
            count == live_brick_count(obstacles@.take(i as int)),
            count <= i,
        decreases obstacles@.len() - i,
    {
        proof {
            assert(obstacles@.take(i + 1).drop_last() =~= obstacles@.take(i as int));
            assert(obstacles@.take(i + 1).last() == obstacles@[i as int]);
        }
        if matches!(obstacles[i].kind, Collider::Brick) && obstacles[i].brick_alive {
            count = count + 1;
        }
        i = i + 1;
    }
    proof {
        assert(obstacles@.take(obstacles@.len() as int) =~= obstacles@);
    }
    count
}

/// Live entity counts for diagnostics: balls, obstacles, remnants.
pub fn entity_counts(w: &World) -> (r: (usize, usize, usize))
    ensures
        r.0 == w.balls@.len(),
        r.1 == w.obstacles@.len(),
        r.2 == w.remnants@.len(),
{
    (w.balls.len(), w.obstacles.len(), w.remnants.len())
}

/// The frames-per-second estimate for a tick of `dt` milliseconds.
pub fn fps_value(dt: u64) -> (r: u64)
    ensures
        dt > 0 ==> r == 1000u64 / dt,
        dt == 0 ==> r == 0,
{
    if dt == 0 {
        0
    } else {
        1000 / dt
    }
}

/// The ball a round starts with: at rest below the bricks, heading down and
/// to the right at the starting speed, spinning clockwise.
pub open spec fn initial_ball_spec() -> Ball {
    Ball {
        pos: Vec2 { x: 0i64, y: -30i64 },
        half: Vec2 { x: 15, y: 15 },
        vel: Vec2 { x: 283i64, y: -283i64 },
        rotation: 45000,
        rotational_velocity: 360000,
        collided: None,
        spin: Spin::Clockwise,
        last_paddle_offset: 0,
        color: Rgba { red: 1000, green: 1000, blue: 1000, alpha: 1000 },
        in_play: true,
    }
}

/// The paddle a round starts with: black, resting below the ball.
pub open spec fn initial_paddle_spec() -> Obstacle {
    Obstacle {
        rect: Rect { center: Vec2 { x: 0i64, y: -215i64 }, half: Vec2 { x: 60i64, y: 15i64 } },
        kind: Collider::Paddle,
        collider_on: true,
        brick_alive: true,
        color: Rgba { red: 0, green: 0, blue: 0, alpha: 1000 },
    }
}

/// The grid rectangle of brick number `k` (row-major, five per row): the
/// grid is centred and lifted above the ball.
pub open spec fn brick_rect_spec(k: int) -> Rect {
    Rect {
        center: Vec2 { x: ((k % 5) * 170 - 340) as i64, y: ((k / 5) * 50 + 100) as i64 },
        half: Vec2 { x: 75, y: 15 },
    }
}

/// The number of bricks a round starts with.
pub const BRICK_ROWS: usize = 4;
pub const BRICK_COLUMNS: usize = 5;

/// The four arena walls: left, right, bottom, top. Only the bottom one
/// removes balls; the rest bounce them.
pub fn arena_walls() -> (r: Vec<Obstacle>)
    ensures
        r@.len() == 4,
        r@[0] == (Obstacle {
            rect: Rect { center: Vec2 { x: -450i64, y: 0i64 }, half: Vec2 { x: 5i64, y: 305i64 } },
            kind: Collider::OtherWall,
            collider_on: true,
            brick_alive: true,
            color: Rgba { red: 500, green: 500, blue: 500, alpha: 1000 },
        }),
        r@[1] == (Obstacle {
            rect: Rect { center: Vec2 { x: 450i64, y: 0i64 }, half: Vec2 { x: 5i64, y: 305i64 } },
            kind: Collider::OtherWall,
            collider_on: true,
            brick_alive: true,
            color: Rgba { red: 500, green: 500, blue: 500, alpha: 1000 },
        }),
        r@[2] == (Obstacle {
            rect: Rect { center: Vec2 { x: 0i64, y: -300i64 }, half: Vec2 { x: 455i64, y: 5i64 } },
            kind: Collider::BottomWall,
            collider_on: true,
            brick_alive: true,
            color: Rgba { red: 500, green: 500, blue: 500, alpha: 1000 },
        }),
        r@[3] == (Obstacle {
            rect: Rect { center: Vec2 { x: 0i64, y: 300i64 }, half: Vec2 { x: 455i64, y: 5i64 } },
            kind: Collider::OtherWall,
            collider_on: true,
            brick_alive: true,
            color: Rgba { red: 500, green: 500, blue: 500, alpha: 1000 },
        }),
        forall|i: int| 0 <= i < 4 ==> obstacle_wf(#[trigger] r@[i]),
{
    let grey: Rgba = color_wall_grey();
    let mut walls: Vec<Obstacle> = Vec::new();
    walls.push(Obstacle {
        rect: Rect { center: Vec2 { x: -450i64, y: 0i64 }, half: Vec2 { x: 5i64, y: 305i64 } },
        kind: Collider::OtherWall,
        collider_on: true,
        brick_alive: true,
        color: grey,
    });
    walls.push(Obstacle {
        rect: Rect { center: Vec2 { x: 450i64, y: 0i64 }, half: Vec2 { x: 5i64, y: 305i64 } },
        kind: Collider::OtherWall,
        collider_on: true,
        brick_alive: true,
        color: grey,
    });
    walls.push(Obstacle {
        rect: Rect { center: Vec2 { x: 0i64, y: -300i64 }, half: Vec2 { x: 455i64, y: 5i64 } },
        kind: Collider::BottomWall,
        collider_on: true,
        brick_alive: true,
        color: grey,
    });
    walls.push(Obstacle {
        rect: Rect { center: Vec2 { x: 0i64, y: 300i64 }, half: Vec2 { x: 455i64, y: 5i64 } },
        kind: Collider::OtherWall,
        collider_on: true,
        brick_alive: true,
        color: grey,
    });
    walls
}

/// What holds of brick number `k` in a freshly spawned grid: its grid
/// rectangle and flags are fixed; its colour is random but well formed and
/// opaque.
pub open spec fn spawned_brick(o: Obstacle, k: int) -> bool {
    &&& o.rect == brick_rect_spec(k)
    &&& o.kind == Collider::Brick
    &&& o.collider_on
    &&& o.brick_alive
    &&& rgba_wf(o.color)
    &&& o.color.alpha == 1000
}

impl World {
    /// Spawn the entities of one round — the paddle, the ball and the brick
    /// grid — leaving everything already present in place. Brick colours
    /// are drawn at random.
    pub fn spawn_round_entities(&mut self)
        ensures
            final(self).state == old(self).state,
            final(self).score == old(self).score,
            final(self).remnants == old(self).remnants,
            final(self).combo_left == old(self).combo_left,
            final(self).combo_right == old(self).combo_right,
            final(self).paddle_speed == PADDLE_SPEED,
            final(self).balls@ == old(self).balls@.push(initial_ball_spec()),
            final(self).obstacles@.len() == old(self).obstacles@.len() + 21,
            final(self).obstacles@.subrange(0, old(self).obstacles@.len() as int) == old(
                self,
            ).obstacles@,
            final(self).obstacles@[old(self).obstacles@.len() as int] == initial_paddle_spec(),
            forall|k: int|
                0 <= k < 20 ==> spawned_brick(
                    #[trigger] final(self).obstacles@[old(self).obstacles@.len() + 1 + k],
                    k,
                ),
    {
        let base: usize = self.obstacles.len();
        proof {
            assert(old(self).obstacles@.subrange(0, base as int) =~= old(self).obstacles@);
        }
        self.paddle_speed = PADDLE_SPEED;
        self.obstacles.push(Obstacle {
            rect: Rect { center: Vec2 { x: 0i64, y: -215i64 }, half: Vec2 { x: 60i64, y: 15i64 } },
            kind: Collider::Paddle,
            collider_on: true,
            brick_alive: true,
            color: color_black(),
        });
        self.balls.push(Ball {
            pos: Vec2 { x: 0i64, y: -30i64 },
            half: Vec2 { x: 15, y: 15 },
            vel: Vec2 { x: 283i64, y: -283i64 },
            rotation: 45000,
            rotational_velocity: 360000,
            collided: None,
            spin: Spin::Clockwise,
            last_paddle_offset: 0,
            color: color_white(),
            in_play: true,
        });
        proof {
            assert(self.obstacles@.subrange(0, base as int) =~= old(self).obstacles@.subrange(
                0,
                base as int,
            ));
        }
        let mut k: usize = 0;
        while k < 20
            invariant
                0 <= k <= 20,
                self.obstacles@.len() == base + 1 + k,
                self.obstacles@.subrange(0, base as int) == old(self).obstacles@.subrange(
                    0,
                    base as int,
                ),
                self.obstacles@[base as int] == initial_paddle_spec(),
                forall|j: int|
                    0 <= j < k ==> spawned_brick(
                        #[trigger] self.obstacles@[base + 1 + j],
                        j,
                    ),
                self.balls@ == old(self).balls@.push(initial_ball_spec()),
                self.state == old(self).state,
                self.score == old(self).score,
                self.remnants == old(self).remnants,
                self.combo_left == old(self).combo_left,
                self.combo_right == old(self).combo_right,
                self.paddle_speed == PADDLE_SPEED,
            decreases 20 - k,
        {
            let col: usize = k % 5;
            let row: usize = k / 5;
            let (rb, gb, bb): (u8, u8, u8) = random_bytes3();
            let color: Rgba = rgba_from_bytes(rb, gb, bb);
            self.obstacles.push(Obstacle {
                rect: Rect {
                    center: Vec2 {
                        x: (col as i64) * 170 - 340,
                        y: (row as i64) * 50 + 100,
                    },
                    half: Vec2 { x: 75, y: 15 },
                },
                kind: Collider::Brick,
                collider_on: true,
                brick_alive: true,
                color,
            });
            proof {
                assert(self.obstacles@.subrange(0, base as int)
                    =~= old(self).obstacles@.subrange(0, base as int));
                assert(spawned_brick(self.obstacles@[base + 1 + k as int], k as int));
            }
            k = k + 1;
        }
    }

    /// A fresh world: the four walls, one paddle, one ball, the brick grid,
    /// the two double-tap recognisers, a zero scoreboard, waiting to start.
    pub fn new() -> (w: World)
        ensures
            world_wf(w),
            world_normalized(w),
            w.state == GameState::Starting,
            w.score == 0,
            w.remnants@.len() == 0,
            w.balls@.len() == 1,
            w.balls@[0] == initial_ball_spec(),
            w.obstacles@.len() == 25,
            w.obstacles@[4] == initial_paddle_spec(),
            forall|k: int| 0 <= k < 20 ==> spawned_brick(#[trigger] w.obstacles@[5 + k], k),
            live_brick_count(w.obstacles@) == 20,
            w.paddle_speed == PADDLE_SPEED,
            w.combo_left.index == 0,
            w.combo_right.index == 0,
            w.combo_left.keypress_sequence@.len() == 2,
            w.combo_right.keypress_sequence@.len() == 2,
    {
        let mut left_seq: Vec<Keypress> = Vec::new();
        left_seq.push(Keypress::new(Key::Left));
        left_seq.push(Keypress::new(Key::Left));
        let mut right_seq: Vec<Keypress> = Vec::new();
        right_seq.push(Keypress::new(Key::Right));
        right_seq.push(Keypress::new(Key::Right));
        let mut w = World {
            state: GameState::Starting,
            score: 0,
            balls: Vec::new(),
            paddle_speed: PADDLE_SPEED,
            obstacles: arena_walls(),
            remnants: Vec::new(),
            combo_left: KeyCombo::new(
                left_seq,
                DOUBLE_TAP_MAX_WAIT_PRESS,
                DOUBLE_TAP_MAX_WAIT_RELEASE,
                false,
            ),
            combo_right: KeyCombo::new(
                right_seq,
                DOUBLE_TAP_MAX_WAIT_PRESS,
                DOUBLE_TAP_MAX_WAIT_RELEASE,
                false,
            ),
        };
        let ghost walls_view = w.obstacles@;
        w.spawn_round_entities();
        proof {
            let obs = w.obstacles@;
            assert forall|k: int| 0 <= k < 20 implies spawned_brick(#[trigger] obs[5 + k], k) by {
                assert(spawned_brick(obs[walls_view.len() + 1 + k], k));
            };
            assert forall|i: int| 0 <= i < 4 implies obs[i] == walls_view[i] by {
                assert(obs.subrange(0, 4)[i] == walls_view[i]);
            };
            assert(ball_wf(initial_ball_spec()));
            assert(obstacle_wf(initial_paddle_spec()));
            assert forall|i: int| 0 <= i < obs.len() implies obstacle_wf(#[trigger] obs[i]) by {
                if i >= 5 {
                    assert(spawned_brick(obs[5 + (i - 5)], i - 5));
                    assert(0 <= (i - 5) % 5 <= 4 && 0 <= (i - 5) / 5 <= 3);
                }
            };
            assert forall|i: int|
                0 <= i < obs.len() && (#[trigger] obs[i]).kind == Collider::Brick
                && obs[i].collider_on implies obs[i].brick_alive by {
                if i >= 5 {
                    assert(spawned_brick(obs[5 + (i - 5)], i - 5));
                }
            };
            assert forall|k: int|
                5 <= k < 25 implies (#[trigger] obs[k]).kind == Collider::Brick
                && obs[k].brick_alive by {
                assert(spawned_brick(obs[5 + (k - 5)], k - 5));
            };
            lemma_live_bricks_in_fresh_world(obs);
        }
        w
    }
}

/// In a freshly spawned world — four walls, one paddle, twenty live bricks
/// in that order — the live brick count is twenty.
proof fn lemma_live_bricks_in_fresh_world(obs: Seq<Obstacle>)
    requires
        obs.len() == 25,
        forall|i: int| 0 <= i < 5 ==> (#[trigger] obs[i]).kind != Collider::Brick,
        forall|k: int|
            5 <= k < 25 ==> (#[trigger] obs[k]).kind == Collider::Brick && obs[k].brick_alive,
    ensures
        live_brick_count(obs) == 20,
{
    lemma_live_brick_count_split(obs, 5);
}

/// Counting live bricks over a prefix of non-bricks and a suffix of live
/// bricks gives the suffix's length.
proof fn lemma_live_brick_count_split(obs: Seq<Obstacle>, split: int)
    requires
        0 <= split <= obs.len(),
        forall|i: int| 0 <= i < split ==> (#[trigger] obs[i]).kind != Collider::Brick,
        forall|k: int|
            split <= k < obs.len() ==> (#[trigger] obs[k]).kind == Collider::Brick
                && obs[k].brick_alive,
    ensures
        live_brick_count(obs) == obs.len() - split,
    decreases obs.len(),
{
    if obs.len() == 0 {
    } else if split == obs.len() {
        lemma_live_brick_count_split(obs.drop_last(), split - 1);
    } else {
        lemma_live_brick_count_split(obs.drop_last(), split);
    }
}

} // verus!
