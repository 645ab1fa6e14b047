use breakout_core::collide::{detect, CollisionX, CollisionY};
use breakout_core::geom::{Rect, Vec2};
use breakout_core::num::{isqrt_u64, sin_q, wrap_i64};

fn rect(cx: i64, cy: i64, hw: i64, hh: i64) -> Rect {
    Rect { center: Vec2 { x: cx, y: cy }, half: Vec2 { x: hw, y: hh } }
}

#[test]
fn still_separate_rectangles_never_collide() {
    let ball = rect(0, 0, 15, 15);
    let wall = rect(100, 0, 5, 305);
    let r = detect(&ball, &Vec2 { x: 0, y: 0 }, &wall, 16);
    assert!(r.is_none());
}

#[test]
fn still_overlapping_rectangles_report_no_crossing() {
    let ball = rect(0, 0, 15, 15);
    let wall = rect(10, 0, 15, 15);
    let r = detect(&ball, &Vec2 { x: 0, y: 0 }, &wall, 16).unwrap();
    assert_eq!(r.x, CollisionX::Miss);
    assert_eq!(r.y, CollisionY::Miss);
}

#[test]
fn crossing_from_fully_left_reports_left_edge_site() {
    // Ball fully left of the obstacle, moving right far enough to overlap
    // within one tick: the obstacle's left edge is crossed and the site is
    // where the ball's centre rests against it.
    let ball = rect(0, 0, 15, 15);
    let obstacle = rect(100, 0, 5, 305);
    let r = detect(&ball, &Vec2 { x: 6000, y: 0 }, &obstacle, 16).unwrap();
    assert_eq!(r.x, CollisionX::Left);
    assert_eq!(r.x_site, 100 - 5 - 15);
    assert_eq!(r.y, CollisionY::Miss);
}

#[test]
fn crossing_from_right_reports_right_edge_site() {
    let ball = rect(200, 0, 15, 15);
    let obstacle = rect(100, 0, 5, 305);
    let r = detect(&ball, &Vec2 { x: -6000, y: 0 }, &obstacle, 16).unwrap();
    assert_eq!(r.x, CollisionX::Right);
    assert_eq!(r.x_site, 100 + 5 + 15);
}

#[test]
fn corner_hit_reports_both_axes() {
    // The ball approaches the obstacle's lower-left corner diagonally and
    // crosses both edges in the same tick.
    let ball = rect(0, 0, 10, 10);
    let obstacle = rect(100, 100, 20, 20);
    let r = detect(&ball, &Vec2 { x: 8000, y: 8000 }, &obstacle, 10).unwrap();
    assert_eq!(r.x, CollisionX::Left);
    assert_eq!(r.y, CollisionY::Bottom);
    assert_eq!(r.x_site, 100 - 20 - 10);
    assert_eq!(r.y_site, 100 - 20 - 10);
}

#[test]
fn tunnelling_fast_ball_is_still_classified_by_previous_position() {
    // The ball jumps most of the way through the obstacle in one tick;
    // intersection alone would misread the side, the previous position
    // settles it.
    let ball = rect(0, 0, 15, 15);
    let obstacle = rect(60, 0, 20, 20);
    let r = detect(&ball, &Vec2 { x: 70000, y: 0 }, &obstacle, 1).unwrap();
    assert_eq!(r.x, CollisionX::Left);
    assert_eq!(r.x_site, 60 - 20 - 15);
}

#[test]
fn integer_square_root_brackets() {
    assert_eq!(isqrt_u64(0), 0);
    assert_eq!(isqrt_u64(1), 1);
    assert_eq!(isqrt_u64(3), 1);
    assert_eq!(isqrt_u64(4), 2);
    assert_eq!(isqrt_u64(160178), 400);
    assert_eq!(isqrt_u64(u64::MAX), 4294967295);
}

#[test]
fn sine_approximation_hits_known_angles() {
    assert_eq!(sin_q(0), 0);
    assert_eq!(sin_q(90000), 10000);
    assert_eq!(sin_q(180000), 0);
    // A half turn's sixth: the approximation is exact at thirty degrees.
    assert_eq!(sin_q(30000), 5000);
}

#[test]
fn wrap_folds_once_into_range() {
    assert_eq!(wrap_i64(-27000, 0, 180000), 153000);
    assert_eq!(wrap_i64(190000, 0, 180000), 10000);
    assert_eq!(wrap_i64(90000, 0, 180000), 90000);
}
