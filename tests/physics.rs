use breakout::entities::{isqrt_small, BALL_SIZE, BLOCK_H, BLOCK_W, PLAYER_H, PLAYER_W, UNIT};
use breakout::geometry::{Rect, Vec2, PX};
use breakout::{resolve_collision, Ball, Block, Player};

fn px_rect(x: i64, y: i64, w: i64, h: i64) -> Rect {
    Rect::new(x * PX, y * PX, w * PX, h * PX)
}

#[test]
fn resolve_leaves_disjoint_pair_alone() {
    let mut a = px_rect(0, 0, 50, 50);
    let mut v = Vec2::new(300, -954);
    let b = px_rect(200, 200, 100, 40);
    assert!(!resolve_collision(&mut a, &mut v, &b));
    assert_eq!(a, px_rect(0, 0, 50, 50));
    assert_eq!(v, Vec2::new(300, -954));
}

#[test]
fn resolve_treats_touching_edges_as_apart() {
    let mut a = px_rect(0, 0, 50, 50);
    let mut v = Vec2::new(0, 1000);
    let b = px_rect(0, 50, 100, 40);
    assert!(!resolve_collision(&mut a, &mut v, &b));
    assert_eq!(a, px_rect(0, 0, 50, 50));
    assert_eq!(v, Vec2::new(0, 1000));
}

#[test]
fn resolve_vertical_hit_from_above() {
    let mut a = px_rect(0, 0, 50, 50);
    let mut v = Vec2::new(200, 979);
    let b = px_rect(-25, 40, 100, 40);
    assert!(resolve_collision(&mut a, &mut v, &b));
    assert_eq!(a, px_rect(0, -10, 50, 50));
    assert_eq!(v, Vec2::new(200, -979));
    assert!(a.intersect(&b).is_none());
}

#[test]
fn resolve_vertical_hit_from_below() {
    let mut a = px_rect(0, 70, 50, 50);
    let mut v = Vec2::new(-200, -979);
    let b = px_rect(-25, 40, 100, 40);
    assert!(resolve_collision(&mut a, &mut v, &b));
    assert_eq!(a, px_rect(0, 80, 50, 50));
    assert_eq!(v, Vec2::new(-200, 979));
    assert!(a.intersect(&b).is_none());
}

#[test]
fn resolve_horizontal_hit_from_the_left() {
    let mut a = px_rect(90, 0, 50, 50);
    let mut v = Vec2::new(1000, 0);
    let b = px_rect(100, -100, 100, 300);
    assert!(resolve_collision(&mut a, &mut v, &b));
    assert_eq!(a, px_rect(50, 0, 50, 50));
    assert_eq!(v, Vec2::new(-1000, 0));
    assert!(a.intersect(&b).is_none());
}

#[test]
fn resolve_horizontal_hit_from_the_right() {
    let mut a = px_rect(190, 0, 50, 50);
    let mut v = Vec2::new(-707, 707);
    let b = px_rect(100, -100, 100, 300);
    assert!(resolve_collision(&mut a, &mut v, &b));
    assert_eq!(a, px_rect(200, 0, 50, 50));
    assert_eq!(v, Vec2::new(707, 707));
}

#[test]
fn resolve_square_overlap_goes_horizontal() {
    let mut a = px_rect(0, 0, 50, 50);
    let mut v = Vec2::new(600, 800);
    let b = px_rect(40, 40, 100, 100);
    assert!(resolve_collision(&mut a, &mut v, &b));
    assert_eq!(a, px_rect(-10, 0, 50, 50));
    assert_eq!(v, Vec2::new(-600, 800));
}

#[test]
fn intersect_gives_common_region() {
    let a = px_rect(0, 0, 50, 50);
    let b = px_rect(-25, 40, 100, 40);
    assert_eq!(a.intersect(&b), Some(px_rect(0, 40, 50, 10)));
    assert_eq!(b.intersect(&a), Some(px_rect(0, 40, 50, 10)));
    assert_eq!(a.intersect(&px_rect(60, 0, 10, 10)), None);
}

#[test]
fn signum_maps_zero_to_plus_one() {
    assert_eq!(Vec2::new(0, -5).signum(), Vec2::new(1, -1));
    assert_eq!(Vec2::new(-7, 3).signum(), Vec2::new(-1, 1));
}

#[test]
fn player_starts_centred_above_bottom() {
    let p = Player::new(800 * PX, 600 * PX);
    assert_eq!(p.rect, Rect::new(325 * PX, 500 * PX, PLAYER_W, PLAYER_H));
}

#[test]
fn player_moves_by_speed_and_time() {
    let mut p = Player::new(800 * PX, 600 * PX);
    p.update(true, false, 10, 800 * PX);
    assert_eq!(p.rect.x, 325 * PX - 9 * PX);
    p.update(false, true, 20, 800 * PX);
    assert_eq!(p.rect.x, 325 * PX + 9 * PX);
}

#[test]
fn player_holds_still_on_both_or_neither() {
    let mut p = Player::new(800 * PX, 600 * PX);
    p.update(true, true, 16, 800 * PX);
    assert_eq!(p.rect.x, 325 * PX);
    p.update(false, false, 16, 800 * PX);
    assert_eq!(p.rect.x, 325 * PX);
}

#[test]
fn player_is_clamped_to_the_field() {
    let mut p = Player::new(800 * PX, 600 * PX);
    p.update(true, false, 60_000, 800 * PX);
    assert_eq!(p.rect.x, 0);
    p.update(true, false, 16, 800 * PX);
    assert_eq!(p.rect.x, 0);
    p.update(false, true, 60_000, 800 * PX);
    assert_eq!(p.rect.x, 650 * PX);
    p.update(false, true, 0, 800 * PX);
    assert_eq!(p.rect.x, 650 * PX);
    for dt in [0i64, 1, 7, 16, 33, 250, 1000] {
        for (l, r) in [(true, false), (false, true), (true, true), (false, false)] {
            p.update(l, r, dt, 800 * PX);
            assert!(p.rect.x >= 0 && p.rect.x <= 800 * PX - p.rect.w);
        }
    }
}

#[test]
fn block_starts_with_two_hit_points() {
    let b = Block::new(Vec2::new(5 * PX, 7 * PX));
    assert_eq!(b.rect, Rect::new(5 * PX, 7 * PX, BLOCK_W, BLOCK_H));
    assert_eq!(b.hit_points, 2);
    assert!(b.is_intact());
    assert!(b.is_alive());
}

#[test]
fn block_is_destroyed_by_its_second_hit() {
    let mut b = Block::new(Vec2::new(0, 0));
    assert!(!b.hit());
    assert_eq!(b.hit_points, 1);
    assert!(!b.is_intact());
    assert!(b.is_alive());
    assert!(b.hit());
    assert_eq!(b.hit_points, 0);
    assert!(!b.is_alive());
    assert!(!b.hit());
    assert_eq!(b.hit_points, -1);
}

#[test]
fn integer_square_root_rounds_down() {
    assert_eq!(isqrt_small(1), 1);
    assert_eq!(isqrt_small(3), 1);
    assert_eq!(isqrt_small(4), 2);
    assert_eq!(isqrt_small(1_000_000), 1000);
    assert_eq!(isqrt_small(2_000_000), 1414);
    assert_eq!(isqrt_small(4_000_000), 2000);
}

#[test]
fn ball_direction_is_scaled_to_unit_length() {
    let pos = Vec2::new(3 * PX, 4 * PX);
    let b = Ball::with_direction(pos, 0);
    assert_eq!(b.rect, Rect::new(3 * PX, 4 * PX, BALL_SIZE, BALL_SIZE));
    assert_eq!(b.vel, Vec2::new(0, UNIT));
    assert_eq!(Ball::with_direction(pos, 1000).vel, Vec2::new(707, 707));
    assert_eq!(Ball::with_direction(pos, -1000).vel, Vec2::new(-707, 707));
    assert_eq!(Ball::with_direction(pos, 500).vel, Vec2::new(447, 894));
}

#[test]
fn random_ball_heads_down_within_range() {
    for _ in 0..200 {
        let b = Ball::new(Vec2::new(PX, 2 * PX));
        assert_eq!(b.rect, Rect::new(PX, 2 * PX, BALL_SIZE, BALL_SIZE));
        assert!(b.vel.x >= -707 && b.vel.x <= 707);
        assert!(b.vel.y >= 707 && b.vel.y <= UNIT);
    }
}

#[test]
fn ball_moves_along_its_direction() {
    let mut b = Ball::with_direction(Vec2::new(100 * PX, 100 * PX), 1000);
    b.update(10, 800 * PX);
    assert_eq!(b.rect.x, 100 * PX + 707 * 10 * 400);
    assert_eq!(b.rect.y, 100 * PX + 707 * 10 * 400);
    assert_eq!(b.vel, Vec2::new(707, 707));
}

#[test]
fn ball_reflects_at_left_top_and_right_edges() {
    let mut b = Ball::with_direction(Vec2::new(PX, PX), -1000);
    b.vel = Vec2::new(-707, -707);
    b.update(10, 800 * PX);
    assert_eq!(b.vel, Vec2::new(707, 707));
    let mut c = Ball::with_direction(Vec2::new(749 * PX, 300 * PX), 1000);
    c.update(10, 800 * PX);
    assert_eq!(c.vel, Vec2::new(-707, 707));
    let mut d = Ball::with_direction(Vec2::new(300 * PX, 900 * PX), 0);
    d.update(10, 800 * PX);
    assert_eq!(d.vel, Vec2::new(0, UNIT));
    assert!(d.is_lost(600 * PX));
}

#[test]
fn ball_speed_survives_reflections_and_collisions() {
    let mut b = Ball::with_direction(Vec2::new(10 * PX, 10 * PX), 500);
    let start = b.vel;
    let targets = [px_rect(0, 30, 100, 40), px_rect(50, -100, 30, 400), px_rect(-40, -40, 60, 60)];
    for round in 0..300 {
        b.update(16, 200 * PX);
        let t = targets[round % 3];
        b.bounce(&t);
        assert_eq!(b.vel.x.abs(), start.x.abs());
        assert_eq!(b.vel.y.abs(), start.y.abs());
    }
}

#[test]
fn random_balls_vary_in_direction() {
    let first = Ball::new(Vec2::new(0, 0)).vel;
    let mut differs = false;
    for _ in 0..200 {
        if Ball::new(Vec2::new(0, 0)).vel != first {
            differs = true;
        }
    }
    assert!(differs);
}
