use breakout::entities::{BALL_SIZE, UNIT};
use breakout::geometry::{Rect, Vec2, PX};
use breakout::{Ball, Block, Game, GameState, Input};

const W: i64 = 800 * PX;
const H: i64 = 600 * PX;

fn idle() -> Input {
    Input { left: false, right: false, confirm: false, spawn: false }
}

fn confirm() -> Input {
    Input { left: false, right: false, confirm: true, spawn: false }
}

fn frame(g: &mut Game, input: Input, dt: i64) {
    assert!(g.can_advance());
    g.update_with(input, dt, 0);
}

fn playing() -> Game {
    let mut g = Game::with_ball_direction(W, H, 0);
    frame(&mut g, confirm(), 16);
    assert_eq!(g.state, GameState::Game);
    g
}

#[test]
fn new_session_has_grid_ball_and_lives() {
    let g = Game::with_ball_direction(W, H, 0);
    assert_eq!(g.state, GameState::Menu);
    assert_eq!(g.score, 0);
    assert_eq!(g.lives, 3);
    assert_eq!(g.blocks.len(), 36);
    assert_eq!(g.blocks[0].rect, Rect::new(85 * PX, 50 * PX, 100 * PX, 40 * PX));
    assert_eq!(g.blocks[7].rect, Rect::new(190 * PX, 95 * PX, 100 * PX, 40 * PX));
    assert_eq!(g.blocks[35].rect, Rect::new(610 * PX, 275 * PX, 100 * PX, 40 * PX));
    assert!(g.blocks.iter().all(|b| b.hit_points == 2));
    assert_eq!(g.balls.len(), 1);
    assert_eq!(g.balls[0].rect, Rect::new(400 * PX, 400 * PX, BALL_SIZE, BALL_SIZE));
    assert_eq!(g.balls[0].vel, Vec2::new(0, UNIT));
    assert_eq!(g.player.rect.x, 325 * PX);
    let r = Game::new(W, H);
    assert_eq!(r.blocks.len(), 36);
    assert!(r.balls[0].vel.y >= 707);
}

#[test]
fn menu_waits_for_confirm() {
    let mut g = Game::with_ball_direction(W, H, 0);
    let moving = Input { left: true, right: false, confirm: false, spawn: true };
    frame(&mut g, moving, 16);
    assert_eq!(g.state, GameState::Menu);
    assert_eq!(g.balls.len(), 1);
    assert_eq!(g.balls[0].rect.y, 400 * PX);
    assert_eq!(g.player.rect.x, 325 * PX);
    frame(&mut g, confirm(), 16);
    assert_eq!(g.state, GameState::Game);
    assert_eq!(g.balls[0].rect.y, 400 * PX);
}

#[test]
fn end_screens_return_to_menu_without_reset() {
    let mut g = playing();
    g.state = GameState::Dead;
    g.score = 40;
    frame(&mut g, idle(), 16);
    assert_eq!(g.state, GameState::Dead);
    assert_eq!(g.balls[0].rect.y, 400 * PX);
    frame(&mut g, confirm(), 16);
    assert_eq!(g.state, GameState::Menu);
    assert_eq!(g.score, 40);
    g.state = GameState::LevelCompleted;
    frame(&mut g, confirm(), 16);
    assert_eq!(g.state, GameState::Menu);
    frame(&mut g, confirm(), 16);
    assert_eq!(g.state, GameState::Game);
    assert_eq!(g.score, 40);
    assert_eq!(g.blocks.len(), 36);
}

#[test]
fn spawn_adds_a_ball_during_play() {
    let mut g = playing();
    let spawn = Input { left: false, right: false, confirm: false, spawn: true };
    g.update_with(spawn, 0, 1000);
    assert_eq!(g.balls.len(), 2);
    assert_eq!(g.balls[1].rect, Rect::new(400 * PX, 400 * PX, BALL_SIZE, BALL_SIZE));
    assert_eq!(g.balls[1].vel, Vec2::new(707, 707));
    g.update(spawn, 0);
    assert_eq!(g.balls.len(), 3);
}

#[test]
fn straight_falling_ball_breaks_bottom_block() {
    let mut g = playing();
    let mut frames = 0;
    while g.score < 10 {
        frame(&mut g, idle(), 16);
        frames += 1;
        assert!(frames < 2000, "no block destroyed");
        assert_eq!(g.balls.len(), 1);
        assert_eq!(g.balls[0].vel.x, 0);
    }
    assert_eq!(g.blocks.len(), 35);
    assert_eq!(g.lives, 3);
    assert_eq!(g.state, GameState::Game);
    assert!(g.blocks.iter().all(|b| b.rect != Rect::new(400 * PX, 275 * PX, 100 * PX, 40 * PX)));
}

#[test]
fn losing_last_ball_costs_a_life() {
    let mut g = playing();
    g.balls[0] = Ball::with_direction(Vec2::new(10 * PX, 610 * PX), 0);
    frame(&mut g, idle(), 16);
    assert_eq!(g.balls.len(), 0);
    assert_eq!(g.lives, 2);
    assert_eq!(g.state, GameState::Game);
}

#[test]
fn losing_one_of_two_balls_keeps_lives() {
    let mut g = playing();
    g.balls[0] = Ball::with_direction(Vec2::new(10 * PX, 610 * PX), 0);
    g.balls.push(Ball::with_direction(Vec2::new(700 * PX, 350 * PX), 0));
    frame(&mut g, idle(), 16);
    assert_eq!(g.balls.len(), 1);
    assert_eq!(g.lives, 3);
    assert_eq!(g.state, GameState::Game);
}

#[test]
fn losing_the_final_life_ends_in_dead() {
    let mut g = playing();
    g.lives = 1;
    g.balls[0] = Ball::with_direction(Vec2::new(10 * PX, 610 * PX), 0);
    frame(&mut g, idle(), 16);
    assert_eq!(g.lives, 0);
    assert_eq!(g.state, GameState::Dead);
}

#[test]
fn clearing_every_block_at_once_completes_the_level() {
    let mut g = playing();
    g.balls[0] = Ball::with_direction(Vec2::new(100 * PX, 100 * PX), 0);
    let mut below = Block::new(Vec2::new(100 * PX, 140 * PX));
    below.hit_points = 1;
    let mut above = Block::new(Vec2::new(100 * PX, 60 * PX));
    above.hit_points = 1;
    g.blocks = vec![below, above];
    g.score = 30;
    frame(&mut g, idle(), 0);
    assert_eq!(g.blocks.len(), 0);
    assert_eq!(g.score, 50);
    assert_eq!(g.state, GameState::LevelCompleted);
    assert_eq!(g.balls[0].rect.y, 100 * PX);
    let ball = g.balls[0];
    frame(&mut g, idle(), 16);
    assert_eq!(g.state, GameState::LevelCompleted);
    assert_eq!(g.balls[0], ball);
    assert_eq!(g.score, 50);
}

#[test]
fn block_loses_one_point_per_hit_and_scores_once() {
    let mut g = playing();
    g.balls[0] = Ball::with_direction(Vec2::new(100 * PX, 100 * PX), 0);
    g.balls.push(Ball::with_direction(Vec2::new(100 * PX, 100 * PX), 0));
    g.balls.push(Ball::with_direction(Vec2::new(100 * PX, 100 * PX), 0));
    let block = Block::new(Vec2::new(100 * PX, 140 * PX));
    let far = Block::new(Vec2::new(600 * PX, 50 * PX));
    g.blocks = vec![block, far];
    g.score = 0;
    frame(&mut g, idle(), 0);
    // the first ball is pushed clear; the other two still overlap after it and hit too
    assert_eq!(g.blocks.len(), 1);
    assert_eq!(g.blocks[0], far);
    assert_eq!(g.score, 10);
}

#[test]
fn far_away_ball_stops_the_session() {
    let mut g = playing();
    assert!(g.can_advance());
    g.balls[0].rect.x = breakout::entities::ARENA + 1;
    assert!(!g.can_advance());
    g.balls[0].rect.x = 0;
    g.lives = i64::MIN;
    assert!(!g.can_advance());
}
