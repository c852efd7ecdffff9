use vstd::prelude::*;

use crate::collision::resolved;
use crate::entities::{
    direction_ok, gen_range, in_arena, lemma_ball_step_bound, lemma_unit_direction_ok, move_dir,
    moved_ball, paddle_x, unit_direction, Ball, Block, Player, ARENA, BALL_SIZE, BLOCK_H,
    BLOCK_HIT_POINTS, BLOCK_W, MAX_DT, PLAYER_H, PLAYER_LIFT, PLAYER_W, UNIT,
};
use crate::geometry::{abs_int, Rect, Vec2, PX};

verus! {

pub const GRID_COLS: usize = 6;

pub const GRID_ROWS: usize = 6;

/// Gap between neighbouring blocks of the grid.
pub const BLOCK_PADDING: i64 = 5 * PX;

/// Distance from the top of the playfield to the first row of blocks.
pub const BOARD_TOP: i64 = 50 * PX;

pub const START_LIVES: i64 = 3;

/// Points for each destroyed block.
pub const BLOCK_SCORE: u64 = 10;

/// Most balls that may be in play at once.
pub const MAX_BALLS: usize = 1_000_000;

/// Most blocks that a session may hold.
pub const MAX_BLOCKS: usize = 1_000_000;

/// The mode of the game.
#[derive(Clone, Copy, Debug, PartialEq, Eq, Structural)]
pub enum GameState {
    Menu,
    Game,
    LevelCompleted,
    Dead,
}

/// The input signals of one frame.
#[derive(Clone, Copy, Debug, PartialEq, Eq, Structural)]
pub struct Input {
    pub left: bool,
    pub right: bool,
    /// Start or confirm.
    pub confirm: bool,
    /// Spawn an extra ball.
    pub spawn: bool,
}

/// A whole game session.
pub struct Game {
    pub field_w: i64,
    pub field_h: i64,
    pub score: u64,
    pub lives: i64,
    pub state: GameState,
    pub player: Player,
    pub blocks: Vec<Block>,
    pub balls: Vec<Ball>,
}

/// The mathematical model of a game session.
pub ghost struct GameView {
    pub field_w: int,
    pub field_h: int,
    pub score: int,
    pub lives: int,
    pub state: GameState,
    pub player: Player,
    pub blocks: Seq<Block>,
    pub balls: Seq<Ball>,
}

impl View for Game {
    type V = GameView;

    open spec fn view(&self) -> GameView {
        GameView {
            field_w: self.field_w as int,
            field_h: self.field_h as int,
            score: self.score as int,
            lives: self.lives as int,
            state: self.state,
            player: self.player,
            blocks: self.blocks@,
            balls: self.balls@,
        }
    }
}

/// Where new balls appear: half the field's width across and down.
pub open spec fn spawn_point(field_w: int) -> Vec2 {
    Vec2 { x: (field_w / 2) as i64, y: (field_w / 2) as i64 }
}

/// The ball spawned with horizontal direction component `h`.
pub open spec fn spawned_ball(field_w: int, h: int) -> Ball {
    Ball {
        rect: Rect { x: spawn_point(field_w).x, y: spawn_point(field_w).y, w: BALL_SIZE, h: BALL_SIZE },
        vel: unit_direction(h),
    }
}

/// Block `i` of the starting grid, counted row by row.
pub open spec fn grid_block(field_w: int, i: int) -> Block {
    let start_x = field_w / 2 - (BLOCK_W + BLOCK_PADDING) * GRID_COLS / 2;
    Block {
        rect: Rect {
            x: (start_x + (i % GRID_COLS as int) * (BLOCK_W + BLOCK_PADDING)) as i64,
            y: (BOARD_TOP + (i / GRID_COLS as int) * (BLOCK_H + BLOCK_PADDING)) as i64,
            w: BLOCK_W,
            h: BLOCK_H,
        },
        hit_points: BLOCK_HIT_POINTS,
    }
}

/// The ball after a collision against `r` is resolved, if there is one.
pub open spec fn bounced(b: Ball, r: Rect) -> Ball {
    if b.rect.overlaps(r) {
        Ball { rect: resolved(b.rect, b.vel, r).0, vel: resolved(b.rect, b.vel, r).1 }
    } else {
        b
    }
}

pub open spec fn rects_of(blocks: Seq<Block>) -> Seq<Rect> {
    blocks.map_values(|b: Block| b.rect)
}

/// The ball after bouncing off the first `n` of `rects`, in order.
pub open spec fn sweep(b: Ball, rects: Seq<Rect>, n: int) -> Ball
    decreases n,
{
    if n <= 0 {
        b
    } else {
        bounced(sweep(b, rects, n - 1), rects[n - 1])
    }
}

/// In its pass over `rects`, the ball collides with `rects[k]`.
pub open spec fn hits_block(b: Ball, rects: Seq<Rect>, k: int) -> bool {
    sweep(b, rects, k).rect.overlaps(rects[k])
}

/// How many of the first `i` balls collide with `rects[k]` in their pass.
pub open spec fn hit_count(balls: Seq<Ball>, rects: Seq<Rect>, k: int, i: int) -> int
    decreases i,
{
    if i <= 0 {
        0
    } else {
        hit_count(balls, rects, k, i - 1) + if hits_block(balls[i - 1], rects, k) {
            1int
        } else {
            0int
        }
    }
}

pub open spec fn on_field(field_h: int) -> spec_fn(Ball) -> bool {
    |b: Ball| b.rect.y < field_h
}

pub open spec fn alive() -> spec_fn(Block) -> bool {
    |b: Block| b.hit_points > 0
}

/// The balls of a frame, with the optional new one.
pub open spec fn balls_with_spawn(g: GameView, input: Input, h: int) -> Seq<Ball> {
    if input.spawn {
        g.balls.push(spawned_ball(g.field_w, h))
    } else {
        g.balls
    }
}

/// The paddle after the frame's movement.
pub open spec fn moved_player(g: GameView, input: Input, dt: int) -> Player {
    Player {
        rect: Rect {
            x: paddle_x(g.player.rect.x as int, move_dir(input.left, input.right), dt, g.field_w, g.player.rect.w as int) as i64,
            ..g.player.rect
        },
    }
}

/// Each ball after its free motion and its bounce off the paddle.
pub open spec fn starts(g: GameView, input: Input, dt: int, h: int) -> Seq<Ball> {
    balls_with_spawn(g, input, h).map_values(
        |b: Ball| bounced(moved_ball(b, dt, g.field_w), moved_player(g, input, dt).rect),
    )
}

/// Each ball after its pass over every block.
pub open spec fn swept(g: GameView, input: Input, dt: int, h: int) -> Seq<Ball> {
    starts(g, input, dt, h).map_values(|b: Ball| sweep(b, rects_of(g.blocks), g.blocks.len() as int))
}

/// Each block with one hit point less for every ball that collided with it.
pub open spec fn hit_blocks(g: GameView, input: Input, dt: int, h: int) -> Seq<Block> {
    Seq::new(
        g.blocks.len(),
        |k: int|
            Block {
                hit_points: (g.blocks[k].hit_points - hit_count(
                    starts(g, input, dt, h),
                    rects_of(g.blocks),
                    k,
                    starts(g, input, dt, h).len() as int,
                )) as i64,
                ..g.blocks[k]
            },
    )
}

/// One frame of play: spawn, paddle, balls, collisions, then the removal of lost
/// balls and destroyed blocks with their effect on lives, score and mode.
pub open spec fn step_view(g: GameView, input: Input, dt: int, h: int) -> GameView {
    let balls = swept(g, input, dt, h).filter(on_field(g.field_h));
    let blocks = hit_blocks(g, input, dt, h).filter(alive());
    let lost_last = balls_with_spawn(g, input, h).len() == 1 && balls.len() == 0;
    let lives = if lost_last { g.lives - 1 } else { g.lives };
    GameView {
        score: g.score + BLOCK_SCORE * (g.blocks.len() - blocks.len()),
        lives,
        state: if blocks.len() == 0 {
            GameState::LevelCompleted
        } else if lost_last && lives <= 0 {
            GameState::Dead
        } else {
            GameState::Game
        },
        player: moved_player(g, input, dt),
        blocks,
        balls,
        ..g
    }
}

/// One frame in any mode: the menu and the two end screens only wait for the
/// confirm signal; play runs one step.
pub open spec fn frame_view(g: GameView, input: Input, dt: int, h: int) -> GameView {
    match g.state {
        GameState::Menu => if input.confirm {
            GameView { state: GameState::Game, ..g }
        } else {
            g
        },
        GameState::LevelCompleted | GameState::Dead => if input.confirm {
            GameView { state: GameState::Menu, ..g }
        } else {
            g
        },
        GameState::Game => step_view(g, input, dt, h),
    }
}

/// The rectangle lies within twice the arena's range: where a ball can be in the
/// middle of a frame.
pub open spec fn near(r: Rect) -> bool {
    r.fits() && -2 * ARENA <= r.x <= 2 * ARENA && -2 * ARENA <= r.y <= 2 * ARENA
}

proof fn lemma_bounce_stays_near(b: Ball, r: Rect)
    requires
        near(b.rect),
        direction_ok(b.vel),
        in_arena(r),
    ensures
        near(bounced(b, r).rect),
        direction_ok(bounced(b, r).vel),
        bounced(b, r).rect.w == b.rect.w,
        bounced(b, r).rect.h == b.rect.h,
{
}

proof fn lemma_hit_count_range(balls: Seq<Ball>, rects: Seq<Rect>, k: int, i: int)
    requires
        0 <= i,
    ensures
        0 <= hit_count(balls, rects, k, i) <= i,
    decreases i,
{
    if i > 0 {
        lemma_hit_count_range(balls, rects, k, i - 1);
    }
}

proof fn lemma_filter_keeps<A>(s: Seq<A>, pred: spec_fn(A) -> bool, inv: spec_fn(A) -> bool)
    requires
        forall|i: int| 0 <= i < s.len() ==> inv(#[trigger] s[i]),
    ensures
        forall|i: int| 0 <= i < s.filter(pred).len() ==> inv(#[trigger] s.filter(pred)[i]),
        forall|i: int| 0 <= i < s.filter(pred).len() ==> pred(#[trigger] s.filter(pred)[i]),
        s.filter(pred).len() <= s.len(),
    decreases s.len(),
{
    reveal(Seq::filter);
    if s.len() > 0 {
        lemma_filter_keeps(s.drop_last(), pred, inv);
    }
}

proof fn lemma_moved_near(b: Ball, dt: int, field_w: int)
    requires
        in_arena(b.rect),
        direction_ok(b.vel),
        0 <= dt <= MAX_DT,
    ensures
        near(moved_ball(b, dt, field_w).rect),
        direction_ok(moved_ball(b, dt, field_w).vel),
{
    lemma_ball_step_bound(b.vel.x as int, dt);
    lemma_ball_step_bound(b.vel.y as int, dt);
}

proof fn lemma_sweep_near(b: Ball, rects: Seq<Rect>, n: int)
    requires
        near(b.rect),
        direction_ok(b.vel),
        n <= rects.len(),
        forall|k: int| 0 <= k < rects.len() ==> in_arena(#[trigger] rects[k]),
    ensures
        near(sweep(b, rects, n).rect),
        direction_ok(sweep(b, rects, n).vel),
    decreases n,
{
    if n > 0 {
        lemma_sweep_near(b, rects, n - 1);
        lemma_bounce_stays_near(sweep(b, rects, n - 1), rects[n - 1]);
    }
}

/// A frame of play keeps the session's invariant.
pub proof fn lemma_step_keeps_wf(g: GameView, input: Input, dt: int, h: int)
    requires
        g.can_advance(),
        0 <= dt <= MAX_DT,
        -UNIT <= h <= UNIT,
    ensures
        step_view(g, input, dt, h).wf(),
{
    let bws = balls_with_spawn(g, input, h);
    let player = moved_player(g, input, dt);
    let st = starts(g, input, dt, h);
    let rects = rects_of(g.blocks);
    let sw = swept(g, input, dt, h);
    assert forall|i: int| #![trigger bws[i]] 0 <= i < bws.len() implies in_arena(bws[i].rect) && direction_ok(
        bws[i].vel,
    ) by {
        if i == g.balls.len() {
            lemma_unit_direction_ok(h);
        }
    }
    assert forall|i: int| #![trigger sw[i]] 0 <= i < sw.len() implies near(sw[i].rect) && direction_ok(
        sw[i].vel,
    ) by {
        assert(in_arena(bws[i].rect) && direction_ok(bws[i].vel));
        lemma_moved_near(bws[i], dt, g.field_w);
        lemma_bounce_stays_near(moved_ball(bws[i], dt, g.field_w), player.rect);
        lemma_sweep_near(st[i], rects, g.blocks.len() as int);
    }
    lemma_filter_keeps(sw, on_field(g.field_h), |b: Ball| near(b.rect) && direction_ok(b.vel));
    let hb = hit_blocks(g, input, dt, h);
    lemma_filter_keeps(hb, alive(), |b: Block| in_arena(b.rect));
}

/// In a frame of play every block loses one hit point per collision resolved
/// against it and nothing else, exactly the blocks left with no hit points are
/// removed, and the score grows by `BLOCK_SCORE` per removed block.
pub proof fn lemma_step_blocks_and_score(g: GameView, input: Input, dt: int, h: int)
    requires
        g.can_advance(),
        0 <= dt <= MAX_DT,
        -UNIT <= h <= UNIT,
    ensures
        ({
            let hb = hit_blocks(g, input, dt, h);
            let st = starts(g, input, dt, h);
            let next = step_view(g, input, dt, h);
            &&& hb.len() == g.blocks.len()
            &&& forall|k: int|
                0 <= k < hb.len() ==> #[trigger] hb[k].rect == g.blocks[k].rect && hb[k].hit_points
                    == g.blocks[k].hit_points - hit_count(st, rects_of(g.blocks), k, st.len() as int)
                    && 0 <= hit_count(st, rects_of(g.blocks), k, st.len() as int) <= st.len()
            &&& next.blocks == hb.filter(alive())
            &&& forall|k: int| 0 <= k < hb.len() && hb[k].hit_points > 0 ==> next.blocks.contains(#[trigger] hb[k])
            &&& forall|k: int| 0 <= k < next.blocks.len() ==> #[trigger] next.blocks[k].hit_points > 0
            &&& next.score == g.score + BLOCK_SCORE * (g.blocks.len() - next.blocks.len())
        }),
{
    let hb = hit_blocks(g, input, dt, h);
    let st = starts(g, input, dt, h);
    assert forall|k: int| 0 <= k < hb.len() implies #[trigger] hb[k].rect == g.blocks[k].rect && hb[k].hit_points
        == g.blocks[k].hit_points - hit_count(st, rects_of(g.blocks), k, st.len() as int)
        && 0 <= hit_count(st, rects_of(g.blocks), k, st.len() as int) <= st.len() by {
        lemma_hit_count_range(st, rects_of(g.blocks), k, st.len() as int);
        assert(g.blocks[k].hit_points > 0);
    }
    lemma_filter_keeps(hb, alive(), |b: Block| true);
    assert forall|k: int| 0 <= k < hb.len() && hb[k].hit_points > 0 implies step_view(g, input, dt, h).blocks.contains(#[trigger] hb[k]) by {
        hb.lemma_filter_contains(alive(), k);
    }
}

/// The mode machine: the menu moves to play on the confirm signal alone and then
/// changes nothing else; the end screens run no simulation and go back to the
/// menu on the confirm signal; a frame of play ends in `LevelCompleted` exactly
/// when no block is left, and otherwise in `Dead` exactly when the last ball was
/// lost and no life is left.
pub proof fn lemma_frame_modes(g: GameView, input: Input, dt: int, h: int)
    ensures
        g.state == GameState::Menu ==> frame_view(g, input, dt, h) == (GameView {
            state: if input.confirm {
                GameState::Game
            } else {
                GameState::Menu
            },
            ..g
        }),
        g.state == GameState::LevelCompleted || g.state == GameState::Dead ==> frame_view(g, input, dt, h)
            == (GameView {
            state: if input.confirm {
                GameState::Menu
            } else {
                g.state
            },
            ..g
        }),
        g.state == GameState::Game ==> ({
            let next = frame_view(g, input, dt, h);
            let lost_last = balls_with_spawn(g, input, h).len() == 1 && next.balls.len() == 0;
            &&& (next.state == GameState::LevelCompleted <==> next.blocks.len() == 0)
            &&& (next.state == GameState::Dead <==> (next.blocks.len() > 0 && lost_last && next.lives <= 0))
            &&& next.lives == (if lost_last { g.lives - 1 } else { g.lives })
            &&& (next.state == GameState::Game || next.state == GameState::LevelCompleted || next.state
                == GameState::Dead)
        }),
{
}

/// One thing that can happen to a ball: free motion, or a possible collision
/// with a static rectangle.
pub enum BallMove {
    Advance { dt: i64, field_w: i64 },
    Bounce { target: Rect },
}

/// The ball after the moves, in order.
pub open spec fn apply_moves(b: Ball, moves: Seq<BallMove>) -> Ball
    decreases moves.len(),
{
    if moves.len() == 0 {
        b
    } else {
        let before = apply_moves(b, moves.drop_last());
        match moves.last() {
            BallMove::Advance { dt, field_w } => moved_ball(before, dt as int, field_w as int),
            BallMove::Bounce { target } => bounced(before, target),
        }
    }
}

/// Across any sequence of motions, edge reflections and resolved collisions a
/// ball's direction only changes signs: the magnitude of each component stays.
pub proof fn lemma_moves_keep_speed(b: Ball, moves: Seq<BallMove>)
    requires
        direction_ok(b.vel),
    ensures
        abs_int(apply_moves(b, moves).vel.x as int) == abs_int(b.vel.x as int),
        abs_int(apply_moves(b, moves).vel.y as int) == abs_int(b.vel.y as int),
        direction_ok(apply_moves(b, moves).vel),
    decreases moves.len(),
{
    if moves.len() > 0 {
        lemma_moves_keep_speed(b, moves.drop_last());
    }
}

impl GameView {
    /// The invariant of a session.
    pub open spec fn wf(self) -> bool {
        &&& 0 <= self.field_w <= ARENA
        &&& 0 <= self.field_h <= ARENA
        &&& self.player.wf()
        &&& forall|k: int| 0 <= k < self.blocks.len() ==> in_arena(#[trigger] self.blocks[k].rect)
        &&& forall|k: int| 0 <= k < self.blocks.len() ==> #[trigger] self.blocks[k].hit_points > 0
        &&& forall|i: int| 0 <= i < self.balls.len() ==> #[trigger] self.balls[i].rect.fits()
        &&& forall|i: int| 0 <= i < self.balls.len() ==> direction_ok(#[trigger] self.balls[i].vel)
        &&& self.balls.len() <= MAX_BALLS
        &&& self.blocks.len() <= MAX_BLOCKS
        &&& 0 <= self.score <= u64::MAX
        &&& i64::MIN <= self.lives <= i64::MAX
    }

    /// A frame can be run without leaving the range of the integer types: the
    /// balls lie within the arena, there is room for one more ball, for the points
    /// of every block and for one life less.
    pub open spec fn can_advance(self) -> bool {
        &&& self.wf()
        &&& forall|i: int| 0 <= i < self.balls.len() ==> in_arena(#[trigger] self.balls[i].rect)
        &&& self.balls.len() < MAX_BALLS
        &&& self.score + BLOCK_SCORE * self.blocks.len() <= u64::MAX
        &&& self.lives > i64::MIN
    }
}

/// The session at its start: the grid of blocks, one ball at the spawn point with
/// horizontal direction component `h`, the paddle, no score, all lives, the menu.
pub open spec fn initial_view(field_w: int, field_h: int, h: int) -> GameView {
    GameView {
        field_w,
        field_h,
        score: 0,
        lives: START_LIVES as int,
        state: GameState::Menu,
        player: Player {
            rect: Rect {
                x: (field_w / 2 - PLAYER_W / 2) as i64,
                y: (field_h - PLAYER_LIFT) as i64,
                w: PLAYER_W,
                h: PLAYER_H,
            },
        },
        blocks: Seq::new((GRID_COLS * GRID_ROWS) as nat, |i: int| grid_block(field_w, i)),
        balls: seq![spawned_ball(field_w, h)],
    }
}

impl Game {
    /// A new session in a playfield `field_w` by `field_h`, whose first ball has
    /// horizontal direction component `h`.
    pub fn with_ball_direction(field_w: i64, field_h: i64, h: i64) -> (r: Game)
        requires
            0 <= field_w <= ARENA,
            0 <= field_h <= ARENA,
            -UNIT <= h <= UNIT,
        ensures
            r@ == initial_view(field_w as int, field_h as int, h as int),
            r@.wf(),
    {
        let start_x = field_w / 2 - (BLOCK_W + BLOCK_PADDING) * (GRID_COLS as i64) / 2;
        let mut blocks: Vec<Block> = Vec::new();
        let mut i: usize = 0;
        while i < GRID_COLS * GRID_ROWS
            invariant
                0 <= field_w <= ARENA,
                start_x == field_w / 2 - (BLOCK_W + BLOCK_PADDING) * GRID_COLS / 2,
                0 <= i <= GRID_COLS * GRID_ROWS,
                blocks@ =~= Seq::new(i as nat, |k: int| grid_block(field_w as int, k)),
            decreases GRID_COLS * GRID_ROWS - i,
        {
            let col = i % GRID_COLS;
            let row = i / GRID_COLS;
            assert(col < GRID_COLS && row <= GRID_ROWS) by (nonlinear_arith)
                requires col == i % GRID_COLS, row == i / GRID_COLS, i < GRID_COLS * GRID_ROWS;
            assert(0 <= field_w / 2 <= ARENA);
            assert(0 <= (col as i64) * (BLOCK_W + BLOCK_PADDING) <= 6 * (BLOCK_W + BLOCK_PADDING)) by (nonlinear_arith)
                requires col < GRID_COLS;
            let x = start_x + (col as i64) * (BLOCK_W + BLOCK_PADDING);
            let y = BOARD_TOP + (row as i64) * (BLOCK_H + BLOCK_PADDING);
            blocks.push(Block::new(Vec2::new(x, y)));
            i = i + 1;
        }
        let half = field_w / 2;
        let ball = Ball::with_direction(Vec2::new(half, half), h);
        let mut balls: Vec<Ball> = Vec::new();
        balls.push(ball);
        proof {
            lemma_unit_direction_ok(h as int);
        }
        assert(balls@ =~= seq![spawned_ball(field_w as int, h as int)]);
        Game {
            field_w,
            field_h,
            score: 0,
            lives: START_LIVES,
            state: GameState::Menu,
            player: Player::new(field_w, field_h),
            blocks,
            balls,
        }
    }

    /// A new session in a playfield `field_w` by `field_h`, whose first ball heads
    /// in a random downward direction.
    pub fn new(field_w: i64, field_h: i64) -> (r: Game)
        requires
            0 <= field_w <= ARENA,
            0 <= field_h <= ARENA,
        ensures
            exists|h: int| -UNIT <= h <= UNIT && r@ == initial_view(field_w as int, field_h as int, h),
            r@.wf(),
    {
        let h = gen_range(-UNIT, UNIT);
        Game::with_ball_direction(field_w, field_h, h)
    }

    /// Tells whether a frame can be run without leaving the range of the integer
    /// types (see `GameView::can_advance`).
    pub fn can_advance(&self) -> (r: bool)
        requires
            self@.wf(),
        ensures
            r == self@.can_advance(),
    {
        let mut i: usize = 0;
        while i < self.balls.len()
            invariant
                self@.wf(),
                0 <= i <= self.balls@.len(),
                forall|k: int| 0 <= k < i ==> in_arena(#[trigger] self.balls@[k].rect),
            decreases self.balls@.len() - i,
        {
            let r = self.balls[i].rect;
            if r.x < -ARENA || r.x > ARENA || r.y < -ARENA || r.y > ARENA {
                return false;
            }
            i = i + 1;
        }
        self.balls.len() < MAX_BALLS && self.score <= u64::MAX - BLOCK_SCORE * (self.blocks.len() as u64)
            && self.lives > i64::MIN
    }

    /// One frame with the given input, `dt` milliseconds long; a ball spawned
    /// during play gets horizontal direction component `spawn_dir`.
    pub fn update_with(&mut self, input: Input, dt: i64, spawn_dir: i64)
        requires
            old(self)@.can_advance(),
            0 <= dt <= MAX_DT,
            -UNIT <= spawn_dir <= UNIT,
        ensures
            final(self)@ == frame_view(old(self)@, input, dt as int, spawn_dir as int),
            final(self)@.wf(),
    {
        match self.state {
            GameState::Menu => {
                if input.confirm {
                    self.state = GameState::Game;
                }
            },
            GameState::LevelCompleted | GameState::Dead => {
                if input.confirm {
                    self.state = GameState::Menu;
                }
            },
            GameState::Game => {
                proof {
                    lemma_step_keeps_wf(self@, input, dt as int, spawn_dir as int);
                }
                self.step(input, dt, spawn_dir);
            },
        }
    }

    /// One frame with the given input, `dt` milliseconds long; a ball spawned
    /// during play heads in a random downward direction.
    pub fn update(&mut self, input: Input, dt: i64)
        requires
            old(self)@.can_advance(),
            0 <= dt <= MAX_DT,
        ensures
            exists|h: int| -UNIT <= h <= UNIT && final(self)@ == frame_view(old(self)@, input, dt as int, h),
            final(self)@.wf(),
    {
        let h = if input.spawn && self.state == GameState::Game {
            gen_range(-UNIT, UNIT)
        } else {
            0
        };
        self.update_with(input, dt, h);
    }

    /// One frame of play.
    fn step(&mut self, input: Input, dt: i64, spawn_dir: i64)
        requires
            old(self)@.can_advance(),
            old(self).state == GameState::Game,
            0 <= dt <= MAX_DT,
            -UNIT <= spawn_dir <= UNIT,
        ensures
            final(self)@ == step_view(old(self)@, input, dt as int, spawn_dir as int),
    {
        let ghost g = self@;
        if input.spawn {
            let half = self.field_w / 2;
            self.balls.push(Ball::with_direction(Vec2::new(half, half), spawn_dir));
        }
        assert(self.balls@ =~= balls_with_spawn(g, input, spawn_dir as int));
        self.player.update(input.left, input.right, dt, self.field_w);
        let ghost st = starts(g, input, dt as int, spawn_dir as int);
        let ghost rects = rects_of(g.blocks);
        let ghost sw = swept(g, input, dt as int, spawn_dir as int);
        let ghost bws = balls_with_spawn(g, input, spawn_dir as int);
        let n_balls = self.balls.len();
        let n_blocks = self.blocks.len();
        let mut i: usize = 0;
        while i < n_balls
            invariant
                g.can_advance(),
                -UNIT <= spawn_dir <= UNIT,
                0 <= dt <= MAX_DT,
                self.field_w == g.field_w,
                self.field_h == g.field_h,
                self.score == g.score,
                self.lives == g.lives,
                self.state == g.state,
                self.player == moved_player(g, input, dt as int),
                self.player.wf(),
                st == starts(g, input, dt as int, spawn_dir as int),
                rects == rects_of(g.blocks),
                sw == swept(g, input, dt as int, spawn_dir as int),
                bws == balls_with_spawn(g, input, spawn_dir as int),
                0 <= i <= n_balls,
                n_balls == bws.len(),
                n_balls <= MAX_BALLS,
                self.balls@.len() == n_balls,
                self.blocks@.len() == n_blocks,
                n_blocks == g.blocks.len(),
                forall|k: int| 0 <= k < n_balls ==> in_arena(#[trigger] bws[k].rect),
                forall|k: int| 0 <= k < n_balls ==> direction_ok(#[trigger] bws[k].vel),
                forall|k: int| 0 <= k < i ==> self.balls@[k] == #[trigger] sw[k],
                forall|k: int| i <= k < n_balls ==> self.balls@[k] == #[trigger] bws[k],
                forall|k: int|
                    0 <= k < n_blocks ==> #[trigger] self.blocks@[k] == (Block {
                        hit_points: (g.blocks[k].hit_points - hit_count(st, rects, k, i as int)) as i64,
                        ..g.blocks[k]
                    }),
            decreases n_balls - i,
        {
            let mut b = self.balls[i];
            assert(b == bws[i as int]);
            let ghost balls_now = self.balls@;
            b.update(dt, self.field_w);
            b.bounce(&self.player.rect);
            assert(b == st[i as int]);
            let mut j: usize = 0;
            while j < n_blocks
                invariant
                    g.can_advance(),
                    0 <= i < n_balls,
                    n_balls <= MAX_BALLS,
                    st == starts(g, input, dt as int, spawn_dir as int),
                    rects == rects_of(g.blocks),
                    0 <= j <= n_blocks,
                    self.blocks@.len() == n_blocks,
                    n_blocks == g.blocks.len(),
                    b == sweep(st[i as int], rects, j as int),
                    self.balls@ == balls_now,
                    self.balls@.len() == n_balls,
                    self.field_w == g.field_w,
                    self.field_h == g.field_h,
                    self.score == g.score,
                    self.lives == g.lives,
                    self.state == g.state,
                    self.player == moved_player(g, input, dt as int),
                    near(b.rect),
                    direction_ok(b.vel),
                    forall|k: int|
                        0 <= k < j ==> #[trigger] self.blocks@[k] == (Block {
                            hit_points: (g.blocks[k].hit_points - hit_count(st, rects, k, i + 1)) as i64,
                            ..g.blocks[k]
                        }),
                    forall|k: int|
                        j <= k < n_blocks ==> #[trigger] self.blocks@[k] == (Block {
                            hit_points: (g.blocks[k].hit_points - hit_count(st, rects, k, i as int)) as i64,
                            ..g.blocks[k]
                        }),
                decreases n_blocks - j,
            {
                let blk = self.blocks[j];
                proof {
                    lemma_hit_count_range(st, rects, j as int, i as int);
                    lemma_bounce_stays_near(b, blk.rect);
                    assert(rects[j as int] == blk.rect);
                }
                if b.bounce(&blk.rect) {
                    let mut hb = blk;
                    hb.hit();
                    self.blocks.set(j, hb);
                }
                j = j + 1;
            }
            self.balls.set(i, b);
            i = i + 1;
        }
        assert(self.balls@ =~= sw);
        let ghost hb = hit_blocks(g, input, dt as int, spawn_dir as int);
        assert(self.blocks@ =~= hb);
        let mut kept_balls: Vec<Ball> = Vec::new();
        let mut k: usize = 0;
        while k < n_balls
            invariant
                0 <= k <= n_balls,
                self.balls@.len() == n_balls,
                kept_balls@ == self.balls@.subrange(0, k as int).filter(on_field(self.field_h as int)),
            decreases n_balls - k,
        {
            let b = self.balls[k];
            proof {
                self.balls@.subrange(0, k as int).lemma_filter_push(b, on_field(self.field_h as int));
                assert(self.balls@.subrange(0, k as int).push(b) =~= self.balls@.subrange(0, k + 1));
            }
            if !b.is_lost(self.field_h) {
                kept_balls.push(b);
            }
            k = k + 1;
        }
        assert(self.balls@.subrange(0, n_balls as int) =~= self.balls@);
        let mut kept_blocks: Vec<Block> = Vec::new();
        let mut k: usize = 0;
        while k < n_blocks
            invariant
                0 <= k <= n_blocks,
                self.blocks@.len() == n_blocks,
                kept_blocks@ == self.blocks@.subrange(0, k as int).filter(alive()),
            decreases n_blocks - k,
        {
            let blk = self.blocks[k];
            proof {
                self.blocks@.subrange(0, k as int).lemma_filter_push(blk, alive());
                assert(self.blocks@.subrange(0, k as int).push(blk) =~= self.blocks@.subrange(0, k + 1));
            }
            if blk.is_alive() {
                kept_blocks.push(blk);
            }
            k = k + 1;
        }
        assert(self.blocks@.subrange(0, n_blocks as int) =~= self.blocks@);
        proof {
            self.balls@.lemma_filter_len(on_field(self.field_h as int));
            self.blocks@.lemma_filter_len(alive());
        }
        let removed_balls = n_balls - kept_balls.len();
        let removed_blocks = n_blocks - kept_blocks.len();
        self.balls = kept_balls;
        self.blocks = kept_blocks;
        self.score = self.score + BLOCK_SCORE * (removed_blocks as u64);
        if removed_balls > 0 && n_balls == 1 {
            self.lives = self.lives - 1;
            if self.lives <= 0 {
                self.state = GameState::Dead;
            }
        }
        if self.blocks.len() == 0 {
            self.state = GameState::LevelCompleted;
        }
    }
}

} // verus!
