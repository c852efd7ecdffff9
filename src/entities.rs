use vstd::prelude::*;

use crate::collision::{resolve_collision, resolved};
use crate::geometry::{abs_i64, abs_int, Rect, Vec2, PX};

verus! {

/// Length of a unit direction vector.
pub const UNIT: i64 = 1000;

/// Largest absolute coordinate of an entity at the start of a frame.
pub const ARENA: i64 = 4_503_599_627_370_496;

/// Longest frame time, in milliseconds, that a frame may advance by.
pub const MAX_DT: i64 = 60_000;

pub const PLAYER_W: i64 = 150 * PX;

pub const PLAYER_H: i64 = 40 * PX;

/// Distance from the bottom edge of the playfield to the paddle's top.
pub const PLAYER_LIFT: i64 = 100 * PX;

/// Paddle speed, in position units per millisecond (900 pixels per second).
pub const PLAYER_SPEED: i64 = 900_000;

pub const BLOCK_W: i64 = 100 * PX;

pub const BLOCK_H: i64 = 40 * PX;

/// Hit points of a fresh block.
pub const BLOCK_HIT_POINTS: i64 = 2;

pub const BALL_SIZE: i64 = 50 * PX;

/// Ball speed, in position units per millisecond per unit of direction: a
/// direction of length `UNIT` covers 400 pixels per second.
pub const BALL_SPEED: i64 = 400;

/// Largest distance a ball covers on one axis in one frame.
pub const MAX_BALL_STEP: i64 = 24_000_000_000;

/// Largest distance the paddle covers in one frame.
pub const MAX_PLAYER_STEP: i64 = 54_000_000_000_000;

/// Both coordinates lie within the arena and the sizes are accepted.
pub open spec fn in_arena(r: Rect) -> bool {
    r.fits() && -ARENA <= r.x <= ARENA && -ARENA <= r.y <= ARENA
}

/// Signed direction of the paddle for the two movement signals.
pub open spec fn move_dir(left: bool, right: bool) -> int {
    if left && !right {
        -1
    } else if right && !left {
        1
    } else {
        0
    }
}

/// The paddle's x position after moving from `x` for `dt` milliseconds in
/// direction `dir`, clamped to `[0, field_w - w]` (to `field_w - w` where the
/// field is narrower than the paddle).
pub open spec fn paddle_x(x: int, dir: int, dt: int, field_w: int, w: int) -> int {
    let moved = x + dir * dt * PLAYER_SPEED;
    let low = if moved < 0 { 0 } else { moved };
    if low > field_w - w { field_w - w } else { low }
}

/// The player's paddle.
#[derive(Clone, Copy, Debug, PartialEq, Eq, Structural)]
pub struct Player {
    pub rect: Rect,
}

impl Player {
    pub open spec fn wf(self) -> bool {
        in_arena(self.rect)
    }

    /// A paddle centred horizontally, `PLAYER_LIFT` above the bottom edge.
    pub fn new(field_w: i64, field_h: i64) -> (r: Player)
        requires
            0 <= field_w <= ARENA,
            0 <= field_h <= ARENA,
        ensures
            r.rect == (Rect {
                x: (field_w / 2 - PLAYER_W / 2) as i64,
                y: (field_h - PLAYER_LIFT) as i64,
                w: PLAYER_W,
                h: PLAYER_H,
            }),
            r.wf(),
    {
        Player { rect: Rect::new(field_w / 2 - PLAYER_W / 2, field_h - PLAYER_LIFT, PLAYER_W, PLAYER_H) }
    }

    /// Moves the paddle by the two movement signals for `dt` milliseconds and
    /// keeps it within the playfield.
    pub fn update(&mut self, left: bool, right: bool, dt: i64, field_w: i64)
        requires
            old(self).wf(),
            0 <= dt <= MAX_DT,
            0 <= field_w <= ARENA,
        ensures
            final(self).rect == (Rect {
                x: paddle_x(old(self).rect.x as int, move_dir(left, right), dt as int, field_w as int, old(self).rect.w as int) as i64,
                ..old(self).rect
            }),
            field_w >= old(self).rect.w ==> 0 <= final(self).rect.x <= field_w - final(self).rect.w,
            final(self).wf(),
    {
        let x_move: i64 = if left && !right {
            -1
        } else if right && !left {
            1
        } else {
            0
        };
        assert(-MAX_PLAYER_STEP <= x_move * dt * PLAYER_SPEED <= MAX_PLAYER_STEP) by (nonlinear_arith)
            requires -1 <= x_move <= 1, 0 <= dt <= MAX_DT;
        self.rect.x = self.rect.x + x_move * dt * PLAYER_SPEED;
        if self.rect.x < 0 {
            self.rect.x = 0;
        }
        if self.rect.x > field_w - self.rect.w {
            self.rect.x = field_w - self.rect.w;
        }
    }
}

/// A destructible block.
#[derive(Clone, Copy, Debug, PartialEq, Eq, Structural)]
pub struct Block {
    pub rect: Rect,
    pub hit_points: i64,
}

impl Block {
    /// A fresh block with its top-left corner at `pos`.
    pub fn new(pos: Vec2) -> (r: Block)
        ensures
            r == (Block { rect: Rect { x: pos.x, y: pos.y, w: BLOCK_W, h: BLOCK_H }, hit_points: BLOCK_HIT_POINTS }),
    {
        Block { rect: Rect::new(pos.x, pos.y, BLOCK_W, BLOCK_H), hit_points: BLOCK_HIT_POINTS }
    }

    /// The block has not been hit yet (it is drawn in its first colour).
    pub fn is_intact(&self) -> (r: bool)
        ensures
            r == (self.hit_points == BLOCK_HIT_POINTS),
    {
        self.hit_points == BLOCK_HIT_POINTS
    }

    /// The block is still in play.
    pub fn is_alive(&self) -> (r: bool)
        ensures
            r == (self.hit_points > 0),
    {
        self.hit_points > 0
    }

    /// Takes one hit point; tells whether this hit destroyed the block.
    pub fn hit(&mut self) -> (destroyed: bool)
        requires
            old(self).hit_points > i64::MIN,
        ensures
            *final(self) == (Block { hit_points: (old(self).hit_points - 1) as i64, ..*old(self) }),
            destroyed == (old(self).hit_points > 0 && final(self).hit_points <= 0),
    {
        let was_alive = self.hit_points > 0;
        self.hit_points = self.hit_points - 1;
        was_alive && self.hit_points <= 0
    }
}

/// Largest `r` with `r * r <= n`, searching upwards from `r`.
pub open spec fn sqrt_from(n: int, r: int) -> int
    decreases n - r,
{
    if r < n && (r + 1) * (r + 1) <= n {
        sqrt_from(n, r + 1)
    } else {
        r
    }
}

proof fn lemma_sqrt_from_ge(n: int, r: int)
    ensures
        sqrt_from(n, r) >= r,
    decreases n - r,
{
    if r < n && (r + 1) * (r + 1) <= n {
        lemma_sqrt_from_ge(n, r + 1);
    }
}

proof fn lemma_sqrt_from_at_least(n: int, r: int, k: int)
    requires
        0 <= r <= k,
        k <= n,
        k * k <= n,
    ensures
        sqrt_from(n, r) >= k,
    decreases k - r,
{
    if r < k {
        assert((r + 1) * (r + 1) <= k * k) by (nonlinear_arith)
            requires 0 <= r < k;
        lemma_sqrt_from_at_least(n, r + 1, k);
    } else {
        lemma_sqrt_from_ge(n, r);
    }
}

proof fn lemma_sqrt_from_square_le(n: int, r: int)
    requires
        0 <= r,
        r * r <= n,
    ensures
        sqrt_from(n, r) * sqrt_from(n, r) <= n,
    decreases n - r,
{
    if r < n && (r + 1) * (r + 1) <= n {
        lemma_sqrt_from_square_le(n, r + 1);
    }
}

/// A component of at most `UNIT` scaled by `UNIT / len`, with `len >= UNIT`, stays
/// within `[0, UNIT]`.
proof fn lemma_scaled_by_len(a: int, len: int)
    requires
        0 <= a <= UNIT,
        len >= UNIT,
    ensures
        0 <= a * UNIT / len <= UNIT,
        0 <= UNIT * UNIT / len <= UNIT,
{
    assert(0 <= a * UNIT <= UNIT * UNIT) by (nonlinear_arith)
        requires 0 <= a <= UNIT;
    vstd::arithmetic::div_mod::lemma_div_pos_is_pos(a * UNIT, len);
    vstd::arithmetic::div_mod::lemma_div_is_ordered_by_denominator(a * UNIT, UNIT as int, len);
    vstd::arithmetic::div_mod::lemma_div_is_ordered(a * UNIT, UNIT * UNIT, UNIT as int);
    vstd::arithmetic::div_mod::lemma_div_by_multiple(UNIT as int, UNIT as int);
    vstd::arithmetic::div_mod::lemma_div_pos_is_pos(UNIT * UNIT, len);
    vstd::arithmetic::div_mod::lemma_div_is_ordered_by_denominator(UNIT * UNIT, UNIT as int, len);
}

/// Integer square root of `n`, rounded down.
pub open spec fn isqrt(n: int) -> int {
    sqrt_from(n, 0)
}

/// Integer square root, rounded down, of a small positive number.
pub fn isqrt_small(n: i64) -> (r: i64)
    requires
        1 <= n <= 4_000_000,
    ensures
        r == isqrt(n as int),
        1 <= r <= n,
{
    let mut r: i64 = 0;
    let mut next_sq: i64 = 1;
    while r < n && next_sq <= n
        invariant
            1 <= n <= 4_000_000,
            0 <= r <= n,
            next_sq == (r + 1) * (r + 1),
            sqrt_from(n as int, r as int) == isqrt(n as int),
        decreases n - r,
    {
        assert((r + 1) * (r + 1) + 2 * (r + 1) + 1 == (r + 2) * (r + 2)) by (nonlinear_arith);
        r = r + 1;
        next_sq = next_sq + 2 * r + 1;
    }
    r
}

/// The direction `(h, UNIT)` scaled to length `UNIT`, rounded towards zero.
pub open spec fn unit_direction(h: int) -> Vec2 {
    let len = isqrt(h * h + UNIT * UNIT);
    Vec2 {
        x: (if h < 0 { -((-h) * UNIT / len) } else { h * UNIT / len }) as i64,
        y: (UNIT * UNIT / len) as i64,
    }
}

/// A unit direction has components of at most `UNIT` in magnitude.
pub proof fn lemma_unit_direction_ok(h: int)
    requires
        -UNIT <= h <= UNIT,
    ensures
        direction_ok(unit_direction(h)),
        unit_direction(h).y > 0,
{
    let n = h * h + UNIT * UNIT;
    assert(0 <= h * h <= UNIT * UNIT) by (nonlinear_arith)
        requires -UNIT <= h <= UNIT;
    lemma_sqrt_from_at_least(n, 0, UNIT as int);
    lemma_scaled_by_len(abs_int(h), isqrt(n));
    lemma_sqrt_from_square_le(n, 0);
    let len = isqrt(n);
    assert(len <= 1414) by (nonlinear_arith)
        requires len * len <= n, n <= 2 * UNIT * UNIT, len >= 0;
    vstd::arithmetic::div_mod::lemma_div_is_ordered_by_denominator(UNIT * UNIT, len, 1414);
}

/// Both components of the direction are at most `UNIT` in magnitude.
pub open spec fn direction_ok(v: Vec2) -> bool {
    -UNIT <= v.x <= UNIT && -UNIT <= v.y <= UNIT
}

/// Relies on macroquad::rand::gen_range (quad-rand's global generator): for
/// integers it truncates `low + (high - low) * u` with `u` in `[0, 1)`, which lies
/// within `[low, high]`.
#[verifier::external_body]
pub(crate) fn gen_range(low: i64, high: i64) -> (r: i64)
    requires
        -UNIT <= low <= high <= UNIT,
    ensures
        low <= r <= high,
{
    macroquad::rand::gen_range(low, high)
}

/// A ball: its rectangle and its direction of travel.
#[derive(Clone, Copy, Debug, PartialEq, Eq, Structural)]
pub struct Ball {
    pub rect: Rect,
    pub vel: Vec2,
}

/// The ball after `dt` milliseconds of free motion in a playfield `field_w` wide:
/// it moves along its direction; past the left or top edge that component turns
/// positive, past the right edge the horizontal one turns negative.
pub open spec fn moved_ball(b: Ball, dt: int, field_w: int) -> Ball {
    let x = b.rect.x + b.vel.x * dt * BALL_SPEED;
    let y = b.rect.y + b.vel.y * dt * BALL_SPEED;
    let vx = if x < 0 { abs_int(b.vel.x as int) } else { b.vel.x as int };
    let vy = if y < 0 { abs_int(b.vel.y as int) } else { b.vel.y as int };
    let vx2 = if x > field_w - b.rect.w { -abs_int(vx) } else { vx };
    Ball { rect: Rect { x: x as i64, y: y as i64, ..b.rect }, vel: Vec2 { x: vx2 as i64, y: vy as i64 } }
}

pub proof fn lemma_ball_step_bound(v: int, dt: int)
    requires
        -UNIT <= v <= UNIT,
        0 <= dt <= MAX_DT,
    ensures
        -MAX_BALL_STEP <= v * dt * BALL_SPEED <= MAX_BALL_STEP,
{
    assert(-MAX_BALL_STEP <= v * dt * BALL_SPEED <= MAX_BALL_STEP) by (nonlinear_arith)
        requires -UNIT <= v <= UNIT, 0 <= dt <= MAX_DT;
}

impl Ball {
    pub open spec fn wf(self) -> bool {
        in_arena(self.rect) && direction_ok(self.vel)
    }

    /// A ball at `pos` heading along `(h, UNIT)` scaled to unit length.
    pub fn with_direction(pos: Vec2, h: i64) -> (r: Ball)
        requires
            -UNIT <= h <= UNIT,
        ensures
            r.rect == (Rect { x: pos.x, y: pos.y, w: BALL_SIZE, h: BALL_SIZE }),
            r.vel == unit_direction(h as int),
            direction_ok(r.vel),
            r.vel.y > 0,
    {
        assert(0 <= h * h <= UNIT * UNIT) by (nonlinear_arith)
            requires -UNIT <= h <= UNIT;
        let len = isqrt_small(h * h + UNIT * UNIT);
        proof {
            lemma_unit_direction_ok(h as int);
            lemma_sqrt_from_at_least(h * h + UNIT * UNIT, 0, UNIT as int);
            lemma_scaled_by_len(abs_int(h as int), len as int);
        }
        let x = if h < 0 { -((-h) * UNIT / len) } else { h * UNIT / len };
        let y = UNIT * UNIT / len;
        Ball { rect: Rect::new(pos.x, pos.y, BALL_SIZE, BALL_SIZE), vel: Vec2::new(x, y) }
    }

    /// A ball at `pos` heading downwards along a random direction `(h, UNIT)`
    /// with `h` in `[-UNIT, UNIT]`, scaled to unit length.
    pub fn new(pos: Vec2) -> (r: Ball)
        ensures
            r.rect == (Rect { x: pos.x, y: pos.y, w: BALL_SIZE, h: BALL_SIZE }),
            exists|h: int| -UNIT <= h <= UNIT && r.vel == unit_direction(h),
            direction_ok(r.vel),
            r.vel.y > 0,
    {
        let h = gen_range(-UNIT, UNIT);
        Ball::with_direction(pos, h)
    }

    /// Free motion for `dt` milliseconds in a playfield `field_w` wide, with the
    /// reflections at the left, top and right edges.
    pub fn update(&mut self, dt: i64, field_w: i64)
        requires
            old(self).wf(),
            0 <= dt <= MAX_DT,
            0 <= field_w <= ARENA,
        ensures
            *final(self) == moved_ball(*old(self), dt as int, field_w as int),
            abs_int(final(self).vel.x as int) == abs_int(old(self).vel.x as int),
            abs_int(final(self).vel.y as int) == abs_int(old(self).vel.y as int),
            direction_ok(final(self).vel),
            final(self).rect.fits(),
            -ARENA - MAX_BALL_STEP <= final(self).rect.x <= ARENA + MAX_BALL_STEP,
            -ARENA - MAX_BALL_STEP <= final(self).rect.y <= ARENA + MAX_BALL_STEP,
    {
        proof {
            lemma_ball_step_bound(self.vel.x as int, dt as int);
            lemma_ball_step_bound(self.vel.y as int, dt as int);
        }
        self.rect.x = self.rect.x + self.vel.x * dt * BALL_SPEED;
        self.rect.y = self.rect.y + self.vel.y * dt * BALL_SPEED;
        if self.rect.x < 0 {
            self.vel.x = abs_i64(self.vel.x);
        }
        if self.rect.y < 0 {
            self.vel.y = abs_i64(self.vel.y);
        }
        if self.rect.x > field_w - self.rect.w {
            self.vel.x = -abs_i64(self.vel.x);
        }
    }

    /// The ball has left the playfield through its bottom edge.
    pub fn is_lost(&self, field_h: i64) -> (r: bool)
        ensures
            r == (self.rect.y >= field_h),
    {
        self.rect.y >= field_h
    }

    /// Resolves a collision of this ball against the static rectangle `target`.
    pub fn bounce(&mut self, target: &Rect) -> (hit: bool)
        requires
            old(self).rect.fits(),
            direction_ok(old(self).vel),
            target.fits(),
        ensures
            hit == old(self).rect.overlaps(*target),
            !hit ==> *final(self) == *old(self),
            hit ==> (final(self).rect, final(self).vel) == resolved(old(self).rect, old(self).vel, *target),
            direction_ok(final(self).vel),
    {
        resolve_collision(&mut self.rect, &mut self.vel, target)
    }
}

} // verus!
