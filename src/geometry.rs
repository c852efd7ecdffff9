use vstd::prelude::*;

verus! {

/// Number of position units in one pixel.
pub const PX: i64 = 1_000_000;

/// Largest width or height of a rectangle that the geometry accepts.
pub const MAX_SIZE: i64 = 1_099_511_627_776;

/// Largest absolute coordinate that the geometry accepts.
pub const REACH: i64 = 1_152_921_504_606_846_976;

/// A 2D vector of integers.
#[derive(Clone, Copy, Debug, PartialEq, Eq, Structural)]
pub struct Vec2 {
    pub x: i64,
    pub y: i64,
}

/// An axis-aligned rectangle: top-left corner, width and height.
#[derive(Clone, Copy, Debug, PartialEq, Eq, Structural)]
pub struct Rect {
    pub x: i64,
    pub y: i64,
    pub w: i64,
    pub h: i64,
}

pub open spec fn max_int(a: int, b: int) -> int {
    if a >= b { a } else { b }
}

pub open spec fn min_int(a: int, b: int) -> int {
    if a <= b { a } else { b }
}

pub open spec fn abs_int(a: int) -> int {
    if a < 0 { -a } else { a }
}

/// The sign of `a`, where zero counts as positive.
pub open spec fn sign_int(a: int) -> int {
    if a < 0 { -1 } else { 1 }
}

/// The absolute value of `a`.
pub fn abs_i64(a: i64) -> (r: i64)
    requires
        a > i64::MIN,
    ensures
        r == abs_int(a as int),
{
    if a < 0 {
        -a
    } else {
        a
    }
}

impl Vec2 {
    /// Both components can be negated without overflow.
    pub open spec fn negatable(self) -> bool {
        self.x > i64::MIN && self.y > i64::MIN
    }

    pub fn new(x: i64, y: i64) -> (r: Vec2)
        ensures
            r == (Vec2 { x, y }),
    {
        Vec2 { x, y }
    }

    /// Component-wise sign; a zero component maps to `+1`.
    pub fn signum(&self) -> (r: Vec2)
        ensures
            r.x == sign_int(self.x as int),
            r.y == sign_int(self.y as int),
    {
        Vec2 { x: if self.x < 0 { -1 } else { 1 }, y: if self.y < 0 { -1 } else { 1 } }
    }
}

impl Rect {
    pub open spec fn right(self) -> int {
        self.x + self.w
    }

    pub open spec fn bottom(self) -> int {
        self.y + self.h
    }

    /// Twice the centre's x coordinate, exact in integers.
    pub open spec fn center2_x(self) -> int {
        2 * self.x + self.w
    }

    /// Twice the centre's y coordinate, exact in integers.
    pub open spec fn center2_y(self) -> int {
        2 * self.y + self.h
    }

    /// Sizes are non-negative and everything lies within the accepted range.
    pub open spec fn fits(self) -> bool {
        -REACH <= self.x <= REACH && -REACH <= self.y <= REACH && 0 <= self.w <= MAX_SIZE
            && 0 <= self.h <= MAX_SIZE
    }

    /// The two rectangles share a region of positive area.
    pub open spec fn overlaps(self, o: Rect) -> bool {
        max_int(self.x as int, o.x as int) < min_int(self.right(), o.right()) && max_int(
            self.y as int,
            o.y as int,
        ) < min_int(self.bottom(), o.bottom())
    }

    /// The common region of two overlapping rectangles.
    pub open spec fn common(self, o: Rect) -> Rect {
        let left = max_int(self.x as int, o.x as int);
        let top = max_int(self.y as int, o.y as int);
        let right = min_int(self.right(), o.right());
        let bottom = min_int(self.bottom(), o.bottom());
        Rect { x: left as i64, y: top as i64, w: (right - left) as i64, h: (bottom - top) as i64 }
    }

    pub fn new(x: i64, y: i64, w: i64, h: i64) -> (r: Rect)
        ensures
            r == (Rect { x, y, w, h }),
    {
        Rect { x, y, w, h }
    }

    /// Twice the centre, so that it stays exact in integers.
    pub fn center2(&self) -> (r: Vec2)
        requires
            self.fits(),
        ensures
            r.x == self.center2_x(),
            r.y == self.center2_y(),
    {
        Vec2 { x: 2 * self.x + self.w, y: 2 * self.y + self.h }
    }

    /// The overlap of the two rectangles, or `None` where they share no area.
    pub fn intersect(&self, other: &Rect) -> (r: Option<Rect>)
        requires
            self.fits(),
            other.fits(),
        ensures
            r == (if self.overlaps(*other) {
                Some(self.common(*other))
            } else {
                None
            }),
    {
        let left = if self.x >= other.x { self.x } else { other.x };
        let top = if self.y >= other.y { self.y } else { other.y };
        let r1 = self.x + self.w;
        let r2 = other.x + other.w;
        let b1 = self.y + self.h;
        let b2 = other.y + other.h;
        let right = if r1 <= r2 { r1 } else { r2 };
        let bottom = if b1 <= b2 { b1 } else { b2 };
        if left < right && top < bottom {
            Some(Rect { x: left, y: top, w: right - left, h: bottom - top })
        } else {
            None
        }
    }
}

} // verus!
