//! Integer 2D geometry: points/sizes and axis-aligned rectangles.

use vstd::prelude::*;

verus! {

/// A 2D vector in integer pixels; used for positions, sizes and scroll
/// offsets alike.
#[derive(Clone, Copy, Debug, PartialEq, Eq, Structural)]
pub struct Vec2 {
    pub x: i64,
    pub y: i64,
}

/// An axis-aligned rectangle spanning `[min.x, max.x) x [min.y, max.y)`.
#[derive(Clone, Copy, Debug, PartialEq, Eq, Structural)]
pub struct Rect {
    pub min: Vec2,
    pub max: Vec2,
}

/// Coordinate magnitudes the geometry keeps to, so that sums and
/// differences never leave `i64`.
pub const MAX_COORD: i64 = 0x2000_0000_0000_0000;

impl Vec2 {
    /// Both coordinates bounded by [`MAX_COORD`] in magnitude.
    pub open spec fn bounded(self) -> bool {
        -MAX_COORD <= self.x <= MAX_COORD && -MAX_COORD <= self.y <= MAX_COORD
    }

    pub fn new(x: i64, y: i64) -> (v: Vec2)
        ensures
            v == (Vec2 { x, y }),
    {
        Vec2 { x, y }
    }
}

impl Rect {
    /// Corner coordinates bounded by [`MAX_COORD`] in magnitude.
    pub open spec fn bounded(self) -> bool {
        self.min.bounded() && self.max.bounded()
    }

    /// A point lies inside the half-open span of the rectangle.
    pub open spec fn contains_spec(self, p: Vec2) -> bool {
        self.min.x <= p.x < self.max.x && self.min.y <= p.y < self.max.y
    }

    /// Width of the span, zero when empty.
    pub fn width(self) -> (w: i64)
        requires
            self.bounded(),
        ensures
            w == if self.max.x >= self.min.x {
                self.max.x - self.min.x
            } else {
                0
            },
    {
        if self.max.x >= self.min.x {
            self.max.x - self.min.x
        } else {
            0
        }
    }

    /// Height of the span, zero when empty.
    pub fn height(self) -> (h: i64)
        requires
            self.bounded(),
        ensures
            h == if self.max.y >= self.min.y {
                self.max.y - self.min.y
            } else {
                0
            },
    {
        if self.max.y >= self.min.y {
            self.max.y - self.min.y
        } else {
            0
        }
    }

    /// Whether the half-open span covers no point.
    pub fn is_empty(self) -> (e: bool)
        ensures
            e == (self.max.x <= self.min.x || self.max.y <= self.min.y),
            e == !(exists|p: Vec2| self.contains_spec(p)),
    {
        let e = self.max.x <= self.min.x || self.max.y <= self.min.y;
        proof {
            if !e {
                assert(self.contains_spec(self.min));
            }
        }
        e
    }
}

} // verus!
