//! Integer geometry: points, rectangles and edge thicknesses, with saturating
//! arithmetic so that degenerate sizes are clamped instead of overflowing.

use vstd::prelude::*;

verus! {

/// `v` limited to the closed range `lo..=hi` (`lo` wins when the range is empty).
pub open spec fn clamp(v: int, lo: int, hi: int) -> int {
    if v < lo {
        lo
    } else if v > hi {
        hi
    } else {
        v
    }
}

/// `v` limited to what an `i32` can hold.
pub open spec fn saturate(v: int) -> int {
    clamp(v, i32::MIN as int, i32::MAX as int)
}

/// The larger of two integers.
pub open spec fn larger(a: int, b: int) -> int {
    if a >= b {
        a
    } else {
        b
    }
}

/// The smaller of two integers.
pub open spec fn smaller(a: int, b: int) -> int {
    if a <= b {
        a
    } else {
        b
    }
}

/// `v` limited to `0..=limit`, or 0 when `limit` is not positive.
pub open spec fn bounded(v: int, limit: int) -> int {
    clamp(v, 0, larger(limit, 0))
}

/// Narrows a 64-bit intermediate result to `i32`, saturating at the ends.
pub fn saturating(v: i64) -> (r: i32)
    ensures
        r as int == saturate(v as int),
{
    if v < i32::MIN as i64 {
        i32::MIN
    } else if v > i32::MAX as i64 {
        i32::MAX
    } else {
        v as i32
    }
}

/// A point or a size in surface units.
#[derive(Clone, Copy, PartialEq, Eq, Structural, Debug)]
pub struct Vec2 {
    pub x: i32,
    pub y: i32,
}

impl Vec2 {
    /// The origin, and the empty size.
    pub open spec fn spec_zero() -> Vec2 {
        Vec2 { x: 0, y: 0 }
    }

    /// Component-wise maximum: the smallest size that covers both.
    pub open spec fn spec_union(self, other: Vec2) -> Vec2 {
        Vec2 {
            x: larger(self.x as int, other.x as int) as i32,
            y: larger(self.y as int, other.y as int) as i32,
        }
    }

    /// Each component limited to `0..=limit`, or 0 where `limit` is not positive.
    pub open spec fn spec_bounded_by(self, limit: Vec2) -> Vec2 {
        Vec2 {
            x: bounded(self.x as int, limit.x as int) as i32,
            y: bounded(self.y as int, limit.y as int) as i32,
        }
    }

    /// Both components grown by the given amounts, saturating.
    pub open spec fn spec_grown(self, dx: int, dy: int) -> Vec2 {
        Vec2 { x: saturate(self.x + dx) as i32, y: saturate(self.y + dy) as i32 }
    }

    pub fn new(x: i32, y: i32) -> (r: Vec2)
        ensures
            r == (Vec2 { x, y }),
    {
        Vec2 { x, y }
    }

    pub fn zero() -> (r: Vec2)
        ensures
            r == Vec2::spec_zero(),
    {
        Vec2 { x: 0, y: 0 }
    }

    pub fn union(self, other: Vec2) -> (r: Vec2)
        ensures
            r == self.spec_union(other),
    {
        Vec2 {
            x: if self.x >= other.x {
                self.x
            } else {
                other.x
            },
            y: if self.y >= other.y {
                self.y
            } else {
                other.y
            },
        }
    }

    pub fn bounded_by(self, limit: Vec2) -> (r: Vec2)
        ensures
            r == self.spec_bounded_by(limit),
            0 <= r.x && 0 <= r.y,
            limit.x <= 0 ==> r.x == 0,
            limit.y <= 0 ==> r.y == 0,
            limit.x > 0 ==> r.x <= limit.x,
            limit.y > 0 ==> r.y <= limit.y,
    {
        Vec2 { x: bounded_to(self.x, limit.x), y: bounded_to(self.y, limit.y) }
    }

    /// Grows (or, with negative amounts, shrinks) both components, saturating.
    pub fn grown(self, dx: i64, dy: i64) -> (r: Vec2)
        ensures
            r == self.spec_grown(dx as int, dy as int),
    {
        Vec2 { x: grown_by(self.x, dx), y: grown_by(self.y, dy) }
    }
}

/// `v + d`, saturating to `i32`.
pub fn grown_by(v: i32, d: i64) -> (r: i32)
    ensures
        r as int == saturate(v + d),
{
    // Beyond this range the sum saturates whatever `v` is.
    let step: i64 = if d < -0x1_0000_0000 {
        -0x1_0000_0000
    } else if d > 0x1_0000_0000 {
        0x1_0000_0000
    } else {
        d
    };
    saturating(v as i64 + step)
}

/// One component limited to `0..=limit`, or 0 when `limit` is not positive.
pub fn bounded_to(v: i32, limit: i32) -> (r: i32)
    ensures
        r as int == bounded(v as int, limit as int),
{
    let hi: i32 = if limit > 0 {
        limit
    } else {
        0
    };
    if v < 0 {
        0
    } else if v > hi {
        hi
    } else {
        v
    }
}

/// Widths of the four bands along the edges of a rectangle.
#[derive(Clone, Copy, PartialEq, Eq, Structural, Debug)]
pub struct Thickness {
    pub left: i32,
    pub top: i32,
    pub right: i32,
    pub bottom: i32,
}

impl Thickness {
    /// Left and right bands together.
    pub open spec fn spec_horizontal(self) -> int {
        self.left + self.right
    }

    /// Top and bottom bands together.
    pub open spec fn spec_vertical(self) -> int {
        self.top + self.bottom
    }

    pub open spec fn spec_uniform(v: i32) -> Thickness {
        Thickness { left: v, top: v, right: v, bottom: v }
    }

    pub fn new(left: i32, top: i32, right: i32, bottom: i32) -> (r: Thickness)
        ensures
            r == (Thickness { left, top, right, bottom }),
    {
        Thickness { left, top, right, bottom }
    }

    pub fn zero() -> (r: Thickness)
        ensures
            r == Thickness::spec_uniform(0),
    {
        Thickness { left: 0, top: 0, right: 0, bottom: 0 }
    }

    pub fn uniform(v: i32) -> (r: Thickness)
        ensures
            r == Thickness::spec_uniform(v),
    {
        Thickness { left: v, top: v, right: v, bottom: v }
    }

    pub fn horizontal(&self) -> (r: i64)
        ensures
            r as int == self.spec_horizontal(),
    {
        self.left as i64 + self.right as i64
    }

    pub fn vertical(&self) -> (r: i64)
        ensures
            r as int == self.spec_vertical(),
    {
        self.top as i64 + self.bottom as i64
    }
}

/// An axis-aligned rectangle: top-left corner and size.
#[derive(Clone, Copy, PartialEq, Eq, Structural, Debug)]
pub struct Rect {
    pub x: i32,
    pub y: i32,
    pub w: i32,
    pub h: i32,
}

impl Rect {
    /// X coordinate of the right edge; a negative width counts as 0.
    pub open spec fn spec_right(self) -> int {
        saturate(self.x + larger(self.w as int, 0))
    }

    /// Y coordinate of the bottom edge; a negative height counts as 0.
    pub open spec fn spec_bottom(self) -> int {
        saturate(self.y + larger(self.h as int, 0))
    }

    /// The rectangle left over when the bands of `t` are cut off the edges.
    /// Its size never drops below 0.
    pub open spec fn spec_deflate(self, t: Thickness) -> Rect {
        Rect {
            x: saturate(self.x + t.left) as i32,
            y: saturate(self.y + t.top) as i32,
            w: saturate(larger(self.w - t.spec_horizontal(), 0)) as i32,
            h: saturate(larger(self.h - t.spec_vertical(), 0)) as i32,
        }
    }

    pub open spec fn spec_size(self) -> Vec2 {
        Vec2 { x: self.w, y: self.h }
    }

    pub open spec fn spec_from_size(size: Vec2) -> Rect {
        Rect { x: 0, y: 0, w: size.x, h: size.y }
    }

    pub fn new(x: i32, y: i32, w: i32, h: i32) -> (r: Rect)
        ensures
            r == (Rect { x, y, w, h }),
    {
        Rect { x, y, w, h }
    }

    /// The rectangle of the given size with its corner at the origin.
    pub fn from_size(size: Vec2) -> (r: Rect)
        ensures
            r == Rect::spec_from_size(size),
    {
        Rect { x: 0, y: 0, w: size.x, h: size.y }
    }

    pub fn size(&self) -> (r: Vec2)
        ensures
            r == self.spec_size(),
    {
        Vec2 { x: self.w, y: self.h }
    }

    pub fn right(&self) -> (r: i32)
        ensures
            r as int == self.spec_right(),
    {
        let w: i64 = if self.w > 0 {
            self.w as i64
        } else {
            0
        };
        saturating(self.x as i64 + w)
    }

    pub fn bottom(&self) -> (r: i32)
        ensures
            r as int == self.spec_bottom(),
    {
        let h: i64 = if self.h > 0 {
            self.h as i64
        } else {
            0
        };
        saturating(self.y as i64 + h)
    }

    pub fn deflate(&self, t: &Thickness) -> (r: Rect)
        ensures
            r == self.spec_deflate(*t),
            r.w >= 0 && r.h >= 0,
    {
        let w: i64 = self.w as i64 - t.horizontal();
        let h: i64 = self.h as i64 - t.vertical();
        Rect {
            x: saturating(self.x as i64 + t.left as i64),
            y: saturating(self.y as i64 + t.top as i64),
            w: saturating(if w > 0 {
                w
            } else {
                0
            }),
            h: saturating(if h > 0 {
                h
            } else {
                0
            }),
        }
    }
}

} // verus!
