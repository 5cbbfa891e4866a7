//! Points and rectangles in PDF page space.
//!
//! A coordinate is a whole number of thousandths of a PDF point, counted from
//! the page's bottom left corner. Arithmetic saturates at the ends of `i32`,
//! which is a little over two million points either way.

use vstd::prelude::*;

verus! {

/// `v`, or the end of the coordinate range that it lies beyond.
pub open spec fn sat(v: int) -> i32 {
    if v < i32::MIN {
        i32::MIN
    } else if v > i32::MAX {
        i32::MAX
    } else {
        v as i32
    }
}

/// `v`, or the end of the coordinate range that it lies beyond.
pub fn saturate(v: i128) -> (r: i32)
    ensures
        r == sat(v as int),
{
    if v < i32::MIN as i128 {
        i32::MIN
    } else if v > i32::MAX as i128 {
        i32::MAX
    } else {
        v as i32
    }
}

/// `a / b` rounded down.
pub fn div_floor(a: i128, b: i128) -> (r: i128)
    requires
        0 < b <= 0x1_0000_0000_0000_0000_0000,
        -0x1_0000_0000_0000_0000_0000 <= a <= 0x1_0000_0000_0000_0000_0000,
    ensures
        r == a as int / b as int,
{
    if a >= 0 {
        ((a as u128) / (b as u128)) as i128
    } else {
        let n: u128 = (-a) as u128;
        let d: u128 = b as u128;
        let q: u128 = (n + (d - 1)) / d;
        proof {
            let (ai, bi, qi) = (a as int, b as int, q as int);
            assert(qi == (-ai + bi - 1) / bi);
            assert(ai / bi == -qi) by (nonlinear_arith)
                requires
                    bi > 0,
                    ai < 0,
                    qi == (-ai + bi - 1) / bi,
            ;
            assert(0 <= qi <= -ai) by (nonlinear_arith)
                requires
                    bi > 0,
                    ai < 0,
                    qi == (-ai + bi - 1) / bi,
            ;
        }
        -(q as i128)
    }
}

/// The size of a difference.
pub open spec fn abs(v: int) -> int {
    if v < 0 {
        -v
    } else {
        v
    }
}

#[derive(Clone, Copy, PartialEq, Eq, Structural, Debug)]
pub struct PdfPoint {
    pub x: i32,
    pub y: i32,
}

/// The point at `(x, y)`, held inside the coordinate range.
pub open spec fn point(x: int, y: int) -> PdfPoint {
    PdfPoint { x: sat(x), y: sat(y) }
}

impl PdfPoint {
    pub fn new(x: i32, y: i32) -> (r: Self)
        ensures
            r == (PdfPoint { x, y }),
    {
        PdfPoint { x, y }
    }

    /// The point at `(x, y)`, held inside the coordinate range.
    pub fn at(x: i128, y: i128) -> (r: Self)
        ensures
            r == point(x as int, y as int),
    {
        PdfPoint { x: saturate(x), y: saturate(y) }
    }

    /// This point moved by `(dx, dy)`.
    pub open spec fn plus(self, dx: int, dy: int) -> PdfPoint {
        point(self.x + dx, self.y + dy)
    }

    /// This point moved by `(dx, dy)`.
    pub fn moved(self, dx: i64, dy: i64) -> (r: Self)
        ensures
            r == self.plus(dx as int, dy as int),
    {
        PdfPoint::at(self.x as i128 + dx as i128, self.y as i128 + dy as i128)
    }
}

/// A rectangle by its bottom left and top right corners.
#[derive(Clone, Copy, PartialEq, Eq, Structural, Debug)]
pub struct PdfRect {
    pub min: PdfPoint,
    pub max: PdfPoint,
}

pub open spec fn lesser(a: int, b: int) -> int {
    if a <= b {
        a
    } else {
        b
    }
}

pub open spec fn greater(a: int, b: int) -> int {
    if a >= b {
        a
    } else {
        b
    }
}

/// The rectangle with `a` and `b` at opposite corners.
pub open spec fn spanning(a: PdfPoint, b: PdfPoint) -> PdfRect {
    PdfRect {
        min: PdfPoint {
            x: lesser(a.x as int, b.x as int) as i32,
            y: lesser(a.y as int, b.y as int) as i32,
        },
        max: PdfPoint {
            x: greater(a.x as int, b.x as int) as i32,
            y: greater(a.y as int, b.y as int) as i32,
        },
    }
}

/// Halfway between `a` and `b`, rounded down to a whole thousandth.
pub open spec fn middle(a: int, b: int) -> int {
    (a + b) / 2
}

fn halfway(a: i32, b: i32) -> (r: i32)
    ensures
        r == middle(a as int, b as int),
{
    div_floor((a as i64 + b as i64) as i128, 2) as i32
}

impl PdfRect {
    /// The rectangle with `a` and `b` at opposite corners.
    pub fn from_points(a: PdfPoint, b: PdfPoint) -> (r: Self)
        ensures
            r == spanning(a, b),
    {
        PdfRect {
            min: PdfPoint {
                x: if a.x <= b.x { a.x } else { b.x },
                y: if a.y <= b.y { a.y } else { b.y },
            },
            max: PdfPoint {
                x: if a.x >= b.x { a.x } else { b.x },
                y: if a.y >= b.y { a.y } else { b.y },
            },
        }
    }

    /// The rectangle of size `w` by `h` whose bottom left corner is `min`.
    pub fn from_min_size(min: PdfPoint, w: i64, h: i64) -> (r: Self)
        ensures
            r == (PdfRect { min, max: min.plus(w as int, h as int) }),
    {
        PdfRect { min, max: min.moved(w, h) }
    }

    pub open spec fn spec_width(self) -> int {
        self.max.x - self.min.x
    }

    pub open spec fn spec_height(self) -> int {
        self.max.y - self.min.y
    }

    pub fn width(self) -> (r: i64)
        ensures
            r == self.spec_width(),
    {
        self.max.x as i64 - self.min.x as i64
    }

    pub fn height(self) -> (r: i64)
        ensures
            r == self.spec_height(),
    {
        self.max.y as i64 - self.min.y as i64
    }

    pub open spec fn middle_point(self) -> PdfPoint {
        PdfPoint {
            x: middle(self.min.x as int, self.max.x as int) as i32,
            y: middle(self.min.y as int, self.max.y as int) as i32,
        }
    }

    pub fn center(self) -> (r: PdfPoint)
        ensures
            r == self.middle_point(),
    {
        PdfPoint { x: halfway(self.min.x, self.max.x), y: halfway(self.min.y, self.max.y) }
    }

    pub open spec fn plus(self, dx: int, dy: int) -> PdfRect {
        PdfRect { min: self.min.plus(dx, dy), max: self.max.plus(dx, dy) }
    }

    pub fn translated(self, dx: i64, dy: i64) -> (r: Self)
        ensures
            r == self.plus(dx as int, dy as int),
    {
        PdfRect { min: self.min.moved(dx, dy), max: self.max.moved(dx, dy) }
    }

    /// Whether `p` lies in this rectangle grown by `tol` on every side, edges
    /// included.
    pub open spec fn near(self, p: PdfPoint, tol: int) -> bool {
        &&& self.min.x - tol <= p.x <= self.max.x + tol
        &&& self.min.y - tol <= p.y <= self.max.y + tol
    }

    /// Whether `p` lies in this rectangle grown by `tol` on every side.
    pub fn contains_near(self, p: PdfPoint, tol: i32) -> (r: bool)
        ensures
            r == self.near(p, tol as int),
    {
        let t: i64 = tol as i64;
        self.min.x as i64 - t <= p.x as i64 && p.x as i64 <= self.max.x as i64 + t
            && self.min.y as i64 - t <= p.y as i64 && p.y as i64 <= self.max.y as i64 + t
    }

    /// Whether the two rectangles have a point in common.
    pub open spec fn meets(self, other: PdfRect) -> bool {
        &&& self.min.x <= other.max.x
        &&& other.min.x <= self.max.x
        &&& self.min.y <= other.max.y
        &&& other.min.y <= self.max.y
    }

    /// Whether the two rectangles have a point in common.
    pub fn intersects(self, other: PdfRect) -> (r: bool)
        ensures
            r == self.meets(other),
    {
        self.min.x <= other.max.x && other.min.x <= self.max.x && self.min.y <= other.max.y
            && other.min.y <= self.max.y
    }
}

} // verus!
