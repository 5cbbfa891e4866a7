//! Shift-constrained drags: squares and circles for shapes, 45 degree steps
//! for lines.

use vstd::prelude::*;

use crate::doc::geometry::{abs, greater, point, PdfPoint};

verus! {

/// Whether `r` is the whole number nearest to half the square root of `m`.
pub open spec fn is_half_root(m: int, r: int) -> bool {
    &&& r >= 0
    &&& r == 0 || (2 * r - 1) * (2 * r - 1) < m
    &&& m < (2 * r + 1) * (2 * r + 1)
}

/// The whole number nearest to half the square root of the even number `m`.
pub open spec fn half_root(m: int) -> int {
    choose|r: int| is_half_root(m, r)
}

proof fn lemma_half_root_unique(m: int, r: int, s: int)
    requires
        is_half_root(m, r),
        is_half_root(m, s),
    ensures
        r == s,
{
    if r < s {
        assert((2 * r + 1) * (2 * r + 1) <= (2 * s - 1) * (2 * s - 1)) by (nonlinear_arith)
            requires
                0 <= r < s,
        ;
    } else if s < r {
        assert((2 * s + 1) * (2 * s + 1) <= (2 * r - 1) * (2 * r - 1)) by (nonlinear_arith)
            requires
                0 <= s < r,
        ;
    }
}

fn half_root_of(m: i128) -> (r: i128)
    requires
        0 <= m <= 0x10_0000_0000_0000_0000,
        m % 2 == 0,
    ensures
        r == half_root(m as int),
        is_half_root(m as int, r as int),
        r <= 0x4_0000_0000,
{
    let mut lo: i128 = 0;
    let mut hi: i128 = 0x4_0000_0000;
    proof {
        assert((2 * 0x4_0000_0000 + 1) * (2 * 0x4_0000_0000 + 1) > 0x10_0000_0000_0000_0000int)
            by (nonlinear_arith);
    }
    while lo < hi
        invariant
            0 <= lo <= hi <= 0x4_0000_0000,
            m % 2 == 0,
            lo == 0 || (2 * lo - 1) * (2 * lo - 1) < m,
            m < (2 * hi + 1) * (2 * hi + 1),
        decreases hi - lo,
    {
        let mid: i128 = lo + (hi - lo + 1) / 2;
        let k: i128 = 2 * mid - 1;
        proof {
            assert(0 <= k * k <= 0x100_0000_0000_0000_0000) by (nonlinear_arith)
                requires
                    0 <= k <= 0x8_0000_0000,
            ;
            assert(k * k == 4 * (mid * mid - mid) + 1) by (nonlinear_arith)
                requires
                    k == 2 * mid - 1,
            ;
        }
        if k * k < m {
            lo = mid;
        } else {
            hi = mid - 1;
            proof {
                assert(2 * hi + 1 == k);
                assert((2 * hi + 1) * (2 * hi + 1) == k * k) by (nonlinear_arith)
                    requires
                        2 * hi + 1 == k,
                ;
            }
        }
    }
    proof {
        assert(is_half_root(m as int, lo as int));
        let s = half_root(m as int);
        assert(is_half_root(m as int, s));
        lemma_half_root_unique(m as int, lo as int, s);
    }
    lo
}

/// `v`'s sign, zero counting as positive.
pub open spec fn sign(v: int) -> int {
    if v < 0 {
        -1
    } else {
        1
    }
}

/// The point in the nearest of the eight compass directions from `start` that
/// is as far away as `pos` is, to the nearest thousandth.
pub open spec fn on_compass(start: PdfPoint, pos: PdfPoint) -> PdfPoint {
    let dx = pos.x - start.x;
    let dy = pos.y - start.y;
    let (a, b) = (abs(dx), abs(dy));
    let len2 = dx * dx + dy * dy;
    if (a + b) * (a + b) < 2 * (a * a) || len2 == 0 {
        point(start.x + sign(dx) * half_root(4 * len2), start.y as int)
    } else if (a + b) * (a + b) < 2 * (b * b) {
        point(start.x as int, start.y + sign(dy) * half_root(4 * len2))
    } else {
        let c = half_root(2 * len2);
        point(start.x + sign(dx) * c, start.y + sign(dy) * c)
    }
}

/// The corner opposite `start` of the square as large as the drag is long.
pub open spec fn on_square(start: PdfPoint, pos: PdfPoint) -> PdfPoint {
    let dx = pos.x - start.x;
    let dy = pos.y - start.y;
    let side = greater(abs(dx), abs(dy));
    point(start.x + side * sign(dx), start.y + side * sign(dy))
}

/// The direction and distance of a constrained line.
pub fn to_compass(start: PdfPoint, pos: PdfPoint) -> (r: PdfPoint)
    ensures
        r == on_compass(start, pos),
{
    let dx: i128 = pos.x as i128 - start.x as i128;
    let dy: i128 = pos.y as i128 - start.y as i128;
    let a: i128 = if dx < 0 { -dx } else { dx };
    let b: i128 = if dy < 0 { -dy } else { dy };
    proof {
        assert(dx * dx == a * a && 0 <= a * a <= 0x1_0000_0000_0000_0000) by (nonlinear_arith)
            requires
                0 <= a <= 0x1_0000_0000,
                a == dx || a == -dx,
        ;
        assert(dy * dy == b * b && 0 <= b * b <= 0x1_0000_0000_0000_0000) by (nonlinear_arith)
            requires
                0 <= b <= 0x1_0000_0000,
                b == dy || b == -dy,
        ;
        assert(0 <= (a + b) * (a + b) <= 0x4_0000_0000_0000_0000) by (nonlinear_arith)
            requires
                0 <= a <= 0x1_0000_0000,
                0 <= b <= 0x1_0000_0000,
        ;
    }
    let len2: i128 = dx * dx + dy * dy;
    let sum2: i128 = (a + b) * (a + b);
    if sum2 < 2 * (a * a) || len2 == 0 {
        let len: i128 = half_root_of(4 * len2);
        PdfPoint::at(
            if dx < 0 { start.x as i128 - len } else { start.x as i128 + len },
            start.y as i128,
        )
    } else if sum2 < 2 * (b * b) {
        let len: i128 = half_root_of(4 * len2);
        PdfPoint::at(
            start.x as i128,
            if dy < 0 { start.y as i128 - len } else { start.y as i128 + len },
        )
    } else {
        let c: i128 = half_root_of(2 * len2);
        PdfPoint::at(
            if dx < 0 { start.x as i128 - c } else { start.x as i128 + c },
            if dy < 0 { start.y as i128 - c } else { start.y as i128 + c },
        )
    }
}

/// The opposite corner of a constrained shape.
pub fn to_square(start: PdfPoint, pos: PdfPoint) -> (r: PdfPoint)
    ensures
        r == on_square(start, pos),
{
    let dx: i128 = pos.x as i128 - start.x as i128;
    let dy: i128 = pos.y as i128 - start.y as i128;
    let a: i128 = if dx < 0 { -dx } else { dx };
    let b: i128 = if dy < 0 { -dy } else { dy };
    let side: i128 = if a >= b { a } else { b };
    PdfPoint::at(
        if dx < 0 { start.x as i128 - side } else { start.x as i128 + side },
        if dy < 0 { start.y as i128 - side } else { start.y as i128 + side },
    )
}

/// Whether a point with these coordinates can be held.
pub open spec fn holdable(x: int, y: int) -> bool {
    i32::MIN <= x <= i32::MAX && i32::MIN <= y <= i32::MAX
}

/// A constrained shape is square, as far as its far corner is within the
/// coordinates there are.
pub proof fn law_square_sides(start: PdfPoint, pos: PdfPoint)
    requires
        ({
            let (dx, dy) = (pos.x - start.x, pos.y - start.y);
            let side = greater(abs(dx), abs(dy));
            holdable(start.x + side * sign(dx), start.y + side * sign(dy))
        }),
    ensures
        abs(on_square(start, pos).x - start.x) == abs(on_square(start, pos).y - start.y),
{
    let dx = pos.x - start.x;
    let dy = pos.y - start.y;
    let side = greater(abs(dx), abs(dy));
    lemma_signed(side, dx);
    lemma_signed(side, dy);
}

/// A constrained line runs straight across, straight up, or at 45 degrees, as
/// far as its end is within the coordinates there are.
pub proof fn law_compass_directions(start: PdfPoint, pos: PdfPoint)
    requires
        ({
            let (dx, dy) = (pos.x - start.x, pos.y - start.y);
            let c = half_root(2 * (dx * dx + dy * dy));
            holdable(start.x + sign(dx) * c, start.y + sign(dy) * c)
        }),
    ensures
        ({
            let r = on_compass(start, pos);
            ||| r.x == start.x
            ||| r.y == start.y
            ||| abs(r.x - start.x) == abs(r.y - start.y)
        }),
{
    let dx = pos.x - start.x;
    let dy = pos.y - start.y;
    let c = half_root(2 * (dx * dx + dy * dy));
    lemma_signed(c, dx);
    lemma_signed(c, dy);
}

proof fn lemma_signed(n: int, v: int)
    ensures
        n * sign(v) == sign(v) * n,
        n * sign(v) == n || n * sign(v) == -n,
{
    assert(n * 1 == n && 1 * n == n && n * (-1) == -n && (-1) * n == -n) by (nonlinear_arith);
}

} // verus!
