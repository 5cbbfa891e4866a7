//! Freehand stroke helpers.

use vstd::prelude::*;

use crate::doc::geometry::{abs, greater, lesser, spanning, PdfPoint, PdfRect};
use crate::tools::select::{lemma_cancel, lemma_fraction, near_fraction};

verus! {

/// The square of the distance from `a` to `b`.
pub open spec fn dist2(a: PdfPoint, b: PdfPoint) -> int {
    (b.x - a.x) * (b.x - a.x) + (b.y - a.y) * (b.y - a.y)
}

/// Twice the area of the triangle `a`, `b`, `p`, positive to the left of
/// `a` to `b`.
pub open spec fn cross(p: PdfPoint, a: PdfPoint, b: PdfPoint) -> int {
    (b.x - a.x) * (p.y - a.y) - (b.y - a.y) * (p.x
        - a.x)
}

/// How far along `a` to `b` the point `p` projects, times the length squared.
pub open spec fn along(p: PdfPoint, a: PdfPoint, b: PdfPoint) -> int {
    (b.x - a.x) * (p.x - a.x) + (b.y - a.y) * (p.y
        - a.y)
}

pub fn distance2(a: PdfPoint, b: PdfPoint) -> (r: i128)
    ensures
        r == dist2(a, b),
        0 <= r <= 0x2_0000_0000_0000_0000,
{
    let dx: i128 = b.x as i128 - a.x as i128;
    let dy: i128 = b.y as i128 - a.y as i128;
    proof {
        lemma_product(dx as int, dx as int);
        lemma_product(dy as int, dy as int);
        assert(dx * dx >= 0) by (nonlinear_arith);
        assert(dy * dy >= 0) by (nonlinear_arith);
    }
    dx * dx + dy * dy
}

proof fn lemma_product(a: int, b: int)
    requires
        -0x1_0000_0000 <= a <= 0x1_0000_0000,
        -0x1_0000_0000 <= b <= 0x1_0000_0000,
    ensures
        -0x1_0000_0000_0000_0000 <= a * b <= 0x1_0000_0000_0000_0000,
{
    assert(-0x1_0000_0000_0000_0000 <= a * b <= 0x1_0000_0000_0000_0000) by (nonlinear_arith)
        requires
            -0x1_0000_0000 <= a <= 0x1_0000_0000,
            -0x1_0000_0000 <= b <= 0x1_0000_0000,
    ;
}

pub fn cross_of(p: PdfPoint, a: PdfPoint, b: PdfPoint) -> (r: i128)
    ensures
        r == cross(p, a, b),
        -0x2_0000_0000_0000_0000 <= r <= 0x2_0000_0000_0000_0000,
{
    let dx: i128 = b.x as i128 - a.x as i128;
    let dy: i128 = b.y as i128 - a.y as i128;
    let px: i128 = p.x as i128 - a.x as i128;
    let py: i128 = p.y as i128 - a.y as i128;
    proof {
        lemma_product(dx as int, py as int);
        lemma_product(dy as int, px as int);
    }
    dx * py - dy * px
}

pub fn along_of(p: PdfPoint, a: PdfPoint, b: PdfPoint) -> (r: i128)
    ensures
        r == along(p, a, b),
{
    let dx: i128 = b.x as i128 - a.x as i128;
    let dy: i128 = b.y as i128 - a.y as i128;
    let px: i128 = p.x as i128 - a.x as i128;
    let py: i128 = p.y as i128 - a.y as i128;
    proof {
        lemma_product(dx as int, px as int);
        lemma_product(dy as int, py as int);
    }
    dx * px + dy * py
}

/// Whether a point whose `cross` with a segment of squared length `len2` is
/// `c` lies no further than `tol` from the line through it.
pub open spec fn line_within(c: int, len2: int, tol: int) -> bool {
    c * c <= tol * tol * len2
}

pub fn within_line(c: i128, len2: i128, tol: i32) -> (r: bool)
    requires
        -0x2_0000_0000_0000_0000 <= c <= 0x2_0000_0000_0000_0000,
        0 <= len2 <= 0x2_0000_0000_0000_0000,
        tol >= 0,
    ensures
        r == line_within(c as int, len2 as int, tol as int),
{
    let t: u128 = tol as u128;
    let l: u128 = len2 as u128;
    let a: u128 = if c < 0 {
        (-c) as u128
    } else {
        c as u128
    };
    proof {
        assert(a * a == c * c) by (nonlinear_arith)
            requires
                a == c || a == -c,
        ;
        assert(0 <= t * t <= 0x4000_0000_0000_0000) by (nonlinear_arith)
            requires
                0 <= t <= 0x7fff_ffff,
        ;
        let tt = t * t;
        assert(0 <= tt * l <= 0x8000_0000_0000_0000_0000_0000_0000_0000) by (nonlinear_arith)
            requires
                0 <= tt <= 0x4000_0000_0000_0000,
                0 <= l <= 0x2_0000_0000_0000_0000,
        ;
    }
    // So far off that its square would not fit is further than any tolerance
    // reaches.
    if a >= 0x1_0000_0000_0000_0000 {
        proof {
            assert(a * a >= 0x1_0000_0000_0000_0000_0000_0000_0000_0000) by (nonlinear_arith)
                requires
                    a >= 0x1_0000_0000_0000_0000,
            ;
        }
        return false;
    }
    proof {
        assert(a * a < 0x1_0000_0000_0000_0000_0000_0000_0000_0000) by (nonlinear_arith)
            requires
                0 <= a < 0x1_0000_0000_0000_0000,
        ;
    }
    a * a <= t * t * l
}

/// A measure that orders points by their distance from the line `a` to `b`,
/// or from the point where the two are the same.
pub open spec fn weight(p: PdfPoint, a: PdfPoint, b: PdfPoint) -> int {
    if dist2(a, b) == 0 {
        dist2(a, p)
    } else {
        abs(cross(p, a, b))
    }
}

/// Whether `p` is further than `epsilon` from the line `a` to `b`.
pub open spec fn strays(p: PdfPoint, a: PdfPoint, b: PdfPoint, epsilon: int) -> bool {
    if dist2(a, b) == 0 {
        dist2(a, p) > epsilon * epsilon
    } else {
        !line_within(cross(p, a, b), dist2(a, b), epsilon)
    }
}

/// Among `s[1..n]`, the first of the points furthest from the line between
/// the ends of `s`; 0 where all of them lie on it.
pub open spec fn furthest(s: Seq<PdfPoint>, n: int) -> int
    decreases n,
{
    if n <= 1 {
        0
    } else {
        let m = furthest(s, n - 1);
        if weight(s[n - 1], s[0], s.last()) > (if m == 0 {
            0
        } else {
            weight(s[m], s[0], s.last())
        }) {
            n - 1
        } else {
            m
        }
    }
}

pub proof fn lemma_furthest(s: Seq<PdfPoint>, n: int)
    ensures
        n <= 1 ==> furthest(s, n) == 0,
        n > 1 ==> 0 <= furthest(s, n) < n,
    decreases n,
{
    if n > 1 {
        lemma_furthest(s, n - 1);
    }
}

/// The stroke with the points that lie within `epsilon` of it left out.
pub open spec fn simplified(s: Seq<PdfPoint>, epsilon: int) -> Seq<PdfPoint>
    decreases s.len(),
{
    if s.len() <= 2 {
        s
    } else {
        let m = furthest(s, s.len() - 1);
        if 0 < m < s.len() - 1 && strays(s[m], s[0], s.last(), epsilon) {
            simplified(s.take(m + 1), epsilon).drop_last() + simplified(s.skip(m), epsilon)
        } else {
            seq![s[0], s.last()]
        }
    }
}

fn weight_of(p: PdfPoint, a: PdfPoint, b: PdfPoint) -> (r: i128)
    ensures
        r == weight(p, a, b),
{
    if distance2(a, b) == 0 {
        distance2(a, p)
    } else {
        let c: i128 = cross_of(p, a, b);
        if c < 0 {
            -c
        } else {
            c
        }
    }
}

fn strays_from(p: PdfPoint, a: PdfPoint, b: PdfPoint, epsilon: i32) -> (r: bool)
    requires
        epsilon >= 0,
    ensures
        r == strays(p, a, b, epsilon as int),
{
    let len2: i128 = distance2(a, b);
    if len2 == 0 {
        let e: i128 = epsilon as i128;
        proof {
            lemma_product(e as int, e as int);
        }
        distance2(a, p) > e * e
    } else {
        !within_line(cross_of(p, a, b), len2, epsilon)
    }
}

fn simplify_run(points: &Vec<PdfPoint>, lo: usize, hi: usize, epsilon: i32) -> (r: Vec<PdfPoint>)
    requires
        lo <= hi <= points@.len(),
        epsilon >= 0,
    ensures
        r@ == simplified(points@.subrange(lo as int, hi as int), epsilon as int),
    decreases hi - lo,
{
    let ghost s = points@.subrange(lo as int, hi as int);
    let mut r: Vec<PdfPoint> = Vec::new();
    if hi - lo <= 2 {
        let mut i: usize = lo;
        while i < hi
            invariant
                lo <= i <= hi <= points@.len(),
                r@ == points@.subrange(lo as int, i as int),
            decreases hi - i,
        {
            r.push(points[i]);
            proof {
                assert(points@.subrange(lo as int, i + 1) =~= points@.subrange(
                    lo as int,
                    i as int,
                ).push(points@[i as int]));
            }
            i += 1;
        }
        return r;
    }
    let first: PdfPoint = points[lo];
    let last: PdfPoint = points[hi - 1];
    let mut best: i128 = 0;
    let mut far: usize = 0;
    let mut i: usize = 1;
    while i < hi - lo - 1
        invariant
            hi <= points@.len(),
            lo + 2 < hi,
            1 <= i <= hi - lo - 1,
            s == points@.subrange(lo as int, hi as int),
            first == s[0],
            last == s.last(),
            far == furthest(s, i as int),
            far < i,
            best == (if far == 0 {
                0
            } else {
                weight(s[far as int], s[0], s.last())
            }),
        decreases hi - i,
    {
        let d: i128 = weight_of(points[lo + i], first, last);
        if d > best {
            best = d;
            far = i;
        }
        i += 1;
    }
    if far > 0 && strays_from(points[lo + far], first, last, epsilon) {
        let mut left: Vec<PdfPoint> = simplify_run(points, lo, lo + far + 1, epsilon);
        let mut right: Vec<PdfPoint> = simplify_run(points, lo + far, hi, epsilon);
        proof {
            assert(points@.subrange(lo as int, lo + far + 1) =~= s.take(far + 1));
            assert(points@.subrange(lo + far, hi as int) =~= s.skip(far as int));
            lemma_ends_kept(s.take(far + 1), epsilon as int);
        }
        let _joint: Option<PdfPoint> = left.pop();
        left.append(&mut right);
        left
    } else {
        r.push(first);
        r.push(last);
        proof {
            assert(r@ =~= seq![first, last]);
        }
        r
    }
}

/// Ramer-Douglas-Peucker polyline simplification, `epsilon` in thousandths of
/// a point.
pub fn simplify(points: &Vec<PdfPoint>, epsilon: i32) -> (r: Vec<PdfPoint>)
    requires
        epsilon >= 0,
    ensures
        r@ == simplified(points@, epsilon as int),
{
    proof {
        assert(points@.subrange(0, points@.len() as int) =~= points@);
    }
    simplify_run(points, 0, points.len(), epsilon)
}

/// A simplified stroke begins and ends where the stroke did, and is no longer.
pub proof fn lemma_ends_kept(s: Seq<PdfPoint>, epsilon: int)
    requires
        s.len() > 0,
    ensures
        0 < simplified(s, epsilon).len() <= s.len(),
        s.len() >= 2 ==> simplified(s, epsilon).len() >= 2,
        simplified(s, epsilon)[0] == s[0],
        simplified(s, epsilon).last() == s.last(),
    decreases s.len(),
{
    if s.len() > 2 {
        let m = furthest(s, s.len() - 1);
        lemma_furthest(s, s.len() - 1);
        if 0 < m && strays(s[m], s[0], s.last(), epsilon) {
            lemma_ends_kept(s.take(m + 1), epsilon);
            lemma_ends_kept(s.skip(m), epsilon);
        }
    }
}

/// Simplifying keeps both ends of a stroke and adds no point that was not
/// part of it.
pub proof fn law_simplified_is_a_part(s: Seq<PdfPoint>, epsilon: int)
    requires
        s.len() > 0,
    ensures
        simplified(s, epsilon)[0] == s[0],
        simplified(s, epsilon).last() == s.last(),
        simplified(s, epsilon).len() <= s.len(),
        forall|i: int|
            0 <= i < simplified(s, epsilon).len() ==> s.contains(
                #[trigger] simplified(s, epsilon)[i],
            ),
    decreases s.len(),
{
    lemma_ends_kept(s, epsilon);
    let r = simplified(s, epsilon);
    if s.len() <= 2 {
        assert forall|i: int| 0 <= i < r.len() implies s.contains(#[trigger] r[i]) by {
            assert(r[i] == s[i]);
        }
    } else {
        let m = furthest(s, s.len() - 1);
        lemma_furthest(s, s.len() - 1);
        if 0 < m && strays(s[m], s[0], s.last(), epsilon) {
            let (a, b) = (s.take(m + 1), s.skip(m));
            law_simplified_is_a_part(a, epsilon);
            law_simplified_is_a_part(b, epsilon);
            lemma_ends_kept(a, epsilon);
            let (ra, rb) = (simplified(a, epsilon), simplified(b, epsilon));
            assert forall|i: int| 0 <= i < r.len() implies s.contains(#[trigger] r[i]) by {
                if i < ra.len() - 1 {
                    assert(r[i] == ra[i]);
                    let k = choose|k: int| 0 <= k < a.len() && a[k] == ra[i];
                    assert(s[k] == ra[i]);
                } else {
                    let o = i - (ra.len() - 1);
                    assert(r[i] == rb[o]);
                    let k = choose|k: int| 0 <= k < b.len() && b[k] == rb[o];
                    assert(s[m + k] == rb[o]);
                }
            }
        } else {
            assert(s.contains(s[0]));
            assert(s.contains(s[s.len() - 1]));
        }
    }
}

/// No point is further from the line than the furthest.
proof fn lemma_furthest_weight(s: Seq<PdfPoint>, n: int, j: int)
    requires
        1 <= j < n,
    ensures
        weight(s[j], s[0], s.last()) <= (if furthest(s, n) == 0 {
            0
        } else {
            weight(s[furthest(s, n)], s[0], s.last())
        }),
    decreases n,
{
    if j < n - 1 {
        lemma_furthest_weight(s, n - 1, j);
    }
}

/// A point no heavier than one that does not stray does not stray either, and
/// one that weighs nothing never does.
proof fn lemma_lighter(p: PdfPoint, q: PdfPoint, a: PdfPoint, b: PdfPoint, epsilon: int)
    requires
        epsilon >= 0,
        weight(p, a, b) <= 0 || (weight(p, a, b) <= weight(q, a, b) && !strays(q, a, b, epsilon)),
    ensures
        !strays(p, a, b, epsilon),
{
    let (c, d) = (cross(p, a, b), cross(q, a, b));
    let len2 = dist2(a, b);
    assert(0 <= epsilon * epsilon) by (nonlinear_arith)
        requires
            epsilon >= 0,
    ;
    lemma_dist2_positive(a, b);
    assert(0 <= epsilon * epsilon * len2) by (nonlinear_arith)
        requires
            0 <= epsilon * epsilon,
            0 <= len2,
    ;
    if len2 != 0 {
        if weight(p, a, b) <= 0 {
            assert(c * c == 0) by (nonlinear_arith)
                requires
                    c == 0,
            ;
        } else {
            assert(c * c <= d * d) by (nonlinear_arith)
                requires
                    -d <= c <= d || d <= c <= -d,
            ;
        }
    }
}

proof fn lemma_dist2_positive(a: PdfPoint, b: PdfPoint)
    ensures
        dist2(a, b) >= 0,
{
    let (x, y) = (b.x - a.x, b.y - a.y);
    assert(x * x >= 0) by (nonlinear_arith);
    assert(y * y >= 0) by (nonlinear_arith);
}

/// Both ends of a line lie on it.
proof fn lemma_ends_lie_on(a: PdfPoint, b: PdfPoint)
    ensures
        weight(a, a, b) == 0,
        weight(b, a, b) == 0,
{
    let (x, y) = (b.x - a.x, b.y - a.y);
    assert(x * y - y * x == 0) by (nonlinear_arith);
    assert(x * 0 - y * 0 == 0) by (nonlinear_arith);
    assert(0int * 0 + 0int * 0 == 0) by (nonlinear_arith);
}

/// Whether `p` is within `epsilon` of one of the lines that `r` runs along.
pub open spec fn near(p: PdfPoint, r: Seq<PdfPoint>, epsilon: int) -> bool {
    exists|k: int| 0 <= k < r.len() - 1 && !strays(p, #[trigger] r[k], r[k + 1], epsilon)
}

/// Simplifying loses no more than it was allowed to: every point of a stroke is
/// within `epsilon` of a line between two neighbours that were kept.
pub proof fn law_nothing_strays(s: Seq<PdfPoint>, epsilon: int, i: int)
    requires
        epsilon >= 0,
        s.len() >= 2,
        0 <= i < s.len(),
    ensures
        near(s[i], simplified(s, epsilon), epsilon),
    decreases s.len(),
{
    let r = simplified(s, epsilon);
    let (a, b) = (s[0], s.last());
    lemma_ends_lie_on(a, b);
    let m = furthest(s, s.len() - 1);
    lemma_furthest(s, s.len() - 1);
    if s.len() > 2 && 0 < m && strays(s[m], a, b, epsilon) {
        let (left, right) = (s.take(m + 1), s.skip(m));
        let (ra, rb) = (simplified(left, epsilon), simplified(right, epsilon));
        lemma_ends_kept(left, epsilon);
        lemma_ends_kept(right, epsilon);
        let n = ra.len() - 1;
        assert(r == ra.drop_last() + rb);
        if i <= m {
            law_nothing_strays(left, epsilon, i);
            assert(left[i] == s[i]);
            let k = choose|k: int|
                0 <= k < ra.len() - 1 && !strays(s[i], #[trigger] ra[k], ra[k + 1], epsilon);
            assert(r[k] == ra[k]);
            assert(r[k + 1] == ra[k + 1]);
        } else {
            law_nothing_strays(right, epsilon, i - m);
            assert(right[i - m] == s[i]);
            let k = choose|k: int|
                0 <= k < rb.len() - 1 && !strays(s[i], #[trigger] rb[k], rb[k + 1], epsilon);
            assert(r[n + k] == rb[k]);
            assert(r[n + k + 1] == rb[k + 1]);
        }
    } else {
        assert(r[0] == a && r[1] == b);
        if 0 < i < s.len() - 1 {
            lemma_furthest_weight(s, s.len() - 1, i);
            lemma_lighter(s[i], s[m], a, b, epsilon);
        } else {
            lemma_lighter(s[i], s[i], a, b, epsilon);
        }
    }
}

/// Which points of a stroke simplifying keeps, by their place in it.
pub open spec fn places(s: Seq<PdfPoint>, epsilon: int) -> Seq<int>
    decreases s.len(),
{
    if s.len() <= 2 {
        Seq::new(s.len(), |i: int| i)
    } else {
        let m = furthest(s, s.len() - 1);
        if 0 < m < s.len() - 1 && strays(s[m], s[0], s.last(), epsilon) {
            places(s.take(m + 1), epsilon).drop_last() + places(s.skip(m), epsilon).map_values(
                |i: int| m + i,
            )
        } else {
            seq![0, s.len() - 1]
        }
    }
}

/// Whether every point of `s` between two places is within `epsilon` of the line
/// through the points at them.
pub open spec fn straight(s: Seq<PdfPoint>, from: int, to: int, epsilon: int) -> bool {
    forall|k: int| from < k < to ==> !strays(#[trigger] s[k], s[from], s[to], epsilon)
}

/// Whether `at` are ascending places of `s`, the first and the last among them,
/// with nothing in between that strays.
pub open spec fn well_placed(s: Seq<PdfPoint>, at: Seq<int>, epsilon: int) -> bool {
    &&& at.len() >= 2
    &&& at[0] == 0 && at.last() == s.len() - 1
    &&& forall|i: int, j: int| 0 <= i < j < at.len() ==> #[trigger] at[i] < #[trigger] at[j]
    &&& forall|i: int| 0 <= i < at.len() - 1 ==> straight(s, #[trigger] at[i], at[i + 1], epsilon)
}

proof fn lemma_well_placed_joined(
    s: Seq<PdfPoint>,
    m: int,
    pa: Seq<int>,
    pb: Seq<int>,
    epsilon: int,
)
    requires
        0 < m < s.len() - 1,
        well_placed(s.take(m + 1), pa, epsilon),
        well_placed(s.skip(m), pb, epsilon),
    ensures
        well_placed(s, pa.drop_last() + pb.map_values(|i: int| m + i), epsilon),
{
    let at = pa.drop_last() + pb.map_values(|i: int| m + i);
    let n = pa.len() - 1;
    let (left, right) = (s.take(m + 1), s.skip(m));
    assert forall|i: int| 0 <= i <= n implies #[trigger] at[i] == pa[i] by {}
    assert forall|i: int| n <= i < at.len() implies #[trigger] at[i] == m + pb[i - n] by {}
    assert forall|i: int, j: int| 0 <= i < j < at.len() implies #[trigger] at[i]
        < #[trigger] at[j] by {
        if j <= n {
            assert(pa[i] < pa[j]);
        } else if i >= n {
            assert(pb[i - n] < pb[j - n]);
        } else {
            assert(pa[i] < pa[n]);
            assert(pb[0] < pb[j - n]);
        }
    }
    assert forall|i: int| 0 <= i < at.len() - 1 implies straight(
        s,
        #[trigger] at[i],
        at[i + 1],
        epsilon,
    ) by {
        if i < n {
            assert(straight(left, pa[i], pa[i + 1], epsilon));
            if i > 0 {
                assert(pa[0] < pa[i]);
            }
            if i + 1 < n {
                assert(pa[i + 1] < pa[n]);
            }
            assert(at[i + 1] == pa[i + 1]);
            assert forall|k: int| at[i] < k < at[i + 1] implies !strays(
                #[trigger] s[k],
                s[at[i]],
                s[at[i + 1]],
                epsilon,
            ) by {
                assert(left[k] == s[k]);
                assert(left[pa[i]] == s[pa[i]] && left[pa[i + 1]] == s[pa[i + 1]]);
            }
        } else {
            let o = i - n;
            assert(straight(right, pb[o], pb[o + 1], epsilon));
            if o > 0 {
                assert(pb[0] < pb[o]);
            }
            if o + 1 < pb.len() - 1 {
                assert(pb[o + 1] < pb[pb.len() - 1]);
            }
            assert(at[i + 1] == m + pb[o + 1]);
            assert forall|k: int| at[i] < k < at[i + 1] implies !strays(
                #[trigger] s[k],
                s[at[i]],
                s[at[i + 1]],
                epsilon,
            ) by {
                assert(right[k - m] == s[k]);
                assert(right[pb[o]] == s[at[i]] && right[pb[o + 1]] == s[at[i + 1]]);
            }
        }
    }
}

proof fn lemma_points_joined(s: Seq<PdfPoint>, m: int, pa: Seq<int>, pb: Seq<int>)
    requires
        0 < m < s.len() - 1,
        pa.len() > 0,
        forall|i: int| 0 <= i < pa.len() ==> 0 <= #[trigger] pa[i] <= m,
        forall|i: int| 0 <= i < pb.len() ==> 0 <= #[trigger] pb[i] < s.len() - m,
    ensures
        pa.map_values(|i: int| s.take(m + 1)[i]).drop_last() + pb.map_values(
            |i: int| s.skip(m)[i],
        ) == (pa.drop_last() + pb.map_values(|i: int| m + i)).map_values(|i: int| s[i]),
{
    let (left, right) = (s.take(m + 1), s.skip(m));
    let at = pa.drop_last() + pb.map_values(|i: int| m + i);
    let r = pa.map_values(|i: int| left[i]).drop_last() + pb.map_values(|i: int| right[i]);
    assert forall|i: int| 0 <= i < at.len() implies #[trigger] r[i] == s[at[i]] by {
        if i < pa.len() - 1 {
            assert(r[i] == left[pa[i]]);
        } else {
            let o = i - (pa.len() - 1);
            assert(r[i] == right[pb[o]]);
        }
    }
    assert(r =~= at.map_values(|i: int| s[i]));
}

proof fn lemma_ascending_bounds(at: Seq<int>, top: int)
    requires
        at.len() >= 2,
        at[0] == 0 && at.last() == top,
        forall|i: int, j: int| 0 <= i < j < at.len() ==> #[trigger] at[i] < #[trigger] at[j],
    ensures
        forall|i: int| 0 <= i < at.len() ==> 0 <= #[trigger] at[i] <= top,
{
    assert forall|i: int| 0 <= i < at.len() implies 0 <= #[trigger] at[i] <= top by {
        if i > 0 {
            assert(at[0] < at[i]);
        }
        if i < at.len() - 1 {
            assert(at[i] < at[at.len() - 1]);
        }
    }
}

proof fn lemma_straight(s: Seq<PdfPoint>, epsilon: int)
    requires
        epsilon >= 0,
        s.len() > 2,
        furthest(s, s.len() - 1) == 0 || !strays(
            s[furthest(s, s.len() - 1)],
            s[0],
            s.last(),
            epsilon,
        ),
    ensures
        straight(s, 0, s.len() - 1, epsilon),
{
    let m = furthest(s, s.len() - 1);
    assert forall|k: int| 0 < k < s.len() - 1 implies !strays(
        #[trigger] s[k],
        s[0],
        s.last(),
        epsilon,
    ) by {
        lemma_furthest_weight(s, s.len() - 1, k);
        lemma_lighter(s[k], s[m], s[0], s.last(), epsilon);
    }
}

/// A simplified stroke is some of the points of the stroke in their order, with
/// both its ends, and every point left out is within `epsilon` of the line
/// through the two kept points around it.
pub proof fn law_a_stroke_keeps_its_shape(s: Seq<PdfPoint>, epsilon: int)
    requires
        epsilon >= 0,
        s.len() >= 2,
    ensures
        well_placed(s, places(s, epsilon), epsilon),
        simplified(s, epsilon) == places(s, epsilon).map_values(|i: int| s[i]),
    decreases s.len(),
{
    let (at, r) = (places(s, epsilon), simplified(s, epsilon));
    if s.len() > 2 {
        let m = furthest(s, s.len() - 1);
        lemma_furthest(s, s.len() - 1);
        if 0 < m && strays(s[m], s[0], s.last(), epsilon) {
            let (left, right) = (s.take(m + 1), s.skip(m));
            law_a_stroke_keeps_its_shape(left, epsilon);
            law_a_stroke_keeps_its_shape(right, epsilon);
            let (pa, pb) = (places(left, epsilon), places(right, epsilon));
            lemma_well_placed_joined(s, m, pa, pb, epsilon);
            lemma_ascending_bounds(pa, m);
            lemma_ascending_bounds(pb, s.len() - 1 - m);
            lemma_points_joined(s, m, pa, pb);
        } else {
            lemma_straight(s, epsilon);
            assert(r =~= at.map_values(|i: int| s[i]));
        }
    } else {
        assert(r =~= at.map_values(|i: int| s[i]));
    }
}

/// Every point between the ends that is kept was between the ends.
proof fn lemma_interior(s: Seq<PdfPoint>, epsilon: int, i: int)
    requires
        epsilon >= 0,
        s.len() >= 2,
        0 < i < simplified(s, epsilon).len() - 1,
    ensures
        exists|k: int| 0 < k < s.len() - 1 && #[trigger] s[k] == simplified(s, epsilon)[i],
{
    law_a_stroke_keeps_its_shape(s, epsilon);
    let at = places(s, epsilon);
    assert(simplified(s, epsilon)[i] == s[at[i]]);
    assert(at[0] < at[i]);
    assert(at[i] < at[at.len() - 1]);
}

/// The first of the points furthest out is further out than those before it.
proof fn lemma_furthest_first(s: Seq<PdfPoint>, n: int, j: int)
    requires
        1 <= j < furthest(s, n),
    ensures
        weight(s[j], s[0], s.last()) < weight(s[furthest(s, n)], s[0], s.last()),
    decreases n,
{
    lemma_furthest(s, n);
    if n > 1 {
        lemma_furthest(s, n - 1);
        let m = furthest(s, n - 1);
        if furthest(s, n) == m {
            lemma_furthest_first(s, n - 1, j);
        } else {
            lemma_furthest_weight(s, n - 1, j);
        }
    }
}

proof fn lemma_furthest_weighs(s: Seq<PdfPoint>, n: int)
    requires
        furthest(s, n) > 0,
    ensures
        weight(s[furthest(s, n)], s[0], s.last()) > 0,
    decreases n,
{
    lemma_furthest(s, n);
    if n > 1 {
        lemma_furthest(s, n - 1);
        if furthest(s, n - 1) > 0 {
            lemma_furthest_weighs(s, n - 1);
        }
    }
}

proof fn lemma_furthest_is(s: Seq<PdfPoint>, n: int, p: int)
    requires
        1 <= p < n,
        weight(s[p], s[0], s.last()) > 0,
        forall|j: int|
            1 <= j < p ==> weight(#[trigger] s[j], s[0], s.last()) < weight(s[p], s[0], s.last()),
        forall|j: int|
            p < j < n ==> weight(#[trigger] s[j], s[0], s.last()) <= weight(s[p], s[0], s.last()),
    ensures
        furthest(s, n) == p,
    decreases n,
{
    lemma_furthest(s, n - 1);
    if p < n - 1 {
        lemma_furthest_is(s, n - 1, p);
        assert(weight(s[n - 1], s[0], s.last()) <= weight(s[p], s[0], s.last()));
    } else {
        let m = furthest(s, n - 1);
        if m > 0 {
            assert(weight(s[m], s[0], s.last()) < weight(s[p], s[0], s.last()));
        }
    }
}

/// Simplifying twice changes nothing more.
pub proof fn law_simplifying_twice_changes_nothing(s: Seq<PdfPoint>, epsilon: int)
    requires
        epsilon >= 0,
    ensures
        simplified(simplified(s, epsilon), epsilon) == simplified(s, epsilon),
    decreases s.len(),
{
    let r = simplified(s, epsilon);
    if s.len() > 2 {
        let (a, b) = (s[0], s.last());
        let m = furthest(s, s.len() - 1);
        lemma_furthest(s, s.len() - 1);
        if 0 < m && strays(s[m], a, b, epsilon) {
            let (left, right) = (s.take(m + 1), s.skip(m));
            let (ra, rb) = (simplified(left, epsilon), simplified(right, epsilon));
            lemma_ends_kept(left, epsilon);
            lemma_ends_kept(right, epsilon);
            law_simplifying_twice_changes_nothing(left, epsilon);
            law_simplifying_twice_changes_nothing(right, epsilon);
            let p = ra.len() - 1;
            assert(r[0] == a && r.last() == b && r[p] == s[m]);
            lemma_furthest_weighs(s, s.len() - 1);
            assert forall|j: int| 1 <= j < p implies weight(#[trigger] r[j], a, b) < weight(
                r[p],
                a,
                b,
            ) by {
                assert(r[j] == ra[j]);
                lemma_interior(left, epsilon, j);
                let k = choose|k: int| 0 < k < left.len() - 1 && #[trigger] left[k] == ra[j];
                assert(s[k] == left[k]);
                lemma_furthest_first(s, s.len() - 1, k);
            }
            assert forall|j: int| p < j < r.len() - 1 implies weight(#[trigger] r[j], a, b)
                <= weight(r[p], a, b) by {
                assert(r[j] == rb[j - p]);
                lemma_interior(right, epsilon, j - p);
                let k = choose|k: int| 0 < k < right.len() - 1 && #[trigger] right[k] == rb[j - p];
                assert(s[m + k] == right[k]);
                lemma_furthest_weight(s, s.len() - 1, m + k);
            }
            lemma_furthest_is(r, r.len() - 1, p);
            assert(r.take(p + 1) =~= ra);
            assert(r.skip(p) =~= rb);
        }
    }
}

/// The lowest coordinates among the points.
pub open spec fn lowest(s: Seq<PdfPoint>) -> PdfPoint
    decreases s.len(),
{
    if s.len() == 0 {
        PdfPoint { x: i32::MAX, y: i32::MAX }
    } else {
        let m = lowest(s.drop_last());
        PdfPoint {
            x: lesser(m.x as int, s.last().x as int) as i32,
            y: lesser(m.y as int, s.last().y as int) as i32,
        }
    }
}

/// The highest coordinates among the points.
pub open spec fn highest(s: Seq<PdfPoint>) -> PdfPoint
    decreases s.len(),
{
    if s.len() == 0 {
        PdfPoint { x: i32::MIN, y: i32::MIN }
    } else {
        let m = highest(s.drop_last());
        PdfPoint {
            x: greater(m.x as int, s.last().x as int) as i32,
            y: greater(m.y as int, s.last().y as int) as i32,
        }
    }
}

/// The smallest rectangle around the points.
pub open spec fn bounding(s: Seq<PdfPoint>) -> PdfRect {
    spanning(lowest(s), highest(s))
}

/// The smallest rectangle around the points.
pub fn bounding_rect(points: &Vec<PdfPoint>) -> (r: PdfRect)
    ensures
        r == bounding(points@),
{
    let mut min: PdfPoint = PdfPoint::new(i32::MAX, i32::MAX);
    let mut max: PdfPoint = PdfPoint::new(i32::MIN, i32::MIN);
    let mut i: usize = 0;
    while i < points.len()
        invariant
            i <= points@.len(),
            min == lowest(points@.take(i as int)),
            max == highest(points@.take(i as int)),
        decreases points@.len() - i,
    {
        let p: PdfPoint = points[i];
        proof {
            assert(points@.take(i + 1).drop_last() =~= points@.take(i as int));
        }
        if p.x < min.x {
            min.x = p.x;
        }
        if p.y < min.y {
            min.y = p.y;
        }
        if p.x > max.x {
            max.x = p.x;
        }
        if p.y > max.y {
            max.y = p.y;
        }
        i += 1;
    }
    proof {
        assert(points@.take(i as int) =~= points@);
    }
    PdfRect::from_points(min, max)
}

/// The bounding rectangle holds every point.
pub proof fn law_bounding_holds_all(s: Seq<PdfPoint>, i: int)
    requires
        0 <= i < s.len(),
    ensures
        bounding(s).near(s[i], 0),
{
    lemma_extremes(s, i);
}

proof fn lemma_extremes(s: Seq<PdfPoint>, i: int)
    requires
        0 <= i < s.len(),
    ensures
        lowest(s).x <= s[i].x <= highest(s).x,
        lowest(s).y <= s[i].y <= highest(s).y,
    decreases s.len(),
{
    if i < s.len() - 1 {
        lemma_extremes(s.drop_last(), i);
    }
}

/// A point strays from a line exactly where no point of the line, however far
/// along, is within `epsilon` of it; and from a line that is only a point,
/// where it is further than that from the point.
pub proof fn law_straying_is_being_too_far_away(
    p: PdfPoint,
    a: PdfPoint,
    b: PdfPoint,
    epsilon: int,
)
    requires
        epsilon >= 0,
    ensures
        a != b ==> (!strays(p, a, b, epsilon) <==> exists|n: int, d: int|
            0 < d && #[trigger] near_fraction(p, a, b, n, d, epsilon)),
        a == b ==> (strays(p, a, b, epsilon) <==> (p.x - a.x) * (p.x - a.x) + (p.y - a.y) * (p.y
            - a.y) > epsilon * epsilon),
{
    let (ux, uy) = (b.x - a.x, b.y - a.y);
    let (wx, wy) = (p.x - a.x, p.y - a.y);
    let (l, s, c) = (ux * ux + uy * uy, ux * wx + uy * wy, ux * wy - uy * wx);
    let tt = epsilon * epsilon;
    assert(dist2(a, b) == l && cross(p, a, b) == c);
    if a == b {
        assert(l == 0) by (nonlinear_arith)
            requires
                l == ux * ux + uy * uy,
                ux == 0,
                uy == 0,
        ;
    } else {
        assert(l > 0) by (nonlinear_arith)
            requires
                l == ux * ux + uy * uy,
                ux != 0 || uy != 0,
        ;
        if exists|n: int, d: int| 0 < d && #[trigger] near_fraction(p, a, b, n, d, epsilon) {
            let (n, d) = choose|n: int, d: int|
                0 < d && #[trigger] near_fraction(p, a, b, n, d, epsilon);
            let (x, y) = (d * wx - n * ux, d * wy - n * uy);
            let q = x * x + y * y;
            lemma_fraction(ux, uy, wx, wy, n, d);
            assert((d * epsilon) * (d * epsilon) == d * d * tt) by (nonlinear_arith)
                requires
                    tt == epsilon * epsilon,
            ;
            let e = d * s - n * l;
            assert(e * e >= 0) by (nonlinear_arith);
            assert(l * q <= d * d * (tt * l)) by (nonlinear_arith)
                requires
                    q <= d * d * tt,
                    0 <= l,
            ;
            lemma_cancel(d, c * c, tt * l);
        }
        if !strays(p, a, b, epsilon) {
            let (x, y) = (l * wx - s * ux, l * wy - s * uy);
            let q = x * x + y * y;
            lemma_fraction(ux, uy, wx, wy, s, l);
            let e = l * s - s * l;
            assert(e == 0) by (nonlinear_arith)
                requires
                    e == l * s - s * l,
            ;
            assert(e * e == 0);
            let cc = c * c;
            assert(l * q == l * l * cc);
            assert(q == l * cc) by (nonlinear_arith)
                requires
                    l > 0,
                    l * q == l * l * cc,
            ;
            assert(l * cc <= (l * epsilon) * (l * epsilon)) by (nonlinear_arith)
                requires
                    l > 0,
                    cc <= epsilon * epsilon * l,
            ;
            assert(near_fraction(p, a, b, s, l, epsilon));
        }
    }
}

/// A stroke of which no point strays from the line between its ends is drawn as
/// that line; one of which any does is not.
pub proof fn law_only_a_straight_stroke_is_a_line(s: Seq<PdfPoint>, epsilon: int)
    requires
        epsilon >= 0,
        s.len() >= 2,
    ensures
        (forall|k: int| 0 < k < s.len() - 1 ==> !strays(#[trigger] s[k], s[0], s.last(), epsilon))
            <==> simplified(s, epsilon) == seq![s[0], s.last()],
        (exists|k: int| 0 < k < s.len() - 1 && strays(#[trigger] s[k], s[0], s.last(), epsilon))
            ==> simplified(s, epsilon).len() > 2,
{
    if s.len() > 2 {
        let m = furthest(s, s.len() - 1);
        lemma_furthest(s, s.len() - 1);
        if 0 < m && strays(s[m], s[0], s.last(), epsilon) {
            let (left, right) = (s.take(m + 1), s.skip(m));
            lemma_ends_kept(left, epsilon);
            lemma_ends_kept(right, epsilon);
            assert(simplified(s, epsilon).len() > 2);
        } else {
            lemma_straight(s, epsilon);
        }
    } else {
        assert(s =~= seq![s[0], s.last()]);
    }
}

/// Where a stroke bends, the point of it that is furthest from the line between
/// its ends is kept, and the stroke is drawn to it and from it as each half
/// would be drawn by itself.
pub proof fn law_a_stroke_is_drawn_through_its_furthest_point(s: Seq<PdfPoint>, epsilon: int)
    requires
        epsilon >= 0,
        s.len() > 2,
        simplified(s, epsilon).len() > 2,
    ensures
        exists|m: int|
            0 < m < s.len() - 1 && simplified(s, epsilon) == simplified(
                #[trigger] s.take(m + 1),
                epsilon,
            ).drop_last() + simplified(s.skip(m), epsilon) && simplified(s, epsilon).contains(s[m])
                && strays(s[m], s[0], s.last(), epsilon) && forall|k: int|
                0 < k < s.len() - 1 ==> no_nearer(s[m], #[trigger] s[k], s[0], s.last()),
{
    let m = furthest(s, s.len() - 1);
    lemma_furthest(s, s.len() - 1);
    let (left, right) = (s.take(m + 1), s.skip(m));
    assert(0 < m && strays(s[m], s[0], s.last(), epsilon));
    lemma_ends_kept(left, epsilon);
    lemma_ends_kept(right, epsilon);
    let (ra, rb) = (simplified(left, epsilon), simplified(right, epsilon));
    assert(rb[0] == s[m]);
    assert(simplified(s, epsilon)[ra.len() - 1] == s[m]);
    assert forall|k: int| 0 < k < s.len() - 1 implies no_nearer(
        s[m],
        #[trigger] s[k],
        s[0],
        s.last(),
    ) by {
        lemma_furthest_weight(s, s.len() - 1, k);
        let (c, d) = (cross(s[k], s[0], s.last()), cross(s[m], s[0], s.last()));
        let (ux, uy) = (s.last().x - s[0].x, s.last().y - s[0].y);
        let l = ux * ux + uy * uy;
        assert(dist2(s[0], s.last()) == l);
        if ux != 0 || uy != 0 {
            assert(l > 0) by (nonlinear_arith)
                requires
                    l == ux * ux + uy * uy,
                    ux != 0 || uy != 0,
            ;
            assert(c * c <= d * d) by (nonlinear_arith)
                requires
                    -d <= c <= d || d <= c <= -d,
            ;
        } else {
            assert(l == 0) by (nonlinear_arith)
                requires
                    l == ux * ux + uy * uy,
                    ux == 0,
                    uy == 0,
            ;
        }
    }
}

/// Whether `p` is no nearer to the line from `a` to `b` than `q` is, by the
/// triangles they make with it; or to the point where the two are the same.
pub open spec fn no_nearer(p: PdfPoint, q: PdfPoint, a: PdfPoint, b: PdfPoint) -> bool {
    let (ux, uy) = (b.x - a.x, b.y - a.y);
    let tp = ux * (p.y - a.y) - uy * (p.x - a.x);
    let tq = ux * (q.y - a.y) - uy * (q.x - a.x);
    &&& ux != 0 || uy != 0 ==> tq * tq <= tp * tp
    &&& ux == 0 && uy == 0 ==> (q.x - a.x) * (q.x - a.x) + (q.y - a.y) * (q.y - a.y) <= (p.x - a.x)
        * (p.x - a.x) + (p.y - a.y) * (p.y - a.y)
}

} // verus!
