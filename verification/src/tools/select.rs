//! Hit-testing and resize-handle math for the select tool.

use vstd::prelude::*;

use crate::doc::annotation::{AnnV, Annotation, AnnotationId, AnnotationKind, KindV};
use crate::doc::geometry::{abs, sat, saturate, spanning, PdfPoint, PdfRect};
use crate::doc::store::AnnotationStore;
use crate::tools::pen::{
    along, along_of, cross, cross_of, dist2, distance2, line_within, within_line,
};

verus! {

/// The eight rect handles, line endpoint handles, and the corners of a
/// polygon or polyline by number.
#[derive(Clone, Copy, PartialEq, Eq, Structural, Debug)]
pub enum Handle {
    Nw,
    N,
    Ne,
    E,
    Se,
    S,
    Sw,
    W,
    LineStart,
    LineEnd,
    Vertex(usize),
}

/// The handles of a rectangle, in the order they are looked for.
pub open spec fn rect_handle_list() -> Seq<Handle> {
    seq![
        Handle::Nw,
        Handle::N,
        Handle::Ne,
        Handle::E,
        Handle::Se,
        Handle::S,
        Handle::Sw,
        Handle::W,
    ]
}

/// The handles of a rectangle, in the order they are looked for.
pub fn rect_handles() -> (r: Vec<Handle>)
    ensures
        r@ == rect_handle_list(),
{
    let r: Vec<Handle> = vec![
        Handle::Nw,
        Handle::N,
        Handle::Ne,
        Handle::E,
        Handle::Se,
        Handle::S,
        Handle::Sw,
        Handle::W,
    ];
    proof {
        assert(r@ =~= rect_handle_list());
    }
    r
}

impl Handle {
    /// Handle position on a rect, in PDF coords (N = top = max.y).
    pub open spec fn spot(self, r: PdfRect) -> PdfPoint {
        let c = r.middle_point();
        match self {
            Handle::Nw => PdfPoint { x: r.min.x, y: r.max.y },
            Handle::N => PdfPoint { x: c.x, y: r.max.y },
            Handle::Ne => r.max,
            Handle::E => PdfPoint { x: r.max.x, y: c.y },
            Handle::Se => PdfPoint { x: r.max.x, y: r.min.y },
            Handle::S => PdfPoint { x: c.x, y: r.min.y },
            Handle::Sw => r.min,
            Handle::W => PdfPoint { x: r.min.x, y: c.y },
            Handle::LineStart | Handle::LineEnd | Handle::Vertex(_) => c,
        }
    }

    /// Handle position on a rect, in PDF coords (N = top = max.y).
    pub fn anchor(self, r: PdfRect) -> (p: PdfPoint)
        ensures
            p == self.spot(r),
    {
        let c: PdfPoint = r.center();
        match self {
            Handle::Nw => PdfPoint::new(r.min.x, r.max.y),
            Handle::N => PdfPoint::new(c.x, r.max.y),
            Handle::Ne => PdfPoint::new(r.max.x, r.max.y),
            Handle::E => PdfPoint::new(r.max.x, c.y),
            Handle::Se => PdfPoint::new(r.max.x, r.min.y),
            Handle::S => PdfPoint::new(c.x, r.min.y),
            Handle::Sw => PdfPoint::new(r.min.x, r.min.y),
            Handle::W => PdfPoint::new(r.min.x, c.y),
            Handle::LineStart | Handle::LineEnd | Handle::Vertex(_) => c,
        }
    }

    pub open spec fn on_left(self) -> bool {
        self is Nw || self is W || self is Sw
    }

    pub open spec fn on_right(self) -> bool {
        self is Ne || self is E || self is Se
    }

    pub open spec fn on_top(self) -> bool {
        self is Nw || self is N || self is Ne
    }

    pub open spec fn on_bottom(self) -> bool {
        self is Sw || self is S || self is Se
    }

    pub fn moves_left(self) -> (r: bool)
        ensures
            r == self.on_left(),
    {
        matches!(self, Handle::Nw | Handle::W | Handle::Sw)
    }

    pub fn moves_right(self) -> (r: bool)
        ensures
            r == self.on_right(),
    {
        matches!(self, Handle::Ne | Handle::E | Handle::Se)
    }

    pub fn moves_top(self) -> (r: bool)
        ensures
            r == self.on_top(),
    {
        matches!(self, Handle::Nw | Handle::N | Handle::Ne)
    }

    pub fn moves_bottom(self) -> (r: bool)
        ensures
            r == self.on_bottom(),
    {
        matches!(self, Handle::Sw | Handle::S | Handle::Se)
    }
}

/// Whether `p` is no further than `tol` from the segment `a` to `b`.
pub open spec fn near_segment(p: PdfPoint, a: PdfPoint, b: PdfPoint, tol: int) -> bool {
    &&& tol >= 0
    &&& if along(p, a, b) <= 0 {
        dist2(a, p) <= tol * tol
    } else if along(p, a, b) >= dist2(a, b) {
        dist2(b, p) <= tol * tol
    } else {
        line_within(cross(p, a, b), dist2(a, b), tol)
    }
}

fn is_near_segment(p: PdfPoint, a: PdfPoint, b: PdfPoint, tol: i32) -> (r: bool)
    ensures
        r == near_segment(p, a, b, tol as int),
{
    if tol < 0 {
        return false;
    }
    let t: i128 = tol as i128;
    proof {
        assert(0 <= t * t <= 0x4000_0000_0000_0000) by (nonlinear_arith)
            requires
                0 <= t <= 0x8000_0000,
        ;
    }
    let s: i128 = along_of(p, a, b);
    if s <= 0 {
        distance2(a, p) <= t * t
    } else if s >= distance2(a, b) {
        distance2(b, p) <= t * t
    } else {
        within_line(cross_of(p, a, b), distance2(a, b), tol)
    }
}

/// Whether a press at `pos` lands on `a`: on a line or a stroke itself, and
/// anywhere in the box of everything else.
pub open spec fn hits(a: AnnV, pos: PdfPoint, tol: int) -> bool {
    match a.kind {
        KindV::Line { p1, p2, .. } => near_segment(pos, p1, p2, tol),
        KindV::Freehand { points } => exists|i: int|
            0 <= i < points.len() - 1 && near_segment(pos, #[trigger] points[i], points[i + 1], tol),
        _ => a.rect.near(pos, tol),
    }
}

fn is_hit(ann: &Annotation, pos: PdfPoint, tol: i32) -> (r: bool)
    ensures
        r == hits(ann@, pos, tol as int),
{
    match &ann.kind {
        AnnotationKind::Line { p1, p2, .. } => is_near_segment(pos, *p1, *p2, tol),
        AnnotationKind::Freehand { points } => {
            let mut i: usize = 1;
            while i < points.len()
                invariant
                    1 <= i,
                    ann@.kind == (KindV::Freehand { points: points@ }),
                    points@.len() > 0 ==> i <= points@.len(),
                    forall|j: int|
                        0 <= j < i - 1 ==> !near_segment(
                            pos,
                            #[trigger] points@[j],
                            points@[j + 1],
                            tol as int,
                        ),
                decreases points@.len() - i,
            {
                if is_near_segment(pos, points[i - 1], points[i], tol) {
                    proof {
                        let j = i - 1;
                        assert(0 <= j < points@.len() - 1);
                        assert(near_segment(pos, points@[j], points@[j + 1], tol as int));
                        let line = ann@.kind->Freehand_points;
                        assert(line == points@);
                        assert(near_segment(pos, line[j], line[j + 1], tol as int));
                    }
                    return true;
                }
                i += 1;
            }
            false
        },
        _ => ann.rect.contains_near(pos, tol),
    }
}

/// The last annotation of `s` on `page` that a press at `pos` lands on.
pub open spec fn topmost(s: Seq<AnnV>, page: usize, pos: PdfPoint, tol: int) -> Option<AnnotationId>
    decreases s.len(),
{
    if s.len() == 0 {
        None
    } else if s.last().page == page && hits(s.last(), pos, tol) {
        Some(s.last().id)
    } else {
        topmost(s.drop_last(), page, pos, tol)
    }
}

/// Whether `p` is no further than `tol` from the point `n / d` of the way from
/// `a` to `b`.
pub open spec fn near_fraction(
    p: PdfPoint,
    a: PdfPoint,
    b: PdfPoint,
    n: int,
    d: int,
    tol: int,
) -> bool {
    let x = d * (p.x - a.x) - n * (b.x - a.x);
    let y = d * (p.y - a.y) - n * (b.y - a.y);
    x * x + y * y <= (d * tol) * (d * tol)
}

proof fn lemma_difference_squared(d: int, w: int, n: int, u: int)
    ensures
        (d * w - n * u) * (d * w - n * u) == d * d * (w * w) - 2 * (d * n * (u * w)) + n * n * (u
            * u),
{
    let (a, b) = (d * w, n * u);
    assert((a - b) * (a - b) == a * a - 2 * (a * b) + b * b) by (nonlinear_arith);
    assert(a * a == d * d * (w * w)) by (nonlinear_arith)
        requires
            a == d * w,
    ;
    assert(a * b == d * n * (u * w)) by (nonlinear_arith)
        requires
            a == d * w,
            b == n * u,
    ;
    assert(b * b == n * n * (u * u)) by (nonlinear_arith)
        requires
            b == n * u,
    ;
}

/// The squares of the two products of a pair of vectors add up to that of their
/// lengths.
proof fn lemma_products(ux: int, uy: int, wx: int, wy: int)
    ensures
        (ux * ux + uy * uy) * (wx * wx + wy * wy) == (ux * wx + uy * wy) * (ux * wx + uy * wy) + (ux
            * wy - uy * wx) * (ux * wy - uy * wx),
{
    let (a, b, c, d) = (ux * wx, uy * wy, ux * wy, uy * wx);
    let (xx, yy, zz, tt) = (ux * ux, uy * uy, wx * wx, wy * wy);
    assert((a + b) * (a + b) == a * a + 2 * (a * b) + b * b) by (nonlinear_arith);
    assert((c - d) * (c - d) == c * c - 2 * (c * d) + d * d) by (nonlinear_arith);
    assert(a * b == c * d) by (nonlinear_arith)
        requires
            a == ux * wx,
            b == uy * wy,
            c == ux * wy,
            d == uy * wx,
    ;
    assert(a * a == xx * zz) by (nonlinear_arith)
        requires
            a == ux * wx,
            xx == ux * ux,
            zz == wx * wx,
    ;
    assert(b * b == yy * tt) by (nonlinear_arith)
        requires
            b == uy * wy,
            yy == uy * uy,
            tt == wy * wy,
    ;
    assert(c * c == xx * tt) by (nonlinear_arith)
        requires
            c == ux * wy,
            xx == ux * ux,
            tt == wy * wy,
    ;
    assert(d * d == yy * zz) by (nonlinear_arith)
        requires
            d == uy * wx,
            yy == uy * uy,
            zz == wx * wx,
    ;
    assert((xx + yy) * (zz + tt) == xx * zz + xx * tt + yy * zz + yy * tt) by (nonlinear_arith);
}

/// The square of the distance from `W` to `n / d` of `U`, both from one point,
/// and what it comes to in terms of their products.
pub proof fn lemma_fraction(ux: int, uy: int, wx: int, wy: int, n: int, d: int)
    ensures
        ({
            let (x, y) = (d * wx - n * ux, d * wy - n * uy);
            let (l, s, c, w) = (
                ux * ux + uy * uy,
                ux * wx + uy * wy,
                ux * wy - uy * wx,
                wx * wx + wy * wy,
            );
            &&& x * x + y * y == d * d * w - 2 * (d * n * s) + n * n * l
            &&& l * w == s * s + c * c
            &&& l * (x * x + y * y) == d * d * (c * c) + (d * s - n * l) * (d * s - n * l)
        }),
{
    let (x, y) = (d * wx - n * ux, d * wy - n * uy);
    let (l, s, c, w) = (
        ux * ux + uy * uy,
        ux * wx + uy * wy,
        ux * wy - uy * wx,
        wx * wx + wy * wy,
    );
    lemma_difference_squared(d, wx, n, ux);
    lemma_difference_squared(d, wy, n, uy);
    let (dd, dn, nn) = (d * d, d * n, n * n);
    assert(dd * (wx * wx) + dd * (wy * wy) == dd * w) by (nonlinear_arith)
        requires
            w == wx * wx + wy * wy,
    ;
    assert(dn * (ux * wx) + dn * (uy * wy) == dn * s) by (nonlinear_arith)
        requires
            s == ux * wx + uy * wy,
    ;
    assert(nn * (ux * ux) + nn * (uy * uy) == nn * l) by (nonlinear_arith)
        requires
            l == ux * ux + uy * uy,
    ;
    let q = x * x + y * y;
    assert(q == dd * w - 2 * (dn * s) + nn * l);
    lemma_products(ux, uy, wx, wy);
    let lw = l * w;
    assert(l * q == dd * lw - 2 * (dn * s * l) + nn * (l * l)) by (nonlinear_arith)
        requires
            q == dd * w - 2 * (dn * s) + nn * l,
            lw == l * w,
    ;
    assert(dd * lw == dd * (s * s) + dd * (c * c)) by (nonlinear_arith)
        requires
            lw == s * s + c * c,
    ;
    let (ds, nl) = (d * s, n * l);
    assert((ds - nl) * (ds - nl) == ds * ds - 2 * (ds * nl) + nl * nl) by (nonlinear_arith);
    assert(ds * ds == dd * (s * s) && ds * nl == dn * s * l && nl * nl == nn * (l * l))
        by (nonlinear_arith)
        requires
            ds == d * s,
            nl == n * l,
            dd == d * d,
            dn == d * n,
            nn == n * n,
    ;
}

pub proof fn lemma_cancel(d: int, a: int, b: int)
    requires
        d > 0,
        d * d * a <= d * d * b,
    ensures
        a <= b,
{
    let dd = d * d;
    assert(dd > 0) by (nonlinear_arith)
        requires
            d > 0,
            dd == d * d,
    ;
    assert(a <= b) by (nonlinear_arith)
        requires
            dd > 0,
            dd * a <= dd * b,
    ;
}

/// A press within the tolerance of any point of a segment lands on it, wherever
/// between its ends that point is.
pub proof fn law_a_segment_is_hit_all_along(
    p: PdfPoint,
    a: PdfPoint,
    b: PdfPoint,
    n: int,
    d: int,
    tol: int,
)
    requires
        tol >= 0,
        0 <= n <= d,
        0 < d,
        near_fraction(p, a, b, n, d, tol),
    ensures
        near_segment(p, a, b, tol),
{
    let (ux, uy) = (b.x - a.x, b.y - a.y);
    let (wx, wy) = (p.x - a.x, p.y - a.y);
    let (x, y) = (d * wx - n * ux, d * wy - n * uy);
    let (l, s, c, w) = (
        ux * ux + uy * uy,
        ux * wx + uy * wy,
        ux * wy - uy * wx,
        wx * wx + wy * wy,
    );
    let q = x * x + y * y;
    lemma_fraction(ux, uy, wx, wy, n, d);
    let tt = tol * tol;
    assert((d * tol) * (d * tol) == d * d * tt) by (nonlinear_arith)
        requires
            tt == tol * tol,
    ;
    assert(along(p, a, b) == s && dist2(a, b) == l && cross(p, a, b) == c && dist2(a, p) == w);
    assert(0 <= l) by (nonlinear_arith)
        requires
            l == ux * ux + uy * uy,
    ;
    if s <= 0 {
        assert(d * n * s <= 0 && n * n * l >= 0) by (nonlinear_arith)
            requires
                0 < d,
                0 <= n,
                s <= 0,
                0 <= l,
        ;
        lemma_cancel(d, w, tt);
    } else if s >= l {
        // The same, seen from the other end.
        let (vx, vy) = (p.x - b.x, p.y - b.y);
        let (m, s2, w2) = (d - n, (-ux) * vx + (-uy) * vy, vx * vx + vy * vy);
        lemma_fraction(-ux, -uy, vx, vy, m, d);
        assert(d * vx - m * (-ux) == x) by (nonlinear_arith)
            requires
                vx == wx - ux,
                m == d - n,
                x == d * wx - n * ux,
        ;
        assert(d * vy - m * (-uy) == y) by (nonlinear_arith)
            requires
                vy == wy - uy,
                m == d - n,
                y == d * wy - n * uy,
        ;
        assert(s2 == l - s) by (nonlinear_arith)
            requires
                vx == wx - ux,
                vy == wy - uy,
                s2 == (-ux) * vx + (-uy) * vy,
                l == ux * ux + uy * uy,
                s == ux * wx + uy * wy,
        ;
        assert((-ux) * (-ux) + (-uy) * (-uy) == l) by (nonlinear_arith)
            requires
                l == ux * ux + uy * uy,
        ;
        assert(d * m * s2 <= 0 && m * m * l >= 0) by (nonlinear_arith)
            requires
                0 < d,
                0 <= m,
                s2 <= 0,
                0 <= l,
        ;
        assert(dist2(b, p) == w2);
        lemma_cancel(d, w2, tt);
    } else {
        let e = d * s - n * l;
        assert(e * e >= 0) by (nonlinear_arith);
        assert(l * q <= d * d * (tt * l)) by (nonlinear_arith)
            requires
                q <= d * d * tt,
                0 <= l,
        ;
        lemma_cancel(d, c * c, tt * l);
    }
}

/// A press that lands on a segment is within the tolerance of some point of it.
pub proof fn law_only_a_segment_is_hit(p: PdfPoint, a: PdfPoint, b: PdfPoint, tol: int)
    requires
        near_segment(p, a, b, tol),
    ensures
        tol >= 0,
        exists|n: int, d: int|
            0 <= n <= d && 0 < d && #[trigger] near_fraction(p, a, b, n, d, tol),
{
    let (ux, uy) = (b.x - a.x, b.y - a.y);
    let (wx, wy) = (p.x - a.x, p.y - a.y);
    let (l, s, c) = (ux * ux + uy * uy, ux * wx + uy * wy, ux * wy - uy * wx);
    assert(along(p, a, b) == s && dist2(a, b) == l && cross(p, a, b) == c);
    if s <= 0 {
        assert(1 * wx - 0 * ux == wx && 1 * wy - 0 * uy == wy && 1 * tol == tol);
        assert(near_fraction(p, a, b, 0, 1, tol));
    } else if s >= l {
        assert(1 * wx - 1 * ux == p.x - b.x && 1 * wy - 1 * uy == p.y - b.y && 1 * tol == tol);
        assert(near_fraction(p, a, b, 1, 1, tol));
    } else {
        let (x, y) = (l * wx - s * ux, l * wy - s * uy);
        let q = x * x + y * y;
        lemma_fraction(ux, uy, wx, wy, s, l);
        assert(l * s - s * l == 0) by (nonlinear_arith);
        let e = l * s - s * l;
        assert(e * e == 0);
        assert(l * q == l * l * (c * c));
        let cc = c * c;
        assert(q == l * cc) by (nonlinear_arith)
            requires
                l > 0,
                l * q == l * l * cc,
        ;
        assert(l * cc <= (l * tol) * (l * tol)) by (nonlinear_arith)
            requires
                l > 0,
                cc <= tol * tol * l,
        ;
        assert(near_fraction(p, a, b, s, l, tol));
    }
}

/// What a press lands on: a line or a stroke within the tolerance of any point
/// along it, and everything else within the tolerance of its box.
pub proof fn law_what_is_hit(a: AnnV, pos: PdfPoint, tol: int)
    ensures
        match a.kind {
            KindV::Line { p1, p2, .. } => hits(a, pos, tol) <==> tol >= 0 && exists|n: int, d: int|
                0 <= n <= d && 0 < d && #[trigger] near_fraction(pos, p1, p2, n, d, tol),
            KindV::Freehand { points } => hits(a, pos, tol) <==> tol >= 0 && exists|
                i: int,
                n: int,
                d: int,
            |
                0 <= i < points.len() - 1 && 0 <= n <= d && 0 < d && #[trigger] near_fraction(
                    pos,
                    points[i],
                    points[i + 1],
                    n,
                    d,
                    tol,
                ),
            _ => hits(a, pos, tol) <==> a.rect.min.x - tol <= pos.x <= a.rect.max.x + tol
                && a.rect.min.y - tol <= pos.y <= a.rect.max.y + tol,
        },
{
    match a.kind {
        KindV::Line { p1, p2, .. } => {
            if hits(a, pos, tol) {
                law_only_a_segment_is_hit(pos, p1, p2, tol);
            } else if tol >= 0 && exists|n: int, d: int|
                0 <= n <= d && 0 < d && #[trigger] near_fraction(pos, p1, p2, n, d, tol) {
                let (n, d) = choose|n: int, d: int|
                    0 <= n <= d && 0 < d && #[trigger] near_fraction(pos, p1, p2, n, d, tol);
                law_a_segment_is_hit_all_along(pos, p1, p2, n, d, tol);
            }
        },
        KindV::Freehand { points } => {
            if hits(a, pos, tol) {
                let i = choose|i: int|
                    0 <= i < points.len() - 1 && near_segment(
                        pos,
                        #[trigger] points[i],
                        points[i + 1],
                        tol,
                    );
                law_only_a_segment_is_hit(pos, points[i], points[i + 1], tol);
                let (n, d) = choose|n: int, d: int|
                    0 <= n <= d && 0 < d && #[trigger] near_fraction(
                        pos,
                        points[i],
                        points[i + 1],
                        n,
                        d,
                        tol,
                    );
                assert(near_fraction(pos, points[i], points[i + 1], n, d, tol));
            } else if tol >= 0 && exists|i: int, n: int, d: int|
                0 <= i < points.len() - 1 && 0 <= n <= d && 0 < d && #[trigger] near_fraction(
                    pos,
                    points[i],
                    points[i + 1],
                    n,
                    d,
                    tol,
                ) {
                let (i, n, d) = choose|i: int, n: int, d: int|
                    0 <= i < points.len() - 1 && 0 <= n <= d && 0 < d && #[trigger] near_fraction(
                        pos,
                        points[i],
                        points[i + 1],
                        n,
                        d,
                        tol,
                    );
                law_a_segment_is_hit_all_along(pos, points[i], points[i + 1], n, d, tol);
                assert(near_segment(pos, points[i], points[i + 1], tol));
            }
        },
        _ => {},
    }
}

/// A press finds an annotation exactly where there is one of that page under
/// it, and the one it finds lies above every other that is.
pub proof fn law_the_topmost_is_hit(s: Seq<AnnV>, page: usize, pos: PdfPoint, tol: int)
    ensures
        match topmost(s, page, pos, tol) {
            Some(id) => exists|i: int|
                #![trigger s[i]]
                0 <= i < s.len() && s[i].id == id && s[i].page == page && hits(s[i], pos, tol)
                    && forall|j: int|
                    i < j < s.len() ==> !((#[trigger] s[j]).page == page && hits(s[j], pos, tol)),
            None => forall|j: int|
                0 <= j < s.len() ==> !((#[trigger] s[j]).page == page && hits(s[j], pos, tol)),
        },
    decreases s.len(),
{
    if s.len() > 0 {
        let t = s.drop_last();
        let n = s.len() - 1;
        assert(s[n] == s.last());
        if !(s.last().page == page && hits(s.last(), pos, tol)) {
            law_the_topmost_is_hit(t, page, pos, tol);
            assert forall|j: int| 0 <= j < n implies t[j] == #[trigger] s[j] by {}
            if let Some(id) = topmost(t, page, pos, tol) {
                let i = choose|i: int|
                    #![trigger t[i]]
                    0 <= i < t.len() && t[i].id == id && t[i].page == page && hits(t[i], pos, tol)
                        && forall|j: int|
                        i < j < t.len() ==> !((#[trigger] t[j]).page == page && hits(
                            t[j],
                            pos,
                            tol,
                        ));
                assert(s[i] == t[i]);
                assert forall|j: int| i < j < s.len() implies !((#[trigger] s[j]).page == page
                    && hits(s[j], pos, tol)) by {
                    if j < n {
                        assert(t[j] == s[j]);
                    }
                }
            } else {
                assert forall|j: int| 0 <= j < s.len() implies !((#[trigger] s[j]).page == page
                    && hits(s[j], pos, tol)) by {
                    if j < n {
                        assert(t[j] == s[j]);
                    }
                }
            }
        }
    }
}

/// Topmost annotation on `page` under `pos`, if any.
pub fn hit_test(store: &AnnotationStore, page: usize, pos: PdfPoint, tol: i32) -> (r: Option<
    AnnotationId,
>)
    ensures
        r == topmost(store@.items, page, pos, tol as int),
{
    let mut i: usize = store.items.len();
    proof {
        assert(store@.items.take(i as int) =~= store@.items);
    }
    while i > 0
        invariant
            i <= store.items@.len(),
            topmost(store@.items, page, pos, tol as int) == topmost(
                store@.items.take(i as int),
                page,
                pos,
                tol as int,
            ),
        decreases i,
    {
        i -= 1;
        proof {
            assert(store@.items.take(i + 1).drop_last() =~= store@.items.take(i as int));
            assert(store@.items.take(i + 1).last() == store.items@[i as int]@);
        }
        if store.items[i].page == page && is_hit(&store.items[i], pos, tol) {
            return Some(store.items[i].id);
        }
    }
    None
}

/// Whether `h` is within `tol` of `pos` along both axes.
pub open spec fn close(pos: PdfPoint, h: PdfPoint, tol: int) -> bool {
    abs(pos.x - h.x) <= tol && abs(pos.y - h.y) <= tol
}

fn is_close(pos: PdfPoint, h: PdfPoint, tol: i64) -> (r: bool)
    ensures
        r == close(pos, h, tol as int),
{
    let dx: i64 = pos.x as i64 - h.x as i64;
    let dy: i64 = pos.y as i64 - h.y as i64;
    (if dx < 0 { -dx } else { dx }) <= tol && (if dy < 0 { -dy } else { dy }) <= tol
}

/// The first of `points[from..]` close to `pos`.
pub open spec fn corner_at(points: Seq<PdfPoint>, from: int, pos: PdfPoint, tol: int) -> Option<
    Handle,
>
    decreases points.len() - from,
{
    if from < 0 || from >= points.len() {
        None
    } else if close(pos, points[from], tol) {
        Some(Handle::Vertex(from as usize))
    } else {
        corner_at(points, from + 1, pos, tol)
    }
}

/// The first handle of `list` whose place on `r` is close to `pos`.
pub open spec fn first_close(list: Seq<Handle>, from: int, r: PdfRect, pos: PdfPoint, tol: int) -> Option<
    Handle,
>
    decreases list.len() - from,
{
    if from < 0 || from >= list.len() {
        None
    } else if close(pos, list[from].spot(r), tol) {
        Some(list[from])
    } else {
        first_close(list, from + 1, r, pos, tol)
    }
}

/// The handle of `a` under `pos`: an end of a line, a corner of a polygon or
/// polyline, and one of the eight handles of anything else's box.
pub open spec fn grip(a: AnnV, pos: PdfPoint, tol: int) -> Option<Handle> {
    match a.kind {
        KindV::Line { p1, p2, .. } => if close(pos, p1, tol) {
            Some(Handle::LineStart)
        } else if close(pos, p2, tol) {
            Some(Handle::LineEnd)
        } else {
            None
        },
        KindV::Polygon { points, .. } => corner_at(points, 0, pos, tol),
        KindV::PolyLine { points, .. } => corner_at(points, 0, pos, tol),
        _ => first_close(rect_handle_list(), 0, a.rect, pos, tol),
    }
}

fn corner_under(points: &Vec<PdfPoint>, pos: PdfPoint, tol: i64) -> (r: Option<Handle>)
    ensures
        r == corner_at(points@, 0, pos, tol as int),
{
    let mut i: usize = 0;
    while i < points.len()
        invariant
            i <= points@.len(),
            corner_at(points@, 0, pos, tol as int) == corner_at(points@, i as int, pos, tol as int),
        decreases points@.len() - i,
    {
        if is_close(pos, points[i], tol) {
            return Some(Handle::Vertex(i));
        }
        i += 1;
    }
    None
}

/// Handle under `pos` for the selected annotation, if any.
pub fn handle_at(ann: &Annotation, pos: PdfPoint, tol: i64) -> (r: Option<Handle>)
    ensures
        r == grip(ann@, pos, tol as int),
{
    match &ann.kind {
        AnnotationKind::Line { p1, p2, .. } => {
            if is_close(pos, *p1, tol) {
                Some(Handle::LineStart)
            } else if is_close(pos, *p2, tol) {
                Some(Handle::LineEnd)
            } else {
                None
            }
        },
        AnnotationKind::Polygon { points, .. } => corner_under(points, pos, tol),
        AnnotationKind::PolyLine { points, .. } => corner_under(points, pos, tol),
        _ => {
            let list: Vec<Handle> = rect_handles();
            let mut i: usize = 0;
            while i < list.len()
                invariant
                    i <= list@.len(),
                    list@ == rect_handle_list(),
                    grip(ann@, pos, tol as int) == first_close(
                        list@,
                        i as int,
                        ann.rect,
                        pos,
                        tol as int,
                    ),
                decreases list@.len() - i,
            {
                if is_close(pos, list[i].anchor(ann.rect), tol) {
                    return Some(list[i]);
                }
                i += 1;
            }
            None
        },
    }
}

/// Whether the handle is a corner of a rectangle.
pub open spec fn is_corner(h: Handle) -> bool {
    h is Nw || h is Ne || h is Se || h is Sw
}

/// The two corners after dragging `handle` of `orig` to `pos`, proportions
/// aside.
pub open spec fn pulled(orig: PdfRect, handle: Handle, pos: PdfPoint) -> (PdfPoint, PdfPoint) {
    (
        PdfPoint {
            x: if handle.on_left() {
                pos.x
            } else {
                orig.min.x
            },
            y: if handle.on_bottom() {
                pos.y
            } else {
                orig.min.y
            },
        },
        PdfPoint {
            x: if handle.on_right() {
                pos.x
            } else {
                orig.max.x
            },
            y: if handle.on_top() {
                pos.y
            } else {
                orig.max.y
            },
        },
    )
}

/// New bounds when dragging `handle` of `orig` to `pos`. With `lock_aspect` a
/// corner keeps the proportions `orig` had, following whichever side was
/// dragged further for them.
pub open spec fn resized(orig: PdfRect, handle: Handle, pos: PdfPoint, lock_aspect: bool) -> PdfRect {
    let (min, max) = pulled(orig, handle, pos);
    let (ow, oh) = (orig.spec_width(), orig.spec_height());
    if lock_aspect && ow > 0 && oh > 0 && is_corner(handle) {
        let w = abs(max.x - min.x);
        let h = abs(max.y - min.y);
        if w * oh >= h * ow {
            let new_h = w * oh / ow;
            if handle.on_top() {
                spanning(min, PdfPoint { x: max.x, y: sat(min.y + new_h) })
            } else {
                spanning(PdfPoint { x: min.x, y: sat(max.y - new_h) }, max)
            }
        } else {
            let new_w = h * ow / oh;
            if handle.on_left() {
                spanning(PdfPoint { x: sat(max.x - new_w), y: min.y }, max)
            } else {
                spanning(min, PdfPoint { x: sat(min.x + new_w), y: max.y })
            }
        }
    } else {
        spanning(min, max)
    }
}

fn scaled(side: i128, by: i128, over: i128) -> (r: i128)
    requires
        0 <= side <= 0x1_0000_0000,
        0 <= by <= 0x1_0000_0000,
        0 < over,
    ensures
        r == side * by / over as int,
        0 <= r <= 0x1_0000_0000_0000_0000,
{
    proof {
        assert(0 <= side * by <= 0x1_0000_0000_0000_0000) by (nonlinear_arith)
            requires
                0 <= side <= 0x1_0000_0000,
                0 <= by <= 0x1_0000_0000,
        ;
        assert(0 <= (side * by) / (over as int) <= side * by) by (nonlinear_arith)
            requires
                0 <= side * by,
                0 < over,
        ;
    }
    ((side * by) as u128 / over as u128) as i128
}

/// New bounds when dragging `handle` of `orig` to `pos`.
/// `lock_aspect` keeps the original aspect ratio (corner handles only).
pub fn resize_rect(orig: PdfRect, handle: Handle, pos: PdfPoint, lock_aspect: bool) -> (r: PdfRect)
    ensures
        r == resized(orig, handle, pos, lock_aspect),
{
    let mut min: PdfPoint = orig.min;
    let mut max: PdfPoint = orig.max;
    if handle.moves_left() {
        min.x = pos.x;
    }
    if handle.moves_right() {
        max.x = pos.x;
    }
    if handle.moves_bottom() {
        min.y = pos.y;
    }
    if handle.moves_top() {
        max.y = pos.y;
    }
    let corner: bool = matches!(handle, Handle::Nw | Handle::Ne | Handle::Se | Handle::Sw);
    if lock_aspect && corner && orig.width() > 0 && orig.height() > 0 {
        let ow: i128 = orig.width() as i128;
        let oh: i128 = orig.height() as i128;
        let dx: i128 = max.x as i128 - min.x as i128;
        let dy: i128 = max.y as i128 - min.y as i128;
        let w: i128 = if dx < 0 { -dx } else { dx };
        let h: i128 = if dy < 0 { -dy } else { dy };
        proof {
            assert(0 <= w * oh <= 0x1_0000_0000_0000_0000) by (nonlinear_arith)
                requires
                    0 <= w <= 0x1_0000_0000,
                    0 <= oh <= 0x1_0000_0000,
            ;
            assert(0 <= h * ow <= 0x1_0000_0000_0000_0000) by (nonlinear_arith)
                requires
                    0 <= h <= 0x1_0000_0000,
                    0 <= ow <= 0x1_0000_0000,
            ;
        }
        if w * oh >= h * ow {
            let new_h: i128 = scaled(w, oh, ow);
            if handle.moves_top() {
                max.y = saturate(min.y as i128 + new_h);
            } else {
                min.y = saturate(max.y as i128 - new_h);
            }
        } else {
            let new_w: i128 = scaled(h, ow, oh);
            if handle.moves_left() {
                min.x = saturate(max.x as i128 - new_w);
            } else {
                max.x = saturate(min.x as i128 + new_w);
            }
        }
    }
    PdfRect::from_points(min, max)
}

/// A side that the handle does not move stays where it was, proportions aside.
pub proof fn law_resize_keeps_the_far_side(orig: PdfRect, handle: Handle, pos: PdfPoint)
    requires
        orig.min.x <= orig.max.x,
        orig.min.y <= orig.max.y,
    ensures
        ({
            let r = resized(orig, handle, pos, false);
            &&& !handle.on_left() && !handle.on_right() ==> r.min.x == orig.min.x && r.max.x
                == orig.max.x
            &&& !handle.on_top() && !handle.on_bottom() ==> r.min.y == orig.min.y && r.max.y
                == orig.max.y
            &&& handle.on_left() ==> (r.min.x == orig.max.x || r.max.x == orig.max.x)
            &&& handle.on_right() ==> (r.min.x == orig.min.x || r.max.x == orig.min.x)
            &&& handle.on_top() ==> (r.min.y == orig.min.y || r.max.y == orig.min.y)
            &&& handle.on_bottom() ==> (r.min.y == orig.max.y || r.max.y == orig.max.y)
        }),
{
}

} // verus!
