//! What each gesture comes to, in terms of where the pointer went down, where
//! it went and where it was let go.

use vstd::prelude::*;

use crate::doc::annotation::{ann_bounded, AnnV, KindV};
use crate::doc::geometry::{abs, greater, spanning, PdfPoint, PdfRect};
use crate::doc::laws::{law_edits_touch_one_annotation, law_every_other_box_counts};
use crate::doc::store::{bounds_but, lookup, stored};
use crate::state::DocV;
use crate::tools::constrain::{half_root, is_half_root, on_compass, on_square, sign};
use crate::tools::drag::{aligned, cornered, dragged, drawn_on, drift, ended, ids_of};
use crate::tools::pen::{bounding, highest, lowest};
use crate::tools::release::{
    placement_finished, released, repeats, without_repeats, STROKE_TOLERANCE,
};
use crate::tools::select::{resized, Handle};
use crate::tools::snap::{
    guides_of, law_a_guide_is_a_line, law_snap_within_tolerance, law_snaps_sideways_to_others,
    law_snaps_up_and_down_to_others, shift_of, Guide, SnapFeatures,
};
use crate::tools::{ActiveTool, PointerInfo, StateV};

verus! {

// ---------------------------------------------------------------------------
// Constrained drags
// ---------------------------------------------------------------------------

proof fn lemma_half_root_from(m: int, r: int)
    requires
        0 <= m,
        m % 2 == 0,
        0 <= r,
        r == 0 || (2 * r - 1) * (2 * r - 1) < m,
    ensures
        exists|s: int| is_half_root(m, s),
    decreases m + 1 - r,
{
    let q = (2 * r + 1) * (2 * r + 1);
    if m < q {
        assert(is_half_root(m, r));
    } else {
        assert(q == 4 * (r * r + r) + 1) by (nonlinear_arith)
            requires
                q == (2 * r + 1) * (2 * r + 1),
        ;
        assert(q % 2 == 1);
        assert(q > r) by (nonlinear_arith)
            requires
                q == (2 * r + 1) * (2 * r + 1),
                r >= 0,
        ;
        assert((2 * (r + 1) - 1) * (2 * (r + 1) - 1) == q) by (nonlinear_arith)
            requires
                q == (2 * r + 1) * (2 * r + 1),
        ;
        lemma_half_root_from(m, r + 1);
    }
}

proof fn lemma_half_root(m: int)
    requires
        0 <= m,
        m % 2 == 0,
    ensures
        is_half_root(m, half_root(m)),
{
    lemma_half_root_from(m, 0);
}

/// Whether `n` is a length to the nearest whole number, given its square.
pub open spec fn is_length(n: int, square: int) -> bool {
    0 <= n && 4 * square < (2 * n + 1) * (2 * n + 1) && (n == 0 || (2 * n - 1) * (2 * n - 1) < 4
        * square)
}

/// A constrained line is as long as the drag was, to the thousandth, and goes
/// the way the drag went: straight across or up it runs the whole length, and
/// at 45 degrees its two sides make it up.
pub proof fn law_a_constrained_line_is_as_long(start: PdfPoint, pos: PdfPoint)
    requires
        -0x1000_0000 <= start.x <= 0x1000_0000,
        -0x1000_0000 <= start.y <= 0x1000_0000,
        -0x1000_0000 <= pos.x <= 0x1000_0000,
        -0x1000_0000 <= pos.y <= 0x1000_0000,
    ensures
        ({
            let (dx, dy) = (pos.x - start.x, pos.y - start.y);
            let r = on_compass(start, pos);
            let (rx, ry) = (r.x - start.x, r.y - start.y);
            &&& dx > 0 ==> rx >= 0
            &&& dx < 0 ==> rx <= 0
            &&& dy > 0 ==> ry >= 0
            &&& dy < 0 ==> ry <= 0
            &&& ry == 0 && rx != 0 ==> is_length(abs(rx), dx * dx + dy * dy)
            &&& rx == 0 && ry != 0 ==> is_length(abs(ry), dx * dx + dy * dy)
            &&& rx != 0 && ry != 0 ==> abs(rx) == abs(ry) && 2 * (dx * dx + dy * dy) < (2 * abs(rx)
                + 1) * (2 * abs(rx) + 1) && (2 * abs(rx) - 1) * (2 * abs(rx) - 1) < 2 * (dx * dx
                + dy * dy)
            &&& rx == 0 && ry == 0 ==> dx == 0 && dy == 0
        }),
{
    let (dx, dy) = (pos.x - start.x, pos.y - start.y);
    let (a, b) = (abs(dx), abs(dy));
    let len2 = dx * dx + dy * dy;
    assert(0 <= dx * dx <= 0x400_0000_0000_0000) by (nonlinear_arith)
        requires
            -0x2000_0000 <= dx <= 0x2000_0000,
    ;
    assert(0 <= dy * dy <= 0x400_0000_0000_0000) by (nonlinear_arith)
        requires
            -0x2000_0000 <= dy <= 0x2000_0000,
    ;
    lemma_half_root(4 * len2);
    lemma_half_root(2 * len2);
    let (n, c) = (half_root(4 * len2), half_root(2 * len2));
    lemma_root_bound(4 * len2, n);
    lemma_root_bound(2 * len2, c);
    assert(sign(dx) * n == n || sign(dx) * n == -n) by (nonlinear_arith)
        requires
            sign(dx) == 1 || sign(dx) == -1,
    ;
    assert(dx < 0 ==> sign(dx) * n == -n && sign(dx) * c == -c) by (nonlinear_arith)
        requires
            dx < 0 ==> sign(dx) == -1,
    ;
    assert(dx >= 0 ==> sign(dx) * n == n && sign(dx) * c == c) by (nonlinear_arith)
        requires
            dx >= 0 ==> sign(dx) == 1,
    ;
    assert(dy < 0 ==> sign(dy) * n == -n && sign(dy) * c == -c) by (nonlinear_arith)
        requires
            dy < 0 ==> sign(dy) == -1,
    ;
    assert(dy >= 0 ==> sign(dy) * n == n && sign(dy) * c == c) by (nonlinear_arith)
        requires
            dy >= 0 ==> sign(dy) == 1,
    ;
    if len2 > 0 {
        assert(n > 0) by {
            if n == 0 {
                assert((2 * n + 1) * (2 * n + 1) == 1) by (nonlinear_arith)
                    requires
                        n == 0,
                ;
            }
        }
        assert(c > 0) by {
            if c == 0 {
                assert((2 * c + 1) * (2 * c + 1) == 1) by (nonlinear_arith)
                    requires
                        c == 0,
                ;
            }
        }
    } else {
        assert(dx == 0 && dy == 0) by (nonlinear_arith)
            requires
                dx * dx + dy * dy == 0,
        ;
        assert(n == 0) by {
            if n > 0 {
                assert((2 * n - 1) * (2 * n - 1) >= 0) by (nonlinear_arith);
            }
        }
    }
}

proof fn lemma_root_bound(m: int, r: int)
    requires
        is_half_root(m, r),
        0 <= m <= 0x2000_0000_0000_0000,
    ensures
        0 <= r <= 0x4000_0000,
{
    if r > 0x4000_0000 {
        assert((2 * r - 1) * (2 * r - 1) > 0x2000_0000_0000_0000) by (nonlinear_arith)
            requires
                r > 0x4000_0000,
        ;
    }
}

/// A constrained shape is as large as the longer side of the drag, and on the
/// side the drag went to.
pub proof fn law_a_constrained_shape_is_as_large(start: PdfPoint, pos: PdfPoint)
    requires
        -0x1000_0000 <= start.x <= 0x1000_0000,
        -0x1000_0000 <= start.y <= 0x1000_0000,
        -0x1000_0000 <= pos.x <= 0x1000_0000,
        -0x1000_0000 <= pos.y <= 0x1000_0000,
    ensures
        ({
            let (dx, dy) = (pos.x - start.x, pos.y - start.y);
            let r = on_square(start, pos);
            let side = if abs(dx) >= abs(dy) {
                abs(dx)
            } else {
                abs(dy)
            };
            &&& r.x - start.x == if dx < 0 {
                -side
            } else {
                side
            }
            &&& r.y - start.y == if dy < 0 {
                -side
            } else {
                side
            }
        }),
{
    let (dx, dy) = (pos.x - start.x, pos.y - start.y);
    let side = greater(abs(dx), abs(dy));
    assert(dx < 0 ==> side * sign(dx) == -side) by (nonlinear_arith)
        requires
            dx < 0 ==> sign(dx) == -1,
    ;
    assert(dx >= 0 ==> side * sign(dx) == side) by (nonlinear_arith)
        requires
            dx >= 0 ==> sign(dx) == 1,
    ;
    assert(dy < 0 ==> side * sign(dy) == -side) by (nonlinear_arith)
        requires
            dy < 0 ==> sign(dy) == -1,
    ;
    assert(dy >= 0 ==> side * sign(dy) == side) by (nonlinear_arith)
        requires
            dy >= 0 ==> sign(dy) == 1,
    ;
}

// ---------------------------------------------------------------------------
// Dragging and resizing
// ---------------------------------------------------------------------------

/// With snapping off, what is dragged goes exactly as far as the pointer did;
/// with it on, no further from there than the tolerance.
pub proof fn law_a_drag_follows_the_pointer(
    d: DocV,
    p: PointerInfo,
    origs: Seq<AnnV>,
    press: PdfPoint,
)
    requires
        origs.len() > 0,
        0 <= p.tol <= 0x100_0000,
        -0x1000_0000 <= origs[0].rect.min.x <= origs[0].rect.max.x <= 0x1000_0000,
        -0x1000_0000 <= origs[0].rect.min.y <= origs[0].rect.max.y <= 0x1000_0000,
        -0x1000_0000 <= p.pos.x <= 0x1000_0000,
        -0x1000_0000 <= p.pos.y <= 0x1000_0000,
        -0x1000_0000 <= press.x <= 0x1000_0000,
        -0x1000_0000 <= press.y <= 0x1000_0000,
    ensures
        ({
            let by = drift(d, p, origs, press);
            let (dx, dy) = (p.pos.x - press.x, p.pos.y - press.y);
            &&& p.modifiers.command || p.modifiers.mac_cmd ==> by == (dx, dy)
            &&& -p.tol <= by.0 - dx <= p.tol
            &&& -p.tol <= by.1 - dy <= p.tol
        }),
{
    let lead = origs[0];
    let rect = lead.rect.plus(p.pos.x - press.x, p.pos.y - press.y);
    let others = bounds_but(d.store.items, lead.page, ids_of(origs));
    law_snap_within_tolerance(
        rect,
        SnapFeatures::every(),
        p.page_w,
        p.page_h,
        others,
        p.tol as int,
    );
}

proof fn lemma_box_counts(s: Seq<AnnV>, page: usize, but: Set<u64>, b: AnnV) -> (i: int)
    requires
        s.contains(b),
        b.page == page,
        !but.contains(b.id),
    ensures
        0 <= i < bounds_but(s, page, but).len(),
        bounds_but(s, page, but)[i] == b.rect,
{
    law_every_other_box_counts(s, page, but);
    let keep = |a: AnnV| a.page == page && !but.contains(a.id);
    let k = s.index_of(b);
    s.lemma_filter_contains(keep, k);
    let i = s.filter(keep).index_of(b);
    assert(s.filter(keep)[i] == b);
    i
}

/// Dragged with snapping on to within the tolerance of another annotation of
/// the page, what is in the lead lines up, and no further from where the
/// pointer took it than to there. What is itself being dragged does not count.
pub proof fn law_a_drag_lines_up_with_others(
    d: DocV,
    p: PointerInfo,
    origs: Seq<AnnV>,
    press: PdfPoint,
    b: AnnV,
    line: int,
)
    requires
        origs.len() > 0,
        !p.modifiers.command && !p.modifiers.mac_cmd,
        d.store.items.contains(b),
        b.page == origs[0].page,
        !ids_of(origs).contains(b.id),
    ensures
        ({
            let rect = origs[0].rect.plus(p.pos.x - press.x, p.pos.y - press.y);
            let best = aligned(
                d,
                p,
                origs[0].page,
                ids_of(origs),
                rect,
                SnapFeatures::every(),
            );
            let (dx, dy) = (shift_of(best.0), shift_of(best.1));
            &&& (line == b.rect.min.x || line == b.rect.max.x || line == (b.rect.min.x
                + b.rect.max.x) / 2) ==> {
                &&& -p.tol <= line - rect.min.x <= p.tol ==> best.0 is Some && dx * dx <= (line
                    - rect.min.x) * (line - rect.min.x)
                &&& -p.tol <= line - rect.max.x <= p.tol ==> best.0 is Some && dx * dx <= (line
                    - rect.max.x) * (line - rect.max.x)
            }
            &&& (line == b.rect.min.y || line == b.rect.max.y || line == (b.rect.min.y
                + b.rect.max.y) / 2) ==> {
                &&& -p.tol <= line - rect.min.y <= p.tol ==> best.1 is Some && dy * dy <= (line
                    - rect.min.y) * (line - rect.min.y)
                &&& -p.tol <= line - rect.max.y <= p.tol ==> best.1 is Some && dy * dy <= (line
                    - rect.max.y) * (line - rect.max.y)
            }
        }),
{
    let rect = origs[0].rect.plus(p.pos.x - press.x, p.pos.y - press.y);
    let but = ids_of(origs);
    let others = bounds_but(d.store.items, origs[0].page, but);
    let i = lemma_box_counts(d.store.items, origs[0].page, but, b);
    let f = SnapFeatures::every();
    let tol = p.tol as int;
    if line == b.rect.min.x || line == b.rect.max.x || line == (b.rect.min.x + b.rect.max.x) / 2 {
        if -tol <= line - rect.min.x <= tol {
            law_snaps_sideways_to_others(
                rect,
                f,
                p.page_w,
                others,
                tol,
                i,
                rect.min.x as int,
                line,
            );
        }
        if -tol <= line - rect.max.x <= tol {
            law_snaps_sideways_to_others(
                rect,
                f,
                p.page_w,
                others,
                tol,
                i,
                rect.max.x as int,
                line,
            );
        }
    }
    if line == b.rect.min.y || line == b.rect.max.y || line == (b.rect.min.y + b.rect.max.y) / 2 {
        if -tol <= line - rect.min.y <= tol {
            law_snaps_up_and_down_to_others(
                rect,
                f,
                p.page_h,
                others,
                tol,
                i,
                rect.min.y as int,
                line,
            );
        }
        if -tol <= line - rect.max.y <= tol {
            law_snaps_up_and_down_to_others(
                rect,
                f,
                p.page_h,
                others,
                tol,
                i,
                rect.max.y as int,
                line,
            );
        }
    }
}

/// A handle takes its sides to the pointer and leaves the others where they
/// are, whichever way it is pulled.
pub proof fn law_a_handle_follows_the_pointer(orig: PdfRect, handle: Handle, pos: PdfPoint)
    requires
        orig.min.x <= orig.max.x,
        orig.min.y <= orig.max.y,
    ensures
        ({
            let r = resized(orig, handle, pos, false);
            let (right, left) = (
                handle is Ne || handle is E || handle is Se,
                handle is Nw || handle is W || handle is Sw,
            );
            let (top, bottom) = (
                handle is Nw || handle is N || handle is Ne,
                handle is Sw || handle is S || handle is Se,
            );
            &&& right ==> r == spanning(
                PdfPoint { x: orig.min.x, y: r.min.y },
                PdfPoint { x: pos.x, y: r.max.y },
            )
            &&& left ==> r == spanning(
                PdfPoint { x: orig.max.x, y: r.min.y },
                PdfPoint { x: pos.x, y: r.max.y },
            )
            &&& top ==> r == spanning(
                PdfPoint { x: r.min.x, y: orig.min.y },
                PdfPoint { x: r.max.x, y: pos.y },
            )
            &&& bottom ==> r == spanning(
                PdfPoint { x: r.min.x, y: orig.max.y },
                PdfPoint { x: r.max.x, y: pos.y },
            )
            &&& !right && !left ==> r.min.x == orig.min.x && r.max.x == orig.max.x
            &&& !top && !bottom ==> r.min.y == orig.min.y && r.max.y == orig.max.y
        }),
{
}

/// A corner that keeps proportions keeps them, to the thousandth, and reaches
/// the pointer along the side that was pulled further for them.
pub proof fn law_a_locked_corner_keeps_proportions(orig: PdfRect, handle: Handle, pos: PdfPoint)
    requires
        0 <= orig.min.x < orig.max.x <= 0x10_0000,
        0 <= orig.min.y < orig.max.y <= 0x10_0000,
        0 <= pos.x <= 0x10_0000,
        0 <= pos.y <= 0x10_0000,
        handle is Nw || handle is Ne || handle is Sw || handle is Se,
        // The box has not been pulled so thin that one side leaves the range.
        ({
            let free = resized(orig, handle, pos, false);
            (free.max.x - free.min.x) * (orig.max.y - orig.min.y) <= 0x1000_0000 * (orig.max.x
                - orig.min.x) && (free.max.y - free.min.y) * (orig.max.x - orig.min.x)
                <= 0x1000_0000 * (orig.max.y - orig.min.y)
        }),
    ensures
        ({
            let r = resized(orig, handle, pos, true);
            let (w, h) = (r.max.x - r.min.x, r.max.y - r.min.y);
            let (ow, oh) = (orig.max.x - orig.min.x, orig.max.y - orig.min.y);
            let free = resized(orig, handle, pos, false);
            let (fw, fh) = (free.max.x - free.min.x, free.max.y - free.min.y);
            &&& w == fw || h == fh
            &&& w >= fw && h >= fh
            &&& w * oh - h * ow < ow + oh && h * ow - w * oh < ow + oh
        }),
{
    let (ow, oh) = (orig.max.x - orig.min.x, orig.max.y - orig.min.y);
    let free = resized(orig, handle, pos, false);
    let (w, h) = (free.max.x - free.min.x, free.max.y - free.min.y);
    let (a, b) = (w * oh, h * ow);
    if a >= b {
        let n = a / ow;
        assert(h <= n <= 0x1000_0000 && n * ow <= a < n * ow + ow) by (nonlinear_arith)
            requires
                n == a / ow,
                ow > 0,
                a >= b,
                b == h * ow,
                a <= 0x1000_0000 * ow,
        ;
    } else {
        let n = b / oh;
        assert(w <= n <= 0x1000_0000 && n * oh <= b < n * oh + oh) by (nonlinear_arith)
            requires
                n == b / oh,
                oh > 0,
                b > a,
                a == w * oh,
                b <= 0x1000_0000 * oh,
        ;
    }
}

/// With snapping off, the handle of a box takes the annotation to the bounds
/// that handle gives it, and touches no other annotation.
pub proof fn law_resizing_reshapes_one_annotation(
    d: DocV,
    p: PointerInfo,
    orig: AnnV,
    handle: Handle,
    other: u64,
)
    requires
        d.store.ok(),
        d.ctl.state == (StateV::Resizing { orig, handle }),
        stored(d.store.items, orig.id),
        p.modifiers.command || p.modifiers.mac_cmd,
        other != orig.id,
    ensures
        !(handle is Vertex) && !(handle is LineStart) && !(handle is LineEnd) ==> lookup(
            dragged(d, p).store.items,
            orig.id,
        ) == Some(
            ann_bounded(
                orig,
                resized(
                    orig.rect,
                    handle,
                    p.pos,
                    p.modifiers.shift != (orig.kind is ImageStamp),
                ),
            ),
        ),
        lookup(dragged(d, p).store.items, other) == lookup(d.store.items, other),
        dragged(d, p).history == d.history,
{
    let s = dragged(d, p).store.items;
    let a = choose|a: AnnV| a.id == orig.id && s == d.store.replaced(a).items;
    lemma_resized_store(d, p, orig, handle);
    law_edits_touch_one_annotation(d.store, a, other);
}

proof fn lemma_resized_store(d: DocV, p: PointerInfo, orig: AnnV, handle: Handle)
    requires
        d.ctl.state == (StateV::Resizing { orig, handle }),
        p.modifiers.command || p.modifiers.mac_cmd,
    ensures
        exists|a: AnnV|
            a.id == orig.id && dragged(d, p).store.items == d.store.replaced(a).items,
        !(handle is Vertex) && !(handle is LineStart) && !(handle is LineEnd) ==> dragged(
            d,
            p,
        ).store == d.store.replaced(
            ann_bounded(
                orig,
                resized(
                    orig.rect,
                    handle,
                    p.pos,
                    p.modifiers.shift != (orig.kind is ImageStamp),
                ),
            ),
        ),
{
    let to = p.pos.plus(0, 0);
    assert(to == p.pos);
    let a = match handle {
        Handle::Vertex(index) => cornered(orig, index, to),
        Handle::LineStart => ended(orig, true, to, p.modifiers.shift),
        Handle::LineEnd => ended(orig, false, to, p.modifiers.shift),
        _ => ann_bounded(
            orig,
            resized(
                orig.rect,
                handle,
                p.pos,
                p.modifiers.shift != (orig.kind is ImageStamp),
            ),
        ),
    };
    assert(a.id == orig.id);
    assert(dragged(d, p).store == d.store.replaced(a));
}

/// One end of a line goes to the pointer and the other stays; the box follows.
pub proof fn law_one_end_of_a_line_moves(a: AnnV, at_start: bool, pos: PdfPoint)
    requires
        a.kind is Line,
    ensures
        ({
            let b = ended(a, at_start, pos, false);
            &&& b.id == a.id && b.page == a.page && b.style == a.style && b.group == a.group
            &&& b.kind matches KindV::Line { p1, p2, arrow_end } && p1 == (if at_start {
                pos
            } else {
                a.kind->Line_p1
            }) && p2 == (if at_start {
                a.kind->p2
            } else {
                pos
            }) && arrow_end == a.kind->Line_arrow_end && b.rect == spanning(p1, p2)
        }),
{
}

/// One corner of an outline goes to the pointer and every other stays.
pub proof fn law_one_corner_moves(a: AnnV, index: usize, pos: PdfPoint)
    ensures
        ({
            let b = cornered(a, index, pos);
            let (p, q) = (
                crate::doc::laws::points_of(a.kind),
                crate::doc::laws::points_of(b.kind),
            );
            &&& b.id == a.id && b.page == a.page && b.style == a.style && b.group == a.group
            &&& crate::doc::laws::alike_but_for_points(a.kind, b.kind)
            &&& q.len() == p.len()
            &&& a.kind is Polygon || a.kind is PolyLine || a.kind is Freehand ==> forall|i: int|
                0 <= i < p.len() ==> #[trigger] q[i] == (if i == index {
                    pos
                } else {
                    p[i]
                })
        }),
{
}

/// A stroke gets every point that is more than a fifth of a point from the one
/// before it, and keeps those it has.
pub proof fn law_a_stroke_grows(points: Seq<PdfPoint>, pos: PdfPoint)
    requires
        points.len() > 0,
    ensures
        ({
            let (dx, dy) = (abs(points.last().x - pos.x), abs(points.last().y - pos.y));
            drawn_on(points, pos) == if dx + dy > 200 {
                points.push(pos)
            } else {
                points
            }
        }),
{
}

// ---------------------------------------------------------------------------
// Drawing
// ---------------------------------------------------------------------------

/// Whether `a` is the new annotation of `e`, which is otherwise `d`: it is
/// stored under a number of its own, selected by itself, and one step to undo.
pub open spec fn gained(d: DocV, e: DocV, a: AnnV) -> bool {
    &&& lookup(e.store.items, d.store.next) == Some(a)
    &&& a.id == d.store.next
    &&& e.store.next > a.id
    &&& forall|other: u64|
        other != a.id ==> #[trigger] lookup(e.store.items, other) == lookup(d.store.items, other)
    &&& forall|id: u64| #[trigger] e.selection.ids.contains(id) <==> id == a.id
    &&& e.selection.primary == Some(a.id)
    &&& e.history.undo.len() == d.history.undo.len() + 1
    &&& e.history.redo.len() == 0
}

pub proof fn lemma_gained(d: DocV, a: AnnV)
    requires
        d.store.ok(),
        d.store.next < u64::MAX,
        a.id == d.store.next,
    ensures
        gained(d, crate::tools::added(d, a), a),
{
    let e = crate::tools::added(d, a);
    assert forall|other: u64| other != a.id implies #[trigger] lookup(e.store.items, other)
        == lookup(d.store.items, other) by {
        law_edits_touch_one_annotation(d.store, a, other);
    }
    let other: u64 = if a.id == 0 {
        1
    } else {
        0
    };
    law_edits_touch_one_annotation(d.store, a, other);
}

/// Whether two documents have the same markup, and the same to undo.
pub open spec fn unmarked(d: DocV, e: DocV) -> bool {
    e.store.items == d.store.items && e.history == d.history && e.selection == d.selection
}

/// A shape dragged out is drawn between where the drag began and where it
/// ended, on its page, as the tool says; a drag too short for a shape draws
/// nothing.
pub proof fn law_a_drag_draws_its_shape(
    d: DocV,
    p: PointerInfo,
    page: usize,
    start: PdfPoint,
    current: PdfPoint,
)
    requires
        d.store.ok(),
        d.store.next < u64::MAX,
        d.ctl.state == (StateV::Creating { page, start, current }),
        d.tool is Highlight || d.tool is Rect || d.tool is Ellipse || d.tool is Line
            || d.tool is Arrow || d.tool is Cloud,
    ensures
        ({
            let e = released(d, p);
            let (dx, dy) = (current.x - start.x, current.y - start.y);
            let meant = if d.tool is Line || d.tool is Arrow {
                dx * dx + dy * dy > 3000 * 3000
            } else {
                (dx > 3000 || dx < -3000) && (dy > 3000 || dy < -3000)
            };
            &&& e.ctl.state is Idle
            &&& !meant ==> unmarked(d, e)
            &&& meant ==> exists|a: AnnV| #[trigger]
                gained(d, e, a) && a.page == page && a.group is None && a.rect == spanning(
                    start,
                    current,
                ) && (!(d.tool is Highlight) ==> a.style == d.style) && match d.tool {
                    ActiveTool::Highlight => a.kind is Highlight && a.style.opacity < 1000,
                    ActiveTool::Rect => a.kind is Rect,
                    ActiveTool::Ellipse => a.kind is Ellipse,
                    ActiveTool::Line => a.kind == (KindV::Line {
                        p1: start,
                        p2: current,
                        arrow_end: false,
                    }),
                    ActiveTool::Arrow => a.kind == (KindV::Line {
                        p1: start,
                        p2: current,
                        arrow_end: true,
                    }),
                    _ => a.kind matches KindV::Polygon { points, cloudy } && cloudy is Some
                        && points.len() == 4 && points[0] == a.rect.min && points[2] == a.rect.max,
                }
        }),
{
    let e = crate::tools::release::settled(d);
    if crate::tools::release::long_enough(d.tool, start, current) {
        if let Some(kind) = crate::tools::release::drawn(d.tool, start, current) {
            let a = AnnV {
                id: d.store.next,
                page,
                kind,
                rect: spanning(start, current),
                style: crate::tools::release::drawn_style(d.tool, d.style),
                group: None,
            };
            lemma_gained(e, a);
            assert(released(d, p) == crate::tools::added(e, a));
            assert(gained(d, released(d, p), a));
        }
    }
}

/// A stroke is drawn from where the pen went down to where it was lifted,
/// through points it went through, and its box is around them.
pub proof fn law_a_stroke_is_drawn(d: DocV, p: PointerInfo, page: usize, points: Seq<PdfPoint>)
    requires
        d.store.ok(),
        d.store.next < u64::MAX,
        d.ctl.state == (StateV::Drawing { page, points }),
    ensures
        ({
            let e = released(d, p);
            &&& e.ctl.state is Idle
            &&& points.len() < 2 ==> unmarked(d, e)
            &&& points.len() >= 2 ==> exists|a: AnnV| #[trigger]
                gained(d, e, a) && a.page == page && a.style == d.style && (a.kind
                    matches KindV::Freehand { points: kept } && kept.len() >= 2 && kept[0]
                    == points[0] && kept.last() == points.last() && forall|i: int|
                    0 <= i < kept.len() ==> points.contains(#[trigger] kept[i]) && a.rect.near(
                        kept[i],
                        0,
                    ))
        }),
{
    let eps = STROKE_TOLERANCE as int;
    let kept = crate::tools::pen::simplified(points, eps);
    if points.len() > 0 {
        crate::tools::pen::law_simplified_is_a_part(points, eps);
        crate::tools::pen::lemma_ends_kept(points, eps);
    }
    if points.len() >= 2 {
        let e = crate::tools::release::settled(d);
        let a = AnnV {
            id: d.store.next,
            page,
            kind: KindV::Freehand { points: kept },
            rect: bounding(kept),
            style: d.style,
            group: None,
        };
        lemma_gained(e, a);
        assert(gained(d, released(d, p), a));
        assert forall|i: int| 0 <= i < kept.len() implies points.contains(#[trigger] kept[i])
            && a.rect.near(kept[i], 0) by {
            crate::tools::pen::law_bounding_holds_all(kept, i);
        }
    }
}

/// The box around some points is no larger than it has to be: each of its sides
/// goes through one of them.
pub proof fn law_a_box_is_no_larger_than_its_points(s: Seq<PdfPoint>)
    requires
        s.len() > 0,
    ensures
        exists|i: int| 0 <= i < s.len() && (#[trigger] s[i]).x == bounding(s).min.x,
        exists|i: int| 0 <= i < s.len() && (#[trigger] s[i]).x == bounding(s).max.x,
        exists|i: int| 0 <= i < s.len() && (#[trigger] s[i]).y == bounding(s).min.y,
        exists|i: int| 0 <= i < s.len() && (#[trigger] s[i]).y == bounding(s).max.y,
{
    lemma_extremes_held(s);
    crate::tools::pen::law_bounding_holds_all(s, 0);
    let i = choose|i: int| 0 <= i < s.len() && (#[trigger] s[i]).x == lowest(s).x;
    crate::tools::pen::law_bounding_holds_all(s, i);
    let j = choose|j: int| 0 <= j < s.len() && (#[trigger] s[j]).x == highest(s).x;
    crate::tools::pen::law_bounding_holds_all(s, j);
    let k = choose|k: int| 0 <= k < s.len() && (#[trigger] s[k]).y == lowest(s).y;
    crate::tools::pen::law_bounding_holds_all(s, k);
    let l = choose|l: int| 0 <= l < s.len() && (#[trigger] s[l]).y == highest(s).y;
    crate::tools::pen::law_bounding_holds_all(s, l);
    assert(lowest(s).x <= highest(s).x || s[i].x == bounding(s).max.x);
}

proof fn lemma_extremes_held(s: Seq<PdfPoint>)
    requires
        s.len() > 0,
    ensures
        exists|i: int| 0 <= i < s.len() && (#[trigger] s[i]).x == lowest(s).x,
        exists|i: int| 0 <= i < s.len() && (#[trigger] s[i]).x == highest(s).x,
        exists|i: int| 0 <= i < s.len() && (#[trigger] s[i]).y == lowest(s).y,
        exists|i: int| 0 <= i < s.len() && (#[trigger] s[i]).y == highest(s).y,
    decreases s.len(),
{
    let t = s.drop_last();
    let n = s.len() - 1;
    let last = s[n];
    if t.len() == 0 {
        assert(lowest(t) == (PdfPoint { x: i32::MAX, y: i32::MAX }));
        assert(highest(t) == (PdfPoint { x: i32::MIN, y: i32::MIN }));
        assert(s[0] == last);
    } else {
        lemma_extremes_held(t);
        let i = choose|i: int| 0 <= i < t.len() && (#[trigger] t[i]).x == lowest(t).x;
        let j = choose|j: int| 0 <= j < t.len() && (#[trigger] t[j]).x == highest(t).x;
        let k = choose|k: int| 0 <= k < t.len() && (#[trigger] t[k]).y == lowest(t).y;
        let l = choose|l: int| 0 <= l < t.len() && (#[trigger] t[l]).y == highest(t).y;
        assert(s[i] == t[i] && s[j] == t[j] && s[k] == t[k] && s[l] == t[l]);
    }
}

/// A shape of vertices is drawn through all of them, in the order they were
/// placed, but for the repeats that end it; with too few there is none.
pub proof fn law_vertices_make_their_shape(d: DocV, page: usize, points: Seq<PdfPoint>, hover: PdfPoint)
    requires
        d.store.ok(),
        d.store.next < u64::MAX,
        d.ctl.state == (StateV::Placing { page, points, hover }),
        d.tool is Polygon || d.tool is PolyLine,
    ensures
        ({
            let (e, made) = placement_finished(d);
            let kept = without_repeats(points);
            &&& made <==> kept.len() >= (if d.tool is Polygon {
                3int
            } else {
                2
            })
            &&& e.ctl.state is Idle
            &&& !made ==> unmarked(d, e)
            &&& made ==> exists|a: AnnV| #[trigger]
                gained(d, e, a) && a.page == page && a.style == d.style && crate::doc::laws::points_of(
                    a.kind,
                ) == kept && (d.tool is Polygon <==> a.kind is Polygon) && (d.tool is PolyLine
                    <==> a.kind is PolyLine)
        }),
{
    let (e, made) = placement_finished(d);
    let kept = without_repeats(points);
    if made {
        let kind = if d.tool is Polygon {
            KindV::Polygon { points: kept, cloudy: None }
        } else {
            KindV::PolyLine { points: kept, arrow_end: false }
        };
        let a = AnnV {
            id: d.store.next,
            page,
            kind,
            rect: bounding(kept),
            style: d.style,
            group: None,
        };
        lemma_gained(crate::tools::release::settled(d), a);
        assert(gained(d, e, a));
    }
}

/// Only repeats at the end are left out: what is kept begins the points, does
/// not end in a repeat, and everything left out is half a point or less from
/// the one before it.
pub proof fn law_only_repeats_are_left_out(points: Seq<PdfPoint>)
    ensures
        ({
            let kept = without_repeats(points);
            &&& kept.len() <= points.len()
            &&& kept == points.take(kept.len() as int)
            &&& points.len() > 0 ==> kept.len() > 0
            &&& kept.len() >= 2 ==> !(abs(kept.last().x - kept[kept.len() - 2].x) < 500 && abs(
                kept.last().y - kept[kept.len() - 2].y,
            ) < 500)
            &&& forall|i: int|
                kept.len() <= i < points.len() ==> abs((#[trigger] points[i]).x - points[i - 1].x)
                    < 500 && abs(points[i].y - points[i - 1].y) < 500
        }),
    decreases points.len(),
{
    if points.len() >= 2 && repeats(points.last(), points[points.len() - 2]) {
        let t = points.drop_last();
        law_only_repeats_are_left_out(t);
        let kept = without_repeats(points);
        assert(t.take(kept.len() as int) =~= points.take(kept.len() as int));
        assert forall|i: int| kept.len() <= i < points.len() implies abs(
            (#[trigger] points[i]).x - points[i - 1].x,
        ) < 500 && abs(points[i].y - points[i - 1].y) < 500 by {
            if i < t.len() {
                assert(t[i] == points[i] && t[i - 1] == points[i - 1]);
            }
        }
    } else {
        assert(points.take(points.len() as int) =~= points);
    }
}

// ---------------------------------------------------------------------------
// Gestures under way
// ---------------------------------------------------------------------------

/// A shape being dragged out keeps the corner it began at, and the other is
/// where the pointer is, or where it is constrained to be, no further off than
/// snapping may take it; nothing else changes. With snapping off it is exactly
/// there, and no guides are shown.
pub proof fn law_a_shape_grows_with_the_pointer(
    d: DocV,
    p: PointerInfo,
    page: usize,
    start: PdfPoint,
    was: PdfPoint,
)
    requires
        d.ctl.state == (StateV::Creating { page, start, current: was }),
        0 <= p.tol <= 0x100_0000,
        ({
            let at = if !p.modifiers.shift {
                p.pos
            } else if d.tool is Line || d.tool is Arrow {
                on_compass(start, p.pos)
            } else {
                on_square(start, p.pos)
            };
            -0x1000_0000 <= at.x <= 0x1000_0000 && -0x1000_0000 <= at.y <= 0x1000_0000
        }),
    ensures
        ({
            let e = dragged(d, p);
            let at = if !p.modifiers.shift {
                p.pos
            } else if d.tool is Line || d.tool is Arrow {
                on_compass(start, p.pos)
            } else {
                on_square(start, p.pos)
            };
            &&& e.store == d.store && e.history == d.history && e.selection == d.selection
            &&& (e.ctl.state matches StateV::Creating { page: on, start: from, current } && on == page
                && from == start && -p.tol <= current.x - at.x <= p.tol && -p.tol <= current.y
                - at.y <= p.tol && (p.modifiers.command || p.modifiers.mac_cmd ==> current == at))
            &&& p.modifiers.command || p.modifiers.mac_cmd ==> e.ctl.guides.len() == 0
        }),
{
    let at = if p.modifiers.shift {
        crate::tools::drag::constrained(start, p.pos, d.tool)
    } else {
        p.pos
    };
    let f = crate::tools::drag::growing(start, at);
    let others = bounds_but(d.store.items, page, Set::empty());
    law_snap_within_tolerance(spanning(start, at), f, p.page_w, p.page_h, others, p.tol as int);
}

/// The corner of a shape that is being dragged out lines up with the other
/// annotations of the page: within the tolerance of an edge or the middle of
/// one it is drawn to a line, and no further than to that one.
pub proof fn law_a_growing_shape_lines_up_with_others(
    d: DocV,
    p: PointerInfo,
    page: usize,
    start: PdfPoint,
    b: AnnV,
    line: int,
)
    requires
        !p.modifiers.command && !p.modifiers.mac_cmd && !p.modifiers.shift,
        d.store.items.contains(b),
        b.page == page,
    ensures
        ({
            let best = aligned(
                d,
                p,
                page,
                Set::empty(),
                spanning(start, p.pos),
                crate::tools::drag::growing(start, p.pos),
            );
            let (dx, dy) = (shift_of(best.0), shift_of(best.1));
            &&& (line == b.rect.min.x || line == b.rect.max.x || line == (b.rect.min.x
                + b.rect.max.x) / 2) && -p.tol <= line - p.pos.x <= p.tol ==> best.0 is Some && dx
                * dx <= (line - p.pos.x) * (line - p.pos.x)
            &&& (line == b.rect.min.y || line == b.rect.max.y || line == (b.rect.min.y
                + b.rect.max.y) / 2) && -p.tol <= line - p.pos.y <= p.tol ==> best.1 is Some && dy
                * dy <= (line - p.pos.y) * (line - p.pos.y)
        }),
{
    let rect = spanning(start, p.pos);
    let f = crate::tools::drag::growing(start, p.pos);
    let others = bounds_but(d.store.items, page, Set::empty());
    let i = lemma_box_counts(d.store.items, page, Set::empty(), b);
    let tol = p.tol as int;
    let (x, y) = (p.pos.x as int, p.pos.y as int);
    if (line == b.rect.min.x || line == b.rect.max.x || line == (b.rect.min.x + b.rect.max.x) / 2)
        && -tol <= line - x <= tol {
        law_snaps_sideways_to_others(rect, f, p.page_w, others, tol, i, x, line);
    }
    if (line == b.rect.min.y || line == b.rect.max.y || line == (b.rect.min.y + b.rect.max.y) / 2)
        && -tol <= line - y <= tol {
        law_snaps_up_and_down_to_others(rect, f, p.page_h, others, tol, i, y, line);
    }
}

/// The side of a box that is being resized lines up likewise, against every
/// annotation of the page but the one that is being resized.
pub proof fn law_a_resized_side_lines_up_with_others(
    d: DocV,
    p: PointerInfo,
    orig: AnnV,
    handle: Handle,
    b: AnnV,
    line: int,
)
    requires
        !p.modifiers.command && !p.modifiers.mac_cmd,
        d.store.items.contains(b),
        b.page == orig.page,
        b.id != orig.id,
        !(handle is Vertex) && !(handle is LineStart) && !(handle is LineEnd),
    ensures
        ({
            let lock = p.modifiers.shift != (orig.kind is ImageStamp);
            let free = resized(orig.rect, handle, p.pos, lock);
            let best = aligned(
                d,
                p,
                orig.page,
                Set::empty().insert(orig.id),
                free,
                crate::tools::drag::sides(handle),
            );
            let (dx, dy) = (shift_of(best.0), shift_of(best.1));
            let at_x = line == b.rect.min.x || line == b.rect.max.x || line == (b.rect.min.x
                + b.rect.max.x) / 2;
            let at_y = line == b.rect.min.y || line == b.rect.max.y || line == (b.rect.min.y
                + b.rect.max.y) / 2;
            &&& at_x && (handle is E || handle is Ne || handle is Se) && -p.tol <= line - free.max.x
                <= p.tol ==> best.0 is Some && dx * dx <= (line - free.max.x) * (line - free.max.x)
            &&& at_x && (handle is W || handle is Nw || handle is Sw) && -p.tol <= line - free.min.x
                <= p.tol ==> best.0 is Some && dx * dx <= (line - free.min.x) * (line - free.min.x)
            &&& at_y && (handle is N || handle is Nw || handle is Ne) && -p.tol <= line - free.max.y
                <= p.tol ==> best.1 is Some && dy * dy <= (line - free.max.y) * (line - free.max.y)
            &&& at_y && (handle is S || handle is Sw || handle is Se) && -p.tol <= line - free.min.y
                <= p.tol ==> best.1 is Some && dy * dy <= (line - free.min.y) * (line - free.min.y)
        }),
{
    let lock = p.modifiers.shift != (orig.kind is ImageStamp);
    let free = resized(orig.rect, handle, p.pos, lock);
    let but = Set::<u64>::empty().insert(orig.id);
    let f = crate::tools::drag::sides(handle);
    let others = bounds_but(d.store.items, orig.page, but);
    let i = lemma_box_counts(d.store.items, orig.page, but, b);
    let tol = p.tol as int;
    if line == b.rect.min.x || line == b.rect.max.x || line == (b.rect.min.x + b.rect.max.x) / 2 {
        let v = if f.right {
            free.max.x as int
        } else {
            free.min.x as int
        };
        if (f.left || f.right) && -tol <= line - v <= tol {
            law_snaps_sideways_to_others(free, f, p.page_w, others, tol, i, v, line);
        }
    }
    if line == b.rect.min.y || line == b.rect.max.y || line == (b.rect.min.y + b.rect.max.y) / 2 {
        let v = if f.top {
            free.max.y as int
        } else {
            free.min.y as int
        };
        if (f.top || f.bottom) && -tol <= line - v <= tol {
            law_snaps_up_and_down_to_others(free, f, p.page_h, others, tol, i, v, line);
        }
    }
}

/// With snapping on, the handle of a box takes the annotation to the bounds
/// that the handle gives it at the pointer, or no further off than the
/// tolerance; a corner or an end goes where the pointer is, or no further off.
pub proof fn law_a_resize_follows_the_pointer(
    d: DocV,
    p: PointerInfo,
    orig: AnnV,
    handle: Handle,
)
    requires
        d.store.ok(),
        d.ctl.state == (StateV::Resizing { orig, handle }),
        stored(d.store.items, orig.id),
        0 <= p.tol <= 0x100_0000,
        -0x1000_0000 <= p.pos.x <= 0x1000_0000,
        -0x1000_0000 <= p.pos.y <= 0x1000_0000,
    ensures
        exists|to: PdfPoint|
            #![trigger within_reach(p, to)]
            within_reach(p, to) && lookup(dragged(d, p).store.items, orig.id) == Some(
                match handle {
                    Handle::Vertex(index) => cornered(orig, index, to),
                    Handle::LineStart => ended(orig, true, to, p.modifiers.shift),
                    Handle::LineEnd => ended(orig, false, to, p.modifiers.shift),
                    _ => ann_bounded(
                        orig,
                        resized(
                            orig.rect,
                            handle,
                            to,
                            p.modifiers.shift != (orig.kind is ImageStamp),
                        ),
                    ),
                },
            ),
        dragged(d, p).ctl.state == d.ctl.state,
{
    let but = Set::<u64>::empty().insert(orig.id);
    let lock = p.modifiers.shift != (orig.kind is ImageStamp);
    let free = resized(orig.rect, handle, p.pos, lock);
    let by_point = handle is Vertex || handle is LineStart || handle is LineEnd;
    let (rect, f) = if by_point {
        (spanning(p.pos, p.pos), SnapFeatures::a_point())
    } else {
        (free, crate::tools::drag::sides(handle))
    };
    let others = bounds_but(d.store.items, orig.page, but);
    law_snap_within_tolerance(rect, f, p.page_w, p.page_h, others, p.tol as int);
    let best = aligned(d, p, orig.page, but, rect, f);
    let to = p.pos.plus(shift_of(best.0), shift_of(best.1));
    assert(within_reach(p, to));
    let a = match handle {
        Handle::Vertex(index) => cornered(orig, index, to),
        Handle::LineStart => ended(orig, true, to, p.modifiers.shift),
        Handle::LineEnd => ended(orig, false, to, p.modifiers.shift),
        _ => ann_bounded(orig, resized(orig.rect, handle, to, lock)),
    };
    if shift_of(best.0) == 0 && shift_of(best.1) == 0 {
        assert(to == p.pos);
    }
    assert(a.id == orig.id);
    assert(dragged(d, p).store == d.store.replaced(a));
    let other: u64 = if a.id == 0 {
        1
    } else {
        0
    };
    law_edits_touch_one_annotation(d.store, a, other);
}

/// Whether `to` is no further from the pointer than the tolerance, across and
/// up.
pub open spec fn within_reach(p: PointerInfo, to: PdfPoint) -> bool {
    -p.tol <= to.x - p.pos.x <= p.tol && -p.tol <= to.y - p.pos.y <= p.tol
}

/// The pointer moving with any other gesture under way moves that gesture on
/// and nothing else: a pen draws on, a box reaches to the pointer, the next
/// vertex goes there.
pub proof fn law_a_gesture_follows_the_pointer(d: DocV, p: PointerInfo)
    requires
        !(d.ctl.state is Creating) && !(d.ctl.state is Dragging) && !(d.ctl.state is Resizing),
    ensures
        ({
            let e = dragged(d, p);
            &&& e.store == d.store && e.history == d.history && e.selection == d.selection
            &&& match d.ctl.state {
                StateV::Drawing { page, points } => e.ctl.state matches StateV::Drawing {
                    page: on,
                    points: now,
                } && on == page && now == drawn_on(points, p.pos),
                StateV::Marquee { page, start, .. } => e.ctl.state == (StateV::Marquee {
                    page,
                    start,
                    current: p.pos,
                }),
                StateV::Placing { page, points, .. } => e.ctl.state == (StateV::Placing {
                    page,
                    points,
                    hover: p.pos,
                }),
                _ => e == d,
            }
        }),
{
}

/// A drag that has moved says so, and a click that did not move on one of
/// several selected selects that one and what it is grouped with, unless shift
/// is held; neither a click nor a drag that is let go changes the markup.
pub proof fn law_a_click_on_a_selection_picks_one(
    d: DocV,
    p: PointerInfo,
    origs: Seq<AnnV>,
    press: PdfPoint,
    x: u64,
)
    requires
        d.ctl.state == (StateV::Dragging { origs, press, moved: false }),
        origs.len() > 0,
    ensures
        dragged(d, p).ctl.state == (StateV::Dragging { origs, press, moved: true }),
        ({
            let e = released(d, p);
            &&& e.ctl.state is Idle && e.store == d.store && e.history == d.history
            &&& p.modifiers.shift || d.selection.ids.len() <= 1 ==> e.selection == d.selection
            &&& !p.modifiers.shift && d.selection.ids.len() > 1 ==> (e.selection.ids.contains(x)
                <==> crate::tools::group_with(d.store.items, origs[0].id).contains(x))
        }),
{
    let g = crate::tools::group_with(d.store.items, origs[0].id);
    assert(g.to_set().contains(x) <==> g.contains(x));
}

/// The colours things are drawn in: a highlight is see-through yellow with no
/// outline, and a stamp a red outline of a point and a half with nothing in it.
pub proof fn law_highlights_are_yellow_and_stamps_are_red(d: DocV, opacity: u32)
    ensures
        ({
            let h = crate::tools::release::drawn_style(ActiveTool::Highlight, d.style);
            let s = crate::tools::stamped(opacity);
            &&& h.fill.r == 250 && h.fill.g == 220 && h.fill.b == 50 && h.fill.a == 255
            &&& h.opacity == 450 && h.stroke_width == 0 && h.stroke.a == 0
            &&& s.stroke.r == 193 && s.stroke.g == 39 && s.stroke.b == 45 && s.stroke.a == 255
            &&& s.stroke_width == 1500 && s.fill.a == 0 && s.opacity == opacity
        }),
{
}

/// A constrained line goes the way in which the drag reaches furthest, of the
/// eight there are: across, where that is further than at 45 degrees, up, where
/// that is, and at 45 degrees otherwise.
pub proof fn law_a_constrained_line_goes_the_nearest_way(start: PdfPoint, pos: PdfPoint)
    requires
        -0x1000_0000 <= start.x <= 0x1000_0000,
        -0x1000_0000 <= start.y <= 0x1000_0000,
        -0x1000_0000 <= pos.x <= 0x1000_0000,
        -0x1000_0000 <= pos.y <= 0x1000_0000,
        start != pos,
    ensures
        ({
            let (a, b) = (abs(pos.x - start.x), abs(pos.y - start.y));
            let r = on_compass(start, pos);
            &&& r.y == start.y && r.x != start.x ==> 2 * (a * a) >= (a + b) * (a + b)
            &&& r.x == start.x && r.y != start.y ==> 2 * (b * b) >= (a + b) * (a + b)
            &&& r.x != start.x && r.y != start.y ==> (a + b) * (a + b) >= 2 * (a * a) && (a + b) * (a
                + b) >= 2 * (b * b)
            &&& r != start
        }),
{
    let (dx, dy) = (pos.x - start.x, pos.y - start.y);
    let len2 = dx * dx + dy * dy;
    assert(0 <= dx * dx <= 0x400_0000_0000_0000) by (nonlinear_arith)
        requires
            -0x2000_0000 <= dx <= 0x2000_0000,
    ;
    assert(0 <= dy * dy <= 0x400_0000_0000_0000) by (nonlinear_arith)
        requires
            -0x2000_0000 <= dy <= 0x2000_0000,
    ;
    assert(len2 > 0) by (nonlinear_arith)
        requires
            len2 == dx * dx + dy * dy,
            dx != 0 || dy != 0,
    ;
    lemma_half_root(4 * len2);
    lemma_half_root(2 * len2);
    let (n, c) = (half_root(4 * len2), half_root(2 * len2));
    lemma_root_bound(4 * len2, n);
    lemma_root_bound(2 * len2, c);
    if n == 0 {
        assert((2 * n + 1) * (2 * n + 1) == 1) by (nonlinear_arith)
            requires
                n == 0,
        ;
    }
    if c == 0 {
        assert((2 * c + 1) * (2 * c + 1) == 1) by (nonlinear_arith)
            requires
                c == 0,
        ;
    }
    assert(sign(dx) * n == n || sign(dx) * n == -n) by (nonlinear_arith)
        requires
            sign(dx) == 1 || sign(dx) == -1,
    ;
    assert(sign(dy) * n == n || sign(dy) * n == -n) by (nonlinear_arith)
        requires
            sign(dy) == 1 || sign(dy) == -1,
    ;
    assert(sign(dx) * c == c || sign(dx) * c == -c) by (nonlinear_arith)
        requires
            sign(dx) == 1 || sign(dx) == -1,
    ;
    assert(sign(dy) * c == c || sign(dy) * c == -c) by (nonlinear_arith)
        requires
            sign(dy) == 1 || sign(dy) == -1,
    ;
}

/// While something is dragged, the guides that are shown are those of the lines
/// it is aligned to, on its page: there is one exactly where there is such a
/// line, across or up, and none with snapping off.
pub proof fn law_guides_show_what_lines_up(
    d: DocV,
    p: PointerInfo,
    origs: Seq<AnnV>,
    press: PdfPoint,
    moved: bool,
)
    requires
        d.ctl.state == (StateV::Dragging { origs, press, moved }),
        origs.len() > 0,
    ensures
        ({
            let rect = origs[0].rect.plus(p.pos.x - press.x, p.pos.y - press.y);
            let best = aligned(
                d,
                p,
                origs[0].page,
                ids_of(origs),
                rect,
                SnapFeatures::every(),
            );
            let g = dragged(d, p).ctl.guides;
            &&& p.modifiers.command || p.modifiers.mac_cmd ==> g.len() == 0
            &&& !p.modifiers.command && !p.modifiers.mac_cmd ==> {
                &&& dragged(d, p).ctl.guides_page == Some(origs[0].page)
                &&& best.0 matches Some(x) ==> g.contains(Guide::Vertical(x.1 as i32))
                &&& best.1 matches Some(y) ==> g.contains(Guide::Horizontal(y.1 as i32))
                &&& best.0 is None && best.1 is None ==> g.len() == 0
            }
        }),
{
    let rect = origs[0].rect.plus(p.pos.x - press.x, p.pos.y - press.y);
    let best = aligned(d, p, origs[0].page, ids_of(origs), rect, SnapFeatures::every());
    let g = dragged(d, p).ctl.guides;
    if !p.modifiers.command && !p.modifiers.mac_cmd {
        assert(g == guides_of(best.0, best.1));
        if let Some(x) = best.0 {
            assert(g[0] == Guide::Vertical(x.1 as i32));
        }
        if let Some(y) = best.1 {
            assert(g[g.len() - 1] == Guide::Horizontal(y.1 as i32));
        }
    }
}

/// Letting go ends whatever was under way but the placing of vertices, and no
/// guide outlasts it.
pub proof fn law_letting_go_ends_the_gesture(d: DocV, p: PointerInfo)
    ensures
        !(d.ctl.state is Placing) ==> released(d, p).ctl.state is Idle,
        d.ctl.state is Placing ==> released(d, p).ctl.state == d.ctl.state,
        released(d, p).ctl.guides.len() == 0,
        released(d, p).ctl.guides_page is None,
        released(d, p).tool == d.tool,
{
}

/// Whether a line goes through an edge or the middle of an annotation of the
/// page that is not among those left out, across the page.
pub open spec fn offered_across(s: Seq<AnnV>, page: usize, but: Set<u64>, line: int) -> bool {
    exists|b: AnnV| #[trigger]
        s.contains(b) && b.page == page && !but.contains(b.id) && (line == b.rect.min.x || line
            == b.rect.max.x || line == (b.rect.min.x + b.rect.max.x) / 2)
}

/// The same, up the page.
pub open spec fn offered_up(s: Seq<AnnV>, page: usize, but: Set<u64>, line: int) -> bool {
    exists|b: AnnV| #[trigger]
        s.contains(b) && b.page == page && !but.contains(b.id) && (line == b.rect.min.y || line
            == b.rect.max.y || line == (b.rect.min.y + b.rect.max.y) / 2)
}

proof fn lemma_box_is_of(s: Seq<AnnV>, page: usize, but: Set<u64>, i: int) -> (b: AnnV)
    requires
        0 <= i < bounds_but(s, page, but).len(),
    ensures
        s.contains(b),
        b.page == page,
        !but.contains(b.id),
        bounds_but(s, page, but)[i] == b.rect,
{
    law_every_other_box_counts(s, page, but);
    let keep = |a: AnnV| a.page == page && !but.contains(a.id);
    let b = s.filter(keep)[i];
    s.lemma_filter_pred(keep, i);
    assert(s.filter(keep).contains(b));
    s.lemma_filter_contains_rev(keep, b);
    b
}

/// Nothing lines up but with the page's own edges and middle and with the
/// annotations of the page that are not themselves being moved.
pub proof fn law_nothing_lines_up_with_itself(
    d: DocV,
    p: PointerInfo,
    page: usize,
    but: Set<u64>,
    rect: PdfRect,
    f: SnapFeatures,
    k: int,
)
    ensures
        ({
            let best = aligned(d, p, page, but, rect, f);
            let g = guides_of(best.0, best.1);
            0 <= k < g.len() ==> match g[k] {
                Guide::Vertical(line) => line == 0 || line == p.page_w as int / 2 || line
                    == p.page_w || offered_across(d.store.items, page, but, line as int),
                Guide::Horizontal(line) => line == 0 || line == p.page_h as int / 2 || line
                    == p.page_h || offered_up(d.store.items, page, but, line as int),
            }
        }),
{
    let best = aligned(d, p, page, but, rect, f);
    let g = guides_of(best.0, best.1);
    let s = d.store.items;
    if p.snaps() && 0 <= k < g.len() {
        let others = bounds_but(s, page, but);
        law_a_guide_is_a_line(rect, f, p.page_w, p.page_h, others, p.tol as int);
        match g[k] {
            Guide::Vertical(line) => {
                if line != 0 && line != p.page_w as int / 2 && line != p.page_w {
                    let i = choose|i: int|
                        #![trigger others[i]]
                        0 <= i < others.len() && (line == others[i].min.x || line
                            == others[i].max.x || line == (others[i].min.x + others[i].max.x) / 2);
                    let b = lemma_box_is_of(s, page, but, i);
                    assert(s.contains(b));
                }
            },
            Guide::Horizontal(line) => {
                if line != 0 && line != p.page_h as int / 2 && line != p.page_h {
                    let i = choose|i: int|
                        #![trigger others[i]]
                        0 <= i < others.len() && (line == others[i].min.y || line
                            == others[i].max.y || line == (others[i].min.y + others[i].max.y) / 2);
                    let b = lemma_box_is_of(s, page, but, i);
                    assert(s.contains(b));
                }
            },
        }
    }
}

/// What is being dragged never lines up with itself: every guide that is shown
/// is one of the page or of an annotation that stays where it is.
pub proof fn law_a_drag_lines_up_with_what_stays(
    d: DocV,
    p: PointerInfo,
    origs: Seq<AnnV>,
    press: PdfPoint,
    moved: bool,
    k: int,
)
    requires
        d.ctl.state == (StateV::Dragging { origs, press, moved }),
        origs.len() > 0,
    ensures
        ({
            let g = dragged(d, p).ctl.guides;
            let (s, page) = (d.store.items, origs[0].page);
            0 <= k < g.len() ==> match g[k] {
                Guide::Vertical(line) => line == 0 || line == p.page_w as int / 2 || line
                    == p.page_w || offered_across(s, page, ids_of(origs), line as int),
                Guide::Horizontal(line) => line == 0 || line == p.page_h as int / 2 || line
                    == p.page_h || offered_up(s, page, ids_of(origs), line as int),
            }
        }),
{
    let rect = origs[0].rect.plus(p.pos.x - press.x, p.pos.y - press.y);
    law_nothing_lines_up_with_itself(
        d,
        p,
        origs[0].page,
        ids_of(origs),
        rect,
        SnapFeatures::every(),
        k,
    );
}

/// And neither does what is being resized.
pub proof fn law_a_resize_lines_up_with_what_stays(
    d: DocV,
    p: PointerInfo,
    orig: AnnV,
    handle: Handle,
    k: int,
)
    requires
        d.ctl.state == (StateV::Resizing { orig, handle }),
    ensures
        ({
            let g = dragged(d, p).ctl.guides;
            let (s, page) = (d.store.items, orig.page);
            let but = Set::<u64>::empty().insert(orig.id);
            0 <= k < g.len() ==> match g[k] {
                Guide::Vertical(line) => line == 0 || line == p.page_w as int / 2 || line
                    == p.page_w || offered_across(s, page, but, line as int),
                Guide::Horizontal(line) => line == 0 || line == p.page_h as int / 2 || line
                    == p.page_h || offered_up(s, page, but, line as int),
            }
        }),
{
    let but = Set::<u64>::empty().insert(orig.id);
    let lock = p.modifiers.shift != (orig.kind is ImageStamp);
    let (rect, f) = if handle is Vertex || handle is LineStart || handle is LineEnd {
        (spanning(p.pos, p.pos), SnapFeatures::a_point())
    } else {
        (resized(orig.rect, handle, p.pos, lock), crate::tools::drag::sides(handle))
    };
    law_nothing_lines_up_with_itself(d, p, orig.page, but, rect, f, k);
}

} // verus!
