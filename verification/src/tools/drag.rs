//! The pointer moving while a gesture is in progress.

use vstd::prelude::*;

use crate::doc::annotation::{
    ann_bounded, ann_plus, copy_points, AnnV, Annotation, AnnotationId, AnnotationKind, KindV,
};
use crate::doc::geometry::{abs, spanning, PdfPoint, PdfRect};
use crate::doc::store::{bounds_but, put, views, StoreV};
use crate::state::{DocState, DocV};
use crate::tools::constrain::{on_compass, on_square, to_compass, to_square};
use crate::tools::pen::{bounding, bounding_rect};
use crate::tools::press::in_state;
use crate::tools::select::{resize_rect, resized, Handle};
use crate::tools::snap::{
    guides_of, shift_of, snap_rect, snap_x, snap_y, SnapFeatures, SnapResult,
};
use crate::tools::{ActiveTool, PointerInfo, StateV, ToolState};

verus! {

/// Where a shift-constrained drag from `start` to `pos` goes.
pub open spec fn constrained(start: PdfPoint, pos: PdfPoint, tool: ActiveTool) -> PdfPoint {
    if tool is Line || tool is Arrow {
        on_compass(start, pos)
    } else {
        on_square(start, pos)
    }
}

/// Shift-constrain a drag: square/circle for shapes, 45-degree steps for lines.
pub fn constrain(start: PdfPoint, pos: PdfPoint, tool: ActiveTool) -> (r: PdfPoint)
    ensures
        r == constrained(start, pos, tool),
{
    match tool {
        ActiveTool::Line | ActiveTool::Arrow => to_compass(start, pos),
        _ => to_square(start, pos),
    }
}

/// The alignment that `rect` finds on `page`, across and up: against every
/// annotation there but those in `but`. None at all while snapping is off.
pub open spec fn aligned(
    d: DocV,
    p: PointerInfo,
    page: usize,
    but: Set<u64>,
    rect: PdfRect,
    f: SnapFeatures,
) -> (Option<(int, int)>, Option<(int, int)>) {
    let others = bounds_but(d.store.items, page, but);
    if p.snaps() {
        (
            snap_x(rect, f, p.page_w, others, p.tol as int),
            snap_y(rect, f, p.page_h, others, p.tol as int),
        )
    } else {
        (None, None)
    }
}

/// `d` with the guides of an alignment shown, or none while snapping is off.
pub open spec fn showing(
    d: DocV,
    p: PointerInfo,
    page: usize,
    best: (Option<(int, int)>, Option<(int, int)>),
) -> DocV {
    DocV {
        ctl: if p.snaps() {
            d.ctl.guided(page, guides_of(best.0, best.1))
        } else {
            d.ctl.unguided()
        },
        ..d
    }
}

/// `s` with each of `v` in place of the one with the same id, in turn.
pub open spec fn put_all(s: Seq<AnnV>, v: Seq<AnnV>) -> Seq<AnnV>
    decreases v.len(),
{
    if v.len() == 0 {
        s
    } else {
        put(put_all(s, v.drop_last()), v.last())
    }
}

/// The ids of `s`.
pub open spec fn ids_of(s: Seq<AnnV>) -> Set<u64> {
    s.map_values(|a: AnnV| a.id).to_set()
}

/// Every one of `s` moved by `(dx, dy)`.
pub open spec fn all_plus(s: Seq<AnnV>, dx: int, dy: int) -> Seq<AnnV> {
    s.map_values(|a: AnnV| ann_plus(a, dx, dy))
}

/// Which features snap while dragging a shape out from `start` to `pos`: the
/// two sides that are moving.
pub open spec fn growing(start: PdfPoint, pos: PdfPoint) -> SnapFeatures {
    SnapFeatures {
        left: pos.x < start.x,
        right: pos.x >= start.x,
        top: pos.y >= start.y,
        bottom: pos.y < start.y,
        center_x: false,
        center_y: false,
    }
}

pub open spec fn creating_dragged(d: DocV, p: PointerInfo, page: usize, start: PdfPoint) -> DocV {
    let pos = if p.modifiers.shift {
        constrained(start, p.pos, d.tool)
    } else {
        p.pos
    };
    let best = aligned(d, p, page, Set::empty(), spanning(start, pos), growing(start, pos));
    in_state(
        showing(d, p, page, best),
        StateV::Creating { page, start, current: pos.plus(shift_of(best.0), shift_of(best.1)) },
    )
}

/// How far everything that is being dragged moves: as far as the pointer did,
/// and the correction that the one in the lead takes.
pub open spec fn drift(d: DocV, p: PointerInfo, origs: Seq<AnnV>, press: PdfPoint) -> (int, int) {
    let lead = origs[0];
    let rect = lead.rect.plus(p.pos.x - press.x, p.pos.y - press.y);
    let best = aligned(d, p, lead.page, ids_of(origs), rect, SnapFeatures::every());
    let to = rect.plus(shift_of(best.0), shift_of(best.1));
    (to.min.x - lead.rect.min.x, to.min.y - lead.rect.min.y)
}

pub open spec fn dragging_dragged(
    d: DocV,
    p: PointerInfo,
    origs: Seq<AnnV>,
    press: PdfPoint,
) -> DocV {
    if origs.len() == 0 {
        in_state(d, StateV::Idle)
    } else {
        let lead = origs[0];
        let rect = lead.rect.plus(p.pos.x - press.x, p.pos.y - press.y);
        let best = aligned(d, p, lead.page, ids_of(origs), rect, SnapFeatures::every());
        let by = drift(d, p, origs, press);
        let e = in_state(
            showing(d, p, lead.page, best),
            StateV::Dragging { origs, press, moved: true },
        );
        DocV {
            store: StoreV {
                items: put_all(d.store.items, all_plus(origs, by.0, by.1)),
                next: d.store.next,
            },
            ..e
        }
    }
}

/// `a` with its corner number `index` at `pos`, and its box around it.
pub open spec fn cornered(a: AnnV, index: usize, pos: PdfPoint) -> AnnV {
    match a.kind {
        KindV::Freehand { points } => if index < points.len() {
            let points = points.update(index as int, pos);
            AnnV { kind: KindV::Freehand { points }, rect: bounding(points), ..a }
        } else {
            a
        },
        KindV::Polygon { points, cloudy } => if index < points.len() {
            let points = points.update(index as int, pos);
            AnnV { kind: KindV::Polygon { points, cloudy }, rect: bounding(points), ..a }
        } else {
            a
        },
        KindV::PolyLine { points, arrow_end } => if index < points.len() {
            let points = points.update(index as int, pos);
            AnnV { kind: KindV::PolyLine { points, arrow_end }, rect: bounding(points), ..a }
        } else {
            a
        },
        _ => a,
    }
}

/// `a`, where it is a line, with one end at `pos`; shift keeps it on one of the
/// eight directions from the other end.
pub open spec fn ended(a: AnnV, at_start: bool, pos: PdfPoint, shift: bool) -> AnnV {
    match a.kind {
        KindV::Line { p1, p2, arrow_end } => {
            let to = if shift {
                on_compass(
                    if at_start {
                        p2
                    } else {
                        p1
                    },
                    pos,
                )
            } else {
                pos
            };
            let (q1, q2) = if at_start {
                (to, p2)
            } else {
                (p1, to)
            };
            AnnV { kind: KindV::Line { p1: q1, p2: q2, arrow_end }, rect: spanning(q1, q2), ..a }
        },
        _ => a,
    }
}

/// Which sides snap while this handle is dragged.
pub open spec fn sides(handle: Handle) -> SnapFeatures {
    SnapFeatures {
        left: handle.on_left(),
        right: handle.on_right(),
        top: handle.on_top(),
        bottom: handle.on_bottom(),
        center_x: false,
        center_y: false,
    }
}

pub open spec fn resizing_dragged(d: DocV, p: PointerInfo, orig: AnnV, handle: Handle) -> DocV {
    let but = Set::<u64>::empty().insert(orig.id);
    let lock = p.modifiers.shift != (orig.kind is ImageStamp);
    let free = resized(orig.rect, handle, p.pos, lock);
    let by_point = handle is Vertex || handle is LineStart || handle is LineEnd;
    let best = if by_point {
        aligned(d, p, orig.page, but, spanning(p.pos, p.pos), SnapFeatures::a_point())
    } else {
        aligned(d, p, orig.page, but, free, sides(handle))
    };
    let to = p.pos.plus(shift_of(best.0), shift_of(best.1));
    let a = match handle {
        Handle::Vertex(index) => cornered(orig, index, to),
        Handle::LineStart => ended(orig, true, to, p.modifiers.shift),
        Handle::LineEnd => ended(orig, false, to, p.modifiers.shift),
        _ => ann_bounded(
            orig,
            if shift_of(best.0) != 0 || shift_of(best.1) != 0 {
                resized(orig.rect, handle, to, lock)
            } else {
                free
            },
        ),
    };
    let e = in_state(showing(d, p, orig.page, best), StateV::Resizing { orig, handle });
    DocV { store: d.store.replaced(a), ..e }
}

/// `points` with `pos` added, where it is far enough from the last of them.
pub open spec fn drawn_on(points: Seq<PdfPoint>, pos: PdfPoint) -> Seq<PdfPoint> {
    if points.len() == 0 || abs(points.last().x - pos.x) + abs(points.last().y - pos.y) > 200 {
        points.push(pos)
    } else {
        points
    }
}

/// The document after the pointer moves with a gesture in progress.
pub open spec fn dragged(d: DocV, p: PointerInfo) -> DocV {
    match d.ctl.state {
        StateV::Idle => d,
        StateV::Creating { page, start, .. } => creating_dragged(d, p, page, start),
        StateV::Placing { page, points, .. } => in_state(
            d,
            StateV::Placing { page, points, hover: p.pos },
        ),
        StateV::Drawing { page, points } => in_state(
            d,
            StateV::Drawing { page, points: drawn_on(points, p.pos) },
        ),
        StateV::Marquee { page, start, .. } => in_state(
            d,
            StateV::Marquee { page, start, current: p.pos },
        ),
        StateV::Dragging { origs, press, .. } => dragging_dragged(d, p, origs, press),
        StateV::Resizing { orig, handle } => resizing_dragged(d, p, orig, handle),
    }
}

/// Align `rect`, showing the guides: how far to move it.
fn align(
    dc: &mut DocState,
    p: &PointerInfo,
    page: usize,
    but: &Vec<AnnotationId>,
    rect: PdfRect,
    f: SnapFeatures,
) -> (r: (i64, i64))
    requires
        old(dc).ok(),
    ensures
        ({
            let best = aligned(old(dc)@, *p, page, but@.to_set(), rect, f);
            &&& final(dc)@ == showing(old(dc)@, *p, page, best)
            &&& r.0 == shift_of(best.0)
            &&& r.1 == shift_of(best.1)
        }),
        -0x1_0000_0000 <= r.0 <= 0x1_0000_0000,
        -0x1_0000_0000 <= r.1 <= 0x1_0000_0000,
        final(dc).ok(),
{
    if !p.modifiers.mac_cmd && !p.modifiers.command {
        let others: Vec<PdfRect> = dc.store.bounds_on(page, but);
        let result: SnapResult = snap_rect(rect, f, p.page_w, p.page_h, &others, p.tol);
        let r: (i64, i64) = (result.correction.dx, result.correction.dy);
        dc.tool_ctl.set_guides(page, result.guides);
        r
    } else {
        dc.tool_ctl.clear_guides();
        (0, 0)
    }
}

fn drag_creating(dc: &mut DocState, p: &PointerInfo, page: usize, start: PdfPoint)
    requires
        old(dc).ok(),
    ensures
        final(dc)@ == creating_dragged(old(dc)@, *p, page, start),
        final(dc).ok(),
{
    let mut pos: PdfPoint = p.pos;
    if p.modifiers.shift {
        pos = constrain(start, pos, dc.tool);
    }
    let f: SnapFeatures = SnapFeatures {
        left: pos.x < start.x,
        right: pos.x >= start.x,
        top: pos.y >= start.y,
        bottom: pos.y < start.y,
        center_x: false,
        center_y: false,
    };
    let none: Vec<AnnotationId> = Vec::new();
    proof {
        assert(none@.to_set() =~= Set::<u64>::empty());
    }
    let by: (i64, i64) = align(dc, p, page, &none, PdfRect::from_points(start, pos), f);
    dc.tool_ctl.state = ToolState::Creating { page, start, current: pos.moved(by.0, by.1) };
}

/// The ids of `v`, in order.
pub fn id_list(v: &Vec<Annotation>) -> (r: Vec<AnnotationId>)
    ensures
        r@ == views(v@).map_values(|a: AnnV| a.id),
        r@.to_set() == ids_of(views(v@)),
{
    let mut r: Vec<AnnotationId> = Vec::new();
    let mut i: usize = 0;
    while i < v.len()
        invariant
            i <= v@.len(),
            r@.len() == i,
            forall|j: int| 0 <= j < i ==> r@[j] == v@[j]@.id,
        decreases v@.len() - i,
    {
        r.push(v[i].id);
        i += 1;
    }
    proof {
        assert(r@ =~= views(v@).map_values(|a: AnnV| a.id));
    }
    r
}

fn drag_selection(dc: &mut DocState, p: &PointerInfo, origs: Vec<Annotation>, press: PdfPoint)
    requires
        old(dc).ok(),
    ensures
        final(dc)@ == dragging_dragged(old(dc)@, *p, views(origs@), press),
        final(dc).ok(),
{
    if origs.len() == 0 {
        dc.tool_ctl.state = ToolState::Idle;
        return;
    }
    let page: usize = origs[0].page;
    let from: PdfRect = origs[0].rect;
    let rect: PdfRect = from.translated(
        p.pos.x as i64 - press.x as i64,
        p.pos.y as i64 - press.y as i64,
    );
    let moving: Vec<AnnotationId> = id_list(&origs);
    let by: (i64, i64) = align(dc, p, page, &moving, rect, SnapFeatures::all());
    let to: PdfRect = rect.translated(by.0, by.1);
    let dx: i64 = to.min.x as i64 - from.min.x as i64;
    let dy: i64 = to.min.y as i64 - from.min.y as i64;
    let ghost start = dc@;
    let ghost all = all_plus(views(origs@), dx as int, dy as int);
    proof {
        assert(views(origs@)[0] == origs@[0]@);
        assert(all.take(0) =~= Seq::empty());
    }
    let mut i: usize = 0;
    while i < origs.len()
        invariant
            i <= origs@.len(),
            dc.ok(),
            all == all_plus(views(origs@), dx as int, dy as int),
            -0x1_0000_0000 <= dx <= 0x1_0000_0000,
            -0x1_0000_0000 <= dy <= 0x1_0000_0000,
            dc@ == (DocV {
                store: (StoreV {
                    items: put_all(start.store.items, all.take(i as int)),
                    next: start.store.next,
                }),
                ..start
            }),
        decreases origs@.len() - i,
    {
        let mut ann: Annotation = origs[i].clone();
        ann.translate(dx, dy);
        proof {
            assert(all.take(i + 1).drop_last() =~= all.take(i as int));
            assert(all.take(i + 1).last() == ann@);
        }
        dc.store.replace(ann);
        i += 1;
    }
    proof {
        assert(all.take(i as int) =~= all);
    }
    dc.tool_ctl.state = ToolState::Dragging { origs, press, moved: true };
}

fn set_corner(a: &Annotation, index: usize, pos: PdfPoint) -> (r: Annotation)
    ensures
        r@ == cornered(a@, index, pos),
{
    let mut ann: Annotation = a.clone();
    match &a.kind {
        AnnotationKind::Freehand { points } => {
            if index < points.len() {
                let mut points: Vec<PdfPoint> = copy_points(points);
                points.set(index, pos);
                ann.rect = bounding_rect(&points);
                ann.kind = AnnotationKind::Freehand { points };
            }
        },
        AnnotationKind::Polygon { points, cloudy } => {
            if index < points.len() {
                let mut points: Vec<PdfPoint> = copy_points(points);
                points.set(index, pos);
                ann.rect = bounding_rect(&points);
                ann.kind = AnnotationKind::Polygon { points, cloudy: *cloudy };
            }
        },
        AnnotationKind::PolyLine { points, arrow_end } => {
            if index < points.len() {
                let mut points: Vec<PdfPoint> = copy_points(points);
                points.set(index, pos);
                ann.rect = bounding_rect(&points);
                ann.kind = AnnotationKind::PolyLine { points, arrow_end: *arrow_end };
            }
        },
        _ => {},
    }
    ann
}

fn set_end(a: &Annotation, at_start: bool, pos: PdfPoint, shift: bool) -> (r: Annotation)
    ensures
        r@ == ended(a@, at_start, pos, shift),
{
    let mut ann: Annotation = a.clone();
    if let AnnotationKind::Line { p1, p2, arrow_end } = &a.kind {
        let anchor: PdfPoint = if at_start { *p2 } else { *p1 };
        let to: PdfPoint = if shift { to_compass(anchor, pos) } else { pos };
        let (q1, q2): (PdfPoint, PdfPoint) = if at_start { (to, *p2) } else { (*p1, to) };
        ann.kind = AnnotationKind::Line { p1: q1, p2: q2, arrow_end: *arrow_end };
        ann.rect = PdfRect::from_points(q1, q2);
    }
    ann
}

#[verifier::rlimit(60)]
fn drag_handle(dc: &mut DocState, p: &PointerInfo, orig: Annotation, handle: Handle)
    requires
        old(dc).ok(),
    ensures
        final(dc)@ == resizing_dragged(old(dc)@, *p, orig@, handle),
        final(dc).ok(),
{
    let but: Vec<AnnotationId> = vec![orig.id];
    proof {
        assert(but@.to_set() =~= Set::<u64>::empty().insert(orig.id)) by {
            assert(but@[0] == orig.id);
            assert forall|x: u64| but@.to_set().contains(x) implies x == orig.id by {
                let i = but@.index_of(x);
            }
        }
    }
    let lock: bool = p.modifiers.shift != orig.kind.keeps_aspect();
    let free: PdfRect = resize_rect(orig.rect, handle, p.pos, lock);
    let by_point: bool = matches!(handle, Handle::Vertex(_) | Handle::LineStart | Handle::LineEnd);
    let by: (i64, i64) = if by_point {
        let spot: PdfRect = PdfRect::from_points(p.pos, p.pos);
        align(dc, p, orig.page, &but, spot, SnapFeatures::point())
    } else {
        let f: SnapFeatures = SnapFeatures {
            left: handle.moves_left(),
            right: handle.moves_right(),
            top: handle.moves_top(),
            bottom: handle.moves_bottom(),
            center_x: false,
            center_y: false,
        };
        align(dc, p, orig.page, &but, free, f)
    };
    let to: PdfPoint = p.pos.moved(by.0, by.1);
    let ann: Annotation = match handle {
        Handle::Vertex(index) => set_corner(&orig, index, to),
        Handle::LineStart => set_end(&orig, true, to, p.modifiers.shift),
        Handle::LineEnd => set_end(&orig, false, to, p.modifiers.shift),
        _ => {
            let rect: PdfRect = if by.0 != 0 || by.1 != 0 {
                resize_rect(orig.rect, handle, to, lock)
            } else {
                free
            };
            let mut ann: Annotation = orig.clone();
            ann.set_bounds(rect);
            ann
        },
    };
    dc.store.replace(ann);
    dc.tool_ctl.state = ToolState::Resizing { orig, handle };
}

/// Pointer moved while a gesture is in progress.
pub fn on_drag(dc: &mut DocState, p: &PointerInfo)
    requires
        old(dc).ok(),
    ensures
        final(dc)@ == dragged(old(dc)@, *p),
        final(dc).ok(),
{
    let mut state: ToolState = ToolState::Idle;
    core::mem::swap(&mut state, &mut dc.tool_ctl.state);
    match state {
        ToolState::Idle => {},
        ToolState::Creating { page, start, .. } => drag_creating(dc, p, page, start),
        ToolState::Placing { page, points, .. } => {
            dc.tool_ctl.state = ToolState::Placing { page, points, hover: p.pos };
        },
        ToolState::Drawing { page, points } => {
            let mut points: Vec<PdfPoint> = points;
            let n: usize = points.len();
            let far: bool = if n == 0 {
                true
            } else {
                let last: PdfPoint = points[n - 1];
                let dx: i64 = last.x as i64 - p.pos.x as i64;
                let dy: i64 = last.y as i64 - p.pos.y as i64;
                (if dx < 0 { -dx } else { dx }) + (if dy < 0 { -dy } else { dy }) > 200
            };
            if far {
                points.push(p.pos);
            }
            dc.tool_ctl.state = ToolState::Drawing { page, points };
        },
        ToolState::Marquee { page, start, .. } => {
            dc.tool_ctl.state = ToolState::Marquee { page, start, current: p.pos };
        },
        ToolState::Dragging { origs, press, .. } => drag_selection(dc, p, origs, press),
        ToolState::Resizing { orig, handle } => drag_handle(dc, p, orig, handle),
    }
}

} // verus!
