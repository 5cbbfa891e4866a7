//! The pointer going up, and the other ways a gesture ends.

use vstd::prelude::*;

use crate::doc::annotation::{rgba, AnnV, Annotation, AnnotationId, AnnotationKind, Color, KindV, Style};
use crate::doc::geometry::{abs, spanning, PdfPoint, PdfRect};
use crate::doc::history::{commands, lemma_batch_view, Command, CommandV, HistoryV};
use crate::doc::store::{following, lookup, views, StoreV};
use crate::state::{DocState, DocV, SelV};
use crate::tools::drag::put_all;
use crate::tools::pen::{bounding, bounding_rect, simplified, simplify};
use crate::tools::press::in_state;
use crate::tools::{
    add_new, added, corners, group_of, group_with, next_sequence_number, number_after, rect_points,
    ActiveTool, CtlV, PointerInfo, StateV, ToolState, DEFAULT_CLOUD_INTENSITY,
};

verus! {

/// How far a freehand stroke may stray from what is kept of it: 0.6 points.
pub const STROKE_TOLERANCE: i32 = 600;

/// `d` with no gesture in progress and no guides shown.
pub open spec fn settled(d: DocV) -> DocV {
    DocV { ctl: CtlV { state: StateV::Idle, ..d.ctl.unguided() }, ..d }
}

/// Whether a drag was long enough to have meant a shape: three points long for
/// a line, three points each way for anything else.
pub open spec fn long_enough(tool: ActiveTool, start: PdfPoint, current: PdfPoint) -> bool {
    if tool is Line || tool is Arrow {
        (current.x - start.x) * (current.x - start.x) + (current.y - start.y) * (current.y
            - start.y) > 9_000_000
    } else {
        let rect = spanning(start, current);
        rect.spec_width() > 3000 && rect.spec_height() > 3000
    }
}

/// What a drag with this tool draws.
pub open spec fn drawn(tool: ActiveTool, start: PdfPoint, current: PdfPoint) -> Option<KindV> {
    match tool {
        ActiveTool::Highlight => Some(KindV::Highlight),
        ActiveTool::Rect => Some(KindV::Rect),
        ActiveTool::Ellipse => Some(KindV::Ellipse),
        ActiveTool::Cloud => Some(
            KindV::Polygon {
                points: corners(spanning(start, current)),
                cloudy: Some(DEFAULT_CLOUD_INTENSITY),
            },
        ),
        ActiveTool::Line => Some(KindV::Line { p1: start, p2: current, arrow_end: false }),
        ActiveTool::Arrow => Some(KindV::Line { p1: start, p2: current, arrow_end: true }),
        _ => None,
    }
}

/// A highlight is always yellow; everything else is drawn in the current style.
pub open spec fn drawn_style(tool: ActiveTool, current: Style) -> Style {
    if tool is Highlight {
        Style {
            stroke: rgba(0, 0, 0, 0),
            stroke_width: 0,
            fill: rgba(250, 220, 50, 255),
            opacity: 450,
        }
    } else {
        current
    }
}

pub open spec fn creating_released(d: DocV, page: usize, start: PdfPoint, current: PdfPoint) -> DocV {
    let e = settled(d);
    if !long_enough(d.tool, start, current) {
        e
    } else {
        match drawn(d.tool, start, current) {
            Some(kind) => added(
                e,
                AnnV {
                    id: d.store.next,
                    page,
                    kind,
                    rect: spanning(start, current),
                    style: drawn_style(d.tool, d.style),
                    group: None,
                },
            ),
            None => DocV { store: StoreV { next: following(d.store.next), ..d.store }, ..e },
        }
    }
}

pub open spec fn drawing_released(d: DocV, page: usize, points: Seq<PdfPoint>) -> DocV {
    let kept = simplified(points, STROKE_TOLERANCE as int);
    if kept.len() < 2 {
        settled(d)
    } else {
        added(
            settled(d),
            AnnV {
                id: d.store.next,
                page,
                kind: KindV::Freehand { points: kept },
                rect: bounding(kept),
                style: d.style,
                group: None,
            },
        )
    }
}

/// The ids that a box over `page` takes: each annotation of `s` that it
/// touches, with its group, in order.
pub open spec fn touched(all: Seq<AnnV>, s: Seq<AnnV>, page: usize, rect: PdfRect) -> Seq<u64>
    decreases s.len(),
{
    if s.len() == 0 {
        Seq::empty()
    } else if s.last().page == page && s.last().rect.meets(rect) {
        touched(all, s.drop_last(), page, rect) + group_with(all, s.last().id)
    } else {
        touched(all, s.drop_last(), page, rect)
    }
}

pub open spec fn marquee_released(
    d: DocV,
    p: PointerInfo,
    page: usize,
    start: PdfPoint,
    current: PdfPoint,
) -> DocV {
    let rect = spanning(start, current);
    let e = settled(d);
    if rect.spec_width() < 1000 && rect.spec_height() < 1000 {
        e
    } else {
        let ids = touched(d.store.items, d.store.items, page, rect);
        DocV {
            selection: if p.modifiers.shift {
                d.selection.with_all(ids)
            } else {
                SelV::these(ids.to_set())
            },
            ..e
        }
    }
}

/// The changes that turned `origs` into what `s` now has under their ids.
pub open spec fn changes(s: Seq<AnnV>, origs: Seq<AnnV>) -> Seq<CommandV>
    decreases origs.len(),
{
    if origs.len() == 0 {
        Seq::empty()
    } else {
        let before = origs.last();
        let sofar = changes(s, origs.drop_last());
        match lookup(s, before.id) {
            Some(after) => if after != before {
                sofar.push(CommandV::Modify { before, after })
            } else {
                sofar
            },
            None => sofar,
        }
    }
}

/// Several commands as one undo step, or none at all if nothing changed. A
/// single change stays a single command rather than a batch of one.
pub open spec fn as_one(cs: Seq<CommandV>) -> Option<CommandV> {
    if cs.len() == 0 {
        None
    } else if cs.len() == 1 {
        Some(cs[0])
    } else {
        Some(CommandV::Batch(cs))
    }
}

/// The history with all of `cs` as one more step, where there are any.
pub open spec fn stepped(h: HistoryV, cs: Seq<CommandV>) -> HistoryV {
    match as_one(cs) {
        Some(c) => h.recorded(c),
        None => h,
    }
}

pub open spec fn dragging_released(d: DocV, p: PointerInfo, origs: Seq<AnnV>, moved: bool) -> DocV {
    let e = settled(d);
    if moved {
        DocV { history: stepped(d.history, changes(d.store.items, origs)), ..e }
    } else if !p.modifiers.shift && d.selection.ids.len() > 1 && origs.len() > 0 {
        DocV {
            selection: SelV::these(group_with(d.store.items, origs[0].id).to_set()),
            ..e
        }
    } else {
        e
    }
}

/// The document after the pointer is let go.
pub open spec fn released(d: DocV, p: PointerInfo) -> DocV {
    match d.ctl.state {
        StateV::Idle => settled(d),
        StateV::Placing { page, points, hover } => in_state(
            settled(d),
            StateV::Placing { page, points, hover },
        ),
        StateV::Creating { page, start, current } => creating_released(d, page, start, current),
        StateV::Drawing { page, points } => drawing_released(d, page, points),
        StateV::Marquee { page, start, current } => marquee_released(d, p, page, start, current),
        StateV::Dragging { origs, moved, .. } => dragging_released(d, p, origs, moved),
        StateV::Resizing { orig, .. } => DocV {
            history: stepped(d.history, changes(d.store.items, seq![orig])),
            ..settled(d)
        },
    }
}

/// Whether letting go now takes a new number for an annotation.
pub open spec fn release_adds(d: DocV) -> bool {
    match d.ctl.state {
        StateV::Creating { start, current, .. } => long_enough(d.tool, start, current),
        StateV::Drawing { points, .. } => simplified(points, STROKE_TOLERANCE as int).len() >= 2,
        _ => false,
    }
}

/// Several commands as one undo step, or none at all if nothing changed.
pub fn one_step(cs: Vec<Command>) -> (r: Option<Command>)
    ensures
        match r {
            Some(c) => as_one(commands(cs@)) == Some(c.view()),
            None => as_one(commands(cs@)) is None,
        },
{
    let mut v: Vec<Command> = cs;
    match v.len() {
        0 => None,
        1 => {
            let r: Option<Command> = v.pop();
            r
        },
        _ => {
            proof {
                lemma_batch_view(v);
            }
            Some(Command::Batch(v))
        },
    }
}

/// Record all of `cs` as one undo step, where there are any: whether there
/// were.
pub(crate) fn record_step(dc: &mut DocState, cs: Vec<Command>) -> (r: bool)
    requires
        old(dc).ok(),
    ensures
        final(dc)@ == (DocV { history: stepped(old(dc)@.history, commands(cs@)), ..old(dc)@ }),
        r == (cs@.len() > 0),
        final(dc).ok(),
{
    match one_step(cs) {
        Some(c) => {
            dc.history.record(c);
            true
        },
        None => false,
    }
}

fn changes_since(dc: &DocState, origs: Vec<Annotation>) -> (r: Vec<Command>)
    requires
        dc.ok(),
    ensures
        commands(r@) == changes(dc@.store.items, views(origs@)),
{
    let mut r: Vec<Command> = Vec::new();
    let ghost all = views(origs@);
    let ghost items = dc@.store.items;
    let mut i: usize = 0;
    proof {
        assert(all.take(0) =~= Seq::empty());
        assert(commands(r@) =~= Seq::empty());
    }
    while i < origs.len()
        invariant
            i <= origs@.len(),
            dc.ok(),
            all == views(origs@),
            items == dc@.store.items,
            commands(r@) == changes(items, all.take(i as int)),
        decreases origs@.len() - i,
    {
        proof {
            assert(all.take(i + 1).drop_last() =~= all.take(i as int));
            assert(all.take(i + 1).last() == origs@[i as int]@);
        }
        if let Some(after) = dc.store.get(origs[i].id) {
            if !after.same(&origs[i]) {
                let c: Command = Command::ModifyAnnotation {
                    before: origs[i].clone(),
                    after: after.clone(),
                };
                proof {
                    assert(commands(r@.push(c)) =~= commands(r@).push(c.view()));
                }
                r.push(c);
            }
        }
        i += 1;
    }
    proof {
        assert(all.take(i as int) =~= all);
    }
    r
}

fn release_creating(dc: &mut DocState, page: usize, start: PdfPoint, current: PdfPoint)
    requires
        old(dc).ok(),
        long_enough(old(dc)@.tool, start, current) ==> old(dc)@.store.next < u64::MAX,
        old(dc)@ == settled(old(dc)@),
    ensures
        final(dc)@ == creating_released(old(dc)@, page, start, current),
        final(dc).ok(),
{
    let rect: PdfRect = PdfRect::from_points(start, current);
    let far: bool = match dc.tool {
        ActiveTool::Line | ActiveTool::Arrow => {
            let dx: i128 = current.x as i128 - start.x as i128;
            let dy: i128 = current.y as i128 - start.y as i128;
            proof {
                assert(0 <= dx * dx <= 0x1_0000_0000_0000_0000) by (nonlinear_arith)
                    requires
                        -0x1_0000_0000 <= dx <= 0x1_0000_0000,
                ;
                assert(0 <= dy * dy <= 0x1_0000_0000_0000_0000) by (nonlinear_arith)
                    requires
                        -0x1_0000_0000 <= dy <= 0x1_0000_0000,
                ;
            }
            dx * dx + dy * dy > 9_000_000
        },
        _ => rect.width() > 3000 && rect.height() > 3000,
    };
    if !far {
        return;
    }
    let kind: AnnotationKind = match dc.tool {
        ActiveTool::Highlight => AnnotationKind::Highlight,
        ActiveTool::Rect => AnnotationKind::Rect,
        ActiveTool::Ellipse => AnnotationKind::Ellipse,
        ActiveTool::Cloud => AnnotationKind::Polygon {
            points: rect_points(rect),
            cloudy: Some(DEFAULT_CLOUD_INTENSITY),
        },
        ActiveTool::Line => AnnotationKind::Line { p1: start, p2: current, arrow_end: false },
        ActiveTool::Arrow => AnnotationKind::Line { p1: start, p2: current, arrow_end: true },
        _ => {
            let _spent: AnnotationId = dc.store.alloc_id();
            return;
        },
    };
    let style: Style = match dc.tool {
        ActiveTool::Highlight => Style {
            stroke: Color::transparent(),
            stroke_width: 0,
            fill: Color::rgb(250, 220, 50),
            opacity: 450,
        },
        _ => dc.current_style,
    };
    let id: AnnotationId = dc.store.next_id;
    add_new(dc, Annotation { id, page, kind, rect, style, group: None });
}

fn release_drawing(dc: &mut DocState, page: usize, points: Vec<PdfPoint>)
    requires
        old(dc).ok(),
        old(dc)@ == settled(old(dc)@),
    ensures
        final(dc)@ == drawing_released(old(dc)@, page, points@),
        final(dc).ok(),
{
    let kept: Vec<PdfPoint> = simplify(&points, STROKE_TOLERANCE);
    if kept.len() < 2 {
        return;
    }
    let rect: PdfRect = bounding_rect(&kept);
    let id: AnnotationId = dc.store.next_id;
    let style: Style = dc.current_style;
    add_new(
        dc,
        Annotation {
            id,
            page,
            kind: AnnotationKind::Freehand { points: kept },
            rect,
            style,
            group: None,
        },
    );
}

fn release_marquee(
    dc: &mut DocState,
    p: &PointerInfo,
    page: usize,
    start: PdfPoint,
    current: PdfPoint,
)
    requires
        old(dc).ok(),
        old(dc)@ == settled(old(dc)@),
    ensures
        final(dc)@ == marquee_released(old(dc)@, *p, page, start, current),
        final(dc).ok(),
{
    let rect: PdfRect = PdfRect::from_points(start, current);
    if rect.width() < 1000 && rect.height() < 1000 {
        return;
    }
    let mut ids: Vec<AnnotationId> = Vec::new();
    let ghost items = dc@.store.items;
    let mut i: usize = 0;
    proof {
        assert(items.take(0) =~= Seq::empty());
    }
    while i < dc.store.items.len()
        invariant
            i <= dc.store.items@.len(),
            dc.ok(),
            dc@ == old(dc)@,
            items == dc@.store.items,
            ids@ == touched(items, items.take(i as int), page, rect),
        decreases dc.store.items@.len() - i,
    {
        proof {
            assert(items.take(i + 1).drop_last() =~= items.take(i as int));
            assert(items.take(i + 1).last() == dc.store.items@[i as int]@);
        }
        if dc.store.items[i].page == page && dc.store.items[i].bounds().intersects(rect) {
            let mut group: Vec<AnnotationId> = group_of(&dc.store, dc.store.items[i].id);
            ids.append(&mut group);
        }
        i += 1;
    }
    proof {
        assert(items.take(i as int) =~= items);
    }
    if p.modifiers.shift {
        dc.selection.add_all(&ids);
    } else {
        dc.selection.select_all(&ids);
    }
}

/// Pointer released: finish the gesture and record an undo command.
pub fn on_release(dc: &mut DocState, p: &PointerInfo)
    requires
        old(dc).ok(),
        release_adds(old(dc)@) ==> old(dc)@.store.next < u64::MAX,
    ensures
        final(dc)@ == released(old(dc)@, *p),
        final(dc).ok(),
{
    let mut state: ToolState = ToolState::Idle;
    core::mem::swap(&mut state, &mut dc.tool_ctl.state);
    dc.tool_ctl.clear_guides();
    match state {
        ToolState::Idle => {},
        // Letting go of the pointer does not end a vertex gesture: it ends
        // when the user says so (a double click, or Enter).
        ToolState::Placing { page, points, hover } => {
            dc.tool_ctl.state = ToolState::Placing { page, points, hover };
        },
        ToolState::Creating { page, start, current } => release_creating(dc, page, start, current),
        ToolState::Drawing { page, points } => release_drawing(dc, page, points),
        ToolState::Marquee { page, start, current } => release_marquee(dc, p, page, start, current),
        ToolState::Dragging { origs, moved, .. } => {
            if !moved {
                // A press on something already selected keeps the whole
                // selection, so that a drag moves all of it. Letting go without
                // having moved says the press was a click after all, and a
                // click picks out the one thing under it.
                if !p.modifiers.shift && dc.selection.len() > 1 && origs.len() > 0 {
                    let hit: Vec<AnnotationId> = group_of(&dc.store, origs[0].id);
                    dc.selection.select_all(&hit);
                }
                return;
            }
            // One entry however many moved: a drag is one thing the user did,
            // and one undo has to put all of it back.
            let cs: Vec<Command> = changes_since(dc, origs);
            let _any: bool = record_step(dc, cs);
        },
        ToolState::Resizing { orig, .. } => {
            let origs: Vec<Annotation> = vec![orig];
            proof {
                assert(views(origs@) =~= seq![orig@]);
            }
            let cs: Vec<Command> = changes_since(dc, origs);
            let _any: bool = record_step(dc, cs);
        },
    }
}

/// The document after the pointer moves over `page` with no button down.
pub open spec fn hovered(d: DocV, page: usize, pos: PdfPoint) -> DocV {
    match d.ctl.state {
        StateV::Placing { page: on, points, .. } => if on == page {
            in_state(d, StateV::Placing { page, points, hover: pos })
        } else {
            d
        },
        _ => d,
    }
}

/// The pointer moved over a page with no button down.
///
/// Only the vertex tools care: the segment from the last placed vertex to the
/// cursor is what tells the user where the next click will land.
pub fn on_hover(dc: &mut DocState, page: usize, pos: PdfPoint)
    requires
        old(dc).ok(),
    ensures
        final(dc)@ == hovered(old(dc)@, page, pos),
        final(dc).ok(),
{
    let mut state: ToolState = ToolState::Idle;
    core::mem::swap(&mut state, &mut dc.tool_ctl.state);
    dc.tool_ctl.state = match state {
        ToolState::Placing { page: on, points, hover } => ToolState::Placing {
            page: on,
            points,
            hover: if on == page { pos } else { hover },
        },
        other => other,
    };
}

/// Whether two vertices are the same for the one that finishes a shape: within
/// half a point along both axes.
pub open spec fn repeats(a: PdfPoint, b: PdfPoint) -> bool {
    abs(a.x - b.x) < 500 && abs(a.y - b.y) < 500
}

/// `points` without the ones at the end that repeat the one before them: a
/// double click puts the same vertex down twice, and the second one is the
/// instruction to stop, not a corner.
pub open spec fn without_repeats(points: Seq<PdfPoint>) -> Seq<PdfPoint>
    decreases points.len(),
{
    if points.len() >= 2 && repeats(points.last(), points[points.len() - 2]) {
        without_repeats(points.drop_last())
    } else {
        points
    }
}

/// The document after a vertex gesture is finished, and whether it made an
/// annotation.
pub open spec fn placement_finished(d: DocV) -> (DocV, bool) {
    match d.ctl.state {
        StateV::Placing { page, points, .. } => {
            let kept = without_repeats(points);
            let kind = match d.tool {
                ActiveTool::Polygon => if kept.len() >= 3 {
                    Some(KindV::Polygon { points: kept, cloudy: None })
                } else {
                    None
                },
                ActiveTool::PolyLine => if kept.len() >= 2 {
                    Some(KindV::PolyLine { points: kept, arrow_end: false })
                } else {
                    None
                },
                _ => None,
            };
            match kind {
                Some(kind) => (
                    added(
                        settled(d),
                        AnnV {
                            id: d.store.next,
                            page,
                            kind,
                            rect: bounding(kept),
                            style: d.style,
                            group: None,
                        },
                    ),
                    true,
                ),
                None => (settled(d), false),
            }
        },
        _ => (in_state(d, StateV::Idle), false),
    }
}

/// Finish a vertex gesture (double click, or Enter), turning the vertices
/// placed so far into an annotation. Returns whether one was made.
///
/// Too few vertices is not an error to report -- a stray double click on the
/// page is a slip, and the shape is simply abandoned.
pub fn finish_placement(dc: &mut DocState) -> (r: bool)
    requires
        old(dc).ok(),
        placement_finished(old(dc)@).1 ==> old(dc)@.store.next < u64::MAX,
    ensures
        (final(dc)@, r) == placement_finished(old(dc)@),
        final(dc).ok(),
{
    let mut state: ToolState = ToolState::Idle;
    core::mem::swap(&mut state, &mut dc.tool_ctl.state);
    match state {
        ToolState::Placing { page, points, .. } => {
            dc.tool_ctl.clear_guides();
            let mut kept: Vec<PdfPoint> = points;
            let ghost all = kept@;
            loop
                invariant_except_break
                    without_repeats(all) == without_repeats(kept@),
                ensures
                    kept@ == without_repeats(all),
                decreases kept@.len(),
            {
                let n: usize = kept.len();
                if n < 2 {
                    break;
                }
                let dx: i64 = kept[n - 1].x as i64 - kept[n - 2].x as i64;
                let dy: i64 = kept[n - 1].y as i64 - kept[n - 2].y as i64;
                let near: bool = -500 < dx && dx < 500 && -500 < dy && dy < 500;
                if !near {
                    break;
                }
                let _gone: Option<PdfPoint> = kept.pop();
            }
            if kept.len() < dc.tool.least_vertices() {
                return false;
            }
            let rect: PdfRect = bounding_rect(&kept);
            let kind: AnnotationKind = match dc.tool {
                ActiveTool::Polygon => AnnotationKind::Polygon { points: kept, cloudy: None },
                ActiveTool::PolyLine => AnnotationKind::PolyLine { points: kept, arrow_end: false },
                _ => {
                    return false;
                },
            };
            let id: AnnotationId = dc.store.next_id;
            let style: Style = dc.current_style;
            add_new(dc, Annotation { id, page, kind, rect, style, group: None });
            true
        },
        _ => false,
    }
}

/// The document after the gesture in progress is given up: whatever it was
/// moving or reshaping is back as it was.
pub open spec fn cancelled(d: DocV) -> DocV {
    let e = settled(d);
    match d.ctl.state {
        StateV::Dragging { origs, .. } => DocV {
            store: StoreV { items: put_all(d.store.items, origs), next: d.store.next },
            ..e
        },
        StateV::Resizing { orig, .. } => DocV { store: d.store.replaced(orig), ..e },
        _ => e,
    }
}

/// Cancel any in-flight gesture (Esc).
pub fn cancel(dc: &mut DocState)
    requires
        old(dc).ok(),
    ensures
        final(dc)@ == cancelled(old(dc)@),
        final(dc).ok(),
{
    let mut state: ToolState = ToolState::Idle;
    core::mem::swap(&mut state, &mut dc.tool_ctl.state);
    dc.tool_ctl.clear_guides();
    match state {
        ToolState::Dragging { origs, .. } => {
            let ghost start = dc@;
            let ghost all = views(origs@);
            proof {
                assert(all.take(0) =~= Seq::empty());
            }
            let mut i: usize = 0;
            while i < origs.len()
                invariant
                    i <= origs@.len(),
                    dc.ok(),
                    all == views(origs@),
                    dc@ == (DocV {
                        store: (StoreV {
                            items: put_all(start.store.items, all.take(i as int)),
                            next: start.store.next,
                        }),
                        ..start
                    }),
                decreases origs@.len() - i,
            {
                proof {
                    assert(all.take(i + 1).drop_last() =~= all.take(i as int));
                    assert(all.take(i + 1).last() == origs@[i as int]@);
                }
                dc.store.replace(origs[i].clone());
                i += 1;
            }
            proof {
                assert(all.take(i as int) =~= all);
            }
        },
        ToolState::Resizing { orig, .. } => {
            dc.store.replace(orig);
        },
        _ => {},
    }
}

/// The document after a tool is picked up.
pub open spec fn picked_up(d: DocV, tool: ActiveTool) -> DocV {
    let e = if d.tool != tool {
        cancelled(d)
    } else {
        d
    };
    DocV {
        tool,
        ctl: CtlV {
            next: if tool is Sequence {
                number_after(e.store.items, e.ctl.prefix)
            } else {
                e.ctl.next
            },
            ..e.ctl
        },
        ..e
    }
}

/// Switch tools, tidying up after the one being left.
///
/// Half-placed vertices belong to the tool that was placing them, and the
/// sequence counter has to pick up where the document leaves off rather than
/// where this window last got to -- both of which are easy to forget at a call
/// site, so neither is left to one.
pub fn set_tool(dc: &mut DocState, tool: ActiveTool)
    requires
        old(dc).ok(),
    ensures
        final(dc)@ == picked_up(old(dc)@, tool),
        final(dc).ok(),
{
    if dc.tool != tool {
        cancel(dc);
    }
    if tool == ActiveTool::Sequence {
        dc.tool_ctl.sequence.next =
        next_sequence_number(&dc.store, dc.tool_ctl.sequence.prefix.as_str());
    }
    dc.tool = tool;
}

} // verus!
