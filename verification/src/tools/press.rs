//! The pointer going down.

use vstd::prelude::*;

use crate::doc::annotation::{
    copy_bytes, copy_points, expand_stamp_tokens, stamp_words, AnnV, Annotation, AnnotationId,
    AnnotationKind, KindV, TextAlign,
};
use crate::doc::geometry::{div_floor, greater, spanning, PdfPoint, PdfRect};
use crate::doc::store::{ascending, chosen, lemma_place, lookup, place, stored, views};
use crate::state::{DocState, DocV, SelV};
use crate::text::{blank, decimal, decimal_of, trim};
use crate::tools::select::{grip, handle_at, hit_test, topmost, Handle};
use crate::tools::{
    decoded_size, group_of, group_with, picture_box, picture_rect, place_stamp, png_dimensions,
    stamp_box, stamp_placed, stamp_rect, ActiveTool, CtlV, PointerInfo, StateV, ToolState,
    DEFAULT_SEQUENCE_FONT,
};

verus! {

/// `d` with another gesture in progress.
pub open spec fn in_state(d: DocV, state: StateV) -> DocV {
    DocV { ctl: CtlV { state, ..d.ctl }, ..d }
}

/// The handle that a press of the select tool takes hold of, and whose. Only
/// when one thing is selected: with four selected, a corner of one of them is
/// not a resize gesture, it is a place somebody is about to drag all four from.
pub open spec fn taken(d: DocV, p: PointerInfo) -> Option<(AnnV, Handle)> {
    match (d.selection.ids.len() == 1, d.selection.primary) {
        (true, Some(id)) => match lookup(d.store.items, id) {
            Some(a) => match grip(a, p.pos, p.tol * 3 / 2) {
                Some(h) => if a.page == p.page {
                    Some((a, h))
                } else {
                    None
                },
                None => None,
            },
            None => None,
        },
        _ => None,
    }
}

/// The selection after a press that lands on `id`: shift takes its group in or
/// out, and a plain press on something not yet selected takes just its group.
pub open spec fn after_hit(d: DocV, shift: bool, id: AnnotationId) -> SelV {
    let hit = group_with(d.store.items, id);
    if shift {
        d.selection.toggled_all(hit)
    } else if d.selection.ids.contains(id) {
        d.selection
    } else {
        SelV::these(hit.to_set())
    }
}

/// `s` with the annotation of this id first, trading places with the one that
/// was.
pub open spec fn led_by(s: Seq<AnnV>, id: AnnotationId) -> Seq<AnnV> {
    if stored(s, id) {
        let at = place(s, id);
        s.update(0, s[at]).update(at, s[0])
    } else {
        s
    }
}

/// A press of the select tool.
pub open spec fn select_pressed(d: DocV, p: PointerInfo) -> DocV {
    match taken(d, p) {
        Some((orig, handle)) => in_state(d, StateV::Resizing { orig, handle }),
        None => match topmost(d.store.items, p.page, p.pos, p.tol as int) {
            None => in_state(
                DocV {
                    selection: if p.modifiers.shift {
                        d.selection
                    } else {
                        SelV::none()
                    },
                    ..d
                },
                StateV::Marquee { page: p.page, start: p.pos, current: p.pos },
            ),
            Some(id) => {
                let selection = after_hit(d, p.modifiers.shift, id);
                let origs = chosen(d.store.items, selection.ids);
                let e = DocV { selection, ..d };
                if origs.len() == 0 {
                    e
                } else {
                    in_state(
                        e,
                        StateV::Dragging { origs: led_by(origs, id), press: p.pos, moved: false },
                    )
                }
            },
        },
    }
}

/// How tall a fresh text box is at this font size.
pub open spec fn text_height(font: int) -> int {
    greater(font * 14 / 10 + 8000, 28_000)
}

/// A press of the text tool: an empty box to type in, and back to selecting.
pub open spec fn text_pressed(d: DocV, p: PointerInfo) -> DocV {
    let id = d.store.next;
    let a = AnnV {
        id,
        page: p.page,
        kind: KindV::TextBox { text: Seq::empty(), font_size: d.font_size, align: TextAlign::Left },
        rect: spanning(p.pos, p.pos.plus(180_000, -text_height(d.font_size as int))),
        style: d.style,
        group: None,
    };
    DocV {
        store: d.store.inserted(a),
        selection: SelV::one(id),
        editing_text: Some(id),
        ctl: CtlV { editing_before: None, focus: true, ..d.ctl },
        tool: ActiveTool::Select,
        ..d
    }
}

/// What a stamp placed now would say.
pub open spec fn stamp_says(d: DocV) -> Seq<char> {
    stamp_words(d.ctl.stamp_text, d.today, d.user, d.title)
}

/// A press of the stamp tool: nothing to say is nothing to stamp.
pub open spec fn stamp_pressed(d: DocV, p: PointerInfo) -> DocV {
    let text = stamp_says(d);
    let font_size = d.ctl.stamp_font;
    if blank(text) {
        d
    } else {
        stamp_placed(
            d,
            p.page,
            stamp_box(p.pos, text, font_size as int, false),
            KindV::Stamp { text, font_size },
        )
    }
}

/// A press of the sequence tool: the next number, and one on.
pub open spec fn sequence_pressed(d: DocV, p: PointerInfo) -> DocV {
    let text = d.ctl.prefix + decimal(d.ctl.next as nat);
    let e = stamp_placed(
        d,
        p.page,
        stamp_box(p.pos, text, DEFAULT_SEQUENCE_FONT as int, true),
        KindV::Stamp { text, font_size: DEFAULT_SEQUENCE_FONT },
    );
    DocV {
        ctl: CtlV {
            next: if d.ctl.next == u32::MAX {
                u32::MAX
            } else {
                (d.ctl.next + 1) as u32
            },
            ..e.ctl
        },
        ..e
    }
}

/// A press of the picture tool, given the size of the picture that was chosen.
pub open spec fn picture_pressed(
    d: DocV,
    p: PointerInfo,
    png: Seq<u8>,
    size: Option<(u32, u32)>,
) -> DocV {
    match size {
        Some((w, h)) => if w > 0 && h > 0 {
            stamp_placed(d, p.page, picture_box(p.pos, w, h), KindV::ImageStamp { png })
        } else {
            d
        },
        None => d,
    }
}

/// A press of a tool that places vertices: one more on this page, or the first
/// of a new shape.
pub open spec fn vertex_pressed(d: DocV, p: PointerInfo) -> DocV {
    let points = match d.ctl.state {
        StateV::Placing { page, points, .. } => if page == p.page {
            points
        } else {
            Seq::empty()
        },
        _ => Seq::empty(),
    };
    in_state(
        DocV { selection: SelV::none(), ..d },
        StateV::Placing { page: p.page, points: points.push(p.pos), hover: p.pos },
    )
}

/// The document after the pointer is pressed.
pub open spec fn pressed(d: DocV, p: PointerInfo) -> DocV {
    match d.tool {
        ActiveTool::Pan => d,
        ActiveTool::Select => select_pressed(d, p),
        ActiveTool::Text => text_pressed(d, p),
        ActiveTool::Pen => in_state(
            d,
            StateV::Drawing { page: p.page, points: seq![p.pos] },
        ),
        ActiveTool::Stamp => stamp_pressed(d, p),
        ActiveTool::Sequence => sequence_pressed(d, p),
        ActiveTool::ImageStamp => match d.ctl.stamp_image {
            Some(png) => picture_pressed(d, p, png, png_dimensions(png)),
            None => d,
        },
        ActiveTool::Polygon | ActiveTool::PolyLine => vertex_pressed(d, p),
        _ => in_state(
            DocV { selection: SelV::none(), ..d },
            StateV::Creating { page: p.page, start: p.pos, current: p.pos },
        ),
    }
}

/// Whether a press now takes a new number for an annotation.
pub open spec fn press_adds(d: DocV) -> bool {
    match d.tool {
        ActiveTool::Text | ActiveTool::Sequence => true,
        ActiveTool::Stamp => !blank(stamp_says(d)),
        ActiveTool::ImageStamp => d.ctl.stamp_image is Some,
        _ => false,
    }
}

/// Ids ascend among those chosen too.
pub proof fn lemma_chosen_ascends(s: Seq<AnnV>, ids: Set<u64>)
    requires
        ascending(s),
    ensures
        ascending(chosen(s, ids)),
        forall|i: int|
            0 <= i < chosen(s, ids).len() ==> stored(s, (#[trigger] chosen(s, ids)[i]).id)
                && lookup(s, chosen(s, ids)[i].id) == Some(chosen(s, ids)[i]) && ids.contains(
                chosen(s, ids)[i].id,
            ),
    decreases s.len(),
{
    if s.len() > 0 {
        let t = s.drop_last();
        assert(ascending(t)) by {
            assert forall|i: int, j: int| 0 <= i < j < t.len() implies (#[trigger] t[i]).id < (
            #[trigger] t[j]).id by {
                assert(s[i].id < s[j].id);
            }
        }
        lemma_chosen_ascends(t, ids);
        let c = chosen(t, ids);
        let r = chosen(s, ids);
        assert forall|i: int| 0 <= i < c.len() implies {
            &&& lookup(s, (#[trigger] c[i]).id) == Some(c[i])
            &&& stored(s, c[i].id)
            &&& c[i].id < s.last().id
        } by {
            let k = place(t, c[i].id);
            assert(0 <= k < t.len() && t[k].id == c[i].id);
            assert(s[k] == t[k]);
            lemma_place(s, k);
            lemma_place(t, k);
            assert(s[k].id < s[s.len() - 1].id);
        }
        lemma_place(s, s.len() - 1);
        assert forall|i: int, j: int| 0 <= i < j < r.len() implies (#[trigger] r[i]).id < (
        #[trigger] r[j]).id by {
            if j < c.len() {
                assert(c[i].id < c[j].id);
            } else {
                assert(c[i].id < s.last().id);
            }
        }
        assert forall|i: int| 0 <= i < r.len() implies stored(s, (#[trigger] r[i]).id) && lookup(
            s,
            r[i].id,
        ) == Some(r[i]) && ids.contains(r[i].id) by {
            if i < c.len() {
                assert(r[i] == c[i]);
            } else {
                assert(r[i] == s.last());
            }
        }
    }
}

/// Bring the annotation of this id to the front, trading places.
fn lead(origs: Vec<Annotation>, id: AnnotationId) -> (r: Vec<Annotation>)
    requires
        ascending(views(origs@)),
    ensures
        views(r@) == led_by(views(origs@), id),
{
    let ghost s = views(origs@);
    let mut v: Vec<Annotation> = origs;
    let mut i: usize = 0;
    while i < v.len()
        invariant
            i <= v@.len(),
            s == views(v@),
            s == views(origs@),
            ascending(s),
            forall|j: int| 0 <= j < i ==> (#[trigger] s[j]).id != id,
        decreases v@.len() - i,
    {
        if v[i].id == id {
            let first: Annotation = v[0].clone();
            let here: Annotation = v[i].clone();
            proof {
                assert(s[i as int].id == id);
                lemma_place(s, i as int);
            }
            v.set(0, here);
            v.set(i, first);
            proof {
                assert(views(v@) =~= s.update(0, s[i as int]).update(i as int, s[0]));
            }
            return v;
        }
        proof {
            assert(s[i as int] == v@[i as int]@);
        }
        i += 1;
    }
    v
}

fn press_select(dc: &mut DocState, p: &PointerInfo)
    requires
        old(dc).ok(),
    ensures
        final(dc)@ == select_pressed(old(dc)@, *p),
        final(dc).ok(),
{
    let tol: i64 = div_floor(p.tol as i128 * 3, 2) as i64;
    let mut held: Option<(Annotation, Handle)> = None;
    if dc.selection.len() == 1 {
        if let Some(ann) = dc.selected_annotation() {
            if ann.page == p.page {
                if let Some(handle) = handle_at(ann, p.pos, tol) {
                    held = Some((ann.clone(), handle));
                }
            }
        }
    }
    if let Some((orig, handle)) = held {
        dc.tool_ctl.state = ToolState::Resizing { orig, handle };
        return;
    }
    match hit_test(&dc.store, p.page, p.pos, p.tol) {
        None => {
            if !p.modifiers.shift {
                dc.selection.clear();
            }
            dc.tool_ctl.state = ToolState::Marquee { page: p.page, start: p.pos, current: p.pos };
        },
        Some(id) => {
            let hit: Vec<AnnotationId> = group_of(&dc.store, id);
            if p.modifiers.shift {
                dc.selection.toggle_all(&hit);
            } else if !dc.selection.contains(id) {
                dc.selection.select_all(&hit);
            }
            let origs: Vec<Annotation> = dc.selected_annotations();
            if origs.len() == 0 {
                return;
            }
            proof {
                lemma_chosen_ascends(dc@.store.items, dc@.selection.ids);
            }
            dc.tool_ctl.state = ToolState::Dragging {
                origs: lead(origs, id),
                press: p.pos,
                moved: false,
            };
        },
    }
}

fn press_text(dc: &mut DocState, p: &PointerInfo)
    requires
        old(dc).ok(),
        old(dc)@.store.next < u64::MAX,
    ensures
        final(dc)@ == text_pressed(old(dc)@, *p),
        final(dc).ok(),
{
    let id: AnnotationId = dc.store.alloc_id();
    let tall: i64 = dc.current_font_size as i64 * 14 / 10 + 8000;
    let h: i64 = if tall >= 28_000 { tall } else { 28_000 };
    let text: String = String::new();
    proof {
        assert(text@ =~= Seq::empty());
    }
    let ann: Annotation = Annotation {
        id,
        page: p.page,
        kind: AnnotationKind::TextBox {
            text,
            font_size: dc.current_font_size,
            align: TextAlign::Left,
        },
        rect: PdfRect::from_points(p.pos, p.pos.moved(180_000, -h)),
        style: dc.current_style,
        group: None,
    };
    dc.store.insert(ann);
    dc.selection.select_one(id);
    dc.editing_text = Some(id);
    dc.tool_ctl.editing_before = None;
    dc.tool_ctl.editing_focus_pending = true;
    dc.tool = ActiveTool::Select;
}

fn press_stamp(dc: &mut DocState, p: &PointerInfo)
    requires
        old(dc).ok(),
        !blank(stamp_says(old(dc)@)) ==> old(dc)@.store.next < u64::MAX,
    ensures
        final(dc)@ == stamp_pressed(old(dc)@, *p),
        final(dc).ok(),
{
    let title: String = dc.title();
    let text: String = expand_stamp_tokens(
        dc.tool_ctl.stamp.text.as_str(),
        dc.today.as_str(),
        dc.user.as_str(),
        title.as_str(),
    );
    if trim(text.as_str()).as_str().is_empty() {
        return;
    }
    let font_size: u32 = dc.tool_ctl.stamp.font_size;
    let rect: PdfRect = stamp_rect(p.pos, text.as_str(), font_size, false);
    place_stamp(dc, p.page, rect, AnnotationKind::Stamp { text, font_size });
}

fn press_sequence(dc: &mut DocState, p: &PointerInfo)
    requires
        old(dc).ok(),
        old(dc)@.store.next < u64::MAX,
    ensures
        final(dc)@ == sequence_pressed(old(dc)@, *p),
        final(dc).ok(),
{
    let next: u32 = dc.tool_ctl.sequence.next;
    let mut text: String = dc.tool_ctl.sequence.prefix.clone();
    text.append(decimal_of(next as u64).as_str());
    let rect: PdfRect = stamp_rect(p.pos, text.as_str(), DEFAULT_SEQUENCE_FONT, true);
    place_stamp(
        dc,
        p.page,
        rect,
        AnnotationKind::Stamp { text, font_size: DEFAULT_SEQUENCE_FONT },
    );
    dc.tool_ctl.sequence.next = if next == u32::MAX { u32::MAX } else { next + 1 };
}

/// Place the chosen picture, given its size in pixels.
pub fn press_picture(dc: &mut DocState, p: &PointerInfo, png: Vec<u8>, size: Option<(u32, u32)>)
    requires
        old(dc).ok(),
        (size matches Some((w, h)) && w > 0 && h > 0) ==> old(dc)@.store.next < u64::MAX,
    ensures
        final(dc)@ == picture_pressed(old(dc)@, *p, png@, size),
        final(dc).ok(),
{
    if let Some((w, h)) = size {
        if w > 0 && h > 0 {
            let rect: PdfRect = picture_rect(p.pos, w, h);
            place_stamp(dc, p.page, rect, AnnotationKind::ImageStamp { png });
        }
    }
}

fn press_vertex(dc: &mut DocState, p: &PointerInfo)
    requires
        old(dc).ok(),
    ensures
        final(dc)@ == vertex_pressed(old(dc)@, *p),
        final(dc).ok(),
{
    dc.selection.clear();
    let mut points: Vec<PdfPoint> = match &dc.tool_ctl.state {
        ToolState::Placing { page, points, .. } => if *page == p.page {
            copy_points(points)
        } else {
            Vec::new()
        },
        _ => Vec::new(),
    };
    points.push(p.pos);
    dc.tool_ctl.state = ToolState::Placing { page: p.page, points, hover: p.pos };
}

/// Pointer pressed on a page with the current tool.
pub fn on_press(dc: &mut DocState, p: &PointerInfo)
    requires
        old(dc).ok(),
        press_adds(old(dc)@) ==> old(dc)@.store.next < u64::MAX,
    ensures
        final(dc)@ == pressed(old(dc)@, *p),
        final(dc).ok(),
{
    match dc.tool {
        ActiveTool::Pan => {},
        ActiveTool::Select => press_select(dc, p),
        ActiveTool::Text => press_text(dc, p),
        ActiveTool::Pen => {
            let points: Vec<PdfPoint> = vec![p.pos];
            proof {
                assert(points@ =~= seq![p.pos]);
            }
            dc.tool_ctl.state = ToolState::Drawing { page: p.page, points };
        },
        ActiveTool::Stamp => press_stamp(dc, p),
        ActiveTool::Sequence => press_sequence(dc, p),
        ActiveTool::ImageStamp => {
            let png: Vec<u8> = match &dc.tool_ctl.stamp.image {
                None => {
                    return;
                },
                Some(png) => copy_bytes(png),
            };
            let size: Option<(u32, u32)> = decoded_size(&png);
            press_picture(dc, p, png, size);
        },
        ActiveTool::Polygon | ActiveTool::PolyLine => press_vertex(dc, p),
        _ => {
            dc.selection.clear();
            dc.tool_ctl.state = ToolState::Creating { page: p.page, start: p.pos, current: p.pos };
        },
    }
}

} // verus!
