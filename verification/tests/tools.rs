//! The editing tools, driven as the pointer drives them. Coordinates are in
//! thousandths of a point.

use evo::doc::annotation::{
    expand_stamp_tokens, Annotation, AnnotationId, AnnotationKind, Color, Style, TextAlign,
};
use evo::doc::geometry::{PdfPoint, PdfRect};
use evo::doc::history::{Command, History};
use evo::doc::store::AnnotationStore;
use evo::render::engine::{Engine, EnginePref};
use evo::state::{DocState, FindMatch, RailSelection, Selection};
use evo::tools::drag::on_drag;
use evo::tools::edit::{delete_selection, group_selection, nudge_selection, ungroup_selection};
use evo::tools::pen::{bounding_rect, simplify};
use evo::tools::press::{on_press, press_picture};
use evo::tools::release::{cancel, finish_placement, on_hover, on_release, set_tool};
use evo::tools::select::{handle_at, hit_test, rect_handles, resize_rect, Handle};
use evo::tools::snap::{snap_rect, Guide, SnapFeatures};
use evo::tools::{
    next_sequence_number, picture_rect, rect_points, sequence_number, stamp_rect, ActiveTool,
    Modifiers, PointerInfo, ToolState, DEFAULT_CLOUD_INTENSITY, DEFAULT_STAMP_FONT,
};

const NONE: Modifiers = Modifiers {
    shift: false,
    command: false,
    mac_cmd: false,
};
const SHIFT: Modifiers = Modifiers {
    shift: true,
    command: false,
    mac_cmd: false,
};
const COMMAND: Modifiers = Modifiers {
    shift: false,
    command: true,
    mac_cmd: false,
};

fn doc_state() -> DocState {
    let mut dc = DocState::new("sample.pdf".to_owned(), EnginePref::Hayro);
    dc.today = "2026-07-04".to_owned();
    dc
}

fn pt(x: i32, y: i32) -> PdfPoint {
    PdfPoint::new(x * 1000, y * 1000)
}

fn at(x: i32, y: i32) -> PointerInfo {
    PointerInfo {
        page: 0,
        pos: pt(x, y),
        modifiers: NONE,
        tol: 4000,
        page_w: 612_000,
        page_h: 792_000,
    }
}

/// One click is one vertex: the click arrives as a press and a release
/// together (that is how the canvas routes it), and neither may end the
/// shape -- only the user saying so does.
fn click(dc: &mut DocState, x: i32, y: i32) {
    let p = at(x, y);
    on_press(dc, &p);
    on_release(dc, &p);
}

fn rect_at(id: AnnotationId, x: i32, y: i32, w: i64, h: i64) -> Annotation {
    Annotation {
        id,
        page: 0,
        kind: AnnotationKind::Rect,
        rect: PdfRect::from_min_size(pt(x, y), w * 1000, h * 1000),
        style: Style::default(),
        group: None,
    }
}

/// Three rectangles in a row on page 0, at x = 100, 200 and 300.
fn three_rects(dc: &mut DocState) -> Vec<AnnotationId> {
    (0..3)
        .map(|i| {
            let id = dc.store.alloc_id();
            dc.store.insert(rect_at(id, 100 + 100 * i, 400, 60, 40));
            id
        })
        .collect()
}

fn shift_at(x: i32, y: i32) -> PointerInfo {
    PointerInfo {
        modifiers: SHIFT,
        ..at(x, y)
    }
}

fn command_at(x: i32, y: i32) -> PointerInfo {
    PointerInfo {
        modifiers: COMMAND,
        ..at(x, y)
    }
}

fn drag(dc: &mut DocState, from: (i32, i32), to: (i32, i32)) {
    on_press(dc, &at(from.0, from.1));
    on_drag(dc, &at(to.0, to.1));
    on_release(dc, &at(to.0, to.1));
}

fn first(dc: &DocState) -> Annotation {
    dc.store.on_page(0).first().expect("an annotation").clone()
}

fn stamped(a: &Annotation) -> &str {
    match &a.kind {
        AnnotationKind::Stamp { text, .. } => text,
        other => panic!("got {other:?}"),
    }
}

/// A box dragged over empty space takes everything it touches, and
/// shift-clicking adds and removes one at a time.
#[test]
fn a_marquee_takes_what_it_touches_and_shift_adds_one_at_a_time() {
    let mut dc = doc_state();
    let ids = three_rects(&mut dc);
    dc.tool = ActiveTool::Select;

    // A box across the first two, started well clear of either.
    drag(&mut dc, (80, 380), (280, 460));
    assert_eq!(dc.selection.len(), 2, "{:?}", dc.selection);
    assert!(dc.selection.contains(ids[0]) && dc.selection.contains(ids[1]));

    // Shift-clicking the third adds it; again takes it away.
    on_press(&mut dc, &shift_at(330, 420));
    on_release(&mut dc, &shift_at(330, 420));
    assert_eq!(dc.selection.len(), 3);
    assert_eq!(dc.selection.primary(), Some(ids[2]), "the last one clicked");
    on_press(&mut dc, &shift_at(330, 420));
    on_release(&mut dc, &shift_at(330, 420));
    assert_eq!(dc.selection.len(), 2);
    assert!(!dc.selection.contains(ids[2]));

    // A plain click on empty space starts again from nothing.
    click(&mut dc, 500, 200);
    assert!(dc.selection.is_empty());

    // And a marquee that touches nothing selects nothing, rather than
    // leaving what was there.
    dc.selection.select_one(ids[0]);
    drag(&mut dc, (500, 200), (560, 260));
    assert!(dc.selection.is_empty());
}

/// Several moved at once is one thing the user did, so it is one press of
/// undo -- and everything moves by the same amount, whichever was grabbed.
#[test]
fn moving_several_at_once_moves_them_together_and_undoes_as_one_step() {
    let mut dc = doc_state();
    let ids = three_rects(&mut dc);
    dc.tool = ActiveTool::Select;
    let before: Vec<Annotation> = ids
        .iter()
        .map(|id| dc.store.get(*id).unwrap().clone())
        .collect();
    dc.selection.select_all(&ids);

    // Grab the middle one and drag; command held so nothing snaps on the way.
    on_press(&mut dc, &command_at(230, 420));
    on_drag(&mut dc, &command_at(250, 450));
    on_release(&mut dc, &command_at(250, 450));

    for (id, was) in ids.iter().zip(&before) {
        let now = dc.store.get(*id).expect("still there");
        assert_eq!(now.rect.min.x - was.rect.min.x, 20_000, "{now:?}");
        assert_eq!(now.rect.min.y - was.rect.min.y, 30_000, "{now:?}");
    }

    assert!(dc.history.undo(&mut dc.store));
    for (id, was) in ids.iter().zip(&before) {
        assert_eq!(dc.store.get(*id), Some(was), "one undo put all three back");
    }
    assert!(!dc.history.can_undo(), "and there was only the one step");
    assert!(dc.history.redo(&mut dc.store));
    assert!(dc.store.get(ids[0]).unwrap().rect.min.x > 100_000, "and back");
}

/// The arrow keys nudge everything selected, and one press is one step
/// back -- the same promise a drag makes.
#[test]
fn nudging_moves_the_whole_selection_in_one_step() {
    let mut dc = doc_state();
    let ids = three_rects(&mut dc);
    dc.selection.select_all(&vec![ids[0], ids[2]]);
    nudge_selection(&mut dc, 1000, -1000);

    assert_eq!(dc.store.get(ids[0]).unwrap().rect.min.x, 101_000);
    assert_eq!(dc.store.get(ids[2]).unwrap().rect.min.y, 399_000);
    assert_eq!(
        dc.store.get(ids[1]).unwrap().rect.min.x,
        200_000,
        "the one that was not selected stayed put"
    );

    assert!(dc.history.undo(&mut dc.store));
    assert_eq!(dc.store.get(ids[0]).unwrap().rect.min.x, 100_000);
    assert_eq!(dc.store.get(ids[2]).unwrap().rect.min.y, 400_000);
    assert!(!dc.history.can_undo(), "one press, one step");
}

/// Deleting a selection is one step too.
#[test]
fn deleting_several_at_once_undoes_as_one_step() {
    let mut dc = doc_state();
    let ids = three_rects(&mut dc);
    dc.selection.select_all(&ids);
    delete_selection(&mut dc);
    assert_eq!(dc.store.on_page(0).len(), 0);
    assert!(dc.selection.is_empty());

    assert!(dc.history.undo(&mut dc.store));
    assert_eq!(dc.store.on_page(0).len(), 3, "all three came back");
    assert!(!dc.history.can_undo());

    // Nothing selected is nothing to delete, and nothing to undo either.
    delete_selection(&mut dc);
    assert!(!dc.history.can_undo());
}

/// A group is a selection somebody made once: clicking any member selects
/// all of them, and what is done to them is done to all of them.
#[test]
fn a_group_is_selected_moved_and_deleted_as_one() {
    let mut dc = doc_state();
    let ids = three_rects(&mut dc);
    dc.tool = ActiveTool::Select;

    // Two of the three, tied together.
    dc.selection.select_all(&vec![ids[0], ids[1]]);
    assert!(group_selection(&mut dc));
    let group = dc.store.get(ids[0]).unwrap().group.expect("a group");
    assert_eq!(dc.store.get(ids[1]).unwrap().group, Some(group));
    assert_eq!(dc.store.get(ids[2]).unwrap().group, None);
    assert!(dc.history.can_undo(), "grouping is undoable");

    // Clicking either of them selects both; the loose one selects itself.
    click(&mut dc, 130, 420);
    assert_eq!(dc.selection.len(), 2);
    assert!(dc.selection.contains(ids[1]), "its partner came with it");
    click(&mut dc, 330, 420);
    assert_eq!(dc.selection.len(), 1);

    // A group moves as one, in one undo step.
    let before = dc.store.get(ids[1]).unwrap().clone();
    click(&mut dc, 230, 420);
    on_press(&mut dc, &command_at(230, 420));
    on_drag(&mut dc, &command_at(230, 470));
    on_release(&mut dc, &command_at(230, 470));
    assert_eq!(dc.store.get(ids[0]).unwrap().rect.min.y, 450_000);
    assert_eq!(dc.store.get(ids[1]).unwrap().rect.min.y, 450_000);
    assert!(dc.history.undo(&mut dc.store));
    assert_eq!(
        dc.store.get(ids[1]),
        Some(&before),
        "both went back at once"
    );

    // Deleting one of them deletes the group, and one undo restores it.
    click(&mut dc, 130, 420);
    delete_selection(&mut dc);
    assert_eq!(dc.store.on_page(0).len(), 1, "only the loose one is left");
    assert!(dc.history.undo(&mut dc.store));
    assert_eq!(dc.store.on_page(0).len(), 3);

    // Untying them puts them back to being clicked one at a time.
    dc.selection.select_all(&vec![ids[0], ids[1]]);
    assert!(ungroup_selection(&mut dc));
    assert_eq!(dc.store.get(ids[0]).unwrap().group, None);
    click(&mut dc, 130, 420);
    assert_eq!(dc.selection.len(), 1);
    assert_eq!(dc.selection.primary(), Some(ids[0]));

    // And undoing the ungroup ties them again -- one step for both.
    assert!(dc.history.undo(&mut dc.store));
    assert_eq!(dc.store.get(ids[0]).unwrap().group, Some(group));
    assert_eq!(dc.store.get(ids[1]).unwrap().group, Some(group));
}

/// One thing on its own is not a group, and a fresh group id has to be one
/// nothing else is already using.
#[test]
fn grouping_needs_two_and_never_reuses_an_id() {
    let mut dc = doc_state();
    let ids = three_rects(&mut dc);
    dc.selection.select_one(ids[0]);
    assert!(!group_selection(&mut dc), "one thing is not a group");
    assert!(!dc.history.can_undo());

    dc.selection.select_all(&vec![ids[0], ids[1]]);
    group_selection(&mut dc);
    let first = dc.store.get(ids[0]).unwrap().group.expect("a group");
    dc.selection.select_one(ids[2]);
    let another = dc.store.alloc_id();
    dc.store.insert(rect_at(another, 400, 400, 10, 10));
    dc.selection.select_all(&vec![ids[2], another]);
    group_selection(&mut dc);
    let second = dc.store.get(ids[2]).unwrap().group.expect("a group");
    assert_ne!(first, second);

    // Ungrouping something that is in no group changes nothing.
    dc.selection.select_one(ids[1]);
    dc.selection.clear();
    assert!(!ungroup_selection(&mut dc));
}

/// The next group made after a store comes back has to clear the ids that came
/// with it.
#[test]
fn the_next_group_id_clears_what_was_restored() {
    let mut dc = doc_state();
    let ids = three_rects(&mut dc);
    dc.selection.select_all(&vec![ids[0], ids[1]]);
    group_selection(&mut dc);

    let store = AnnotationStore::restore(dc.store.to_vec());
    assert_eq!(store.group_members(1).len(), 2);
    assert_eq!(store.next_group_id(), 2);
    assert_eq!(store.to_vec(), dc.store.to_vec());
}

#[test]
fn clicking_out_a_polygon_makes_one_annotation_and_one_undo_step() {
    let mut dc = doc_state();
    dc.tool = ActiveTool::Polygon;
    click(&mut dc, 100, 100);
    click(&mut dc, 200, 100);
    assert!(
        dc.store.on_page(0).is_empty(),
        "nothing exists until the shape is finished"
    );
    assert!(matches!(&dc.tool_ctl.state, ToolState::Placing { points, .. } if points.len() == 2));

    // Two vertices are not a polygon.
    assert!(!finish_placement(&mut dc));
    assert!(dc.store.on_page(0).is_empty());

    dc.tool_ctl.state = ToolState::Idle;
    click(&mut dc, 100, 100);
    click(&mut dc, 200, 100);
    click(&mut dc, 150, 200);
    assert!(finish_placement(&mut dc));

    let made = first(&dc);
    match &made.kind {
        AnnotationKind::Polygon { points, cloudy } => {
            assert_eq!(points.len(), 3);
            assert_eq!(*cloudy, None, "the Polygon tool draws a plain outline");
        }
        other => panic!("got {other:?}"),
    }
    assert_eq!(made.rect.min.x, 100_000);
    assert_eq!(made.rect.max.y, 200_000);
    assert_eq!(dc.selection.primary(), Some(made.id));

    // One undo takes the whole shape back, and redo brings it back whole.
    assert!(dc.history.undo(&mut dc.store));
    assert!(dc.store.get(made.id).is_none());
    assert!(dc.history.redo(&mut dc.store));
    assert_eq!(dc.store.get(made.id), Some(&made));
}

/// A double click puts the same vertex down twice before it says "done";
/// the repeat is the instruction, not a corner.
#[test]
fn finishing_on_a_repeated_vertex_does_not_keep_it() {
    let mut dc = doc_state();
    dc.tool = ActiveTool::PolyLine;
    click(&mut dc, 100, 100);
    click(&mut dc, 200, 150);
    click(&mut dc, 200, 150);
    assert!(finish_placement(&mut dc));
    let made = first(&dc);
    match &made.kind {
        AnnotationKind::PolyLine { points, arrow_end } => {
            assert_eq!(points.len(), 2, "{points:?}");
            assert!(!arrow_end, "the arrowhead is off until asked for");
        }
        other => panic!("got {other:?}"),
    }
}

#[test]
fn escape_abandons_the_vertices_placed_so_far() {
    let mut dc = doc_state();
    dc.tool = ActiveTool::Polygon;
    click(&mut dc, 10, 10);
    click(&mut dc, 90, 10);
    cancel(&mut dc);
    assert!(matches!(dc.tool_ctl.state, ToolState::Idle));
    assert!(dc.store.on_page(0).is_empty());
    assert!(!dc.history.can_undo(), "an abandoned shape is not history");
}

#[test]
fn escape_puts_a_dragged_shape_back() {
    let mut dc = doc_state();
    let ids = three_rects(&mut dc);
    let before = dc.store.to_vec();
    dc.tool = ActiveTool::Select;
    on_press(&mut dc, &command_at(130, 420));
    on_drag(&mut dc, &command_at(330, 600));
    assert_ne!(dc.store.get(ids[0]), Some(&before[0]));
    cancel(&mut dc);
    assert_eq!(dc.store.to_vec(), before);
    assert!(!dc.history.can_undo());
}

/// The Cloud tool is the rectangle drag everybody already knows, and what
/// it leaves behind is a four-cornered cloudy polygon.
#[test]
fn dragging_the_cloud_tool_leaves_a_cloudy_rectangle() {
    let mut dc = doc_state();
    dc.tool = ActiveTool::Cloud;
    drag(&mut dc, (100, 100), (300, 220));

    let made = first(&dc);
    match &made.kind {
        AnnotationKind::Polygon { points, cloudy } => {
            assert_eq!(points.len(), 4);
            assert_eq!(*cloudy, Some(DEFAULT_CLOUD_INTENSITY));
            // Counter-clockwise, which is what puts the scallops outside.
            assert_eq!(points[0], PdfPoint::new(made.rect.min.x, made.rect.min.y));
            assert_eq!(points[1], PdfPoint::new(made.rect.max.x, made.rect.min.y));
            assert_eq!(points[3], PdfPoint::new(made.rect.min.x, made.rect.max.y));
        }
        other => panic!("got {other:?}"),
    }
    assert!(dc.history.can_undo());
}

/// Everything that can be done to one of the new shapes has to be
/// undoable: making it, moving it, dragging a corner, editing it.
#[test]
fn moving_and_reshaping_a_polygon_are_undoable() {
    let mut dc = doc_state();
    dc.tool = ActiveTool::Polygon;
    click(&mut dc, 100, 100);
    click(&mut dc, 200, 100);
    click(&mut dc, 150, 200);
    finish_placement(&mut dc);
    let made = first(&dc);

    // Drag the whole shape with the select tool.
    dc.tool = ActiveTool::Select;
    on_press(&mut dc, &at(150, 100));
    assert!(matches!(dc.tool_ctl.state, ToolState::Dragging { .. }));
    on_drag(&mut dc, &at(160, 130));
    on_release(&mut dc, &at(160, 130));
    let moved = dc.store.get(made.id).expect("still there").clone();
    assert_ne!(moved, made, "the drag moved it");
    let corner = match &moved.kind {
        AnnotationKind::Polygon { points, .. } => points[0],
        other => panic!("got {other:?}"),
    };
    assert!((corner.y - 130_000).abs() < 1000, "{corner:?}");

    // Drag one vertex.
    let here = |dx: i32, dy: i32| PointerInfo {
        pos: PdfPoint::new(corner.x + dx, corner.y + dy),
        ..at(0, 0)
    };
    on_press(&mut dc, &here(0, 0));
    assert!(
        matches!(
            dc.tool_ctl.state,
            ToolState::Resizing {
                handle: Handle::Vertex(0),
                ..
            }
        ),
        "a corner is grabbed by its own handle"
    );
    on_drag(&mut dc, &here(-40_000, -40_000));
    on_release(&mut dc, &here(-40_000, -40_000));
    let reshaped = dc.store.get(made.id).expect("still there").clone();
    assert_ne!(reshaped, moved);
    assert!(reshaped.rect.min.x < moved.rect.min.x, "the box followed");

    // And the whole session unwinds, step by step, back to nothing.
    for expected in [Some(moved), Some(made), None] {
        dc.history.undo(&mut dc.store);
        assert_eq!(dc.store.get(1).cloned(), expected);
    }
    assert!(!dc.history.can_undo());
}

/// A stamp is placed with one click, says what the tool was told to say,
/// and is one undo step -- and the tokens in it are spent at that moment,
/// so what is stored is words rather than instructions.
#[test]
fn stamping_puts_down_one_stamp_with_its_tokens_already_spent() {
    let mut dc = doc_state();
    dc.tool_ctl.stamp.text = "APPROVED %date".into();
    set_tool(&mut dc, ActiveTool::Stamp);
    click(&mut dc, 200, 500);

    let made = first(&dc);
    let AnnotationKind::Stamp { text, font_size } = &made.kind else {
        panic!("got {:?}", made.kind);
    };
    assert!(text.starts_with("APPROVED 20"), "{text}");
    assert!(!text.contains('%'), "{text}");
    assert_eq!(*font_size, DEFAULT_STAMP_FONT);
    assert_eq!(made.style.stroke, Color::rgb(193, 39, 45));
    // Centred on the click, and wide enough for the words.
    let centre = made.rect.center();
    assert!((centre.x - 200_000).abs() < 10, "{centre:?}");
    assert!((centre.y - 500_000).abs() < 10, "{centre:?}");
    assert!(made.rect.width() > made.rect.height(), "{:?}", made.rect);

    assert_eq!(dc.selection.primary(), Some(made.id));
    assert!(dc.history.undo(&mut dc.store));
    assert!(dc.store.get(made.id).is_none(), "one click, one undo");

    // Nothing to say is nothing to stamp.
    dc.tool_ctl.stamp.text = "   ".into();
    click(&mut dc, 300, 500);
    assert!(dc.store.on_page(0).is_empty());
}

#[test]
fn tokens_stand_for_the_date_the_user_and_the_file() {
    assert_eq!(
        expand_stamp_tokens("%user %date %filename", "2026-07-04", "me", "plan.pdf"),
        "me 2026-07-04 plan.pdf"
    );
    assert_eq!(expand_stamp_tokens("100%", "d", "u", "f"), "100%");
}

/// The sequence tool counts up as it goes, and picks up from the document
/// rather than from the window: the numbers on the page are the record.
#[test]
fn the_sequence_tool_counts_up_and_resumes_from_the_page() {
    let mut dc = doc_state();
    set_tool(&mut dc, ActiveTool::Sequence);
    for (i, y) in [700, 650, 600].iter().enumerate() {
        click(&mut dc, 100, *y);
        let placed = dc.store.on_page(0).last().expect("a number").clone();
        assert_eq!(stamped(&placed), (i + 1).to_string());
        // A number is stamped in a box no narrower than it is tall.
        assert!(placed.rect.width() >= placed.rect.height(), "{placed:?}");
    }
    assert_eq!(dc.tool_ctl.sequence.next, 4);

    // Picking the tool up again resumes above what is on the page, not
    // above what this window last did.
    dc.tool_ctl.sequence.next = 99;
    set_tool(&mut dc, ActiveTool::Select);
    set_tool(&mut dc, ActiveTool::Sequence);
    assert_eq!(dc.tool_ctl.sequence.next, 4);

    // A prefix is its own count: "A1" is not a fourth "3".
    dc.tool_ctl.sequence.prefix = "A".into();
    set_tool(&mut dc, ActiveTool::Select);
    set_tool(&mut dc, ActiveTool::Sequence);
    assert_eq!(dc.tool_ctl.sequence.next, 1);
    click(&mut dc, 300, 700);
    assert_eq!(stamped(dc.store.on_page(0).last().unwrap()), "A1");

    // And the numbers a prefix does not own are not counted under it.
    assert_eq!(next_sequence_number(&dc.store, "A"), 2);
    assert_eq!(next_sequence_number(&dc.store, ""), 4);
    assert_eq!(next_sequence_number(&dc.store, "B"), 1);
    assert_eq!(sequence_number("A12", "A"), Some(12));
    assert_eq!(sequence_number("A12", "B"), None);
    assert_eq!(sequence_number("A", "A"), None);
}

/// Deleting the middle of a sequence leaves the count where the highest
/// number is: renumbering behind the user's back would be worse.
#[test]
fn the_sequence_resumes_above_the_highest_number_left() {
    let mut dc = doc_state();
    set_tool(&mut dc, ActiveTool::Sequence);
    click(&mut dc, 100, 700);
    click(&mut dc, 100, 650);
    click(&mut dc, 100, 600);
    let second = dc.store.on_page(0)[1].id;
    dc.store.remove(second);
    assert_eq!(next_sequence_number(&dc.store, ""), 4);
}

fn png_fixture(w: u32, h: u32) -> Vec<u8> {
    let mut out = std::io::Cursor::new(Vec::new());
    image::DynamicImage::ImageRgba8(image::RgbaImage::new(w, h))
        .write_to(&mut out, image::ImageFormat::Png)
        .expect("a picture");
    out.into_inner()
}

/// A picture stamp needs a picture: without one the click does nothing,
/// with one it lands at the picture's own proportions.
#[test]
fn an_image_stamp_lands_only_once_a_picture_has_been_chosen() {
    let mut dc = doc_state();
    set_tool(&mut dc, ActiveTool::ImageStamp);
    click(&mut dc, 200, 400);
    assert!(dc.store.on_page(0).is_empty(), "nothing to place yet");

    dc.tool_ctl.stamp.image = Some(png_fixture(40, 20));
    click(&mut dc, 200, 400);
    let made = first(&dc);
    assert!(matches!(made.kind, AnnotationKind::ImageStamp { .. }));
    assert_eq!(made.rect.width(), 40_000, "{:?}", made.rect);
    assert_eq!(made.rect.height(), 20_000, "{:?}", made.rect);

    // Dragged by a corner it holds those proportions unless shift says not.
    dc.tool = ActiveTool::Select;
    let corner = made.rect.max;
    let by = |dx: i32, dy: i32| PointerInfo {
        pos: PdfPoint::new(corner.x + dx, corner.y + dy),
        ..at(0, 0)
    };
    on_press(&mut dc, &by(0, 0));
    on_drag(&mut dc, &by(40_000, 5000));
    on_release(&mut dc, &by(40_000, 5000));
    let resized = dc.store.get(made.id).expect("still there");
    let ratio = resized.rect.width() as f64 / resized.rect.height() as f64;
    assert!((ratio - 2.0).abs() < 0.05, "{:?}", resized.rect);
}

#[test]
fn a_picture_that_cannot_be_decoded_is_not_stamped() {
    let mut dc = doc_state();
    set_tool(&mut dc, ActiveTool::ImageStamp);
    dc.tool_ctl.stamp.image = Some(b"not a picture".to_vec());
    click(&mut dc, 200, 400);
    assert!(dc.store.on_page(0).is_empty());
    press_picture(&mut dc, &at(200, 400), vec![1, 2, 3], Some((600, 300)));
    // The longer side is brought down to the most a stamp may be.
    let made = first(&dc);
    assert_eq!(made.rect.width(), 300_000);
    assert_eq!(made.rect.height(), 150_000);
    assert_eq!(picture_rect(pt(200, 400), 600, 300), made.rect);
}

/// Changing the cloudiness is an ordinary annotation edit, so the history
/// machinery carries it with no help from the new kinds.
#[test]
fn turning_a_cloud_off_and_on_again_is_undoable() {
    let mut dc = doc_state();
    let id = dc.store.alloc_id();
    let rect = PdfRect::from_points(pt(10, 10), pt(90, 60));
    let ann = Annotation {
        id,
        page: 0,
        kind: AnnotationKind::Polygon {
            points: rect_points(rect),
            cloudy: Some(DEFAULT_CLOUD_INTENSITY),
        },
        rect,
        style: dc.current_style,
        group: None,
    };
    dc.history
        .apply(Command::AddAnnotation(ann.clone()), &mut dc.store);

    let mut plain = ann.clone();
    if let AnnotationKind::Polygon { cloudy, .. } = &mut plain.kind {
        *cloudy = None;
    }
    dc.store.replace(plain.clone());
    dc.history.record(Command::ModifyAnnotation {
        before: ann.clone(),
        after: plain,
    });

    dc.history.undo(&mut dc.store);
    assert_eq!(dc.store.get(id), Some(&ann), "the scallops came back");
}

#[test]
fn what_is_done_after_an_undo_forgets_the_redo() {
    let mut store = AnnotationStore::default();
    let mut history = History::default();
    let one = store.alloc_id();
    history.apply(Command::AddAnnotation(rect_at(one, 0, 0, 10, 10)), &mut store);
    assert!(history.undo(&mut store) && store.is_empty());
    let two = store.alloc_id();
    history.apply(Command::AddAnnotation(rect_at(two, 5, 5, 10, 10)), &mut store);
    assert!(!history.redo(&mut store), "the first is not coming back");
    assert!(history.undo(&mut store) && !history.can_undo());
}

// ---------------------------------------------------------------------------
// Creating by dragging
// ---------------------------------------------------------------------------

#[test]
fn a_rectangle_is_dragged_out_and_shift_makes_it_square() {
    let mut dc = doc_state();
    dc.tool = ActiveTool::Rect;
    on_press(&mut dc, &at(100, 100));
    on_drag(&mut dc, &shift_at(180, 130));
    on_release(&mut dc, &shift_at(180, 130));
    let made = first(&dc);
    assert_eq!(made.kind, AnnotationKind::Rect);
    assert_eq!(made.rect, PdfRect::from_points(pt(100, 100), pt(180, 180)));

    // A line held straight goes along the compass.
    let mut dc = doc_state();
    dc.tool = ActiveTool::Line;
    on_press(&mut dc, &at(100, 100));
    on_drag(&mut dc, &shift_at(200, 105));
    on_release(&mut dc, &shift_at(200, 105));
    match first(&dc).kind {
        AnnotationKind::Line { p1, p2, arrow_end } => {
            assert_eq!(p1, pt(100, 100));
            assert_eq!(p2.y, 100_000);
            assert!((p2.x - 200_125).abs() < 10, "{p2:?}");
            assert!(!arrow_end);
        }
        other => panic!("got {other:?}"),
    }
}

#[test]
fn a_text_box_is_opened_for_typing_where_it_is_clicked() {
    let mut dc = doc_state();
    set_tool(&mut dc, ActiveTool::Text);
    click(&mut dc, 100, 700);
    let made = first(&dc);
    match &made.kind {
        AnnotationKind::TextBox {
            text,
            font_size,
            align,
        } => {
            assert!(text.is_empty());
            assert_eq!(*font_size, 14_000);
            assert_eq!(*align, TextAlign::Left);
        }
        other => panic!("got {other:?}"),
    }
    assert_eq!(dc.editing_text, Some(made.id));
}

#[test]
fn a_stroke_of_the_pen_is_kept_as_the_points_that_matter() {
    let mut dc = doc_state();
    dc.tool = ActiveTool::Pen;
    on_press(&mut dc, &at(100, 100));
    for i in 1..=20 {
        on_drag(&mut dc, &at(100 + i * 5, 100));
    }
    on_release(&mut dc, &at(200, 100));
    match first(&dc).kind {
        AnnotationKind::Freehand { points } => {
            assert_eq!(points, vec![pt(100, 100), pt(200, 100)]);
        }
        other => panic!("got {other:?}"),
    }
}

#[test]
fn hovering_shows_where_the_next_vertex_would_go() {
    let mut dc = doc_state();
    dc.tool = ActiveTool::PolyLine;
    click(&mut dc, 100, 100);
    on_hover(&mut dc, 0, pt(150, 170));
    assert!(matches!(
        &dc.tool_ctl.state,
        ToolState::Placing { hover, .. } if *hover == pt(150, 170)
    ));
    // Another page has nothing to do with it.
    on_hover(&mut dc, 1, pt(1, 1));
    assert!(matches!(
        &dc.tool_ctl.state,
        ToolState::Placing { hover, .. } if *hover == pt(150, 170)
    ));
}

#[test]
fn a_stamp_is_as_wide_as_its_words() {
    let narrow = stamp_rect(pt(100, 100), "iii", 20_000, false);
    let wide = stamp_rect(pt(100, 100), "WWW", 20_000, false);
    assert!(wide.width() > narrow.width());
    assert_eq!(wide.height(), narrow.height());
    let square = stamp_rect(pt(100, 100), "1", 12_000, true);
    assert!(square.width() >= square.height());
}

// ---------------------------------------------------------------------------
// Geometry
// ---------------------------------------------------------------------------

#[test]
fn straight_line_collapses_to_endpoints() {
    let pts: Vec<PdfPoint> = (0..50).map(|i| PdfPoint::new(i * 1000, 10)).collect();
    let out = simplify(&pts, 500);
    assert_eq!(out.len(), 2);
    assert_eq!(out, vec![pts[0], pts[49]]);
    let bent = vec![pt(0, 0), pt(10, 10), pt(20, 0)];
    assert_eq!(simplify(&bent, 500), bent);
    assert_eq!(
        bounding_rect(&bent),
        PdfRect::from_points(pt(0, 0), pt(20, 10))
    );
}

/// What is left out is never further than the tolerance from what is kept.
#[test]
fn a_wobble_within_the_tolerance_goes_and_one_beyond_it_stays() {
    let wobble = |dy: i32| vec![pt(0, 0), PdfPoint::new(5000, dy), pt(10, 0), pt(20, 0)];
    assert_eq!(simplify(&wobble(500), 500), vec![pt(0, 0), pt(20, 0)]);
    let kept = simplify(&wobble(501), 500);
    assert!(kept.contains(&PdfPoint::new(5000, 501)), "{kept:?}");
}

#[test]
fn resize_se_corner() {
    let orig = PdfRect::from_points(pt(0, 0), pt(100, 50));
    let out = resize_rect(orig, Handle::Se, pt(120, -10), false);
    assert_eq!(out.max.x, 120_000);
    assert_eq!(out.min.y, -10_000);
    assert_eq!(out.max.y, 50_000);
}

#[test]
fn aspect_lock_preserves_ratio() {
    let orig = PdfRect::from_points(pt(0, 0), pt(100, 50));
    let out = resize_rect(orig, Handle::Se, pt(200, 0), true);
    let ratio = out.width() as f64 / out.height() as f64;
    assert!((ratio - 2.0).abs() < 1e-3, "ratio was {ratio}");
}

#[test]
fn hit_test_prefers_topmost() {
    let mut store = AnnotationStore::default();
    for id in [1, 2] {
        store.insert(rect_at(id, 0, 0, 50, 50));
    }
    assert_eq!(hit_test(&store, 0, pt(25, 25), 2000), Some(2));
    assert_eq!(hit_test(&store, 1, pt(25, 25), 2000), None);
    assert_eq!(hit_test(&store, 0, pt(53, 25), 2000), None);
    assert_eq!(hit_test(&store, 0, pt(51, 25), 2000), Some(2));
}

#[test]
fn a_shape_is_grabbed_by_its_corners() {
    let shape = rect_at(1, 0, 0, 100, 50);
    assert_eq!(handle_at(&shape, pt(101, -1), 4000), Some(Handle::Se));
    assert_eq!(handle_at(&shape, pt(50, 50), 4000), Some(Handle::N));
    assert_eq!(handle_at(&shape, pt(50, 25), 4000), None);
    assert_eq!(rect_handles().len(), 8);
    for h in rect_handles() {
        assert_eq!(handle_at(&shape, h.anchor(shape.rect), 0), Some(h));
    }
}

#[test]
fn snaps_center_to_page_center() {
    // Page 100x100; rect centered at (48, 50) should snap dx=+2 to center.
    let rect = PdfRect::from_points(pt(38, 40), pt(58, 60));
    let result = snap_rect(rect, SnapFeatures::all(), 100_000, 100_000, &Vec::new(), 3000);
    assert_eq!(result.correction.dx, 2000);
    assert!(result.guides.contains(&Guide::Vertical(50_000)));
}

#[test]
fn out_of_tolerance_does_not_snap() {
    let rect = PdfRect::from_points(pt(10, 10), pt(20, 20));
    let result = snap_rect(rect, SnapFeatures::all(), 100_000, 100_000, &Vec::new(), 1000);
    assert_eq!(result.guides.len(), 0);
}

// ---------------------------------------------------------------------------
// What is selected
// ---------------------------------------------------------------------------

#[test]
fn toggling_twice_changes_nothing() {
    let mut s = Selection::default();
    s.select_all(&vec![3, 1]);
    assert_eq!(s.iter(), vec![1, 3]);
    assert_eq!(s.primary(), Some(3));
    s.toggle(2);
    assert_eq!(s.primary(), Some(2));
    s.toggle(2);
    assert_eq!(s.iter(), vec![1, 3]);
    s.toggle_all(&vec![1, 3]);
    assert!(s.is_empty());
    s.add_all(&vec![5, 4]);
    assert_eq!(s.len(), 2);
}

#[test]
fn the_rail_selects_one_a_range_or_some() {
    let mut rail = RailSelection::default();
    rail.click(2, false, false);
    assert_eq!(rail.selected.iter().copied().collect::<Vec<_>>(), [2]);
    rail.click(5, true, false);
    assert_eq!(
        rail.selected.iter().copied().collect::<Vec<_>>(),
        [2, 3, 4, 5]
    );
    rail.click(3, false, true);
    assert_eq!(rail.selected.iter().copied().collect::<Vec<_>>(), [2, 4, 5]);
    rail.clear();
    assert!(rail.selected.is_empty());
}

#[test]
fn a_new_document_keeps_the_session_but_not_the_pixels() {
    let mut dc = doc_state();
    let ids = three_rects(&mut dc);
    dc.cache.insert(0, 1000, 1, 10, 10);
    assert!(dc.set_engine_pref(EnginePref::Pdfium));
    assert!(!dc.set_engine_pref(EnginePref::Pdfium), "nothing changed");
    dc.engine = Some(Engine::Hayro);
    dc.current_style.stroke_width = 5000;
    dc.editing_text = Some(ids[0]);
    dc.rail.click(1, false, false);
    dc.find.open = true;
    dc.find.query = "boiler".to_owned();
    dc.find.active = 2;
    dc.find.matches = vec![FindMatch {
        source_page: 3,
        line: 1,
        start: 0,
        end: 6,
        rect: PdfRect::from_points(pt(0, 0), pt(9, 9)),
    }];
    let next = DocState::adopt("merged.pdf".to_owned(), dc);
    assert_eq!(next.store.on_page(0).len(), ids.len());
    assert_eq!(next.cache.texture_count(), 0);
    assert_eq!(next.title(), "merged.pdf");
    assert_eq!(next.today, "2026-07-04");
    assert_eq!(next.current_style.stroke_width, 5000);
    assert_eq!(next.editing_text, None);
    assert!(next.rail.selected.is_empty() && next.rail.anchor.is_none());
    assert!(next.find.open && next.find.dirty, "the matches are looked for again");
    assert_eq!((next.find.query.as_str(), next.find.active), ("boiler", 2));
    assert_eq!(next.find.matches.len(), 1);
    assert_eq!(next.find.matches[0].source_page, 3);
}

#[test]
fn a_document_starts_with_nothing_done() {
    let dc = DocState::new("sample.pdf".to_owned(), EnginePref::Hayro);
    assert_eq!(dc.current_style, Style::default());
    assert_eq!(dc.current_style.stroke_width, 2000);
    assert_eq!(dc.current_font_size, 14_000);
    assert!(dc.today.is_empty() && dc.user.is_empty());
    assert_eq!(dc.rail.anchor, None);
    assert!(!dc.find.open && !dc.find.dirty && dc.find.matches.is_empty());
    assert_eq!(dc.tool_ctl.stamp.text, "APPROVED");
    assert_eq!(dc.tool_ctl.sequence.next, 1);
}

#[test]
fn simplifying_twice_changes_nothing() {
    let wave: Vec<PdfPoint> = (0..60)
        .map(|i| PdfPoint::new(i * 700, ((i * 37) % 23 - 11) * 400))
        .collect();
    let once = simplify(&wave, 1500);
    assert!(2 < once.len() && once.len() < wave.len());
    assert_eq!(simplify(&once, 1500), once);
}

#[test]
fn distances_are_measured_as_far_as_points_go() {
    let far = i32::MAX;
    let line = vec![
        PdfPoint::new(-far, -far),
        PdfPoint::new(0, 400),
        PdfPoint::new(far, far),
    ];
    assert_eq!(simplify(&line, 500).len(), 2, "it lies within the tolerance");
    let bent = vec![
        PdfPoint::new(-far, -far),
        PdfPoint::new(-far, far),
        PdfPoint::new(far, far),
    ];
    assert_eq!(simplify(&bent, far), bent);
}

#[test]
fn a_gesture_leaves_the_rest_of_the_document_alone() {
    let mut dc = doc_state();
    dc.page_clipboard = vec![3, 1];
    dc.library_id = Some("abc".to_owned());
    dc.force_modified = true;
    dc.tool = ActiveTool::Rect;
    on_press(&mut dc, &at(10, 10));
    on_drag(&mut dc, &at(60, 60));
    on_release(&mut dc, &at(60, 60));
    assert_eq!(dc.store.items.len(), 1);
    assert_eq!(dc.page_clipboard, [3, 1]);
    assert_eq!(dc.library_id.as_deref(), Some("abc"));
    assert!(dc.force_modified);
}
