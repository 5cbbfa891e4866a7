//! Markup tools and the pointer-interaction state machine. The canvas feeds
//! pointer events here; completed gestures become undoable commands.

pub mod choices;
pub mod constrain;
pub mod drag;
pub mod edit;
pub mod laws;
pub mod outcomes;
pub mod pen;
pub mod press;
pub mod release;
pub mod select;
pub mod snap;

pub use drag::on_drag;
pub use edit::{delete_selection, group_selection, nudge_selection, ungroup_selection};
pub use press::on_press;
pub use release::{cancel, finish_placement, on_hover, on_release, set_tool};

use vstd::prelude::*;

use crate::doc::annotation::{
    rgba, AnnV, Annotation, AnnotationId, AnnotationKind, Color, GroupId, KindV, Style,
};
use crate::doc::geometry::{point, PdfPoint, PdfRect};
use crate::doc::history::{commands, Command, CommandV};
use crate::doc::store::{chosen, lookup, members, place, put, views, AnnotationStore};
use crate::metrics::{line_width, width_of};
use crate::state::{DocState, DocV, SelV};
use crate::text::{
    after, all_digits, digits_value, parse_uint, strip_prefix, to_chars, trim, trimmed,
};
use crate::tools::select::Handle;
use crate::tools::snap::Guide;

verus! {

#[derive(Clone, Copy, PartialEq, Eq, Structural, Debug)]
pub enum ActiveTool {
    Select,
    Pan,
    Highlight,
    Text,
    Rect,
    Ellipse,
    Line,
    Arrow,
    Pen,
    /// Rectangular revision cloud, dragged out like a rectangle.
    Cloud,
    /// Closed outline, one clicked vertex at a time.
    Polygon,
    /// Open chain of segments, one clicked vertex at a time.
    PolyLine,
    /// A word in a box, placed with one click.
    Stamp,
    /// A picture, placed with one click once one has been chosen.
    ImageStamp,
    /// Numbered stamps, counting up as they are placed.
    Sequence,
}

impl ActiveTool {
    /// What the tool is called.
    pub open spec fn name(self) -> Seq<char> {
        match self {
            ActiveTool::Select => "Select"@,
            ActiveTool::Pan => "Pan"@,
            ActiveTool::Highlight => "Highlight"@,
            ActiveTool::Text => "Text"@,
            ActiveTool::Rect => "Rectangle"@,
            ActiveTool::Ellipse => "Ellipse"@,
            ActiveTool::Line => "Line"@,
            ActiveTool::Arrow => "Arrow"@,
            ActiveTool::Pen => "Pen"@,
            ActiveTool::Cloud => "Cloud"@,
            ActiveTool::Polygon => "Polygon"@,
            ActiveTool::PolyLine => "Polyline"@,
            ActiveTool::Stamp => "Stamp"@,
            ActiveTool::ImageStamp => "Image Stamp"@,
            ActiveTool::Sequence => "Sequence"@,
        }
    }

    pub fn label(self) -> (r: &'static str)
        ensures
            r@ == self.name(),
    {
        match self {
            ActiveTool::Select => "Select",
            ActiveTool::Pan => "Pan",
            ActiveTool::Highlight => "Highlight",
            ActiveTool::Text => "Text",
            ActiveTool::Rect => "Rectangle",
            ActiveTool::Ellipse => "Ellipse",
            ActiveTool::Line => "Line",
            ActiveTool::Arrow => "Arrow",
            ActiveTool::Pen => "Pen",
            ActiveTool::Cloud => "Cloud",
            ActiveTool::Polygon => "Polygon",
            ActiveTool::PolyLine => "Polyline",
            ActiveTool::Stamp => "Stamp",
            ActiveTool::ImageStamp => "Image Stamp",
            ActiveTool::Sequence => "Sequence",
        }
    }

    /// Tools that drag a shape out from corner to corner.
    pub open spec fn drags(self) -> bool {
        self is Highlight || self is Rect || self is Ellipse || self is Line || self is Arrow
            || self is Cloud
    }

    /// Tools that drag a shape out from corner to corner.
    pub fn is_drag_create(self) -> (r: bool)
        ensures
            r == self.drags(),
    {
        matches!(
            self,
            ActiveTool::Highlight
                | ActiveTool::Rect
                | ActiveTool::Ellipse
                | ActiveTool::Line
                | ActiveTool::Arrow
                | ActiveTool::Cloud
        )
    }

    /// Tools built by clicking vertices rather than by dragging a box.
    pub fn places_vertices(self) -> (r: bool)
        ensures
            r == (self is Polygon || self is PolyLine),
    {
        matches!(self, ActiveTool::Polygon | ActiveTool::PolyLine)
    }

    /// How many vertices this tool needs before it has a shape.
    pub fn least_vertices(self) -> (r: usize)
        ensures
            r == (if self is Polygon { 3int } else { 2 }),
    {
        match self {
            ActiveTool::Polygon => 3,
            _ => 2,
        }
    }
}

/// The intensity a cloud is drawn with until somebody changes it, in
/// thousandths.
pub const DEFAULT_CLOUD_INTENSITY: u32 = 1000;

/// How big a stamp's word is until somebody changes it.
pub const DEFAULT_STAMP_FONT: u32 = 20_000;

/// And a sequence number, which is a stamp with a number in it.
pub const DEFAULT_SEQUENCE_FONT: u32 = 12_000;

/// The largest picture a stamp may carry, in bytes of PNG.
///
/// The bytes live in the markup sidecar, which travels to phones and back
/// through an API on every save; a photograph dropped in as a signature would
/// make every one of those trips carry it.
pub const MAX_STAMP_PNG: usize = 2 * 1024 * 1024;

/// The longest side an image stamp is placed at, in points -- half a US Letter
/// page, so a picture at any resolution arrives at a size somebody can see and
/// then drag to what they meant.
pub const MAX_STAMP_SIDE: u32 = 300;

/// The red a stamp arrives in: the one every review set is already covered in.
pub open spec fn stamp_red() -> Color {
    rgba(193, 39, 45, 255)
}

/// What the stamp tool will place next.
#[derive(Debug)]
pub struct StampSettings {
    /// As typed, tokens and all -- they are expanded when the stamp is placed.
    pub text: String,
    pub font_size: u32,
    /// A PNG chosen from disk, waiting for a click to land on.
    pub image: Option<Vec<u8>>,
}

impl Default for StampSettings {
    fn default() -> (r: Self)
        ensures
            r.text@ == "APPROVED"@,
            r.font_size == DEFAULT_STAMP_FONT,
            r.image is None,
    {
        StampSettings { text: "APPROVED".to_owned(), font_size: DEFAULT_STAMP_FONT, image: None }
    }
}

/// Where the sequence tool has got to. Per session, not per document: it is
/// reset from the page every time the tool is picked up, so numbering carries
/// on from what is already on the drawing rather than from what this window
/// happens to remember.
#[derive(Debug)]
pub struct SequenceSettings {
    pub prefix: String,
    pub next: u32,
}

impl Default for SequenceSettings {
    fn default() -> (r: Self)
        ensures
            r.prefix@.len() == 0,
            r.next == 1,
    {
        SequenceSettings { prefix: String::new(), next: 1 }
    }
}

pub enum ToolState {
    Idle,
    /// Drag-creating a shape on `page` (original index).
    Creating { page: usize, start: PdfPoint, current: PdfPoint },
    /// Freehand stroke in progress.
    Drawing { page: usize, points: Vec<PdfPoint> },
    /// Vertices placed so far by the Polygon/PolyLine tools, plus where the
    /// pointer is now so the outline can be drawn as far as the cursor.
    Placing { page: usize, points: Vec<PdfPoint>, hover: PdfPoint },
    /// Moving the selection. `origs` is every selected annotation as it was
    /// when the drag began, the one actually grabbed first: it is the one the
    /// snap guides are computed for, and the rest follow it exactly.
    Dragging { origs: Vec<Annotation>, press: PdfPoint, moved: bool },
    /// Rubber-banding a box over empty space to select what it touches.
    Marquee { page: usize, start: PdfPoint, current: PdfPoint },
    /// Resizing via a handle.
    Resizing { orig: Annotation, handle: Handle },
}

/// A gesture as a mathematical value.
#[verifier::ext_equal]
pub enum StateV {
    Idle,
    Creating { page: usize, start: PdfPoint, current: PdfPoint },
    Drawing { page: usize, points: Seq<PdfPoint> },
    Placing { page: usize, points: Seq<PdfPoint>, hover: PdfPoint },
    Dragging { origs: Seq<AnnV>, press: PdfPoint, moved: bool },
    Marquee { page: usize, start: PdfPoint, current: PdfPoint },
    Resizing { orig: AnnV, handle: Handle },
}

impl View for ToolState {
    type V = StateV;

    open spec fn view(&self) -> StateV {
        match *self {
            ToolState::Idle => StateV::Idle,
            ToolState::Creating { page, start, current } => StateV::Creating {
                page,
                start,
                current,
            },
            ToolState::Drawing { page, points } => StateV::Drawing { page, points: points@ },
            ToolState::Placing { page, points, hover } => StateV::Placing {
                page,
                points: points@,
                hover,
            },
            ToolState::Dragging { origs, press, moved } => StateV::Dragging {
                origs: views(origs@),
                press,
                moved,
            },
            ToolState::Marquee { page, start, current } => StateV::Marquee { page, start, current },
            ToolState::Resizing { orig, handle } => StateV::Resizing { orig: orig@, handle },
        }
    }
}

/// Interaction state + live snap guides, owned by [`DocState`].
pub struct ToolController {
    pub state: ToolState,
    /// Guides to draw this frame, on `guides_page` (original index).
    pub guides: Vec<Guide>,
    pub guides_page: Option<usize>,
    /// Snapshot of a text annotation before inline editing began
    /// (`None` while editing a freshly created one).
    pub editing_before: Option<Annotation>,
    /// Give the inline text editor keyboard focus on its first frame.
    pub editing_focus_pending: bool,
    /// Snapshot for coalescing a numeric-field edit gesture in the inspector.
    pub inspector_before: Option<Annotation>,
    /// What the stamp tool will put down next.
    pub stamp: StampSettings,
    /// Where the sequence tool has counted to.
    pub sequence: SequenceSettings,
}

/// A controller as a mathematical value.
#[verifier::ext_equal]
pub struct CtlV {
    pub state: StateV,
    pub guides: Seq<Guide>,
    pub guides_page: Option<usize>,
    pub editing_before: Option<AnnV>,
    pub focus: bool,
    pub inspector_before: Option<AnnV>,
    pub stamp_text: Seq<char>,
    pub stamp_font: u32,
    pub stamp_image: Option<Seq<u8>>,
    pub prefix: Seq<char>,
    pub next: u32,
}

pub open spec fn snapshot(a: Option<Annotation>) -> Option<AnnV> {
    match a {
        Some(a) => Some(a@),
        None => None,
    }
}

impl View for ToolController {
    type V = CtlV;

    open spec fn view(&self) -> CtlV {
        CtlV {
            state: self.state@,
            guides: self.guides@,
            guides_page: self.guides_page,
            editing_before: snapshot(self.editing_before),
            focus: self.editing_focus_pending,
            inspector_before: snapshot(self.inspector_before),
            stamp_text: self.stamp.text@,
            stamp_font: self.stamp.font_size,
            stamp_image: match self.stamp.image {
                Some(png) => Some(png@),
                None => None,
            },
            prefix: self.sequence.prefix@,
            next: self.sequence.next,
        }
    }
}

/// A controller before anything was done with it.
pub open spec fn starting_ctl() -> CtlV {
    CtlV {
        state: StateV::Idle,
        guides: Seq::empty(),
        guides_page: None,
        editing_before: None,
        focus: false,
        inspector_before: None,
        stamp_text: "APPROVED"@,
        stamp_font: DEFAULT_STAMP_FONT,
        stamp_image: None,
        prefix: Seq::empty(),
        next: 1,
    }
}

impl Default for ToolController {
    fn default() -> (r: Self)
        ensures
            r@ == starting_ctl(),
    {
        ToolController {
            state: ToolState::Idle,
            guides: Vec::new(),
            guides_page: None,
            editing_before: None,
            editing_focus_pending: false,
            inspector_before: None,
            stamp: StampSettings::default(),
            sequence: SequenceSettings::default(),
        }
    }
}

/// The modifier keys held down.
#[derive(Clone, Copy, PartialEq, Eq, Structural, Debug)]
pub struct Modifiers {
    pub shift: bool,
    pub command: bool,
    pub mac_cmd: bool,
}

/// Everything about the pointer the tools need for one event.
#[derive(Clone, Copy, PartialEq, Eq, Structural, Debug)]
pub struct PointerInfo {
    /// Original page index the event applies to (the interaction's page for
    /// drag/release events).
    pub page: usize,
    /// Pointer position in that page's PDF space.
    pub pos: PdfPoint,
    pub modifiers: Modifiers,
    /// Snap tolerance (screen px / zoom); also used for handle and hit
    /// tolerances.
    pub tol: i32,
    /// Page size (displayed orientation, pre-user-rotation).
    pub page_w: i32,
    pub page_h: i32,
}

impl PointerInfo {
    /// Whether this event snaps: holding command switches it off.
    pub open spec fn snaps(self) -> bool {
        !self.modifiers.mac_cmd && !self.modifiers.command
    }
}

impl StateV {
    /// The page a gesture is on.
    pub open spec fn page(self) -> Option<usize> {
        match self {
            StateV::Idle => None,
            StateV::Creating { page, .. } => Some(page),
            StateV::Drawing { page, .. } => Some(page),
            StateV::Placing { page, .. } => Some(page),
            StateV::Marquee { page, .. } => Some(page),
            StateV::Dragging { origs, .. } => if origs.len() > 0 {
                Some(origs[0].page)
            } else {
                None
            },
            StateV::Resizing { orig, .. } => Some(orig.page),
        }
    }
}

impl CtlV {
    pub open spec fn guided(self, page: usize, guides: Seq<Guide>) -> CtlV {
        CtlV { guides, guides_page: Some(page), ..self }
    }

    pub open spec fn unguided(self) -> CtlV {
        CtlV { guides: Seq::empty(), guides_page: None, ..self }
    }
}

impl ToolController {
    pub fn active_page(&self) -> (r: Option<usize>)
        ensures
            r == self@.state.page(),
    {
        match &self.state {
            ToolState::Idle => None,
            ToolState::Creating { page, .. } => Some(*page),
            ToolState::Drawing { page, .. } => Some(*page),
            ToolState::Placing { page, .. } => Some(*page),
            ToolState::Marquee { page, .. } => Some(*page),
            ToolState::Dragging { origs, .. } => {
                if origs.len() > 0 {
                    Some(origs[0].page)
                } else {
                    None
                }
            },
            ToolState::Resizing { orig, .. } => Some(orig.page),
        }
    }

    pub(crate) fn set_guides(&mut self, page: usize, guides: Vec<Guide>)
        ensures
            final(self)@ == old(self)@.guided(page, guides@),
            final(self).state == old(self).state,
    {
        self.guides = guides;
        self.guides_page = Some(page);
    }

    pub(crate) fn clear_guides(&mut self)
        ensures
            final(self)@ == old(self)@.unguided(),
            final(self).state == old(self).state,
    {
        self.guides = Vec::new();
        self.guides_page = None;
    }
}

// ---------------------------------------------------------------------------
// Sequences
// ---------------------------------------------------------------------------

/// The number a `<prefix><digits>` stamp is carrying, if it is carrying one.
pub open spec fn number_on(text: Seq<char>, prefix: Seq<char>) -> Option<nat> {
    match after(trimmed(text), prefix) {
        Some(rest) => if rest.len() > 0 && all_digits(rest) && digits_value(rest) <= u32::MAX {
            Some(digits_value(rest))
        } else {
            None
        },
        None => None,
    }
}

/// The number a `<prefix><digits>` stamp is carrying, if it is carrying one.
pub fn sequence_number(text: &str, prefix: &str) -> (r: Option<u32>)
    ensures
        match r {
            Some(n) => number_on(text@, prefix@) == Some(n as nat),
            None => number_on(text@, prefix@) is None,
        },
{
    let t: String = trim(text);
    match strip_prefix(t.as_str(), prefix) {
        None => None,
        Some(rest) => {
            let v: Vec<char> = to_chars(rest.as_str());
            if v.len() == 0 || v[0] == '+' {
                proof {
                    if v@.len() > 0 {
                        assert(!crate::text::is_digit(rest@[0]));
                    }
                }
                return None;
            }
            match parse_uint(rest.as_str(), u32::MAX as u64) {
                Some(n) => Some(n as u32),
                None => None,
            }
        },
    }
}

/// The highest number that the stamps of `s` carry under this prefix.
pub open spec fn highest_number(s: Seq<AnnV>, prefix: Seq<char>) -> Option<nat>
    decreases s.len(),
{
    if s.len() == 0 {
        None
    } else {
        let below = highest_number(s.drop_last(), prefix);
        let here = match s.last().kind {
            KindV::Stamp { text, .. } => number_on(text, prefix),
            _ => None,
        };
        match (below, here) {
            (Some(b), Some(h)) => if h > b {
                Some(h)
            } else {
                Some(b)
            },
            (None, h) => h,
            (b, None) => b,
        }
    }
}

/// The number to place next.
pub open spec fn number_after(s: Seq<AnnV>, prefix: Seq<char>) -> u32 {
    match highest_number(s, prefix) {
        Some(n) => if n >= u32::MAX {
            u32::MAX
        } else {
            (n + 1) as u32
        },
        None => 1,
    }
}

/// The number the sequence tool should place next, given what is already on
/// the document under this prefix.
pub fn next_sequence_number(store: &AnnotationStore, prefix: &str) -> (r: u32)
    ensures
        r == number_after(store@.items, prefix@),
{
    let mut best: Option<u32> = None;
    let mut i: usize = 0;
    proof {
        assert(store@.items.take(0) =~= Seq::empty());
    }
    while i < store.items.len()
        invariant
            i <= store.items@.len(),
            match best {
                Some(n) => highest_number(store@.items.take(i as int), prefix@) == Some(n as nat),
                None => highest_number(store@.items.take(i as int), prefix@) is None,
            },
        decreases store.items@.len() - i,
    {
        proof {
            let cut = store@.items.take(i + 1);
            assert(cut.drop_last() =~= store@.items.take(i as int));
            assert(cut.last() == store.items@[i as int]@);
        }
        if let AnnotationKind::Stamp { text, .. } = &store.items[i].kind {
            if let Some(n) = sequence_number(text.as_str(), prefix) {
                let higher: bool = match best {
                    Some(b) => n > b,
                    None => true,
                };
                if higher {
                    best = Some(n);
                }
            }
        }
        i += 1;
    }
    proof {
        assert(store@.items.take(i as int) =~= store@.items);
    }
    match best {
        Some(n) => if n == u32::MAX { u32::MAX } else { n + 1 },
        None => 1,
    }
}

// ---------------------------------------------------------------------------
// Stamps
// ---------------------------------------------------------------------------

/// The style a stamp is placed in.
pub open spec fn stamped(opacity: u32) -> Style {
    Style { stroke: stamp_red(), stroke_width: 1500, fill: rgba(0, 0, 0, 0), opacity }
}

fn stamp_style(opacity: u32) -> (r: Style)
    ensures
        r == stamped(opacity),
{
    Style {
        stroke: Color::rgb(193, 39, 45),
        stroke_width: 1500,
        fill: Color::transparent(),
        opacity,
    }
}

/// The box of size `w` by `h` centred on `at`.
pub open spec fn centred(at: PdfPoint, w: int, h: int) -> PdfRect {
    let min = point(at.x - w / 2, at.y - h / 2);
    PdfRect { min, max: min.plus(w, h) }
}

fn centred_on(at: PdfPoint, w: u128, h: u128) -> (r: PdfRect)
    requires
        w <= 0x1_0000_0000_0000_0000_0000_0000_0000,
        h <= 0x1_0000_0000_0000_0000_0000_0000_0000,
    ensures
        r == centred(at, w as int, h as int),
{
    let min: PdfPoint = PdfPoint::at(
        at.x as i128 - (w / 2) as i128,
        at.y as i128 - (h / 2) as i128,
    );
    PdfRect { min, max: PdfPoint::at(min.x as i128 + w as i128, min.y as i128 + h as i128) }
}

/// The box a word of this size needs, centred on where it was clicked; a
/// square one is no narrower than it is tall.
pub open spec fn stamp_box(at: PdfPoint, text: Seq<char>, font: int, square: bool) -> PdfRect {
    let natural = line_width(text, font);
    let height = font * 19 / 10;
    let width = if square {
        crate::doc::geometry::greater(natural + font * 9 / 10, height)
    } else {
        natural + font * 14 / 10
    };
    centred(at, width, height)
}

/// The box a word of this size needs, centred on where it was clicked.
pub fn stamp_rect(at: PdfPoint, text: &str, font_size: u32, square: bool) -> (r: PdfRect)
    ensures
        r == stamp_box(at, text@, font_size as int, square),
{
    let v: Vec<char> = to_chars(text);
    let n: usize = v.len();
    let natural: u128 = width_of(&v, 0, n, font_size);
    proof {
        assert(v@.subrange(0, n as int) =~= text@);
    }
    let font: u128 = font_size as u128;
    let height: u128 = font * 19 / 10;
    let width: u128 = if square {
        let wide: u128 = natural + font * 9 / 10;
        if wide >= height { wide } else { height }
    } else {
        natural + font * 14 / 10
    };
    centred_on(at, width, height)
}

/// What `image::load_from_memory_with_format` makes of a PNG: its width and
/// height in pixels, or nothing where it cannot be decoded.
pub uninterp spec fn png_dimensions(png: Seq<u8>) -> Option<(u32, u32)>;

/// `image::load_from_memory_with_format` for PNG, by the width and height of
/// the picture it decodes. What it answers depends on the bytes alone.
#[verifier::external_body]
pub(crate) fn decoded_size(png: &Vec<u8>) -> (r: Option<(u32, u32)>)
    ensures
        r == png_dimensions(png@),
{
    match image::load_from_memory_with_format(png, image::ImageFormat::Png) {
        Ok(img) => Some((img.width(), img.height())),
        Err(_) => None,
    }
}

/// The box of a picture of `w` by `h` pixels centred on `at`: a point for each
/// pixel, shrunk so that the longer side is at most `MAX_STAMP_SIDE` points.
pub open spec fn picture_box(at: PdfPoint, w: u32, h: u32) -> PdfRect {
    let longest = crate::doc::geometry::greater(w as int, h as int);
    if longest <= MAX_STAMP_SIDE {
        centred(at, w * 1000, h * 1000)
    } else {
        centred(at, MAX_STAMP_SIDE * 1000 * w / longest, MAX_STAMP_SIDE * 1000 * h / longest)
    }
}

/// The box of a picture of `w` by `h` pixels centred on `at`.
pub fn picture_rect(at: PdfPoint, w: u32, h: u32) -> (r: PdfRect)
    ensures
        r == picture_box(at, w, h),
{
    let longest: u32 = if w >= h { w } else { h };
    if longest <= MAX_STAMP_SIDE {
        centred_on(at, w as u128 * 1000, h as u128 * 1000)
    } else {
        let a: u128 = 300_000 * (w as u128) / (longest as u128);
        let b: u128 = 300_000 * (h as u128) / (longest as u128);
        proof {
            let l = longest as int;
            assert(a <= 300_000 * 0x1_0000_0000) by (nonlinear_arith)
                requires
                    a == 300_000 * (w as int) / l,
                    l >= 1,
                    w <= 0xffff_ffff,
            ;
            assert(b <= 300_000 * 0x1_0000_0000) by (nonlinear_arith)
                requires
                    b == 300_000 * (h as int) / l,
                    l >= 1,
                    h <= 0xffff_ffff,
            ;
        }
        centred_on(at, a, b)
    }
}

/// The document with a stamp put on the page, selected and undoable.
pub open spec fn stamp_placed(d: DocV, page: usize, rect: PdfRect, kind: KindV) -> DocV {
    added(d, AnnV { id: d.store.next, page, kind, rect, style: stamped(d.style.opacity), group: None })
}

/// The document with a new annotation in it, selected, and one more thing to
/// undo.
pub open spec fn added(d: DocV, a: AnnV) -> DocV {
    DocV {
        store: d.store.inserted(a),
        history: d.history.recorded(CommandV::Add(a)),
        selection: SelV::one(a.id),
        ..d
    }
}

/// Put a new annotation in, selected and undoable. Its id is the next one.
pub(crate) fn add_new(dc: &mut DocState, ann: Annotation)
    requires
        old(dc).ok(),
    ensures
        final(dc)@ == added(old(dc)@, ann@),
        final(dc).ok(),
{
    dc.selection.select_one(ann.id);
    dc.history.apply(Command::AddAnnotation(ann), &mut dc.store);
}

/// Put a stamp on the page, selected and undoable.
pub(crate) fn place_stamp(dc: &mut DocState, page: usize, rect: PdfRect, kind: AnnotationKind)
    requires
        old(dc).ok(),
        old(dc)@.store.next < u64::MAX,
    ensures
        final(dc)@ == stamp_placed(old(dc)@, page, rect, kind@),
        final(dc).ok(),
{
    let id: AnnotationId = dc.store.next_id;
    let opacity: u32 = dc.current_style.opacity;
    add_new(dc, Annotation { id, page, kind, rect, style: stamp_style(opacity), group: None });
}

/// The four corners of `rect`, counter-clockwise from the bottom left.
pub open spec fn corners(rect: PdfRect) -> Seq<PdfPoint> {
    seq![
        rect.min,
        PdfPoint { x: rect.max.x, y: rect.min.y },
        rect.max,
        PdfPoint { x: rect.min.x, y: rect.max.y },
    ]
}

/// The four corners of `rect`, counter-clockwise from the bottom left.
///
/// Counter-clockwise because that is the winding that decides which side of
/// the outline a cloud's scallops belong on.
pub fn rect_points(rect: PdfRect) -> (r: Vec<PdfPoint>)
    ensures
        r@ == corners(rect),
{
    let r: Vec<PdfPoint> = vec![
        PdfPoint::new(rect.min.x, rect.min.y),
        PdfPoint::new(rect.max.x, rect.min.y),
        PdfPoint::new(rect.max.x, rect.max.y),
        PdfPoint::new(rect.min.x, rect.max.y),
    ];
    proof {
        assert(r@ =~= corners(rect));
    }
    r
}

// ---------------------------------------------------------------------------
// Groups
// ---------------------------------------------------------------------------

/// Everything that would be selected by clicking `id`: the whole group if it
/// is in one, and otherwise just itself.
pub open spec fn group_with(s: Seq<AnnV>, id: AnnotationId) -> Seq<u64> {
    match lookup(s, id) {
        Some(a) => match a.group {
            Some(g) => members(s, g),
            None => seq![id],
        },
        None => seq![id],
    }
}

/// Everything that would be selected by clicking `id`.
pub fn group_of(store: &AnnotationStore, id: AnnotationId) -> (r: Vec<AnnotationId>)
    requires
        store@.ok(),
    ensures
        r@ == group_with(store@.items, id),
{
    let group: Option<GroupId> = match store.get(id) {
        Some(a) => a.group,
        None => None,
    };
    match group {
        Some(g) => store.group_members(g),
        None => {
            let r: Vec<AnnotationId> = vec![id];
            proof {
                assert(r@ =~= seq![id]);
            }
            r
        },
    }
}

} // verus!
