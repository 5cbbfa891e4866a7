//! Markup annotations: the shapes, their styles, and moving and resizing them.

use vstd::prelude::*;

use crate::doc::geometry::{div_floor, PdfPoint, PdfRect};
use crate::text::{matches_at, stands_at, to_chars};

verus! {

pub type AnnotationId = u64;

pub type GroupId = u64;

#[derive(Clone, Copy, PartialEq, Eq, Structural, Debug)]
pub struct Color {
    pub r: u8,
    pub g: u8,
    pub b: u8,
    pub a: u8,
}

/// The color with these components.
pub open spec fn rgba(r: u8, g: u8, b: u8, a: u8) -> Color {
    Color { r, g, b, a }
}

impl Color {
    pub fn rgb(r: u8, g: u8, b: u8) -> (c: Self)
        ensures
            c == rgba(r, g, b, 255),
    {
        Color { r, g, b, a: 255 }
    }

    pub fn transparent() -> (c: Self)
        ensures
            c == rgba(0, 0, 0, 0),
    {
        Color { r: 0, g: 0, b: 0, a: 0 }
    }
}

/// Stroke width and opacity are in thousandths of a point and of one.
#[derive(Clone, Copy, PartialEq, Eq, Structural, Debug)]
pub struct Style {
    pub stroke: Color,
    pub stroke_width: u32,
    pub fill: Color,
    pub opacity: u32,
}

/// The style a document starts with: two points of red, nothing filled.
pub open spec fn starting_style() -> Style {
    Style {
        stroke: rgba(220, 38, 38, 255),
        stroke_width: 2000,
        fill: rgba(0, 0, 0, 0),
        opacity: 1000,
    }
}

impl Default for Style {
    fn default() -> (r: Self)
        ensures
            r == starting_style(),
    {
        Style {
            stroke: Color::rgb(220, 38, 38),
            stroke_width: 2000,
            fill: Color::transparent(),
            opacity: 1000,
        }
    }
}

#[derive(Clone, Copy, PartialEq, Eq, Structural, Debug)]
pub enum TextAlign {
    Left,
    Center,
    Right,
}

/// What an annotation is. Font sizes and cloud intensities are in thousandths.
#[derive(Debug, PartialEq, Eq)]
pub enum AnnotationKind {
    Highlight,
    Rect,
    Ellipse,
    TextBox { text: String, font_size: u32, align: TextAlign },
    Line { p1: PdfPoint, p2: PdfPoint, arrow_end: bool },
    Freehand { points: Vec<PdfPoint> },
    Polygon { points: Vec<PdfPoint>, cloudy: Option<u32> },
    PolyLine { points: Vec<PdfPoint>, arrow_end: bool },
    Stamp { text: String, font_size: u32 },
    ImageStamp { png: Vec<u8> },
}

/// An annotation's kind as a mathematical value.
#[verifier::ext_equal]
pub enum KindV {
    Highlight,
    Rect,
    Ellipse,
    TextBox { text: Seq<char>, font_size: u32, align: TextAlign },
    Line { p1: PdfPoint, p2: PdfPoint, arrow_end: bool },
    Freehand { points: Seq<PdfPoint> },
    Polygon { points: Seq<PdfPoint>, cloudy: Option<u32> },
    PolyLine { points: Seq<PdfPoint>, arrow_end: bool },
    Stamp { text: Seq<char>, font_size: u32 },
    ImageStamp { png: Seq<u8> },
}

impl View for AnnotationKind {
    type V = KindV;

    open spec fn view(&self) -> KindV {
        match *self {
            AnnotationKind::Highlight => KindV::Highlight,
            AnnotationKind::Rect => KindV::Rect,
            AnnotationKind::Ellipse => KindV::Ellipse,
            AnnotationKind::TextBox { text, font_size, align } => KindV::TextBox {
                text: text@,
                font_size,
                align,
            },
            AnnotationKind::Line { p1, p2, arrow_end } => KindV::Line { p1, p2, arrow_end },
            AnnotationKind::Freehand { points } => KindV::Freehand { points: points@ },
            AnnotationKind::Polygon { points, cloudy } => KindV::Polygon {
                points: points@,
                cloudy,
            },
            AnnotationKind::PolyLine { points, arrow_end } => KindV::PolyLine {
                points: points@,
                arrow_end,
            },
            AnnotationKind::Stamp { text, font_size } => KindV::Stamp { text: text@, font_size },
            AnnotationKind::ImageStamp { png } => KindV::ImageStamp { png: png@ },
        }
    }
}

pub fn copy_points(v: &Vec<PdfPoint>) -> (r: Vec<PdfPoint>)
    ensures
        r@ == v@,
{
    let mut r: Vec<PdfPoint> = Vec::new();
    let mut i: usize = 0;
    while i < v.len()
        invariant
            i <= v@.len(),
            r@ == v@.take(i as int),
        decreases v@.len() - i,
    {
        r.push(v[i]);
        proof {
            assert(v@.take(i + 1) =~= v@.take(i as int).push(v@[i as int]));
        }
        i += 1;
    }
    proof {
        assert(v@.take(i as int) =~= v@);
    }
    r
}

pub fn copy_bytes(v: &Vec<u8>) -> (r: Vec<u8>)
    ensures
        r@ == v@,
{
    let mut r: Vec<u8> = Vec::new();
    let mut i: usize = 0;
    while i < v.len()
        invariant
            i <= v@.len(),
            r@ == v@.take(i as int),
        decreases v@.len() - i,
    {
        r.push(v[i]);
        proof {
            assert(v@.take(i + 1) =~= v@.take(i as int).push(v@[i as int]));
        }
        i += 1;
    }
    proof {
        assert(v@.take(i as int) =~= v@);
    }
    r
}

fn same_points(a: &Vec<PdfPoint>, b: &Vec<PdfPoint>) -> (r: bool)
    ensures
        r == (a@ == b@),
{
    if a.len() != b.len() {
        return false;
    }
    let mut i: usize = 0;
    while i < a.len()
        invariant
            i <= a@.len() == b@.len(),
            forall|j: int| 0 <= j < i ==> a@[j] == b@[j],
        decreases a@.len() - i,
    {
        if a[i] != b[i] {
            return false;
        }
        i += 1;
    }
    proof {
        assert(a@ =~= b@);
    }
    true
}

fn same_bytes(a: &Vec<u8>, b: &Vec<u8>) -> (r: bool)
    ensures
        r == (a@ == b@),
{
    if a.len() != b.len() {
        return false;
    }
    let mut i: usize = 0;
    while i < a.len()
        invariant
            i <= a@.len() == b@.len(),
            forall|j: int| 0 <= j < i ==> a@[j] == b@[j],
        decreases a@.len() - i,
    {
        if a[i] != b[i] {
            return false;
        }
        i += 1;
    }
    proof {
        assert(a@ =~= b@);
    }
    true
}

impl Clone for AnnotationKind {
    fn clone(&self) -> (r: Self)
        ensures
            r@ == self@,
    {
        match self {
            AnnotationKind::Highlight => AnnotationKind::Highlight,
            AnnotationKind::Rect => AnnotationKind::Rect,
            AnnotationKind::Ellipse => AnnotationKind::Ellipse,
            AnnotationKind::TextBox { text, font_size, align } => AnnotationKind::TextBox {
                text: text.clone(),
                font_size: *font_size,
                align: *align,
            },
            AnnotationKind::Line { p1, p2, arrow_end } => AnnotationKind::Line {
                p1: *p1,
                p2: *p2,
                arrow_end: *arrow_end,
            },
            AnnotationKind::Freehand { points } => AnnotationKind::Freehand {
                points: copy_points(points),
            },
            AnnotationKind::Polygon { points, cloudy } => AnnotationKind::Polygon {
                points: copy_points(points),
                cloudy: *cloudy,
            },
            AnnotationKind::PolyLine { points, arrow_end } => AnnotationKind::PolyLine {
                points: copy_points(points),
                arrow_end: *arrow_end,
            },
            AnnotationKind::Stamp { text, font_size } => AnnotationKind::Stamp {
                text: text.clone(),
                font_size: *font_size,
            },
            AnnotationKind::ImageStamp { png } => AnnotationKind::ImageStamp {
                png: copy_bytes(png),
            },
        }
    }
}

impl AnnotationKind {
    /// Whether the two kinds are the same, words, points and bytes alike.
    pub fn same(&self, other: &AnnotationKind) -> (r: bool)
        ensures
            r == (self@ == other@),
    {
        match (self, other) {
            (AnnotationKind::Highlight, AnnotationKind::Highlight) => true,
            (AnnotationKind::Rect, AnnotationKind::Rect) => true,
            (AnnotationKind::Ellipse, AnnotationKind::Ellipse) => true,
            (
                AnnotationKind::TextBox { text: t1, font_size: f1, align: a1 },
                AnnotationKind::TextBox { text: t2, font_size: f2, align: a2 },
            ) => *t1 == *t2 && *f1 == *f2 && *a1 == *a2,
            (
                AnnotationKind::Line { p1: a1, p2: b1, arrow_end: e1 },
                AnnotationKind::Line { p1: a2, p2: b2, arrow_end: e2 },
            ) => *a1 == *a2 && *b1 == *b2 && *e1 == *e2,
            (
                AnnotationKind::Freehand { points: a },
                AnnotationKind::Freehand { points: b },
            ) => same_points(a, b),
            (
                AnnotationKind::Polygon { points: a, cloudy: c1 },
                AnnotationKind::Polygon { points: b, cloudy: c2 },
            ) => same_points(a, b) && (match (*c1, *c2) {
                (None, None) => true,
                (Some(x), Some(y)) => x == y,
                _ => false,
            }),
            (
                AnnotationKind::PolyLine { points: a, arrow_end: e1 },
                AnnotationKind::PolyLine { points: b, arrow_end: e2 },
            ) => same_points(a, b) && *e1 == *e2,
            (
                AnnotationKind::Stamp { text: t1, font_size: f1 },
                AnnotationKind::Stamp { text: t2, font_size: f2 },
            ) => *t1 == *t2 && *f1 == *f2,
            (
                AnnotationKind::ImageStamp { png: a },
                AnnotationKind::ImageStamp { png: b },
            ) => same_bytes(a, b),
            _ => false,
        }
    }

    /// Whether a corner drag keeps this kind's proportions without being asked.
    pub fn keeps_aspect(&self) -> (r: bool)
        ensures
            r == (self@ is ImageStamp),
    {
        matches!(self, AnnotationKind::ImageStamp { .. })
    }
}

/// One piece of markup on one page (by the page's index in the source).
#[derive(Debug, PartialEq, Eq)]
pub struct Annotation {
    pub id: AnnotationId,
    pub page: usize,
    pub kind: AnnotationKind,
    pub rect: PdfRect,
    pub style: Style,
    pub group: Option<GroupId>,
}

/// An annotation as a mathematical value.
#[verifier::ext_equal]
pub struct AnnV {
    pub id: AnnotationId,
    pub page: usize,
    pub kind: KindV,
    pub rect: PdfRect,
    pub style: Style,
    pub group: Option<GroupId>,
}

impl View for Annotation {
    type V = AnnV;

    open spec fn view(&self) -> AnnV {
        AnnV {
            id: self.id,
            page: self.page,
            kind: self.kind@,
            rect: self.rect,
            style: self.style,
            group: self.group,
        }
    }
}

impl Clone for Annotation {
    fn clone(&self) -> (r: Self)
        ensures
            r@ == self@,
    {
        Annotation {
            id: self.id,
            page: self.page,
            kind: self.kind.clone(),
            rect: self.rect,
            style: self.style,
            group: self.group,
        }
    }
}

/// Every point moved by `(dx, dy)`.
pub open spec fn points_plus(s: Seq<PdfPoint>, dx: int, dy: int) -> Seq<PdfPoint> {
    s.map_values(|p: PdfPoint| p.plus(dx, dy))
}

/// `k` with every point it has moved by `(dx, dy)`.
pub open spec fn kind_plus(k: KindV, dx: int, dy: int) -> KindV {
    match k {
        KindV::Line { p1, p2, arrow_end } => KindV::Line {
            p1: p1.plus(dx, dy),
            p2: p2.plus(dx, dy),
            arrow_end,
        },
        KindV::Freehand { points } => KindV::Freehand { points: points_plus(points, dx, dy) },
        KindV::Polygon { points, cloudy } => KindV::Polygon {
            points: points_plus(points, dx, dy),
            cloudy,
        },
        KindV::PolyLine { points, arrow_end } => KindV::PolyLine {
            points: points_plus(points, dx, dy),
            arrow_end,
        },
        k => k,
    }
}

/// Where `v` goes along one axis when the span `from..from_to` becomes
/// `to..to_to`.
pub open spec fn stretched(v: int, from: int, from_to: int, to: int, to_to: int) -> int {
    if from_to > from {
        to + (v - from) * (to_to - to) / (from_to - from)
    } else {
        to + (v - from)
    }
}

/// Where `p` goes when the box `from` becomes the box `to`.
pub open spec fn carried(p: PdfPoint, from: PdfRect, to: PdfRect) -> PdfPoint {
    crate::doc::geometry::point(
        stretched(
            p.x as int,
            from.min.x as int,
            from.max.x as int,
            to.min.x as int,
            to.max.x as int,
        ),
        stretched(
            p.y as int,
            from.min.y as int,
            from.max.y as int,
            to.min.y as int,
            to.max.y as int,
        ),
    )
}

/// `k` with every point carried along as the box `from` becomes the box `to`.
pub open spec fn kind_carried(k: KindV, from: PdfRect, to: PdfRect) -> KindV {
    match k {
        KindV::Line { p1, p2, arrow_end } => KindV::Line {
            p1: carried(p1, from, to),
            p2: carried(p2, from, to),
            arrow_end,
        },
        KindV::Freehand { points } => KindV::Freehand {
            points: points.map_values(|p: PdfPoint| carried(p, from, to)),
        },
        KindV::Polygon { points, cloudy } => KindV::Polygon {
            points: points.map_values(|p: PdfPoint| carried(p, from, to)),
            cloudy,
        },
        KindV::PolyLine { points, arrow_end } => KindV::PolyLine {
            points: points.map_values(|p: PdfPoint| carried(p, from, to)),
            arrow_end,
        },
        k => k,
    }
}

fn stretch(v: i32, from: i32, from_to: i32, to: i32, to_to: i32) -> (r: i128)
    ensures
        r == stretched(v as int, from as int, from_to as int, to as int, to_to as int),
{
    let off: i128 = v as i128 - from as i128;
    if from_to > from {
        let a: i128 = to_to as i128 - to as i128;
        let b: i128 = from_to as i128 - from as i128;
        proof {
            assert(-0x1_0000_0000_0000_0000 <= off * a <= 0x1_0000_0000_0000_0000)
                by (nonlinear_arith)
                requires
                    -0x1_0000_0000 <= off <= 0x1_0000_0000,
                    -0x1_0000_0000 <= a <= 0x1_0000_0000,
            ;
            assert(-0x1_0000_0000_0000_0000 <= (off * a) / (b as int) <= 0x1_0000_0000_0000_0000)
                by (nonlinear_arith)
                requires
                    -0x1_0000_0000_0000_0000 <= off * a <= 0x1_0000_0000_0000_0000,
                    b > 0,
            ;
        }
        to as i128 + div_floor(off * a, b)
    } else {
        to as i128 + off
    }
}

fn carry(p: PdfPoint, from: PdfRect, to: PdfRect) -> (r: PdfPoint)
    ensures
        r == carried(p, from, to),
{
    PdfPoint::at(
        stretch(p.x, from.min.x, from.max.x, to.min.x, to.max.x),
        stretch(p.y, from.min.y, from.max.y, to.min.y, to.max.y),
    )
}

fn carry_points(v: &Vec<PdfPoint>, from: PdfRect, to: PdfRect) -> (r: Vec<PdfPoint>)
    ensures
        r@ == v@.map_values(|p: PdfPoint| carried(p, from, to)),
{
    let mut r: Vec<PdfPoint> = Vec::new();
    let mut i: usize = 0;
    while i < v.len()
        invariant
            i <= v@.len(),
            r@.len() == i,
            forall|j: int| 0 <= j < i ==> r@[j] == carried(v@[j], from, to),
        decreases v@.len() - i,
    {
        r.push(carry(v[i], from, to));
        i += 1;
    }
    proof {
        assert(r@ =~= v@.map_values(|p: PdfPoint| carried(p, from, to)));
    }
    r
}

fn move_points(v: &Vec<PdfPoint>, dx: i64, dy: i64) -> (r: Vec<PdfPoint>)
    ensures
        r@ == points_plus(v@, dx as int, dy as int),
{
    let mut r: Vec<PdfPoint> = Vec::new();
    let mut i: usize = 0;
    while i < v.len()
        invariant
            i <= v@.len(),
            r@.len() == i,
            forall|j: int| 0 <= j < i ==> r@[j] == v@[j].plus(dx as int, dy as int),
        decreases v@.len() - i,
    {
        r.push(v[i].moved(dx, dy));
        i += 1;
    }
    proof {
        assert(r@ =~= points_plus(v@, dx as int, dy as int));
    }
    r
}

/// `a` moved by `(dx, dy)`.
pub open spec fn ann_plus(a: AnnV, dx: int, dy: int) -> AnnV {
    AnnV { rect: a.rect.plus(dx, dy), kind: kind_plus(a.kind, dx, dy), ..a }
}

/// `a` with `rect` as its new bounds, its points carried along.
pub open spec fn ann_bounded(a: AnnV, rect: PdfRect) -> AnnV {
    AnnV { rect, kind: kind_carried(a.kind, a.rect, rect), ..a }
}

impl Annotation {
    /// Whether the two annotations are the same in every respect.
    pub fn same(&self, other: &Annotation) -> (r: bool)
        ensures
            r == (self@ == other@),
    {
        self.id == other.id && self.page == other.page && self.kind.same(&other.kind) && self.rect
            == other.rect && self.style == other.style && (match (self.group, other.group) {
            (None, None) => true,
            (Some(x), Some(y)) => x == y,
            _ => false,
        })
    }

    /// The box this annotation takes up on the page.
    pub fn bounds(&self) -> (r: PdfRect)
        ensures
            r == self.rect,
    {
        self.rect
    }

    /// Move by `(dx, dy)`.
    pub fn translate(&mut self, dx: i64, dy: i64)
        ensures
            final(self)@ == ann_plus(old(self)@, dx as int, dy as int),
    {
        let kind: AnnotationKind = match &self.kind {
            AnnotationKind::Line { p1, p2, arrow_end } => AnnotationKind::Line {
                p1: p1.moved(dx, dy),
                p2: p2.moved(dx, dy),
                arrow_end: *arrow_end,
            },
            AnnotationKind::Freehand { points } => AnnotationKind::Freehand {
                points: move_points(points, dx, dy),
            },
            AnnotationKind::Polygon { points, cloudy } => AnnotationKind::Polygon {
                points: move_points(points, dx, dy),
                cloudy: *cloudy,
            },
            AnnotationKind::PolyLine { points, arrow_end } => AnnotationKind::PolyLine {
                points: move_points(points, dx, dy),
                arrow_end: *arrow_end,
            },
            other => other.clone(),
        };
        self.rect = self.rect.translated(dx, dy);
        self.kind = kind;
    }

    /// Give it `rect` as its bounds, carrying its points along.
    pub fn set_bounds(&mut self, rect: PdfRect)
        ensures
            final(self)@ == ann_bounded(old(self)@, rect),
    {
        let from: PdfRect = self.rect;
        let kind: AnnotationKind = match &self.kind {
            AnnotationKind::Line { p1, p2, arrow_end } => AnnotationKind::Line {
                p1: carry(*p1, from, rect),
                p2: carry(*p2, from, rect),
                arrow_end: *arrow_end,
            },
            AnnotationKind::Freehand { points } => AnnotationKind::Freehand {
                points: carry_points(points, from, rect),
            },
            AnnotationKind::Polygon { points, cloudy } => AnnotationKind::Polygon {
                points: carry_points(points, from, rect),
                cloudy: *cloudy,
            },
            AnnotationKind::PolyLine { points, arrow_end } => AnnotationKind::PolyLine {
                points: carry_points(points, from, rect),
                arrow_end: *arrow_end,
            },
            other => other.clone(),
        };
        self.rect = rect;
        self.kind = kind;
    }
}

// ---------------------------------------------------------------------------
// Stamps
// ---------------------------------------------------------------------------

/// The token that stands at `at` of `s`, with what it is filled in with.
pub open spec fn token_at(
    s: Seq<char>,
    at: int,
    date: Seq<char>,
    user: Seq<char>,
    filename: Seq<char>,
) -> Option<(nat, Seq<char>)> {
    if stands_at(s, "%date"@, at) {
        Some(("%date"@.len(), date))
    } else if stands_at(s, "%user"@, at) {
        Some(("%user"@.len(), user))
    } else if stands_at(s, "%filename"@, at) {
        Some(("%filename"@.len(), filename))
    } else {
        None
    }
}

/// `s` from `at` on, with each token replaced by what it stands for.
pub open spec fn expanded(
    s: Seq<char>,
    at: int,
    date: Seq<char>,
    user: Seq<char>,
    filename: Seq<char>,
) -> Seq<char>
    decreases s.len() - at,
{
    if at < 0 || at >= s.len() {
        Seq::empty()
    } else {
        match token_at(s, at, date, user, filename) {
            Some((n, with)) => if n > 0 {
                with + expanded(s, at + n, date, user, filename)
            } else {
                Seq::empty()
            },
            None => seq![s[at]] + expanded(s, at + 1, date, user, filename),
        }
    }
}

/// What a stamp that was typed as `text` says when it is placed.
pub open spec fn stamp_words(
    text: Seq<char>,
    date: Seq<char>,
    user: Seq<char>,
    filename: Seq<char>,
) -> Seq<char> {
    expanded(text, 0, date, user, filename)
}

/// Spend the tokens `%date`, `%user` and `%filename` in a stamp's text.
pub fn expand_stamp_tokens(text: &str, date: &str, user: &str, filename: &str) -> (r: String)
    ensures
        r@ == stamp_words(text@, date@, user@, filename@),
{
    let v: Vec<char> = to_chars(text);
    let n: usize = v.len();
    let date_token: Vec<char> = to_chars("%date");
    let user_token: Vec<char> = to_chars("%user");
    let file_token: Vec<char> = to_chars("%filename");
    proof {
        reveal_strlit("%date");
        reveal_strlit("%user");
        reveal_strlit("%filename");
    }
    let mut r: String = String::new();
    let mut at: usize = 0;
    while at < n
        invariant
            v@ == text@,
            n == v@.len(),
            date_token@ == "%date"@,
            user_token@ == "%user"@,
            file_token@ == "%filename"@,
            date_token@.len() == 5,
            user_token@.len() == 5,
            file_token@.len() == 9,
            at <= n,
            stamp_words(text@, date@, user@, filename@) == r@ + expanded(
                text@,
                at as int,
                date@,
                user@,
                filename@,
            ),
        decreases n - at,
    {
        let ghost before = r@;
        let step: usize;
        if matches_at(&v, &date_token, at) {
            r.append(date);
            step = date_token.len();
        } else if matches_at(&v, &user_token, at) {
            r.append(user);
            step = user_token.len();
        } else if matches_at(&v, &file_token, at) {
            r.append(filename);
            step = file_token.len();
        } else {
            r.push(v[at]);
            step = 1;
        }
        proof {
            let rest = expanded(text@, at + step, date@, user@, filename@);
            let all = expanded(text@, at as int, date@, user@, filename@);
            assert(before + all =~= r@ + rest);
        }
        at = at + step;
    }
    proof {
        assert(r@ + Seq::<char>::empty() =~= r@);
    }
    r
}

} // verus!
