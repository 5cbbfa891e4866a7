//! Snapping: aligns dragged and resized geometry to the page center, page
//! edges, and other annotations, and reports guide lines to draw.

use vstd::prelude::*;

use crate::doc::geometry::{abs, middle, PdfPoint, PdfRect};

verus! {

/// A guide line across the page.
#[derive(Clone, Copy, PartialEq, Eq, Structural, Debug)]
pub enum Guide {
    /// x = value
    Vertical(i32),
    /// y = value
    Horizontal(i32),
}

#[derive(Clone, Copy, Debug)]
pub struct SnapCorrection {
    pub dx: i64,
    pub dy: i64,
}

pub struct SnapResult {
    pub correction: SnapCorrection,
    pub guides: Vec<Guide>,
}

/// Which x/y features of the moving rect participate in snapping. A full drag
/// snaps edges and center; an edge resize snaps only the moving edge.
#[derive(Clone, Copy, PartialEq, Eq, Structural, Debug)]
pub struct SnapFeatures {
    pub left: bool,
    pub right: bool,
    pub center_x: bool,
    pub top: bool,
    pub bottom: bool,
    pub center_y: bool,
}

impl SnapFeatures {
    /// Every feature takes part.
    pub open spec fn every() -> SnapFeatures {
        SnapFeatures {
            left: true,
            right: true,
            center_x: true,
            top: true,
            bottom: true,
            center_y: true,
        }
    }

    /// Every feature takes part.
    pub fn all() -> (r: Self)
        ensures
            r == SnapFeatures::every(),
    {
        SnapFeatures {
            left: true,
            right: true,
            center_x: true,
            top: true,
            bottom: true,
            center_y: true,
        }
    }

    /// A single point, taken by its left and bottom.
    pub open spec fn a_point() -> SnapFeatures {
        SnapFeatures {
            left: true,
            right: false,
            center_x: false,
            top: false,
            bottom: true,
            center_y: false,
        }
    }

    /// A single point, taken by its left and bottom.
    pub fn point() -> (r: Self)
        ensures
            r == SnapFeatures::a_point(),
    {
        SnapFeatures {
            left: true,
            right: false,
            center_x: false,
            top: false,
            bottom: true,
            center_y: false,
        }
    }
}

/// The vertical lines to align with: the page's edges and center, then those
/// of each other annotation.
pub open spec fn x_lines(page_w: i32, others: Seq<PdfRect>) -> Seq<i32>
    decreases others.len(),
{
    if others.len() == 0 {
        seq![0i32, middle(0, page_w as int) as i32, page_w]
    } else {
        let o = others.last();
        x_lines(page_w, others.drop_last()) + seq![o.min.x, o.middle_point().x, o.max.x]
    }
}

/// The horizontal lines to align with.
pub open spec fn y_lines(page_h: i32, others: Seq<PdfRect>) -> Seq<i32>
    decreases others.len(),
{
    if others.len() == 0 {
        seq![0i32, middle(0, page_h as int) as i32, page_h]
    } else {
        let o = others.last();
        y_lines(page_h, others.drop_last()) + seq![o.min.y, o.middle_point().y, o.max.y]
    }
}

/// The better of `best` and the first of the lines nearest to `value` within
/// `tol`: how far to move, and the line moved to.
pub open spec fn nearest(
    best: Option<(int, int)>,
    value: int,
    lines: Seq<i32>,
    tol: int,
) -> Option<(int, int)>
    decreases lines.len(),
{
    if lines.len() == 0 {
        best
    } else {
        let b = nearest(best, value, lines.drop_last(), tol);
        let c = lines.last() as int;
        if abs(c - value) <= tol && (b matches Some(k) ==> abs(c - value) < abs(k.0)) {
            Some((c - value, c))
        } else {
            b
        }
    }
}

pub open spec fn nearest_if(
    on: bool,
    best: Option<(int, int)>,
    value: int,
    lines: Seq<i32>,
    tol: int,
) -> Option<(int, int)> {
    if on {
        nearest(best, value, lines, tol)
    } else {
        best
    }
}

/// How far to move `rect` sideways, and the line it then aligns with.
pub open spec fn snap_x(
    rect: PdfRect,
    f: SnapFeatures,
    page_w: i32,
    others: Seq<PdfRect>,
    tol: int,
) -> Option<(int, int)> {
    let lines = x_lines(page_w, others);
    let a = nearest_if(f.left, None, rect.min.x as int, lines, tol);
    let b = nearest_if(f.right, a, rect.max.x as int, lines, tol);
    nearest_if(f.center_x, b, rect.middle_point().x as int, lines, tol)
}

/// How far to move `rect` up, and the line it then aligns with.
pub open spec fn snap_y(
    rect: PdfRect,
    f: SnapFeatures,
    page_h: i32,
    others: Seq<PdfRect>,
    tol: int,
) -> Option<(int, int)> {
    let lines = y_lines(page_h, others);
    let a = nearest_if(f.bottom, None, rect.min.y as int, lines, tol);
    let b = nearest_if(f.top, a, rect.max.y as int, lines, tol);
    nearest_if(f.center_y, b, rect.middle_point().y as int, lines, tol)
}

/// The distance to move.
pub open spec fn shift_of(best: Option<(int, int)>) -> int {
    match best {
        Some(k) => k.0,
        None => 0,
    }
}

/// The guides to draw.
pub open spec fn guides_of(x: Option<(int, int)>, y: Option<(int, int)>) -> Seq<Guide> {
    (match x {
        Some(k) => seq![Guide::Vertical(k.1 as i32)],
        None => Seq::empty(),
    }) + (match y {
        Some(k) => seq![Guide::Horizontal(k.1 as i32)],
        None => Seq::empty(),
    })
}

/// What snapping promises of one axis: where anything takes part that lies
/// within `tol` of a line, the move is to a line, no longer than `tol`, and no
/// longer than any other that was possible; where nothing does, there is none.
pub proof fn law_nearest_line(best: Option<(int, int)>, value: int, lines: Seq<i32>, tol: int)
    ensures
        match nearest(best, value, lines, tol) {
            Some(k) => {
                &&& best == Some(k) || (k.0 == k.1 - value && abs(k.0) <= tol && exists|i: int|
                    0 <= i < lines.len() && (#[trigger] lines[i]) == k.1)
                &&& forall|i: int|
                    0 <= i < lines.len() && abs((#[trigger] lines[i]) - value) <= tol ==> abs(k.0)
                        <= abs(lines[i] - value)
                &&& best matches Some(b) ==> abs(k.0) <= abs(b.0)
            },
            None => best is None && forall|i: int|
                0 <= i < lines.len() ==> abs((#[trigger] lines[i]) - value) > tol,
        },
    decreases lines.len(),
{
    if lines.len() > 0 {
        let t = lines.drop_last();
        law_nearest_line(best, value, t, tol);
        let b = nearest(best, value, t, tol);
        let r = nearest(best, value, lines, tol);
        let n = lines.len() - 1;
        assert(lines[n] == lines.last());
        assert forall|i: int| 0 <= i < lines.len() && i < n implies t[i] == lines[i] by {}
        match r {
            Some(k) => {
                assert forall|i: int|
                    0 <= i < lines.len() && abs((#[trigger] lines[i]) - value)
                        <= tol implies abs(k.0) <= abs(lines[i] - value) by {
                    if i < n {
                        assert(t[i] == lines[i]);
                    }
                }
                if best != Some(k) {
                    if r == b {
                        let i = choose|i: int| 0 <= i < t.len() && (#[trigger] t[i]) == k.1;
                        assert(lines[i] == k.1);
                    } else {
                        assert(lines[n] == k.1);
                    }
                }
            },
            None => {
                assert forall|i: int| 0 <= i < lines.len() implies abs(
                    (#[trigger] lines[i]) - value,
                ) > tol by {
                    if i < n {
                        assert(t[i] == lines[i]);
                    }
                }
            },
        }
    }
}

/// A correction never moves anything further than the tolerance.
pub proof fn law_snap_within_tolerance(
    rect: PdfRect,
    f: SnapFeatures,
    page_w: i32,
    page_h: i32,
    others: Seq<PdfRect>,
    tol: int,
)
    requires
        tol >= 0,
    ensures
        abs(shift_of(snap_x(rect, f, page_w, others, tol))) <= tol,
        abs(shift_of(snap_y(rect, f, page_h, others, tol))) <= tol,
{
    let xs = x_lines(page_w, others);
    let a = nearest_if(f.left, None, rect.min.x as int, xs, tol);
    law_nearest_line(None, rect.min.x as int, xs, tol);
    let b = nearest_if(f.right, a, rect.max.x as int, xs, tol);
    law_nearest_line(a, rect.max.x as int, xs, tol);
    law_nearest_line(b, rect.middle_point().x as int, xs, tol);
    let ys = y_lines(page_h, others);
    let c = nearest_if(f.bottom, None, rect.min.y as int, ys, tol);
    law_nearest_line(None, rect.min.y as int, ys, tol);
    let d = nearest_if(f.top, c, rect.max.y as int, ys, tol);
    law_nearest_line(c, rect.max.y as int, ys, tol);
    law_nearest_line(d, rect.middle_point().y as int, ys, tol);
}

/// Where the lines of each other annotation are among the lines to align with.
proof fn lemma_x_lines(page_w: i32, others: Seq<PdfRect>)
    ensures
        x_lines(page_w, others).len() == 3 + 3 * others.len(),
        x_lines(page_w, others)[0] == 0,
        x_lines(page_w, others)[1] == page_w as int / 2,
        x_lines(page_w, others)[2] == page_w,
        forall|i: int|
            #![trigger others[i]]
            0 <= i < others.len() ==> {
                &&& x_lines(page_w, others)[3 + 3 * i] == others[i].min.x
                &&& x_lines(page_w, others)[4 + 3 * i] == (others[i].min.x + others[i].max.x) / 2
                &&& x_lines(page_w, others)[5 + 3 * i] == others[i].max.x
            },
    decreases others.len(),
{
    if others.len() > 0 {
        let t = others.drop_last();
        lemma_x_lines(page_w, t);
        assert forall|i: int| #![trigger others[i]] 0 <= i < others.len() implies {
            &&& x_lines(page_w, others)[3 + 3 * i] == others[i].min.x
            &&& x_lines(page_w, others)[4 + 3 * i] == (others[i].min.x + others[i].max.x) / 2
            &&& x_lines(page_w, others)[5 + 3 * i] == others[i].max.x
        } by {
            if i < t.len() {
                assert(t[i] == others[i]);
            }
        }
    }
}

proof fn lemma_y_lines(page_h: i32, others: Seq<PdfRect>)
    ensures
        y_lines(page_h, others).len() == 3 + 3 * others.len(),
        y_lines(page_h, others)[0] == 0,
        y_lines(page_h, others)[1] == page_h as int / 2,
        y_lines(page_h, others)[2] == page_h,
        forall|i: int|
            #![trigger others[i]]
            0 <= i < others.len() ==> {
                &&& y_lines(page_h, others)[3 + 3 * i] == others[i].min.y
                &&& y_lines(page_h, others)[4 + 3 * i] == (others[i].min.y + others[i].max.y) / 2
                &&& y_lines(page_h, others)[5 + 3 * i] == others[i].max.y
            },
    decreases others.len(),
{
    if others.len() > 0 {
        let t = others.drop_last();
        lemma_y_lines(page_h, t);
        assert forall|i: int| #![trigger others[i]] 0 <= i < others.len() implies {
            &&& y_lines(page_h, others)[3 + 3 * i] == others[i].min.y
            &&& y_lines(page_h, others)[4 + 3 * i] == (others[i].min.y + others[i].max.y) / 2
            &&& y_lines(page_h, others)[5 + 3 * i] == others[i].max.y
        } by {
            if i < t.len() {
                assert(t[i] == others[i]);
            }
        }
    }
}

/// Three values that may take part, looked at one after the other.
spec fn nearest_of(
    on: (bool, bool, bool),
    v: (int, int, int),
    lines: Seq<i32>,
    tol: int,
) -> Option<(int, int)> {
    let a = nearest_if(on.0, None, v.0, lines, tol);
    let b = nearest_if(on.1, a, v.1, lines, tol);
    nearest_if(on.2, b, v.2, lines, tol)
}

proof fn lemma_nearest_of(
    on: (bool, bool, bool),
    v: (int, int, int),
    lines: Seq<i32>,
    tol: int,
)
    ensures
        forall|j: int|
            #![trigger lines[j]]
            0 <= j < lines.len() ==> {
                let r = nearest_of(on, v, lines, tol);
                &&& on.0 ==> drawn_to(r, v.0, lines[j] as int, tol)
                &&& on.1 ==> drawn_to(r, v.1, lines[j] as int, tol)
                &&& on.2 ==> drawn_to(r, v.2, lines[j] as int, tol)
            },
        nearest_of(on, v, lines, tol) matches Some(k) ==> {
            &&& -tol <= k.0 <= tol
            &&& (on.0 && v.0 + k.0 == k.1) || (on.1 && v.1 + k.0 == k.1) || (on.2 && v.2 + k.0
                == k.1)
            &&& exists|j: int| 0 <= j < lines.len() && (#[trigger] lines[j]) == k.1
        },
{
    let a = nearest_if(on.0, None, v.0, lines, tol);
    let b = nearest_if(on.1, a, v.1, lines, tol);
    law_nearest_line(None, v.0, lines, tol);
    law_nearest_line(a, v.1, lines, tol);
    law_nearest_line(b, v.2, lines, tol);
}

/// Whether a value that takes part is taken, where it lies within `tol` of a
/// line, to that line or to one no further away.
pub open spec fn drawn_to(best: Option<(int, int)>, value: int, line: int, tol: int) -> bool {
    -tol <= line - value <= tol ==> (best matches Some(k) && -abs(line - value) <= k.0 <= abs(
        line - value,
    ))
}

/// Whether a rectangle moved sideways by `dx` has an edge or its middle, one
/// that takes part, at `line`.
pub open spec fn stands_at_x(rect: PdfRect, f: SnapFeatures, dx: int, line: int) -> bool {
    ||| f.left && rect.min.x + dx == line
    ||| f.right && rect.max.x + dx == line
    ||| f.center_x && (rect.min.x + rect.max.x) / 2 + dx == line
}

/// Whether a rectangle moved up by `dy` has an edge or its middle, one that
/// takes part, at `line`.
pub open spec fn stands_at_y(rect: PdfRect, f: SnapFeatures, dy: int, line: int) -> bool {
    ||| f.bottom && rect.min.y + dy == line
    ||| f.top && rect.max.y + dy == line
    ||| f.center_y && (rect.min.y + rect.max.y) / 2 + dy == line
}

/// Sideways, a rectangle that comes within the tolerance of an edge or the
/// middle of another annotation is moved to a line, and no further than to that
/// one. Nothing that comes near is passed over.
pub proof fn law_snaps_sideways_to_others(
    rect: PdfRect,
    f: SnapFeatures,
    page_w: i32,
    others: Seq<PdfRect>,
    tol: int,
    i: int,
    value: int,
    line: int,
)
    requires
        0 <= i < others.len(),
        (f.left && value == rect.min.x) || (f.right && value == rect.max.x) || (f.center_x && value
            == (rect.min.x + rect.max.x) / 2),
        line == others[i].min.x || line == others[i].max.x || line == (others[i].min.x
            + others[i].max.x) / 2,
        -tol <= line - value <= tol,
    ensures
        ({
            let x = snap_x(rect, f, page_w, others, tol);
            let dx = shift_of(x);
            &&& x is Some
            &&& dx * dx <= (line - value) * (line - value)
            &&& forall|y: Option<(int, int)>|
                (#[trigger] guides_of(x, y)).len() > 0 && (guides_of(x, y)[0] matches Guide::Vertical(
                    at,
                ) && stands_at_x(rect, f, dx, at as int))
        }),
{
    let lines = x_lines(page_w, others);
    lemma_x_lines(page_w, others);
    let o = others[i];
    let v = (rect.min.x as int, rect.max.x as int, (rect.min.x + rect.max.x) / 2);
    lemma_nearest_of((f.left, f.right, f.center_x), v, lines, tol);
    let j = if line == o.min.x {
        3 + 3 * i
    } else if line == o.max.x {
        5 + 3 * i
    } else {
        4 + 3 * i
    };
    assert(lines[j] == line);
    lemma_shorter(shift_of(snap_x(rect, f, page_w, others, tol)), line - value);
}

/// Upwards and downwards likewise.
pub proof fn law_snaps_up_and_down_to_others(
    rect: PdfRect,
    f: SnapFeatures,
    page_h: i32,
    others: Seq<PdfRect>,
    tol: int,
    i: int,
    value: int,
    line: int,
)
    requires
        0 <= i < others.len(),
        (f.bottom && value == rect.min.y) || (f.top && value == rect.max.y) || (f.center_y && value
            == (rect.min.y + rect.max.y) / 2),
        line == others[i].min.y || line == others[i].max.y || line == (others[i].min.y
            + others[i].max.y) / 2,
        -tol <= line - value <= tol,
    ensures
        ({
            let y = snap_y(rect, f, page_h, others, tol);
            let dy = shift_of(y);
            &&& y is Some
            &&& dy * dy <= (line - value) * (line - value)
            &&& forall|x: Option<(int, int)>|
                (#[trigger] guides_of(x, y)).len() > 0 && (guides_of(x, y).last()
                    matches Guide::Horizontal(at) && stands_at_y(rect, f, dy, at as int))
        }),
{
    let lines = y_lines(page_h, others);
    lemma_y_lines(page_h, others);
    let o = others[i];
    let v = (rect.min.y as int, rect.max.y as int, (rect.min.y + rect.max.y) / 2);
    lemma_nearest_of((f.bottom, f.top, f.center_y), v, lines, tol);
    let j = if line == o.min.y {
        3 + 3 * i
    } else if line == o.max.y {
        5 + 3 * i
    } else {
        4 + 3 * i
    };
    assert(lines[j] == line);
    lemma_shorter(shift_of(snap_y(rect, f, page_h, others, tol)), line - value);
}

/// The page's own edges and its middle draw a rectangle to them just as other
/// annotations do.
pub proof fn law_snaps_to_the_page(
    rect: PdfRect,
    f: SnapFeatures,
    page_w: i32,
    page_h: i32,
    others: Seq<PdfRect>,
    tol: int,
    value: int,
    line: int,
)
    requires
        -tol <= line - value <= tol,
    ensures
        ((f.left && value == rect.min.x) || (f.right && value == rect.max.x) || (f.center_x && value
            == (rect.min.x + rect.max.x) / 2)) && (line == 0 || line == page_w as int / 2 || line
            == page_w) ==> {
            let x = snap_x(rect, f, page_w, others, tol);
            x is Some && shift_of(x) * shift_of(x) <= (line - value) * (line - value)
        },
        ((f.bottom && value == rect.min.y) || (f.top && value == rect.max.y) || (f.center_y && value
            == (rect.min.y + rect.max.y) / 2)) && (line == 0 || line == page_h as int / 2 || line
            == page_h) ==> {
            let y = snap_y(rect, f, page_h, others, tol);
            y is Some && shift_of(y) * shift_of(y) <= (line - value) * (line - value)
        },
{
    let (xs, ys) = (x_lines(page_w, others), y_lines(page_h, others));
    lemma_x_lines(page_w, others);
    lemma_y_lines(page_h, others);
    let v = (rect.min.x as int, rect.max.x as int, (rect.min.x + rect.max.x) / 2);
    lemma_nearest_of((f.left, f.right, f.center_x), v, xs, tol);
    let w = (rect.min.y as int, rect.max.y as int, (rect.min.y + rect.max.y) / 2);
    lemma_nearest_of((f.bottom, f.top, f.center_y), w, ys, tol);
    let (dx, dy) = (
        shift_of(snap_x(rect, f, page_w, others, tol)),
        shift_of(snap_y(rect, f, page_h, others, tol)),
    );
    assert(xs[0] == 0 && ys[0] == 0);
    assert(xs[1] == page_w as int / 2 && ys[1] == page_h as int / 2);
    assert(xs[2] == page_w && ys[2] == page_h);
    if -abs(line - value) <= dx <= abs(line - value) {
        lemma_shorter(dx, line - value);
    }
    if -abs(line - value) <= dy <= abs(line - value) {
        lemma_shorter(dy, line - value);
    }
}

proof fn lemma_shorter(a: int, b: int)
    requires
        -abs(b) <= a <= abs(b),
    ensures
        a * a <= b * b,
{
    assert(a * a <= b * b) by (nonlinear_arith)
        requires
            -b <= a <= b || b <= a <= -b,
    ;
}

/// A guide is only drawn where the rectangle then stands on a line of the page
/// or of another annotation, and nothing moves without one.
pub proof fn law_a_guide_is_a_line(
    rect: PdfRect,
    f: SnapFeatures,
    page_w: i32,
    page_h: i32,
    others: Seq<PdfRect>,
    tol: int,
)
    ensures
        ({
            let x = snap_x(rect, f, page_w, others, tol);
            let y = snap_y(rect, f, page_h, others, tol);
            let (dx, dy, g) = (shift_of(x), shift_of(y), guides_of(x, y));
            &&& g.len() <= 2
            &&& forall|k: int|
                0 <= k < g.len() ==> match #[trigger] g[k] {
                    Guide::Vertical(line) => stands_at_x(rect, f, dx, line as int) && -tol <= dx
                        <= tol && (line == 0 || line == page_w as int / 2 || line == page_w
                        || exists|i: int|
                        #![trigger others[i]]
                        0 <= i < others.len() && (line == others[i].min.x || line
                            == others[i].max.x || line == (others[i].min.x + others[i].max.x) / 2)),
                    Guide::Horizontal(line) => stands_at_y(rect, f, dy, line as int) && -tol <= dy
                        <= tol && (line == 0 || line == page_h as int / 2 || line == page_h
                        || exists|i: int|
                        #![trigger others[i]]
                        0 <= i < others.len() && (line == others[i].min.y || line
                            == others[i].max.y || line == (others[i].min.y + others[i].max.y) / 2)),
                }
            &&& (forall|k: int| 0 <= k < g.len() ==> !((#[trigger] g[k]) is Vertical)) ==> dx == 0
            &&& (forall|k: int| 0 <= k < g.len() ==> !((#[trigger] g[k]) is Horizontal)) ==> dy == 0
        }),
{
    let (xs, ys) = (x_lines(page_w, others), y_lines(page_h, others));
    lemma_x_lines(page_w, others);
    lemma_y_lines(page_h, others);
    let v = (rect.min.x as int, rect.max.x as int, (rect.min.x + rect.max.x) / 2);
    lemma_nearest_of((f.left, f.right, f.center_x), v, xs, tol);
    let w = (rect.min.y as int, rect.max.y as int, (rect.min.y + rect.max.y) / 2);
    lemma_nearest_of((f.bottom, f.top, f.center_y), w, ys, tol);
    let x = snap_x(rect, f, page_w, others, tol);
    let y = snap_y(rect, f, page_h, others, tol);
    let g = guides_of(x, y);
    if let Some(k) = x {
        let j = choose|j: int| 0 <= j < xs.len() && (#[trigger] xs[j]) == k.1;
        let i = (j - 3) / 3;
        if j >= 3 {
            assert(0 <= i < others.len());
            let o = others[i];
            assert(j == 3 + 3 * i || j == 4 + 3 * i || j == 5 + 3 * i);
        }
        assert(g[0] is Vertical);
    }
    if let Some(k) = y {
        let j = choose|j: int| 0 <= j < ys.len() && (#[trigger] ys[j]) == k.1;
        let i = (j - 3) / 3;
        if j >= 3 {
            assert(0 <= i < others.len());
            let o = others[i];
            assert(j == 3 + 3 * i || j == 4 + 3 * i || j == 5 + 3 * i);
        }
        assert(g[g.len() - 1] is Horizontal);
    }
}

/// `best` as it is held by the code.
spec fn same_best(best: Option<(i64, i32)>, b: Option<(int, int)>) -> bool {
    match (best, b) {
        (None, None) => true,
        (Some(x), Some(y)) => x.0 == y.0 && x.1 == y.1,
        _ => false,
    }
}

fn consider(best: Option<(i64, i32)>, value: i32, lines: &Vec<i32>, tol: i32) -> (r: Option<
    (i64, i32),
>)
    requires
        best matches Some(k) ==> -0x1_0000_0000 <= k.0 <= 0x1_0000_0000,
    ensures
        forall|b: Option<(int, int)>|
            #![trigger nearest(b, value as int, lines@, tol as int)]
            same_best(best, b) ==> same_best(r, nearest(b, value as int, lines@, tol as int)),
        r matches Some(k) ==> -0x1_0000_0000 <= k.0 <= 0x1_0000_0000,
{
    let mut r: Option<(i64, i32)> = best;
    let mut i: usize = 0;
    proof {
        assert(lines@.take(0) =~= Seq::empty());
    }
    while i < lines.len()
        invariant
            i <= lines@.len(),
            forall|b: Option<(int, int)>|
                #![trigger nearest(b, value as int, lines@.take(i as int), tol as int)]
                same_best(best, b) ==> same_best(
                    r,
                    nearest(b, value as int, lines@.take(i as int), tol as int),
                ),
            r matches Some(k) ==> -0x1_0000_0000 <= k.0 <= 0x1_0000_0000,
        decreases lines@.len() - i,
    {
        let c: i32 = lines[i];
        let d: i64 = c as i64 - value as i64;
        let size: i64 = if d < 0 { -d } else { d };
        let ghost before = r;
        let better: bool = match r {
            None => true,
            Some(k) => {
                let have: i64 = if k.0 < 0 { -k.0 } else { k.0 };
                size < have
            },
        };
        if size <= tol as i64 && better {
            r = Some((d, c));
        }
        proof {
            let cut = lines@.take(i + 1);
            assert(cut.drop_last() =~= lines@.take(i as int));
            assert(cut.last() == c);
            assert forall|b: Option<(int, int)>|
                #![trigger nearest(b, value as int, cut, tol as int)]
                same_best(best, b) implies same_best(
                r,
                nearest(b, value as int, cut, tol as int),
            ) by {
                let n = nearest(b, value as int, lines@.take(i as int), tol as int);
                assert(same_best(before, n));
            }
        }
        i += 1;
    }
    proof {
        assert(lines@.take(i as int) =~= lines@);
    }
    r
}

/// Compute the snap correction for `rect` on a `page_w` x `page_h` page.
/// `others` are the bounds of other annotations on the same page.
/// `tolerance` is in thousandths of a point.
pub fn snap_rect(
    rect: PdfRect,
    features: SnapFeatures,
    page_w: i32,
    page_h: i32,
    others: &Vec<PdfRect>,
    tolerance: i32,
) -> (r: SnapResult)
    ensures
        r.correction.dx == shift_of(snap_x(rect, features, page_w, others@, tolerance as int)),
        r.correction.dy == shift_of(snap_y(rect, features, page_h, others@, tolerance as int)),
        r.guides@ == guides_of(
            snap_x(rect, features, page_w, others@, tolerance as int),
            snap_y(rect, features, page_h, others@, tolerance as int),
        ),
        -0x1_0000_0000 <= r.correction.dx <= 0x1_0000_0000,
        -0x1_0000_0000 <= r.correction.dy <= 0x1_0000_0000,
{
    let zero: PdfPoint = PdfPoint::new(0, 0);
    let page: PdfPoint = PdfRect::from_points(zero, PdfPoint::new(page_w, page_h)).center();
    let mut xs: Vec<i32> = Vec::new();
    let mut ys: Vec<i32> = Vec::new();
    xs.push(0);
    xs.push(page.x);
    xs.push(page_w);
    ys.push(0);
    ys.push(page.y);
    ys.push(page_h);
    proof {
        assert(others@.take(0) =~= Seq::empty());
        assert(xs@ =~= x_lines(page_w, others@.take(0)));
        assert(ys@ =~= y_lines(page_h, others@.take(0)));
    }
    let mut i: usize = 0;
    while i < others.len()
        invariant
            i <= others@.len(),
            xs@ == x_lines(page_w, others@.take(i as int)),
            ys@ == y_lines(page_h, others@.take(i as int)),
        decreases others@.len() - i,
    {
        let o: PdfRect = others[i];
        let c: PdfPoint = o.center();
        proof {
            assert(others@.take(i + 1).drop_last() =~= others@.take(i as int));
        }
        let ghost (x0, y0) = (xs@, ys@);
        xs.push(o.min.x);
        xs.push(c.x);
        xs.push(o.max.x);
        ys.push(o.min.y);
        ys.push(c.y);
        ys.push(o.max.y);
        proof {
            assert(xs@ =~= x0 + seq![o.min.x, c.x, o.max.x]);
            assert(ys@ =~= y0 + seq![o.min.y, c.y, o.max.y]);
        }
        i += 1;
    }
    proof {
        assert(others@.take(i as int) =~= others@);
    }
    let mid: PdfPoint = rect.center();
    let mut best_x: Option<(i64, i32)> = None;
    let mut best_y: Option<(i64, i32)> = None;
    if features.left {
        best_x = consider(best_x, rect.min.x, &xs, tolerance);
    }
    let ghost ax = nearest_if(features.left, None, rect.min.x as int, xs@, tolerance as int);
    proof {
        assert(same_best(None, None));
        assert(same_best(best_x, ax));
    }
    if features.right {
        best_x = consider(best_x, rect.max.x, &xs, tolerance);
    }
    let ghost bx = nearest_if(features.right, ax, rect.max.x as int, xs@, tolerance as int);
    proof {
        assert(same_best(best_x, bx));
    }
    if features.center_x {
        best_x = consider(best_x, mid.x, &xs, tolerance);
    }
    let ghost cx = nearest_if(features.center_x, bx, mid.x as int, xs@, tolerance as int);
    proof {
        assert(same_best(best_x, cx));
    }
    if features.bottom {
        best_y = consider(best_y, rect.min.y, &ys, tolerance);
    }
    let ghost ay = nearest_if(features.bottom, None, rect.min.y as int, ys@, tolerance as int);
    proof {
        assert(same_best(best_y, ay));
    }
    if features.top {
        best_y = consider(best_y, rect.max.y, &ys, tolerance);
    }
    let ghost by = nearest_if(features.top, ay, rect.max.y as int, ys@, tolerance as int);
    proof {
        assert(same_best(best_y, by));
    }
    if features.center_y {
        best_y = consider(best_y, mid.y, &ys, tolerance);
    }
    let ghost cy = nearest_if(features.center_y, by, mid.y as int, ys@, tolerance as int);
    proof {
        assert(same_best(best_y, cy));
    }
    let mut guides: Vec<Guide> = Vec::new();
    let mut correction: SnapCorrection = SnapCorrection { dx: 0, dy: 0 };
    if let Some((d, target)) = best_x {
        correction.dx = d;
        guides.push(Guide::Vertical(target));
    }
    if let Some((d, target)) = best_y {
        correction.dy = d;
        guides.push(Guide::Horizontal(target));
    }
    proof {
        assert(guides@ =~= guides_of(cx, cy));
    }
    SnapResult { correction, guides }
}

} // verus!
