//! What holds of points, annotations and the store they are kept in.

use vstd::prelude::*;

use crate::doc::annotation::{
    ann_bounded, ann_plus, carried, expanded, stamp_words, stretched, token_at, AnnV, KindV,
};
use crate::doc::geometry::{middle, sat, spanning, PdfPoint, PdfRect};
use crate::doc::history::{forward, forward_all, undone, undone_all, CommandV};
use crate::doc::store::{
    ascending, below, bounds_but, chosen, lemma_below, lemma_edits_ok, lemma_place, lookup, members,
    place, put, restored, stored, top_group, with, without, StoreV,
};
use crate::text::stands_at;

verus! {

// ---------------------------------------------------------------------------
// Points and rectangles
// ---------------------------------------------------------------------------

/// A number that is a coordinate stays as it is, and any other goes to the end
/// of the range it lies beyond.
pub proof fn law_coordinates_stay_in_range(v: int)
    ensures
        -0x8000_0000 <= v <= 0x7fff_ffff ==> sat(v) == v,
        v < -0x8000_0000 ==> sat(v) == -0x8000_0000,
        v > 0x7fff_ffff ==> sat(v) == 0x7fff_ffff,
{
}

/// A rectangle moves by exactly as much as it is moved, both corners alike, and
/// keeps its size, as long as it stays in range.
pub proof fn law_a_rectangle_moves_whole(r: PdfRect, dx: int, dy: int)
    requires
        -0x8000_0000 <= r.min.x + dx <= 0x7fff_ffff,
        -0x8000_0000 <= r.max.x + dx <= 0x7fff_ffff,
        -0x8000_0000 <= r.min.y + dy <= 0x7fff_ffff,
        -0x8000_0000 <= r.max.y + dy <= 0x7fff_ffff,
    ensures
        r.plus(dx, dy).min.x == r.min.x + dx,
        r.plus(dx, dy).min.y == r.min.y + dy,
        r.plus(dx, dy).max.x == r.max.x + dx,
        r.plus(dx, dy).max.y == r.max.y + dy,
{
}

/// The rectangle between two points has both at its corners, whichever way they
/// were dragged.
pub proof fn law_a_rectangle_spans_its_corners(a: PdfPoint, b: PdfPoint)
    ensures
        spanning(a, b) == spanning(b, a),
        spanning(a, b).min.x <= a.x <= spanning(a, b).max.x,
        spanning(a, b).min.x <= b.x <= spanning(a, b).max.x,
        spanning(a, b).min.y <= a.y <= spanning(a, b).max.y,
        spanning(a, b).min.y <= b.y <= spanning(a, b).max.y,
        spanning(a, b).min.x == a.x || spanning(a, b).min.x == b.x,
        spanning(a, b).max.x == a.x || spanning(a, b).max.x == b.x,
        spanning(a, b).min.y == a.y || spanning(a, b).min.y == b.y,
        spanning(a, b).max.y == a.y || spanning(a, b).max.y == b.y,
{
}

/// The middle is as far from one end as from the other, to the thousandth.
pub proof fn law_the_middle_is_halfway(a: int, b: int)
    ensures
        0 <= (b - middle(a, b)) - (middle(a, b) - a) <= 1,
        middle(a, b) == middle(b, a),
{
}

/// Whether a point lies in a rectangle, its edges included.
pub open spec fn inside(r: PdfRect, x: int, y: int) -> bool {
    r.min.x <= x <= r.max.x && r.min.y <= y <= r.max.y
}

/// Two rectangles meet exactly where some point lies in both.
pub proof fn law_rectangles_meet_in_a_point(a: PdfRect, b: PdfRect)
    requires
        a.min.x <= a.max.x,
        a.min.y <= a.max.y,
        b.min.x <= b.max.x,
        b.min.y <= b.max.y,
    ensures
        a.meets(b) <==> exists|x: int, y: int| #[trigger] inside(a, x, y) && inside(b, x, y),
{
    if a.meets(b) {
        let x = if a.min.x >= b.min.x {
            a.min.x as int
        } else {
            b.min.x as int
        };
        let y = if a.min.y >= b.min.y {
            a.min.y as int
        } else {
            b.min.y as int
        };
        assert(inside(a, x, y) && inside(b, x, y));
    }
}

/// A point is near a rectangle exactly where it is within the tolerance of some
/// point of it, along both axes.
pub proof fn law_near_is_within_the_tolerance(r: PdfRect, p: PdfPoint, tol: int)
    requires
        r.min.x <= r.max.x,
        r.min.y <= r.max.y,
        0 <= tol,
    ensures
        r.near(p, tol) <==> exists|x: int, y: int| #[trigger]
            inside(r, x, y) && -tol <= p.x - x <= tol && -tol <= p.y - y <= tol,
{
    if r.near(p, tol) {
        let x = if p.x < r.min.x {
            r.min.x as int
        } else if p.x > r.max.x {
            r.max.x as int
        } else {
            p.x as int
        };
        let y = if p.y < r.min.y {
            r.min.y as int
        } else if p.y > r.max.y {
            r.max.y as int
        } else {
            p.y as int
        };
        assert(inside(r, x, y));
    }
}

// ---------------------------------------------------------------------------
// Annotations
// ---------------------------------------------------------------------------

/// The points an annotation is drawn through.
pub open spec fn points_of(k: KindV) -> Seq<PdfPoint> {
    match k {
        KindV::Line { p1, p2, .. } => seq![p1, p2],
        KindV::Freehand { points } => points,
        KindV::Polygon { points, .. } => points,
        KindV::PolyLine { points, .. } => points,
        _ => Seq::empty(),
    }
}

/// Whether two kinds are alike but for the points they are drawn through.
pub open spec fn alike_but_for_points(a: KindV, b: KindV) -> bool {
    match (a, b) {
        (KindV::Line { arrow_end: x, .. }, KindV::Line { arrow_end: y, .. }) => x == y,
        (KindV::Freehand { .. }, KindV::Freehand { .. }) => true,
        (KindV::Polygon { cloudy: x, .. }, KindV::Polygon { cloudy: y, .. }) => x == y,
        (KindV::PolyLine { arrow_end: x, .. }, KindV::PolyLine { arrow_end: y, .. }) => x == y,
        _ => a == b,
    }
}

/// An annotation moves whole: its box and every point of it by as much, and
/// nothing else about it changes.
pub proof fn law_an_annotation_moves_whole(a: AnnV, dx: int, dy: int)
    ensures
        ({
            let b = ann_plus(a, dx, dy);
            &&& b.id == a.id && b.page == a.page && b.style == a.style && b.group == a.group
            &&& b.rect.min.x == sat(a.rect.min.x + dx) && b.rect.max.x == sat(a.rect.max.x + dx)
            &&& b.rect.min.y == sat(a.rect.min.y + dy) && b.rect.max.y == sat(a.rect.max.y + dy)
            &&& alike_but_for_points(a.kind, b.kind)
            &&& points_of(b.kind).len() == points_of(a.kind).len()
            &&& forall|i: int|
                0 <= i < points_of(a.kind).len() ==> (#[trigger] points_of(b.kind)[i]).x == sat(
                    points_of(a.kind)[i].x + dx,
                ) && points_of(b.kind)[i].y == sat(points_of(a.kind)[i].y + dy)
        }),
{
}

/// Where a coordinate goes when its span is stretched: the ends go to the ends,
/// what is between stays between and in order, and in proportion to the
/// thousandth.
pub proof fn law_stretching_keeps_proportion(
    v: int,
    w: int,
    from: int,
    from_to: int,
    to: int,
    to_to: int,
)
    requires
        from < from_to,
        to <= to_to,
        from <= v <= w <= from_to,
    ensures
        stretched(from, from, from_to, to, to_to) == to,
        stretched(from_to, from, from_to, to, to_to) == to_to,
        to <= stretched(v, from, from_to, to, to_to) <= stretched(w, from, from_to, to, to_to)
            <= to_to,
        ({
            let off = (stretched(v, from, from_to, to, to_to) - to) * (from_to - from);
            off <= (v - from) * (to_to - to) < off + (from_to - from)
        }),
{
    let (n, m) = (from_to - from, to_to - to);
    let (a, b) = (v - from, w - from);
    assert(0 * m / n == 0) by (nonlinear_arith)
        requires
            n > 0,
    ;
    assert(n * m / n == m) by (nonlinear_arith)
        requires
            n > 0,
    ;
    let (x, y) = (a * m, b * m);
    assert(0 <= x <= y <= n * m) by (nonlinear_arith)
        requires
            x == a * m,
            y == b * m,
            0 <= a <= b <= n,
            0 <= m,
    ;
    let (p, q) = (x / n, y / n);
    let nm = n * m;
    assert(0 <= p <= q <= m) by (nonlinear_arith)
        requires
            p == x / n,
            q == y / n,
            0 <= x <= y <= nm,
            nm == n * m,
            n > 0,
    ;
    assert(p * n <= x < p * n + n) by (nonlinear_arith)
        requires
            p == x / n,
            n > 0,
    ;
}

/// An annotation given new bounds has them, and every point of it goes where
/// its place in the old box goes; nothing else about it changes.
pub proof fn law_an_annotation_is_resized_whole(a: AnnV, rect: PdfRect)
    ensures
        ({
            let b = ann_bounded(a, rect);
            &&& b.id == a.id && b.page == a.page && b.style == a.style && b.group == a.group
            &&& b.rect == rect
            &&& alike_but_for_points(a.kind, b.kind)
            &&& points_of(b.kind).len() == points_of(a.kind).len()
            &&& forall|i: int|
                0 <= i < points_of(a.kind).len() ==> {
                    let (p, q) = (points_of(a.kind)[i], #[trigger] points_of(b.kind)[i]);
                    &&& q.x == sat(
                        stretched(
                            p.x as int,
                            a.rect.min.x as int,
                            a.rect.max.x as int,
                            rect.min.x as int,
                            rect.max.x as int,
                        ),
                    )
                    &&& q.y == sat(
                        stretched(
                            p.y as int,
                            a.rect.min.y as int,
                            a.rect.max.y as int,
                            rect.min.y as int,
                            rect.max.y as int,
                        ),
                    )
                }
        }),
{
}

/// A point in the old box goes to a point in the new one.
pub proof fn law_carried_points_stay_inside(p: PdfPoint, from: PdfRect, to: PdfRect)
    requires
        from.min.x < from.max.x,
        from.min.y < from.max.y,
        to.min.x <= to.max.x,
        to.min.y <= to.max.y,
        inside(from, p.x as int, p.y as int),
    ensures
        inside(to, carried(p, from, to).x as int, carried(p, from, to).y as int),
        carried(from.min, from, to) == to.min,
        carried(from.max, from, to) == to.max,
{
    law_stretching_keeps_proportion(
        p.x as int,
        p.x as int,
        from.min.x as int,
        from.max.x as int,
        to.min.x as int,
        to.max.x as int,
    );
    law_stretching_keeps_proportion(
        p.y as int,
        p.y as int,
        from.min.y as int,
        from.max.y as int,
        to.min.y as int,
        to.max.y as int,
    );
}

// ---------------------------------------------------------------------------
// Stamps
// ---------------------------------------------------------------------------

/// Whether a text has no percent sign in it.
pub open spec fn plain(s: Seq<char>) -> bool {
    forall|i: int| 0 <= i < s.len() ==> #[trigger] s[i] != '%'
}

proof fn lemma_no_token(
    s: Seq<char>,
    at: int,
    date: Seq<char>,
    user: Seq<char>,
    filename: Seq<char>,
)
    requires
        0 <= at < s.len(),
        s[at] != '%',
    ensures
        token_at(s, at, date, user, filename) is None,
{
    reveal_strlit("%date");
    reveal_strlit("%user");
    reveal_strlit("%filename");
    if stands_at(s, "%date"@, at) {
        assert(s.subrange(at, at + 5)[0] == '%');
    }
    if stands_at(s, "%user"@, at) {
        assert(s.subrange(at, at + 5)[0] == '%');
    }
    if stands_at(s, "%filename"@, at) {
        assert(s.subrange(at, at + 9)[0] == '%');
    }
}

proof fn lemma_expanded_plain(
    a: Seq<char>,
    b: Seq<char>,
    at: int,
    date: Seq<char>,
    user: Seq<char>,
    filename: Seq<char>,
)
    requires
        plain(a),
        0 <= at <= a.len(),
    ensures
        expanded(a + b, at, date, user, filename) == a.skip(at) + expanded(
            a + b,
            a.len() as int,
            date,
            user,
            filename,
        ),
    decreases a.len() - at,
{
    let s = a + b;
    if at < a.len() {
        assert(s[at] == a[at]);
        lemma_no_token(s, at, date, user, filename);
        lemma_expanded_plain(a, b, at + 1, date, user, filename);
        assert(a.skip(at) =~= seq![a[at]] + a.skip(at + 1));
        assert(seq![a[at]] + (a.skip(at + 1) + expanded(s, a.len() as int, date, user, filename))
            =~= a.skip(at) + expanded(s, a.len() as int, date, user, filename));
    } else {
        assert(a.skip(at) + expanded(s, a.len() as int, date, user, filename) =~= expanded(
            s,
            a.len() as int,
            date,
            user,
            filename,
        ));
    }
}

proof fn lemma_expanded_skip(
    s: Seq<char>,
    k: int,
    at: int,
    date: Seq<char>,
    user: Seq<char>,
    filename: Seq<char>,
)
    requires
        0 <= k <= at,
    ensures
        expanded(s, at, date, user, filename) == expanded(
            s.skip(k),
            at - k,
            date,
            user,
            filename,
        ) || k > s.len(),
    decreases s.len() - at,
{
    let t = s.skip(k);
    if k <= s.len() && at < s.len() {
        reveal_strlit("%date");
        reveal_strlit("%user");
        reveal_strlit("%filename");
        assert(s[at] == t[at - k]);
        if at + 5 <= s.len() {
            assert(s.subrange(at, at + 5) =~= t.subrange(at - k, at - k + 5));
        }
        if at + 9 <= s.len() {
            assert(s.subrange(at, at + 9) =~= t.subrange(at - k, at - k + 9));
        }
        assert(token_at(s, at, date, user, filename) == token_at(
            t,
            at - k,
            date,
            user,
            filename,
        ));
        match token_at(s, at, date, user, filename) {
            Some((n, with)) => {
                if n > 0 {
                    lemma_expanded_skip(s, k, at + n, date, user, filename);
                }
            },
            None => {
                lemma_expanded_skip(s, k, at + 1, date, user, filename);
            },
        }
    }
}

/// Words without a token are stamped as they are typed.
pub proof fn law_plain_words_are_stamped_as_typed(
    text: Seq<char>,
    date: Seq<char>,
    user: Seq<char>,
    filename: Seq<char>,
)
    requires
        plain(text),
    ensures
        stamp_words(text, date, user, filename) == text,
{
    lemma_expanded_plain(text, Seq::empty(), 0, date, user, filename);
    assert(text + Seq::<char>::empty() =~= text);
    assert(text.skip(0) =~= text);
    assert(text + Seq::<char>::empty() =~= text);
}

/// Each token says what it stands for, wherever in the words it is, and what
/// follows it is read the same way.
pub proof fn law_tokens_say_what_they_stand_for(
    a: Seq<char>,
    b: Seq<char>,
    date: Seq<char>,
    user: Seq<char>,
    filename: Seq<char>,
)
    requires
        plain(a),
    ensures
        stamp_words(a + "%date"@ + b, date, user, filename) == a + date + stamp_words(
            b,
            date,
            user,
            filename,
        ),
        stamp_words(a + "%user"@ + b, date, user, filename) == a + user + stamp_words(
            b,
            date,
            user,
            filename,
        ),
        stamp_words(a + "%filename"@ + b, date, user, filename) == a + filename + stamp_words(
            b,
            date,
            user,
            filename,
        ),
{
    reveal_strlit("%date");
    reveal_strlit("%user");
    reveal_strlit("%filename");
    lemma_one_token(a, "%date"@, b, date, date, user, filename);
    lemma_one_token(a, "%user"@, b, user, date, user, filename);
    lemma_one_token(a, "%filename"@, b, filename, date, user, filename);
}

proof fn lemma_one_token(
    a: Seq<char>,
    token: Seq<char>,
    b: Seq<char>,
    with: Seq<char>,
    date: Seq<char>,
    user: Seq<char>,
    filename: Seq<char>,
)
    requires
        plain(a),
        (token == "%date"@ && with == date) || (token == "%user"@ && with == user) || (token
            == "%filename"@ && with == filename),
    ensures
        stamp_words(a + token + b, date, user, filename) == a + with + stamp_words(
            b,
            date,
            user,
            filename,
        ),
{
    reveal_strlit("%date");
    reveal_strlit("%user");
    reveal_strlit("%filename");
    let s = a + token + b;
    let at = a.len() as int;
    let n = token.len() as int;
    assert(s =~= a + (token + b));
    lemma_expanded_plain(a, token + b, 0, date, user, filename);
    assert(a.skip(0) =~= a);
    assert(s.subrange(at, at + n) =~= token);
    assert(stands_at(s, token, at));
    assert(s[at + 1] == token[1]);
    assert("%date"@[1] == 'd' && "%user"@[1] == 'u' && "%filename"@[1] == 'f');
    if token[1] != 'd' && stands_at(s, "%date"@, at) {
        assert(s.subrange(at, at + 5)[1] == s[at + 1]);
        assert(false);
    }
    if token[1] != 'u' && stands_at(s, "%user"@, at) {
        assert(s.subrange(at, at + 5)[1] == s[at + 1]);
        assert(false);
    }
    if token[1] == 'd' {
        assert(token == "%date"@);
    } else if token[1] == 'u' {
        assert(token == "%user"@);
    } else {
        assert(token == "%filename"@);
    }
    assert(token_at(s, at, date, user, filename) == Some((n as nat, with)));
    let rest = expanded(s, at + n, date, user, filename);
    lemma_expanded_skip(s, at + n, at + n, date, user, filename);
    assert(s.skip(at + n) =~= b);
    assert(a + (with + rest) =~= a + with + rest);
}

// ---------------------------------------------------------------------------
// The store
// ---------------------------------------------------------------------------

/// What is stored is what is found, by its id and no other.
proof fn lemma_lookup_is(s: Seq<AnnV>, id: u64)
    requires
        ascending(s),
    ensures
        match lookup(s, id) {
            Some(a) => a.id == id && s.contains(a),
            None => forall|i: int| 0 <= i < s.len() ==> (#[trigger] s[i]).id != id,
        },
{
    if stored(s, id) {
        let i = place(s, id);
        assert(0 <= i < s.len() && s[i].id == id);
        assert(s.contains(s[i]));
    }
}

proof fn lemma_inserted(s: Seq<AnnV>, a: AnnV, other: u64)
    requires
        ascending(s),
        !stored(s, a.id),
        other != a.id,
    ensures
        lookup(with(s, a), a.id) == Some(a),
        lookup(with(s, a), other) == lookup(s, other),
{
    let k = below(s, a.id);
    lemma_below(s, a.id);
    let t = s.insert(k, a);
    lemma_edits_ok(StoreV { items: s, next: u64::MAX }, a, a.id);
    assert(t[k] == a);
    lemma_place(t, k);
    lemma_lookup_is(s, other);
    if let Some(b) = lookup(s, other) {
        let q = s.index_of(b);
        let j = if q < k { q } else { q + 1 };
        assert(t[j] == b);
        lemma_place(t, j);
    } else {
        assert forall|j: int| 0 <= j < t.len() implies (#[trigger] t[j]).id != other by {
            if j != k {
                assert(t[j] == s[if j < k { j } else { j - 1 }]);
            }
        }
    }
}

proof fn lemma_removed(s: Seq<AnnV>, id: u64, other: u64)
    requires
        ascending(s),
        other != id,
    ensures
        lookup(without(s, id), id) is None,
        lookup(without(s, id), other) == lookup(s, other),
{
    if stored(s, id) {
        let i = place(s, id);
        assert(0 <= i < s.len() && s[i].id == id);
        let t = s.remove(i);
        lemma_edits_ok(StoreV { items: s, next: u64::MAX }, s[i], id);
        assert forall|j: int| 0 <= j < t.len() implies (#[trigger] t[j]).id != id by {
            let o = if j < i { j } else { j + 1 };
            assert(t[j] == s[o]);
            if o < i {
                assert(s[o].id < s[i].id);
            } else {
                assert(s[i].id < s[o].id);
            }
        }
        lemma_lookup_is(s, other);
        if let Some(b) = lookup(s, other) {
            let q = s.index_of(b);
            let j = if q < i { q } else { q - 1 };
            assert(t[j] == b);
            lemma_place(t, j);
        } else {
            assert forall|j: int| 0 <= j < t.len() implies (#[trigger] t[j]).id != other by {
                assert(t[j] == s[if j < i { j } else { j + 1 }]);
            }
        }
    }
}

proof fn lemma_replaced(s: Seq<AnnV>, a: AnnV, other: u64)
    requires
        ascending(s),
        other != a.id,
    ensures
        stored(s, a.id) ==> lookup(put(s, a), a.id) == Some(a),
        !stored(s, a.id) ==> put(s, a) == s,
        lookup(put(s, a), other) == lookup(s, other),
{
    let p = put(s, a);
    lemma_edits_ok(StoreV { items: s, next: u64::MAX }, a, a.id);
    if stored(s, a.id) {
        let i = place(s, a.id);
        assert(0 <= i < s.len() && s[i].id == a.id);
        assert(p[i] == a);
        lemma_place(p, i);
    } else {
        assert forall|j: int| 0 <= j < s.len() implies #[trigger] p[j] == s[j] by {
            assert(s[j].id != a.id);
        }
        assert(p =~= s);
    }
    lemma_lookup_is(s, other);
    if let Some(b) = lookup(s, other) {
        let q = s.index_of(b);
        assert(p[q] == b);
        lemma_place(p, q);
    } else {
        assert forall|j: int| 0 <= j < p.len() implies (#[trigger] p[j]).id != other by {
            assert(s[j].id != other);
        }
    }
}

/// An annotation put in is there, one taken out is not, one replaced is the new
/// one, and no other is touched by any of it.
pub proof fn law_edits_touch_one_annotation(st: StoreV, a: AnnV, other: u64)
    requires
        st.ok(),
        other != a.id,
    ensures
        lookup(st.inserted(a).items, a.id) == Some(a),
        lookup(st.removed(a.id).items, a.id) is None,
        stored(st.items, a.id) ==> lookup(st.replaced(a).items, a.id) == Some(a),
        !stored(st.items, a.id) ==> st.replaced(a).items == st.items,
        lookup(st.inserted(a).items, other) == lookup(st.items, other),
        lookup(st.removed(a.id).items, other) == lookup(st.items, other),
        lookup(st.replaced(a).items, other) == lookup(st.items, other),
{
    if !stored(st.items, a.id) {
        lemma_inserted(st.items, a, other);
    }
    lemma_removed(st.items, a.id, other);
    lemma_replaced(st.items, a, other);
}

/// Carrying a command out does what it says, and nothing to anything else; and
/// so does taking it back.
pub proof fn law_commands_do_what_they_say(st: StoreV, a: AnnV, b: AnnV, other: u64)
    requires
        st.ok(),
        a.id == b.id,
        other != a.id,
    ensures
        lookup(forward(CommandV::Add(a), st).items, a.id) == Some(a),
        lookup(forward(CommandV::Remove(a), st).items, a.id) is None,
        stored(st.items, a.id) ==> lookup(
            forward(CommandV::Modify { before: a, after: b }, st).items,
            a.id,
        ) == Some(b),
        lookup(undone(CommandV::Add(a), st).items, a.id) is None,
        lookup(undone(CommandV::Remove(a), st).items, a.id) == Some(a),
        stored(st.items, a.id) ==> lookup(
            undone(CommandV::Modify { before: a, after: b }, st).items,
            a.id,
        ) == Some(a),
        lookup(forward(CommandV::Add(a), st).items, other) == lookup(st.items, other),
        lookup(forward(CommandV::Remove(a), st).items, other) == lookup(st.items, other),
        lookup(forward(CommandV::Modify { before: a, after: b }, st).items, other) == lookup(
            st.items,
            other,
        ),
{
    law_edits_touch_one_annotation(st, a, other);
    law_edits_touch_one_annotation(st, b, other);
}

/// Commands taken together are carried out one after the other, and taken back
/// the other way round.
pub proof fn law_a_batch_is_all_of_its_commands(cs: Seq<CommandV>, c: CommandV, st: StoreV)
    ensures
        forward(CommandV::Batch(cs.push(c)), st) == forward(c, forward(CommandV::Batch(cs), st)),
        undone(CommandV::Batch(cs.push(c)), st) == undone(CommandV::Batch(cs), undone(c, st)),
        forward(CommandV::Batch(Seq::empty()), st) == st,
        undone(CommandV::Batch(Seq::empty()), st) == st,
{
    let all = cs.push(c);
    assert(all.drop_last() =~= cs);
    assert(forward_all(all, st) == forward(c, forward_all(cs, st)));
    assert(undone_all(all, st) == undone_all(cs, undone(c, st)));
    assert(forward_all(Seq::empty(), st) == st);
    assert(undone_all(Seq::empty(), st) == st);
}

/// The members of a group are all the annotations in it, in order.
pub proof fn law_a_group_is_all_its_members(s: Seq<AnnV>, group: u64)
    ensures
        members(s, group) == s.filter(|a: AnnV| a.group == Some(group)).map_values(
            |a: AnnV| a.id,
        ),
    decreases s.len(),
{
    reveal(Seq::filter);
    let keep = |a: AnnV| a.group == Some(group);
    if s.len() > 0 {
        law_a_group_is_all_its_members(s.drop_last(), group);
        let t = s.drop_last().filter(keep);
        if keep(s.last()) {
            assert(t.push(s.last()).map_values(|a: AnnV| a.id) =~= t.map_values(
                |a: AnnV| a.id,
            ).push(s.last().id));
        }
    } else {
        assert(members(s, group) =~= s.filter(keep).map_values(|a: AnnV| a.id));
    }
}

/// What is chosen by id is every annotation with one of those ids, in order.
pub proof fn law_all_of_the_chosen_are_chosen(s: Seq<AnnV>, ids: Set<u64>)
    ensures
        chosen(s, ids) == s.filter(|a: AnnV| ids.contains(a.id)),
    decreases s.len(),
{
    reveal(Seq::filter);
    if s.len() > 0 {
        law_all_of_the_chosen_are_chosen(s.drop_last(), ids);
    } else {
        assert(chosen(s, ids) =~= s.filter(|a: AnnV| ids.contains(a.id)));
    }
}

/// What can be snapped to is the box of every other annotation on the page.
pub proof fn law_every_other_box_counts(s: Seq<AnnV>, page: usize, but: Set<u64>)
    ensures
        bounds_but(s, page, but) == s.filter(
            |a: AnnV| a.page == page && !but.contains(a.id),
        ).map_values(|a: AnnV| a.rect),
    decreases s.len(),
{
    reveal(Seq::filter);
    let keep = |a: AnnV| a.page == page && !but.contains(a.id);
    if s.len() > 0 {
        law_every_other_box_counts(s.drop_last(), page, but);
        let t = s.drop_last().filter(keep);
        if keep(s.last()) {
            assert(t.push(s.last()).map_values(|a: AnnV| a.rect) =~= t.map_values(
                |a: AnnV| a.rect,
            ).push(s.last().rect));
        }
    } else {
        assert(bounds_but(s, page, but) =~= s.filter(keep).map_values(|a: AnnV| a.rect));
    }
}

/// The highest group is one that is in use, and none in use is higher.
pub proof fn law_the_top_group_is_the_highest(s: Seq<AnnV>)
    ensures
        forall|i: int|
            0 <= i < s.len() ==> ((#[trigger] s[i]).group matches Some(g) ==> g <= top_group(s)),
        top_group(s) == 0 || exists|i: int|
            0 <= i < s.len() && (#[trigger] s[i]).group == Some(top_group(s)),
    decreases s.len(),
{
    if s.len() > 0 {
        let t = s.drop_last();
        law_the_top_group_is_the_highest(t);
        assert forall|i: int| 0 <= i < s.len() implies ((#[trigger] s[i]).group matches Some(g)
            ==> g <= top_group(s)) by {
            if i < t.len() {
                assert(t[i] == s[i]);
            }
        }
        if s.last().group == Some(top_group(s)) {
            assert(s[s.len() - 1].group == Some(top_group(s)));
        } else if top_group(t) != 0 {
            let i = choose|i: int| 0 <= i < t.len() && (#[trigger] t[i]).group == Some(
                top_group(t),
            );
            assert(s[i] == t[i]);
        }
    }
}

/// A store restored from annotations with different ids holds every one of
/// them, each under its own id, and numbers on past them all.
pub proof fn law_restoring_keeps_every_annotation(s: Seq<AnnV>, i: int)
    requires
        0 <= i < s.len(),
        forall|j: int, k: int|
            0 <= j < k < s.len() ==> (#[trigger] s[j]).id != (#[trigger] s[k]).id,
    ensures
        restored(s).ok(),
        lookup(restored(s).items, s[i].id) == Some(s[i]),
        restored(s).next > s[i].id || restored(s).next == u64::MAX,
    decreases s.len(),
{
    let t = s.drop_last();
    lemma_restored_ok(t);
    let last = s.last();
    lemma_edits_ok(restored(t), last, last.id);
    assert(last == s[s.len() - 1]);
    if i < t.len() {
        assert(t[i] == s[i]);
        assert forall|j: int, k: int| 0 <= j < k < t.len() implies (#[trigger] t[j]).id != (
        #[trigger] t[k]).id by {
            assert(s[j].id != s[k].id);
        }
        law_restoring_keeps_every_annotation(t, i);
        assert(s[i].id != s[s.len() - 1].id);
        law_edits_touch_one_annotation(restored(t), last, s[i].id);
    } else {
        let other: u64 = if last.id == 0 {
            1
        } else {
            0
        };
        law_edits_touch_one_annotation(restored(t), last, other);
    }
}

proof fn lemma_restored_ok(s: Seq<AnnV>)
    ensures
        restored(s).ok(),
    decreases s.len(),
{
    if s.len() > 0 {
        lemma_restored_ok(s.drop_last());
        lemma_edits_ok(restored(s.drop_last()), s.last(), s.last().id);
    }
}

} // verus!
