//! What a press takes hold of or puts down, what becomes of a selection, and
//! how large what is placed by a click comes out.

use vstd::prelude::*;

use crate::doc::annotation::{AnnV, KindV};
use crate::doc::geometry::{spanning, PdfPoint, PdfRect};
use crate::doc::laws::law_all_of_the_chosen_are_chosen;
use crate::doc::store::{
    ascending, chosen, following, lemma_place, lookup, members, place, stored, top_group,
};
use crate::metrics::line_width;
use crate::state::{DocV, SelV};
use crate::text::{
    decimal, law_decimal_round_trip, law_trimming_takes_only_white_space, trimmed, white_space,
};
use crate::tools::edit::{all_in, deleted, grouped, left, outside, regrouped, ungrouped};
use crate::tools::laws::{distinct, lemma_put_all};
use crate::tools::outcomes::{gained, lemma_gained};
use crate::tools::press::{
    led_by, lemma_chosen_ascends, picture_pressed, pressed, stamp_says, taken,
};
use crate::tools::release::{hovered, picked_up, released, touched};
use crate::tools::select::{corner_at, first_close, grip, topmost, Handle};
use crate::tools::{
    group_with, number_after, number_on, picture_box, stamp_box, ActiveTool, PointerInfo, StateV,
};

verus! {

// ---------------------------------------------------------------------------
// Selections
// ---------------------------------------------------------------------------

/// Whether the annotation `id` goes with `other` wherever it is clicked: it is
/// the same one, or both are in one group.
pub open spec fn goes_with(s: Seq<AnnV>, id: u64, other: u64) -> bool {
    ||| id == other
    ||| exists|i: int, j: int|
        0 <= i < s.len() && 0 <= j < s.len() && (#[trigger] s[i]).id == id && (#[trigger] s[j]).id
            == other && s[i].group is Some && s[i].group == s[j].group
}

proof fn lemma_members_ascend(s: Seq<AnnV>, group: u64)
    requires
        ascending(s),
    ensures
        members(s, group).no_duplicates(),
        forall|x: u64| #[trigger]
            members(s, group).contains(x) <==> exists|j: int|
                0 <= j < s.len() && (#[trigger] s[j]).id == x && s[j].group == Some(group),
    decreases s.len(),
{
    if s.len() > 0 {
        let t = s.drop_last();
        let m = members(t, group);
        assert(ascending(t)) by {
            assert forall|i: int, j: int| 0 <= i < j < t.len() implies (#[trigger] t[i]).id < (
            #[trigger] t[j]).id by {
                assert(s[i].id < s[j].id);
            }
        }
        lemma_members_ascend(t, group);
        let r = members(s, group);
        assert forall|x: u64| #[trigger] r.contains(x) <==> exists|j: int|
            0 <= j < s.len() && (#[trigger] s[j]).id == x && s[j].group == Some(group) by {
            if r.contains(x) {
                let k = r.index_of(x);
                if k < m.len() {
                    assert(m[k] == x);
                    assert(m.contains(x));
                    let j = choose|j: int|
                        0 <= j < t.len() && (#[trigger] t[j]).id == x && t[j].group == Some(group);
                    assert(s[j] == t[j]);
                } else {
                    assert(s[s.len() - 1].id == x);
                }
            }
            if exists|j: int|
                0 <= j < s.len() && (#[trigger] s[j]).id == x && s[j].group == Some(group) {
                let j = choose|j: int|
                    0 <= j < s.len() && (#[trigger] s[j]).id == x && s[j].group == Some(group);
                if j < t.len() {
                    assert(t[j] == s[j]);
                    assert(m.contains(x));
                    let k = m.index_of(x);
                    assert(r[k] == x);
                } else {
                    assert(r[r.len() - 1] == x);
                }
            }
        }
        assert(r.no_duplicates()) by {
            if s.last().group == Some(group) {
                assert(!m.contains(s.last().id)) by {
                    if m.contains(s.last().id) {
                        let j = choose|j: int|
                            0 <= j < t.len() && (#[trigger] t[j]).id == s.last().id && t[j].group
                                == Some(group);
                        assert(s[j].id < s[s.len() - 1].id);
                    }
                }
                assert forall|a: int, b: int|
                    0 <= a < r.len() && 0 <= b < r.len() && a != b implies r[a] != r[b] by {
                    assert(a < m.len() ==> m.contains(m[a]));
                    assert(b < m.len() ==> m.contains(m[b]));
                }
            }
        }
    }
}

/// Clicking an annotation is clicking it and everything it is grouped with,
/// and each of those once.
pub proof fn law_a_click_takes_the_group(s: Seq<AnnV>, id: u64)
    requires
        ascending(s),
    ensures
        group_with(s, id).no_duplicates(),
        forall|x: u64| #[trigger] group_with(s, id).contains(x) <==> goes_with(s, id, x),
{
    let g = group_with(s, id);
    if stored(s, id) {
        let i = place(s, id);
        assert(s[i].id == id);
        if let Some(group) = s[i].group {
            lemma_members_ascend(s, group);
            assert forall|x: u64| #[trigger] g.contains(x) <==> goes_with(s, id, x) by {
                if g.contains(x) {
                    let j = choose|j: int|
                        0 <= j < s.len() && (#[trigger] s[j]).id == x && s[j].group == Some(group);
                    assert(s[i].group == s[j].group);
                }
                if goes_with(s, id, x) && id != x {
                    let (a, b) = choose|a: int, b: int|
                        0 <= a < s.len() && 0 <= b < s.len() && (#[trigger] s[a]).id == id && (
                        #[trigger] s[b]).id == x && s[a].group is Some && s[a].group == s[b].group;
                    lemma_place(s, a);
                    assert(s[b].id == x && s[b].group == Some(group));
                }
            }
        } else {
            assert(g[0] == id);
            assert forall|x: u64| #[trigger] g.contains(x) <==> goes_with(s, id, x) by {
                if goes_with(s, id, x) && id != x {
                    let (a, b) = choose|a: int, b: int|
                        0 <= a < s.len() && 0 <= b < s.len() && (#[trigger] s[a]).id == id && (
                        #[trigger] s[b]).id == x && s[a].group is Some && s[a].group == s[b].group;
                    lemma_place(s, a);
                }
            }
        }
    } else {
        assert(g[0] == id);
        assert forall|x: u64| #[trigger] g.contains(x) <==> goes_with(s, id, x) by {}
    }
}

/// Toggling some takes out those that were in, puts in those that were not,
/// and leaves everything else.
pub proof fn law_toggling_turns_each_over(sel: SelV, ids: Seq<u64>, x: u64)
    requires
        ids.no_duplicates(),
    ensures
        sel.toggled_all(ids).ids.contains(x) <==> (sel.ids.contains(x) != ids.contains(x)),
    decreases ids.len(),
{
    if ids.len() > 0 {
        let t = ids.drop_last();
        law_toggling_turns_each_over(sel, t, x);
        assert(!t.contains(ids.last())) by {
            if t.contains(ids.last()) {
                let k = t.index_of(ids.last());
                assert(ids[k] == ids[ids.len() - 1]);
            }
        }
        if ids.contains(x) && x != ids.last() {
            let k = ids.index_of(x);
            assert(t[k] == x);
        }
        if t.contains(x) {
            let k = t.index_of(x);
            assert(ids[k] == x);
        }
        assert(ids[ids.len() - 1] == ids.last());
    }
}

/// A press on empty paper selects nothing, or leaves the selection where shift
/// is held, and starts a box there.
pub proof fn law_a_press_on_nothing(d: DocV, p: PointerInfo, x: u64)
    requires
        d.tool is Select,
        taken(d, p) is None,
        topmost(d.store.items, p.page, p.pos, p.tol as int) is None,
    ensures
        ({
            let e = pressed(d, p);
            &&& e.selection.ids.contains(x) <==> p.modifiers.shift && d.selection.ids.contains(x)
            &&& e.ctl.state == (StateV::Marquee { page: p.page, start: p.pos, current: p.pos })
            &&& e.store == d.store && e.history == d.history
        }),
{
}

/// A plain press on an annotation selects it and what it is grouped with, and
/// nothing else, unless it was selected already; with shift it and its group
/// are turned over, and everything else stays as it was.
pub proof fn law_a_press_selects_what_it_hits(d: DocV, p: PointerInfo, id: u64, x: u64)
    requires
        d.store.ok(),
        d.tool is Select,
        taken(d, p) is None,
        topmost(d.store.items, p.page, p.pos, p.tol as int) == Some(id),
    ensures
        ({
            let was = d.selection.ids.contains(x);
            let now = pressed(d, p).selection.ids.contains(x);
            if p.modifiers.shift {
                now <==> was != goes_with(d.store.items, id, x)
            } else if d.selection.ids.contains(id) {
                now == was
            } else {
                now <==> goes_with(d.store.items, id, x)
            }
        }),
{
    let hit = group_with(d.store.items, id);
    law_a_click_takes_the_group(d.store.items, id);
    law_toggling_turns_each_over(d.selection, hit, x);
    assert(hit.to_set().contains(x) <==> hit.contains(x));
}

/// A press on something that is then selected takes hold of everything
/// selected, as it is stored, with what was hit in the lead.
pub proof fn law_a_press_takes_hold_of_the_selection(d: DocV, p: PointerInfo, id: u64)
    requires
        d.store.ok(),
        d.tool is Select,
        taken(d, p) is None,
        topmost(d.store.items, p.page, p.pos, p.tol as int) == Some(id),
        stored(d.store.items, id),
        pressed(d, p).selection.ids.contains(id),
    ensures
        ({
            let e = pressed(d, p);
            e.ctl.state matches StateV::Dragging { origs, press, moved } && origs.len() > 0
                && origs[0].id == id && press == p.pos && !moved && forall|a: AnnV| #[trigger]
                origs.contains(a) <==> d.store.items.contains(a) && e.selection.ids.contains(a.id)
        }),
{
    let s = d.store.items;
    let e = pressed(d, p);
    let ids = e.selection.ids;
    let c = chosen(s, ids);
    law_all_of_the_chosen_are_chosen(s, ids);
    let keep = |a: AnnV| ids.contains(a.id);
    let i = place(s, id);
    assert(s[i].id == id);
    s.lemma_filter_contains(keep, i);
    assert(c.contains(s[i]));
    let k = c.index_of(s[i]);
    assert(c[k].id == id);
    assert(stored(c, id));
    let at = place(c, id);
    let origs = led_by(c, id);
    assert(0 <= at < c.len() && c[at].id == id);
    assert(origs == c.update(0, c[at]).update(at, c[0]));
    assert forall|a: AnnV| #[trigger] origs.contains(a) <==> s.contains(a) && ids.contains(
        a.id,
    ) by {
        assert(c.contains(a) <==> s.contains(a) && ids.contains(a.id)) by {
            if c.contains(a) {
                s.lemma_filter_contains_rev(keep, a);
                s.lemma_filter_pred(keep, c.index_of(a));
            }
            if s.contains(a) && ids.contains(a.id) {
                s.lemma_filter_contains(keep, s.index_of(a));
            }
        }
        if origs.contains(a) {
            let j = origs.index_of(a);
            assert(c.contains(c[at]) && c.contains(c[0]) && (0 <= j < c.len() ==> c.contains(
                c[j],
            )));
        }
        if c.contains(a) {
            let j = c.index_of(a);
            if j == 0 {
                assert(origs[at] == a);
            } else if j == at {
                assert(origs[0] == a);
            } else {
                assert(origs[j] == a);
            }
        }
    }
}

proof fn lemma_touched(all: Seq<AnnV>, s: Seq<AnnV>, page: usize, rect: PdfRect, x: u64)
    requires
        ascending(all),
    ensures
        touched(all, s, page, rect).contains(x) <==> exists|i: int|
            0 <= i < s.len() && (#[trigger] s[i]).page == page && s[i].rect.meets(rect)
                && goes_with(all, s[i].id, x),
    decreases s.len(),
{
    if s.len() > 0 {
        let t = s.drop_last();
        let n = s.len() - 1;
        lemma_touched(all, t, page, rect, x);
        law_a_click_takes_the_group(all, s.last().id);
        let (b, r) = (touched(all, t, page, rect), touched(all, s, page, rect));
        let g = group_with(all, s.last().id);
        if s.last().page == page && s.last().rect.meets(rect) {
            assert(r == b + g);
            if r.contains(x) {
                let k = r.index_of(x);
                if k < b.len() {
                    assert(b[k] == x);
                } else {
                    assert(g[k - b.len()] == x);
                    assert(g.contains(x));
                    assert(s[n] == s.last());
                }
            }
            if b.contains(x) {
                assert(r[b.index_of(x)] == x);
            }
            if g.contains(x) {
                assert(r[b.len() + g.index_of(x)] == x);
            }
        }
        if exists|i: int|
            0 <= i < t.len() && (#[trigger] t[i]).page == page && t[i].rect.meets(rect)
                && goes_with(all, t[i].id, x) {
            let i = choose|i: int|
                0 <= i < t.len() && (#[trigger] t[i]).page == page && t[i].rect.meets(rect)
                    && goes_with(all, t[i].id, x);
            assert(s[i] == t[i]);
        }
        if exists|i: int|
            0 <= i < s.len() && (#[trigger] s[i]).page == page && s[i].rect.meets(rect)
                && goes_with(all, s[i].id, x) {
            let i = choose|i: int|
                0 <= i < s.len() && (#[trigger] s[i]).page == page && s[i].rect.meets(rect)
                    && goes_with(all, s[i].id, x);
            if i < n {
                assert(t[i] == s[i]);
            }
        }
    }
}

/// A box drawn over a page selects every annotation of the page that it has a
/// point in common with, and what those are grouped with, and nothing else;
/// with shift, on top of what was selected. One less than a point each way was
/// a click, and selects nothing.
pub proof fn law_a_box_selects_what_it_touches(
    d: DocV,
    p: PointerInfo,
    page: usize,
    start: PdfPoint,
    current: PdfPoint,
    x: u64,
)
    requires
        d.store.ok(),
        d.ctl.state == (StateV::Marquee { page, start, current }),
    ensures
        ({
            let e = released(d, p);
            let s = d.store.items;
            let (dx, dy) = (current.x - start.x, current.y - start.y);
            let under = exists|i: int|
                0 <= i < s.len() && (#[trigger] s[i]).page == page && s[i].rect.meets(
                    spanning(start, current),
                ) && goes_with(s, s[i].id, x);
            &&& e.ctl.state is Idle
            &&& e.store == d.store && e.history == d.history
            &&& -1000 < dx < 1000 && -1000 < dy < 1000 ==> e.selection == d.selection
            &&& !(-1000 < dx < 1000 && -1000 < dy < 1000) ==> (e.selection.ids.contains(x) <==> (
            p.modifiers.shift && d.selection.ids.contains(x)) || under)
        }),
{
    let s = d.store.items;
    let rect = spanning(start, current);
    lemma_touched(s, s, page, rect, x);
    let ids = touched(s, s, page, rect);
    assert(ids.to_set().contains(x) <==> ids.contains(x));
}

proof fn lemma_left_filter(s: Seq<AnnV>, ids: Set<u64>)
    ensures
        left(s, ids) == s.filter(|a: AnnV| !ids.contains(a.id)),
    decreases s.len(),
{
    reveal(Seq::filter);
    if s.len() > 0 {
        lemma_left_filter(s.drop_last(), ids);
    } else {
        assert(left(s, ids) =~= s.filter(|a: AnnV| !ids.contains(a.id)));
    }
}

/// Deleting takes out everything that is selected and leaves everything else,
/// in order, with nothing selected.
pub proof fn law_deleting_takes_all_of_the_selection(d: DocV)
    ensures
        deleted(d).store.items == d.store.items.filter(
            |a: AnnV| !d.selection.ids.contains(a.id),
        ),
        deleted(d).store.next == d.store.next,
        (exists|i: int|
            0 <= i < d.store.items.len() && d.selection.ids.contains(
                (#[trigger] d.store.items[i]).id,
            )) ==> (forall|x: u64| !#[trigger] deleted(d).selection.ids.contains(x)),
{
    let s = d.store.items;
    let ids = d.selection.ids;
    let keep = |a: AnnV| !ids.contains(a.id);
    let pick = |a: AnnV| ids.contains(a.id);
    lemma_left_filter(s, ids);
    law_all_of_the_chosen_are_chosen(s, ids);
    if chosen(s, ids).len() == 0 {
        assert forall|i: int| 0 <= i < s.len() implies !ids.contains((#[trigger] s[i]).id) by {
            if ids.contains(s[i].id) {
                s.lemma_filter_contains(pick, i);
                assert(s.filter(pick)[s.filter(pick).index_of(s[i])] == s[i]);
            }
        }
        lemma_all_kept(s, keep);
    } else {
        let k = chosen(s, ids)[0];
        s.lemma_filter_pred(pick, 0);
    }
}

proof fn lemma_all_kept(s: Seq<AnnV>, keep: spec_fn(AnnV) -> bool)
    requires
        forall|i: int| 0 <= i < s.len() ==> keep(#[trigger] s[i]),
    ensures
        s.filter(keep) == s,
    decreases s.len(),
{
    reveal(Seq::filter);
    if s.len() > 0 {
        let t = s.drop_last();
        assert forall|i: int| 0 <= i < t.len() implies keep(#[trigger] t[i]) by {
            assert(t[i] == s[i]);
        }
        lemma_all_kept(t, keep);
        assert(keep(s[s.len() - 1]));
    }
}

proof fn lemma_outside_filter(s: Seq<AnnV>, group: Option<u64>)
    ensures
        outside(s, group) == s.filter(|a: AnnV| a.group != group),
    decreases s.len(),
{
    reveal(Seq::filter);
    if s.len() > 0 {
        lemma_outside_filter(s.drop_last(), group);
    } else {
        assert(outside(s, group) =~= s.filter(|a: AnnV| a.group != group));
    }
}

proof fn lemma_regrouped(d: DocV, group: Option<u64>, j: int)
    requires
        ascending(d.store.items),
        0 <= j < d.store.items.len(),
    ensures
        ({
            let s = d.store.items;
            let r = regrouped(d, chosen(s, d.selection.ids), group).0.store.items;
            &&& r.len() == s.len()
            &&& r[j] == if d.selection.ids.contains(s[j].id) {
                AnnV { group, ..s[j] }
            } else {
                s[j]
            }
        }),
{
    let s = d.store.items;
    let ids = d.selection.ids;
    let who = chosen(s, ids);
    let befores = outside(who, group);
    let afters = all_in(befores, group);
    let pick = |a: AnnV| ids.contains(a.id);
    let out = |a: AnnV| a.group != group;
    law_all_of_the_chosen_are_chosen(s, ids);
    lemma_outside_filter(who, group);
    assert forall|k: int| 0 <= k < befores.len() implies exists|i: int|
        0 <= i < s.len() && (#[trigger] s[i]) == (#[trigger] befores[k]) && ids.contains(s[i].id)
            && s[i].group != group by {
        who.lemma_filter_pred(out, k);
        assert(befores.contains(befores[k]));
        who.lemma_filter_contains_rev(out, befores[k]);
        let w = who.index_of(befores[k]);
        s.lemma_filter_pred(pick, w);
        s.lemma_filter_contains_rev(pick, befores[k]);
        let i = s.index_of(befores[k]);
        assert(s[i] == befores[k]);
    }
    lemma_chosen_ascends(s, ids);
    crate::tools::laws::lemma_outside(who, group);
    assert(distinct(afters)) by {
        assert forall|a: int, b: int| 0 <= a < b < afters.len() implies (#[trigger] afters[a]).id
            != (#[trigger] afters[b]).id by {
            assert(befores[a].id < befores[b].id);
        }
    }
    lemma_put_all(s, afters, j);
    if ids.contains(s[j].id) && s[j].group != group {
        s.lemma_filter_contains(pick, j);
        let w = who.index_of(s[j]);
        assert(who[w] == s[j]);
        who.lemma_filter_contains(out, w);
        let k = befores.index_of(s[j]);
        assert(befores[k] == s[j]);
        assert(afters[k].id == s[j].id);
        assert(afters[k] == (AnnV { group, ..s[j] }));
    } else {
        assert forall|k: int| 0 <= k < afters.len() implies (#[trigger] afters[k]).id != s[j].id by {
            assert(afters[k].id == befores[k].id);
            let i = choose|i: int|
                0 <= i < s.len() && (#[trigger] s[i]) == befores[k] && ids.contains(s[i].id)
                    && s[i].group != group;
            if s[i].id == s[j].id {
                lemma_place(s, i);
                lemma_place(s, j);
            }
        }
        assert(AnnV { group: s[j].group, ..s[j] } == s[j]);
    }
}

/// Tying a selection together puts every one of it in one group, which nothing
/// else is in, and changes nothing else; it takes two to tie.
pub proof fn law_grouping_ties_the_selection(d: DocV, j: int)
    requires
        d.store.ok(),
        0 <= j < d.store.items.len(),
        top_group(d.store.items) < u64::MAX,
    ensures
        ({
            let s = d.store.items;
            let r = grouped(d).0.store.items;
            let picked = s.filter(|a: AnnV| d.selection.ids.contains(a.id));
            &&& r.len() == s.len()
            &&& grouped(d).1 <==> picked.len() >= 2
            &&& !grouped(d).1 ==> grouped(d).0 == d
            &&& grouped(d).1 && d.selection.ids.contains(s[j].id) ==> exists|g: u64|
                (forall|i: int| 0 <= i < s.len() ==> (#[trigger] s[i]).group != Some(g)) && r[j]
                    == (AnnV { group: #[trigger] some(g), ..s[j] }) && forall|i: int|
                    0 <= i < s.len() && d.selection.ids.contains(s[i].id) ==> (#[trigger] r[i]).group
                        == Some(g)
            &&& !d.selection.ids.contains(s[j].id) ==> r[j] == s[j]
        }),
{
    let s = d.store.items;
    let ids = d.selection.ids;
    let who = chosen(s, ids);
    let g = following(top_group(s));
    law_all_of_the_chosen_are_chosen(s, ids);
    if who.len() >= 2 {
        let r = grouped(d).0.store.items;
        lemma_outside_filter(who, Some(g));
        assert forall|i: int| 0 <= i < s.len() implies (#[trigger] s[i]).group != Some(g) by {
            crate::doc::store::law_next_group_is_new(s, i);
        }
        let first = who[0];
        s.lemma_filter_pred(|a: AnnV| ids.contains(a.id), 0);
        assert(who.contains(who[0]));
        s.lemma_filter_contains_rev(|a: AnnV| ids.contains(a.id), who[0]);
        let f = s.index_of(who[0]);
        assert(s[f] == who[0]);
        who.lemma_filter_contains(|a: AnnV| a.group != Some(g), 0);
        let b = who.filter(|a: AnnV| a.group != Some(g));
        assert(b[b.index_of(who[0])] == who[0]);
        assert forall|i: int| 0 <= i < s.len() && ids.contains(s[i].id) implies (#[trigger] r[i]).group
            == Some(g) by {
            lemma_regrouped(d, Some(g), i);
        }
        lemma_regrouped(d, Some(g), j);
        assert(some(g) == Some(g));
    }
}

/// `g` as the group an annotation may have.
pub open spec fn some(g: u64) -> Option<u64> {
    Some(g)
}

/// Untying a selection takes every one of it out of its group, and changes
/// nothing else.
pub proof fn law_ungrouping_unties_the_selection(d: DocV, j: int)
    requires
        d.store.ok(),
        0 <= j < d.store.items.len(),
    ensures
        ungrouped(d).0.store.items.len() == d.store.items.len(),
        ungrouped(d).0.store.items[j] == (if d.selection.ids.contains(d.store.items[j].id) {
            AnnV { group: None, ..d.store.items[j] }
        } else {
            d.store.items[j]
        }),
{
    lemma_regrouped(d, None, j);
}

// ---------------------------------------------------------------------------
// Handles
// ---------------------------------------------------------------------------

/// Whether `pos` is no further than `tol` from `at`, across and up.
pub open spec fn within(pos: PdfPoint, at: PdfPoint, tol: int) -> bool {
    -tol <= pos.x - at.x <= tol && -tol <= pos.y - at.y <= tol
}

proof fn lemma_corner_at(points: Seq<PdfPoint>, from: int, pos: PdfPoint, tol: int)
    requires
        0 <= from,
        points.len() <= usize::MAX,
    ensures
        match corner_at(points, from, pos, tol) {
            Some(h) => h matches Handle::Vertex(k) && from <= k < points.len() && within(
                pos,
                points[k as int],
                tol,
            ) && forall|i: int| from <= i < k ==> !within(pos, #[trigger] points[i], tol),
            None => forall|i: int|
                from <= i < points.len() ==> !within(pos, #[trigger] points[i], tol),
        },
    decreases points.len() - from,
{
    if from < points.len() {
        lemma_corner_at(points, from + 1, pos, tol);
    }
}

/// The handle taken hold of is one that the pointer is on, the first such; and
/// there is none where the pointer is on none. A line has its two ends, an
/// outline its corners, and anything else the corners and side middles of its
/// box.
pub proof fn law_a_handle_is_under_the_pointer(a: AnnV, pos: PdfPoint, tol: int)
    requires
        crate::doc::laws::points_of(a.kind).len() <= usize::MAX,
    ensures
        ({
            let (l, r) = (a.rect.min.x, a.rect.max.x);
            let (b, t) = (a.rect.min.y, a.rect.max.y);
            let mx = crate::doc::geometry::sat((l + r) / 2);
            let my = crate::doc::geometry::sat((b + t) / 2);
            match a.kind {
                KindV::Line { p1, p2, .. } => match grip(a, pos, tol) {
                    Some(Handle::LineStart) => within(pos, p1, tol),
                    Some(Handle::LineEnd) => within(pos, p2, tol) && !within(pos, p1, tol),
                    Some(_) => false,
                    None => !within(pos, p1, tol) && !within(pos, p2, tol),
                },
                KindV::Polygon { points, .. } | KindV::PolyLine { points, .. } => match grip(
                    a,
                    pos,
                    tol,
                ) {
                    Some(Handle::Vertex(k)) => k < points.len() && within(
                        pos,
                        points[k as int],
                        tol,
                    ) && forall|i: int| 0 <= i < k ==> !within(pos, #[trigger] points[i], tol),
                    Some(_) => false,
                    None => forall|i: int|
                        0 <= i < points.len() ==> !within(pos, #[trigger] points[i], tol),
                },
                _ => match grip(a, pos, tol) {
                    Some(Handle::Nw) => within(pos, PdfPoint { x: l, y: t }, tol),
                    Some(Handle::N) => within(pos, PdfPoint { x: mx, y: t }, tol),
                    Some(Handle::Ne) => within(pos, PdfPoint { x: r, y: t }, tol),
                    Some(Handle::E) => within(pos, PdfPoint { x: r, y: my }, tol),
                    Some(Handle::Se) => within(pos, PdfPoint { x: r, y: b }, tol),
                    Some(Handle::S) => within(pos, PdfPoint { x: mx, y: b }, tol),
                    Some(Handle::Sw) => within(pos, PdfPoint { x: l, y: b }, tol),
                    Some(Handle::W) => within(pos, PdfPoint { x: l, y: my }, tol),
                    Some(_) => false,
                    None => !within(pos, PdfPoint { x: l, y: t }, tol) && !within(
                        pos,
                        PdfPoint { x: mx, y: t },
                        tol,
                    ) && !within(pos, PdfPoint { x: r, y: t }, tol) && !within(
                        pos,
                        PdfPoint { x: r, y: my },
                        tol,
                    ) && !within(pos, PdfPoint { x: r, y: b }, tol) && !within(
                        pos,
                        PdfPoint { x: mx, y: b },
                        tol,
                    ) && !within(pos, PdfPoint { x: l, y: b }, tol) && !within(
                        pos,
                        PdfPoint { x: l, y: my },
                        tol,
                    ),
                },
            }
        }),
{
    match a.kind {
        KindV::Line { .. } => {},
        KindV::Polygon { points, .. } => lemma_corner_at(points, 0, pos, tol),
        KindV::PolyLine { points, .. } => lemma_corner_at(points, 0, pos, tol),
        _ => {
            reveal_with_fuel(first_close, 9);
        },
    }
}

// ---------------------------------------------------------------------------
// What a click puts down
// ---------------------------------------------------------------------------

/// The text tool puts an empty text box down, in the current font and style,
/// with its top left corner where the click was and room for a line, selected
/// and being typed into; and the select tool is back.
pub proof fn law_text_begins_where_it_is_clicked(d: DocV, p: PointerInfo)
    requires
        d.store.ok(),
        d.store.next < u64::MAX,
        d.tool is Text,
        -0x1000_0000 <= p.pos.x <= 0x1000_0000,
        -0x1000_0000 <= p.pos.y <= 0x1000_0000,
        d.font_size <= 0x1000_0000,
    ensures
        ({
            let e = pressed(d, p);
            let id = d.store.next;
            &&& e.editing_text == Some(id)
            &&& e.ctl.focus && e.ctl.editing_before is None
            &&& e.tool is Select
            &&& e.history == d.history
            &&& e.selection.primary == Some(id)
            &&& forall|x: u64| #[trigger] e.selection.ids.contains(x) <==> x == id
            &&& forall|other: u64|
                other != id ==> #[trigger] lookup(e.store.items, other) == lookup(
                    d.store.items,
                    other,
                )
            &&& (lookup(e.store.items, id) matches Some(a) && a.page == p.page && a.style == d.style
                && a.rect.min.x == p.pos.x && a.rect.max.y == p.pos.y && a.rect.max.x - a.rect.min.x
                == 180_000 && a.rect.max.y - a.rect.min.y >= d.font_size && a.rect.max.y
                - a.rect.min.y >= 28_000 && (a.kind matches KindV::TextBox { text, font_size, .. }
                && text.len() == 0 && font_size == d.font_size))
        }),
{
    let e = pressed(d, p);
    let id = d.store.next;
    let a = AnnV {
        id,
        page: p.page,
        kind: KindV::TextBox {
            text: Seq::empty(),
            font_size: d.font_size,
            align: crate::doc::annotation::TextAlign::Left,
        },
        rect: spanning(
            p.pos,
            p.pos.plus(180_000, -crate::tools::press::text_height(d.font_size as int)),
        ),
        style: d.style,
        group: None,
    };
    assert(e.store == d.store.inserted(a));
    lemma_gained(d, a);
    assert(gained(d, crate::tools::added(d, a), a));
    assert forall|other: u64| other != id implies #[trigger] lookup(e.store.items, other) == lookup(
        d.store.items,
        other,
    ) by {
        assert(lookup(crate::tools::added(d, a).store.items, other) == lookup(
            d.store.items,
            other,
        ));
    }
    assert(lookup(crate::tools::added(d, a).store.items, id) == Some(a));
    assert(forall|x: u64| #[trigger]
        crate::tools::added(d, a).selection.ids.contains(x) <==> x == id);
}

/// The stamp tool puts its words down on the page it is clicked on, in the
/// stamp's own size, in a box around the click; blank words put nothing down.
pub proof fn law_a_stamp_says_its_words(d: DocV, p: PointerInfo)
    requires
        d.store.ok(),
        d.store.next < u64::MAX,
        d.tool is Stamp,
    ensures
        ({
            let e = pressed(d, p);
            let words = stamp_says(d);
            let blank = forall|i: int| 0 <= i < words.len() ==> white_space(#[trigger] words[i]);
            &&& blank ==> e == d
            &&& !blank ==> exists|a: AnnV| #[trigger]
                gained(d, e, a) && a.page == p.page && a.kind == (KindV::Stamp {
                    text: words,
                    font_size: d.ctl.stamp_font,
                }) && a.rect == stamp_box(p.pos, words, d.ctl.stamp_font as int, false)
                    && a.style.opacity == d.style.opacity && a.group is None
        }),
{
    let e = pressed(d, p);
    let words = stamp_says(d);
    law_trimming_takes_only_white_space(words);
    let (from, to) = choose|from: int, to: int|
        0 <= from <= to <= words.len() && trimmed(words) == #[trigger] words.subrange(from, to)
            && crate::text::all_white(words.take(from)) && crate::text::all_white(words.skip(to));
    if crate::text::blank(words) {
        assert forall|i: int| 0 <= i < words.len() implies white_space(#[trigger] words[i]) by {
            if i < from {
                assert(words.take(from)[i] == words[i]);
            } else {
                assert(words.skip(to)[i - to] == words[i]);
            }
        }
    } else {
        assert(!white_space(words[from])) by {
            assert(trimmed(words)[0] == words[from]);
        }
        let a = AnnV {
            id: d.store.next,
            page: p.page,
            kind: KindV::Stamp { text: words, font_size: d.ctl.stamp_font },
            rect: stamp_box(p.pos, words, d.ctl.stamp_font as int, false),
            style: crate::tools::stamped(d.style.opacity),
            group: None,
        };
        lemma_gained(d, a);
        assert(gained(d, e, a));
    }
}

/// The sequence tool puts its next number down behind its prefix, and counts
/// one on; and the number can be read off what it put down.
pub proof fn law_a_sequence_counts_on(d: DocV, p: PointerInfo)
    requires
        d.store.ok(),
        d.store.next < u64::MAX,
        d.tool is Sequence,
    ensures
        ({
            let e = pressed(d, p);
            &&& d.ctl.next < u32::MAX ==> e.ctl.next == d.ctl.next + 1
            &&& e.ctl.prefix == d.ctl.prefix
            &&& exists|a: AnnV| #[trigger]
                gained(d, e, a) && a.page == p.page && (a.kind matches KindV::Stamp {
                    text,
                    font_size,
                } && font_size == 12_000 && text.len() > d.ctl.prefix.len() && text.take(
                    d.ctl.prefix.len() as int,
                ) == d.ctl.prefix && text.skip(d.ctl.prefix.len() as int) == decimal(
                    d.ctl.next as nat,
                ) && a.rect == stamp_box(p.pos, text, 12_000, true))
        }),
{
    let e = pressed(d, p);
    let text = d.ctl.prefix + decimal(d.ctl.next as nat);
    law_decimal_round_trip(d.ctl.next as nat, u32::MAX as nat);
    let a = AnnV {
        id: d.store.next,
        page: p.page,
        kind: KindV::Stamp { text, font_size: 12_000 },
        rect: stamp_box(p.pos, text, 12_000, true),
        style: crate::tools::stamped(d.style.opacity),
        group: None,
    };
    lemma_gained(d, a);
    let n = d.ctl.prefix.len() as int;
    assert(text.take(n) =~= d.ctl.prefix);
    assert(text.skip(n) =~= decimal(d.ctl.next as nat));
    assert(gained(d, e, a));
}

/// The number put down behind a prefix is the number read off it, whatever the
/// prefix, so long as that does not begin with white space.
pub proof fn law_a_number_is_read_back(prefix: Seq<char>, n: u32)
    requires
        prefix.len() > 0 ==> !white_space(prefix[0]),
    ensures
        number_on(prefix + decimal(n as nat), prefix) == Some(n as nat),
{
    let num = decimal(n as nat);
    let text = prefix + num;
    law_decimal_round_trip(n as nat, u32::MAX as nat);
    assert(crate::text::is_digit(num[0]));
    assert(crate::text::is_digit(num[num.len() - 1]));
    assert(text[0] == if prefix.len() > 0 {
        prefix[0]
    } else {
        num[0]
    });
    assert(text.last() == num.last());
    assert(!white_space(text[0]));
    assert(!white_space(text.last()));
    assert(trimmed(text) == text);
    assert(text.take(prefix.len() as int) =~= prefix);
    assert(text.skip(prefix.len() as int) =~= num);
}

/// The picture tool puts the picture that was chosen down, in a box around the
/// click, where the picture has a size.
pub proof fn law_a_picture_is_put_down(
    d: DocV,
    p: PointerInfo,
    png: Seq<u8>,
    size: Option<(u32, u32)>,
)
    requires
        d.store.ok(),
        d.store.next < u64::MAX,
    ensures
        ({
            let e = picture_pressed(d, p, png, size);
            match size {
                Some((w, h)) => if w == 0 || h == 0 {
                    e == d
                } else {
                    exists|a: AnnV| #[trigger]
                        gained(d, e, a) && a.page == p.page && a.kind == (KindV::ImageStamp { png })
                            && a.rect == picture_box(p.pos, w, h)
                },
                None => e == d,
            }
        }),
{
    if let Some((w, h)) = size {
        if w > 0 && h > 0 {
            let a = AnnV {
                id: d.store.next,
                page: p.page,
                kind: KindV::ImageStamp { png },
                rect: picture_box(p.pos, w, h),
                style: crate::tools::stamped(d.style.opacity),
                group: None,
            };
            lemma_gained(d, a);
            assert(gained(d, picture_pressed(d, p, png, size), a));
        }
    }
}

/// The other tools put nothing down when they are pressed: a pen starts a
/// stroke, a shape starts at the click with nothing selected, a vertex tool
/// adds the click to the vertices of its page, and panning does nothing.
pub proof fn law_a_press_begins_a_gesture(d: DocV, p: PointerInfo)
    requires
        d.tool is Pen || d.tool is Highlight || d.tool is Rect || d.tool is Ellipse
            || d.tool is Line || d.tool is Arrow || d.tool is Cloud || d.tool is Polygon
            || d.tool is PolyLine || d.tool is Pan,
    ensures
        ({
            let e = pressed(d, p);
            &&& e.store == d.store && e.history == d.history && e.tool == d.tool
            &&& d.tool is Pan ==> e == d
            &&& d.tool is Pen ==> e.selection == d.selection && e.ctl.state == (StateV::Drawing {
                page: p.page,
                points: seq![p.pos],
            })
            &&& !(d.tool is Pan) && !(d.tool is Pen) ==> forall|x: u64|
                !#[trigger] e.selection.ids.contains(x)
            &&& d.tool is Polygon || d.tool is PolyLine ==> (e.ctl.state matches StateV::Placing {
                page,
                points,
                hover,
            } && page == p.page && hover == p.pos && points.len() > 0 && points.last() == p.pos && (
            d.ctl.state matches StateV::Placing { page: on, points: were, .. } ==> points.drop_last()
                == if on == p.page {
                were
            } else {
                Seq::empty()
            }) && (!(d.ctl.state is Placing) ==> points.len() == 1))
            &&& d.tool is Highlight || d.tool is Rect || d.tool is Ellipse || d.tool is Line
                || d.tool is Arrow || d.tool is Cloud ==> e.ctl.state == (StateV::Creating {
                page: p.page,
                start: p.pos,
                current: p.pos,
            })
        }),
{
    if d.tool is Polygon || d.tool is PolyLine {
        if let StateV::Placing { page, points, .. } = d.ctl.state {
            if page == p.page {
                assert(points.push(p.pos).drop_last() =~= points);
            } else {
                assert(Seq::<PdfPoint>::empty().push(p.pos).drop_last() =~= Seq::empty());
            }
        }
    }
}

/// The box of a stamp is centred on the click and holds its words with room on
/// both sides; a square one is never taller than it is wide.
pub proof fn law_a_stamp_is_centred(at: PdfPoint, text: Seq<char>, font: int, square: bool)
    requires
        -0x1000_0000 <= at.x <= 0x1000_0000,
        -0x1000_0000 <= at.y <= 0x1000_0000,
        0 <= font <= 0x100_0000,
        0 <= line_width(text, font) <= 0x1000_0000,
    ensures
        ({
            let r = stamp_box(at, text, font, square);
            let (w, h) = (r.max.x - r.min.x, r.max.y - r.min.y);
            &&& 0 <= r.min.x + r.max.x - 2 * at.x <= 1
            &&& 0 <= r.min.y + r.max.y - 2 * at.y <= 1
            &&& 10 * h <= 19 * font < 10 * h + 10
            &&& w >= line_width(text, font)
            &&& square ==> w >= h && (w == h || 10 * (w - line_width(text, font)) <= 9 * font)
            &&& !square ==> 10 * (w - line_width(text, font)) <= 14 * font < 10 * (w - line_width(
                text,
                font,
            )) + 10
        }),
{
}

/// The box of a picture is centred on the click, keeps its proportions to the
/// thousandth, and is a point to the pixel unless that is more than 300 points
/// either way, when the longer side is exactly that.
pub proof fn law_a_picture_keeps_its_shape(at: PdfPoint, w: u32, h: u32)
    requires
        -0x1000_0000 <= at.x <= 0x1000_0000,
        -0x1000_0000 <= at.y <= 0x1000_0000,
        w > 0,
        h > 0,
    ensures
        ({
            let r = picture_box(at, w, h);
            let (a, b) = (r.max.x - r.min.x, r.max.y - r.min.y);
            &&& 0 <= r.min.x + r.max.x - 2 * at.x <= 1
            &&& 0 <= r.min.y + r.max.y - 2 * at.y <= 1
            &&& w <= 300 && h <= 300 ==> a == 1000 * w && b == 1000 * h
            &&& w > 300 && w >= h ==> a == 300_000 && b * w <= 300_000 * h < (b + 1) * w
            &&& h > 300 && h >= w ==> b == 300_000 && a * h <= 300_000 * w < (a + 1) * h
        }),
{
    let longest = if w >= h {
        w as int
    } else {
        h as int
    };
    if longest > 300 {
        let (a, b) = (300_000 * w / longest, 300_000 * h / longest);
        lemma_part(300_000 * (w as int), longest, a);
        lemma_part(300_000 * (h as int), longest, b);
        assert(0 <= a <= 300_000) by (nonlinear_arith)
            requires
                a * longest <= 300_000 * (w as int) < (a + 1) * longest,
                0 < longest,
                0 < w <= longest,
        ;
        assert(0 <= b <= 300_000) by (nonlinear_arith)
            requires
                b * longest <= 300_000 * (h as int) < (b + 1) * longest,
                0 < longest,
                0 < h <= longest,
        ;
        if longest == w {
            assert(a == 300_000) by (nonlinear_arith)
                requires
                    a * longest <= 300_000 * (w as int) < (a + 1) * longest,
                    0 < longest,
                    longest == w,
            ;
        }
        if longest == h {
            assert(b == 300_000) by (nonlinear_arith)
                requires
                    b * longest <= 300_000 * (h as int) < (b + 1) * longest,
                    0 < longest,
                    longest == h,
            ;
        }
    }
}

proof fn lemma_part(n: int, d: int, q: int)
    requires
        d > 0,
        q == n / d,
    ensures
        q * d <= n < (q + 1) * d,
{
    assert(q * d <= n < (q + 1) * d) by (nonlinear_arith)
        requires
            d > 0,
            q == n / d,
    ;
}

/// The pointer moving over the page of a vertex gesture moves where the next
/// vertex would go, and nothing else; anywhere else it does nothing.
pub proof fn law_hovering_moves_the_next_vertex(d: DocV, page: usize, pos: PdfPoint)
    ensures
        ({
            let e = hovered(d, page, pos);
            &&& e.store == d.store && e.history == d.history && e.selection == d.selection
            &&& d.ctl.state.page() != Some(page) || !(d.ctl.state is Placing) ==> e == d
            &&& d.ctl.state.page() == Some(page) && d.ctl.state is Placing ==> (e.ctl.state
                matches StateV::Placing { page: on, points, hover } && on == page && hover == pos
                && points == d.ctl.state->Placing_points)
        }),
{
}

/// Picking another tool up drops whatever was in progress, and keeps the markup
/// and the selection; picking the same one up again drops nothing. The sequence
/// tool takes its number from the markup.
pub proof fn law_a_tool_is_picked_up(d: DocV, tool: ActiveTool)
    ensures
        ({
            let e = picked_up(d, tool);
            &&& e.tool == tool
            &&& e.selection == d.selection && e.history == d.history
            &&& d.tool != tool ==> e.ctl.state is Idle
            &&& d.tool == tool ==> e.ctl.state == d.ctl.state && e.store == d.store
            &&& !(d.ctl.state is Dragging) && !(d.ctl.state is Resizing) ==> e.store == d.store
            &&& tool is Sequence ==> e.ctl.next == number_after(e.store.items, d.ctl.prefix)
            &&& !(tool is Sequence) ==> e.ctl.next == d.ctl.next
        }),
{
}

/// The sequence tool carries on from the highest number already there: one more
/// than some stamp has and no stamp has more, and one where no stamp has any.
pub proof fn law_numbering_carries_on_from_the_highest(s: Seq<AnnV>, prefix: Seq<char>)
    ensures
        number_after(s, prefix) >= 1,
        1 < number_after(s, prefix) < u32::MAX ==> exists|i: int|
            0 <= i < s.len() && numbered(#[trigger] s[i], prefix, number_after(s, prefix) - 1),
        forall|i: int, n: int|
            0 <= i < s.len() && #[trigger] numbered(s[i], prefix, n) ==> n < number_after(s, prefix)
                || number_after(s, prefix) == u32::MAX,
{
    lemma_highest_number(s, prefix);
}

/// Whether an annotation is a stamp with this number behind the prefix.
pub open spec fn numbered(a: AnnV, prefix: Seq<char>, n: int) -> bool {
    a.kind matches KindV::Stamp { text, .. } && (number_on(text, prefix) matches Some(m) && m == n)
}

proof fn lemma_highest_number(s: Seq<AnnV>, prefix: Seq<char>)
    ensures
        match crate::tools::highest_number(s, prefix) {
            Some(h) => (exists|i: int| 0 <= i < s.len() && numbered(#[trigger] s[i], prefix, h as int))
                && forall|i: int, n: int|
                0 <= i < s.len() && #[trigger] numbered(s[i], prefix, n) ==> n <= h,
            None => forall|i: int, n: int|
                0 <= i < s.len() ==> !#[trigger] numbered(s[i], prefix, n),
        },
    decreases s.len(),
{
    if s.len() > 0 {
        let t = s.drop_last();
        lemma_highest_number(t, prefix);
        let (b, h) = (
            crate::tools::highest_number(t, prefix),
            crate::tools::highest_number(s, prefix),
        );
        let last = s.len() - 1;
        assert(s[last] == s.last());
        assert forall|i: int, n: int| 0 <= i < s.len() && #[trigger] numbered(
            s[i],
            prefix,
            n,
        ) implies (h matches Some(m) && n <= m) by {
            if i < last {
                assert(t[i] == s[i]);
                assert(numbered(t[i], prefix, n));
            }
        }
        if let Some(m) = h {
            if b == h && !numbered(s[last], prefix, m as int) {
                let i = choose|i: int|
                    0 <= i < t.len() && numbered(#[trigger] t[i], prefix, m as int);
                assert(s[i] == t[i]);
            } else {
                assert(numbered(s[last], prefix, m as int));
            }
        }
    }
}

/// A fresh text box has room for one line at its font size and a little more,
/// and at least twenty-eight points; what is typed in it starts on the left.
pub proof fn law_a_text_box_has_room_for_a_line(d: DocV, p: PointerInfo)
    requires
        d.store.ok(),
        d.store.next < u64::MAX,
        d.tool is Text,
        -0x1000_0000 <= p.pos.x <= 0x1000_0000,
        -0x1000_0000 <= p.pos.y <= 0x1000_0000,
        d.font_size <= 0x1000_0000,
    ensures
        lookup(pressed(d, p).store.items, d.store.next) matches Some(a) && {
            let h = a.rect.max.y - a.rect.min.y;
            &&& h == 28_000 || 10 * (h - 8000) <= 14 * d.font_size < 10 * (h - 8000) + 10
            &&& h == 28_000 ==> 14 * d.font_size < 200_010
            &&& a.kind matches KindV::TextBox { align, .. } && align
                == crate::doc::annotation::TextAlign::Left
        },
{
    law_text_begins_where_it_is_clicked(d, p);
    let a = AnnV {
        id: d.store.next,
        page: p.page,
        kind: KindV::TextBox {
            text: Seq::empty(),
            font_size: d.font_size,
            align: crate::doc::annotation::TextAlign::Left,
        },
        rect: spanning(
            p.pos,
            p.pos.plus(180_000, -crate::tools::press::text_height(d.font_size as int)),
        ),
        style: d.style,
        group: None,
    };
    lemma_gained(d, a);
    assert(gained(d, crate::tools::added(d, a), a));
    assert(pressed(d, p).store == crate::tools::added(d, a).store);
}

/// With one annotation selected, a press on one of its handles, or within one
/// and a half times the tolerance of it, takes hold of that handle and changes
/// nothing; anywhere else, on another page, or with several selected or none, a
/// press takes hold of no handle.
pub proof fn law_a_press_takes_hold_of_a_handle(d: DocV, p: PointerInfo, id: u64, a: AnnV)
    requires
        d.tool is Select,
        d.selection.primary == Some(id),
        lookup(d.store.items, id) == Some(a),
        !(d.ctl.state is Resizing),
    ensures
        ({
            let e = pressed(d, p);
            let handle = grip(a, p.pos, p.tol * 3 / 2);
            let alone = d.selection.ids.len() == 1 && a.page == p.page;
            &&& alone ==> (handle matches Some(h) ==> e.ctl.state == (StateV::Resizing {
                orig: a,
                handle: h,
            }) && e.selection == d.selection && e.store == d.store && e.history == d.history)
            &&& handle is None || !alone ==> !(e.ctl.state is Resizing)
        }),
{
}

/// The number read off a stamp stands behind the prefix, and nothing else does.
pub proof fn law_a_number_stands_behind_its_prefix(text: Seq<char>, prefix: Seq<char>)
    ensures
        number_on(text, prefix) matches Some(n) ==> {
            let t = trimmed(text);
            &&& t.len() > prefix.len()
            &&& t.take(prefix.len() as int) == prefix
            &&& forall|i: int| prefix.len() <= i < t.len() ==> '0' <= #[trigger] t[i] <= '9'
            &&& n <= u32::MAX
        },
{
    if number_on(text, prefix) is Some {
        let t = trimmed(text);
        let rest = t.skip(prefix.len() as int);
        assert forall|i: int| prefix.len() <= i < t.len() implies '0' <= #[trigger] t[i] <= '9' by {
            assert(rest[i - prefix.len()] == t[i]);
            assert(crate::text::is_digit(rest[i - prefix.len()]));
        }
    }
}

} // verus!
