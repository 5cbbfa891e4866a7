//! What the tools promise of whole gestures: that what was done can be undone
//! in one step, that what is given up leaves no trace, and that a selection
//! moves as one.

use vstd::prelude::*;

use crate::doc::annotation::{ann_plus, AnnV};
use crate::doc::history::{
    applies, applies_all, forward, forward_all, law_undo_restores, undone, undone_all, CommandV,
};
use crate::doc::store::{
    ascending, chosen, law_remove_undoes_insert, lemma_edits_ok, lemma_place, lookup, place, put,
    stored, without, StoreV,
};
use crate::state::DocV;
use crate::tools::drag::{all_plus, dragged, drift, ids_of, put_all};
use crate::tools::edit::{
    all_in, deleted, grouped, left, modifications, modified, nudged, outside, removals, ungrouped,
};
use crate::tools::press::{led_by, lemma_chosen_ascends, pressed};
use crate::tools::release::{as_one, cancelled, changes, released, stepped};
use crate::tools::{added, highest_number, number_after, number_on, PointerInfo, StateV};

verus! {

/// Whether no two of `v` have the same id.
pub open spec fn distinct(v: Seq<AnnV>) -> bool {
    forall|i: int, j: int|
        0 <= i < j < v.len() ==> (#[trigger] v[i]).id != (#[trigger] v[j]).id
}

/// What a gesture is moving or reshaping, as it was when it began.
pub open spec fn in_hand(state: StateV) -> Seq<AnnV> {
    match state {
        StateV::Dragging { origs, .. } => origs,
        StateV::Resizing { orig, .. } => seq![orig],
        _ => Seq::empty(),
    }
}

/// Whether `items` is `base` but for what a gesture has in hand: `origs` are as
/// they are in `base`, and everything else of `items` is untouched.
pub open spec fn adrift(base: Seq<AnnV>, items: Seq<AnnV>, origs: Seq<AnnV>) -> bool {
    &&& ascending(base)
    &&& items.len() == base.len()
    &&& distinct(origs)
    &&& forall|k: int|
        0 <= k < origs.len() ==> lookup(base, (#[trigger] origs[k]).id) == Some(origs[k])
    &&& forall|j: int|
        0 <= j < base.len() ==> (#[trigger] items[j]).id == base[j].id && (!ids_of(origs).contains(
            base[j].id,
        ) ==> items[j] == base[j])
}

proof fn lemma_ids_of(s: Seq<AnnV>, id: u64)
    ensures
        ids_of(s).contains(id) <==> exists|k: int| 0 <= k < s.len() && (#[trigger] s[k]).id == id,
{
    let m = s.map_values(|a: AnnV| a.id);
    if ids_of(s).contains(id) {
        let k = m.index_of(id);
        assert(s[k].id == id);
    }
    if exists|k: int| 0 <= k < s.len() && (#[trigger] s[k]).id == id {
        let k = choose|k: int| 0 <= k < s.len() && (#[trigger] s[k]).id == id;
        assert(m[k] == id);
        assert(m.contains(id));
    }
}

pub proof fn lemma_put_all(s: Seq<AnnV>, v: Seq<AnnV>, j: int)
    requires
        distinct(v),
        0 <= j < s.len(),
    ensures
        put_all(s, v).len() == s.len(),
        put_all(s, v)[j].id == s[j].id,
        forall|k: int|
            0 <= k < v.len() && (#[trigger] v[k]).id == s[j].id ==> put_all(s, v)[j] == v[k],
        (forall|k: int| 0 <= k < v.len() ==> (#[trigger] v[k]).id != s[j].id) ==> put_all(s, v)[j]
            == s[j],
    decreases v.len(),
{
    if v.len() > 0 {
        let w = v.drop_last();
        assert(distinct(w)) by {
            assert forall|a: int, b: int| 0 <= a < b < w.len() implies (#[trigger] w[a]).id != (
            #[trigger] w[b]).id by {
                assert(v[a].id != v[b].id);
            }
        }
        lemma_put_all(s, w, j);
        assert forall|k: int| 0 <= k < v.len() && (#[trigger] v[k]).id == s[j].id implies put_all(
            s,
            v,
        )[j] == v[k] by {
            if k < v.len() - 1 {
                assert(w[k] == v[k]);
                assert(v[k].id != v[v.len() - 1].id);
            }
        }
        if forall|k: int| 0 <= k < v.len() ==> (#[trigger] v[k]).id != s[j].id {
            assert forall|k: int| 0 <= k < w.len() implies (#[trigger] w[k]).id != s[j].id by {
                assert(w[k] == v[k]);
            }
            assert(v[v.len() - 1].id != s[j].id);
        }
    }
}

/// Whether `cs` are changes, each to an annotation of its own.
spec fn separate(cs: Seq<CommandV>) -> bool {
    &&& forall|k: int|
        0 <= k < cs.len() ==> (#[trigger] cs[k]) is Modify && cs[k]->before.id
            == cs[k]->Modify_after.id
    &&& forall|a: int, b: int|
        0 <= a < b < cs.len() ==> (#[trigger] cs[a])->before.id != (#[trigger] cs[b])->before.id
}

proof fn lemma_undone_changes(cs: Seq<CommandV>, st: StoreV, j: int)
    requires
        separate(cs),
        0 <= j < st.items.len(),
    ensures
        undone_all(cs, st).items.len() == st.items.len(),
        forall|k: int|
            0 <= k < cs.len() && (#[trigger] cs[k])->before.id == st.items[j].id ==> undone_all(
                cs,
                st,
            ).items[j] == cs[k]->before,
        (forall|k: int| 0 <= k < cs.len() ==> (#[trigger] cs[k])->before.id != st.items[j].id)
            ==> undone_all(cs, st).items[j] == st.items[j],
    decreases cs.len(),
{
    if cs.len() > 0 {
        let ds = cs.drop_last();
        let last = cs.last();
        assert(cs[cs.len() - 1] == last);
        let next = undone(last, st);
        assert(separate(ds)) by {
            assert forall|k: int| 0 <= k < ds.len() implies (#[trigger] ds[k]) is Modify
                && ds[k]->before.id == ds[k]->Modify_after.id by {
                assert(ds[k] == cs[k]);
            }
            assert forall|a: int, b: int| 0 <= a < b < ds.len() implies (
            #[trigger] ds[a])->before.id != (#[trigger] ds[b])->before.id by {
                assert(ds[a] == cs[a] && ds[b] == cs[b]);
            }
        }
        assert(next.items == put(st.items, last->before));
        lemma_undone_changes(ds, next, j);
        assert(next.items[j].id == st.items[j].id);
        assert forall|k: int|
            0 <= k < cs.len() && (#[trigger] cs[k])->before.id == st.items[j].id implies undone_all(
            cs,
            st,
        ).items[j] == cs[k]->before by {
            if k < cs.len() - 1 {
                assert(ds[k] == cs[k]);
            } else {
                assert forall|m: int| 0 <= m < ds.len() implies (#[trigger] ds[m])->before.id
                    != next.items[j].id by {
                    assert(ds[m] == cs[m]);
                    assert(cs[m]->before.id != cs[k]->before.id);
                }
            }
        }
        if forall|k: int| 0 <= k < cs.len() ==> (#[trigger] cs[k])->before.id != st.items[j].id {
            assert forall|m: int| 0 <= m < ds.len() implies (#[trigger] ds[m])->before.id
                != next.items[j].id by {
                assert(ds[m] == cs[m]);
            }
        }
    }
}

proof fn lemma_changes(s: Seq<AnnV>, origs: Seq<AnnV>)
    requires
        distinct(origs),
    ensures
        separate(changes(s, origs)),
        forall|k: int|
            0 <= k < changes(s, origs).len() ==> exists|o: int|
                0 <= o < origs.len() && (#[trigger] origs[o]) == (#[trigger] changes(
                    s,
                    origs,
                )[k])->before,
        forall|o: int|
            0 <= o < origs.len() && lookup(s, (#[trigger] origs[o]).id) is Some && lookup(
                s,
                origs[o].id,
            ) != Some(origs[o]) ==> exists|k: int|
                0 <= k < changes(s, origs).len() && (#[trigger] changes(s, origs)[k])->before
                    == origs[o],
    decreases origs.len(),
{
    if origs.len() > 0 {
        let t = origs.drop_last();
        let before = origs.last();
        assert(distinct(t)) by {
            assert forall|a: int, b: int| 0 <= a < b < t.len() implies (#[trigger] t[a]).id != (
            #[trigger] t[b]).id by {
                assert(origs[a].id != origs[b].id);
            }
        }
        lemma_changes(s, t);
        let c = changes(s, t);
        let r = changes(s, origs);
        assert forall|k: int| 0 <= k < c.len() implies (#[trigger] c[k])->before.id != before.id by {
            let o = choose|o: int| 0 <= o < t.len() && (#[trigger] t[o]) == c[k]->before;
            assert(origs[o].id != origs[origs.len() - 1].id);
        }
        assert forall|k: int| 0 <= k < r.len() implies exists|o: int|
            0 <= o < origs.len() && (#[trigger] origs[o]) == (#[trigger] r[k])->before by {
            if k < c.len() {
                assert(r[k] == c[k]);
                let o = choose|o: int| 0 <= o < t.len() && (#[trigger] t[o]) == c[k]->before;
                assert(origs[o] == r[k]->before);
            } else {
                assert(origs[origs.len() - 1] == r[k]->before);
            }
        }
        assert(separate(r)) by {
            assert forall|a: int, b: int| 0 <= a < b < r.len() implies (
            #[trigger] r[a])->before.id != (#[trigger] r[b])->before.id by {
                assert(r[a] == c[a]);
                if b < c.len() {
                    assert(r[b] == c[b]);
                }
            }
            assert forall|k: int| 0 <= k < r.len() implies (#[trigger] r[k]) is Modify
                && r[k]->before.id == r[k]->Modify_after.id by {
                if k < c.len() {
                    assert(r[k] == c[k]);
                } else {
                    let at = place(s, before.id);
                    assert(stored(s, before.id));
                    assert(s[at].id == before.id);
                }
            }
        }
        assert forall|o: int|
            0 <= o < origs.len() && lookup(s, (#[trigger] origs[o]).id) is Some && lookup(
                s,
                origs[o].id,
            ) != Some(origs[o]) implies exists|k: int|
            0 <= k < r.len() && (#[trigger] r[k])->before == origs[o] by {
            if o < t.len() {
                assert(t[o] == origs[o]);
                let k = choose|k: int| 0 <= k < c.len() && (#[trigger] c[k])->before == t[o];
                assert(r[k] == c[k]);
            } else {
                assert(r[r.len() - 1]->before == origs[o]);
            }
        }
    }
}

/// A press that takes hold of something takes hold of it as it is.
pub proof fn law_press_takes_hold(d: DocV, p: PointerInfo)
    requires
        d.store.ok(),
        d.tool is Select,
        d.ctl.state is Idle,
    ensures
        pressed(d, p).store == d.store,
        pressed(d, p).history == d.history,
        adrift(d.store.items, d.store.items, in_hand(pressed(d, p).ctl.state)),
{
    let base = d.store.items;
    let e = pressed(d, p);
    let h = in_hand(e.ctl.state);
    match e.ctl.state {
        StateV::Dragging { origs, .. } => {
            lemma_chosen_ascends(base, e.selection.ids);
            let c = chosen(base, e.selection.ids);
            let id = crate::tools::select::topmost(base, p.page, p.pos, p.tol as int)->0;
            assert(origs == led_by(c, id));
            if stored(c, id) {
                let at = place(c, id);
                assert(0 <= at < c.len() && c[at].id == id);
                assert forall|k: int| 0 <= k < origs.len() implies lookup(
                    base,
                    (#[trigger] origs[k]).id,
                ) == Some(origs[k]) by {
                    let o = if k == 0 {
                        at
                    } else if k == at {
                        0
                    } else {
                        k
                    };
                    assert(origs[k] == c[o]);
                }
                assert forall|a: int, b: int| 0 <= a < b < origs.len() implies (
                #[trigger] origs[a]).id != (#[trigger] origs[b]).id by {
                    let oa = if a == 0 {
                        at
                    } else if a == at {
                        0
                    } else {
                        a
                    };
                    let ob = if b == 0 {
                        at
                    } else if b == at {
                        0
                    } else {
                        b
                    };
                    assert(origs[a] == c[oa] && origs[b] == c[ob]);
                    if oa < ob {
                        assert(c[oa].id < c[ob].id);
                    } else if ob < oa {
                        assert(c[ob].id < c[oa].id);
                    }
                }
            } else {
                assert(origs == c);
                assert forall|a: int, b: int| 0 <= a < b < origs.len() implies (
                #[trigger] origs[a]).id != (#[trigger] origs[b]).id by {
                    assert(c[a].id < c[b].id);
                }
            }
        },
        StateV::Resizing { orig, .. } => {
            let at = place(base, d.selection.primary->0);
            assert(0 <= at < base.len());
            lemma_place(base, at);
            assert(h[0] == orig);
        },
        _ => {},
    }
}

proof fn lemma_put_adrift(base: Seq<AnnV>, items: Seq<AnnV>, origs: Seq<AnnV>, news: Seq<AnnV>)
    requires
        adrift(base, items, origs),
        news.len() == origs.len(),
        forall|k: int| 0 <= k < news.len() ==> (#[trigger] news[k]).id == origs[k].id,
    ensures
        adrift(base, put_all(items, news), origs),
        forall|k: int|
            0 <= k < news.len() ==> lookup(put_all(items, news), (#[trigger] news[k]).id) == Some(
                news[k],
            ),
{
    let r = put_all(items, news);
    assert(distinct(news)) by {
        assert forall|a: int, b: int| 0 <= a < b < news.len() implies (#[trigger] news[a]).id != (
        #[trigger] news[b]).id by {
            assert(origs[a].id != origs[b].id);
        }
    }
    if base.len() > 0 {
        lemma_put_all(items, news, 0);
    } else {
        assert(items =~= Seq::empty());
        lemma_put_none(news);
        if news.len() > 0 {
            let o = origs[0];
            assert(lookup(base, o.id) == Some(o));
            assert(stored(base, o.id));
        }
    }
    assert forall|j: int| 0 <= j < base.len() implies (#[trigger] r[j]).id == base[j].id && (
    !ids_of(origs).contains(base[j].id) ==> r[j] == base[j]) by {
        assert(items[j].id == base[j].id);
        lemma_put_all(items, news, j);
        lemma_ids_of(origs, base[j].id);
        if !ids_of(origs).contains(base[j].id) {
            assert forall|k: int| 0 <= k < news.len() implies (#[trigger] news[k]).id
                != items[j].id by {
                assert(origs[k].id != base[j].id);
            }
        }
    }
    assert(ascending(r)) by {
        assert forall|a: int, b: int| 0 <= a < b < r.len() implies (#[trigger] r[a]).id < (
        #[trigger] r[b]).id by {
            assert(base[a].id < base[b].id);
        }
    }
    assert forall|k: int| 0 <= k < news.len() implies lookup(r, (#[trigger] news[k]).id) == Some(
        news[k],
    ) by {
        let o = origs[k];
        let j = place(base, o.id);
        assert(lookup(base, o.id) == Some(o));
        assert(stored(base, o.id));
        assert(0 <= j < base.len() && base[j].id == o.id);
        assert(items[j].id == base[j].id);
        lemma_put_all(items, news, j);
        assert(r[j] == news[k]);
        lemma_place(r, j);
    }
}

proof fn lemma_put_none(v: Seq<AnnV>)
    ensures
        put_all(Seq::empty(), v) == Seq::<AnnV>::empty(),
    decreases v.len(),
{
    if v.len() > 0 {
        lemma_put_none(v.drop_last());
        assert(put(Seq::empty(), v.last()) =~= Seq::<AnnV>::empty());
    }
}

/// Moving the pointer touches nothing but what the gesture has in hand, and
/// keeps hold of it as it was when the gesture began.
pub proof fn law_drag_keeps_hold(d: DocV, p: PointerInfo, base: Seq<AnnV>)
    requires
        adrift(base, d.store.items, in_hand(d.ctl.state)),
        in_hand(d.ctl.state).len() > 0,
    ensures
        in_hand(dragged(d, p).ctl.state) == in_hand(d.ctl.state),
        adrift(base, dragged(d, p).store.items, in_hand(d.ctl.state)),
        dragged(d, p).history == d.history,
{
    match d.ctl.state {
        StateV::Dragging { origs, press, .. } => {
            let by = drift(d, p, origs, press);
            lemma_put_adrift(base, d.store.items, origs, all_plus(origs, by.0, by.1));
        },
        StateV::Resizing { orig, handle } => {
            let s = dragged(d, p).store.items;
            let a = choose|a: AnnV| a.id == orig.id && s == put(d.store.items, a);
            assert(exists|a: AnnV| a.id == orig.id && s == put(d.store.items, a));
            let news = seq![a];
            assert(news.drop_last() =~= Seq::empty());
            assert(put_all(d.store.items, Seq::empty()) == d.store.items);
            assert(put_all(d.store.items, news) == put(d.store.items, a));
            lemma_put_adrift(base, d.store.items, seq![orig], news);
        },
        _ => {},
    }
}

/// A selection moves as one: wherever the one in the lead goes, everything
/// else that is being dragged goes by exactly as much.
pub proof fn law_selection_moves_together(d: DocV, p: PointerInfo, base: Seq<AnnV>)
    requires
        adrift(base, d.store.items, in_hand(d.ctl.state)),
        d.ctl.state is Dragging,
        in_hand(d.ctl.state).len() > 0,
    ensures
        ({
            let origs = in_hand(d.ctl.state);
            let by = drift(d, p, origs, d.ctl.state->press);
            forall|k: int|
                0 <= k < origs.len() ==> lookup(
                    dragged(d, p).store.items,
                    (#[trigger] origs[k]).id,
                ) == Some(ann_plus(origs[k], by.0, by.1))
        }),
{
    let origs = in_hand(d.ctl.state);
    let by = drift(d, p, origs, d.ctl.state->press);
    let news = all_plus(origs, by.0, by.1);
    lemma_put_adrift(base, d.store.items, origs, news);
    assert forall|k: int| 0 <= k < origs.len() implies lookup(
        dragged(d, p).store.items,
        (#[trigger] origs[k]).id,
    ) == Some(ann_plus(origs[k], by.0, by.1)) by {
        assert(news[k].id == origs[k].id);
    }
}

/// Giving a gesture up puts everything back as it was when it began, and
/// leaves nothing to undo.
pub proof fn law_cancel_restores(d: DocV, base: Seq<AnnV>)
    requires
        adrift(base, d.store.items, in_hand(d.ctl.state)),
    ensures
        cancelled(d).store.items == base,
        cancelled(d).history == d.history,
        cancelled(d).ctl.state is Idle,
{
    let origs = in_hand(d.ctl.state);
    let items = d.store.items;
    lemma_put_adrift(base, items, origs, origs);
    let r = put_all(items, origs);
    assert forall|j: int| 0 <= j < base.len() implies r[j] == base[j] by {
        lemma_ids_of(origs, base[j].id);
        assert(items[j].id == base[j].id);
        if ids_of(origs).contains(base[j].id) {
            let k = choose|k: int| 0 <= k < origs.len() && (#[trigger] origs[k]).id == base[j].id;
            lemma_put_all(items, origs, j);
            lemma_place(base, j);
        } else {
            assert(r[j].id == base[j].id);
        }
    }
    assert(r =~= base);
    match d.ctl.state {
        StateV::Resizing { orig, .. } => {
            assert(origs.drop_last() =~= Seq::empty());
            assert(put_all(items, origs) == put(items, orig));
        },
        StateV::Dragging { .. } => {},
        _ => {
            assert(put_all(items, origs) == items);
        },
    }
}

/// A drag or a resize is one thing the user did: where it changed anything,
/// letting go leaves exactly one more thing to undo, and undoing it puts
/// everything back as it was when the gesture began.
pub proof fn law_undo_takes_a_gesture_back(d: DocV, p: PointerInfo, base: Seq<AnnV>)
    requires
        adrift(base, d.store.items, in_hand(d.ctl.state)),
        d.ctl.state is Resizing || (d.ctl.state is Dragging && d.ctl.state->moved),
    ensures
        released(d, p).store == d.store,
        d.store.items == base ==> released(d, p).history == d.history,
        d.store.items != base ==> {
            let h = released(d, p).history;
            &&& h.undo.len() == d.history.undo.len() + 1
            &&& h.undo.drop_last() == d.history.undo
            &&& undone(h.undo.last(), d.store).items == base
        },
{
    let origs = in_hand(d.ctl.state);
    let items = d.store.items;
    let cs = changes(items, origs);
    let h = released(d, p).history;
    assert(h == stepped(d.history, cs));
    lemma_changes(items, origs);
    let r = undone_all(cs, d.store).items;
    assert forall|j: int| 0 <= j < base.len() implies r[j] == base[j] by {
        lemma_gesture_undone(base, d.store, origs, j);
    }
    if base.len() > 0 {
        lemma_undone_changes(cs, d.store, 0);
        assert(r =~= base);
    } else {
        assert(items =~= base);
        if origs.len() > 0 {
            assert(lookup(base, origs[0].id) == Some(origs[0]));
            assert(stored(base, origs[0].id));
        }
        assert(cs =~= Seq::empty());
    }
    lemma_as_one(cs, d.store);
    if cs.len() == 0 {
        assert(r == items);
    } else {
        assert(h.undo.drop_last() =~= d.history.undo);
        if items == base {
            lemma_no_changes(items, origs);
        }
    }
}

proof fn lemma_as_one(cs: Seq<CommandV>, st: StoreV)
    ensures
        cs.len() == 0 ==> undone_all(cs, st) == st,
        cs.len() > 0 ==> undone(as_one(cs)->0, st) == undone_all(cs, st),
{
    reveal_with_fuel(undone_all, 3);
    reveal_with_fuel(undone, 3);
    if cs.len() == 1 {
        assert(cs.drop_last() =~= Seq::empty());
    }
}

proof fn lemma_gesture_undone(base: Seq<AnnV>, st: StoreV, origs: Seq<AnnV>, j: int)
    requires
        adrift(base, st.items, origs),
        0 <= j < base.len(),
    ensures
        undone_all(changes(st.items, origs), st).items[j] == base[j],
{
    let items = st.items;
    let cs = changes(items, origs);
    lemma_changes(items, origs);
    lemma_undone_changes(cs, st, j);
    lemma_ids_of(origs, base[j].id);
    assert(items[j].id == base[j].id);
    lemma_place(base, j);
    lemma_items_place(base, items, j);
    if ids_of(origs).contains(base[j].id) {
        let o = choose|o: int| 0 <= o < origs.len() && (#[trigger] origs[o]).id == base[j].id;
        assert(origs[o] == base[j]);
        if items[j] == base[j] {
            assert forall|k: int|
                0 <= k < cs.len() && (#[trigger] cs[k])->before.id == items[j].id implies cs[k]->before
                == base[j] by {
                let q = choose|q: int| 0 <= q < origs.len() && (#[trigger] origs[q]) == cs[k]->before;
                if q < o {
                    assert(origs[q].id != origs[o].id);
                } else if o < q {
                    assert(origs[o].id != origs[q].id);
                }
            }
        } else {
            assert(lookup(items, origs[o].id) == Some(items[j]));
            let k = choose|k: int| 0 <= k < cs.len() && (#[trigger] cs[k])->before == origs[o];
            assert(cs[k]->before.id == items[j].id);
        }
    } else {
        assert forall|k: int| 0 <= k < cs.len() implies (#[trigger] cs[k])->before.id
            != items[j].id by {
            let q = choose|q: int| 0 <= q < origs.len() && (#[trigger] origs[q]) == cs[k]->before;
            assert(origs[q].id != base[j].id);
        }
    }
}

proof fn lemma_items_place(base: Seq<AnnV>, items: Seq<AnnV>, j: int)
    requires
        ascending(base),
        items.len() == base.len(),
        forall|i: int| 0 <= i < base.len() ==> (#[trigger] items[i]).id == base[i].id,
        0 <= j < base.len(),
    ensures
        lookup(items, base[j].id) == Some(items[j]),
{
    assert(ascending(items)) by {
        assert forall|a: int, b: int| 0 <= a < b < items.len() implies (#[trigger] items[a]).id < (
        #[trigger] items[b]).id by {
            assert(base[a].id < base[b].id);
        }
    }
    assert(items[j].id == base[j].id);
    lemma_place(items, j);
}

proof fn lemma_no_changes(s: Seq<AnnV>, origs: Seq<AnnV>)
    requires
        forall|k: int| 0 <= k < origs.len() ==> lookup(s, (#[trigger] origs[k]).id) == Some(origs[k]),
    ensures
        changes(s, origs).len() == 0,
    decreases origs.len(),
{
    if origs.len() > 0 {
        let t = origs.drop_last();
        assert forall|k: int| 0 <= k < t.len() implies lookup(s, (#[trigger] t[k]).id) == Some(
            t[k],
        ) by {
            assert(t[k] == origs[k]);
        }
        lemma_no_changes(s, t);
        assert(origs[origs.len() - 1] == origs.last());
    }
}

/// Anything newly drawn is one step to undo, and undoing it leaves every other
/// annotation as it was.
pub proof fn law_undo_takes_an_addition_back(d: DocV, a: AnnV)
    requires
        d.store.ok(),
        d.store.next < u64::MAX,
        a.id == d.store.next,
    ensures
        added(d, a).history.undo == d.history.undo.push(CommandV::Add(a)),
        undone(CommandV::Add(a), added(d, a).store).items == d.store.items,
        lookup(added(d, a).store.items, a.id) == Some(a),
{
    law_remove_undoes_insert(d.store.items, a);
}

/// Several annotations changed at once are one step to undo, and undoing it
/// puts every one of them back.
pub proof fn law_undo_takes_changes_back(d: DocV, befores: Seq<AnnV>, afters: Seq<AnnV>)
    requires
        d.store.ok(),
        befores.len() > 0,
        afters.len() == befores.len(),
        distinct(befores),
        forall|k: int|
            0 <= k < befores.len() ==> lookup(d.store.items, (#[trigger] befores[k]).id) == Some(
                befores[k],
            ) && afters[k].id == befores[k].id,
    ensures
        ({
            let e = modified(d, befores, afters);
            &&& e.history.undo.len() == d.history.undo.len() + 1
            &&& e.history.undo.drop_last() == d.history.undo
            &&& undone(e.history.undo.last(), e.store).items == d.store.items
        }),
{
    let base = d.store.items;
    let e = modified(d, befores, afters);
    let items = e.store.items;
    let cs = modifications(befores, afters);
    assert(adrift(base, base, befores));
    lemma_put_adrift(base, base, befores, afters);
    assert(separate(cs)) by {
        assert forall|a: int, b: int| 0 <= a < b < cs.len() implies (#[trigger] cs[a])->before.id
            != (#[trigger] cs[b])->before.id by {
            assert(befores[a].id != befores[b].id);
        }
        assert forall|k: int| 0 <= k < cs.len() implies (#[trigger] cs[k]) is Modify
            && cs[k]->before.id == cs[k]->Modify_after.id by {
            assert(afters[k].id == befores[k].id);
        }
    }
    let r = undone_all(cs, e.store).items;
    assert forall|j: int| 0 <= j < base.len() implies r[j] == base[j] by {
        lemma_undone_changes(cs, e.store, j);
        lemma_ids_of(befores, base[j].id);
        assert(items[j].id == base[j].id);
        lemma_place(base, j);
        if ids_of(befores).contains(base[j].id) {
            let k = choose|k: int|
                0 <= k < befores.len() && (#[trigger] befores[k]).id == base[j].id;
            assert(cs[k]->before == befores[k]);
        } else {
            assert forall|k: int| 0 <= k < cs.len() implies (#[trigger] cs[k])->before.id
                != items[j].id by {
                assert(befores[k].id != base[j].id);
            }
        }
    }
    assert(stored(base, befores[0].id)) by {
        assert(lookup(base, befores[0].id) == Some(befores[0]));
    }
    assert(base.len() > 0);
    lemma_undone_changes(cs, e.store, 0);
    assert(r =~= base);
    lemma_as_one(cs, e.store);
    assert(e.history.undo.drop_last() =~= d.history.undo);
}

/// One nudge is one step to undo, however much is selected, and nothing that
/// is not selected moves.
pub proof fn law_undo_takes_a_nudge_back(d: DocV, dx: int, dy: int)
    requires
        d.store.ok(),
        chosen(d.store.items, d.selection.ids).len() > 0,
    ensures
        ({
            let e = nudged(d, dx, dy);
            &&& e.history.undo.len() == d.history.undo.len() + 1
            &&& e.history.undo.drop_last() == d.history.undo
            &&& undone(e.history.undo.last(), e.store).items == d.store.items
        }),
        forall|j: int|
            0 <= j < d.store.items.len() ==> (#[trigger] nudged(d, dx, dy).store.items[j]) == (
            if d.selection.ids.contains(d.store.items[j].id) {
                ann_plus(d.store.items[j], dx, dy)
            } else {
                d.store.items[j]
            }),
{
    let base = d.store.items;
    let befores = chosen(base, d.selection.ids);
    let afters = all_plus(befores, dx, dy);
    lemma_chosen_ascends(base, d.selection.ids);
    assert(distinct(befores)) by {
        assert forall|a: int, b: int| 0 <= a < b < befores.len() implies (#[trigger] befores[a]).id
            != (#[trigger] befores[b]).id by {
            assert(befores[a].id < befores[b].id);
        }
    }
    law_undo_takes_changes_back(d, befores, afters);
    assert(adrift(base, base, befores));
    lemma_put_adrift(base, base, befores, afters);
    let r = nudged(d, dx, dy).store.items;
    assert forall|j: int| 0 <= j < base.len() implies (#[trigger] r[j]) == (if d.selection.ids.contains(
        base[j].id,
    ) {
        ann_plus(base[j], dx, dy)
    } else {
        base[j]
    }) by {
        lemma_ids_of(befores, base[j].id);
        assert(r[j].id == base[j].id);
        if d.selection.ids.contains(base[j].id) {
            lemma_chosen_has(base, d.selection.ids, j);
            let k = choose|k: int| 0 <= k < befores.len() && (#[trigger] befores[k]) == base[j];
            assert(afters[k].id == base[j].id);
            assert forall|a: int, b: int| 0 <= a < b < afters.len() implies (
            #[trigger] afters[a]).id != (#[trigger] afters[b]).id by {
                assert(befores[a].id != befores[b].id);
            }
            lemma_put_all(base, afters, j);
        } else if ids_of(befores).contains(base[j].id) {
            let k = choose|k: int|
                0 <= k < befores.len() && (#[trigger] befores[k]).id == base[j].id;
            assert(d.selection.ids.contains(befores[k].id));
        }
    }
}

proof fn lemma_chosen_has(s: Seq<AnnV>, ids: Set<u64>, j: int)
    requires
        0 <= j < s.len(),
        ids.contains(s[j].id),
    ensures
        exists|k: int| 0 <= k < chosen(s, ids).len() && (#[trigger] chosen(s, ids)[k]) == s[j],
    decreases s.len(),
{
    let t = s.drop_last();
    if j < s.len() - 1 {
        lemma_chosen_has(t, ids, j);
        let k = choose|k: int| 0 <= k < chosen(t, ids).len() && (#[trigger] chosen(t, ids)[k]) == t[j];
        assert(chosen(s, ids)[k] == s[j]);
    } else {
        assert(chosen(s, ids)[chosen(s, ids).len() - 1] == s[j]);
    }
}

pub proof fn lemma_outside(s: Seq<AnnV>, group: Option<u64>)
    requires
        ascending(s),
    ensures
        ascending(outside(s, group)),
        outside(s, group).len() <= s.len(),
        forall|i: int|
            0 <= i < outside(s, group).len() ==> exists|j: int|
                0 <= j < s.len() && (#[trigger] s[j]) == (#[trigger] outside(s, group)[i]),
    decreases s.len(),
{
    if s.len() > 0 {
        let t = s.drop_last();
        assert(ascending(t)) by {
            assert forall|i: int, j: int| 0 <= i < j < t.len() implies (#[trigger] t[i]).id < (
            #[trigger] t[j]).id by {
                assert(s[i].id < s[j].id);
            }
        }
        lemma_outside(t, group);
        let c = outside(t, group);
        let r = outside(s, group);
        assert forall|i: int| 0 <= i < c.len() implies exists|j: int|
            0 <= j < s.len() - 1 && (#[trigger] s[j]) == (#[trigger] c[i]) by {
            let j = choose|j: int| 0 <= j < t.len() && (#[trigger] t[j]) == c[i];
            assert(s[j] == c[i]);
        }
        assert forall|i: int| 0 <= i < r.len() implies exists|j: int|
            0 <= j < s.len() && (#[trigger] s[j]) == (#[trigger] r[i]) by {
            if i < c.len() {
                assert(r[i] == c[i]);
            } else {
                assert(s[s.len() - 1] == r[i]);
            }
        }
        assert forall|i: int, j: int| 0 <= i < j < r.len() implies (#[trigger] r[i]).id < (
        #[trigger] r[j]).id by {
            assert(r[i] == c[i]);
            if j < c.len() {
                assert(c[i].id < c[j].id);
            } else {
                let k = choose|k: int| 0 <= k < s.len() - 1 && (#[trigger] s[k]) == c[i];
                assert(s[k].id < s[s.len() - 1].id);
            }
        }
    }
}

/// Tying a selection together, and untying it, are one step to undo each.
pub proof fn law_undo_takes_grouping_back(d: DocV)
    requires
        d.store.ok(),
    ensures
        grouped(d).1 ==> {
            let e = grouped(d).0;
            &&& e.history.undo.len() == d.history.undo.len() + 1
            &&& undone(e.history.undo.last(), e.store).items == d.store.items
        },
        ungrouped(d).1 ==> {
            let e = ungrouped(d).0;
            &&& e.history.undo.len() == d.history.undo.len() + 1
            &&& undone(e.history.undo.last(), e.store).items == d.store.items
        },
{
    let base = d.store.items;
    let who = chosen(base, d.selection.ids);
    lemma_chosen_ascends(base, d.selection.ids);
    if grouped(d).1 {
        lemma_regroup(d, who, Some(crate::doc::store::following(crate::doc::store::top_group(base))));
    }
    if ungrouped(d).1 {
        lemma_regroup(d, who, None);
    }
}

proof fn lemma_regroup(d: DocV, who: Seq<AnnV>, group: Option<u64>)
    requires
        d.store.ok(),
        ascending(who),
        forall|i: int|
            0 <= i < who.len() ==> lookup(d.store.items, (#[trigger] who[i]).id) == Some(who[i]),
        outside(who, group).len() > 0,
    ensures
        ({
            let e = crate::tools::edit::regrouped(d, who, group).0;
            &&& e.history.undo.len() == d.history.undo.len() + 1
            &&& undone(e.history.undo.last(), e.store).items == d.store.items
        }),
{
    let befores = outside(who, group);
    let afters = all_in(befores, group);
    lemma_outside(who, group);
    assert(distinct(befores)) by {
        assert forall|a: int, b: int| 0 <= a < b < befores.len() implies (#[trigger] befores[a]).id
            != (#[trigger] befores[b]).id by {
            assert(befores[a].id < befores[b].id);
        }
    }
    assert forall|k: int| 0 <= k < befores.len() implies lookup(
        d.store.items,
        (#[trigger] befores[k]).id,
    ) == Some(befores[k]) && afters[k].id == befores[k].id by {
        let j = choose|j: int| 0 <= j < who.len() && (#[trigger] who[j]) == befores[k];
    }
    law_undo_takes_changes_back(d, befores, afters);
}

proof fn lemma_without_push(s: Seq<AnnV>, x: AnnV, id: u64)
    requires
        ascending(s.push(x)),
        id != x.id,
    ensures
        without(s.push(x), id) == without(s, id).push(x),
        lookup(s.push(x), id) == lookup(s, id),
        ascending(s),
        ascending(without(s, id).push(x)),
{
    let t = s.push(x);
    assert forall|a: int, b: int| 0 <= a < b < s.len() implies (#[trigger] s[a]).id < (
    #[trigger] s[b]).id by {
        assert(t[a].id < t[b].id);
    }
    if stored(s, id) {
        let k = place(s, id);
        assert(0 <= k < s.len() && s[k].id == id);
        assert(t[k] == s[k]);
        lemma_place(t, k);
        lemma_place(s, k);
        assert(t.remove(k) =~= s.remove(k).push(x));
    } else {
        assert forall|k: int| 0 <= k < t.len() implies (#[trigger] t[k]).id != id by {
            if k < s.len() {
                assert(t[k] == s[k]);
            }
        }
        assert(!stored(t, id));
    }
    let st = StoreV { items: t, next: u64::MAX };
    lemma_edits_ok(st, x, id);
}

proof fn lemma_removals_push(g: Seq<AnnV>, s: Seq<AnnV>, x: AnnV, next: u64)
    requires
        ascending(s.push(x)),
        forall|k: int| 0 <= k < g.len() ==> (#[trigger] g[k]).id != x.id,
    ensures
        forward_all(removals(g), StoreV { items: s.push(x), next }).items == forward_all(
            removals(g),
            StoreV { items: s, next },
        ).items.push(x),
        forward_all(removals(g), StoreV { items: s.push(x), next }).next == next,
        forward_all(removals(g), StoreV { items: s, next }).next == next,
        applies_all(removals(g), StoreV { items: s, next }) == applies_all(
            removals(g),
            StoreV { items: s.push(x), next },
        ),
        ascending(
            forward_all(removals(g), StoreV { items: s, next }).items.push(x),
        ),
    decreases g.len(),
{
    reveal_with_fuel(forward_all, 2);
    reveal_with_fuel(forward, 2);
    reveal_with_fuel(applies_all, 2);
    reveal_with_fuel(applies, 2);
    if g.len() > 0 {
        let h = g.drop_last();
        assert(removals(g).drop_last() =~= removals(h));
        assert(removals(g).last() == CommandV::Remove(g.last()));
        assert(g[g.len() - 1] == g.last());
        assert forall|k: int| 0 <= k < h.len() implies (#[trigger] h[k]).id != x.id by {
            assert(h[k] == g[k]);
        }
        lemma_removals_push(h, s, x, next);
        let f = forward_all(removals(h), StoreV { items: s, next });
        lemma_without_push(f.items, x, g.last().id);
    }
}

proof fn lemma_removals(s: Seq<AnnV>, ids: Set<u64>, next: u64)
    requires
        ascending(s),
    ensures
        forward_all(removals(chosen(s, ids)), StoreV { items: s, next }).items == left(s, ids),
        forward_all(removals(chosen(s, ids)), StoreV { items: s, next }).next == next,
        applies_all(removals(chosen(s, ids)), StoreV { items: s, next }),
    decreases s.len(),
{
    reveal_with_fuel(forward_all, 2);
    reveal_with_fuel(forward, 2);
    reveal_with_fuel(applies_all, 2);
    reveal_with_fuel(applies, 2);
    if s.len() > 0 {
        let t = s.drop_last();
        let x = s.last();
        assert(t.push(x) =~= s);
        assert(ascending(t)) by {
            assert forall|i: int, j: int| 0 <= i < j < t.len() implies (#[trigger] t[i]).id < (
            #[trigger] t[j]).id by {
                assert(s[i].id < s[j].id);
            }
        }
        let g = chosen(t, ids);
        lemma_chosen_ascends(t, ids);
        assert forall|k: int| 0 <= k < g.len() implies (#[trigger] g[k]).id != x.id by {
            let o = place(t, g[k].id);
            assert(stored(t, g[k].id));
            assert(0 <= o < t.len() && t[o].id == g[k].id);
            assert(s[o].id < s[s.len() - 1].id);
        }
        lemma_removals(t, ids, next);
        lemma_removals_push(g, t, x, next);
        let st = StoreV { items: s, next };
        if ids.contains(x.id) {
            let all = removals(chosen(s, ids));
            assert(all.drop_last() =~= removals(g));
            assert(all.last() == CommandV::Remove(x));
            let f = forward_all(removals(g), st);
            let kept = left(t, ids);
            assert(f.items == kept.push(x));
            assert(f.items[kept.len() as int] == x);
            lemma_place(f.items, kept.len() as int);
            assert(f.items.remove(kept.len() as int) =~= kept);
        }
    } else {
        assert(removals(chosen(s, ids)) =~= Seq::empty());
    }
}

/// Deleting a selection is one step to undo, however much it took, and undoing
/// it brings everything back where it was.
pub proof fn law_undo_takes_a_deletion_back(d: DocV)
    requires
        d.store.ok(),
        chosen(d.store.items, d.selection.ids).len() > 0,
    ensures
        ({
            let e = deleted(d);
            &&& e.history.undo.len() == d.history.undo.len() + 1
            &&& e.history.undo.drop_last() == d.history.undo
            &&& undone(e.history.undo.last(), e.store).items == d.store.items
        }),
{
    let items = d.store.items;
    let gone = chosen(items, d.selection.ids);
    let cs = removals(gone);
    let e = deleted(d);
    lemma_removals(items, d.selection.ids, d.store.next);
    let st = StoreV { items, next: d.store.next };
    assert(st == d.store);
    assert(forward_all(cs, st) == e.store);
    let c = as_one(cs)->0;
    reveal_with_fuel(forward_all, 3);
    reveal_with_fuel(forward, 3);
    reveal_with_fuel(applies_all, 3);
    reveal_with_fuel(applies, 3);
    if cs.len() == 1 {
        assert(cs.drop_last() =~= Seq::empty());
        assert(forward_all(cs.drop_last(), st) == st);
        assert(applies(cs[0], st));
        assert(forward(c, st) == e.store);
    } else {
        assert(applies(c, st));
        assert(forward(c, st) == e.store);
    }
    law_undo_restores(c, st);
    assert(e.history.undo.drop_last() =~= d.history.undo);
}

/// Picking the sequence tool up carries on above every number already there.
pub proof fn law_numbering_carries_on(s: Seq<AnnV>, prefix: Seq<char>, j: int)
    requires
        0 <= j < s.len(),
        s[j].kind is Stamp,
        number_on(s[j].kind->Stamp_text, prefix) is Some,
    ensures
        number_after(s, prefix) > number_on(s[j].kind->Stamp_text, prefix)->0 || number_after(
            s,
            prefix,
        ) == u32::MAX,
{
    lemma_highest(s, prefix, j);
}

proof fn lemma_highest(s: Seq<AnnV>, prefix: Seq<char>, j: int)
    requires
        0 <= j < s.len(),
        s[j].kind is Stamp,
        number_on(s[j].kind->Stamp_text, prefix) is Some,
    ensures
        highest_number(s, prefix) is Some,
        highest_number(s, prefix)->0 >= number_on(s[j].kind->Stamp_text, prefix)->0,
    decreases s.len(),
{
    if j < s.len() - 1 {
        lemma_highest(s.drop_last(), prefix, j);
    }
}

/// Letting go of the pointer does not end a vertex gesture.
pub proof fn law_release_keeps_placing(d: DocV, p: PointerInfo)
    requires
        d.ctl.state is Placing,
    ensures
        released(d, p).ctl.state == d.ctl.state,
        released(d, p).store == d.store,
        released(d, p).history == d.history,
{
}

} // verus!
