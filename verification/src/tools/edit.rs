//! The things done to whole selections.

use vstd::prelude::*;

use crate::doc::annotation::{ann_plus, AnnV, Annotation, GroupId};
use crate::doc::history::{commands, Command, CommandV};
use crate::doc::store::{
    ascending, chosen, following, lemma_place, lookup, place, stored, top_group, views, StoreV,
};
use crate::state::{DocState, DocV, SelV};
use crate::tools::drag::{all_plus, put_all};

use crate::tools::release::{record_step, stepped};

verus! {

/// The annotations of `s` whose ids are not in `ids`, in order.
pub open spec fn left(s: Seq<AnnV>, ids: Set<u64>) -> Seq<AnnV>
    decreases s.len(),
{
    if s.len() == 0 {
        Seq::empty()
    } else if ids.contains(s.last().id) {
        left(s.drop_last(), ids)
    } else {
        left(s.drop_last(), ids).push(s.last())
    }
}

/// The removal of each of `s`.
pub open spec fn removals(s: Seq<AnnV>) -> Seq<CommandV> {
    s.map_values(|a: AnnV| CommandV::Remove(a))
}

/// The document after everything selected is deleted, as one undo step.
pub open spec fn deleted(d: DocV) -> DocV {
    let gone = chosen(d.store.items, d.selection.ids);
    if gone.len() == 0 {
        d
    } else {
        DocV {
            store: StoreV { items: left(d.store.items, d.selection.ids), next: d.store.next },
            history: stepped(d.history, removals(gone)),
            selection: SelV::none(),
            ..d
        }
    }
}

pub proof fn lemma_left(s: Seq<AnnV>, ids: Set<u64>)
    requires
        ascending(s),
    ensures
        ascending(left(s, ids)),
        left(s, ids).len() <= s.len(),
        forall|i: int|
            0 <= i < left(s, ids).len() ==> lookup(s, (#[trigger] left(s, ids)[i]).id) == Some(
                left(s, ids)[i],
            ) && !ids.contains(left(s, ids)[i].id),
        chosen(s, ids).len() == 0 ==> left(s, ids) == s,
    decreases s.len(),
{
    if s.len() > 0 {
        let t = s.drop_last();
        assert(ascending(t)) by {
            assert forall|i: int, j: int| 0 <= i < j < t.len() implies (#[trigger] t[i]).id < (
            #[trigger] t[j]).id by {
                assert(s[i].id < s[j].id);
            }
        }
        lemma_left(t, ids);
        let c = left(t, ids);
        let r = left(s, ids);
        assert forall|i: int| 0 <= i < c.len() implies {
            &&& lookup(s, (#[trigger] c[i]).id) == Some(c[i])
            &&& c[i].id < s.last().id
        } by {
            let k = place(t, c[i].id);
            assert(stored(t, c[i].id));
            assert(0 <= k < t.len() && t[k].id == c[i].id);
            assert(s[k] == t[k]);
            lemma_place(s, k);
            assert(s[k].id < s[s.len() - 1].id);
        }
        lemma_place(s, s.len() - 1);
        assert forall|i: int, j: int| 0 <= i < j < r.len() implies (#[trigger] r[i]).id < (
        #[trigger] r[j]).id by {
            if j < c.len() {
                assert(c[i].id < c[j].id);
            } else {
                assert(c[i].id < s.last().id);
            }
        }
        assert forall|i: int| 0 <= i < r.len() implies lookup(s, (#[trigger] r[i]).id) == Some(r[i])
            && !ids.contains(r[i].id) by {
            if i < c.len() {
                assert(r[i] == c[i]);
            } else {
                assert(r[i] == s.last());
            }
        }
        if chosen(s, ids).len() == 0 {
            assert(r =~= s);
        }
    }
}

/// Delete everything selected, as one undo step.
pub fn delete_selection(dc: &mut DocState)
    requires
        old(dc).ok(),
    ensures
        final(dc)@ == deleted(old(dc)@),
        final(dc).ok(),
{
    let ghost d = dc@;
    let ghost items = d.store.items;
    let ghost ids = d.selection.ids;
    let n: usize = dc.store.items.len();
    let mut cs: Vec<Command> = Vec::new();
    let mut seen: usize = 0;
    let mut i: usize = 0;
    proof {
        assert(items.take(0) =~= Seq::empty());
        assert(items.skip(0) =~= items);
        assert(Seq::<AnnV>::empty() + items =~= items);
        assert(commands(cs@) =~= removals(Seq::empty()));
        lemma_left(items, ids);
    }
    while seen < n
        invariant
            i <= seen <= n,
            n == items.len(),
            d.store.items == items,
            d.selection.ids == ids,
            dc.selection.ok(),
            dc@ == (DocV { store: dc@.store, ..d }),
            dc@.store.next == d.store.next,
            dc@.store.items == left(items.take(seen as int), ids) + items.skip(seen as int),
            i == left(items.take(seen as int), ids).len(),
            commands(cs@) == removals(chosen(items.take(seen as int), ids)),
        decreases n - seen,
    {
        let ghost kept = left(items.take(seen as int), ids);
        let ghost gone = chosen(items.take(seen as int), ids);
        proof {
            assert(items.take(seen + 1).drop_last() =~= items.take(seen as int));
            assert(items.take(seen + 1).last() == items[seen as int]);
            assert(dc@.store.items[i as int] == items[seen as int]);
            assert(dc@.store.items.len() == views(dc.store.items@).len());
            assert(dc.store.items@[i as int]@ == items[seen as int]);
        }
        let ghost before = dc.store.items@;
        if dc.selection.contains(dc.store.items[i].id) {
            let a: Annotation = dc.store.items.remove(i);
            let c: Command = Command::RemoveAnnotation(a);
            proof {
                assert(views(dc.store.items@) =~= views(before).remove(i as int));
                assert(views(before).remove(i as int) =~= kept + items.skip(seen + 1));
                assert(commands(cs@.push(c)) =~= commands(cs@).push(c.view()));
                assert(removals(gone.push(items[seen as int])) =~= removals(gone).push(
                    CommandV::Remove(items[seen as int]),
                ));
            }
            cs.push(c);
        } else {
            proof {
                assert(kept + items.skip(seen as int) =~= kept.push(items[seen as int])
                    + items.skip(seen + 1));
            }
            i += 1;
        }
        seen += 1;
    }
    proof {
        assert(items.take(seen as int) =~= items);
        assert(left(items, ids) + items.skip(seen as int) =~= left(items, ids));
        assert forall|k: int| 0 <= k < left(items, ids).len() implies (#[trigger] left(
            items,
            ids,
        )[k]).id < d.store.next || d.store.next == u64::MAX by {
            let a = left(items, ids)[k];
            assert(lookup(items, a.id) == Some(a));
            let o = place(items, a.id);
            assert(stored(items, a.id));
            assert(items[o].id == a.id);
        }
        assert(commands(cs@).len() == chosen(items, ids).len());
    }
    let any: bool = record_step(dc, cs);
    if any {
        dc.selection.clear();
    }
}

/// The change from each of `befores` to the one of `afters` at its place.
pub open spec fn modifications(befores: Seq<AnnV>, afters: Seq<AnnV>) -> Seq<CommandV> {
    Seq::new(
        befores.len(),
        |i: int| CommandV::Modify { before: befores[i], after: afters[i] },
    )
}

/// The document with each of `afters` in place of the one of `befores` that has
/// its id, as one undo step.
pub open spec fn modified(d: DocV, befores: Seq<AnnV>, afters: Seq<AnnV>) -> DocV {
    DocV {
        store: StoreV { items: put_all(d.store.items, afters), next: d.store.next },
        history: stepped(d.history, modifications(befores, afters)),
        ..d
    }
}

/// Put each of `afters` in place of the one of `befores` that has its id, as
/// one undo step: whether there were any.
fn modify(dc: &mut DocState, befores: Vec<Annotation>, afters: Vec<Annotation>) -> (r: bool)
    requires
        old(dc).ok(),
        befores@.len() == afters@.len(),
    ensures
        final(dc)@ == modified(old(dc)@, views(befores@), views(afters@)),
        r == (befores@.len() > 0),
        final(dc).ok(),
{
    let ghost start = dc@;
    let ghost (bs, all) = (views(befores@), views(afters@));
    let mut cs: Vec<Command> = Vec::new();
    let mut i: usize = 0;
    proof {
        assert(all.take(0) =~= Seq::empty());
        assert(commands(cs@) =~= modifications(bs, all).take(0));
    }
    while i < afters.len()
        invariant
            i <= afters@.len(),
            befores@.len() == afters@.len(),
            dc.ok(),
            all == views(afters@),
            bs == views(befores@),
            commands(cs@) == modifications(bs, all).take(i as int),
            dc@ == (DocV {
                store: (StoreV {
                    items: put_all(start.store.items, all.take(i as int)),
                    next: start.store.next,
                }),
                ..start
            }),
        decreases afters@.len() - i,
    {
        let before: Annotation = befores[i].clone();
        let after: Annotation = afters[i].clone();
        proof {
            assert(all.take(i + 1).drop_last() =~= all.take(i as int));
            assert(all.take(i + 1).last() == after@);
        }
        dc.store.replace(after.clone());
        let c: Command = Command::ModifyAnnotation { before, after };
        proof {
            let m = modifications(bs, all);
            assert(c.view() == m[i as int]);
            assert(commands(cs@.push(c)) =~= commands(cs@).push(c.view()));
            assert(m.take(i + 1) =~= m.take(i as int).push(m[i as int]));
        }
        cs.push(c);
        i += 1;
    }
    proof {
        assert(all.take(i as int) =~= all);
        assert(modifications(bs, all).take(i as int) =~= modifications(bs, all));
        assert(commands(cs@).len() == cs@.len());
    }
    record_step(dc, cs)
}

/// The document after everything selected is moved by `(dx, dy)`.
pub open spec fn nudged(d: DocV, dx: int, dy: int) -> DocV {
    let befores = chosen(d.store.items, d.selection.ids);
    modified(d, befores, all_plus(befores, dx, dy))
}

/// Move everything selected by (dx, dy), as one undo step. This is the arrow
/// keys: one press is one nudge, however much is selected.
pub fn nudge_selection(dc: &mut DocState, dx: i64, dy: i64)
    requires
        old(dc).ok(),
    ensures
        final(dc)@ == nudged(old(dc)@, dx as int, dy as int),
        final(dc).ok(),
{
    let befores: Vec<Annotation> = dc.selected_annotations();
    let mut afters: Vec<Annotation> = Vec::new();
    let mut i: usize = 0;
    while i < befores.len()
        invariant
            i <= befores@.len(),
            afters@.len() == i,
            forall|j: int|
                0 <= j < i ==> (#[trigger] afters@[j])@ == ann_plus(
                    befores@[j]@,
                    dx as int,
                    dy as int,
                ),
        decreases befores@.len() - i,
    {
        let mut after: Annotation = befores[i].clone();
        after.translate(dx, dy);
        afters.push(after);
        i += 1;
    }
    proof {
        assert(views(afters@) =~= all_plus(views(befores@), dx as int, dy as int));
    }
    let _any: bool = modify(dc, befores, afters);
}

/// The annotations of `s` that are not in `group` yet.
pub open spec fn outside(s: Seq<AnnV>, group: Option<GroupId>) -> Seq<AnnV>
    decreases s.len(),
{
    if s.len() == 0 {
        Seq::empty()
    } else if s.last().group != group {
        outside(s.drop_last(), group).push(s.last())
    } else {
        outside(s.drop_last(), group)
    }
}

/// Every one of `s` in `group`.
pub open spec fn all_in(s: Seq<AnnV>, group: Option<GroupId>) -> Seq<AnnV> {
    s.map_values(|a: AnnV| AnnV { group, ..a })
}

/// The document after `who` are put in `group`, and whether that changed any.
pub open spec fn regrouped(d: DocV, who: Seq<AnnV>, group: Option<GroupId>) -> (DocV, bool) {
    let befores = outside(who, group);
    (modified(d, befores, all_in(befores, group)), befores.len() > 0)
}

/// The document after the selection is tied together.
pub open spec fn grouped(d: DocV) -> (DocV, bool) {
    let who = chosen(d.store.items, d.selection.ids);
    if who.len() < 2 {
        (d, false)
    } else {
        regrouped(d, who, Some(following(top_group(d.store.items))))
    }
}

/// The document after the selection is untied.
pub open spec fn ungrouped(d: DocV) -> (DocV, bool) {
    regrouped(d, chosen(d.store.items, d.selection.ids), None)
}

fn same_group(a: Option<GroupId>, b: Option<GroupId>) -> (r: bool)
    ensures
        r == (a == b),
{
    match (a, b) {
        (None, None) => true,
        (Some(x), Some(y)) => x == y,
        _ => false,
    }
}

fn apply_group(dc: &mut DocState, who: Vec<Annotation>, group: Option<GroupId>) -> (r: bool)
    requires
        old(dc).ok(),
    ensures
        (final(dc)@, r) == regrouped(old(dc)@, views(who@), group),
        final(dc).ok(),
{
    let mut befores: Vec<Annotation> = Vec::new();
    let mut afters: Vec<Annotation> = Vec::new();
    let ghost all = views(who@);
    let mut i: usize = 0;
    proof {
        assert(all.take(0) =~= Seq::empty());
        assert(views(befores@) =~= Seq::empty());
        assert(views(afters@) =~= all_in(Seq::empty(), group));
    }
    while i < who.len()
        invariant
            i <= who@.len(),
            all == views(who@),
            views(befores@) == outside(all.take(i as int), group),
            views(afters@) == all_in(outside(all.take(i as int), group), group),
        decreases who@.len() - i,
    {
        proof {
            assert(all.take(i + 1).drop_last() =~= all.take(i as int));
            assert(all.take(i + 1).last() == who@[i as int]@);
        }
        if !same_group(who[i].group, group) {
            let before: Annotation = who[i].clone();
            let mut after: Annotation = who[i].clone();
            after.group = group;
            proof {
                let o = outside(all.take(i as int), group);
                assert(views(befores@.push(before)) =~= views(befores@).push(before@));
                assert(views(afters@.push(after)) =~= views(afters@).push(after@));
                assert(all_in(o.push(before@), group) =~= all_in(o, group).push(after@));
            }
            befores.push(before);
            afters.push(after);
        }
        i += 1;
    }
    proof {
        assert(all.take(i as int) =~= all);
        assert(views(befores@).len() == befores@.len());
        assert(views(afters@).len() == afters@.len());
    }
    modify(dc, befores, afters)
}

/// Tie the selection together, so that from now on clicking one of them
/// selects all of them. Nothing to do with fewer than two.
pub fn group_selection(dc: &mut DocState) -> (r: bool)
    requires
        old(dc).ok(),
    ensures
        (final(dc)@, r) == grouped(old(dc)@),
        final(dc).ok(),
{
    let who: Vec<Annotation> = dc.selected_annotations();
    proof {
        assert(views(who@).len() == who@.len());
    }
    if who.len() < 2 {
        return false;
    }
    let group: GroupId = dc.store.next_group_id();
    apply_group(dc, who, Some(group))
}

/// Untie whatever groups the selection belongs to.
pub fn ungroup_selection(dc: &mut DocState) -> (r: bool)
    requires
        old(dc).ok(),
    ensures
        (final(dc)@, r) == ungrouped(old(dc)@),
        final(dc).ok(),
{
    let who: Vec<Annotation> = dc.selected_annotations();
    apply_group(dc, who, None)
}

} // verus!
