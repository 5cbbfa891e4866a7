//! Undo and redo: every edit is a command that knows its way back.

use vstd::prelude::*;

use crate::doc::annotation::{AnnV, Annotation};
use crate::doc::store::{
    law_insert_undoes_remove, law_remove_undoes_insert, lemma_edits_ok, lemma_place, lookup, place,
    put, stored, AnnotationStore, StoreV,
};

verus! {

/// One thing the user did.
pub enum Command {
    AddAnnotation(Annotation),
    RemoveAnnotation(Annotation),
    ModifyAnnotation { before: Annotation, after: Annotation },
    /// Several changes that are undone and redone together.
    Batch(Vec<Command>),
}

/// A command as a mathematical value.
#[verifier::ext_equal]
pub enum CommandV {
    Add(AnnV),
    Remove(AnnV),
    Modify { before: AnnV, after: AnnV },
    Batch(Seq<CommandV>),
}

impl Command {
    pub open spec fn view(&self) -> CommandV
        decreases self,
    {
        match self {
            Command::AddAnnotation(a) => CommandV::Add(a@),
            Command::RemoveAnnotation(a) => CommandV::Remove(a@),
            Command::ModifyAnnotation { before, after } => CommandV::Modify {
                before: before@,
                after: after@,
            },
            Command::Batch(v) => CommandV::Batch(
                Seq::new(
                    v@.len(),
                    |i: int|
                        if 0 <= i < v@.len() {
                            v@[i].view()
                        } else {
                            CommandV::Batch(Seq::empty())
                        },
                ),
            ),
        }
    }
}

/// The commands of a list as mathematical values.
pub open spec fn commands(v: Seq<Command>) -> Seq<CommandV> {
    v.map_values(|c: Command| c.view())
}

pub proof fn lemma_batch_view(v: Vec<Command>)
    ensures
        Command::Batch(v).view() == CommandV::Batch(commands(v@)),
{
    let c = Command::Batch(v);
    match c.view() {
        CommandV::Batch(s) => {
            assert(s =~= commands(v@));
        },
        _ => {},
    }
}

/// The store after `c` is carried out.
pub open spec fn forward(c: CommandV, st: StoreV) -> StoreV
    decreases c,
{
    match c {
        CommandV::Add(a) => st.inserted(a),
        CommandV::Remove(a) => st.removed(a.id),
        CommandV::Modify { before, after } => st.replaced(after),
        CommandV::Batch(cs) => forward_all(cs, st),
    }
}

/// The store after `cs` are carried out, first to last.
pub open spec fn forward_all(cs: Seq<CommandV>, st: StoreV) -> StoreV
    decreases cs,
{
    if cs.len() == 0 {
        st
    } else {
        forward(cs.last(), forward_all(cs.drop_last(), st))
    }
}

/// The store after `c` is taken back.
pub open spec fn undone(c: CommandV, st: StoreV) -> StoreV
    decreases c,
{
    match c {
        CommandV::Add(a) => st.removed(a.id),
        CommandV::Remove(a) => st.inserted(a),
        CommandV::Modify { before, after } => st.replaced(before),
        CommandV::Batch(cs) => undone_all(cs, st),
    }
}

/// The store after `cs` are taken back, last to first.
pub open spec fn undone_all(cs: Seq<CommandV>, st: StoreV) -> StoreV
    decreases cs,
{
    if cs.len() == 0 {
        st
    } else {
        undone_all(cs.drop_last(), undone(cs.last(), st))
    }
}

/// Whether `c` is about what is in the store: it adds what is not there, and
/// removes and changes what is, as it is.
pub open spec fn applies(c: CommandV, st: StoreV) -> bool
    decreases c,
{
    match c {
        CommandV::Add(a) => !stored(st.items, a.id),
        CommandV::Remove(a) => lookup(st.items, a.id) == Some(a),
        CommandV::Modify { before, after } => before.id == after.id && lookup(st.items, before.id)
            == Some(before),
        CommandV::Batch(cs) => applies_all(cs, st),
    }
}

/// Whether each of `cs` applies where the ones before it leave the store.
pub open spec fn applies_all(cs: Seq<CommandV>, st: StoreV) -> bool
    decreases cs,
{
    if cs.len() == 0 {
        true
    } else {
        applies_all(cs.drop_last(), st) && applies(cs.last(), forward_all(cs.drop_last(), st))
    }
}

/// Carrying a command out, and taking it back, keep the store in order.
pub proof fn lemma_commands_ok(c: CommandV, st: StoreV)
    requires
        st.ok(),
    ensures
        forward(c, st).ok(),
        undone(c, st).ok(),
    decreases c,
{
    match c {
        CommandV::Add(a) => lemma_edits_ok(st, a, a.id),
        CommandV::Remove(a) => lemma_edits_ok(st, a, a.id),
        CommandV::Modify { before, after } => {
            lemma_edits_ok(st, before, before.id);
            lemma_edits_ok(st, after, after.id);
        },
        CommandV::Batch(cs) => lemma_all_ok(cs, st),
    }
}

pub proof fn lemma_all_ok(cs: Seq<CommandV>, st: StoreV)
    requires
        st.ok(),
    ensures
        forward_all(cs, st).ok(),
        undone_all(cs, st).ok(),
    decreases cs,
{
    if cs.len() > 0 {
        lemma_all_ok(cs.drop_last(), st);
        lemma_commands_ok(cs.last(), forward_all(cs.drop_last(), st));
        lemma_commands_ok(cs.last(), st);
        lemma_all_ok(cs.drop_last(), undone(cs.last(), st));
    }
}

proof fn lemma_items_only(c: CommandV, a: StoreV, b: StoreV)
    requires
        a.items == b.items,
    ensures
        undone(c, a).items == undone(c, b).items,
    decreases c,
{
    match c {
        CommandV::Batch(cs) => lemma_items_only_all(cs, a, b),
        _ => {},
    }
}

proof fn lemma_items_only_all(cs: Seq<CommandV>, a: StoreV, b: StoreV)
    requires
        a.items == b.items,
    ensures
        undone_all(cs, a).items == undone_all(cs, b).items,
    decreases cs,
{
    if cs.len() > 0 {
        lemma_items_only(cs.last(), a, b);
        lemma_items_only_all(cs.drop_last(), undone(cs.last(), a), undone(cs.last(), b));
    }
}

/// Undo puts back what was there: taking a command back after carrying it out
/// leaves every annotation as it was, however many changes the command holds.
pub proof fn law_undo_restores(c: CommandV, st: StoreV)
    requires
        st.ok(),
        applies(c, st),
    ensures
        undone(c, forward(c, st)).items == st.items,
    decreases c,
{
    match c {
        CommandV::Add(a) => law_remove_undoes_insert(st.items, a),
        CommandV::Remove(a) => {
            let i = place(st.items, a.id);
            assert(0 <= i < st.items.len() && st.items[i].id == a.id);
            law_insert_undoes_remove(st.items, i);
        },
        CommandV::Modify { before, after } => lemma_put_back(st.items, before, after),
        CommandV::Batch(cs) => law_undo_restores_all(cs, st),
    }
}

/// The same of a list of commands: taken back last to first.
pub proof fn law_undo_restores_all(cs: Seq<CommandV>, st: StoreV)
    requires
        st.ok(),
        applies_all(cs, st),
    ensures
        undone_all(cs, forward_all(cs, st)).items == st.items,
    decreases cs,
{
    if cs.len() > 0 {
        let mid = forward_all(cs.drop_last(), st);
        lemma_all_ok(cs.drop_last(), st);
        law_undo_restores(cs.last(), mid);
        law_undo_restores_all(cs.drop_last(), st);
        lemma_items_only_all(cs.drop_last(), undone(cs.last(), forward(cs.last(), mid)), mid);
    }
}

proof fn lemma_forward_items(c: CommandV, a: StoreV, b: StoreV)
    requires
        a.items == b.items,
    ensures
        forward(c, a).items == forward(c, b).items,
    decreases c,
{
    match c {
        CommandV::Batch(cs) => lemma_forward_items_all(cs, a, b),
        _ => {},
    }
}

proof fn lemma_forward_items_all(cs: Seq<CommandV>, a: StoreV, b: StoreV)
    requires
        a.items == b.items,
    ensures
        forward_all(cs, a).items == forward_all(cs, b).items,
    decreases cs,
{
    if cs.len() > 0 {
        lemma_forward_items_all(cs.drop_last(), a, b);
        lemma_forward_items(
            cs.last(),
            forward_all(cs.drop_last(), a),
            forward_all(cs.drop_last(), b),
        );
    }
}

/// Redo brings back what undo took: carrying a command out again after it was
/// taken back leaves every annotation as it was after the first time.
pub proof fn law_redo_repeats(c: CommandV, st: StoreV)
    requires
        st.ok(),
        applies(c, st),
    ensures
        forward(c, undone(c, forward(c, st))).items == forward(c, st).items,
{
    law_undo_restores(c, st);
    lemma_forward_items(c, undone(c, forward(c, st)), st);
}

/// Putting the old one back after a change leaves everything as it was.
pub proof fn lemma_put_back(s: Seq<AnnV>, before: AnnV, after: AnnV)
    requires
        crate::doc::store::ascending(s),
        before.id == after.id,
        lookup(s, before.id) == Some(before),
    ensures
        put(put(s, after), before) == s,
{
    let i = place(s, before.id);
    assert(0 <= i < s.len() && s[i].id == before.id);
    assert forall|j: int| 0 <= j < s.len() implies put(put(s, after), before)[j] == s[j] by {
        lemma_place(s, j);
    }
    assert(put(put(s, after), before) =~= s);
}

/// Carry `c` out on `store`.
pub fn carry_out(c: &Command, store: &mut AnnotationStore)
    requires
        old(store)@.ok(),
    ensures
        final(store)@ == forward(c.view(), old(store)@),
        final(store)@.ok(),
    decreases c,
{
    proof {
        lemma_commands_ok(c.view(), store@);
    }
    match c {
        Command::AddAnnotation(a) => {
            store.insert(a.clone());
        },
        Command::RemoveAnnotation(a) => {
            let _gone: Option<Annotation> = store.remove(a.id);
        },
        Command::ModifyAnnotation { before: _, after } => {
            store.replace(after.clone());
        },
        Command::Batch(v) => {
            let ghost all = commands(v@);
            let ghost start = store@;
            proof {
                lemma_batch_view(*v);
                assert(all.take(0) =~= Seq::empty());
            }
            let mut i: usize = 0;
            while i < v.len()
                invariant
                    i <= v@.len(),
                    *c == Command::Batch(*v),
                    all == commands(v@),
                    start.ok(),
                    store@.ok(),
                    store@ == forward_all(all.take(i as int), start),
                decreases v@.len() - i,
            {
                proof {
                    assert(all.take(i + 1).drop_last() =~= all.take(i as int));
                    assert(all.take(i + 1).last() == v@[i as int].view());
                    assert(decreases_to!(*c => c->Batch_0));
                    assert(decreases_to!(*v => v@));
                    assert(decreases_to!(v@ => v@[i as int]));
                }
                carry_out(&v[i], store);
                i += 1;
            }
            proof {
                assert(all.take(i as int) =~= all);
            }
        },
    }
}

/// Take `c` back on `store`.
pub fn take_back(c: &Command, store: &mut AnnotationStore)
    requires
        old(store)@.ok(),
    ensures
        final(store)@ == undone(c.view(), old(store)@),
        final(store)@.ok(),
    decreases c,
{
    proof {
        lemma_commands_ok(c.view(), store@);
    }
    match c {
        Command::AddAnnotation(a) => {
            let _gone: Option<Annotation> = store.remove(a.id);
        },
        Command::RemoveAnnotation(a) => {
            store.insert(a.clone());
        },
        Command::ModifyAnnotation { before, after: _ } => {
            store.replace(before.clone());
        },
        Command::Batch(v) => {
            let ghost all = commands(v@);
            let ghost start = store@;
            proof {
                lemma_batch_view(*v);
                assert(all.take(v@.len() as int) =~= all);
            }
            let mut i: usize = v.len();
            while i > 0
                invariant
                    i <= v@.len(),
                    *c == Command::Batch(*v),
                    all == commands(v@),
                    store@.ok(),
                    undone_all(all, start) == undone_all(all.take(i as int), store@),
                decreases i,
            {
                proof {
                    assert(all.take(i as int).drop_last() =~= all.take(i - 1));
                    assert(all.take(i as int).last() == v@[i - 1].view());
                    assert(decreases_to!(*c => c->Batch_0));
                    assert(decreases_to!(*v => v@));
                    assert(decreases_to!(v@ => v@[i - 1]));
                }
                take_back(&v[i - 1], store);
                i -= 1;
            }
        },
    }
}

/// What has been done and what has been undone, oldest first.
pub struct History {
    pub undo: Vec<Command>,
    pub redo: Vec<Command>,
}

/// A history as a mathematical value.
#[verifier::ext_equal]
pub struct HistoryV {
    pub undo: Seq<CommandV>,
    pub redo: Seq<CommandV>,
}

impl View for History {
    type V = HistoryV;

    open spec fn view(&self) -> HistoryV {
        HistoryV { undo: commands(self.undo@), redo: commands(self.redo@) }
    }
}

impl HistoryV {
    /// With one more thing done: there is nothing left to redo.
    pub open spec fn recorded(self, c: CommandV) -> HistoryV {
        HistoryV { undo: self.undo.push(c), redo: Seq::empty() }
    }
}

impl Default for History {
    fn default() -> (r: Self)
        ensures
            r@ == (HistoryV { undo: Seq::empty(), redo: Seq::empty() }),
    {
        let r = History { undo: Vec::new(), redo: Vec::new() };
        proof {
            assert(r@.undo =~= Seq::empty());
            assert(r@.redo =~= Seq::empty());
        }
        r
    }
}

impl History {
    /// Remember something that has already been done.
    pub fn record(&mut self, c: Command)
        ensures
            final(self)@ == old(self)@.recorded(c.view()),
    {
        let ghost before = self@;
        proof {
            assert(commands(self.undo@.push(c)) =~= before.undo.push(c.view()));
        }
        self.undo.push(c);
        self.redo = Vec::new();
        proof {
            assert(commands(self.redo@) =~= Seq::empty());
        }
    }

    /// Carry `c` out and remember it.
    pub fn apply(&mut self, c: Command, store: &mut AnnotationStore)
        requires
            old(store)@.ok(),
        ensures
            final(self)@ == old(self)@.recorded(c.view()),
            final(store)@ == forward(c.view(), old(store)@),
            final(store)@.ok(),
    {
        carry_out(&c, store);
        self.record(c);
    }

    pub fn can_undo(&self) -> (r: bool)
        ensures
            r == (self@.undo.len() > 0),
    {
        self.undo.len() > 0
    }

    /// Take the last thing back. Whether there was one.
    pub fn undo(&mut self, store: &mut AnnotationStore) -> (r: bool)
        requires
            old(store)@.ok(),
        ensures
            r == (old(self)@.undo.len() > 0),
            !r ==> final(self)@ == old(self)@ && final(store)@ == old(store)@,
            r ==> {
                let c = old(self)@.undo.last();
                &&& final(self)@ == (HistoryV {
                    undo: old(self)@.undo.drop_last(),
                    redo: old(self)@.redo.push(c),
                })
                &&& final(store)@ == undone(c, old(store)@)
            },
            final(store)@.ok(),
    {
        let ghost before = self@;
        match self.undo.pop() {
            None => false,
            Some(c) => {
                proof {
                    assert(commands(self.undo@) =~= before.undo.drop_last());
                    assert(before.undo.last() == c.view());
                    assert(commands(self.redo@.push(c)) =~= before.redo.push(c.view()));
                }
                take_back(&c, store);
                self.redo.push(c);
                true
            },
        }
    }

    /// Do the last undone thing again. Whether there was one.
    pub fn redo(&mut self, store: &mut AnnotationStore) -> (r: bool)
        requires
            old(store)@.ok(),
        ensures
            r == (old(self)@.redo.len() > 0),
            !r ==> final(self)@ == old(self)@ && final(store)@ == old(store)@,
            r ==> {
                let c = old(self)@.redo.last();
                &&& final(self)@ == (HistoryV {
                    undo: old(self)@.undo.push(c),
                    redo: old(self)@.redo.drop_last(),
                })
                &&& final(store)@ == forward(c, old(store)@)
            },
            final(store)@.ok(),
    {
        let ghost before = self@;
        match self.redo.pop() {
            None => false,
            Some(c) => {
                proof {
                    assert(commands(self.redo@) =~= before.redo.drop_last());
                    assert(before.redo.last() == c.view());
                    assert(commands(self.undo@.push(c)) =~= before.undo.push(c.view()));
                }
                carry_out(&c, store);
                self.undo.push(c);
                true
            },
        }
    }
}

} // verus!
