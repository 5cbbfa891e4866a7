//! Per-document editor state: what is selected, on the page and on the rail.

use std::collections::BTreeSet;

use vstd::prelude::*;

use crate::doc::annotation::{starting_style, Annotation, AnnotationId, Style};
use crate::doc::geometry::PdfRect;
use crate::doc::history::{History, HistoryV};
use crate::doc::store::{chosen, lookup, views, AnnotationStore, StoreV};
use crate::render::cache::{CacheV, TextureCache, CANVAS_BUDGET, THUMB_BUDGET};
use crate::render::engine::{Engine, EnginePref};
use crate::tools::{starting_ctl, ActiveTool, CtlV, ToolController};

verus! {

/// Find-in-document state.
pub struct FindState {
    pub open: bool,
    pub query: String,
    /// Matches in display order, at most one pass per source page.
    pub matches: Vec<FindMatch>,
    /// Index into `matches` of the highlighted hit.
    pub active: usize,
    /// Ask the find field for keyboard focus on the next frame.
    pub focus_pending: bool,
    /// Query the current `matches` were computed for.
    pub last_query: String,
    /// New page text arrived; recompute matches.
    pub dirty: bool,
}

impl Default for FindState {
    fn default() -> (r: Self)
        ensures
            !r.open && !r.focus_pending && !r.dirty,
            r.query@.len() == 0 && r.last_query@.len() == 0,
            r.matches@.len() == 0 && r.active == 0,
    {
        FindState {
            open: false,
            query: String::new(),
            matches: Vec::new(),
            active: 0,
            focus_pending: false,
            last_query: String::new(),
            dirty: false,
        }
    }
}

/// One occurrence of the find query.
pub struct FindMatch {
    pub source_page: usize,
    /// Index into the page layout's lines.
    pub line: usize,
    /// Byte range inside that line's text, from `start` up to `end`.
    pub start: usize,
    pub end: usize,
    /// Union of the matched characters' boxes, in display space.
    pub rect: PdfRect,
}

/// The markup that is selected, and which one of it the inspector is about.
///
/// A set rather than one id, because moving four things at once is what people
/// do with markup, and because a group is only a selection somebody made once.
/// `primary` is the last one added: with several selected the panel has to edit
/// *something*, and the thing just clicked is the least surprising answer.
#[derive(Debug)]
pub struct Selection {
    /// Ascending, none twice.
    pub ids: Vec<AnnotationId>,
    pub primary: Option<AnnotationId>,
}

/// A selection as a mathematical value.
#[verifier::ext_equal]
pub struct SelV {
    pub ids: Set<AnnotationId>,
    pub primary: Option<AnnotationId>,
}

/// Whether `s` ascends, so that nothing is in it twice.
pub open spec fn rising(s: Seq<u64>) -> bool {
    forall|i: int, j: int| 0 <= i < j < s.len() ==> (#[trigger] s[i]) < (#[trigger] s[j])
}

/// The greatest of `s`.
pub open spec fn is_greatest(s: Set<u64>, m: u64) -> bool {
    s.contains(m) && forall|x: u64| #[trigger] s.contains(x) ==> x <= m
}

/// The greatest of `s`, where there is one.
pub open spec fn greatest(s: Set<u64>) -> Option<u64> {
    if exists|m: u64| #[trigger] is_greatest(s, m) {
        Some(choose|m: u64| #[trigger] is_greatest(s, m))
    } else {
        None
    }
}

impl View for Selection {
    type V = SelV;

    open spec fn view(&self) -> SelV {
        SelV { ids: self.ids@.to_set(), primary: self.primary }
    }
}

impl SelV {
    /// The one the inspector is about is one of those selected, and there is
    /// one exactly where anything is selected.
    pub open spec fn ok(self) -> bool {
        match self.primary {
            Some(p) => self.ids.contains(p),
            None => self.ids == Set::<u64>::empty(),
        }
    }

    pub open spec fn none() -> SelV {
        SelV { ids: Set::empty(), primary: None }
    }

    pub open spec fn one(id: u64) -> SelV {
        SelV { ids: Set::empty().insert(id), primary: Some(id) }
    }

    /// Exactly these.
    pub open spec fn these(ids: Set<u64>) -> SelV {
        SelV { ids, primary: greatest(ids) }
    }

    pub open spec fn toggled(self, id: u64) -> SelV {
        if self.ids.contains(id) {
            let rest = self.ids.remove(id);
            SelV {
                ids: rest,
                primary: if self.primary == Some(id) {
                    greatest(rest)
                } else {
                    self.primary
                },
            }
        } else {
            SelV { ids: self.ids.insert(id), primary: Some(id) }
        }
    }

    pub open spec fn with_all(self, ids: Seq<u64>) -> SelV {
        SelV {
            ids: self.ids.union(ids.to_set()),
            primary: if ids.len() > 0 {
                Some(ids.last())
            } else {
                self.primary
            },
        }
    }

    /// Toggle each of `ids` in turn.
    pub open spec fn toggled_all(self, ids: Seq<u64>) -> SelV
        decreases ids.len(),
    {
        if ids.len() == 0 {
            self
        } else {
            self.toggled_all(ids.drop_last()).toggled(ids.last())
        }
    }
}

proof fn lemma_greatest(s: Seq<u64>)
    requires
        rising(s),
    ensures
        s.len() == 0 ==> greatest(s.to_set()) is None,
        s.len() > 0 ==> greatest(s.to_set()) == Some(s.last()),
{
    let set = s.to_set();
    if s.len() == 0 {
        assert forall|m: u64| !#[trigger] is_greatest(set, m) by {
            assert(!s.contains(m));
        }
    } else {
        let m = s.last();
        assert(s.contains(m)) by {
            assert(s[s.len() - 1] == m);
        }
        assert forall|x: u64| #[trigger] set.contains(x) implies x <= m by {
            let i = s.index_of(x);
            assert(s.contains(x));
            if i < s.len() - 1 {
                assert(s[i] < s[s.len() - 1]);
            }
        }
        assert(is_greatest(set, m));
        let g = choose|g: u64| #[trigger] is_greatest(set, g);
        assert(is_greatest(set, g));
        assert(g == m);
    }
}

impl Selection {
    /// The ids ascend, and the view is a selection that makes sense.
    pub open spec fn ok(&self) -> bool {
        rising(self.ids@) && self@.ok()
    }

    /// Where `id` is, or where it would go.
    fn find(&self, id: AnnotationId) -> (r: (bool, usize))
        requires
            rising(self.ids@),
        ensures
            r.1 <= self.ids@.len(),
            r.0 == self.ids@.contains(id),
            r.0 ==> r.1 < self.ids@.len() && self.ids@[r.1 as int] == id,
            forall|i: int| 0 <= i < r.1 ==> (#[trigger] self.ids@[i]) < id,
            !r.0 ==> forall|i: int| r.1 <= i < self.ids@.len() ==> (#[trigger] self.ids@[i]) > id,
    {
        let mut k: usize = 0;
        while k < self.ids.len() && self.ids[k] < id
            invariant
                k <= self.ids@.len(),
                forall|i: int| 0 <= i < k ==> (#[trigger] self.ids@[i]) < id,
            decreases self.ids@.len() - k,
        {
            k += 1;
        }
        let found: bool = k < self.ids.len() && self.ids[k] == id;
        proof {
            if found {
                assert(self.ids@.contains(id));
            } else {
                assert forall|i: int| k <= i < self.ids@.len() implies (#[trigger] self.ids@[i])
                    > id by {
                    if i > k {
                        assert(self.ids@[k as int] < self.ids@[i]);
                    }
                }
                assert(!self.ids@.contains(id));
            }
        }
        (found, k)
    }

    fn put(&mut self, id: AnnotationId)
        requires
            rising(old(self).ids@),
        ensures
            rising(final(self).ids@),
            final(self).ids@.to_set() == old(self).ids@.to_set().insert(id),
            final(self).primary == old(self).primary,
    {
        let ghost s = self.ids@;
        let (found, k) = self.find(id);
        if !found {
            self.ids.insert(k, id);
            proof {
                let t = self.ids@;
                assert(t == s.insert(k as int, id));
                assert forall|i: int, j: int| 0 <= i < j < t.len() implies (#[trigger] t[i]) < (
                #[trigger] t[j]) by {
                    let (oi, oj) = (if i < k { i } else { i - 1 }, if j < k { j } else { j - 1 });
                    if i != k {
                        assert(t[i] == s[oi]);
                    }
                    if j != k {
                        assert(t[j] == s[oj]);
                    }
                    if i != k && j != k {
                        assert(s[oi] < s[oj]);
                    }
                }
                assert forall|x: u64| t.to_set().contains(x) == s.to_set().insert(id).contains(x) by {
                    if t.contains(x) {
                        let i = t.index_of(x);
                        if i != k {
                            assert(s[if i < k { i } else { i - 1 }] == x);
                            assert(s.contains(x));
                        }
                    }
                    if s.contains(x) {
                        let i = s.index_of(x);
                        assert(t[if i < k { i } else { i + 1 }] == x);
                        assert(t.contains(x));
                    }
                    assert(t[k as int] == id);
                    assert(t.contains(id));
                }
                assert(t.to_set() =~= s.to_set().insert(id));
            }
        } else {
            proof {
                assert(s.to_set().contains(id));
                assert(s.to_set() =~= s.to_set().insert(id));
            }
        }
    }

    /// Nothing at all.
    pub fn clear(&mut self)
        ensures
            final(self)@ == SelV::none(),
            final(self).ok(),
    {
        self.ids = Vec::new();
        self.primary = None;
        proof {
            assert(self.ids@.to_set() =~= Set::<u64>::empty());
        }
    }

    /// Just this one, and nothing else.
    pub fn select_one(&mut self, id: AnnotationId)
        ensures
            final(self)@ == SelV::one(id),
            final(self).ok(),
    {
        self.clear();
        self.put(id);
        self.primary = Some(id);
    }

    /// The greatest id selected.
    fn last(&self) -> (r: Option<AnnotationId>)
        requires
            rising(self.ids@),
        ensures
            r == greatest(self.ids@.to_set()),
            r matches Some(p) ==> self.ids@.to_set().contains(p),
            r is None ==> self.ids@.to_set() == Set::<u64>::empty(),
    {
        proof {
            lemma_greatest(self.ids@);
        }
        let n: usize = self.ids.len();
        if n == 0 {
            proof {
                assert(self.ids@.to_set() =~= Set::<u64>::empty());
            }
            None
        } else {
            proof {
                assert(self.ids@.contains(self.ids@[n - 1]));
            }
            Some(self.ids[n - 1])
        }
    }

    /// Exactly these, with `primary` the last of them still standing.
    pub fn select_all(&mut self, ids: &Vec<AnnotationId>)
        ensures
            final(self)@ == SelV::these(ids@.to_set()),
            final(self).ok(),
    {
        self.clear();
        let mut i: usize = 0;
        proof {
            assert(ids@.take(0).to_set() =~= Set::<u64>::empty());
        }
        while i < ids.len()
            invariant
                i <= ids@.len(),
                rising(self.ids@),
                self.ids@.to_set() == ids@.take(i as int).to_set(),
            decreases ids@.len() - i,
        {
            let ghost before = self.ids@.to_set();
            self.put(ids[i]);
            proof {
                lemma_take_set(ids@, i as int);
            }
            i += 1;
        }
        self.primary = self.last();
        proof {
            assert(ids@.take(i as int) =~= ids@);
        }
    }

    /// Add or remove one (shift-click).
    pub fn toggle(&mut self, id: AnnotationId)
        requires
            old(self).ok(),
        ensures
            final(self)@ == old(self)@.toggled(id),
            final(self).ok(),
    {
        let ghost s = self.ids@;
        let (found, k) = self.find(id);
        if found {
            let _gone: u64 = self.ids.remove(k);
            proof {
                let t = self.ids@;
                assert(t == s.remove(k as int));
                assert forall|i: int, j: int| 0 <= i < j < t.len() implies (#[trigger] t[i]) < (
                #[trigger] t[j]) by {
                    let (oi, oj) = (if i < k { i } else { i + 1 }, if j < k { j } else { j + 1 });
                    assert(t[i] == s[oi] && t[j] == s[oj]);
                    assert(s[oi] < s[oj]);
                }
                assert forall|x: u64| t.to_set().contains(x) == s.to_set().remove(id).contains(x) by {
                    if t.contains(x) {
                        let i = t.index_of(x);
                        let o = if i < k { i } else { i + 1 };
                        assert(s[o] == x);
                        assert(s.contains(x));
                        if o < k {
                            assert(s[o] < s[k as int]);
                        } else {
                            assert(s[k as int] < s[o]);
                        }
                    }
                    if s.contains(x) && x != id {
                        let i = s.index_of(x);
                        assert(t[if i < k { i } else { i - 1 }] == x);
                        assert(t.contains(x));
                    }
                }
                assert(t.to_set() =~= s.to_set().remove(id));
            }
            let drop: bool = match self.primary {
                Some(p) => p == id,
                None => false,
            };
            if drop {
                self.primary = self.last();
            }
        } else {
            proof {
                assert(!s.to_set().contains(id));
            }
            self.put(id);
            self.primary = Some(id);
        }
    }

    /// Toggle each of these in turn.
    pub fn toggle_all(&mut self, ids: &Vec<AnnotationId>)
        requires
            old(self).ok(),
        ensures
            final(self)@ == old(self)@.toggled_all(ids@),
            final(self).ok(),
    {
        let ghost start = self@;
        let mut i: usize = 0;
        proof {
            assert(ids@.take(0) =~= Seq::empty());
        }
        while i < ids.len()
            invariant
                i <= ids@.len(),
                self.ok(),
                self@ == start.toggled_all(ids@.take(i as int)),
            decreases ids@.len() - i,
        {
            proof {
                assert(ids@.take(i + 1).drop_last() =~= ids@.take(i as int));
            }
            self.toggle(ids[i]);
            i += 1;
        }
        proof {
            assert(ids@.take(i as int) =~= ids@);
        }
    }

    /// Add these without dropping what is already selected.
    pub fn add_all(&mut self, ids: &Vec<AnnotationId>)
        requires
            old(self).ok(),
        ensures
            final(self)@ == old(self)@.with_all(ids@),
            final(self).ok(),
    {
        let ghost start = self@;
        let mut i: usize = 0;
        proof {
            assert(ids@.take(0).to_set() =~= Set::<u64>::empty());
            assert(self@.ids =~= start.ids.union(ids@.take(0).to_set()));
        }
        while i < ids.len()
            invariant
                i <= ids@.len(),
                self.ok(),
                self@.ids == start.ids.union(ids@.take(i as int).to_set()),
                self@.primary == (if i > 0 {
                    Some(ids@[i - 1])
                } else {
                    start.primary
                }),
            decreases ids@.len() - i,
        {
            self.put(ids[i]);
            self.primary = Some(ids[i]);
            proof {
                lemma_take_set(ids@, i as int);
                assert(self@.ids =~= start.ids.union(ids@.take(i + 1).to_set()));
            }
            i += 1;
        }
        proof {
            assert(ids@.take(i as int) =~= ids@);
        }
    }

    pub fn contains(&self, id: AnnotationId) -> (r: bool)
        requires
            self.ok(),
        ensures
            r == self@.ids.contains(id),
    {
        let (found, _k) = self.find(id);
        found
    }

    /// The one the inspector edits and whose handles are drawn.
    pub fn primary(&self) -> (r: Option<AnnotationId>)
        ensures
            r == self@.primary,
    {
        self.primary
    }

    pub fn len(&self) -> (r: usize)
        requires
            self.ok(),
        ensures
            r == self@.ids.len(),
    {
        proof {
            assert(self.ids@.no_duplicates());
            self.ids@.unique_seq_to_set();
        }
        self.ids.len()
    }

    pub fn is_empty(&self) -> (r: bool)
        ensures
            r == (self@.ids == Set::<u64>::empty()),
    {
        proof {
            if self.ids@.len() == 0 {
                assert(self.ids@.to_set() =~= Set::<u64>::empty());
            } else {
                assert(self.ids@.contains(self.ids@[0]));
                assert(self.ids@.to_set().contains(self.ids@[0]));
            }
        }
        self.ids.len() == 0
    }

    /// Everything selected, in ascending order.
    pub fn iter(&self) -> (r: Vec<AnnotationId>)
        requires
            self.ok(),
        ensures
            rising(r@),
            r@.to_set() == self@.ids,
    {
        let mut r: Vec<AnnotationId> = Vec::new();
        let mut i: usize = 0;
        while i < self.ids.len()
            invariant
                i <= self.ids@.len(),
                r@ == self.ids@.take(i as int),
            decreases self.ids@.len() - i,
        {
            r.push(self.ids[i]);
            proof {
                assert(self.ids@.take(i + 1) =~= self.ids@.take(i as int).push(self.ids@[i as int]));
            }
            i += 1;
        }
        proof {
            assert(self.ids@.take(i as int) =~= self.ids@);
        }
        r
    }
}

impl Default for Selection {
    fn default() -> (r: Self)
        ensures
            r@ == SelV::none(),
            r.ok(),
    {
        let r = Selection { ids: Vec::new(), primary: None };
        proof {
            assert(r.ids@.to_set() =~= Set::<u64>::empty());
        }
        r
    }
}

proof fn lemma_take_set(s: Seq<u64>, i: int)
    requires
        0 <= i < s.len(),
    ensures
        s.take(i + 1).to_set() == s.take(i).to_set().insert(s[i]),
{
    let (a, b) = (s.take(i), s.take(i + 1));
    assert forall|x: u64| b.to_set().contains(x) == a.to_set().insert(s[i]).contains(x) by {
        if b.contains(x) {
            let k = b.index_of(x);
            if k < i {
                assert(a[k] == x);
                assert(a.contains(x));
            }
        }
        if a.contains(x) {
            let k = a.index_of(x);
            assert(b[k] == x);
            assert(b.contains(x));
        }
        assert(b[i] == s[i]);
        assert(b.contains(s[i]));
    }
    assert(b.to_set() =~= a.to_set().insert(s[i]));
}

/// Toggling twice gives back the members there were.
pub proof fn law_toggle_twice(sel: SelV, id: u64)
    ensures
        sel.toggled(id).toggled(id).ids == sel.ids,
{
    assert(sel.toggled(id).toggled(id).ids =~= sel.ids);
}

/// Page-rail multi-selection (display positions).
pub struct RailSelection {
    pub selected: BTreeSet<usize>,
    pub anchor: Option<usize>,
}

/// The positions from `a` to `b`, whichever comes first, both included.
pub open spec fn between(a: usize, b: usize) -> Set<usize> {
    Set::new(|p: usize| (a <= p <= b) || (b <= p <= a))
}

impl Default for RailSelection {
    fn default() -> (r: Self)
        ensures
            r.selected@ == Set::<usize>::empty(),
            r.anchor is None,
    {
        RailSelection { selected: BTreeSet::new(), anchor: None }
    }
}

impl RailSelection {
    pub fn clear(&mut self)
        ensures
            final(self).selected@ == Set::<usize>::empty(),
            final(self).anchor is None,
    {
        self.selected.clear();
        self.anchor = None;
    }

    /// Apply a click at `pos` with the platform modifiers.
    pub fn click(&mut self, pos: usize, shift: bool, cmd: bool)
        ensures
            match (shift, old(self).anchor) {
                (true, Some(anchor)) => {
                    &&& final(self).anchor == old(self).anchor
                    &&& final(self).selected@ == if cmd {
                        old(self).selected@.union(between(anchor, pos))
                    } else {
                        between(anchor, pos)
                    }
                },
                _ => {
                    &&& final(self).anchor == Some(pos)
                    &&& final(self).selected@ == if !cmd {
                        Set::empty().insert(pos)
                    } else if old(self).selected@.contains(pos) {
                        old(self).selected@.remove(pos)
                    } else {
                        old(self).selected@.insert(pos)
                    }
                },
            },
    {
        broadcast use vstd::std_specs::btree::group_btree_axioms;
        broadcast use vstd::laws_cmp::group_laws_cmp;

        let from: Option<usize> = if shift { self.anchor } else { None };
        if let Some(anchor) = from {
            let a: usize = if anchor <= pos { anchor } else { pos };
            let b: usize = if anchor <= pos { pos } else { anchor };
            if !cmd {
                self.selected.clear();
            }
            let ghost start = self.selected@;
            let mut i: usize = a;
            proof {
                assert(start =~= start.union(Set::new(|p: usize| a <= p < i)));
            }
            loop
                invariant_except_break
                    a <= i <= b,
                    self.selected@ == start.union(Set::new(|p: usize| a <= p < i)),
                    self.anchor == old(self).anchor,
                ensures
                    self.selected@ == start.union(Set::new(|p: usize| a <= p <= b)),
                    self.anchor == old(self).anchor,
                decreases b - i,
            {
                broadcast use vstd::std_specs::btree::group_btree_axioms;
                broadcast use vstd::laws_cmp::group_laws_cmp;

                let ghost before = self.selected@;
                let _new: bool = self.selected.insert(i);
                proof {
                    assert(self.selected@ == before.insert(i));
                }
                if i == b {
                    proof {
                        assert(self.selected@ =~= start.union(Set::new(|p: usize| a <= p <= b)));
                    }
                    break;
                }
                proof {
                    assert(self.selected@ =~= start.union(Set::new(|p: usize| a <= p < i + 1)));
                }
                i += 1;
            }
            proof {
                assert(Set::new(|p: usize| a <= p <= b) =~= between(anchor, pos));
                assert(!cmd ==> self.selected@ =~= between(anchor, pos));
            }
        } else if cmd {
            if !self.selected.remove(&pos) {
                let _new: bool = self.selected.insert(pos);
                proof {
                    assert(self.selected@ =~= old(self).selected@.insert(pos));
                }
            }
            self.anchor = Some(pos);
        } else {
            self.selected.clear();
            let _new: bool = self.selected.insert(pos);
            self.anchor = Some(pos);
        }
    }
}

/// One open document and everything about editing it.
pub struct DocState {
    pub store: AnnotationStore,
    pub history: History,
    pub tool: ActiveTool,
    pub tool_ctl: ToolController,
    pub selection: Selection,
    /// Annotation currently in inline text-edit mode.
    pub editing_text: Option<AnnotationId>,
    /// Style applied to newly created annotations.
    pub current_style: Style,
    /// In thousandths of a point.
    pub current_font_size: u32,
    /// What a stamp's `%date` and `%user` stand for.
    pub today: String,
    pub user: String,
    /// Multi-selection on the page rail, as display positions.
    pub rail: RailSelection,
    /// Logical page indices copied via the rail's Copy action.
    pub page_clipboard: Vec<usize>,
    /// Set when the underlying source bytes differ from the file on disk
    /// (e.g. after Insert Pages), independent of markup/page-list changes.
    pub force_modified: bool,
    /// When the document came from the library: its content id, for sidecar
    /// markup persistence.
    pub library_id: Option<String>,
    /// Display title when there is no filesystem path (library/untitled docs).
    pub title_override: Option<String>,
    /// The title the document itself has.
    pub doc_title: String,
    pub find: FindState,
    /// Which rasterizer this document's worker was started with, so that
    /// changing the preference can tell whether there is anything to redo.
    pub engine_pref: EnginePref,
    /// Which one actually drew, learned from the first page that came back.
    pub engine: Option<Engine>,
    pub cache: TextureCache,
    pub thumb_cache: TextureCache,
}

/// A cache of this budget with nothing in it.
pub open spec fn fresh_cache(budget: usize) -> CacheV {
    CacheV { entries: Seq::empty(), pending: Map::empty(), touched: Set::empty(), budget }
}

/// A document as a mathematical value.
#[verifier::ext_equal]
pub struct DocV {
    pub store: StoreV,
    pub history: HistoryV,
    pub tool: ActiveTool,
    pub ctl: CtlV,
    pub selection: SelV,
    pub editing_text: Option<AnnotationId>,
    pub style: Style,
    pub font_size: u32,
    pub today: Seq<char>,
    pub user: Seq<char>,
    pub title: Seq<char>,
    pub rest: RestV,
}

/// What the tools leave alone.
#[verifier::ext_equal]
pub struct RestV {
    pub rail: RailSelection,
    pub page_clipboard: Seq<usize>,
    pub force_modified: bool,
    pub library_id: Option<String>,
    pub title_override: Option<String>,
    pub doc_title: String,
    pub find: FindState,
    pub engine_pref: EnginePref,
    pub engine: Option<Engine>,
    pub cache: TextureCache,
    pub thumb_cache: TextureCache,
}

impl View for DocState {
    type V = DocV;

    open spec fn view(&self) -> DocV {
        DocV {
            store: self.store@,
            history: self.history@,
            tool: self.tool,
            ctl: self.tool_ctl@,
            selection: self.selection@,
            editing_text: self.editing_text,
            style: self.current_style,
            font_size: self.current_font_size,
            today: self.today@,
            user: self.user@,
            title: match self.title_override {
                Some(t) => t@,
                None => self.doc_title@,
            },
            rest: RestV {
                rail: self.rail,
                page_clipboard: self.page_clipboard@,
                force_modified: self.force_modified,
                library_id: self.library_id,
                title_override: self.title_override,
                doc_title: self.doc_title,
                find: self.find,
                engine_pref: self.engine_pref,
                engine: self.engine,
                cache: self.cache,
                thumb_cache: self.thumb_cache,
            },
        }
    }
}

impl DocState {
    /// The store is in order and the selection makes sense.
    pub open spec fn ok(&self) -> bool {
        self.store@.ok() && self.selection.ok()
    }

    /// A document just opened: nothing drawn on it, nothing selected, and
    /// nothing rendered yet.
    pub fn new(doc_title: String, pref: EnginePref) -> (r: Self)
        ensures
            r.ok(),
            r@ == (DocV {
                store: (StoreV { items: Seq::empty(), next: 1 }),
                history: (HistoryV { undo: Seq::empty(), redo: Seq::empty() }),
                tool: ActiveTool::Select,
                ctl: starting_ctl(),
                selection: SelV::none(),
                editing_text: None,
                style: starting_style(),
                font_size: 14_000,
                today: Seq::empty(),
                user: Seq::empty(),
                title: doc_title@,
                rest: r@.rest,
            }),
            r.doc_title == doc_title,
            r.engine_pref == pref,
            r.engine is None,
            r.cache@ == fresh_cache(CANVAS_BUDGET) && r.cache.ok(),
            r.thumb_cache@ == fresh_cache(THUMB_BUDGET) && r.thumb_cache.ok(),
            !r.force_modified,
            r.library_id is None,
            r.title_override is None,
            r.page_clipboard@.len() == 0,
            r.rail.selected@ == Set::<usize>::empty() && r.rail.anchor is None,
            !r.find.open && !r.find.focus_pending && !r.find.dirty,
            r.find.query@.len() == 0 && r.find.last_query@.len() == 0,
            r.find.matches@.len() == 0 && r.find.active == 0,
    {
        DocState {
            store: AnnotationStore::default(),
            history: History::default(),
            tool: ActiveTool::Select,
            tool_ctl: ToolController::default(),
            selection: Selection::default(),
            editing_text: None,
            current_style: Style::default(),
            current_font_size: 14_000,
            today: String::new(),
            user: String::new(),
            rail: RailSelection::default(),
            page_clipboard: Vec::new(),
            force_modified: false,
            library_id: None,
            title_override: None,
            doc_title,
            find: FindState::default(),
            engine_pref: pref,
            engine: None,
            cache: TextureCache::with_budget(CANVAS_BUDGET),
            thumb_cache: TextureCache::with_budget(THUMB_BUDGET),
        }
    }

    /// Build a state for a document (e.g. the merged result of Insert Pages)
    /// that carries over the editing session of `old`: markup, history and tool
    /// settings. What was rendered starts fresh.
    pub fn adopt(doc_title: String, from: DocState) -> (r: Self)
        requires
            from.ok(),
        ensures
            r.ok(),
            r@ == (DocV {
                ctl: starting_ctl(),
                editing_text: None,
                title: r@.title,
                rest: r@.rest,
                ..from@
            }),
            r@.title == (match from.title_override {
                Some(t) => t@,
                None => doc_title@,
            }),
            r.doc_title == doc_title,
            r.engine_pref == from.engine_pref,
            r.engine is None,
            r.cache@ == fresh_cache(CANVAS_BUDGET) && r.cache.ok(),
            r.thumb_cache@ == fresh_cache(THUMB_BUDGET) && r.thumb_cache.ok(),
            r.force_modified,
            r.library_id == from.library_id,
            r.title_override == from.title_override,
            r.page_clipboard@.len() == 0,
            r.rail.selected@ == Set::<usize>::empty() && r.rail.anchor is None,
            r.find == (FindState { dirty: true, ..from.find }),
    {
        let mut new: DocState = DocState::new(doc_title, from.engine_pref);
        new.today = from.today;
        new.user = from.user;
        new.find = from.find;
        new.find.dirty = true;
        new.store = from.store;
        new.history = from.history;
        new.tool = from.tool;
        new.current_style = from.current_style;
        new.current_font_size = from.current_font_size;
        new.selection = from.selection;
        new.force_modified = true;
        new.library_id = from.library_id;
        new.title_override = from.title_override;
        new
    }

    /// Switch rasterizer without closing the document: whether a new worker has
    /// to be started.
    ///
    /// Everything already drawn came from the old engine, so both texture
    /// caches are thrown away: half a page from each renderer would be the one
    /// bug this whole seam exists to avoid.
    pub fn set_engine_pref(&mut self, pref: EnginePref) -> (r: bool)
        requires
            old(self).ok(),
        ensures
            r == (old(self).engine_pref != pref),
            !r ==> *final(self) == *old(self),
            r ==> final(self).cache@ == fresh_cache(CANVAS_BUDGET) && final(self).cache.ok()
                && final(self).thumb_cache@ == fresh_cache(THUMB_BUDGET)
                && final(self).thumb_cache.ok(),
            r ==> final(self)@ == (DocV {
                rest: (RestV {
                    engine_pref: pref,
                    engine: None,
                    cache: final(self).cache,
                    thumb_cache: final(self).thumb_cache,
                    ..old(self)@.rest
                }),
                ..old(self)@
            }),
            final(self).ok(),
    {
        if self.engine_pref == pref {
            return false;
        }
        self.engine_pref = pref;
        self.engine = None;
        self.cache = TextureCache::with_budget(CANVAS_BUDGET);
        self.thumb_cache = TextureCache::with_budget(THUMB_BUDGET);
        true
    }

    /// What the document is called: the name given to it here, or its own.
    pub fn title(&self) -> (r: String)
        ensures
            r@ == self@.title,
    {
        match &self.title_override {
            Some(t) => t.clone(),
            None => self.doc_title.clone(),
        }
    }

    /// True when there is anything to save (markup or page changes).
    pub fn is_modified(&self, pages_changed: bool) -> (r: bool)
        ensures
            r == (self.force_modified || self@.store.items.len() > 0 || pages_changed),
    {
        self.force_modified || !self.store.is_empty() || pages_changed
    }

    /// The annotation the inspector is about, where the store still has it.
    pub fn selected_annotation(&self) -> (r: Option<&Annotation>)
        requires
            self.ok(),
        ensures
            match (r, self@.selection.primary) {
                (Some(a), Some(id)) => lookup(self@.store.items, id) == Some(a@),
                (None, Some(id)) => lookup(self@.store.items, id) is None,
                (r, None) => r is None,
            },
    {
        match self.selection.primary() {
            Some(id) => self.store.get(id),
            None => None,
        }
    }

    /// Everything selected, in the order it is stored, skipping ids the store
    /// no longer has -- undo can take an annotation away while it is selected.
    pub fn selected_annotations(&self) -> (r: Vec<Annotation>)
        requires
            self.ok(),
        ensures
            views(r@) == chosen(self@.store.items, self@.selection.ids),
    {
        let mut r: Vec<Annotation> = Vec::new();
        let ghost items = self@.store.items;
        let mut i: usize = 0;
        proof {
            assert(items.take(0) =~= Seq::empty());
            assert(views(r@) =~= Seq::empty());
        }
        while i < self.store.items.len()
            invariant
                i <= self.store.items@.len(),
                self.ok(),
                items == self@.store.items,
                views(r@) == chosen(items.take(i as int), self@.selection.ids),
            decreases self.store.items@.len() - i,
        {
            proof {
                assert(items.take(i + 1).drop_last() =~= items.take(i as int));
                assert(items.take(i + 1).last() == self.store.items@[i as int]@);
            }
            if self.selection.contains(self.store.items[i].id) {
                let a: Annotation = self.store.items[i].clone();
                proof {
                    assert(views(r@.push(a)) =~= views(r@).push(a@));
                }
                r.push(a);
            }
            i += 1;
        }
        proof {
            assert(items.take(i as int) =~= items);
        }
        r
    }
}

/// The one the inspector is about is the newest of those selected: the last of
/// those added, or the greatest where they were all selected at once.
pub proof fn law_the_inspector_is_about_the_newest(sel: SelV, ids: Seq<u64>, x: u64)
    requires
        rising(ids),
    ensures
        SelV::these(ids.to_set()).ids.contains(x) <==> ids.contains(x),
        ids.len() > 0 ==> SelV::these(ids.to_set()).primary == Some(ids.last()),
        ids.len() == 0 ==> SelV::these(ids.to_set()).primary is None,
        sel.with_all(ids).ids.contains(x) <==> sel.ids.contains(x) || ids.contains(x),
        ids.len() > 0 ==> sel.with_all(ids).primary == Some(ids.last()),
        ids.len() == 0 ==> sel.with_all(ids).primary == sel.primary,
        SelV::one(x).primary == Some(x),
        !sel.ids.contains(x) ==> sel.toggled(x).primary == Some(x),
        sel.ids.contains(x) && sel.primary != Some(x) ==> sel.toggled(x).primary == sel.primary,
{
    lemma_greatest(ids);
}

/// A run of pages has both its ends, everything between them and nothing else,
/// whichever end comes first.
pub proof fn law_a_run_has_both_its_ends(a: usize, b: usize, x: usize)
    ensures
        between(a, b).contains(a) && between(a, b).contains(b),
        a <= b ==> (between(a, b).contains(x) <==> a <= x && x <= b),
        between(a, b) == between(b, a),
{
    assert(between(a, b) =~= between(b, a));
}

} // verus!
