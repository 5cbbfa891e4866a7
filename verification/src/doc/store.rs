//! The annotations of one document, in the order they were made.

use vstd::prelude::*;

use crate::doc::annotation::{AnnV, Annotation, AnnotationId, GroupId};

verus! {

/// Annotations in ascending order of id, which is the order they are drawn in.
pub struct AnnotationStore {
    pub items: Vec<Annotation>,
    pub next_id: u64,
}

/// A store as a mathematical value.
#[verifier::ext_equal]
pub struct StoreV {
    pub items: Seq<AnnV>,
    pub next: u64,
}

pub open spec fn views(s: Seq<Annotation>) -> Seq<AnnV> {
    s.map_values(|a: Annotation| a@)
}

impl View for AnnotationStore {
    type V = StoreV;

    open spec fn view(&self) -> StoreV {
        StoreV { items: views(self.items@), next: self.next_id }
    }
}

/// Whether the ids of `s` ascend, so that no two are the same.
pub open spec fn ascending(s: Seq<AnnV>) -> bool {
    forall|i: int, j: int| 0 <= i < j < s.len() ==> (#[trigger] s[i]).id < (#[trigger] s[j]).id
}

impl StoreV {
    /// The ids ascend and the next one is past them all.
    pub open spec fn ok(self) -> bool {
        &&& ascending(self.items)
        &&& forall|i: int|
            0 <= i < self.items.len() ==> (#[trigger] self.items[i]).id < self.next || self.next
                == u64::MAX
    }
}

/// Whether an annotation with this id is in `s`.
pub open spec fn stored(s: Seq<AnnV>, id: u64) -> bool {
    exists|i: int| 0 <= i < s.len() && (#[trigger] s[i]).id == id
}

/// Where the annotation with this id is in `s`.
pub open spec fn place(s: Seq<AnnV>, id: u64) -> int {
    choose|i: int| 0 <= i < s.len() && (#[trigger] s[i]).id == id
}

/// The annotation with this id.
pub open spec fn lookup(s: Seq<AnnV>, id: u64) -> Option<AnnV> {
    if stored(s, id) {
        Some(s[place(s, id)])
    } else {
        None
    }
}

/// How many annotations of `s` have a smaller id.
pub open spec fn below(s: Seq<AnnV>, id: u64) -> int
    decreases s.len(),
{
    if s.len() == 0 {
        0
    } else if s.last().id < id {
        s.len() as int
    } else {
        below(s.drop_last(), id)
    }
}

/// `s` with `a` in its place by id, taking the place of one with the same id.
pub open spec fn with(s: Seq<AnnV>, a: AnnV) -> Seq<AnnV> {
    if stored(s, a.id) {
        put(s, a)
    } else {
        s.insert(below(s, a.id), a)
    }
}

/// `s` with `a` in place of the one with the same id, where there is one.
pub open spec fn put(s: Seq<AnnV>, a: AnnV) -> Seq<AnnV> {
    s.map_values(|b: AnnV| if b.id == a.id { a } else { b })
}

/// `s` without the annotation of this id.
pub open spec fn without(s: Seq<AnnV>, id: u64) -> Seq<AnnV> {
    if stored(s, id) {
        s.remove(place(s, id))
    } else {
        s
    }
}

/// The id after this one.
pub open spec fn following(id: u64) -> u64 {
    if id == u64::MAX {
        u64::MAX
    } else {
        (id + 1) as u64
    }
}

impl StoreV {
    pub open spec fn inserted(self, a: AnnV) -> StoreV {
        StoreV {
            items: with(self.items, a),
            next: if following(a.id) > self.next {
                following(a.id)
            } else {
                self.next
            },
        }
    }

    pub open spec fn replaced(self, a: AnnV) -> StoreV {
        StoreV { items: put(self.items, a), next: self.next }
    }

    pub open spec fn removed(self, id: u64) -> StoreV {
        StoreV { items: without(self.items, id), next: self.next }
    }
}

/// In ascending order an id is in at most one place.
pub proof fn lemma_place(s: Seq<AnnV>, i: int)
    requires
        ascending(s),
        0 <= i < s.len(),
    ensures
        stored(s, s[i].id),
        place(s, s[i].id) == i,
        lookup(s, s[i].id) == Some(s[i]),
{
    let j = place(s, s[i].id);
    assert(0 <= j < s.len() && s[j].id == s[i].id);
    if j < i {
        assert(s[j].id < s[i].id);
    } else if i < j {
        assert(s[i].id < s[j].id);
    }
}

/// `below` cuts an ascending sequence at `id`.
pub proof fn lemma_below(s: Seq<AnnV>, id: u64)
    requires
        ascending(s),
    ensures
        0 <= below(s, id) <= s.len(),
        forall|i: int| 0 <= i < below(s, id) ==> (#[trigger] s[i]).id < id,
        forall|i: int| below(s, id) <= i < s.len() ==> (#[trigger] s[i]).id >= id,
    decreases s.len(),
{
    if s.len() > 0 {
        let t = s.drop_last();
        assert(ascending(t)) by {
            assert forall|i: int, j: int| 0 <= i < j < t.len() implies (#[trigger] t[i]).id < (
            #[trigger] t[j]).id by {
                assert(s[i].id < s[j].id);
            }
        }
        if s.last().id < id {
            assert forall|i: int| 0 <= i < s.len() implies (#[trigger] s[i]).id < id by {
                if i < s.len() - 1 {
                    assert(s[i].id < s[s.len() - 1].id);
                }
            }
        } else {
            lemma_below(t, id);
            assert forall|i: int| 0 <= i < below(s, id) implies (#[trigger] s[i]).id < id by {
                assert(t[i] == s[i]);
            }
            assert forall|i: int| below(s, id) <= i < s.len() implies (#[trigger] s[i]).id >= id by {
                if i < t.len() {
                    assert(t[i] == s[i]);
                }
            }
        }
    }
}

/// Every edit keeps the store in order.
pub proof fn lemma_edits_ok(st: StoreV, a: AnnV, id: u64)
    requires
        st.ok(),
    ensures
        st.inserted(a).ok(),
        st.replaced(a).ok(),
        st.removed(id).ok(),
{
    let s = st.items;
    let p = put(s, a);
    assert forall|i: int| 0 <= i < p.len() implies (#[trigger] p[i]).id == s[i].id by {}
    assert forall|i: int, j: int| 0 <= i < j < p.len() implies (#[trigger] p[i]).id < (
    #[trigger] p[j]).id by {
        assert(s[i].id < s[j].id);
    }
    if !stored(s, a.id) {
        let k = below(s, a.id);
        lemma_below(s, a.id);
        let t = s.insert(k, a);
        assert forall|i: int, j: int| 0 <= i < j < t.len() implies (#[trigger] t[i]).id < (
        #[trigger] t[j]).id by {
            let (oi, oj) = (if i < k { i } else { i - 1 }, if j < k { j } else { j - 1 });
            if i != k && j != k {
                assert(t[i] == s[oi] && t[j] == s[oj]);
                assert(s[oi].id < s[oj].id);
            } else if i == k {
                assert(t[j] == s[oj]);
                assert(s[oj].id != a.id);
            } else {
                assert(t[i] == s[oi]);
            }
        }
        assert forall|i: int| 0 <= i < t.len() implies (#[trigger] t[i]).id < st.inserted(a).next
            || st.inserted(a).next == u64::MAX by {
            if i != k {
                assert(t[i] == s[if i < k { i } else { i - 1 }]);
            }
        }
    }
    if stored(s, id) {
        let k = place(s, id);
        let t = s.remove(k);
        assert forall|i: int, j: int| 0 <= i < j < t.len() implies (#[trigger] t[i]).id < (
        #[trigger] t[j]).id by {
            let (oi, oj) = (if i < k { i } else { i + 1 }, if j < k { j } else { j + 1 });
            assert(t[i] == s[oi] && t[j] == s[oj]);
            assert(s[oi].id < s[oj].id);
        }
        assert forall|i: int| 0 <= i < t.len() implies (#[trigger] t[i]).id < st.next || st.next
            == u64::MAX by {
            assert(t[i] == s[if i < k { i } else { i + 1 }]);
        }
    }
}

/// What is put into a store can be taken out again, and leaves it as it was.
pub proof fn law_remove_undoes_insert(s: Seq<AnnV>, a: AnnV)
    requires
        ascending(s),
        !stored(s, a.id),
    ensures
        without(with(s, a), a.id) == s,
        lookup(with(s, a), a.id) == Some(a),
{
    let k = below(s, a.id);
    lemma_below(s, a.id);
    let t = s.insert(k, a);
    let st = StoreV { items: s, next: u64::MAX };
    lemma_edits_ok(st, a, a.id);
    assert(t[k] == a);
    lemma_place(t, k);
    assert(t.remove(k) =~= s);
}

/// What is taken out of a store can be put back where it was.
pub proof fn law_insert_undoes_remove(s: Seq<AnnV>, i: int)
    requires
        ascending(s),
        0 <= i < s.len(),
    ensures
        !stored(without(s, s[i].id), s[i].id),
        with(without(s, s[i].id), s[i]) == s,
{
    let a = s[i];
    lemma_place(s, i);
    let t = s.remove(i);
    let st = StoreV { items: s, next: u64::MAX };
    lemma_edits_ok(st, a, a.id);
    assert forall|j: int| 0 <= j < t.len() implies (#[trigger] t[j]).id != a.id by {
        let o = if j < i { j } else { j + 1 };
        assert(t[j] == s[o]);
        if o < i {
            assert(s[o].id < s[i].id);
        } else {
            assert(s[i].id < s[o].id);
        }
    }
    lemma_below(t, a.id);
    let k = below(t, a.id);
    if k < i {
        assert(t[k] == s[k]);
        assert(s[k].id < s[i].id);
    } else if k > i {
        assert(t[i] == s[i + 1]);
        assert(s[i].id < s[i + 1].id);
    }
    assert(t.insert(i, a) =~= s);
}

impl Default for AnnotationStore {
    fn default() -> (r: Self)
        ensures
            r@ == (StoreV { items: Seq::empty(), next: 1 }),
            r@.ok(),
    {
        let r = AnnotationStore { items: Vec::new(), next_id: 1 };
        proof {
            assert(r@.items =~= Seq::empty());
        }
        r
    }
}

impl AnnotationStore {
    /// Where the annotation with this id is.
    fn index_of(&self, id: AnnotationId) -> (r: Option<usize>)
        requires
            self@.ok(),
        ensures
            match r {
                Some(i) => i < self.items@.len() && self.items@[i as int]@.id == id && stored(
                    self@.items,
                    id,
                ) && place(self@.items, id) == i,
                None => !stored(self@.items, id),
            },
    {
        let mut i: usize = 0;
        while i < self.items.len()
            invariant
                i <= self.items@.len(),
                self@.ok(),
                forall|j: int| 0 <= j < i ==> (#[trigger] self@.items[j]).id != id,
            decreases self.items@.len() - i,
        {
            if self.items[i].id == id {
                proof {
                    lemma_place(self@.items, i as int);
                }
                return Some(i);
            }
            proof {
                assert(self@.items[i as int].id == self.items@[i as int].id);
            }
            i += 1;
        }
        None
    }

    pub fn get(&self, id: AnnotationId) -> (r: Option<&Annotation>)
        requires
            self@.ok(),
        ensures
            match r {
                Some(a) => lookup(self@.items, id) == Some(a@),
                None => lookup(self@.items, id) is None,
            },
    {
        match self.index_of(id) {
            Some(i) => {
                proof {
                    assert(self@.items[i as int] == self.items@[i as int]@);
                }
                Some(&self.items[i])
            },
            None => None,
        }
    }

    /// Put one in, at its place by id.
    pub fn insert(&mut self, ann: Annotation)
        requires
            old(self)@.ok(),
        ensures
            final(self)@ == old(self)@.inserted(ann@),
            final(self)@.ok(),
    {
        proof {
            lemma_edits_ok(self@, ann@, ann@.id);
        }
        let ghost before = self@;
        let next: u64 = if ann.id == u64::MAX { u64::MAX } else { ann.id + 1 };
        match self.index_of(ann.id) {
            Some(i) => {
                proof {
                    assert forall|j: int|
                        0 <= j < before.items.len() && (#[trigger] before.items[j]).id
                            == ann@.id implies j == i by {
                        lemma_place(before.items, j);
                    }
                }
                let ghost a = ann@;
                self.items.set(i, ann);
                proof {
                    assert(views(self.items@) =~= put(before.items, a));
                }
            },
            None => {
                let mut k: usize = self.items.len();
                proof {
                    lemma_below(before.items, ann@.id);
                }
                while k > 0 && self.items[k - 1].id >= ann.id
                    invariant
                        k <= self.items@.len(),
                        before == self@,
                        before.ok(),
                        below(before.items, ann@.id) <= k,
                        forall|i: int|
                            0 <= i < below(before.items, ann@.id) ==> (#[trigger] before.items[i]).id
                                < ann@.id,
                    decreases k,
                {
                    proof {
                        assert(before.items[k - 1] == self.items@[k - 1]@);
                    }
                    k -= 1;
                }
                proof {
                    if below(before.items, ann@.id) < k {
                        assert(before.items[k - 1] == self.items@[k - 1]@);
                    }
                }
                let ghost a = ann@;
                self.items.insert(k, ann);
                proof {
                    assert(views(self.items@) =~= before.items.insert(k as int, a));
                }
            },
        }
        if next > self.next_id {
            self.next_id = next;
        }
    }

    /// Put this one in place of the one with the same id, where there is one.
    pub fn replace(&mut self, ann: Annotation)
        requires
            old(self)@.ok(),
        ensures
            final(self)@ == old(self)@.replaced(ann@),
            final(self)@.ok(),
    {
        proof {
            lemma_edits_ok(self@, ann@, ann@.id);
        }
        let ghost before = self@;
        let ghost a = ann@;
        match self.index_of(ann.id) {
            Some(i) => {
                proof {
                    assert forall|j: int|
                        0 <= j < before.items.len() && (#[trigger] before.items[j]).id
                            == ann@.id implies j == i by {
                        lemma_place(before.items, j);
                    }
                }
                self.items.set(i, ann);
                proof {
                    assert(views(self.items@) =~= put(before.items, a));
                }
            },
            None => {
                proof {
                    assert(before.items =~= put(before.items, a));
                }
            },
        }
    }

    /// Take one out.
    pub fn remove(&mut self, id: AnnotationId) -> (r: Option<Annotation>)
        requires
            old(self)@.ok(),
        ensures
            final(self)@ == old(self)@.removed(id),
            final(self)@.ok(),
            match r {
                Some(a) => lookup(old(self)@.items, id) == Some(a@),
                None => lookup(old(self)@.items, id) is None,
            },
    {
        let ghost before = self@;
        proof {
            if before.items.len() > 0 {
                lemma_edits_ok(before, before.items[0], id);
            }
        }
        match self.index_of(id) {
            Some(i) => {
                proof {
                    assert(before.items[i as int] == self.items@[i as int]@);
                }
                let a: Annotation = self.items.remove(i);
                proof {
                    assert(views(self.items@) =~= before.items.remove(i as int));
                }
                Some(a)
            },
            None => None,
        }
    }

    /// A number that no annotation here has had.
    pub fn alloc_id(&mut self) -> (id: AnnotationId)
        requires
            old(self)@.ok(),
            old(self)@.next < u64::MAX,
        ensures
            id == old(self)@.next,
            !stored(old(self)@.items, id),
            final(self)@ == (StoreV { next: following(id), ..old(self)@ }),
            final(self)@.ok(),
    {
        let id: u64 = self.next_id;
        self.next_id = id + 1;
        id
    }

    pub fn is_empty(&self) -> (r: bool)
        ensures
            r == (self@.items.len() == 0),
    {
        self.items.len() == 0
    }

    /// The annotations on one page, in drawing order.
    pub fn on_page(&self, page: usize) -> (r: Vec<Annotation>)
        ensures
            views(r@) == self@.items.filter(|a: AnnV| a.page == page),
    {
        let mut r: Vec<Annotation> = Vec::new();
        let mut i: usize = 0;
        let ghost keep = |a: AnnV| a.page == page;
        proof {
            assert(self@.items.take(0) =~= Seq::empty());
            reveal(Seq::filter);
            assert(views(r@) =~= self@.items.take(0).filter(keep));
        }
        while i < self.items.len()
            invariant
                i <= self.items@.len(),
                keep == (|a: AnnV| a.page == page),
                views(r@) == self@.items.take(i as int).filter(keep),
            decreases self.items@.len() - i,
        {
            proof {
                reveal(Seq::filter);
                let cut = self@.items.take(i + 1);
                assert(cut.drop_last() =~= self@.items.take(i as int));
                assert(cut.last() == self.items@[i as int]@);
            }
            if self.items[i].page == page {
                let a: Annotation = self.items[i].clone();
                proof {
                    assert(views(r@.push(a)) =~= views(r@).push(a@));
                }
                r.push(a);
            }
            i += 1;
        }
        proof {
            assert(self@.items.take(i as int) =~= self@.items);
        }
        r
    }
}

/// The ids of the annotations in a group, ascending.
pub open spec fn members(s: Seq<AnnV>, group: GroupId) -> Seq<u64>
    decreases s.len(),
{
    if s.len() == 0 {
        Seq::empty()
    } else if s.last().group == Some(group) {
        members(s.drop_last(), group).push(s.last().id)
    } else {
        members(s.drop_last(), group)
    }
}

/// The highest group number in use, 0 where none is.
pub open spec fn top_group(s: Seq<AnnV>) -> u64
    decreases s.len(),
{
    if s.len() == 0 {
        0
    } else {
        let below = top_group(s.drop_last());
        match s.last().group {
            Some(g) => if g > below {
                g
            } else {
                below
            },
            None => below,
        }
    }
}

/// The annotations of `s` whose ids are in `ids`, in order.
pub open spec fn chosen(s: Seq<AnnV>, ids: Set<u64>) -> Seq<AnnV>
    decreases s.len(),
{
    if s.len() == 0 {
        Seq::empty()
    } else if ids.contains(s.last().id) {
        chosen(s.drop_last(), ids).push(s.last())
    } else {
        chosen(s.drop_last(), ids)
    }
}

/// The bounds of the annotations on `page` whose ids are not in `but`.
pub open spec fn bounds_but(s: Seq<AnnV>, page: usize, but: Set<u64>) -> Seq<
    crate::doc::geometry::PdfRect,
>
    decreases s.len(),
{
    if s.len() == 0 {
        Seq::empty()
    } else if s.last().page == page && !but.contains(s.last().id) {
        bounds_but(s.drop_last(), page, but).push(s.last().rect)
    } else {
        bounds_but(s.drop_last(), page, but)
    }
}

/// No group in use is past the highest.
proof fn lemma_top_group(s: Seq<AnnV>, i: int)
    requires
        0 <= i < s.len(),
    ensures
        s[i].group matches Some(g) ==> g <= top_group(s),
    decreases s.len(),
{
    if i < s.len() - 1 {
        lemma_top_group(s.drop_last(), i);
    }
}

/// The next group is one that nothing is in, as long as there are numbers left.
pub proof fn law_next_group_is_new(s: Seq<AnnV>, i: int)
    requires
        top_group(s) < u64::MAX,
        0 <= i < s.len(),
    ensures
        s[i].group != Some(following(top_group(s))),
{
    lemma_top_group(s, i);
}

impl AnnotationStore {
    /// The ids of the annotations in a group, ascending.
    pub fn group_members(&self, group: GroupId) -> (r: Vec<AnnotationId>)
        ensures
            r@ == members(self@.items, group),
    {
        let mut r: Vec<AnnotationId> = Vec::new();
        let mut i: usize = 0;
        proof {
            assert(self@.items.take(0) =~= Seq::empty());
        }
        while i < self.items.len()
            invariant
                i <= self.items@.len(),
                r@ == members(self@.items.take(i as int), group),
            decreases self.items@.len() - i,
        {
            proof {
                let cut = self@.items.take(i + 1);
                assert(cut.drop_last() =~= self@.items.take(i as int));
                assert(cut.last() == self.items@[i as int]@);
            }
            let inside: bool = match self.items[i].group {
                Some(g) => g == group,
                None => false,
            };
            if inside {
                r.push(self.items[i].id);
            }
            i += 1;
        }
        proof {
            assert(self@.items.take(i as int) =~= self@.items);
        }
        r
    }

    /// A group number that nothing here is using.
    pub fn next_group_id(&self) -> (r: GroupId)
        ensures
            r == following(top_group(self@.items)),
    {
        let mut top: u64 = 0;
        let mut i: usize = 0;
        proof {
            assert(self@.items.take(0) =~= Seq::empty());
        }
        while i < self.items.len()
            invariant
                i <= self.items@.len(),
                top == top_group(self@.items.take(i as int)),
            decreases self.items@.len() - i,
        {
            proof {
                let cut = self@.items.take(i + 1);
                assert(cut.drop_last() =~= self@.items.take(i as int));
                assert(cut.last() == self.items@[i as int]@);
            }
            if let Some(g) = self.items[i].group {
                if g > top {
                    top = g;
                }
            }
            i += 1;
        }
        proof {
            assert(self@.items.take(i as int) =~= self@.items);
        }
        if top == u64::MAX {
            u64::MAX
        } else {
            top + 1
        }
    }

    /// The bounds of the annotations on `page`, leaving out those in `but`.
    pub fn bounds_on(&self, page: usize, but: &Vec<AnnotationId>) -> (r: Vec<
        crate::doc::geometry::PdfRect,
    >)
        ensures
            r@ == bounds_but(self@.items, page, but@.to_set()),
    {
        let mut r: Vec<crate::doc::geometry::PdfRect> = Vec::new();
        let mut i: usize = 0;
        proof {
            assert(self@.items.take(0) =~= Seq::empty());
        }
        while i < self.items.len()
            invariant
                i <= self.items@.len(),
                r@ == bounds_but(self@.items.take(i as int), page, but@.to_set()),
            decreases self.items@.len() - i,
        {
            proof {
                let cut = self@.items.take(i + 1);
                assert(cut.drop_last() =~= self@.items.take(i as int));
                assert(cut.last() == self.items@[i as int]@);
            }
            if self.items[i].page == page && !holds_id(but, self.items[i].id) {
                r.push(self.items[i].bounds());
            }
            i += 1;
        }
        proof {
            assert(self@.items.take(i as int) =~= self@.items);
        }
        r
    }

    /// A store with these annotations in it, numbering on from the highest id.
    pub fn restore(annotations: Vec<Annotation>) -> (r: Self)
        ensures
            r@ == restored(views(annotations@)),
            r@.ok(),
    {
        let mut r: AnnotationStore = AnnotationStore::default();
        let mut i: usize = 0;
        proof {
            assert(views(annotations@).take(0) =~= Seq::empty());
        }
        while i < annotations.len()
            invariant
                i <= annotations@.len(),
                r@.ok(),
                r@ == restored(views(annotations@).take(i as int)),
            decreases annotations@.len() - i,
        {
            proof {
                let all = views(annotations@);
                assert(all.take(i + 1).drop_last() =~= all.take(i as int));
                assert(all.take(i + 1).last() == annotations@[i as int]@);
            }
            r.insert(annotations[i].clone());
            i += 1;
        }
        proof {
            assert(views(annotations@).take(i as int) =~= views(annotations@));
        }
        r
    }

    /// Everything in the store, in order.
    pub fn to_vec(&self) -> (r: Vec<Annotation>)
        ensures
            views(r@) == self@.items,
    {
        let mut r: Vec<Annotation> = Vec::new();
        let mut i: usize = 0;
        while i < self.items.len()
            invariant
                i <= self.items@.len(),
                r@.len() == i,
                forall|j: int| 0 <= j < i ==> (#[trigger] r@[j])@ == self.items@[j]@,
            decreases self.items@.len() - i,
        {
            r.push(self.items[i].clone());
            i += 1;
        }
        proof {
            assert(views(r@) =~= self@.items);
        }
        r
    }
}

/// An empty store with each of `s` put in, in turn.
pub open spec fn restored(s: Seq<AnnV>) -> StoreV
    decreases s.len(),
{
    if s.len() == 0 {
        StoreV { items: Seq::empty(), next: 1 }
    } else {
        restored(s.drop_last()).inserted(s.last())
    }
}

/// Whether `id` is among `ids`.
pub fn holds_id(ids: &Vec<AnnotationId>, id: AnnotationId) -> (r: bool)
    ensures
        r == ids@.to_set().contains(id),
        r == ids@.contains(id),
{
    let mut i: usize = 0;
    while i < ids.len()
        invariant
            i <= ids@.len(),
            forall|j: int| 0 <= j < i ==> ids@[j] != id,
        decreases ids@.len() - i,
    {
        if ids[i] == id {
            proof {
                assert(ids@[i as int] == id);
            }
            return true;
        }
        i += 1;
    }
    false
}

} // verus!
