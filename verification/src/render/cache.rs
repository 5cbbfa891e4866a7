//! Texture cache for rendered pages, keyed by (page, scale bucket).
//!
//! The pictures themselves live with whatever draws them; the cache holds the
//! number each is known by and how many bytes it takes.

use vstd::prelude::*;

use crate::render::{key_of, scale_key};

verus! {

/// Safety net only: the worker answers every request, including the ones it
/// drops, so a pending entry this old means the worker thread is gone. In
/// milliseconds.
pub const PENDING_TIMEOUT: u64 = 5000;

/// Eviction budgets. Counting textures instead of bytes does not work here: a
/// US Letter page at the 8x bucket is ~4900x6300x4 or 124 MB, so a fixed count
/// that is generous at 1x exhausts GPU memory when zoomed in.
pub const CANVAS_BUDGET: usize = 402_653_184;

pub const THUMB_BUDGET: usize = 67_108_864;

#[derive(Clone, Copy, PartialEq, Eq, Structural, Debug)]
pub struct Key {
    pub page: usize,
    pub scale: u32,
}

#[derive(Clone, Copy, PartialEq, Eq, Structural, Debug)]
pub struct Entry {
    pub key: Key,
    /// The number the picture is known by.
    pub tex: u64,
    pub bytes: usize,
}

/// A request sent to the worker and not answered yet, with when it was sent.
#[derive(Clone, Copy, PartialEq, Eq, Structural, Debug)]
pub struct Waiting {
    pub key: Key,
    pub since: u64,
}

pub struct TextureCache {
    /// Most-recently-used at the back; each key once.
    pub entries: Vec<Entry>,
    /// Requests sent to the worker but not yet answered.
    pub pending: Vec<Waiting>,
    /// Keys used while painting this frame. They are never evicted, so the
    /// visible set can't be thrown away by an insert made in the same frame.
    pub frame_touched: Vec<Key>,
    pub budget: usize,
    pub bytes: usize,
}

/// How many bytes the entries take together.
pub open spec fn total(s: Seq<Entry>) -> int
    decreases s.len(),
{
    if s.len() == 0 {
        0
    } else {
        total(s.drop_last()) + s.last().bytes
    }
}

/// Whether no key is in `s` twice.
pub open spec fn each_once(s: Seq<Entry>) -> bool {
    forall|i: int, j: int|
        0 <= i < j < s.len() ==> (#[trigger] s[i]).key != (#[trigger] s[j]).key
}

/// The entries with any other key, in order.
pub open spec fn others(s: Seq<Entry>, key: Key) -> Seq<Entry>
    decreases s.len(),
{
    if s.len() == 0 {
        Seq::empty()
    } else if s.last().key == key {
        others(s.drop_last(), key)
    } else {
        others(s.drop_last(), key).push(s.last())
    }
}

/// The entry with this key.
pub open spec fn entry_of(s: Seq<Entry>, key: Key) -> Option<Entry>
    decreases s.len(),
{
    if s.len() == 0 {
        None
    } else if s.last().key == key {
        Some(s.last())
    } else {
        entry_of(s.drop_last(), key)
    }
}

/// The sharpest picture of a page.
pub open spec fn sharpest(s: Seq<Entry>, page: usize) -> Option<Entry>
    decreases s.len(),
{
    if s.len() == 0 {
        None
    } else {
        let best = sharpest(s.drop_last(), page);
        if s.last().key.page == page && (best matches Some(b) ==> s.last().key.scale
            > b.key.scale) {
            Some(s.last())
        } else {
            best
        }
    }
}

/// When each unanswered request was sent.
pub open spec fn waiting(s: Seq<Waiting>) -> Map<Key, u64>
    decreases s.len(),
{
    if s.len() == 0 {
        Map::empty()
    } else {
        waiting(s.drop_last()).insert(s.last().key, s.last().since)
    }
}

/// Where the first entry is that was not used this frame.
pub open spec fn first_idle(s: Seq<Entry>, touched: Set<Key>, from: int) -> Option<int>
    decreases s.len() - from,
{
    if from < 0 || from >= s.len() {
        None
    } else if !touched.contains(s[from].key) {
        Some(from)
    } else {
        first_idle(s, touched, from + 1)
    }
}

/// What is left once enough has gone to be within `budget`: the least recently
/// used first, but nothing that was used this frame.
pub open spec fn evicted(s: Seq<Entry>, touched: Set<Key>, budget: int) -> Seq<Entry>
    decreases s.len(),
{
    if total(s) <= budget {
        s
    } else {
        match first_idle(s, touched, 0) {
            Some(i) => if 0 <= i < s.len() {
                evicted(s.remove(i), touched, budget)
            } else {
                s
            },
            None => s,
        }
    }
}

/// Whether a request was sent for this key, and not so long ago that nothing can
/// be expected to come of it.
pub open spec fn still_waiting(p: Map<Key, u64>, key: Key, now: u64) -> bool {
    p.contains_key(key) && (now < p[key] || now - p[key] < PENDING_TIMEOUT)
}

/// A cache as a mathematical value.
#[verifier::ext_equal]
pub struct CacheV {
    pub entries: Seq<Entry>,
    pub pending: Map<Key, u64>,
    pub touched: Set<Key>,
    pub budget: usize,
}

impl View for TextureCache {
    type V = CacheV;

    open spec fn view(&self) -> CacheV {
        CacheV {
            entries: self.entries@,
            pending: waiting(self.pending@),
            touched: self.frame_touched@.to_set(),
            budget: self.budget,
        }
    }
}

impl CacheV {
    /// `e` used just now.
    pub open spec fn used(self, e: Entry) -> CacheV {
        CacheV {
            entries: others(self.entries, e.key).push(e),
            touched: self.touched.insert(e.key),
            ..self
        }
    }

    /// A finished picture put in.
    pub open spec fn inserted(self, e: Entry) -> CacheV {
        let c = self.used(e);
        CacheV {
            entries: evicted(c.entries, c.touched, self.budget as int),
            pending: self.pending.remove(e.key),
            ..c
        }
    }
}

pub proof fn lemma_others(s: Seq<Entry>, key: Key)
    requires
        each_once(s),
    ensures
        each_once(others(s, key)),
        forall|i: int|
            0 <= i < others(s, key).len() ==> (#[trigger] others(s, key)[i]).key != key
                && s.contains(others(s, key)[i]),
        forall|i: int|
            0 <= i < s.len() && (#[trigger] s[i]).key != key ==> others(s, key).contains(s[i]),
        total(others(s, key)) == total(s) - (match entry_of(s, key) {
            Some(e) => e.bytes as int,
            None => 0,
        }),
        entry_of(s, key) matches Some(e) ==> e.key == key && s.contains(e),
        entry_of(s, key) is None ==> others(s, key) == s,
        others(s, key).len() <= s.len(),
    decreases s.len(),
{
    if s.len() > 0 {
        let t = s.drop_last();
        assert(each_once(t)) by {
            assert forall|i: int, j: int| 0 <= i < j < t.len() implies (#[trigger] t[i]).key != (
            #[trigger] t[j]).key by {
                assert(s[i].key != s[j].key);
            }
        }
        lemma_others(t, key);
        let c = others(t, key);
        let r = others(s, key);
        assert forall|i: int| 0 <= i < c.len() implies s.contains(#[trigger] c[i]) && c[i].key
            != s.last().key by {
            let k = choose|k: int| 0 <= k < t.len() && t[k] == c[i];
            assert(s[k] == c[i]);
            assert(s[k].key != s[s.len() - 1].key);
        }
        assert(s.contains(s[s.len() - 1]));
        assert forall|i: int| 0 <= i < r.len() implies (#[trigger] r[i]).key != key && s.contains(
            r[i],
        ) by {
            if i < c.len() {
                assert(r[i] == c[i]);
            }
        }
        assert(each_once(r)) by {
            assert forall|i: int, j: int| 0 <= i < j < r.len() implies (#[trigger] r[i]).key != (
            #[trigger] r[j]).key by {
                assert(r[i] == c[i]);
                if j < c.len() {
                    assert(r[j] == c[j]);
                }
            }
        }
        assert forall|i: int| 0 <= i < s.len() && (#[trigger] s[i]).key != key implies r.contains(
            s[i],
        ) by {
            if i < t.len() {
                assert(t[i] == s[i]);
                assert(c.contains(t[i]));
                let k = choose|k: int| 0 <= k < c.len() && c[k] == t[i];
                assert(r[k] == s[i]);
            } else {
                assert(r[r.len() - 1] == s[i]);
            }
        }
        if s.last().key == key {
            assert(entry_of(t, key) is None) by {
                if entry_of(t, key) is Some {
                    let e = entry_of(t, key)->0;
                    let k = choose|k: int| 0 <= k < t.len() && t[k] == e;
                    assert(s[k].key != s[s.len() - 1].key);
                }
            }
        } else {
            assert(r.drop_last() =~= c);
            if entry_of(t, key) is Some {
                let e = entry_of(t, key)->0;
                let k = choose|k: int| 0 <= k < t.len() && t[k] == e;
                assert(s[k] == e);
            }
            if entry_of(s, key) is None {
                assert(r =~= s);
            }
        }
    }
}

proof fn lemma_total_remove(s: Seq<Entry>, i: int)
    requires
        0 <= i < s.len(),
    ensures
        total(s.remove(i)) == total(s) - s[i].bytes,
    decreases s.len(),
{
    if i == s.len() - 1 {
        assert(s.remove(i) =~= s.drop_last());
    } else {
        lemma_total_remove(s.drop_last(), i);
        assert(s.remove(i).drop_last() =~= s.drop_last().remove(i));
        assert(s.remove(i).last() == s.last());
    }
}

proof fn lemma_total_positive(s: Seq<Entry>)
    ensures
        total(s) >= 0,
    decreases s.len(),
{
    if s.len() > 0 {
        lemma_total_positive(s.drop_last());
    }
}

proof fn lemma_first_idle(s: Seq<Entry>, touched: Set<Key>, from: int)
    requires
        0 <= from,
    ensures
        match first_idle(s, touched, from) {
            Some(i) => from <= i < s.len() && !touched.contains(s[i].key) && forall|j: int|
                from <= j < i ==> touched.contains((#[trigger] s[j]).key),
            None => forall|j: int| from <= j < s.len() ==> touched.contains((#[trigger] s[j]).key),
        },
    decreases s.len() - from,
{
    if from < s.len() && touched.contains(s[from].key) {
        lemma_first_idle(s, touched, from + 1);
    }
}

/// What eviction promises: the cache is within its budget or everything left
/// was used this frame; nothing used this frame goes; and while there is room
/// nothing goes at all.
pub proof fn law_eviction(s: Seq<Entry>, touched: Set<Key>, budget: int)
    ensures
        total(evicted(s, touched, budget)) <= budget || forall|i: int|
            0 <= i < evicted(s, touched, budget).len() ==> touched.contains(
                (#[trigger] evicted(s, touched, budget)[i]).key,
            ),
        forall|i: int|
            0 <= i < s.len() && touched.contains((#[trigger] s[i]).key) ==> evicted(
                s,
                touched,
                budget,
            ).contains(s[i]),
        forall|i: int|
            0 <= i < evicted(s, touched, budget).len() ==> s.contains(
                #[trigger] evicted(s, touched, budget)[i],
            ),
        total(s) <= budget ==> evicted(s, touched, budget) == s,
    decreases s.len(),
{
    lemma_first_idle(s, touched, 0);
    if total(s) > budget {
        match first_idle(s, touched, 0) {
            Some(k) => {
                let t = s.remove(k);
                law_eviction(t, touched, budget);
                let r = evicted(t, touched, budget);
                assert forall|i: int|
                    0 <= i < s.len() && touched.contains((#[trigger] s[i]).key) implies r.contains(
                    s[i],
                ) by {
                    assert(i != k);
                    assert(t[if i < k { i } else { i - 1 }] == s[i]);
                }
                assert forall|i: int| 0 <= i < r.len() implies s.contains(#[trigger] r[i]) by {
                    let j = choose|j: int| 0 <= j < t.len() && t[j] == r[i];
                    assert(s[if j < k { j } else { j + 1 }] == r[i]);
                }
            },
            None => {},
        }
    } else {
        assert forall|i: int| 0 <= i < s.len() implies s.contains(#[trigger] s[i]) by {}
    }
    if total(s) > budget && first_idle(s, touched, 0) is None {
        assert forall|i: int| 0 <= i < s.len() implies s.contains(#[trigger] s[i]) by {}
    }
}

/// The least recently used goes first: where something not used this frame
/// stays, everything used after it stays too.
pub proof fn law_oldest_goes_first(s: Seq<Entry>, touched: Set<Key>, budget: int, i: int, j: int)
    requires
        each_once(s),
        0 <= i < j < s.len(),
        !touched.contains(s[i].key),
        evicted(s, touched, budget).contains(s[i]),
    ensures
        evicted(s, touched, budget).contains(s[j]),
    decreases s.len(),
{
    lemma_first_idle(s, touched, 0);
    if total(s) > budget {
        match first_idle(s, touched, 0) {
            Some(k) => {
                let t = s.remove(k);
                assert(each_once(t)) by {
                    assert forall|a: int, b: int| 0 <= a < b < t.len() implies (#[trigger] t[a]).key
                        != (#[trigger] t[b]).key by {
                        let (oa, ob) = (if a < k { a } else { a + 1 }, if b < k { b } else { b + 1 });
                        assert(t[a] == s[oa] && t[b] == s[ob]);
                    }
                }
                if k == i {
                    law_eviction(t, touched, budget);
                    let r = evicted(t, touched, budget);
                    let q = choose|q: int| 0 <= q < r.len() && r[q] == s[i];
                    assert(t.contains(r[q]));
                    let o = choose|o: int| 0 <= o < t.len() && t[o] == r[q];
                    let w = if o < k { o } else { o + 1 };
                    assert(s[w] == s[i]);
                    if w < i {
                        assert(s[w].key != s[i].key);
                    } else {
                        assert(s[i].key != s[w].key);
                    }
                } else {
                    assert(k < i);
                    assert(t[i - 1] == s[i] && t[j - 1] == s[j]);
                    law_oldest_goes_first(t, touched, budget, i - 1, j - 1);
                }
            },
            None => {
                assert(s.contains(s[j]));
            },
        }
    } else {
        assert(s.contains(s[j]));
    }
}

/// The sharpest picture of a page is one of them, and none is sharper.
pub proof fn lemma_sharpest(s: Seq<Entry>, page: usize)
    ensures
        match sharpest(s, page) {
            Some(e) => s.contains(e) && e.key.page == page && forall|i: int|
                0 <= i < s.len() && (#[trigger] s[i]).key.page == page ==> s[i].key.scale
                    <= e.key.scale,
            None => forall|i: int| 0 <= i < s.len() ==> (#[trigger] s[i]).key.page != page,
        },
    decreases s.len(),
{
    if s.len() > 0 {
        let t = s.drop_last();
        lemma_sharpest(t, page);
        assert forall|i: int| 0 <= i < t.len() implies t[i] == #[trigger] s[i] by {}
        assert(s.contains(s[s.len() - 1]));
        if let Some(e) = sharpest(t, page) {
            let k = choose|k: int| 0 <= k < t.len() && t[k] == e;
            assert(s[k] == e);
        }
    }
}

// ---------------------------------------------------------------------------
// Everything that was ever asked of it
// ---------------------------------------------------------------------------

/// One thing asked of a cache.
pub enum CacheCall {
    BeginFrame,
    Get { key: Key },
    BestEffort { page: usize },
    MarkPending { key: Key, now: u64 },
    ClearPending { key: Key },
    IsPending { key: Key, now: u64 },
    Insert { entry: Entry },
}

/// What a call uses of a cache: what it puts in, or finds there.
pub open spec fn in_use(c: CacheV, call: CacheCall) -> Option<Entry> {
    match call {
        CacheCall::Get { key } => entry_of(c.entries, key),
        CacheCall::BestEffort { page } => sharpest(c.entries, page),
        CacheCall::Insert { entry } => Some(entry),
        _ => None,
    }
}

/// The cache after one more call.
pub open spec fn called(c: CacheV, call: CacheCall) -> CacheV {
    match call {
        CacheCall::BeginFrame => CacheV { touched: Set::empty(), ..c },
        CacheCall::MarkPending { key, now } => CacheV { pending: c.pending.insert(key, now), ..c },
        CacheCall::ClearPending { key } => CacheV { pending: c.pending.remove(key), ..c },
        CacheCall::IsPending { key, now } => if still_waiting(c.pending, key, now) {
            c
        } else {
            CacheV { pending: c.pending.remove(key), ..c }
        },
        CacheCall::Insert { entry } => c.inserted(entry),
        _ => match in_use(c, call) {
            Some(e) => c.used(e),
            None => c,
        },
    }
}

/// The cache after all of `calls`, from an empty one.
pub open spec fn cache_after(budget: usize, calls: Seq<CacheCall>) -> CacheV
    decreases calls.len(),
{
    if calls.len() == 0 {
        CacheV { entries: Seq::empty(), pending: Map::empty(), touched: Set::empty(), budget }
    } else {
        called(cache_after(budget, calls.drop_last()), calls.last())
    }
}

/// Whether the last of `calls` uses `key`.
pub open spec fn uses(budget: usize, calls: Seq<CacheCall>, key: Key) -> bool {
    in_use(cache_after(budget, calls.drop_last()), calls.last()) matches Some(e) && e.key == key
}

/// How many of `calls` there were once `key` had last been used.
pub open spec fn last_use(budget: usize, calls: Seq<CacheCall>, key: Key) -> int
    decreases calls.len(),
{
    if calls.len() == 0 {
        0
    } else if uses(budget, calls, key) {
        calls.len() as int
    } else {
        last_use(budget, calls.drop_last(), key)
    }
}

/// The keys used since the frame began.
pub open spec fn used_this_frame(budget: usize, calls: Seq<CacheCall>) -> Set<Key>
    decreases calls.len(),
{
    if calls.len() == 0 {
        Set::empty()
    } else if calls.last() is BeginFrame {
        Set::empty()
    } else {
        let before = used_this_frame(budget, calls.drop_last());
        match in_use(cache_after(budget, calls.drop_last()), calls.last()) {
            Some(e) => before.insert(e.key),
            None => before,
        }
    }
}

/// What was last put in under `key`.
pub open spec fn last_inserted(calls: Seq<CacheCall>, key: Key) -> Option<Entry>
    decreases calls.len(),
{
    if calls.len() == 0 {
        None
    } else {
        match calls.last() {
            CacheCall::Insert { entry } => if entry.key == key {
                Some(entry)
            } else {
                last_inserted(calls.drop_last(), key)
            },
            _ => last_inserted(calls.drop_last(), key),
        }
    }
}

/// Whether the entries stand in the order their keys were last used in.
pub open spec fn by_last_use(budget: usize, calls: Seq<CacheCall>, s: Seq<Entry>) -> bool {
    forall|i: int, j: int|
        0 <= i < j < s.len() ==> last_use(budget, calls, (#[trigger] s[i]).key) < last_use(
            budget,
            calls,
            (#[trigger] s[j]).key,
        )
}

/// Whether each entry is what was last put in under its key.
pub open spec fn up_to_date(calls: Seq<CacheCall>, s: Seq<Entry>) -> bool {
    forall|i: int| 0 <= i < s.len() ==> last_inserted(calls, (#[trigger] s[i]).key) == Some(s[i])
}

proof fn lemma_last_use_bound(budget: usize, calls: Seq<CacheCall>, key: Key)
    ensures
        0 <= last_use(budget, calls, key) <= calls.len(),
    decreases calls.len(),
{
    if calls.len() > 0 {
        lemma_last_use_bound(budget, calls.drop_last(), key);
    }
}

proof fn lemma_each_once_by_use(budget: usize, calls: Seq<CacheCall>, s: Seq<Entry>)
    requires
        by_last_use(budget, calls, s),
    ensures
        each_once(s),
{
    assert forall|i: int, j: int| 0 <= i < j < s.len() implies (#[trigger] s[i]).key != (
    #[trigger] s[j]).key by {
        assert(last_use(budget, calls, s[i].key) < last_use(budget, calls, s[j].key));
    }
}

proof fn lemma_others_in_order(budget: usize, calls: Seq<CacheCall>, s: Seq<Entry>, key: Key)
    requires
        by_last_use(budget, calls, s),
    ensures
        by_last_use(budget, calls, others(s, key)),
    decreases s.len(),
{
    if s.len() > 0 {
        let t = s.drop_last();
        assert(by_last_use(budget, calls, t)) by {
            assert forall|i: int, j: int| 0 <= i < j < t.len() implies last_use(
                budget,
                calls,
                (#[trigger] t[i]).key,
            ) < last_use(budget, calls, (#[trigger] t[j]).key) by {
                assert(t[i] == s[i] && t[j] == s[j]);
            }
        }
        lemma_others_in_order(budget, calls, t, key);
        lemma_each_once_by_use(budget, calls, t);
        lemma_others(t, key);
        let (o, r) = (others(t, key), others(s, key));
        assert forall|i: int, j: int| 0 <= i < j < r.len() implies last_use(
            budget,
            calls,
            (#[trigger] r[i]).key,
        ) < last_use(budget, calls, (#[trigger] r[j]).key) by {
            assert(r[i] == o[i]);
            if j < o.len() {
                assert(r[j] == o[j]);
            } else {
                let k = choose|k: int| 0 <= k < t.len() && t[k] == o[i];
                assert(s[k] == o[i] && s[s.len() - 1] == r[j]);
            }
        }
    }
}

proof fn lemma_evicted_in_order(
    budget: usize,
    calls: Seq<CacheCall>,
    s: Seq<Entry>,
    touched: Set<Key>,
)
    requires
        by_last_use(budget, calls, s),
    ensures
        by_last_use(budget, calls, evicted(s, touched, budget as int)),
    decreases s.len(),
{
    if total(s) > budget {
        lemma_first_idle(s, touched, 0);
        if let Some(k) = first_idle(s, touched, 0) {
            let t = s.remove(k);
            assert(by_last_use(budget, calls, t)) by {
                assert forall|i: int, j: int| 0 <= i < j < t.len() implies last_use(
                    budget,
                    calls,
                    (#[trigger] t[i]).key,
                ) < last_use(budget, calls, (#[trigger] t[j]).key) by {
                    let a = if i < k { i } else { i + 1 };
                    let b = if j < k { j } else { j + 1 };
                    assert(t[i] == s[a] && t[j] == s[b]);
                }
            }
            lemma_evicted_in_order(budget, calls, t, touched);
        }
    }
}

/// `e` used as the last of `calls`, before anything is evicted for it.
proof fn lemma_used_in_order(budget: usize, calls: Seq<CacheCall>, e: Entry)
    requires
        calls.len() > 0,
        in_use(cache_after(budget, calls.drop_last()), calls.last()) == Some(e),
        by_last_use(
            budget,
            calls.drop_last(),
            cache_after(budget, calls.drop_last()).entries,
        ),
        up_to_date(calls.drop_last(), cache_after(budget, calls.drop_last()).entries),
    ensures
        by_last_use(
            budget,
            calls,
            cache_after(budget, calls.drop_last()).used(e).entries,
        ),
        up_to_date(calls, cache_after(budget, calls.drop_last()).used(e).entries),
{
    let before = calls.drop_last();
    let s = cache_after(budget, before).entries;
    let o = others(s, e.key);
    let r = o.push(e);
    lemma_each_once_by_use(budget, before, s);
    lemma_others(s, e.key);
    lemma_others_in_order(budget, before, s, e.key);
    assert forall|i: int, j: int| 0 <= i < j < r.len() implies last_use(
        budget,
        calls,
        (#[trigger] r[i]).key,
    ) < last_use(budget, calls, (#[trigger] r[j]).key) by {
        assert(r[i] == o[i]);
        assert(o[i].key != e.key);
        lemma_last_use_bound(budget, before, r[i].key);
        if j < o.len() {
            assert(r[j] == o[j]);
            assert(o[j].key != e.key);
        }
    }
    assert forall|i: int| 0 <= i < r.len() implies last_inserted(calls, (#[trigger] r[i]).key)
        == Some(r[i]) by {
        if i < o.len() {
            assert(r[i] == o[i]);
            assert(o[i].key != e.key);
            let k = choose|k: int| 0 <= k < s.len() && s[k] == o[i];
            assert(last_inserted(before, s[k].key) == Some(s[k]));
        } else {
            match calls.last() {
                CacheCall::Get { key } => {
                    lemma_others(s, key);
                    let k = choose|k: int| 0 <= k < s.len() && s[k] == e;
                    assert(last_inserted(before, s[k].key) == Some(s[k]));
                },
                CacheCall::BestEffort { page } => {
                    lemma_sharpest(s, page);
                    let k = choose|k: int| 0 <= k < s.len() && s[k] == e;
                    assert(last_inserted(before, s[k].key) == Some(s[k]));
                },
                _ => {},
            }
        }
    }
}

/// Whatever was asked before, a cache holds each key once, with what was last
/// put in under it, in the order they were last used; and it knows which were
/// used since the frame began.
pub proof fn law_the_cache_over_time(budget: usize, calls: Seq<CacheCall>)
    ensures
        by_last_use(budget, calls, cache_after(budget, calls).entries),
        each_once(cache_after(budget, calls).entries),
        up_to_date(calls, cache_after(budget, calls).entries),
        cache_after(budget, calls).touched == used_this_frame(budget, calls),
        cache_after(budget, calls).budget == budget,
    decreases calls.len(),
{
    let c = cache_after(budget, calls);
    if calls.len() > 0 {
        let before = calls.drop_last();
        let b = cache_after(budget, before);
        law_the_cache_over_time(budget, before);
        match in_use(b, calls.last()) {
            Some(e) => {
                lemma_used_in_order(budget, calls, e);
                if calls.last() is Insert {
                    let u = b.used(e);
                    lemma_evicted_in_order(budget, calls, u.entries, u.touched);
                    law_eviction(u.entries, u.touched, budget as int);
                    assert forall|i: int| 0 <= i < c.entries.len() implies last_inserted(
                        calls,
                        (#[trigger] c.entries[i]).key,
                    ) == Some(c.entries[i]) by {
                        let k = choose|k: int|
                            0 <= k < u.entries.len() && u.entries[k] == c.entries[i];
                        assert(last_inserted(calls, u.entries[k].key) == Some(u.entries[k]));
                    }
                }
            },
            None => {
                assert(c.entries == b.entries);
                assert forall|k: Key| last_use(budget, calls, k) == #[trigger] last_use(
                    budget,
                    before,
                    k,
                ) by {}
                assert forall|i: int, j: int| 0 <= i < j < c.entries.len() implies last_use(
                    budget,
                    calls,
                    (#[trigger] c.entries[i]).key,
                ) < last_use(budget, calls, (#[trigger] c.entries[j]).key) by {
                    assert(last_use(budget, before, b.entries[i].key) < last_use(
                        budget,
                        before,
                        b.entries[j].key,
                    ));
                }
                assert forall|i: int| 0 <= i < c.entries.len() implies last_inserted(
                    calls,
                    (#[trigger] c.entries[i]).key,
                ) == Some(c.entries[i]) by {
                    assert(last_inserted(before, b.entries[i].key) == Some(b.entries[i]));
                }
            },
        }
    }
    lemma_each_once_by_use(budget, calls, c.entries);
}

/// Whatever was asked before, a picture that is put in is held and no longer
/// waited for; the cache is over its budget only where all it holds was used
/// this frame; nothing used this frame goes; and what goes was used longer ago
/// than everything that stays without having been used this frame.
pub proof fn law_an_insert_over_time(budget: usize, calls: Seq<CacheCall>, entry: Entry)
    ensures
        ({
            let with = calls.push(CacheCall::Insert { entry });
            let b = cache_after(budget, calls);
            let c = cache_after(budget, with);
            &&& c.entries.contains(entry)
            &&& !c.pending.contains_key(entry.key)
            &&& total(c.entries) > budget ==> forall|i: int|
                0 <= i < c.entries.len() ==> used_this_frame(budget, with).contains(
                    (#[trigger] c.entries[i]).key,
                )
            &&& forall|e: Entry|
                #![trigger c.entries.contains(e)]
                b.entries.contains(e) && e.key != entry.key && used_this_frame(
                    budget,
                    calls,
                ).contains(e.key) ==> c.entries.contains(e)
            &&& forall|gone: Entry, kept: Entry|
                #![trigger b.entries.contains(gone), c.entries.contains(kept)]
                b.entries.contains(gone) && gone.key != entry.key && !c.entries.contains(gone)
                    && c.entries.contains(kept) && !used_this_frame(budget, with).contains(kept.key)
                    ==> last_use(budget, with, gone.key) < last_use(budget, with, kept.key)
        }),
{
    let with = calls.push(CacheCall::Insert { entry });
    assert(with.drop_last() =~= calls);
    let b = cache_after(budget, calls);
    let c = cache_after(budget, with);
    law_the_cache_over_time(budget, calls);
    law_the_cache_over_time(budget, with);
    let u = b.used(entry);
    let s = u.entries;
    lemma_used_in_order(budget, with, entry);
    lemma_each_once_by_use(budget, with, s);
    lemma_others(b.entries, entry.key);
    law_eviction(s, u.touched, budget as int);
    assert(s[s.len() - 1] == entry);
    let o = others(b.entries, entry.key);
    assert forall|e: Entry|
        b.entries.contains(e) && e.key != entry.key implies #[trigger] s.contains(e) by {
        let k = choose|k: int| 0 <= k < b.entries.len() && b.entries[k] == e;
        assert(o.contains(b.entries[k]));
        let m = choose|m: int| 0 <= m < o.len() && o[m] == e;
        assert(s[m] == e);
    }
    assert forall|e: Entry|
        #![trigger c.entries.contains(e)]
        b.entries.contains(e) && e.key != entry.key && used_this_frame(budget, calls).contains(
            e.key,
        ) implies c.entries.contains(e) by {
        assert(s.contains(e));
        let m = choose|m: int| 0 <= m < s.len() && s[m] == e;
        assert(u.touched.contains(s[m].key));
    }
    assert forall|gone: Entry, kept: Entry|
        #![trigger b.entries.contains(gone), c.entries.contains(kept)]
        b.entries.contains(gone) && gone.key != entry.key && !c.entries.contains(gone)
            && c.entries.contains(kept) && !used_this_frame(budget, with).contains(
            kept.key,
        ) implies last_use(budget, with, gone.key) < last_use(budget, with, kept.key) by {
        assert(s.contains(gone));
        let j = choose|j: int| 0 <= j < s.len() && s[j] == gone;
        let q = choose|q: int| 0 <= q < c.entries.len() && c.entries[q] == kept;
        assert(s.contains(c.entries[q]));
        let i = choose|i: int| 0 <= i < s.len() && s[i] == kept;
        if i < j {
            law_oldest_goes_first(s, u.touched, budget as int, i, j);
        }
        assert(i != j);
        assert(last_use(budget, with, s[j].key) < last_use(budget, with, s[i].key));
    }
}

/// Whether `key` is in `v`.
fn holds_key(v: &Vec<Key>, key: Key) -> (r: bool)
    ensures
        r == v@.to_set().contains(key),
{
    let mut i: usize = 0;
    while i < v.len()
        invariant
            i <= v@.len(),
            forall|j: int| 0 <= j < i ==> v@[j] != key,
        decreases v@.len() - i,
    {
        if v[i] == key {
            proof {
                assert(v@[i as int] == key);
            }
            return true;
        }
        i += 1;
    }
    false
}

impl Default for TextureCache {
    fn default() -> (r: Self)
        ensures
            r.ok(),
            r@.entries.len() == 0,
            r@.pending == Map::<Key, u64>::empty(),
            r@.budget == CANVAS_BUDGET,
    {
        TextureCache::with_budget(CANVAS_BUDGET)
    }
}

impl TextureCache {
    /// Each key is held once, and the bytes are counted right.
    pub open spec fn ok(&self) -> bool {
        each_once(self.entries@) && self.bytes == total(self.entries@)
    }

    pub fn with_budget(budget: usize) -> (r: Self)
        ensures
            r@ == (CacheV {
                entries: Seq::empty(),
                pending: Map::empty(),
                touched: Set::empty(),
                budget,
            }),
            r.ok(),
    {
        let r = TextureCache {
            entries: Vec::new(),
            pending: Vec::new(),
            frame_touched: Vec::new(),
            budget,
            bytes: 0,
        };
        proof {
            assert(r.frame_touched@.to_set() =~= Set::<Key>::empty());
            assert(r.entries@ =~= Seq::empty());
        }
        r
    }

    /// Called once per frame, before anything paints.
    pub fn begin_frame(&mut self)
        requires
            old(self).ok(),
        ensures
            final(self)@ == (CacheV { touched: Set::empty(), ..old(self)@ }),
            final(self).ok(),
    {
        self.frame_touched = Vec::new();
        proof {
            assert(self.frame_touched@.to_set() =~= Set::<Key>::empty());
        }
    }

    /// The entry with this key.
    fn find(&self, key: Key) -> (r: Option<Entry>)
        ensures
            r == entry_of(self.entries@, key),
    {
        let mut i: usize = self.entries.len();
        proof {
            assert(self.entries@.take(i as int) =~= self.entries@);
        }
        while i > 0
            invariant
                i <= self.entries@.len(),
                entry_of(self.entries@, key) == entry_of(self.entries@.take(i as int), key),
            decreases i,
        {
            i -= 1;
            proof {
                assert(self.entries@.take(i + 1).drop_last() =~= self.entries@.take(i as int));
            }
            if self.entries[i].key == key {
                return Some(self.entries[i]);
            }
        }
        None
    }

    /// Take the entry with this key out, where there is one.
    fn drop_key(&mut self, key: Key)
        requires
            old(self).ok(),
        ensures
            final(self)@ == (CacheV { entries: others(old(self)@.entries, key), ..old(self)@ }),
            final(self).ok(),
    {
        let ghost s = self.entries@;
        let mut kept: Vec<Entry> = Vec::new();
        let mut gone: usize = 0;
        let mut i: usize = 0;
        proof {
            assert(s.take(0) =~= Seq::empty());
            lemma_others(s, key);
        }
        while i < self.entries.len()
            invariant
                i <= self.entries@.len(),
                self.entries@ == s,
                each_once(s),
                kept@ == others(s.take(i as int), key),
                gone == (match entry_of(s.take(i as int), key) {
                    Some(e) => e.bytes as int,
                    None => 0,
                }),
            decreases self.entries@.len() - i,
        {
            let e: Entry = self.entries[i];
            proof {
                assert(s.take(i + 1).drop_last() =~= s.take(i as int));
            }
            if e.key == key {
                gone = e.bytes;
            } else {
                kept.push(e);
            }
            i += 1;
        }
        proof {
            assert(s.take(i as int) =~= s);
            lemma_total_positive(others(s, key));
        }
        self.entries = kept;
        self.bytes = self.bytes - gone;
    }

    /// Put `e` at the back, as used just now.
    fn touch(&mut self, e: Entry)
        requires
            old(self).ok(),
            total(others(old(self)@.entries, e.key)) + e.bytes <= usize::MAX,
        ensures
            final(self)@ == old(self)@.used(e),
            final(self).ok(),
    {
        let ghost before = self@;
        proof {
            lemma_others(self.entries@, e.key);
        }
        self.drop_key(e.key);
        let ghost t = self.entries@;
        let ghost used = self.frame_touched@;
        self.entries.push(e);
        self.bytes = self.bytes + e.bytes;
        self.frame_touched.push(e.key);
        proof {
            assert(self.entries@.drop_last() =~= t);
            assert forall|i: int, j: int| 0 <= i < j < self.entries@.len() implies (
            #[trigger] self.entries@[i]).key != (#[trigger] self.entries@[j]).key by {
                assert(self.entries@[i] == t[i]);
                if j < t.len() {
                    assert(self.entries@[j] == t[j]);
                }
            }
            assert(self.frame_touched@.drop_last() =~= used);
            lemma_push_set(before.touched, self.frame_touched@, e.key);
        }
    }

    /// The picture of this page at this scale, which is then in use.
    pub fn get(&mut self, page: usize, scale: u32) -> (r: Option<u64>)
        requires
            old(self).ok(),
        ensures
            match entry_of(old(self)@.entries, Key { page, scale: key_of(scale) }) {
                Some(e) => r == Some(e.tex) && final(self)@ == old(self)@.used(e),
                None => r is None && final(self)@ == old(self)@,
            },
            final(self).ok(),
    {
        let key: Key = Key { page, scale: scale_key(scale) };
        proof {
            lemma_others(self.entries@, key);
        }
        match self.find(key) {
            Some(e) => {
                self.touch(e);
                Some(e.tex)
            },
            None => None,
        }
    }

    /// The best available texture for this page at any scale (used while the
    /// exact scale renders), together with its scale. Touches the LRU: a
    /// texture kept only as a fallback is still in use, and must not sink to
    /// the front of the eviction queue while it is the thing on screen.
    pub fn best_effort(&mut self, page: usize) -> (r: Option<(u32, u64)>)
        requires
            old(self).ok(),
        ensures
            match sharpest(old(self)@.entries, page) {
                Some(e) => r == Some((e.key.scale, e.tex)) && final(self)@ == old(self)@.used(e),
                None => r is None && final(self)@ == old(self)@,
            },
            final(self).ok(),
    {
        let ghost s = self.entries@;
        let mut best: Option<Entry> = None;
        let mut i: usize = 0;
        proof {
            assert(s.take(0) =~= Seq::empty());
        }
        while i < self.entries.len()
            invariant
                i <= self.entries@.len(),
                self.entries@ == s,
                best == sharpest(s.take(i as int), page),
            decreases self.entries@.len() - i,
        {
            proof {
                assert(s.take(i + 1).drop_last() =~= s.take(i as int));
            }
            if self.entries[i].key.page == page {
                let better: bool = match best {
                    Some(b) => self.entries[i].key.scale > b.key.scale,
                    None => true,
                };
                if better {
                    best = Some(self.entries[i]);
                }
            }
            i += 1;
        }
        proof {
            assert(s.take(i as int) =~= s);
        }
        match best {
            Some(e) => {
                proof {
                    lemma_sharpest(s, page);
                    lemma_others(s, e.key);
                    let b = choose|b: int| 0 <= b < s.len() && s[b] == e;
                    lemma_entry_at(s, b);
                }
                self.touch(e);
                Some((e.key.scale, e.tex))
            },
            None => None,
        }
    }

    /// Whether this page at this scale has been asked for and is still worth
    /// waiting for, `now` being the time in milliseconds. One that has waited
    /// too long is forgotten.
    pub fn is_pending(&mut self, page: usize, scale: u32, now: u64) -> (r: bool)
        requires
            old(self).ok(),
        ensures
            ({
                let key = Key { page, scale: key_of(scale) };
                let p = old(self)@.pending;
                &&& r == still_waiting(p, key, now)
                &&& final(self)@ == if r {
                    old(self)@
                } else {
                    CacheV { pending: p.remove(key), ..old(self)@ }
                }
            }),
            final(self).ok(),
    {
        let key: Key = Key { page, scale: scale_key(scale) };
        let ghost p = self.pending@;
        let mut i: usize = self.pending.len();
        proof {
            assert(p.take(i as int) =~= p);
        }
        while i > 0
            invariant
                i <= self.pending@.len(),
                self.pending@ == p,
                self.ok(),
                self@ == old(self)@,
                key == (Key { page, scale: key_of(scale) }),
                waiting(p).contains_key(key) == waiting(p.take(i as int)).contains_key(key),
                waiting(p).contains_key(key) ==> waiting(p)[key] == waiting(p.take(i as int))[key],
            decreases i,
        {
            i -= 1;
            proof {
                assert(p.take(i + 1).drop_last() =~= p.take(i as int));
            }
            let w: Waiting = self.pending[i];
            if w.key == key {
                if now < w.since || now - w.since < PENDING_TIMEOUT {
                    return true;
                }
                self.clear_pending(page, scale);
                return false;
            }
        }
        proof {
            assert(!waiting(p).contains_key(key));
            assert(waiting(p).remove(key) =~= waiting(p));
        }
        false
    }

    /// Remember that this page was asked for at this scale, at `now`.
    pub fn mark_pending(&mut self, page: usize, scale: u32, now: u64)
        requires
            old(self).ok(),
        ensures
            final(self)@ == (CacheV {
                pending: old(self)@.pending.insert(Key { page, scale: key_of(scale) }, now),
                ..old(self)@
            }),
            final(self).ok(),
    {
        self.clear_pending(page, scale);
        let ghost p = self.pending@;
        let key: Key = Key { page, scale: scale_key(scale) };
        self.pending.push(Waiting { key, since: now });
        proof {
            assert(self.pending@.drop_last() =~= p);
            assert(waiting(self.pending@) =~= old(self)@.pending.insert(key, now));
        }
    }

    /// The worker dropped this request (superseded by a newer one for the same
    /// page). Clearing the flag lets the next frame ask again if the page is
    /// still on screen; without this the page would stay on a fallback texture
    /// forever.
    pub fn clear_pending(&mut self, page: usize, scale: u32)
        requires
            old(self).ok(),
        ensures
            final(self)@ == (CacheV {
                pending: old(self)@.pending.remove(Key { page, scale: key_of(scale) }),
                ..old(self)@
            }),
            final(self).ok(),
    {
        let key: Key = Key { page, scale: scale_key(scale) };
        let ghost p = self.pending@;
        let mut kept: Vec<Waiting> = Vec::new();
        let mut i: usize = 0;
        proof {
            assert(p.take(0) =~= Seq::empty());
            assert(waiting(kept@) =~= waiting(p.take(0)).remove(key));
        }
        while i < self.pending.len()
            invariant
                i <= self.pending@.len(),
                self.pending@ == p,
                waiting(kept@) == waiting(p.take(i as int)).remove(key),
            decreases self.pending@.len() - i,
        {
            let w: Waiting = self.pending[i];
            let ghost before = kept@;
            proof {
                assert(p.take(i + 1).drop_last() =~= p.take(i as int));
            }
            if w.key != key {
                kept.push(w);
                proof {
                    assert(kept@.drop_last() =~= before);
                }
            }
            proof {
                assert(waiting(kept@) =~= waiting(p.take(i + 1)).remove(key));
            }
            i += 1;
        }
        proof {
            assert(p.take(i as int) =~= p);
        }
        self.pending = kept;
    }

    /// Put in a finished picture of this page at this scale, known by `tex`, of
    /// `width` by `height` pixels of four bytes each.
    pub fn insert(&mut self, page: usize, scale: u32, tex: u64, width: usize, height: usize)
        requires
            old(self).ok(),
            width * height * 4 + total(
                others(old(self)@.entries, Key { page, scale: key_of(scale) }),
            ) <= usize::MAX,
        ensures
            final(self)@ == old(self)@.inserted(
                Entry {
                    key: (Key { page, scale: key_of(scale) }),
                    tex,
                    bytes: (width * height * 4) as usize,
                },
            ),
            final(self).ok(),
    {
        let key: Key = Key { page, scale: scale_key(scale) };
        proof {
            assert(0 <= width * height) by (nonlinear_arith)
                requires
                    0 <= width,
                    0 <= height,
            ;
            lemma_others(self.entries@, key);
        }
        proof {
            lemma_total_positive(others(self.entries@, key));
        }
        self.clear_pending(page, scale);
        let bytes: usize = width * height * 4;
        self.touch(Entry { key, tex, bytes });
        self.evict();
    }

    /// How much texture memory this cache is holding.
    pub fn bytes(&self) -> (r: usize)
        requires
            self.ok(),
        ensures
            r == total(self@.entries),
    {
        self.bytes
    }

    /// How many textures are held.
    pub fn texture_count(&self) -> (r: usize)
        ensures
            r == self@.entries.len(),
    {
        self.entries.len()
    }

    fn evict(&mut self)
        requires
            old(self).ok(),
        ensures
            final(self)@ == (CacheV {
                entries: evicted(old(self)@.entries, old(self)@.touched, old(self).budget as int),
                ..old(self)@
            }),
            final(self).ok(),
    {
        let ghost before = self@;
        while self.bytes > self.budget
            invariant
                self.ok(),
                before.touched == self.frame_touched@.to_set(),
                self@ == (CacheV { entries: self@.entries, ..before }),
                evicted(before.entries, before.touched, before.budget as int) == evicted(
                    self@.entries,
                    before.touched,
                    before.budget as int,
                ),
            ensures
                self.ok(),
                self@ == (CacheV {
                    entries: evicted(before.entries, before.touched, before.budget as int),
                    ..before
                }),
            decreases self.entries@.len(),
        {
            let ghost s = self.entries@;
            let mut i: usize = 0;
            while i < self.entries.len() && holds_key(&self.frame_touched, self.entries[i].key)
                invariant
                    i <= self.entries@.len(),
                    self.entries@ == s,
                    before.touched == self.frame_touched@.to_set(),
                    first_idle(s, before.touched, 0) == first_idle(s, before.touched, i as int),
                decreases self.entries@.len() - i,
            {
                i += 1;
            }
            if i == self.entries.len() {
                break;
            }
            proof {
                lemma_total_remove(s, i as int);
                lemma_total_positive(s.remove(i as int));
            }
            let e: Entry = self.entries.remove(i);
            self.bytes = self.bytes - e.bytes;
            proof {
                let t = self.entries@;
                assert(t == s.remove(i as int));
                assert forall|a: int, b: int| 0 <= a < b < t.len() implies (#[trigger] t[a]).key != (
                #[trigger] t[b]).key by {
                    let (oa, ob) = (if a < i { a } else { a + 1 }, if b < i { b } else { b + 1 });
                    assert(t[a] == s[oa] && t[b] == s[ob]);
                }
            }
        }
    }
}

proof fn lemma_push_set(before: Set<Key>, v: Seq<Key>, key: Key)
    requires
        v.len() > 0,
        v.last() == key,
        before == v.drop_last().to_set(),
    ensures
        v.to_set() == before.insert(key),
{
    let t = v.drop_last();
    assert forall|x: Key| v.to_set().contains(x) == before.insert(key).contains(x) by {
        if v.contains(x) {
            let i = v.index_of(x);
            if i < t.len() {
                assert(t[i] == x);
                assert(t.contains(x));
            }
        }
        if t.contains(x) {
            let i = t.index_of(x);
            assert(v[i] == x);
            assert(v.contains(x));
        }
        assert(v[v.len() - 1] == key);
        assert(v.contains(key));
    }
    assert(v.to_set() =~= before.insert(key));
}

proof fn lemma_entry_at(s: Seq<Entry>, i: int)
    requires
        each_once(s),
        0 <= i < s.len(),
    ensures
        entry_of(s, s[i].key) == Some(s[i]),
    decreases s.len(),
{
    if i < s.len() - 1 {
        let t = s.drop_last();
        assert(each_once(t)) by {
            assert forall|a: int, b: int| 0 <= a < b < t.len() implies (#[trigger] t[a]).key != (
            #[trigger] t[b]).key by {
                assert(s[a].key != s[b].key);
            }
        }
        assert(s[i].key != s[s.len() - 1].key);
        lemma_entry_at(t, i);
    }
}

} // verus!
