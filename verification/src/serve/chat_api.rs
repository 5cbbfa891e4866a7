//! Chat with a document, as a stream of events.
//!
//! An answer takes seconds and arrives a word at a time, so the reply is not
//! one response but a run of them: what the server is doing, then the text as
//! it is generated, then the finished answer and the pages it was drawn from.
//!
//! A reader who closes the tab stops the work: nothing further is said once
//! nobody is listening.

use vstd::prelude::*;

use crate::json::{whole, Json, JsonV};
use crate::script::model::{
    and, just, model_error_text, ChatMessage, GenerateRequest, ModelError, ToolCall, ToolDef,
};
use crate::serve::auth::door::{Refusal, RefusalV};
use crate::serve::library_api::{list_json, text_list};
use crate::serve::tools::{no_tool, unknown_tool, RemoteTool};
use crate::text::{blank, decimal, decimal_of, same, texts, trim};

verus! {

/// Grounded answers want little invention; some helps them read as prose. The
/// same figure the desktop app's chat uses -- an answer should not depend on
/// which screen asked for it. In thousandths.
pub const TEMPERATURE: u32 = 200;

/// How many events may be waiting for the browser before the model is made to
/// slow down. Small on purpose: the backpressure is what stops a fast model
/// filling memory for a phone on a slow train.
pub const BACKLOG: usize = 64;

/// The longest transcript the server will keep for one document. A
/// conversation is a few dozen turns; anything past this is a client that has
/// stopped trimming, and the library is not a log file.
pub const MAX_TRANSCRIPT: usize = 500;

// ---------------------------------------------------------------------------
// Page text, kept for the length of a conversation
// ---------------------------------------------------------------------------

/// The text of one document, by page.
pub struct DocText {
    pub id: String,
    pub pages: Vec<String>,
}

/// Extracted page text for the documents most recently asked about.
///
/// Reading every page of a long PDF costs seconds, and a conversation asks
/// several questions of one document. Keyed by document id, which is a content
/// hash, so an entry can never be stale -- only unwanted, which is what the
/// capacity is for.
pub struct PageText {
    /// Least recently used first.
    pub entries: Vec<DocText>,
}

/// How many documents' text to keep. A phone has one document open and
/// perhaps flicks back to the last one or two.
pub const CAPACITY: usize = 4;

/// The text of one document as a mathematical value.
pub type TextV = (Seq<char>, Seq<Seq<char>>);

pub open spec fn entry(d: DocText) -> TextV {
    (d.id@, texts(d.pages@))
}

impl View for PageText {
    type V = Seq<TextV>;

    open spec fn view(&self) -> Seq<TextV> {
        self.entries@.map_values(|d: DocText| entry(d))
    }
}

/// Where a document stands in the cache, from `from` on.
pub open spec fn kept_at(s: Seq<TextV>, id: Seq<char>, from: int) -> Option<int>
    decreases s.len() - from,
{
    if from < 0 || from >= s.len() {
        None
    } else if s[from].0 == id {
        Some(from)
    } else {
        kept_at(s, id, from + 1)
    }
}

/// The cache after a document was asked about: it is the newest now.
pub open spec fn used(s: Seq<TextV>, id: Seq<char>) -> Seq<TextV> {
    match kept_at(s, id, 0) {
        Some(i) => s.remove(i).push(s[i]),
        None => s,
    }
}

/// The cache without a document.
pub open spec fn dropped(s: Seq<TextV>, id: Seq<char>) -> Seq<TextV>
    decreases s.len(),
{
    if s.len() == 0 {
        Seq::empty()
    } else if s.last().0 != id {
        dropped(s.drop_last(), id).push(s.last())
    } else {
        dropped(s.drop_last(), id)
    }
}

/// The newest of the cache, as many as it keeps.
pub open spec fn newest(s: Seq<TextV>) -> Seq<TextV> {
    if s.len() > CAPACITY {
        s.skip(s.len() - CAPACITY)
    } else {
        s
    }
}

/// The cache after a document was read: it is the newest, and the oldest goes
/// where there is no room.
pub open spec fn kept(s: Seq<TextV>, id: Seq<char>, pages: Seq<Seq<char>>) -> Seq<TextV> {
    newest(dropped(s, id).push((id, pages)))
}

fn copy_texts(v: &Vec<String>) -> (r: Vec<String>)
    ensures
        texts(r@) == texts(v@),
{
    let mut r: Vec<String> = Vec::new();
    let mut i: usize = 0;
    while i < v.len()
        invariant
            i <= v@.len(),
            r@.len() == i,
            forall|j: int| 0 <= j < i ==> (#[trigger] r@[j])@ == v@[j]@,
        decreases v@.len() - i,
    {
        r.push(v[i].clone());
        i += 1;
    }
    proof {
        assert(texts(r@) =~= texts(v@));
    }
    r
}

impl Default for PageText {
    fn default() -> (r: Self)
        ensures
            r@ == Seq::<TextV>::empty(),
    {
        let r: PageText = PageText { entries: Vec::new() };
        proof {
            assert(r@ =~= Seq::<TextV>::empty());
        }
        r
    }
}

impl PageText {
    pub fn get(&mut self, id: &str) -> (r: Option<Vec<String>>)
        ensures
            final(self)@ == used(old(self)@, id@),
            match r {
                Some(pages) => kept_at(old(self)@, id@, 0) is Some && texts(pages@) == old(
                    self,
                )@[kept_at(old(self)@, id@, 0)->0].1,
                None => kept_at(old(self)@, id@, 0) is None,
            },
    {
        let ghost all = self@;
        let mut i: usize = 0;
        while i < self.entries.len()
            invariant
                i <= self.entries@.len(),
                all == self@,
                all == old(self)@,
                kept_at(all, id@, 0) == kept_at(all, id@, i as int),
            decreases self.entries@.len() - i,
        {
            proof {
                assert(all[i as int] == entry(self.entries@[i as int]));
            }
            if same(self.entries[i].id.as_str(), id) {
                let ghost before = self.entries@;
                let found: DocText = self.entries.remove(i);
                let pages: Vec<String> = copy_texts(&found.pages);
                self.entries.push(found);
                proof {
                    assert(self.entries@ =~= before.remove(i as int).push(before[i as int]));
                    assert(self@ =~= all.remove(i as int).push(all[i as int]));
                }
                return Some(pages);
            }
            i += 1;
        }
        None
    }

    pub fn put(&mut self, id: &str, pages: Vec<String>)
        ensures
            final(self)@ == kept(old(self)@, id@, texts(pages@)),
    {
        let ghost all = self@;
        let mut left: Vec<DocText> = Vec::new();
        let mut i: usize = 0;
        proof {
            assert(all.take(0) =~= Seq::empty());
            assert(left@.map_values(|d: DocText| entry(d)) =~= Seq::empty());
        }
        while i < self.entries.len()
            invariant
                i <= self.entries@.len(),
                all == self@,
                all == old(self)@,
                left@.map_values(|d: DocText| entry(d)) == dropped(all.take(i as int), id@),
            decreases self.entries@.len() - i,
        {
            proof {
                assert(all.take(i + 1).drop_last() =~= all.take(i as int));
                assert(all.take(i + 1).last() == entry(self.entries@[i as int]));
            }
            if !same(self.entries[i].id.as_str(), id) {
                let d: DocText = DocText {
                    id: self.entries[i].id.clone(),
                    pages: copy_texts(&self.entries[i].pages),
                };
                proof {
                    assert(left@.push(d).map_values(|d: DocText| entry(d)) =~= left@.map_values(
                        |d: DocText| entry(d),
                    ).push(entry(d)));
                }
                left.push(d);
            }
            i += 1;
        }
        proof {
            assert(all.take(i as int) =~= all);
        }
        let new: DocText = DocText { id: id.to_owned(), pages };
        let ghost whole_cache = dropped(all, id@).push(entry(new));
        proof {
            assert(left@.push(new).map_values(|d: DocText| entry(d)) =~= whole_cache);
        }
        left.push(new);
        proof {
            assert(whole_cache.skip(0) =~= whole_cache);
        }
        while left.len() > CAPACITY
            invariant
                left@.len() <= whole_cache.len(),
                whole_cache.len() > CAPACITY ==> left@.len() >= CAPACITY,
                whole_cache.len() <= CAPACITY ==> left@.len() == whole_cache.len(),
                left@.map_values(|d: DocText| entry(d)) == whole_cache.skip(
                    whole_cache.len() - left@.len(),
                ),
            decreases left@.len(),
        {
            let ghost before = left@;
            let _oldest: DocText = left.remove(0);
            proof {
                assert(left@ =~= before.remove(0));
                assert(left@.map_values(|d: DocText| entry(d)) =~= before.map_values(
                    |d: DocText| entry(d),
                ).skip(1));
                assert(whole_cache.skip(whole_cache.len() - before.len()).skip(1)
                    =~= whole_cache.skip(whole_cache.len() - left@.len()));
            }
        }
        proof {
            assert(whole_cache.skip(0) =~= whole_cache);
        }
        self.entries = left;
    }
}

/// The cache never grows past its capacity, and what was put in it last is
/// there.
pub proof fn law_the_newest_is_kept(s: Seq<TextV>, id: Seq<char>, pages: Seq<Seq<char>>)
    ensures
        kept(s, id, pages).len() <= CAPACITY,
        kept(s, id, pages).last() == (id, pages),
        kept_at(kept(s, id, pages), id, 0) == Some(kept(s, id, pages).len() - 1),
{
    let k = kept(s, id, pages);
    lemma_dropped(s, id);
    let d = dropped(s, id);
    assert forall|i: int| 0 <= i < k.len() - 1 implies (#[trigger] k[i]).0 != id by {
        if d.len() + 1 > CAPACITY {
            assert(k[i] == d.push((id, pages))[i + d.len() + 1 - CAPACITY]);
            assert(k[i] == d[i + d.len() + 1 - CAPACITY]);
        } else {
            assert(k[i] == d[i]);
        }
    }
    lemma_last(k, id, 0);
}

proof fn lemma_dropped(s: Seq<TextV>, id: Seq<char>)
    ensures
        forall|i: int| 0 <= i < dropped(s, id).len() ==> (#[trigger] dropped(s, id)[i]).0 != id,
    decreases s.len(),
{
    if s.len() > 0 {
        lemma_dropped(s.drop_last(), id);
        let d = dropped(s, id);
        let t = dropped(s.drop_last(), id);
        assert forall|i: int| 0 <= i < d.len() implies (#[trigger] d[i]).0 != id by {
            if i < t.len() {
                assert(d[i] == t[i]);
            }
        }
    }
}

proof fn lemma_last(s: Seq<TextV>, id: Seq<char>, from: int)
    requires
        0 <= from < s.len(),
        s.last().0 == id,
        forall|i: int| 0 <= i < s.len() - 1 ==> (#[trigger] s[i]).0 != id,
    ensures
        kept_at(s, id, from) == Some(s.len() - 1),
    decreases s.len() - from,
{
    if from < s.len() - 1 {
        lemma_last(s, id, from + 1);
    }
}

/// One thing asked of the page-text cache.
pub enum TextCall {
    Get { id: Seq<char> },
    Put { id: Seq<char>, pages: Seq<Seq<char>> },
}

/// The cache after all of `calls`, from an empty one.
pub open spec fn cache_after(calls: Seq<TextCall>) -> Seq<TextV>
    decreases calls.len(),
{
    if calls.len() == 0 {
        Seq::empty()
    } else {
        let s = cache_after(calls.drop_last());
        match calls.last() {
            TextCall::Get { id } => used(s, id),
            TextCall::Put { id, pages } => kept(s, id, pages),
        }
    }
}

/// Whether the last of `calls` uses a document: puts it in, or finds it there.
pub open spec fn uses(calls: Seq<TextCall>, id: Seq<char>) -> bool {
    match calls.last() {
        TextCall::Get { id: d } => d == id && kept_at(
            cache_after(calls.drop_last()),
            id,
            0,
        ) is Some,
        TextCall::Put { id: d, .. } => d == id,
    }
}

/// How many of `calls` there were once a document had last been used.
pub open spec fn last_use(calls: Seq<TextCall>, id: Seq<char>) -> int
    decreases calls.len(),
{
    if calls.len() == 0 {
        0
    } else if uses(calls, id) {
        calls.len() as int
    } else {
        last_use(calls.drop_last(), id)
    }
}

/// What was last put in for a document.
pub open spec fn last_put(calls: Seq<TextCall>, id: Seq<char>) -> Option<Seq<Seq<char>>>
    decreases calls.len(),
{
    if calls.len() == 0 {
        None
    } else {
        match calls.last() {
            TextCall::Put { id: d, pages } => if d == id {
                Some(pages)
            } else {
                last_put(calls.drop_last(), id)
            },
            TextCall::Get { .. } => last_put(calls.drop_last(), id),
        }
    }
}

/// Every document that was ever put in, the one used longest ago first.
pub open spec fn recency(calls: Seq<TextCall>) -> Seq<TextV>
    decreases calls.len(),
{
    if calls.len() == 0 {
        Seq::empty()
    } else {
        let r = recency(calls.drop_last());
        match calls.last() {
            TextCall::Get { id } => if uses(calls, id) {
                used(r, id)
            } else {
                r
            },
            TextCall::Put { id, pages } => dropped(r, id).push((id, pages)),
        }
    }
}

/// Whether each document stands there once.
pub open spec fn each_document_once(s: Seq<TextV>) -> bool {
    forall|i: int, j: int| 0 <= i < j < s.len() ==> (#[trigger] s[i]).0 != (#[trigger] s[j]).0
}

proof fn lemma_kept_at(s: Seq<TextV>, id: Seq<char>, from: int)
    requires
        0 <= from,
    ensures
        match kept_at(s, id, from) {
            Some(i) => from <= i < s.len() && s[i].0 == id,
            None => forall|i: int| from <= i < s.len() ==> (#[trigger] s[i]).0 != id,
        },
    decreases s.len() - from,
{
    if from < s.len() && s[from].0 != id {
        lemma_kept_at(s, id, from + 1);
    }
}

proof fn lemma_dropped_one(s: Seq<TextV>, id: Seq<char>)
    requires
        each_document_once(s),
    ensures
        dropped(s, id) == (match kept_at(s, id, 0) {
            Some(i) => s.remove(i),
            None => s,
        }),
    decreases s.len(),
{
    lemma_kept_at(s, id, 0);
    if s.len() > 0 {
        let t = s.drop_last();
        assert(each_document_once(t)) by {
            assert forall|i: int, j: int| 0 <= i < j < t.len() implies (#[trigger] t[i]).0 != (
            #[trigger] t[j]).0 by {
                assert(s[i].0 != s[j].0);
            }
        }
        lemma_dropped_one(t, id);
        lemma_kept_at(t, id, 0);
        match kept_at(t, id, 0) {
            Some(k) => {
                assert(s[k].0 == id);
                let i = kept_at(s, id, 0)->0;
                assert(i == k) by {
                    if i < k {
                        assert(s[i].0 != s[k].0);
                    } else if k < i {
                        assert(s[k].0 != s[i].0);
                    }
                }
                assert(s[k].0 != s[s.len() - 1].0);
                assert(t.remove(k).push(s.last()) =~= s.remove(k));
            },
            None => {
                if s.last().0 == id {
                    let i = kept_at(s, id, 0)->0;
                    assert(s[s.len() - 1].0 == id);
                    if i < s.len() - 1 {
                        assert(t[i].0 != id);
                    }
                    assert(t =~= s.remove(s.len() - 1));
                } else {
                    if let Some(i) = kept_at(s, id, 0) {
                        if i < s.len() - 1 {
                            assert(t[i].0 != id);
                        }
                    }
                    assert(t.push(s.last()) =~= s);
                }
            },
        }
    }
}

proof fn lemma_newest_once(s: Seq<TextV>, id: Seq<char>)
    requires
        each_document_once(s),
    ensures
        each_document_once(newest(s)),
        s.len() > CAPACITY ==> (match (kept_at(newest(s), id, 0), kept_at(s, id, 0)) {
            (Some(i), Some(k)) => k == i + s.len() - CAPACITY,
            (None, Some(k)) => k < s.len() - CAPACITY,
            (Some(_), None) => false,
            (None, None) => true,
        }),
{
    let n = newest(s);
    lemma_kept_at(s, id, 0);
    lemma_kept_at(n, id, 0);
    if s.len() > CAPACITY {
        let gap = s.len() - CAPACITY;
        assert forall|i: int, j: int| 0 <= i < j < n.len() implies (#[trigger] n[i]).0 != (
        #[trigger] n[j]).0 by {
            assert(s[i + gap].0 != s[j + gap].0);
        }
        if let Some(i) = kept_at(n, id, 0) {
            assert(s[i + gap].0 == id);
            if let Some(k) = kept_at(s, id, 0) {
                if k < i + gap {
                    assert(s[k].0 != s[i + gap].0);
                } else if i + gap < k {
                    assert(s[i + gap].0 != s[k].0);
                }
            }
        } else if let Some(k) = kept_at(s, id, 0) {
            if k >= gap {
                assert(n[k - gap].0 == id);
            }
        }
    }
}

/// Whatever was asked before, the cache holds the documents used last, as many
/// as it keeps, each with what was last put in for it: the newest of every
/// document ever put in, in the order they were last used.
pub proof fn law_the_last_used_are_kept(calls: Seq<TextCall>)
    ensures
        cache_after(calls) == newest(recency(calls)),
        each_document_once(recency(calls)),
        forall|i: int|
            0 <= i < recency(calls).len() ==> last_put(calls, (#[trigger] recency(calls)[i]).0)
                == Some(recency(calls)[i].1),
        forall|i: int, j: int|
            0 <= i < j < recency(calls).len() ==> last_use(calls, (#[trigger] recency(calls)[i]).0)
                < last_use(calls, (#[trigger] recency(calls)[j]).0),
        forall|id: Seq<char>|
            (#[trigger] last_put(calls, id)) is Some <==> kept_at(recency(calls), id, 0) is Some,
    decreases calls.len(),
{
    let r = recency(calls);
    if calls.len() > 0 {
        let before = calls.drop_last();
        law_the_last_used_are_kept(before);
        lemma_moved(calls, about(calls.last()));
    }
    assert forall|id: Seq<char>| (#[trigger] last_put(calls, id)) is Some <==> kept_at(
        recency(calls),
        id,
        0,
    ) is Some by {
        lemma_kept_at(r, id, 0);
        if calls.len() > 0 {
            let o = recency(calls.drop_last());
            lemma_kept_at(o, id, 0);
            assert(last_put(calls.drop_last(), id) is Some <==> kept_at(o, id, 0) is Some);
            lemma_contents(calls, id);
        }
    }
}

/// Whose text a call is about.
spec fn about(c: TextCall) -> Seq<char> {
    match c {
        TextCall::Get { id } => id,
        TextCall::Put { id, .. } => id,
    }
}

proof fn lemma_moved_contents(o: Seq<TextV>, e: TextV, id: Seq<char>)
    requires
        each_document_once(o),
    ensures
        kept_at(dropped(o, e.0).push(e), id, 0) is Some <==> id == e.0 || kept_at(o, id, 0) is Some,
{
    let r = dropped(o, e.0).push(e);
    lemma_dropped_one(o, e.0);
    lemma_kept_at(o, e.0, 0);
    lemma_kept_at(o, id, 0);
    lemma_kept_at(r, id, 0);
    assert(r[r.len() - 1] == e);
    if id != e.0 {
        match kept_at(o, e.0, 0) {
            Some(k) => {
                if let Some(i) = kept_at(o, id, 0) {
                    let j = if i < k { i } else { i - 1 };
                    assert(r[j] == o[i]);
                }
                if let Some(j) = kept_at(r, id, 0) {
                    let i = if j < k { j } else { j + 1 };
                    assert(r[j] == o[i]);
                }
            },
            None => {
                if let Some(i) = kept_at(o, id, 0) {
                    assert(r[i] == o[i]);
                }
                if let Some(j) = kept_at(r, id, 0) {
                    assert(r[j] == o[j]);
                }
            },
        }
    }
}

proof fn lemma_contents(calls: Seq<TextCall>, id: Seq<char>)
    requires
        calls.len() > 0,
        each_document_once(recency(calls.drop_last())),
    ensures
        calls.last() matches TextCall::Put { id: d, .. } && d == id ==> kept_at(
            recency(calls),
            id,
            0,
        ) is Some,
        !(calls.last() matches TextCall::Put { id: d, .. } && d == id) ==> (kept_at(
            recency(calls),
            id,
            0,
        ) is Some <==> kept_at(recency(calls.drop_last()), id, 0) is Some),
{
    let o = recency(calls.drop_last());
    match calls.last() {
        TextCall::Put { id: d, pages } => {
            lemma_moved_contents(o, (d, pages), id);
        },
        TextCall::Get { id: d } => {
            lemma_dropped_one(o, d);
            lemma_kept_at(o, d, 0);
            if let Some(k) = kept_at(o, d, 0) {
                lemma_moved_contents(o, o[k], id);
            }
        },
    }
}

proof fn lemma_last_use_bound(calls: Seq<TextCall>, id: Seq<char>)
    ensures
        0 <= last_use(calls, id) <= calls.len(),
    decreases calls.len(),
{
    if calls.len() > 0 {
        lemma_last_use_bound(calls.drop_last(), id);
    }
}

/// Taking a document out of all that were put in, or out of the newest of them,
/// and putting it back at the end leaves the same newest.
proof fn lemma_newest_moved(o: Seq<TextV>, e: TextV)
    requires
        each_document_once(o),
    ensures
        newest(dropped(newest(o), e.0).push(e)) == newest(dropped(o, e.0).push(e)),
{
    let n = newest(o);
    lemma_dropped_one(o, e.0);
    lemma_kept_at(o, e.0, 0);
    lemma_newest_once(o, e.0);
    lemma_dropped_one(n, e.0);
    lemma_kept_at(n, e.0, 0);
    let held = dropped(n, e.0);
    let rest = dropped(o, e.0);
    if o.len() > CAPACITY {
        let a = newest(held.push(e));
        let b = newest(rest.push(e));
        assert(a =~= b);
    }
}

/// What is left of those put in without one of them is still in order.
proof fn lemma_rest(before: Seq<TextCall>, o: Seq<TextV>, id: Seq<char>)
    requires
        each_document_once(o),
        forall|i: int|
            0 <= i < o.len() ==> last_put(before, (#[trigger] o[i]).0) == Some(o[i].1),
        forall|i: int, j: int|
            0 <= i < j < o.len() ==> last_use(before, (#[trigger] o[i]).0) < last_use(
                before,
                (#[trigger] o[j]).0,
            ),
    ensures
        ({
            let rest = dropped(o, id);
            &&& forall|i: int|
                0 <= i < rest.len() ==> (#[trigger] rest[i]).0 != id && last_put(before, rest[i].0)
                    == Some(rest[i].1)
            &&& forall|i: int, j: int|
                0 <= i < j < rest.len() ==> (#[trigger] rest[i]).0 != (#[trigger] rest[j]).0
                    && last_use(before, rest[i].0) < last_use(before, rest[j].0)
        }),
{
    lemma_dropped_one(o, id);
    lemma_kept_at(o, id, 0);
    let rest = dropped(o, id);
    match kept_at(o, id, 0) {
        Some(k) => {
            assert forall|i: int| 0 <= i < rest.len() implies (#[trigger] rest[i]).0 != id
                && last_put(before, rest[i].0) == Some(rest[i].1) by {
                if i < k {
                    assert(o[i] == rest[i]);
                    assert(o[i].0 != o[k].0);
                } else {
                    assert(o[i + 1] == rest[i]);
                    assert(o[k].0 != o[i + 1].0);
                }
            }
            assert forall|i: int, j: int| 0 <= i < j < rest.len() implies (#[trigger] rest[i]).0
                != (#[trigger] rest[j]).0 && last_use(before, rest[i].0) < last_use(
                before,
                rest[j].0,
            ) by {
                let a = if i < k { i } else { i + 1 };
                let b = if j < k { j } else { j + 1 };
                assert(rest[i] == o[a] && rest[j] == o[b]);
                assert(o[a].0 != o[b].0);
            }
        },
        None => {},
    }
}

proof fn lemma_moved(calls: Seq<TextCall>, id: Seq<char>)
    requires
        calls.len() > 0,
        id == about(calls.last()),
        cache_after(calls.drop_last()) == newest(recency(calls.drop_last())),
        each_document_once(recency(calls.drop_last())),
        forall|i: int|
            0 <= i < recency(calls.drop_last()).len() ==> last_put(
                calls.drop_last(),
                (#[trigger] recency(calls.drop_last())[i]).0,
            ) == Some(recency(calls.drop_last())[i].1),
        forall|i: int, j: int|
            0 <= i < j < recency(calls.drop_last()).len() ==> last_use(
                calls.drop_last(),
                (#[trigger] recency(calls.drop_last())[i]).0,
            ) < last_use(calls.drop_last(), (#[trigger] recency(calls.drop_last())[j]).0),
    ensures
        cache_after(calls) == newest(recency(calls)),
        each_document_once(recency(calls)),
        forall|i: int|
            0 <= i < recency(calls).len() ==> last_put(calls, (#[trigger] recency(calls)[i]).0)
                == Some(recency(calls)[i].1),
        forall|i: int, j: int|
            0 <= i < j < recency(calls).len() ==> last_use(calls, (#[trigger] recency(calls)[i]).0)
                < last_use(calls, (#[trigger] recency(calls)[j]).0),
{
    let before = calls.drop_last();
    let o = recency(before);
    let r = recency(calls);
    if uses(calls, id) {
        let n = newest(o);
        lemma_dropped_one(o, id);
        lemma_kept_at(o, id, 0);
        lemma_newest_once(o, id);
        lemma_dropped_one(n, id);
        lemma_kept_at(n, id, 0);
        let rest = dropped(o, id);
        let e = match calls.last() {
            TextCall::Get { .. } => o[kept_at(o, id, 0)->0],
            TextCall::Put { pages, .. } => (id, pages),
        };
        assert(r == rest.push(e));
        assert(e.0 == id);
        lemma_newest_moved(o, e);
        assert(cache_after(calls) == newest(dropped(n, id).push(e))) by {
            if calls.last() is Get {
                assert(dropped(n, id).push(e).len() <= CAPACITY);
            }
        }
        lemma_rest(before, o, id);
        assert forall|i: int| 0 <= i < r.len() implies last_put(calls, (#[trigger] r[i]).0)
            == Some(r[i].1) by {
            if i < rest.len() {
                assert(r[i] == rest[i]);
            }
        }
        assert forall|i: int, j: int| 0 <= i < j < r.len() implies (#[trigger] r[i]).0 != (
        #[trigger] r[j]).0 && last_use(calls, r[i].0) < last_use(calls, r[j].0) by {
            assert(r[i] == rest[i]);
            lemma_last_use_bound(before, rest[i].0);
            if j < rest.len() {
                assert(r[j] == rest[j]);
            }
        }
    } else {
        assert(cache_after(calls) == newest(o));
        assert forall|i: int| 0 <= i < r.len() implies last_use(calls, (#[trigger] r[i]).0)
            == last_use(before, r[i].0) && last_put(calls, r[i].0) == Some(r[i].1) by {
            assert(last_put(before, o[i].0) == Some(o[i].1));
        }
    }
}

// ---------------------------------------------------------------------------
// What the server says while it answers
// ---------------------------------------------------------------------------

/// One thing worth telling the reader about a question in flight.
///
/// The data of every event is JSON, never bare text. A model chunk may hold a
/// newline, and a newline in an event's data line is a frame boundary -- so
/// putting the chunk in a JSON string is what stops a paragraph break from
/// looking like the end of the answer.
pub enum Say {
    /// What the server is doing before there is anything to read.
    Stage(&'static str),
    /// Text from the model, as it arrives.
    Token(String),
    /// Something the model is having evo do, as it happens. The reader watches
    /// the tool run rather than finding out about it in the answer.
    Tool { name: String, text: String },
    /// Something for the app itself to do: turn to a page, redraw the markup.
    Ui(Json),
    /// The finished answer, the pages (1-based) it was allowed to use, and the
    /// tools it ran on the way.
    Done { text: String, pages: Vec<usize>, tools: Vec<String> },
    /// Why there is no answer. A sentence, for a person.
    Error(String),
}

/// Page numbers as a list.
pub open spec fn page_list(s: Seq<usize>) -> JsonV {
    JsonV::Array(s.map_values(|n: usize| JsonV::Number(whole(n as u64))))
}

fn pages_json(v: &Vec<usize>) -> (r: Json)
    ensures
        r.view() == page_list(v@),
{
    let ghost all = v@.map_values(|n: usize| JsonV::Number(whole(n as u64)));
    let mut r: Vec<Json> = Vec::new();
    let mut i: usize = 0;
    while i < v.len()
        invariant
            i <= v@.len(),
            all == v@.map_values(|n: usize| JsonV::Number(whole(n as u64))),
            crate::json::values(r@) == all.take(i as int),
        decreases v@.len() - i,
    {
        let j: Json = Json::number(v[i] as u64);
        proof {
            assert(crate::json::values(r@.push(j)) =~= crate::json::values(r@).push(j.view()));
            assert(all.take(i + 1) =~= all.take(i as int).push(all[i as int]));
        }
        r.push(j);
        i += 1;
    }
    proof {
        assert(all.take(i as int) =~= all);
    }
    Json::array(r)
}

/// An event as a mathematical value.
#[verifier::ext_equal]
pub enum SayV {
    Stage(Seq<char>),
    Token(Seq<char>),
    Tool { name: Seq<char>, text: Seq<char> },
    Ui(JsonV),
    Done { text: Seq<char>, pages: Seq<usize>, tools: Seq<Seq<char>> },
    Error(Seq<char>),
}

impl View for Say {
    type V = SayV;

    open spec fn view(&self) -> SayV {
        match self {
            Say::Stage(text) => SayV::Stage(text@),
            Say::Token(text) => SayV::Token(text@),
            Say::Tool { name, text } => SayV::Tool { name: name@, text: text@ },
            Say::Ui(payload) => SayV::Ui(payload.view()),
            Say::Done { text, pages, tools } => SayV::Done {
                text: text@,
                pages: pages@,
                tools: texts(tools@),
            },
            Say::Error(message) => SayV::Error(message@),
        }
    }
}

impl Say {
    /// The type of the event.
    pub open spec fn kind(self) -> Seq<char> {
        match self {
            Say::Stage(_) => "stage"@,
            Say::Token(_) => "token"@,
            Say::Tool { .. } => "tool"@,
            Say::Ui(_) => "ui"@,
            Say::Done { .. } => "done"@,
            Say::Error(_) => "error"@,
        }
    }

    /// What the event carries.
    pub open spec fn payload(self) -> JsonV {
        match self {
            Say::Stage(text) => just("text"@, JsonV::Str(text@)),
            Say::Token(text) => just("text"@, JsonV::Str(text@)),
            Say::Tool { name, text } => and(
                just("name"@, JsonV::Str(name@)),
                "text"@,
                JsonV::Str(text@),
            ),
            Say::Ui(payload) => payload.view(),
            Say::Done { text, pages, tools } => and(
                and(just("text"@, JsonV::Str(text@)), "pages"@, page_list(pages@)),
                "tools_used"@,
                text_list(texts(tools@)),
            ),
            Say::Error(message) => just("error"@, JsonV::Str(message@)),
        }
    }

    /// The type of the event. The browser switches on exactly these.
    pub fn name(&self) -> (r: &'static str)
        ensures
            r@ == self.kind(),
    {
        match self {
            Say::Stage(_) => "stage",
            Say::Token(_) => "token",
            Say::Tool { .. } => "tool",
            Say::Ui(_) => "ui",
            Say::Done { .. } => "done",
            Say::Error(_) => "error",
        }
    }

    /// What the event carries.
    pub fn data(&self) -> (r: Json)
        ensures
            r.view() == self.payload(),
    {
        match self {
            Say::Stage(text) => Json::object().with("text", Json::string(text)),
            Say::Token(text) => Json::object().with("text", Json::string(text.as_str())),
            Say::Tool { name, text } => Json::object().with(
                "name",
                Json::string(name.as_str()),
            ).with("text", Json::string(text.as_str())),
            Say::Ui(payload) => payload.copy(),
            Say::Done { text, pages, tools } => Json::object().with(
                "text",
                Json::string(text.as_str()),
            ).with("pages", pages_json(pages)).with("tools_used", list_json(tools)),
            Say::Error(message) => Json::object().with("error", Json::string(message.as_str())),
        }
    }
}

/// What the reader is told while the pages are being read.
pub const READING: &'static str = "Reading the document\u{2026}";

/// And while somebody else's question is being answered first.
pub const WAITING: &'static str = "Waiting for the model\u{2026}";

/// And while the configured MCP servers are being started, which can take a
/// moment the first time.
pub const TOOLING: &'static str = "Asking the tool servers what they can do\u{2026}";

pub const ASKING: &'static str = "Asking the model\u{2026}";

// ---------------------------------------------------------------------------
// One question, from prompt to answer
// ---------------------------------------------------------------------------

/// What a phone is told when a generation fails.
pub open spec fn explained(e: ModelError) -> Seq<char> {
    if e is Unreachable || e is Unavailable {
        "No language model is available to answer this. On the server, download one with `evo fetch-model`, or point the \u{201c}model\u{201d} section of serve/config.json at a model server that is running. ("@
            + model_error_text(e) + ")"@
    } else {
        model_error_text(e)
    }
}

/// What a phone is told when a generation fails.
///
/// The model layer writes its failures for the desktop app, where the answer to
/// "there is no model" is a Preferences pane and where a refused connection is
/// something the reader can go and fix. Neither is true here: the model lives on
/// a server the reader is not sitting at, and `evo serve` has no settings screen
/// at all. So the two failures that mean "nothing is going to answer you" are
/// rewritten to name what someone with a shell on that box can actually do, and
/// the original is kept in brackets -- it is the only thing that distinguishes a
/// missing model from an endpoint pointed at the wrong port.
pub fn explain(error: &ModelError) -> (r: String)
    ensures
        r@ == explained(*error),
{
    let plain: String = error.message();
    match error {
        ModelError::Unreachable { .. } | ModelError::Unavailable(_) => {
            let mut r: String =
                "No language model is available to answer this. On the server, download one with `evo fetch-model`, or point the \u{201c}model\u{201d} section of serve/config.json at a model server that is running. (".to_owned();
            r.append(plain.as_str());
            r.append(")");
            r
        },
        _ => plain,
    }
}

/// What the model may have evo do this turn: the tools it was offered.
pub struct Toolbox {
    pub tools: Vec<RemoteTool>,
}

/// One question being answered: the tools on offer, those that ran, whether the
/// model has been asked, and whether the reader has gone.
pub struct Conversation {
    pub toolbox: Toolbox,
    pub used: Vec<String>,
    pub pages: Vec<usize>,
    pub asked: bool,
    pub gone: bool,
}

/// What to do once something has been said.
#[derive(Clone, Copy, PartialEq, Eq, Structural, Debug)]
pub enum Next {
    /// Ask the model.
    Ask,
    /// Let the model go on.
    GoOn,
    /// Stop: nobody is listening.
    Stop,
}

/// A conversation as a mathematical value.
#[verifier::ext_equal]
pub struct TalkV {
    pub tools: Seq<RemoteTool>,
    pub used: Seq<Seq<char>>,
    pub pages: Seq<usize>,
    pub asked: bool,
    pub gone: bool,
}

impl View for Conversation {
    type V = TalkV;

    open spec fn view(&self) -> TalkV {
        TalkV {
            tools: self.toolbox.tools@,
            used: texts(self.used@),
            pages: self.pages@,
            asked: self.asked,
            gone: self.gone,
        }
    }
}

/// A question that has just come in.
pub open spec fn begun(toolbox: Option<Toolbox>, pages: Seq<usize>) -> TalkV {
    TalkV {
        tools: match toolbox {
            Some(t) => t.tools@,
            None => Seq::empty(),
        },
        used: Seq::empty(),
        pages,
        asked: false,
        gone: false,
    }
}

/// What follows from the reader having heard the last thing said, or not: a
/// reader who did not is gone for good, and the work stops there. The first
/// thing heard has the model asked.
pub open spec fn stepped(t: TalkV, heard: bool) -> (TalkV, Next) {
    if t.gone || !heard {
        (TalkV { gone: true, ..t }, Next::Stop)
    } else if !t.asked {
        (TalkV { asked: true, ..t }, Next::Ask)
    } else {
        (t, Next::GoOn)
    }
}

/// What is said of text from the model.
pub open spec fn token_said(t: TalkV, chunk: Seq<char>) -> Option<SayV> {
    if t.gone {
        None
    } else {
        Some(SayV::Token(chunk))
    }
}

/// What comes of what the model answered: a reader who has gone cancelled it.
pub open spec fn settled(t: TalkV, outcome: Result<String, ModelError>) -> Result<
    String,
    ModelError,
> {
    if t.gone {
        Err(ModelError::Cancelled)
    } else {
        outcome
    }
}

/// The last thing said. Cancelled is the reader having gone: there is nobody to
/// tell.
pub open spec fn last_said(t: TalkV, outcome: Result<String, ModelError>) -> Option<SayV> {
    match settled(t, outcome) {
        Ok(answer) => Some(SayV::Done { text: answer@, pages: t.pages, tools: t.used }),
        Err(ModelError::Cancelled) => None,
        Err(e) => Some(SayV::Error(explained(e))),
    }
}

/// The first tool of this name, from `from` on.
pub open spec fn tool_named(tools: Seq<RemoteTool>, name: Seq<char>, from: int) -> Option<int>
    decreases tools.len() - from,
{
    if from < 0 || from >= tools.len() {
        None
    } else if tools[from].def.name@ == name {
        Some(from)
    } else {
        tool_named(tools, name, from + 1)
    }
}

/// A call that is going out: where to, and what the reader is told of it.
pub struct Outgoing {
    pub server: String,
    pub tool: String,
    pub say: Say,
}

impl Conversation {
    /// A question begins. What the reader is told first.
    pub fn begin(toolbox: Option<Toolbox>, pages: Vec<usize>) -> (r: (Self, Say))
        ensures
            r.0@ == begun(toolbox, pages@),
            r.1@ == SayV::Stage(ASKING@),
    {
        let tools: Vec<RemoteTool> = match toolbox {
            Some(t) => t.tools,
            None => Vec::new(),
        };
        let c: Conversation = Conversation {
            toolbox: Toolbox { tools },
            used: Vec::new(),
            pages,
            asked: false,
            gone: false,
        };
        proof {
            assert(c@.used =~= Seq::<Seq<char>>::empty());
            assert(c@.tools =~= begun(toolbox, pages@).tools);
        }
        (c, Say::Stage(ASKING))
    }

    /// What to do now that the first stage, or a token, has been said: whether
    /// the reader heard it decides. Once one was not heard nobody is listening
    /// any more.
    pub fn next(&mut self, heard: bool) -> (r: Next)
        ensures
            (final(self)@, r) == stepped(old(self)@, heard),
            r is Stop <==> old(self).gone || !heard,
            final(self).gone == (old(self).gone || !heard),
    {
        if self.gone || !heard {
            self.gone = true;
            Next::Stop
        } else if !self.asked {
            self.asked = true;
            Next::Ask
        } else {
            Next::GoOn
        }
    }

    /// Text from the model, where there is anybody to say it to.
    pub fn token(&self, chunk: &str) -> (r: Option<Say>)
        ensures
            match r {
                Some(say) => Some(say@) == token_said(self@, chunk@),
                None => token_said(self@, chunk@) is None,
            },
    {
        if self.gone {
            None
        } else {
            Some(Say::Token(chunk.to_owned()))
        }
    }

    /// The model asks for a tool. One that nobody offered is refused in words
    /// the model can act on, and it carries on -- which is better than failing
    /// the answer over it.
    pub fn execute(&mut self, call: &ToolCall) -> (r: Result<Outgoing, String>)
        ensures
            match tool_named(old(self)@.tools, call.name@, 0) {
                Some(i) => {
                    &&& final(self)@ == (TalkV {
                        used: old(self)@.used.push(call.name@),
                        ..old(self)@
                    })
                    &&& r matches Ok(out) && out.server@ == old(self).toolbox.tools@[i].server@
                        && out.tool@ == old(self).toolbox.tools@[i].tool@ && (out.say matches Say::Tool {
                        name,
                        text,
                    } && name@ == call.name@ && text@ == "Running "@ + call.name@ + "\u{2026}"@)
                },
                None => r matches Err(e) && e@ == no_tool(call.name@) && final(self)@ == old(self)@,
            },
    {
        let mut i: usize = 0;
        while i < self.toolbox.tools.len()
            invariant
                i <= self.toolbox.tools@.len(),
                self.toolbox == old(self).toolbox,
                self.used == old(self).used,
                self.pages == old(self).pages,
                self.asked == old(self).asked,
                self.gone == old(self).gone,
                tool_named(self.toolbox.tools@, call.name@, 0) == tool_named(
                    self.toolbox.tools@,
                    call.name@,
                    i as int,
                ),
            decreases self.toolbox.tools@.len() - i,
        {
            if same(self.toolbox.tools[i].def.name.as_str(), call.name.as_str()) {
                let name: String = call.name.clone();
                proof {
                    assert(texts(self.used@.push(name)) =~= texts(self.used@).push(name@));
                }
                self.used.push(name);
                let mut text: String = "Running ".to_owned();
                text.append(call.name.as_str());
                text.append("\u{2026}");
                return Ok(
                    Outgoing {
                        server: self.toolbox.tools[i].server.clone(),
                        tool: self.toolbox.tools[i].tool.clone(),
                        say: Say::Tool { name: call.name.clone(), text },
                    },
                );
            }
            i += 1;
        }
        Err(unknown_tool(call.name.as_str()))
    }

    /// A tool has answered.
    pub fn ran(&self, call: &ToolCall, result: &Result<String, String>) -> (r: Say)
        ensures
            r matches Say::Tool { name, text } && name@ == call.name@ && text@ == (match *result {
                Ok(answer) => call.name@ + " answered ("@ + decimal(
                    (vstd::utf8::encode_utf8(answer@).len() as usize) as nat,
                ) + " characters)."@,
                Err(e) => call.name@ + " failed: "@ + e@,
            }),
    {
        let mut text: String = call.name.clone();
        match result {
            Ok(answer) => {
                text.append(" answered (");
                text.append(decimal_of(answer.as_str().len() as u64).as_str());
                text.append(" characters).");
            },
            Err(e) => {
                text.append(" failed: ");
                text.append(e.as_str());
            },
        }
        Say::Tool { name: call.name.clone(), text }
    }

    /// The model is done: the last thing said, if there is anybody to say it
    /// to. Cancelled is the reader having gone.
    pub fn finish(self, outcome: Result<String, ModelError>) -> (r: Option<Say>)
        ensures
            match r {
                Some(say) => Some(say@) == last_said(self@, outcome),
                None => last_said(self@, outcome) is None,
            },
    {
        if self.gone {
            return None;
        }
        match outcome {
            Ok(answer) => Some(Say::Done { text: answer, pages: self.pages, tools: self.used }),
            Err(e) => match e {
                ModelError::Cancelled => None,
                _ => Some(Say::Error(explain(&e))),
            },
        }
    }
}

/// What is said from here on, where the model has these chunks to say and then
/// this outcome, and `heard` has whether each chunk is heard.
pub open spec fn spoken(
    t: TalkV,
    chunks: Seq<Seq<char>>,
    heard: Seq<bool>,
    outcome: Result<String, ModelError>,
) -> Seq<SayV>
    decreases chunks.len(),
{
    if chunks.len() == 0 || t.gone {
        match last_said(t, outcome) {
            Some(say) => seq![say],
            None => Seq::empty(),
        }
    } else {
        let said = match token_said(t, chunks[0]) {
            Some(say) => seq![say],
            None => Seq::empty(),
        };
        said + spoken(
            stepped(t, heard[0]).0,
            chunks.drop_first(),
            heard.drop_first(),
            outcome,
        )
    }
}

/// Everything one question says: the stage, and what follows it. `heard` has
/// whether the stage is heard, then each chunk.
pub open spec fn transcript(
    t: TalkV,
    chunks: Seq<Seq<char>>,
    heard: Seq<bool>,
    outcome: Result<String, ModelError>,
) -> Seq<SayV> {
    seq![SayV::Stage(ASKING@)] + match stepped(t, heard[0]).1 {
        Next::Stop => Seq::empty(),
        _ => spoken(stepped(t, heard[0]).0, chunks, heard.drop_first(), outcome),
    }
}

/// So many chunks, each as it is said.
pub open spec fn tokens(chunks: Seq<Seq<char>>) -> Seq<SayV> {
    chunks.map_values(|c: Seq<char>| SayV::Token(c))
}

proof fn lemma_spoken(
    t: TalkV,
    chunks: Seq<Seq<char>>,
    heard: Seq<bool>,
    outcome: Result<String, ModelError>,
    k: int,
)
    requires
        !t.gone,
        t.asked,
        heard.len() == chunks.len(),
        0 <= k <= chunks.len(),
        forall|j: int| 0 <= j < k ==> #[trigger] heard[j],
        k < chunks.len() ==> !heard[k],
    ensures
        k < chunks.len() ==> spoken(t, chunks, heard, outcome) == tokens(chunks.take(k + 1)),
        k == chunks.len() ==> spoken(t, chunks, heard, outcome) == tokens(chunks) + (match last_said(
            t,
            outcome,
        ) {
            Some(say) => seq![say],
            None => Seq::empty(),
        }),
    decreases chunks.len(),
{
    let last = match last_said(t, outcome) {
        Some(say) => seq![say],
        None => Seq::empty(),
    };
    if chunks.len() == 0 {
        assert(tokens(chunks) + last =~= last);
    } else {
        let rest = chunks.drop_first();
        let others = heard.drop_first();
        if k == 0 {
            let gone = TalkV { gone: true, ..t };
            assert(spoken(gone, rest, others, outcome) =~= Seq::empty());
            assert(spoken(t, chunks, heard, outcome) =~= tokens(chunks.take(1)));
        } else {
            assert(heard[0]);
            assert forall|j: int| 0 <= j < k - 1 implies #[trigger] others[j] by {
                assert(heard[j + 1]);
            }
            lemma_spoken(t, rest, others, outcome, k - 1);
            let first = seq![SayV::Token(chunks[0])];
            if k < chunks.len() {
                assert(first + tokens(rest.take(k)) =~= tokens(chunks.take(k + 1)));
            } else {
                assert(first + (tokens(rest) + last) =~= tokens(chunks) + last);
            }
        }
    }
}

/// A reader who goes away at the first stage has the model never asked, and one
/// who goes away at a token hears nothing after it: neither that it is done nor
/// what went wrong.
pub proof fn law_a_reader_who_goes_away_stops_it(
    toolbox: Option<Toolbox>,
    pages: Seq<usize>,
    chunks: Seq<Seq<char>>,
    heard: Seq<bool>,
    outcome: Result<String, ModelError>,
    k: int,
)
    requires
        heard.len() == chunks.len() + 1,
        0 <= k < heard.len(),
        forall|j: int| 0 <= j < k ==> #[trigger] heard[j],
        !heard[k],
    ensures
        transcript(begun(toolbox, pages), chunks, heard, outcome) == seq![SayV::Stage(ASKING@)]
            + tokens(chunks.take(k)),
        k == 0 ==> stepped(begun(toolbox, pages), heard[0]).1 is Stop,
{
    let t = begun(toolbox, pages);
    if k == 0 {
        assert(seq![SayV::Stage(ASKING@)] + tokens(chunks.take(k)) =~= seq![SayV::Stage(ASKING@)]
            + Seq::<SayV>::empty());
    } else {
        assert(heard[0]);
        let others = heard.drop_first();
        assert forall|j: int| 0 <= j < k - 1 implies #[trigger] others[j] by {
            assert(heard[j + 1]);
        }
        lemma_spoken(TalkV { asked: true, ..t }, chunks, others, outcome, k - 1);
    }
}

/// A reader who stays hears the stage, every chunk in order, and how it ended.
pub proof fn law_a_reader_who_stays_hears_it_all(
    toolbox: Option<Toolbox>,
    pages: Seq<usize>,
    chunks: Seq<Seq<char>>,
    heard: Seq<bool>,
    outcome: Result<String, ModelError>,
)
    requires
        heard.len() == chunks.len() + 1,
        forall|j: int| 0 <= j < heard.len() ==> #[trigger] heard[j],
    ensures
        transcript(begun(toolbox, pages), chunks, heard, outcome) == seq![SayV::Stage(ASKING@)] + (
        tokens(chunks) + (match outcome {
            Ok(answer) => seq![SayV::Done { text: answer@, pages, tools: Seq::empty() }],
            Err(ModelError::Cancelled) => Seq::empty(),
            Err(e) => seq![SayV::Error(explained(e))],
        })),
        stepped(begun(toolbox, pages), heard[0]).1 is Ask,
{
    let t = begun(toolbox, pages);
    assert(heard[0]);
    let others = heard.drop_first();
    assert forall|j: int| 0 <= j < others.len() implies #[trigger] others[j] by {
        assert(heard[j + 1]);
    }
    lemma_spoken(TalkV { asked: true, ..t }, chunks, others, outcome, chunks.len() as int);
}

/// The request the model is given for one question about one document, with the
/// prompts retrieval wrote for it: what the system prompt promises is what the
/// choice of pages keeps.
pub fn ask_about(
    system: String,
    prompt: String,
    history: Vec<ChatMessage>,
    model: String,
    tools: Vec<ToolDef>,
    temperature: serde_json::Number,
) -> (r: GenerateRequest)
    ensures
        r.model == model,
        r.prompt == prompt,
        r.system == Some(system),
        r.history == history,
        r.tools == tools,
        r.temperature == Some(temperature),
        r.max_tokens is None,
{
    GenerateRequest {
        model,
        prompt,
        system: Some(system),
        history,
        tools,
        temperature: Some(temperature),
        max_tokens: None,
    }
}

/// The request the model is given for a question about the library itself.
///
/// Nothing is quoted, because nothing has been chosen: the agent's context is
/// whatever it goes and looks up. The question travels as itself.
pub fn ask_library(
    system: String,
    question: &str,
    history: Vec<ChatMessage>,
    model: String,
    tools: Vec<ToolDef>,
    temperature: serde_json::Number,
) -> (r: GenerateRequest)
    ensures
        r.model == model,
        r.prompt@ == question@,
        r.system == Some(system),
        r.history == history,
        r.tools == tools,
        r.temperature == Some(temperature),
        r.max_tokens is None,
{
    ask_about(system, question.to_owned(), history, model, tools, temperature)
}

// ---------------------------------------------------------------------------
// The endpoints
// ---------------------------------------------------------------------------

/// What the phone sends.
pub struct Ask {
    pub question: String,
    /// The conversation so far, oldest first, without the pages each turn
    /// quoted: every question retrieves afresh.
    pub history: Vec<ChatMessage>,
    /// Whether the model may drive evo -- search the library, open a document,
    /// mark it up. Off unless asked for: the panel that wants it says so on
    /// every request, so nothing is remembered on the server that the reader
    /// cannot see the state of.
    pub tools: bool,
}

impl Default for Ask {
    fn default() -> (r: Self)
        ensures
            r.question@.len() == 0,
            r.history@.len() == 0,
            !r.tools,
    {
        Ask { question: String::new(), history: Vec::new(), tools: false }
    }
}

pub const NO_QUESTION: &'static str = "There is no question in that.";

pub const TOO_LONG: &'static str =
    "That is a longer conversation than evo keeps. Start a new one.";

/// A question with nothing in it is refused before anything is done.
pub fn check_question(ask: &Ask) -> (r: Option<Refusal>)
    ensures
        match r {
            Some(refusal) => blank(ask.question@) && refusal@ == (RefusalV {
                status: 400,
                message: NO_QUESTION@,
            }),
            None => !blank(ask.question@),
        },
{
    if trim(ask.question.as_str()).as_str().is_empty() {
        Some(Refusal::new(400, NO_QUESTION))
    } else {
        None
    }
}

/// What is said before a question goes to the model: that another comes first,
/// where one does, and that the tool servers are being asked, where tools were
/// allowed.
pub fn stages(busy: bool, tools: bool) -> (r: Vec<&'static str>)
    ensures
        r@.map_values(|s: &'static str| s@) == (if busy {
            seq![WAITING@]
        } else {
            Seq::empty()
        }) + (if tools {
            seq![TOOLING@]
        } else {
            Seq::empty()
        }),
{
    let mut r: Vec<&'static str> = Vec::new();
    if busy {
        r.push(WAITING);
    }
    if tools {
        r.push(TOOLING);
    }
    proof {
        assert(r@.map_values(|s: &'static str| s@) =~= (if busy {
            seq![WAITING@]
        } else {
            Seq::empty()
        }) + (if tools {
            seq![TOOLING@]
        } else {
            Seq::empty()
        }));
    }
    r
}

/// Why a document cannot be asked about: no page of it has any text.
pub fn check_text(title: &str, pages: &Vec<String>) -> (r: Option<String>)
    ensures
        match r {
            Some(why) => (forall|i: int| 0 <= i < pages@.len() ==> blank((#[trigger] pages@[i])@))
                && why@ == "No text could be read from \u{201c}"@ + title@
                + "\u{201d}. Scanned pages have to be recognized before the chat can quote them."@,
            None => exists|i: int| 0 <= i < pages@.len() && !blank((#[trigger] pages@[i])@),
        },
{
    let mut i: usize = 0;
    while i < pages.len()
        invariant
            i <= pages@.len(),
            forall|j: int| 0 <= j < i ==> blank((#[trigger] pages@[j])@),
        decreases pages@.len() - i,
    {
        if !trim(pages[i].as_str()).as_str().is_empty() {
            proof {
                assert(!blank(pages@[i as int]@));
            }
            return None;
        }
        i += 1;
    }
    let mut why: String = "No text could be read from \u{201c}".to_owned();
    why.append(title);
    why.append(
        "\u{201d}. Scanned pages have to be recognized before the chat can quote them.",
    );
    Some(why)
}

/// The pages a reader is pointed to, counted from one.
pub fn cited(selected: &Vec<usize>) -> (r: Vec<usize>)
    requires
        forall|i: int| 0 <= i < selected@.len() ==> #[trigger] selected@[i] < usize::MAX,
    ensures
        r@.len() == selected@.len(),
        forall|i: int| 0 <= i < r@.len() ==> #[trigger] r@[i] == selected@[i] + 1,
{
    let mut r: Vec<usize> = Vec::new();
    let mut i: usize = 0;
    while i < selected.len()
        invariant
            i <= selected@.len(),
            forall|i: int| 0 <= i < selected@.len() ==> #[trigger] selected@[i] < usize::MAX,
            r@.len() == i,
            forall|j: int| 0 <= j < i ==> #[trigger] r@[j] == selected@[j] + 1,
        decreases selected@.len() - i,
    {
        r.push(selected[i] + 1);
        i += 1;
    }
    r
}

pub struct ChatLog {
    pub messages: Vec<ChatMessage>,
}

impl Default for ChatLog {
    fn default() -> (r: Self)
        ensures
            r.messages@.len() == 0,
    {
        ChatLog { messages: Vec::new() }
    }
}

/// A transcript longer than evo keeps is refused.
pub fn check_chatlog(body: &ChatLog) -> (r: Option<Refusal>)
    ensures
        match r {
            Some(refusal) => body.messages@.len() > MAX_TRANSCRIPT && refusal@ == (RefusalV {
                status: 413,
                message: TOO_LONG@,
            }),
            None => body.messages@.len() <= MAX_TRANSCRIPT,
        },
{
    if body.messages.len() > MAX_TRANSCRIPT {
        Some(Refusal::new(413, TOO_LONG))
    } else {
        None
    }
}

} // verus!
