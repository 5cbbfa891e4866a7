//! Markup: the annotation layer, read as JSON and written back the same way,
//! and drawn as an overlay for the viewer.
//!
//! Two people can have this document open -- the phone and, later, an agent
//! acting on the phone's behalf -- so writes are conditional. A client says
//! which version it edited (`If-Match`) and a write against a version that has
//! moved on is refused with the current one, rather than quietly throwing
//! somebody's highlight away.

use vstd::prelude::*;

use crate::digest::{hex, hex_of, law_hex_loses_nothing, sha256, sha256_of};
use crate::doc::annotation::{AnnV, Annotation, AnnotationKind, KindV};
use crate::doc::store::views;
use crate::serve::auth::door::{Refusal, RefusalV};
use crate::serve::pages::{FROM_ONE, TOO_FEW_PAGES};
use crate::text::{pieces, same, split, texts, to_chars, trim, trimmed};

verus! {

/// The markup format this server writes. The desktop app's sidecars carry the
/// same number.
pub const VERSION: u32 = 2;

/// One page of a document as it is shown: which page it is, and how far it is
/// turned.
#[derive(Clone, Copy, PartialEq, Eq, Structural, Debug)]
pub struct PageSlot {
    pub page: usize,
    pub rotation: u16,
}

/// Page order and rotation.
#[derive(Debug)]
pub struct PageList {
    pub order: Vec<PageSlot>,
}

impl PageList {
    /// Every page once, in order, the way up it is.
    pub fn new(page_count: usize) -> (r: Self)
        ensures
            r.order@ == Seq::new(
                page_count as nat,
                |i: int| PageSlot { page: i as usize, rotation: 0 },
            ),
    {
        let mut order: Vec<PageSlot> = Vec::new();
        let mut i: usize = 0;
        while i < page_count
            invariant
                i <= page_count,
                order@ == Seq::new(
                    i as nat,
                    |i: int| PageSlot { page: i as usize, rotation: 0 },
                ),
            decreases page_count - i,
        {
            order.push(PageSlot { page: i, rotation: 0 });
            i += 1;
            proof {
                assert(order@ =~= Seq::new(
                    i as nat,
                    |i: int| PageSlot { page: i as usize, rotation: 0 },
                ));
            }
        }
        PageList { order }
    }
}

/// An annotation layer as it is kept beside its document.
#[derive(Debug)]
pub struct SavedMarkup {
    pub version: u32,
    pub annotations: Vec<Annotation>,
    pub pages: PageList,
}

/// An annotation layer as a mathematical value.
#[verifier::ext_equal]
pub struct MarkupV {
    pub version: u32,
    pub annotations: Seq<AnnV>,
    pub order: Seq<PageSlot>,
}

impl View for SavedMarkup {
    type V = MarkupV;

    open spec fn view(&self) -> MarkupV {
        MarkupV {
            version: self.version,
            annotations: views(self.annotations@),
            order: self.pages.order@,
        }
    }
}

/// Nothing drawn, and every page once, in order, the way up it is.
pub open spec fn nothing_drawn(page_count: usize) -> MarkupV {
    MarkupV {
        version: VERSION,
        annotations: Seq::empty(),
        order: Seq::new(
            page_count as nat,
            |i: int| PageSlot { page: i as usize, rotation: 0 },
        ),
    }
}

/// A document with no markup yet, so that "there is nothing here" and "there is
/// something here" are the same shape to a client.
pub fn empty_markup(page_count: usize) -> (r: SavedMarkup)
    ensures
        r@ == nothing_drawn(page_count),
{
    let r: SavedMarkup = SavedMarkup {
        version: VERSION,
        annotations: Vec::new(),
        pages: PageList::new(page_count),
    };
    proof {
        assert(r@.annotations =~= Seq::empty());
    }
    r
}

/// The markup of a document: what was saved of it, or the empty markup.
pub open spec fn markup_of(saved: Option<SavedMarkup>, page_count: usize) -> MarkupV {
    match saved {
        Some(markup) => markup@,
        None => nothing_drawn(page_count),
    }
}

/// The markup of a document: what was saved of it, or the empty markup.
pub fn current_markup(saved: Option<SavedMarkup>, page_count: usize) -> (r: SavedMarkup)
    ensures
        r@ == markup_of(saved, page_count),
        saved matches Some(markup) ==> r == markup,
{
    match saved {
        Some(markup) => markup,
        None => empty_markup(page_count),
    }
}

// ---------------------------------------------------------------------------
// Version tags
// ---------------------------------------------------------------------------

/// The version tag for a markup layer, from the bytes a GET would return.
pub open spec fn tag_of(bytes: Seq<u8>) -> Seq<char> {
    "\""@ + hex_of(sha256_of(bytes)) + "\""@
}

/// Whether `tag` is sixty-four lower-case hexadecimal digits in quotes.
pub open spec fn quoted_digest(tag: Seq<char>) -> bool {
    &&& tag.len() == 66
    &&& tag[0] == '"' && tag[65] == '"'
    &&& forall|i: int|
        1 <= i < 65 ==> ('0' <= #[trigger] tag[i] <= '9' || 'a' <= tag[i] <= 'f')
}

/// The version tag for a markup layer: the sha256 of exactly the bytes a GET
/// would return.
///
/// Deriving it from the content rather than from a counter means two servers,
/// or a server and a restart, agree about what a version is without keeping a
/// number anywhere.
pub fn etag(bytes: &Vec<u8>) -> (r: String)
    ensures
        r@ == tag_of(bytes@),
        quoted_digest(r@),
{
    let mut r: String = "\"".to_owned();
    let digest: Vec<u8> = sha256(bytes.as_slice());
    r.append(hex(&digest).as_str());
    r.append("\"");
    proof {
        reveal_strlit("\"");
        assert forall|i: int| 1 <= i < 65 implies ('0' <= #[trigger] r@[i] <= '9' || 'a' <= r@[i]
            <= 'f') by {
            assert(r@[i] == hex_of(digest@)[i - 1]);
        }
    }
    r
}

/// The tag for a document that may have no markup at all: no markup is the
/// empty markup.
pub fn etag_of(markup: Option<&Vec<u8>>, empty: &Vec<u8>) -> (r: String)
    ensures
        r@ == tag_of(
            match markup {
                Some(bytes) => bytes@,
                None => empty@,
            },
        ),
        quoted_digest(r@),
{
    match markup {
        Some(bytes) => etag(bytes),
        None => etag(empty),
    }
}

/// However markup is written down, a document that has none has the tag of the
/// empty markup, and one that has some has the tag of what was saved.
pub proof fn law_no_markup_is_the_empty_markup(
    written: spec_fn(MarkupV) -> Seq<u8>,
    saved: Option<SavedMarkup>,
    page_count: usize,
)
    ensures
        tag_of(written(markup_of(None, page_count))) == tag_of(written(nothing_drawn(page_count))),
        saved matches Some(markup) ==> tag_of(written(markup_of(saved, page_count))) == tag_of(
            written(markup@),
        ),
{
}

/// Two layers have one tag exactly where what is written of them has one
/// digest.
pub proof fn law_tags_tell_digests_apart(a: Seq<u8>, b: Seq<u8>)
    ensures
        tag_of(a) == tag_of(b) <==> sha256_of(a) == sha256_of(b),
{
    reveal_strlit("\"");
    if tag_of(a) == tag_of(b) {
        let (x, y) = (hex_of(sha256_of(a)), hex_of(sha256_of(b)));
        assert(x =~= tag_of(a).subrange(1, tag_of(a).len() - 1));
        assert(y =~= tag_of(b).subrange(1, tag_of(b).len() - 1));
        law_hex_loses_nothing(sha256_of(a), sha256_of(b));
    }
}

/// The empty markups of two documents are one markup exactly where the
/// documents have as many pages.
pub proof fn law_empty_markups_count_pages(a: usize, b: usize)
    ensures
        nothing_drawn(a) == nothing_drawn(b) <==> a == b,
{
    assert(nothing_drawn(a).order.len() == a);
    assert(nothing_drawn(b).order.len() == b);
}

/// However markup is written down, the empty markups of two documents with
/// different page counts share a tag only where the two are written alike, or
/// where two different writings share a digest.
pub proof fn law_empty_tags_count_pages(
    written: spec_fn(MarkupV) -> Seq<u8>,
    a: usize,
    b: usize,
)
    ensures
        a == b ==> tag_of(written(markup_of(None, a))) == tag_of(written(markup_of(None, b))),
        ({
            let (x, y) = (nothing_drawn(a), nothing_drawn(b));
            a != b && tag_of(written(markup_of(None, a))) == tag_of(written(markup_of(None, b)))
                ==> x != y && (written(x) == written(y) || (written(x) != written(y) && sha256_of(
                written(x),
            ) == sha256_of(written(y))))
        }),
{
    law_tags_tell_digests_apart(written(nothing_drawn(a)), written(nothing_drawn(b)));
    law_empty_markups_count_pages(a, b);
}

/// `s` without the `W/`s it begins with.
pub open spec fn strong(s: Seq<char>) -> Seq<char>
    decreases s.len(),
{
    if s.len() >= 2 && s[0] == 'W' && s[1] == '/' {
        strong(s.skip(2))
    } else {
        s
    }
}

/// `s` without the quotes it begins with.
pub open spec fn unquoted_start(s: Seq<char>) -> Seq<char>
    decreases s.len(),
{
    if s.len() > 0 && s[0] == '"' {
        unquoted_start(s.skip(1))
    } else {
        s
    }
}

/// A tag without what does not count: the space around it, the mark of a weak
/// one, and its quotes.
pub open spec fn bare(tag: Seq<char>) -> Seq<char> {
    crate::text::trim_end_of(unquoted_start(strong(trimmed(tag))), '"')
}

/// Whether an `If-Match` header names the version on disk. `*` means "whatever
/// is current".
pub open spec fn names_version(if_match: Seq<char>, current: Seq<char>) -> bool {
    trimmed(if_match) == "*"@ || exists|i: int|
        0 <= i < pieces(if_match, ","@).len() && bare(#[trigger] pieces(if_match, ","@)[i]) == bare(
            current,
        )
}

fn bare_of(tag: &str) -> (r: String)
    ensures
        r@ == bare(tag@),
{
    let t: String = trim(tag);
    let v: Vec<char> = to_chars(t.as_str());
    let mut from: usize = 0;
    proof {
        assert(v@.skip(0) =~= v@);
    }
    while from < v.len() && v.len() - from >= 2 && v[from] == 'W' && v[from + 1] == '/'
        invariant
            from <= v@.len(),
            v@ == trimmed(tag@),
            strong(v@) == strong(v@.skip(from as int)),
        decreases v@.len() - from,
    {
        proof {
            assert(v@.skip(from as int).skip(2) =~= v@.skip(from + 2));
        }
        from += 2;
    }
    let ghost s = v@.skip(from as int);
    proof {
        assert(strong(s) == s);
    }
    while from < v.len() && v[from] == '"'
        invariant
            from <= v@.len(),
            unquoted_start(s) == unquoted_start(v@.skip(from as int)),
        decreases v@.len() - from,
    {
        proof {
            assert(v@.skip(from as int).skip(1) =~= v@.skip(from + 1));
        }
        from += 1;
    }
    proof {
        assert(v@.subrange(from as int, v@.len() as int) =~= v@.skip(from as int));
    }
    let all: usize = v.len();
    crate::text::trim_tail_of(crate::text::from_chars(&v, from, all).as_str(), '"')
}

/// Does the `If-Match` header the client sent name the version on disk?
///
/// Quotes are optional here because hand-written requests and curl leave them
/// off more often than not.
pub fn matches(if_match: &str, current: &str) -> (r: bool)
    ensures
        r == names_version(if_match@, current@),
{
    if same(trim(if_match).as_str(), "*") {
        return true;
    }
    let wanted: String = bare_of(current);
    proof {
        reveal_strlit(",");
    }
    let tags: Vec<String> = split(if_match, ",");
    let ghost all = pieces(if_match@, ","@);
    let mut i: usize = 0;
    while i < tags.len()
        invariant
            i <= tags@.len(),
            all == texts(tags@),
            all == pieces(if_match@, ","@),
            wanted@ == bare(current@),
            forall|j: int| 0 <= j < i ==> bare(#[trigger] all[j]) != bare(current@),
        decreases tags@.len() - i,
    {
        proof {
            assert(all[i as int] == tags@[i as int]@);
        }
        if same(bare_of(tags[i].as_str()).as_str(), wanted.as_str()) {
            proof {
                assert(bare(pieces(if_match@, ","@)[i as int]) == bare(current@));
            }
            return true;
        }
        i += 1;
    }
    false
}

/// The tag that came with a GET is one a PUT may quote back.
pub proof fn law_a_tag_names_itself(tag: Seq<char>)
    requires
        forall|i: int| 0 <= i < tag.len() ==> #[trigger] tag[i] != ',',
    ensures
        names_version(tag, tag),
{
    reveal_strlit(",");
    lemma_no_comma(tag, 0);
    assert(pieces(tag, ","@)[0] == tag);
}

proof fn lemma_no_comma(s: Seq<char>, from: int)
    requires
        0 <= from <= s.len(),
        forall|i: int| 0 <= i < s.len() ==> #[trigger] s[i] != ',',
    ensures
        crate::text::find_from(s, ","@, from) is None,
    decreases s.len() + 1 - from,
{
    reveal_strlit(",");
    if from < s.len() {
        lemma_no_comma(s, from + 1);
        if crate::text::stands_at(s, ","@, from) {
            assert(s.subrange(from, from + 1)[0] == ","@[0]);
        }
    } else {
        assert(!crate::text::stands_at(s, ","@, from));
    }
}

// ---------------------------------------------------------------------------
// Writing
// ---------------------------------------------------------------------------

/// What a client may send. Everything but the annotations is optional: a
/// viewer that only draws highlights should not have to understand -- or be
/// able to destroy -- the page order.
#[derive(Debug)]
pub struct MarkupBody {
    pub version: Option<u32>,
    pub annotations: Vec<Annotation>,
    /// Page order and rotation. Absent means "leave what is there".
    pub pages: Option<PageList>,
}

/// Whether the first format can describe this shape.
pub open spec fn first_format(k: KindV) -> bool {
    !(k is Polygon || k is PolyLine || k is Stamp || k is ImageStamp)
}

/// Whether a body says it is in a format that cannot describe what is in it.
pub open spec fn muddled(version: Option<u32>, annotations: Seq<AnnV>) -> bool {
    version is Some && version->0 < VERSION && exists|i: int|
        0 <= i < annotations.len() && !first_format((#[trigger] annotations[i]).kind)
}

pub const NEEDS_VERSION: &'static str =
    "Saving markup needs an If-Match header naming the version you edited. GET the markup first and quote its ETag.";

pub const CHANGED: &'static str =
    "Somebody else changed this markup while you were editing it.";

pub const MUDDLED: &'static str =
    "Polygons, polylines and stamps need format 2. Send `\"version\": 2` with them.";

fn is_muddled(body: &MarkupBody) -> (r: bool)
    ensures
        r == muddled(body.version, views(body.annotations@)),
{
    let old: bool = match body.version {
        Some(v) => v < VERSION,
        None => false,
    };
    if !old {
        return false;
    }
    let ghost all = views(body.annotations@);
    let mut i: usize = 0;
    while i < body.annotations.len()
        invariant
            i <= body.annotations@.len(),
            all == views(body.annotations@),
            body.version is Some && body.version->0 < VERSION,
            forall|j: int| 0 <= j < i ==> first_format((#[trigger] all[j]).kind),
        decreases body.annotations@.len() - i,
    {
        proof {
            assert(all[i as int] == body.annotations@[i as int]@);
        }
        let new: bool = match &body.annotations[i].kind {
            AnnotationKind::Polygon { .. } => true,
            AnnotationKind::PolyLine { .. } => true,
            AnnotationKind::Stamp { .. } => true,
            AnnotationKind::ImageStamp { .. } => true,
            _ => false,
        };
        if new {
            proof {
                assert(!first_format(all[i as int].kind));
            }
            return true;
        }
        i += 1;
    }
    false
}

/// What comes of a write.
pub enum PutOutcome {
    /// Nothing is written.
    Refused(Refusal),
    /// Nothing is written: the current layer goes back with the refusal so the
    /// client can re-apply its edit without a second round trip.
    Conflict(SavedMarkup),
    /// This is written.
    Save(SavedMarkup),
}

/// `PUT /api/docs/{id}/markup` -- replace the annotation layer, if it is still
/// the one the client edited.
pub fn put_markup(if_match: Option<&str>, current: SavedMarkup, tag: &str, body: MarkupBody) -> (r:
    PutOutcome)
    ensures
        match if_match {
            None => r matches PutOutcome::Refused(refusal) && refusal@ == (RefusalV {
                status: 412,
                message: NEEDS_VERSION@,
            }),
            Some(wanted) => if !names_version(wanted@, tag@) {
                r matches PutOutcome::Conflict(back) && back == current
            } else if muddled(body.version, views(body.annotations@)) {
                r matches PutOutcome::Refused(refusal) && refusal@ == (RefusalV {
                    status: 400,
                    message: MUDDLED@,
                })
            } else {
                r matches PutOutcome::Save(saved) && saved.version == VERSION && saved.annotations
                    == body.annotations && saved.pages == (match body.pages {
                    Some(pages) => pages,
                    None => current.pages,
                })
            },
        },
{
    let wanted: &str = match if_match {
        Some(wanted) => wanted,
        // 428 would be the precise code, but 412 is what a conditional-write
        // client already handles, and the sentence says the rest.
        None => {
            return PutOutcome::Refused(Refusal::new(412, NEEDS_VERSION));
        },
    };
    if !matches(wanted, tag) {
        return PutOutcome::Conflict(current);
    }
    if is_muddled(&body) {
        return PutOutcome::Refused(Refusal::new(400, MUDDLED));
    }
    PutOutcome::Save(
        SavedMarkup {
            version: VERSION,
            annotations: body.annotations,
            // A client that did not mention the page order does not get to
            // change it. This is the difference between a phone drawing a
            // highlight and a phone silently un-rotating a page.
            pages: match body.pages {
                Some(pages) => pages,
                None => current.pages,
            },
        },
    )
}

// ---------------------------------------------------------------------------
// The overlay
// ---------------------------------------------------------------------------

#[derive(Debug)]
pub struct OverlayQuery {
    /// Which page, 1-based. The overlay is per page because it is drawn over
    /// one page image.
    pub page: Option<usize>,
}

impl Default for OverlayQuery {
    fn default() -> (r: Self)
        ensures
            r.page is None,
    {
        OverlayQuery { page: None }
    }
}

/// Which page of a document with so many an overlay is asked for, counted from
/// none.
pub fn overlay_page(query: &OverlayQuery, pages: usize) -> (r: Result<usize, Refusal>)
    ensures
        ({
            let page = match query.page {
                Some(p) => p as int,
                None => 1,
            };
            match r {
                Ok(i) => 1 <= page <= pages && i == page - 1,
                Err(refusal) => if page == 0 {
                    refusal@ == (RefusalV { status: 400, message: FROM_ONE@ })
                } else {
                    page > pages && refusal@ == (RefusalV { status: 404, message: TOO_FEW_PAGES@ })
                },
            }
        }),
{
    let page: usize = match query.page {
        Some(p) => p,
        None => 1,
    };
    if page == 0 {
        return Err(Refusal::new(400, FROM_ONE));
    }
    if page > pages {
        return Err(Refusal::new(404, TOO_FEW_PAGES));
    }
    Ok(page - 1)
}

/// The annotations on one page, in order.
pub open spec fn of_page(s: Seq<AnnV>, page: usize) -> Seq<AnnV>
    decreases s.len(),
{
    if s.len() == 0 {
        Seq::empty()
    } else if s.last().page == page {
        of_page(s.drop_last(), page).push(s.last())
    } else {
        of_page(s.drop_last(), page)
    }
}

/// The annotations on one page, in order. Annotations carry the index of the
/// page in the original document, which is what the page images are numbered by
/// too.
pub fn on_page(annotations: &Vec<Annotation>, page: usize) -> (r: Vec<Annotation>)
    ensures
        views(r@) == of_page(views(annotations@), page),
{
    let ghost all = views(annotations@);
    let mut r: Vec<Annotation> = Vec::new();
    let mut i: usize = 0;
    proof {
        assert(all.take(0) =~= Seq::empty());
        assert(views(r@) =~= Seq::empty());
    }
    while i < annotations.len()
        invariant
            i <= annotations@.len(),
            all == views(annotations@),
            views(r@) == of_page(all.take(i as int), page),
        decreases annotations@.len() - i,
    {
        proof {
            assert(all.take(i + 1).drop_last() =~= all.take(i as int));
            assert(all.take(i + 1).last() == annotations@[i as int]@);
        }
        if annotations[i].page == page {
            let a: Annotation = annotations[i].clone();
            proof {
                assert(views(r@.push(a)) =~= views(r@).push(a@));
            }
            r.push(a);
        }
        i += 1;
    }
    proof {
        assert(all.take(i as int) =~= all);
    }
    r
}

} // verus!
