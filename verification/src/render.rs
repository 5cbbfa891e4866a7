//! Background page rasterization: which requests are worth drawing, and what
//! is kept of what was drawn.
//!
//! A scale is a whole number of thousandths of a framebuffer pixel per PDF
//! point.
pub mod cache;
pub mod engine;
pub mod laws;
pub mod pdfium_fetch;

use vstd::prelude::*;

use crate::render::engine::{Engine, RenderedPage};

verus! {

/// Scale the page rail renders at. Lives here rather than in the UI because
/// the worker has to tell rail requests apart from canvas ones.
pub const THUMB_SCALE: u32 = 220;

/// The bucket a raw scale falls in: the next quarter up, between a quarter and
/// eight.
pub open spec fn bucket_of(scale: u32) -> u32 {
    let quarter = (scale + 249) / 250 * 250;
    if quarter < 250 {
        250
    } else if quarter > 8000 {
        8000
    } else {
        quarter as u32
    }
}

/// Quantize a raw scale (framebuffer pixels per PDF point) into a bucket so
/// the texture cache gets reusable keys while zooming.
pub fn scale_bucket(scale: u32) -> (r: u32)
    ensures
        r == bucket_of(scale),
{
    let quarter: u64 = (scale as u64 + 249) / 250 * 250;
    if quarter < 250 {
        250
    } else if quarter > 8000 {
        8000
    } else {
        quarter as u32
    }
}

/// The key of a scale: hundredths, rounded.
pub open spec fn key_of(scale: u32) -> u32 {
    ((scale + 5) / 10) as u32
}

/// Cache/request key for a bucketed scale.
pub fn scale_key(scale: u32) -> (r: u32)
    ensures
        r == key_of(scale),
{
    ((scale as u64 + 5) / 10) as u32
}

/// A bucket is never smaller than the scale that fell in it, up to the largest,
/// and falls in itself.
pub proof fn law_bucket(scale: u32)
    ensures
        scale <= 8000 ==> bucket_of(scale) >= scale,
        bucket_of(bucket_of(scale)) == bucket_of(scale),
        250 <= bucket_of(scale) <= 8000,
{
    let q = (scale + 249) / 250;
    let b = bucket_of(scale) as int;
    assert(b % 250 == 0);
    assert((b + 249) / 250 * 250 == b);
}

#[derive(Clone, Copy, PartialEq, Eq, Structural, Debug)]
pub struct RenderRequest {
    /// Original-document page index.
    pub page: usize,
    /// Framebuffer pixels per PDF point (already bucketed), in thousandths.
    pub scale: u32,
}

impl RenderRequest {
    /// Rail thumbnails and canvas pages are separate classes of work: they go
    /// to separate caches and are wanted at the same time.
    pub fn is_thumb(&self) -> (r: bool)
        ensures
            r == (self.scale == THUMB_SCALE),
    {
        self.scale == THUMB_SCALE
    }
}

/// Whether two requests are for the same page at the same class of scale.
pub open spec fn alike(a: RenderRequest, b: RenderRequest) -> bool {
    a.page == b.page && (a.scale == THUMB_SCALE) == (b.scale == THUMB_SCALE)
}

/// The requests of `s` that are, or are not, like `r`, in order.
pub open spec fn like(s: Seq<RenderRequest>, r: RenderRequest, wanted: bool) -> Seq<RenderRequest>
    decreases s.len(),
{
    if s.len() == 0 {
        Seq::empty()
    } else if alike(s.last(), r) == wanted {
        like(s.drop_last(), r, wanted).push(s.last())
    } else {
        like(s.drop_last(), r, wanted)
    }
}

/// Add `req` to a pending batch, dropping any request it supersedes: the same
/// page, at the same class of scale. Dropped requests are returned so the
/// worker can report them.
///
/// Coalescing across classes would let a rail thumbnail cancel a full-quality
/// canvas render of the same page (they share one queue), which is how pages
/// used to get stuck blurry.
pub fn coalesce(batch: &mut Vec<RenderRequest>, req: RenderRequest) -> (dropped: Vec<RenderRequest>)
    ensures
        final(batch)@ == like(old(batch)@, req, false).push(req),
        dropped@ == like(old(batch)@, req, true),
{
    let ghost s = batch@;
    let mut kept: Vec<RenderRequest> = Vec::new();
    let mut dropped: Vec<RenderRequest> = Vec::new();
    let mut i: usize = 0;
    proof {
        assert(s.take(0) =~= Seq::empty());
    }
    while i < batch.len()
        invariant
            i <= batch@.len(),
            batch@ == s,
            kept@ == like(s.take(i as int), req, false),
            dropped@ == like(s.take(i as int), req, true),
        decreases batch@.len() - i,
    {
        let r: RenderRequest = batch[i];
        proof {
            assert(s.take(i + 1).drop_last() =~= s.take(i as int));
        }
        if r.page == req.page && r.is_thumb() == req.is_thumb() {
            dropped.push(r);
        } else {
            kept.push(r);
        }
        i += 1;
    }
    proof {
        assert(s.take(i as int) =~= s);
    }
    kept.push(req);
    *batch = kept;
    dropped
}

/// What the worker makes of the requests that have come in: those to draw, in
/// order, and those to answer with nothing.
pub struct Round {
    pub batch: Vec<RenderRequest>,
    pub dropped: Vec<RenderRequest>,
}

/// What is drawn of the requests `s`, first to last.
pub open spec fn drawn_of(s: Seq<RenderRequest>) -> Seq<RenderRequest>
    decreases s.len(),
{
    if s.len() == 0 {
        Seq::empty()
    } else {
        like(drawn_of(s.drop_last()), s.last(), false).push(s.last())
    }
}

/// What is dropped of the requests `s`, in the order it is dropped.
pub open spec fn dropped_of(s: Seq<RenderRequest>) -> Seq<RenderRequest>
    decreases s.len(),
{
    if s.len() == 0 {
        Seq::empty()
    } else {
        dropped_of(s.drop_last()) + like(drawn_of(s.drop_last()), s.last(), true)
    }
}

/// Take everything that has come in, oldest first, keeping only the newest
/// request per page and class so a fast zoom doesn't build a backlog of stale
/// renders.
pub fn drain(queue: &Vec<RenderRequest>) -> (r: Round)
    ensures
        r.batch@ == drawn_of(queue@),
        r.dropped@ == dropped_of(queue@),
{
    let mut batch: Vec<RenderRequest> = Vec::new();
    let mut dropped: Vec<RenderRequest> = Vec::new();
    let mut i: usize = 0;
    proof {
        assert(queue@.take(0) =~= Seq::empty());
    }
    while i < queue.len()
        invariant
            i <= queue@.len(),
            batch@ == drawn_of(queue@.take(i as int)),
            dropped@ == dropped_of(queue@.take(i as int)),
        decreases queue@.len() - i,
    {
        proof {
            assert(queue@.take(i + 1).drop_last() =~= queue@.take(i as int));
        }
        let mut superseded: Vec<RenderRequest> = coalesce(&mut batch, queue[i]);
        dropped.append(&mut superseded);
        i += 1;
    }
    proof {
        assert(queue@.take(i as int) =~= queue@);
    }
    Round { batch, dropped }
}

/// What a request is answered.
#[derive(Debug)]
pub struct RenderResponse {
    pub page: usize,
    pub scale: u32,
    /// `None` when the request was superseded before it ran, or its page could
    /// not be drawn. The worker always answers, so the cache can clear the
    /// pending flag either way.
    pub image: Option<RenderedPage>,
    /// Which rasterizer drew it.
    pub engine: Engine,
}

/// The answer to one request.
pub open spec fn answer_to(
    req: RenderRequest,
    image: Option<RenderedPage>,
    engine: Engine,
) -> RenderResponse {
    RenderResponse { page: req.page, scale: req.scale, image, engine }
}

/// The answers to a round of requests, in the order they are sent: nothing for
/// each that was dropped, and what came of drawing each of the others.
pub open spec fn answers_to(
    dropped: Seq<RenderRequest>,
    batch: Seq<RenderRequest>,
    drawn: Seq<Option<RenderedPage>>,
    engine: Engine,
) -> Seq<RenderResponse> {
    Seq::new(dropped.len(), |i: int| answer_to(dropped[i], None, engine)) + Seq::new(
        batch.len(),
        |i: int| answer_to(batch[i], drawn[i], engine),
    )
}

/// Answer a round of requests, given what came of drawing each of those that
/// were to be drawn.
///
/// The superseded ones come first, so that the cache stops waiting on them; an
/// unanswered request would pin its pending flag and the page would never be
/// asked for again.
pub fn respond(round: &Round, drawn: Vec<Option<RenderedPage>>, engine: Engine) -> (r: Vec<
    RenderResponse,
>)
    requires
        drawn@.len() == round.batch@.len(),
    ensures
        r@ == answers_to(round.dropped@, round.batch@, drawn@, engine),
{
    let ghost pictures = drawn@;
    let ghost all = answers_to(round.dropped@, round.batch@, pictures, engine);
    let mut drawn: Vec<Option<RenderedPage>> = drawn;
    let mut r: Vec<RenderResponse> = Vec::new();
    let mut i: usize = 0;
    while i < round.dropped.len()
        invariant
            i <= round.dropped@.len(),
            all == answers_to(round.dropped@, round.batch@, pictures, engine),
            r@ =~= all.take(i as int),
        decreases round.dropped@.len() - i,
    {
        let req: RenderRequest = round.dropped[i];
        r.push(RenderResponse { page: req.page, scale: req.scale, image: None, engine });
        i += 1;
    }
    let mut j: usize = 0;
    while j < round.batch.len()
        invariant
            i == round.dropped@.len(),
            j <= round.batch@.len(),
            pictures.len() == round.batch@.len(),
            drawn@ =~= pictures.skip(j as int),
            all == answers_to(round.dropped@, round.batch@, pictures, engine),
            r@ =~= all.take(i + j),
        decreases round.batch@.len() - j,
    {
        let req: RenderRequest = round.batch[j];
        let image: Option<RenderedPage> = drawn.remove(0);
        r.push(RenderResponse { page: req.page, scale: req.scale, image, engine });
        j += 1;
    }
    r
}

proof fn lemma_like(s: Seq<RenderRequest>, r: RenderRequest, wanted: bool)
    ensures
        forall|i: int|
            0 <= i < like(s, r, wanted).len() ==> s.contains(#[trigger] like(s, r, wanted)[i])
                && alike(like(s, r, wanted)[i], r) == wanted,
        like(s, r, true).len() + like(s, r, false).len() == s.len(),
        like(s, r, true).to_multiset().add(like(s, r, false).to_multiset()) == s.to_multiset(),
    decreases s.len(),
{
    broadcast use vstd::seq_lib::group_to_multiset_ensures;

    if s.len() > 0 {
        let t = s.drop_last();
        lemma_like(t, r, wanted);
        assert(t.push(s.last()) =~= s);
        assert forall|i: int| 0 <= i < like(s, r, wanted).len() implies s.contains(
            #[trigger] like(s, r, wanted)[i],
        ) && alike(like(s, r, wanted)[i], r) == wanted by {
            let c = like(t, r, wanted);
            if i < c.len() {
                assert(like(s, r, wanted)[i] == c[i]);
                let k = choose|k: int| 0 <= k < t.len() && t[k] == c[i];
                assert(s[k] == c[i]);
            } else {
                assert(s[s.len() - 1] == s.last());
            }
        }
        assert(like(s, r, true).to_multiset().add(like(s, r, false).to_multiset())
            =~= s.to_multiset());
    } else {
        assert(s =~= Seq::empty());
        assert(like(s, r, true).to_multiset().add(like(s, r, false).to_multiset())
            =~= s.to_multiset());
    }
}

/// Every request is either drawn or dropped, once.
proof fn lemma_drawn_or_dropped(s: Seq<RenderRequest>)
    ensures
        drawn_of(s).to_multiset().add(dropped_of(s).to_multiset()) == s.to_multiset(),
    decreases s.len(),
{
    broadcast use vstd::seq_lib::group_to_multiset_ensures;

    if s.len() > 0 {
        let t = s.drop_last();
        lemma_drawn_or_dropped(t);
        lemma_like(drawn_of(t), s.last(), true);
        assert(t.push(s.last()) =~= s);
        vstd::seq_lib::lemma_multiset_commutative(
            dropped_of(t),
            like(drawn_of(t), s.last(), true),
        );
        assert(drawn_of(s).to_multiset().add(dropped_of(s).to_multiset()) =~= s.to_multiset());
    } else {
        assert(s =~= Seq::empty());
        assert(drawn_of(s).to_multiset().add(dropped_of(s).to_multiset()) =~= s.to_multiset());
    }
}

/// What the answers are to.
pub open spec fn asked(s: Seq<RenderResponse>) -> Seq<RenderRequest> {
    s.map_values(|r: RenderResponse| RenderRequest { page: r.page, scale: r.scale })
}

/// Every request is answered exactly once, at its page and its scale: with a
/// picture, where it was drawn, and with none where it was superseded or could
/// not be drawn.
pub proof fn law_every_request_is_answered(
    s: Seq<RenderRequest>,
    drawn: Seq<Option<RenderedPage>>,
    engine: Engine,
)
    requires
        drawn.len() == drawn_of(s).len(),
    ensures
        ({
            let answers = answers_to(dropped_of(s), drawn_of(s), drawn, engine);
            &&& asked(answers).to_multiset() == s.to_multiset()
            &&& answers.len() == s.len()
            &&& forall|i: int|
                0 <= i < dropped_of(s).len() ==> (#[trigger] answers[i]).image is None
            &&& forall|i: int|
                0 <= i < drawn.len() ==> (#[trigger] answers[dropped_of(s).len() + i]).image
                    == drawn[i]
        }),
{
    broadcast use vstd::seq_lib::group_to_multiset_ensures;

    let answers = answers_to(dropped_of(s), drawn_of(s), drawn, engine);
    assert(asked(answers) =~= dropped_of(s) + drawn_of(s));
    lemma_drawn_or_dropped(s);
    vstd::seq_lib::lemma_multiset_commutative(dropped_of(s), drawn_of(s));
    assert(asked(answers).to_multiset() =~= s.to_multiset());
    assert(asked(answers).len() == asked(answers).to_multiset().len());
    assert(s.len() == s.to_multiset().len());
}

/// At most one request per page and class is drawn, so that a thumbnail never
/// cancels a page and a page never cancels a thumbnail; and the newest request
/// of all is always drawn.
pub proof fn law_one_per_page_and_class(s: Seq<RenderRequest>)
    ensures
        forall|i: int, j: int|
            0 <= i < j < drawn_of(s).len() ==> !alike(
                #[trigger] drawn_of(s)[i],
                #[trigger] drawn_of(s)[j],
            ),
        s.len() > 0 ==> drawn_of(s).len() > 0 && drawn_of(s).last() == s.last(),
        forall|i: int|
            0 <= i < dropped_of(s).len() ==> exists|j: int|
                0 <= j < drawn_of(s).len() && alike(
                    #[trigger] drawn_of(s)[j],
                    #[trigger] dropped_of(s)[i],
                ),
    decreases s.len(),
{
    if s.len() > 0 {
        let t = s.drop_last();
        let d = drawn_of(t);
        let r = s.last();
        law_one_per_page_and_class(t);
        lemma_like(d, r, false);
        lemma_like(d, r, true);
        lemma_like_spread(d, r);
        let kept = like(d, r, false);
        let now = drawn_of(s);
        assert forall|i: int, j: int| 0 <= i < j < now.len() implies !alike(
            #[trigger] now[i],
            #[trigger] now[j],
        ) by {
            assert(now[i] == kept[i]);
            if j < kept.len() {
                assert(now[j] == kept[j]);
            }
        }
        let all = dropped_of(s);
        let old = dropped_of(t);
        assert forall|i: int| 0 <= i < all.len() implies exists|j: int|
            0 <= j < now.len() && alike(#[trigger] now[j], #[trigger] all[i]) by {
            if i < old.len() {
                assert(all[i] == old[i]);
                let j = choose|j: int| 0 <= j < d.len() && alike(#[trigger] d[j], old[i]);
                if alike(d[j], r) {
                    assert(now[now.len() - 1] == r);
                    assert(alike(now[now.len() - 1], all[i]));
                } else {
                    lemma_like_has(d, r, j);
                    let k = choose|k: int| 0 <= k < kept.len() && kept[k] == d[j];
                    assert(now[k] == d[j]);
                    assert(alike(now[k], all[i]));
                }
            } else {
                let o = i - old.len();
                assert(all[i] == like(d, r, true)[o]);
                assert(now[now.len() - 1] == r);
                assert(alike(now[now.len() - 1], all[i]));
            }
        }
    }
}

proof fn lemma_like_has(s: Seq<RenderRequest>, r: RenderRequest, j: int)
    requires
        0 <= j < s.len(),
        !alike(s[j], r),
    ensures
        exists|k: int| 0 <= k < like(s, r, false).len() && like(s, r, false)[k] == s[j],
    decreases s.len(),
{
    let t = s.drop_last();
    if j < s.len() - 1 {
        lemma_like_has(t, r, j);
        let k = choose|k: int| 0 <= k < like(t, r, false).len() && like(t, r, false)[k] == t[j];
        assert(like(s, r, false)[k] == s[j]);
    } else {
        assert(like(s, r, false)[like(s, r, false).len() - 1] == s[j]);
    }
}

proof fn lemma_like_spread(s: Seq<RenderRequest>, r: RenderRequest)
    requires
        forall|i: int, j: int|
            0 <= i < j < s.len() ==> !alike(#[trigger] s[i], #[trigger] s[j]),
    ensures
        forall|i: int, j: int|
            0 <= i < j < like(s, r, false).len() ==> !alike(
                #[trigger] like(s, r, false)[i],
                #[trigger] like(s, r, false)[j],
            ),
    decreases s.len(),
{
    if s.len() > 0 {
        let t = s.drop_last();
        assert forall|i: int, j: int| 0 <= i < j < t.len() implies !alike(
            #[trigger] t[i],
            #[trigger] t[j],
        ) by {
            assert(t[i] == s[i] && t[j] == s[j]);
        }
        lemma_like_spread(t, r);
        lemma_like(t, r, false);
        let c = like(t, r, false);
        let n = like(s, r, false);
        assert forall|i: int, j: int| 0 <= i < j < n.len() implies !alike(
            #[trigger] n[i],
            #[trigger] n[j],
        ) by {
            assert(n[i] == c[i]);
            if j < c.len() {
                assert(n[j] == c[j]);
            } else {
                let k = choose|k: int| 0 <= k < t.len() && t[k] == c[i];
                assert(s[k] == c[i]);
                assert(s[s.len() - 1] == n[j]);
            }
        }
    }
}

} // verus!
