//! Page images: one PNG per page per scale, rendered once and then kept.
//!
//! A phone should not wait for a rasterizer twice for the same page, and it
//! never has to: document ids are content hashes, so a rendering of page two of
//! those exact bytes is the same for ever. That is what lets the answer be
//! `Cache-Control: immutable` and what lets the file be written once and read a
//! hundred times.

use vstd::prelude::*;

use crate::render::engine::{join, joined, Engine};
use crate::serve::auth::door::{Refusal, RefusalV};
use crate::serve::library_api::{check_id, doc_id, lower_hex, NOT_AN_ID};
use crate::text::{
    all_digits, decimal, decimal_of, ends, ends_with, from_chars, is_digit, law_decimal_round_trip,
    parse_uint, parsed, to_chars,
};

verus! {

/// How wide a library thumbnail is drawn, in pixels. The same 320 the desktop
/// app uses, so the two libraries look alike.
pub const THUMB_WIDTH: u32 = 320;

/// The scales the viewer may ask for: one CSS pixel per point, and the two
/// steps a retina screen or a pinch needs. Three buckets rather than a
/// continuum because every distinct scale is another file on disk.
pub open spec fn scale_on_offer(scale: u32) -> bool {
    1 <= scale <= 3
}

/// `<library>/pagecache/<id>` -- everything rendered from one document.
pub open spec fn cached_under(root: Seq<char>, id: Seq<char>) -> Seq<char> {
    joined(joined(root, "pagecache"@), id)
}

pub fn cache_dir(root: &str, id: &str) -> (r: String)
    ensures
        r@ == cached_under(root@, id@),
{
    join(join(root, "pagecache").as_str(), id)
}

/// The rendered page. `page` is 1-based, as it is in the URL, so what is in
/// the cache directory reads the way the request did.
pub fn cache_path(root: &str, id: &str, page: usize, scale: u32) -> (r: String)
    ensures
        r@ == joined(
            cached_under(root@, id@),
            decimal(page as nat) + "-"@ + decimal(scale as nat) + ".png"@,
        ),
{
    let mut name: String = decimal_of(page as u64);
    name.append("-");
    name.append(decimal_of(scale as u64).as_str());
    name.append(".png");
    join(cache_dir(root, id).as_str(), name.as_str())
}

/// Where a rendered page is kept that is named for the engine that drew it.
pub open spec fn cached_page(
    root: Seq<char>,
    id: Seq<char>,
    page: usize,
    scale: u32,
    engine: Engine,
) -> Seq<char> {
    joined(
        cached_under(root, id),
        decimal(page as nat) + "-"@ + decimal(scale as nat) + "-"@ + engine.mark() + ".png"@,
    )
}

/// The rendered page, named for the engine that drew it, so a server whose
/// configuration changes engines never serves the other one's pixels.
pub fn engine_cache_path(root: &str, id: &str, page: usize, scale: u32, engine: Engine) -> (r:
    String)
    ensures
        r@ == cached_page(root@, id@, page, scale, engine),
{
    let mut name: String = decimal_of(page as u64);
    name.append("-");
    name.append(decimal_of(scale as u64).as_str());
    name.append("-");
    name.append(engine.tag());
    name.append(".png");
    join(cache_dir(root, id).as_str(), name.as_str())
}

/// Two texts that start with digits and go on with something else are the same
/// only where the digits are.
proof fn lemma_same_digits(a: Seq<char>, x: Seq<char>, b: Seq<char>, y: Seq<char>)
    requires
        all_digits(a),
        all_digits(b),
        x.len() > 0 && !is_digit(x[0]),
        y.len() > 0 && !is_digit(y[0]),
        a + x == b + y,
    ensures
        a == b,
        x == y,
{
    let (s, t) = (a + x, b + y);
    assert(s[a.len() as int] == x[0]);
    assert(t[b.len() as int] == y[0]);
    if a.len() < b.len() {
        assert(t[a.len() as int] == b[a.len() as int]);
    }
    if b.len() < a.len() {
        assert(s[b.len() as int] == a[b.len() as int]);
    }
    assert(a =~= s.take(a.len() as int));
    assert(b =~= t.take(b.len() as int));
    assert(x =~= s.skip(a.len() as int));
    assert(y =~= t.skip(b.len() as int));
}

/// What stands where in the name of a cached picture.
proof fn lemma_cached_page(root: Seq<char>, id: Seq<char>, page: usize, scale: u32, engine: Engine)
    requires
        doc_id(id),
    ensures
        cached_page(root, id, page, scale, engine) == joined(root, "pagecache"@) + "/"@ + id + "/"@
            + (decimal(page as nat) + ("-"@ + (decimal(scale as nat) + ("-"@ + (engine.mark()
            + ".png"@))))),
{
    reveal_strlit("/");
    reveal_strlit("pagecache");
    let folder = joined(root, "pagecache"@);
    assert(folder.last() == 'e');
    assert(lower_hex(id[0]) && lower_hex(id[63]));
    let under = cached_under(root, id);
    assert(under == folder + "/"@ + id);
    assert(under.last() == id[63]);
    let (p, m) = (decimal(page as nat), decimal(scale as nat));
    law_decimal_round_trip(page as nat, usize::MAX as nat);
    let name = p + "-"@ + m + "-"@ + engine.mark() + ".png"@;
    assert(name[0] == p[0] && is_digit(p[0]));
    assert(name =~= p + ("-"@ + (m + ("-"@ + (engine.mark() + ".png"@)))));
}

/// A cached picture is of one page of one document, at one scale, drawn by one
/// engine: nothing else is ever kept under the same name.
pub proof fn law_a_cached_page_is_no_other(
    root: Seq<char>,
    id: Seq<char>,
    page: usize,
    scale: u32,
    engine: Engine,
    other_id: Seq<char>,
    other_page: usize,
    other_scale: u32,
    other_engine: Engine,
)
    requires
        doc_id(id),
        doc_id(other_id),
        cached_page(root, id, page, scale, engine) == cached_page(
            root,
            other_id,
            other_page,
            other_scale,
            other_engine,
        ),
    ensures
        id == other_id,
        page == other_page,
        scale == other_scale,
        engine == other_engine,
{
    reveal_strlit("/");
    reveal_strlit("-");
    reveal_strlit(".png");
    reveal_strlit("hayro");
    reveal_strlit("pdfium");
    let head = joined(root, "pagecache"@) + "/"@;
    let (p, q) = (decimal(page as nat), decimal(other_page as nat));
    let (m, n) = (decimal(scale as nat), decimal(other_scale as nat));
    let (x, y) = (engine.mark() + ".png"@, other_engine.mark() + ".png"@);
    let one = cached_page(root, id, page, scale, engine);
    let two = cached_page(root, other_id, other_page, other_scale, other_engine);
    law_decimal_round_trip(page as nat, usize::MAX as nat);
    law_decimal_round_trip(other_page as nat, usize::MAX as nat);
    law_decimal_round_trip(scale as nat, u32::MAX as nat);
    law_decimal_round_trip(other_scale as nat, u32::MAX as nat);
    let k = head.len() as int;
    lemma_cached_page(root, id, page, scale, engine);
    lemma_cached_page(root, other_id, other_page, other_scale, other_engine);
    assert(id =~= one.subrange(k, k + 64));
    assert(other_id =~= two.subrange(k, k + 64));
    assert(p + ("-"@ + (m + ("-"@ + x))) =~= one.skip(k + 65));
    assert(q + ("-"@ + (n + ("-"@ + y))) =~= two.skip(k + 65));
    lemma_same_digits(p, "-"@ + (m + ("-"@ + x)), q, "-"@ + (n + ("-"@ + y)));
    assert(m + ("-"@ + x) =~= ("-"@ + (m + ("-"@ + x))).skip(1));
    assert(n + ("-"@ + y) =~= ("-"@ + (n + ("-"@ + y))).skip(1));
    lemma_same_digits(m, "-"@ + x, n, "-"@ + y);
    assert(("-"@ + x)[1] == x[0] && ("-"@ + y)[1] == y[0]);
    assert(x[0] == engine.mark()[0] && y[0] == other_engine.mark()[0]);
}

#[derive(Debug)]
pub struct PageQuery {
    /// 1, 2 or 3 device pixels per CSS pixel.
    pub scale: Option<u32>,
}

impl Default for PageQuery {
    fn default() -> (r: Self)
        ensures
            r.scale is None,
    {
        PageQuery { scale: None }
    }
}

pub const NOT_A_PNG: &'static str = "Page images are addressed as `<page>.png`.";

pub const NOT_A_NUMBER: &'static str = "That is not a page number.";

pub const FROM_ONE: &'static str = "Pages are numbered from 1.";

pub const NO_SUCH_SCALE: &'static str = "Pages are rendered at scale 1, 2 or 3.";

pub const TOO_FEW_PAGES: &'static str = "That document does not have that many pages.";

/// What stands before `.png` in the last segment of the address.
pub open spec fn number_part(file: Seq<char>) -> Seq<char> {
    file.take(file.len() - 4)
}

/// Which page at which scale a request is for, or how it is refused.
pub open spec fn page_asked(id: Seq<char>, file: Seq<char>, scale: Option<u32>) -> Result<
    (usize, u32),
    RefusalV,
> {
    let scale = match scale {
        Some(s) => s,
        None => 1u32,
    };
    if !doc_id(id) {
        Err(RefusalV { status: 400, message: NOT_AN_ID@ })
    } else if !ends(file, ".png"@) {
        Err(RefusalV { status: 404, message: NOT_A_PNG@ })
    } else {
        match parsed(number_part(file), usize::MAX as nat) {
            None => Err(RefusalV { status: 400, message: NOT_A_NUMBER@ }),
            Some(page) => if page == 0 {
                Err(RefusalV { status: 400, message: FROM_ONE@ })
            } else if !scale_on_offer(scale) {
                Err(RefusalV { status: 400, message: NO_SUCH_SCALE@ })
            } else {
                Ok((page as usize, scale))
            },
        }
    }
}

/// `GET /api/docs/{id}/page/{n}.png?scale=2`: which page at which scale.
///
/// The `.png` is part of the captured segment rather than the route, because
/// the router matches whole segments only. It is required all the same: the
/// URL a service worker caches should say what it is.
pub fn page_request(id: &str, file: &str, query: &PageQuery) -> (r: Result<(usize, u32), Refusal>)
    ensures
        match r {
            Ok(asked) => page_asked(id@, file@, query.scale) == Ok::<(usize, u32), RefusalV>(asked),
            Err(refusal) => page_asked(id@, file@, query.scale) == Err::<(usize, u32), RefusalV>(
                refusal@,
            ),
        },
{
    if let Some(refusal) = check_id(id) {
        return Err(refusal);
    }
    if !ends_with(file, ".png") {
        return Err(Refusal::new(404, NOT_A_PNG));
    }
    let v: Vec<char> = to_chars(file);
    proof {
        reveal_strlit(".png");
        assert(v@.len() >= 4);
        assert(v@.subrange(0, v@.len() - 4) =~= number_part(file@));
    }
    let number: String = from_chars(&v, 0, v.len() - 4);
    let page: u64 = match parse_uint(number.as_str(), usize::MAX as u64) {
        Some(page) => page,
        None => {
            return Err(Refusal::new(400, NOT_A_NUMBER));
        },
    };
    if page == 0 {
        return Err(Refusal::new(400, FROM_ONE));
    }
    let scale: u32 = match query.scale {
        Some(s) => s,
        None => 1,
    };
    if scale < 1 || scale > 3 {
        return Err(Refusal::new(400, NO_SUCH_SCALE));
    }
    Ok((page as usize, scale))
}

/// The page count is checked before any work is done, so a request for page
/// 900 of a two-page document is a 404 rather than a render that fails.
pub fn page_in_document(page: usize, pages: usize) -> (r: Option<Refusal>)
    ensures
        match r {
            Some(refusal) => page > pages && refusal@ == (RefusalV {
                status: 404,
                message: TOO_FEW_PAGES@,
            }),
            None => page <= pages,
        },
{
    if page > pages {
        Some(Refusal::new(404, TOO_FEW_PAGES))
    } else {
        None
    }
}

} // verus!
