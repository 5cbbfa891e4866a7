//! The library over HTTP: what is in it, what one document is, and how a
//! document gets in or out.
//!
//! Document ids are checked before they are used, because an id becomes a path
//! (`pagecache/<id>/..`, `docs/<id>.pdf`) and a sha256 digest has exactly one
//! shape.

use vstd::prelude::*;

use crate::digest::{hex, hex_of, sha256, sha256_of};
use crate::json::{copy_number, maybe_text, values, whole, Json, JsonV};
use crate::render::engine::Opened;
use crate::script::model::{and, just, words, ModelConfig};
use crate::serve::auth::door::{said, Refusal, RefusalV};
use crate::serve::{BlobBackend, ServeConfig};
use crate::text::{ends, ends_with, from_chars, texts, to_chars, trim, trimmed};

verus! {

/// Everything an id addresses is immutable: the id *is* the bytes. So a page
/// image, once fetched, never has to be fetched again. `private` because the
/// document is somebody's, and a shared cache has no business keeping it.
pub const IMMUTABLE: &'static str = "private, max-age=31536000, immutable";

pub const NOT_AN_ID: &'static str =
    "A document id is 64 hexadecimal characters. That is not one.";

pub const NO_SUCH_DOCUMENT: &'static str =
    "evo has no document with that id. It may have been deleted.";

pub const NO_CONTENT: &'static str =
    "That upload had no content. Send the PDF as the body of the request.";

/// What a phone is told when it uploads a document it cannot unlock here.
///
/// The server has no way to ask for a password and nowhere safe to put one,
/// and the library only stores documents everything can read -- so the answer
/// is where to go instead, not a prompt.
pub const ENCRYPTED_UPLOAD: &'static str =
    "This PDF is password-protected. Open it in the desktop app and add it to the library there.";

/// What is said of an upload that is no document evo can read.
pub const UNREADABLE: &'static str = "evo could not read that PDF.";

/// One page's size, as the viewer needs it: the PNG and the SVG overlay have to
/// be laid out in the same box.
pub struct PageSize {
    pub width: serde_json::Number,
    pub height: serde_json::Number,
}

// ---------------------------------------------------------------------------
// Ids
// ---------------------------------------------------------------------------

/// A hexadecimal digit in lower case.
pub open spec fn lower_hex(c: char) -> bool {
    '0' <= c <= '9' || 'a' <= c <= 'f'
}

/// Whether this is the id of a document.
pub open spec fn doc_id(id: Seq<char>) -> bool {
    id.len() == 64 && forall|i: int| 0 <= i < id.len() ==> lower_hex(#[trigger] id[i])
}

/// Is this the id of a document, or is it something else pretending?
///
/// Every id evo issues is the sha256 of the document's bytes in lowercase hex.
/// Anything else -- `..`, an absolute path, a name with a slash in it -- is not
/// an id, and is stopped here rather than somewhere further down where it would
/// be a filename.
pub fn is_doc_id(id: &str) -> (r: bool)
    ensures
        r == doc_id(id@),
{
    let v: Vec<char> = to_chars(id);
    if v.len() != 64 {
        return false;
    }
    let mut i: usize = 0;
    while i < v.len()
        invariant
            i <= v@.len(),
            v@ == id@,
            v@.len() == 64,
            forall|j: int| 0 <= j < i ==> lower_hex(#[trigger] id@[j]),
        decreases v@.len() - i,
    {
        let c: char = v[i];
        if !('0' <= c && c <= '9' || 'a' <= c && c <= 'f') {
            proof {
                assert(!lower_hex(id@[i as int]));
            }
            return false;
        }
        i += 1;
    }
    true
}

/// The id of a document: the digest of its bytes.
pub fn hex_digest(bytes: &Vec<u8>) -> (r: String)
    ensures
        r@ == hex_of(sha256_of(bytes@)),
        doc_id(r@),
{
    let r: String = hex(&sha256(bytes.as_slice()));
    proof {
        law_every_digest_is_an_id(sha256_of(bytes@));
    }
    r
}

/// The id evo gives a document is one it accepts.
pub proof fn law_every_digest_is_an_id(digest: Seq<u8>)
    requires
        digest.len() == 32,
    ensures
        doc_id(hex_of(digest)),
{
    let s = hex_of(digest);
    assert forall|i: int| 0 <= i < s.len() implies lower_hex(#[trigger] s[i]) by {
        let b = digest[i / 2] as int;
        assert(s[i] == crate::digest::hex_digit(
            if i % 2 == 0 {
                b / 16
            } else {
                b % 16
            },
        ));
    }
}

/// An id cannot climb out of the directory it names a file in: it has neither a
/// slash nor a dot.
pub proof fn law_an_id_stays_put(id: Seq<char>, i: int)
    requires
        doc_id(id),
        0 <= i < id.len(),
    ensures
        id[i] != '/' && id[i] != '.' && id[i] != '\\' && id[i] != '%',
{
    assert(lower_hex(id[i]));
}

/// The check every handler that takes an id starts with: how it is refused.
pub fn check_id(id: &str) -> (r: Option<Refusal>)
    ensures
        match r {
            Some(refusal) => !doc_id(id@) && refusal@ == (RefusalV {
                status: 400,
                message: NOT_AN_ID@,
            }),
            None => doc_id(id@),
        },
{
    if is_doc_id(id) {
        None
    } else {
        Some(Refusal::new(400, NOT_AN_ID))
    }
}

/// An error as the app reads it: a status and a sentence.
pub fn fail(status: u16, message: &str) -> (r: Refusal)
    ensures
        r@ == (RefusalV { status, message: message@ }),
{
    Refusal::new(status, message)
}

/// What to say when the id is well-formed but there is no such document.
pub fn no_such_document() -> (r: Refusal)
    ensures
        r@ == (RefusalV { status: 404, message: NO_SUCH_DOCUMENT@ }),
{
    fail(404, NO_SUCH_DOCUMENT)
}

// ---------------------------------------------------------------------------
// The documents
// ---------------------------------------------------------------------------

#[derive(Debug)]
pub struct ListQuery {
    /// A search. Absent means "everything".
    pub q: Option<String>,
}

impl Default for ListQuery {
    fn default() -> (r: Self)
        ensures
            r.q is None,
    {
        ListQuery { q: None }
    }
}

impl ListQuery {
    /// What to search for: nothing where the query is blank, which means
    /// everything.
    pub fn search(&self) -> (r: Option<String>)
        ensures
            match r {
                Some(q) => self.q is Some && q@ == trimmed(self.q->0@) && q@.len() > 0,
                None => self.q is None || trimmed(self.q->0@).len() == 0,
            },
    {
        match &self.q {
            Some(q) => {
                let q: String = trim(q.as_str());
                if q.as_str().is_empty() {
                    None
                } else {
                    Some(q)
                }
            },
            None => None,
        }
    }
}

/// A control character.
pub open spec fn control(c: char) -> bool {
    let n = c as int;
    n < 32 || 127 <= n < 160
}

/// The first `n` characters of `s` that are not control characters.
pub open spec fn printable(s: Seq<char>, n: int) -> Seq<char>
    decreases s.len(),
{
    if s.len() == 0 {
        Seq::empty()
    } else {
        let before = printable(s.drop_last(), n);
        if control(s.last()) || before.len() >= n {
            before
        } else {
            before.push(s.last())
        }
    }
}

/// What a header contributes to a document's name.
pub open spec fn name_from(raw: Option<Seq<char>>) -> Option<Seq<char>> {
    match raw {
        Some(s) => {
            let cleaned = trimmed(printable(s, 200));
            if cleaned.len() > 0 {
                Some(cleaned)
            } else {
                None
            }
        },
        None => None,
    }
}

fn is_control(c: char) -> (r: bool)
    ensures
        r == control(c),
{
    let n: u32 = c as u32;
    n < 32 || 127 <= n && n < 160
}

/// What a header may contribute to a document's name.
///
/// Titles arrive in headers because the body is the PDF itself. A header is
/// bytes from the network: control characters are dropped so nothing can be
/// smuggled into a later response, and the length is capped so a library card
/// stays a library card.
pub fn header_text(raw: Option<&str>) -> (r: Option<String>)
    ensures
        words(r) == name_from(said(raw)),
{
    let raw: &str = match raw {
        Some(raw) => raw,
        None => {
            return None;
        },
    };
    let v: Vec<char> = to_chars(raw);
    let mut kept: String = String::new();
    let mut n: usize = 0;
    let mut i: usize = 0;
    proof {
        assert(v@.take(0) =~= Seq::empty());
        assert(kept@ =~= Seq::empty());
    }
    while i < v.len()
        invariant
            i <= v@.len(),
            v@ == raw@,
            n == kept@.len(),
            n <= 200,
            kept@ == printable(v@.take(i as int), 200),
        decreases v@.len() - i,
    {
        proof {
            assert(v@.take(i + 1).drop_last() =~= v@.take(i as int));
        }
        if !is_control(v[i]) && n < 200 {
            kept.push(v[i]);
            n += 1;
        }
        i += 1;
    }
    proof {
        assert(v@.take(i as int) =~= v@);
    }
    let cleaned: String = trim(kept.as_str());
    if cleaned.as_str().is_empty() {
        None
    } else {
        Some(cleaned)
    }
}

/// The name and the title an uploaded document gets.
pub open spec fn named(filename: Option<Seq<char>>, title: Option<Seq<char>>) -> (
    Seq<char>,
    Seq<char>,
) {
    let name = match name_from(filename) {
        Some(n) => n,
        None => "document.pdf"@,
    };
    let titled = match name_from(title) {
        Some(t) => t,
        None => trimmed(
            if ends(name, ".pdf"@) {
                name.take(name.len() - 4)
            } else {
                name
            },
        ),
    };
    (
        name,
        if titled.len() == 0 {
            "Document"@
        } else {
            titled
        },
    )
}

/// What an upload is called: `(filename, title)`, from the headers it came
/// with.
pub fn upload_names(filename: Option<&str>, title: Option<&str>) -> (r: (String, String))
    ensures
        (r.0@, r.1@) == named(said(filename), said(title)),
        r.0@.len() > 0 && r.1@.len() > 0,
{
    proof {
        reveal_strlit("document.pdf");
        reveal_strlit("Document");
    }
    let name: String = match header_text(filename) {
        Some(n) => n,
        None => "document.pdf".to_owned(),
    };
    let titled: String = match header_text(title) {
        Some(t) => t,
        None => {
            if ends_with(name.as_str(), ".pdf") {
                let v: Vec<char> = to_chars(name.as_str());
                proof {
                    reveal_strlit(".pdf");
                    assert(v@.subrange(0, v@.len() - 4) =~= name@.take(name@.len() - 4));
                }
                trim(from_chars(&v, 0, v.len() - 4).as_str())
            } else {
                trim(name.as_str())
            }
        },
    };
    let titled: String = if titled.as_str().is_empty() {
        "Document".to_owned()
    } else {
        titled
    };
    (name, titled)
}

/// An upload with nothing in it is refused before anything is done with it.
pub fn check_upload(body: &Vec<u8>) -> (r: Option<Refusal>)
    ensures
        match r {
            Some(refusal) => body@.len() == 0 && refusal@ == (RefusalV {
                status: 400,
                message: NO_CONTENT@,
            }),
            None => body@.len() > 0,
        },
{
    if body.len() == 0 {
        Some(fail(400, NO_CONTENT))
    } else {
        None
    }
}

/// What the library knows of a document.
#[derive(Debug)]
pub struct DocMeta {
    pub id: String,
    pub title: String,
    pub original_filename: String,
    pub page_count: usize,
    pub file_size: u64,
    pub imported_at: u64,
    pub tags: Vec<String>,
    pub summary: Option<String>,
    pub index_error: Option<String>,
}

/// What an upload comes to: what it is answered, and the document to take in,
/// where there is one.
pub struct Upload {
    pub status: u16,
    pub body: Json,
    pub taken: Option<DocMeta>,
}

/// What is sent of a document that has been uploaded.
pub open spec fn upload_wire(
    id: Seq<char>,
    title: Seq<char>,
    pages: usize,
    duplicate: bool,
) -> JsonV {
    and(
        and(
            and(just("id"@, JsonV::Str(id)), "title"@, JsonV::Str(title)),
            "pages"@,
            JsonV::Number(whole(pages as u64)),
        ),
        "duplicate"@,
        JsonV::Bool(duplicate),
    )
}

/// Whether an upload is turned away, with nothing taken in.
pub open spec fn turned_away(r: Upload, status: u16, message: Seq<char>) -> bool {
    &&& r.status == status
    &&& r.body.view() == just("error"@, JsonV::Str(message))
    &&& r.taken is None
}

/// What an upload is answered, given what opening it came to and the document
/// of that id the library already has, where it has one.
///
/// The same bytes again are the same document, and evo says so rather than
/// growing a second copy. Unlocking a document is a decision, not a request
/// parameter: it trades the file's protection for a library copy anything can
/// read, and it belongs where somebody can be told that and say no.
pub fn upload(
    bytes: &Vec<u8>,
    filename: Option<&str>,
    title: Option<&str>,
    opened: &Opened,
    existing: Option<&DocMeta>,
    now: u64,
) -> (r: Upload)
    ensures
        if bytes@.len() == 0 {
            turned_away(r, 400, NO_CONTENT@)
        } else {
            match *opened {
                Opened::NeedsPassword => turned_away(r, 422, ENCRYPTED_UPLOAD@),
                Opened::Unreadable => turned_away(r, 500, UNREADABLE@),
                Opened::Pages(pages) => match existing {
                    Some(meta) => {
                        &&& r.status == 200
                        &&& r.body.view() == upload_wire(
                            meta.id@,
                            meta.title@,
                            meta.page_count,
                            true,
                        )
                        &&& r.taken is None
                    },
                    None => {
                        let id = hex_of(sha256_of(bytes@));
                        let (name, titled) = named(said(filename), said(title));
                        &&& r.status == 201
                        &&& r.body.view() == upload_wire(id, titled, pages, false)
                        &&& r.taken matches Some(meta) && {
                            &&& meta.id@ == id
                            &&& meta.title@ == titled
                            &&& meta.original_filename@ == name
                            &&& meta.page_count == pages
                            &&& meta.file_size == bytes@.len()
                            &&& meta.imported_at == now
                            &&& meta.tags@.len() == 0
                            &&& meta.summary is None
                            &&& meta.index_error is None
                        }
                    },
                },
            }
        },
{
    if let Some(refusal) = check_upload(bytes) {
        return refused_upload(&refusal);
    }
    match opened {
        Opened::NeedsPassword => refused_upload(&fail(422, ENCRYPTED_UPLOAD)),
        Opened::Unreadable => refused_upload(&fail(500, UNREADABLE)),
        Opened::Pages(pages) => match existing {
            Some(meta) => Upload { status: 200, body: uploaded(meta, true), taken: None },
            None => {
                let (original_filename, title) = upload_names(filename, title);
                let meta: DocMeta = DocMeta {
                    id: hex_digest(bytes),
                    title,
                    original_filename,
                    page_count: *pages,
                    file_size: bytes.len() as u64,
                    imported_at: now,
                    tags: Vec::new(),
                    summary: None,
                    index_error: None,
                };
                Upload { status: 201, body: uploaded(&meta, false), taken: Some(meta) }
            },
        },
    }
}

fn refused_upload(refusal: &Refusal) -> (r: Upload)
    ensures
        turned_away(r, refusal@.status, refusal@.message),
{
    Upload { status: refusal.status, body: refusal.body(), taken: None }
}

fn uploaded(meta: &DocMeta, existing: bool) -> (r: Json)
    ensures
        r.view() == upload_wire(meta.id@, meta.title@, meta.page_count, existing),
{
    Json::object().with("id", Json::string(meta.id.as_str())).with(
        "title",
        Json::string(meta.title.as_str()),
    ).with("pages", Json::number(meta.page_count as u64)).with("duplicate", Json::Bool(existing))
}

/// Texts as a list.
pub open spec fn text_list(s: Seq<Seq<char>>) -> JsonV {
    JsonV::Array(s.map_values(|t: Seq<char>| JsonV::Str(t)))
}

pub(crate) fn list_json(v: &Vec<String>) -> (r: Json)
    ensures
        r.view() == text_list(texts(v@)),
{
    let ghost all = texts(v@).map_values(|t: Seq<char>| JsonV::Str(t));
    let mut r: Vec<Json> = Vec::new();
    let mut i: usize = 0;
    while i < v.len()
        invariant
            i <= v@.len(),
            all == texts(v@).map_values(|t: Seq<char>| JsonV::Str(t)),
            values(r@) == all.take(i as int),
        decreases v@.len() - i,
    {
        let j: Json = Json::string(v[i].as_str());
        proof {
            assert(texts(v@)[i as int] == v@[i as int]@);
            assert(values(r@.push(j)) =~= values(r@).push(j.view()));
            assert(all.take(i + 1) =~= all.take(i as int).push(all[i as int]));
        }
        r.push(j);
        i += 1;
    }
    proof {
        assert(all.take(i as int) =~= all);
    }
    Json::array(r)
}

/// One document, and how far evo has got with reading it.
pub open spec fn document_wire(meta: DocMeta, indexed: bool) -> JsonV {
    let named = and(
        and(just("id"@, JsonV::Str(meta.id@)), "title"@, JsonV::Str(meta.title@)),
        "filename"@,
        JsonV::Str(meta.original_filename@),
    );
    let sized = and(
        and(
            and(named, "pages"@, JsonV::Number(whole(meta.page_count as u64))),
            "size"@,
            JsonV::Number(whole(meta.file_size)),
        ),
        "imported_at"@,
        JsonV::Number(whole(meta.imported_at)),
    );
    and(
        and(
            and(
                and(sized, "tags"@, text_list(texts(meta.tags@))),
                "summary"@,
                maybe_text(words(meta.summary)),
            ),
            "indexed"@,
            JsonV::Bool(indexed),
        ),
        "index_error"@,
        maybe_text(words(meta.index_error)),
    )
}

/// `GET /api/docs/{id}` -- one document, and how far evo has got with reading
/// it. The viewer shows "still reading this" from `indexed`.
pub fn document(meta: &DocMeta, indexed: bool) -> (r: Json)
    ensures
        r.view() == document_wire(*meta, indexed),
{
    Json::object().with("id", Json::string(meta.id.as_str())).with(
        "title",
        Json::string(meta.title.as_str()),
    ).with("filename", Json::string(meta.original_filename.as_str())).with(
        "pages",
        Json::number(meta.page_count as u64),
    ).with("size", Json::number(meta.file_size)).with(
        "imported_at",
        Json::number(meta.imported_at),
    ).with("tags", list_json(&meta.tags)).with("summary", Json::optional(&meta.summary)).with(
        "indexed",
        Json::Bool(indexed),
    ).with("index_error", Json::optional(&meta.index_error))
}

/// The size of one page.
pub open spec fn size_wire(s: PageSize) -> JsonV {
    and(just("width"@, JsonV::Number(s.width)), "height"@, JsonV::Number(s.height))
}

fn sizes_json(sizes: &Vec<PageSize>) -> (r: Json)
    ensures
        r.view() == JsonV::Array(sizes@.map_values(|s: PageSize| size_wire(s))),
{
    let ghost all = sizes@.map_values(|s: PageSize| size_wire(s));
    let mut r: Vec<Json> = Vec::new();
    let mut i: usize = 0;
    while i < sizes.len()
        invariant
            i <= sizes@.len(),
            all == sizes@.map_values(|s: PageSize| size_wire(s)),
            values(r@) == all.take(i as int),
        decreases sizes@.len() - i,
    {
        let j: Json = Json::object().with(
            "width",
            Json::Number(copy_number(&sizes[i].width)),
        ).with("height", Json::Number(copy_number(&sizes[i].height)));
        proof {
            assert(values(r@.push(j)) =~= values(r@).push(j.view()));
            assert(all.take(i + 1) =~= all.take(i as int).push(all[i as int]));
        }
        r.push(j);
        i += 1;
    }
    proof {
        assert(all.take(i as int) =~= all);
    }
    Json::array(r)
}

/// What the viewer is told of a document before it draws anything.
pub open spec fn manifest_wire(
    meta: DocMeta,
    sizes: Seq<PageSize>,
    markup_etag: Seq<char>,
    chat_len: usize,
) -> JsonV {
    and(
        and(
            and(
                and(just("id"@, JsonV::Str(meta.id@)), "title"@, JsonV::Str(meta.title@)),
                "pages"@,
                JsonV::Array(sizes.map_values(|s: PageSize| size_wire(s))),
            ),
            "markup_etag"@,
            JsonV::Str(markup_etag),
        ),
        "chat_len"@,
        JsonV::Number(whole(chat_len as u64)),
    )
}

/// `GET /api/docs/{id}/manifest` -- everything the viewer needs before it can
/// draw anything: how many pages there are and how big each one is, which
/// markup it would be drawing, and whether there is a conversation to reopen.
pub fn manifest(meta: &DocMeta, sizes: &Vec<PageSize>, markup_etag: &str, chat_len: usize) -> (r:
    Json)
    ensures
        r.view() == manifest_wire(*meta, sizes@, markup_etag@, chat_len),
{
    Json::object().with("id", Json::string(meta.id.as_str())).with(
        "title",
        Json::string(meta.title.as_str()),
    ).with("pages", sizes_json(sizes)).with("markup_etag", Json::string(markup_etag)).with(
        "chat_len",
        Json::number(chat_len as u64),
    )
}

// ---------------------------------------------------------------------------
// Status
// ---------------------------------------------------------------------------

/// What the reader of documents is busy with.
#[derive(Debug)]
pub struct IndexStatus {
    pub pending: usize,
    pub current: Option<String>,
    pub current_id: Option<String>,
    pub ocr_pending: usize,
    pub ocr_done: usize,
    pub ocr_total: usize,
    pub last_error: Option<String>,
}

/// What the writer of summaries is busy with.
#[derive(Debug)]
pub struct EnrichStatus {
    pub pending: usize,
    pub current: Option<String>,
    pub current_id: Option<String>,
    pub done: usize,
    pub last_error: Option<String>,
}

pub open spec fn index_wire(s: IndexStatus) -> JsonV {
    let busy = and(
        and(
            just("pending"@, JsonV::Number(whole(s.pending as u64))),
            "current"@,
            maybe_text(words(s.current)),
        ),
        "current_id"@,
        maybe_text(words(s.current_id)),
    );
    and(
        and(
            and(
                and(busy, "ocr_pending"@, JsonV::Number(whole(s.ocr_pending as u64))),
                "ocr_done"@,
                JsonV::Number(whole(s.ocr_done as u64)),
            ),
            "ocr_total"@,
            JsonV::Number(whole(s.ocr_total as u64)),
        ),
        "error"@,
        maybe_text(words(s.last_error)),
    )
}

pub open spec fn enrich_wire(s: EnrichStatus) -> JsonV {
    let busy = and(
        and(
            just("pending"@, JsonV::Number(whole(s.pending as u64))),
            "current"@,
            maybe_text(words(s.current)),
        ),
        "current_id"@,
        maybe_text(words(s.current_id)),
    );
    and(
        and(busy, "done"@, JsonV::Number(whole(s.done as u64))),
        "error"@,
        maybe_text(words(s.last_error)),
    )
}

fn index_json(s: &IndexStatus) -> (r: Json)
    ensures
        r.view() == index_wire(*s),
{
    Json::object().with("pending", Json::number(s.pending as u64)).with(
        "current",
        Json::optional(&s.current),
    ).with("current_id", Json::optional(&s.current_id)).with(
        "ocr_pending",
        Json::number(s.ocr_pending as u64),
    ).with("ocr_done", Json::number(s.ocr_done as u64)).with(
        "ocr_total",
        Json::number(s.ocr_total as u64),
    ).with("error", Json::optional(&s.last_error))
}

fn enrich_json(s: &EnrichStatus) -> (r: Json)
    ensures
        r.view() == enrich_wire(*s),
{
    Json::object().with("pending", Json::number(s.pending as u64)).with(
        "current",
        Json::optional(&s.current),
    ).with("current_id", Json::optional(&s.current_id)).with(
        "done",
        Json::number(s.done as u64),
    ).with("error", Json::optional(&s.last_error))
}

/// Which model answers.
pub open spec fn model_wire(m: ModelConfig) -> JsonV {
    if m.api is Builtin {
        and(just("kind"@, JsonV::Str("builtin"@)), "model"@, JsonV::Str(m.builtin_model@))
    } else {
        and(
            and(just("kind"@, JsonV::Str("http"@)), "model"@, JsonV::Str(m.model@)),
            "base_url"@,
            JsonV::Str(m.base_url@),
        )
    }
}

fn model_json(m: &ModelConfig) -> (r: Json)
    ensures
        r.view() == model_wire(*m),
{
    if m.api.is_http() {
        Json::object().with("kind", Json::string("http")).with(
            "model",
            Json::string(m.model.as_str()),
        ).with("base_url", Json::string(m.base_url.as_str()))
    } else {
        Json::object().with("kind", Json::string("builtin")).with(
            "model",
            Json::string(m.builtin_model.as_str()),
        )
    }
}

impl BlobBackend {
    /// What the status calls it.
    pub fn name(self) -> (r: &'static str)
        ensures
            r@ == "local"@,
    {
        "local"
    }
}

/// What the server is busy with.
pub struct ServerStatus {
    pub documents: usize,
    pub index: Option<IndexStatus>,
    pub enrich: Option<EnrichStatus>,
    /// Whether a question is being answered right now.
    pub generating: bool,
}

pub open spec fn status_wire(s: ServerStatus, config: ServeConfig, version: Seq<char>) -> JsonV {
    let counted = and(
        and(
            just("documents"@, JsonV::Number(whole(s.documents as u64))),
            "index"@,
            match s.index {
                Some(i) => index_wire(i),
                None => JsonV::Null,
            },
        ),
        "enrich"@,
        match s.enrich {
            Some(e) => enrich_wire(e),
            None => JsonV::Null,
        },
    );
    let configured = and(
        and(
            and(counted, "version"@, JsonV::Str(version)),
            "blobs"@,
            JsonV::Str("local"@),
        ),
        "model"@,
        model_wire(config.model),
    );
    and(
        and(
            and(configured, "enrich_enabled"@, JsonV::Bool(config.assistant.enrich_enabled)),
            "max_upload_mb"@,
            JsonV::Number(whole(config.max_upload_mb as u64)),
        ),
        "generating"@,
        JsonV::Bool(s.generating),
    )
}

/// `GET /api/status` -- what the server is busy with. The phone polls this
/// while a freshly uploaded document is being read.
pub fn status(s: &ServerStatus, config: &ServeConfig, version: &str) -> (r: Json)
    ensures
        r.view() == status_wire(*s, *config, version@),
{
    let index: Json = match &s.index {
        Some(i) => index_json(i),
        None => Json::Null,
    };
    let enrich: Json = match &s.enrich {
        Some(e) => enrich_json(e),
        None => Json::Null,
    };
    Json::object().with("documents", Json::number(s.documents as u64)).with("index", index).with(
        "enrich",
        enrich,
    ).with("version", Json::string(version)).with(
        "blobs",
        Json::string(config.blobs.name()),
    ).with("model", model_json(&config.model)).with(
        "enrich_enabled",
        Json::Bool(config.assistant.enrich_enabled),
    ).with("max_upload_mb", Json::number(config.max_upload_mb as u64)).with(
        "generating",
        Json::Bool(s.generating),
    )
}

} // verus!
