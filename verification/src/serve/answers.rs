//! What the server's answers say, and what it remembers of who signed in.

use vstd::prelude::*;

use crate::digest::text_digest;
use crate::json::{field, field_in, maybe_text, whole, JsonV};
use crate::script::model::{model_error_text, words, ModelConfig, ModelError};
use crate::serve::auth::door::{code_given, cookie_text, signed_in, DoorV, LoginBody, LoginOutcome};
use crate::serve::auth::limiter::{
    attempted, granted, in_time, latest, law_five_in_any_window, recent, table_after, window_at,
    Asked,
};
use crate::serve::auth::sessions::{
    issued, law_an_issued_token_opens_a_session, law_only_an_issued_token, lemma_live, live, minted,
    others, presented, SessionV,
};
use crate::serve::auth::{checked, escaped, password_matches, percent, typed, usable_secret};
use crate::serve::chat_api::{dropped, explained, newest, stepped, tool_named, Say, TalkV, TextV};
use crate::serve::library_api::{
    doc_id, document_wire, enrich_wire, index_wire, lower_hex, manifest_wire, model_wire, size_wire,
    status_wire, upload_wire, DocMeta, EnrichStatus, IndexStatus, PageSize, ServerStatus,
};
use crate::serve::tools::{
    asked, highlighted_value, number_argument, shown_page, RemoteTool, RequestV,
};
use crate::serve::{ServeConfig, ServeOptions};
use crate::text::{decimal, law_decimal_round_trip, trimmed, white_space};

verus! {

// ---------------------------------------------------------------------------
// What is answered of documents
// ---------------------------------------------------------------------------

/// Everything the library knows of a document is told of it, each under its own
/// name.
pub proof fn law_a_document_is_told_whole(meta: DocMeta, indexed: bool)
    ensures
        ({
            let sent = document_wire(meta, indexed);
            &&& field(sent, "id"@) == Some(JsonV::Str(meta.id@))
            &&& field(sent, "title"@) == Some(JsonV::Str(meta.title@))
            &&& field(sent, "filename"@) == Some(JsonV::Str(meta.original_filename@))
            &&& field(sent, "pages"@) == Some(JsonV::Number(whole(meta.page_count as u64)))
            &&& field(sent, "size"@) == Some(JsonV::Number(whole(meta.file_size)))
            &&& field(sent, "imported_at"@) == Some(JsonV::Number(whole(meta.imported_at)))
            &&& field(sent, "indexed"@) == Some(JsonV::Bool(indexed))
            &&& meta.summary matches Some(t) ==> field(sent, "summary"@) == Some(JsonV::Str(t@))
            &&& meta.summary is None ==> field(sent, "summary"@) == Some(JsonV::Null)
            &&& meta.index_error matches Some(t) ==> field(sent, "index_error"@) == Some(
                JsonV::Str(t@),
            )
            &&& meta.index_error is None ==> field(sent, "index_error"@) == Some(JsonV::Null)
            &&& (field(sent, "tags"@) matches Some(JsonV::Array(tags)) && tags.len()
                == meta.tags@.len() && forall|i: int|
                0 <= i < tags.len() ==> #[trigger] tags[i] == JsonV::Str(meta.tags@[i]@))
        }),
{
    reveal_strlit("id");
    reveal_strlit("title");
    reveal_strlit("filename");
    reveal_strlit("pages");
    reveal_strlit("size");
    reveal_strlit("imported_at");
    reveal_strlit("tags");
    reveal_strlit("summary");
    reveal_strlit("indexed");
    reveal_strlit("index_error");
    assert("id"@.len() != "title"@.len());
    assert("id"@.len() != "filename"@.len());
    assert("id"@.len() != "pages"@.len());
    assert("id"@.len() != "size"@.len());
    assert("id"@.len() != "imported_at"@.len());
    assert("id"@.len() != "tags"@.len());
    assert("id"@.len() != "summary"@.len());
    assert("id"@.len() != "indexed"@.len());
    assert("id"@.len() != "index_error"@.len());
    assert("title"@.len() != "filename"@.len());
    assert("title"@[0] != "pages"@[0]);
    assert("title"@.len() != "size"@.len());
    assert("title"@.len() != "imported_at"@.len());
    assert("title"@.len() != "tags"@.len());
    assert("title"@.len() != "summary"@.len());
    assert("title"@.len() != "indexed"@.len());
    assert("title"@.len() != "index_error"@.len());
    assert("filename"@.len() != "pages"@.len());
    assert("filename"@.len() != "size"@.len());
    assert("filename"@.len() != "imported_at"@.len());
    assert("filename"@.len() != "tags"@.len());
    assert("filename"@.len() != "summary"@.len());
    assert("filename"@.len() != "indexed"@.len());
    assert("filename"@.len() != "index_error"@.len());
    assert("pages"@.len() != "size"@.len());
    assert("pages"@.len() != "imported_at"@.len());
    assert("pages"@.len() != "tags"@.len());
    assert("pages"@.len() != "summary"@.len());
    assert("pages"@.len() != "indexed"@.len());
    assert("pages"@.len() != "index_error"@.len());
    assert("size"@.len() != "imported_at"@.len());
    assert("size"@[0] != "tags"@[0]);
    assert("size"@.len() != "summary"@.len());
    assert("size"@.len() != "indexed"@.len());
    assert("size"@.len() != "index_error"@.len());
    assert("imported_at"@.len() != "tags"@.len());
    assert("imported_at"@.len() != "summary"@.len());
    assert("imported_at"@.len() != "indexed"@.len());
    assert("imported_at"@[1] != "index_error"@[1]);
    assert("tags"@.len() != "summary"@.len());
    assert("tags"@.len() != "indexed"@.len());
    assert("tags"@.len() != "index_error"@.len());
    assert("summary"@[0] != "indexed"@[0]);
    assert("summary"@.len() != "index_error"@.len());
    assert("indexed"@.len() != "index_error"@.len());
}

/// The manifest names the document, gives every page its size, and says which
/// markup and how long a conversation there is.
pub proof fn law_a_manifest_is_told_whole(
    meta: DocMeta,
    sizes: Seq<PageSize>,
    tag: Seq<char>,
    chat_len: usize,
)
    ensures
        ({
            let sent = manifest_wire(meta, sizes, tag, chat_len);
            &&& field(sent, "id"@) == Some(JsonV::Str(meta.id@))
            &&& field(sent, "title"@) == Some(JsonV::Str(meta.title@))
            &&& field(sent, "markup_etag"@) == Some(JsonV::Str(tag))
            &&& field(sent, "chat_len"@) == Some(JsonV::Number(whole(chat_len as u64)))
            &&& (field(sent, "pages"@) matches Some(JsonV::Array(pages)) && pages.len()
                == sizes.len() && forall|i: int|
                0 <= i < pages.len() ==> #[trigger] pages[i] == size_wire(sizes[i]))
        }),
{
    reveal_strlit("id");
    reveal_strlit("title");
    reveal_strlit("pages");
    reveal_strlit("markup_etag");
    reveal_strlit("chat_len");
    assert("id"@.len() != "title"@.len());
    assert("id"@.len() != "pages"@.len());
    assert("id"@.len() != "markup_etag"@.len());
    assert("id"@.len() != "chat_len"@.len());
    assert("title"@[0] != "pages"@[0]);
    assert("title"@.len() != "markup_etag"@.len());
    assert("title"@.len() != "chat_len"@.len());
    assert("pages"@.len() != "markup_etag"@.len());
    assert("pages"@.len() != "chat_len"@.len());
    assert("markup_etag"@.len() != "chat_len"@.len());
}

/// The size of a page is its width and its height, each under its own name.
pub proof fn law_a_size_is_told_whole(s: PageSize)
    ensures
        field(size_wire(s), "width"@) == Some(JsonV::Number(s.width)),
        field(size_wire(s), "height"@) == Some(JsonV::Number(s.height)),
{
    reveal_strlit("width");
    reveal_strlit("height");
    assert("width"@.len() != "height"@.len());
}

/// An upload is answered with the document it became, and whether evo had it
/// already.
pub proof fn law_an_upload_is_answered_whole(
    id: Seq<char>,
    title: Seq<char>,
    pages: usize,
    duplicate: bool,
)
    ensures
        ({
            let sent = upload_wire(id, title, pages, duplicate);
            &&& field(sent, "id"@) == Some(JsonV::Str(id))
            &&& field(sent, "title"@) == Some(JsonV::Str(title))
            &&& field(sent, "pages"@) == Some(JsonV::Number(whole(pages as u64)))
            &&& field(sent, "duplicate"@) == Some(JsonV::Bool(duplicate))
        }),
{
    reveal_strlit("id");
    reveal_strlit("title");
    reveal_strlit("pages");
    reveal_strlit("duplicate");
    assert("id"@.len() != "title"@.len());
    assert("id"@.len() != "pages"@.len());
    assert("id"@.len() != "duplicate"@.len());
    assert("title"@[0] != "pages"@[0]);
    assert("title"@.len() != "duplicate"@.len());
    assert("pages"@.len() != "duplicate"@.len());
}

/// The status says what the reader of documents is busy with.
pub proof fn law_the_reading_is_told_whole(s: IndexStatus)
    ensures
        ({
            let sent = index_wire(s);
            &&& field(sent, "pending"@) == Some(JsonV::Number(whole(s.pending as u64)))
            &&& field(sent, "current"@) == Some(maybe_text(words(s.current)))
            &&& field(sent, "current_id"@) == Some(maybe_text(words(s.current_id)))
            &&& field(sent, "ocr_pending"@) == Some(JsonV::Number(whole(s.ocr_pending as u64)))
            &&& field(sent, "ocr_done"@) == Some(JsonV::Number(whole(s.ocr_done as u64)))
            &&& field(sent, "ocr_total"@) == Some(JsonV::Number(whole(s.ocr_total as u64)))
            &&& field(sent, "error"@) == Some(maybe_text(words(s.last_error)))
        }),
{
    reveal_strlit("pending");
    reveal_strlit("current");
    reveal_strlit("current_id");
    reveal_strlit("ocr_pending");
    reveal_strlit("ocr_done");
    reveal_strlit("ocr_total");
    reveal_strlit("error");
    assert("pending"@[0] != "current"@[0]);
    assert("pending"@.len() != "current_id"@.len());
    assert("pending"@.len() != "ocr_pending"@.len());
    assert("pending"@.len() != "ocr_done"@.len());
    assert("pending"@.len() != "ocr_total"@.len());
    assert("pending"@.len() != "error"@.len());
    assert("current"@.len() != "current_id"@.len());
    assert("current"@.len() != "ocr_pending"@.len());
    assert("current"@.len() != "ocr_done"@.len());
    assert("current"@.len() != "ocr_total"@.len());
    assert("current"@.len() != "error"@.len());
    assert("current_id"@.len() != "ocr_pending"@.len());
    assert("current_id"@.len() != "ocr_done"@.len());
    assert("current_id"@.len() != "ocr_total"@.len());
    assert("current_id"@.len() != "error"@.len());
    assert("ocr_pending"@.len() != "ocr_done"@.len());
    assert("ocr_pending"@.len() != "ocr_total"@.len());
    assert("ocr_pending"@.len() != "error"@.len());
    assert("ocr_done"@.len() != "ocr_total"@.len());
    assert("ocr_done"@.len() != "error"@.len());
    assert("ocr_total"@.len() != "error"@.len());
}

/// And what the writer of summaries is busy with.
pub proof fn law_the_writing_is_told_whole(s: EnrichStatus)
    ensures
        ({
            let sent = enrich_wire(s);
            &&& field(sent, "pending"@) == Some(JsonV::Number(whole(s.pending as u64)))
            &&& field(sent, "current"@) == Some(maybe_text(words(s.current)))
            &&& field(sent, "current_id"@) == Some(maybe_text(words(s.current_id)))
            &&& field(sent, "done"@) == Some(JsonV::Number(whole(s.done as u64)))
            &&& field(sent, "error"@) == Some(maybe_text(words(s.last_error)))
        }),
{
    reveal_strlit("pending");
    reveal_strlit("current");
    reveal_strlit("current_id");
    reveal_strlit("done");
    reveal_strlit("error");
    assert("pending"@[0] != "current"@[0]);
    assert("pending"@.len() != "current_id"@.len());
    assert("pending"@.len() != "done"@.len());
    assert("pending"@.len() != "error"@.len());
    assert("current"@.len() != "current_id"@.len());
    assert("current"@.len() != "done"@.len());
    assert("current"@.len() != "error"@.len());
    assert("current_id"@.len() != "done"@.len());
    assert("current_id"@.len() != "error"@.len());
    assert("done"@.len() != "error"@.len());
}

/// A model of evo's own is told of by its name alone, and any other with where
/// it answers.
pub proof fn law_a_model_is_told_whole(m: ModelConfig)
    ensures
        ({
            let sent = model_wire(m);
            &&& m.api is Builtin ==> field(sent, "kind"@) == Some(JsonV::Str("builtin"@))
                && field(sent, "model"@) == Some(JsonV::Str(m.builtin_model@)) && field(
                sent,
                "base_url"@,
            ) is None
            &&& !(m.api is Builtin) ==> field(sent, "kind"@) == Some(JsonV::Str("http"@)) && field(
                sent,
                "model"@,
            ) == Some(JsonV::Str(m.model@)) && field(sent, "base_url"@) == Some(
                JsonV::Str(m.base_url@),
            )
        }),
{
    reveal_strlit("kind");
    reveal_strlit("model");
    reveal_strlit("base_url");
    assert("kind"@.len() != "model"@.len());
    assert("kind"@.len() != "base_url"@.len());
    assert("model"@.len() != "base_url"@.len());
}

/// The status says all of it, with the version and what was configured.
pub proof fn law_the_status_is_told_whole(s: ServerStatus, config: ServeConfig, version: Seq<char>)
    ensures
        ({
            let sent = status_wire(s, config, version);
            &&& field(sent, "documents"@) == Some(JsonV::Number(whole(s.documents as u64)))
            &&& s.index matches Some(i) ==> field(sent, "index"@) == Some(index_wire(i))
            &&& s.index is None ==> field(sent, "index"@) == Some(JsonV::Null)
            &&& s.enrich matches Some(e) ==> field(sent, "enrich"@) == Some(enrich_wire(e))
            &&& s.enrich is None ==> field(sent, "enrich"@) == Some(JsonV::Null)
            &&& field(sent, "version"@) == Some(JsonV::Str(version))
            &&& field(sent, "blobs"@) == Some(JsonV::Str("local"@))
            &&& field(sent, "model"@) == Some(model_wire(config.model))
            &&& field(sent, "enrich_enabled"@) == Some(
                JsonV::Bool(config.assistant.enrich_enabled),
            )
            &&& field(sent, "max_upload_mb"@) == Some(
                JsonV::Number(whole(config.max_upload_mb as u64)),
            )
            &&& field(sent, "generating"@) == Some(JsonV::Bool(s.generating))
        }),
{
    reveal_strlit("documents");
    reveal_strlit("index");
    reveal_strlit("enrich");
    reveal_strlit("version");
    reveal_strlit("blobs");
    reveal_strlit("model");
    reveal_strlit("enrich_enabled");
    reveal_strlit("max_upload_mb");
    reveal_strlit("generating");
    assert("documents"@.len() != "index"@.len());
    assert("documents"@.len() != "enrich"@.len());
    assert("documents"@.len() != "version"@.len());
    assert("documents"@.len() != "blobs"@.len());
    assert("documents"@.len() != "model"@.len());
    assert("documents"@.len() != "enrich_enabled"@.len());
    assert("documents"@.len() != "max_upload_mb"@.len());
    assert("documents"@.len() != "generating"@.len());
    assert("index"@.len() != "enrich"@.len());
    assert("index"@.len() != "version"@.len());
    assert("index"@[0] != "blobs"@[0]);
    assert("index"@[0] != "model"@[0]);
    assert("index"@.len() != "enrich_enabled"@.len());
    assert("index"@.len() != "max_upload_mb"@.len());
    assert("index"@.len() != "generating"@.len());
    assert("enrich"@.len() != "version"@.len());
    assert("enrich"@.len() != "blobs"@.len());
    assert("enrich"@.len() != "model"@.len());
    assert("enrich"@.len() != "enrich_enabled"@.len());
    assert("enrich"@.len() != "max_upload_mb"@.len());
    assert("enrich"@.len() != "generating"@.len());
    assert("version"@.len() != "blobs"@.len());
    assert("version"@.len() != "model"@.len());
    assert("version"@.len() != "enrich_enabled"@.len());
    assert("version"@.len() != "max_upload_mb"@.len());
    assert("version"@.len() != "generating"@.len());
    assert("blobs"@[0] != "model"@[0]);
    assert("blobs"@.len() != "enrich_enabled"@.len());
    assert("blobs"@.len() != "max_upload_mb"@.len());
    assert("blobs"@.len() != "generating"@.len());
    assert("model"@.len() != "enrich_enabled"@.len());
    assert("model"@.len() != "max_upload_mb"@.len());
    assert("model"@.len() != "generating"@.len());
    assert("enrich_enabled"@.len() != "max_upload_mb"@.len());
    assert("enrich_enabled"@.len() != "generating"@.len());
    assert("max_upload_mb"@.len() != "generating"@.len());
}

/// What was marked is told of with the words, the document, the page counted
/// from one, and the number of every mark.
pub proof fn law_marks_are_told_whole(
    doc: (Seq<char>, Seq<char>),
    page: usize,
    text: Seq<char>,
    marks: usize,
    note_added: bool,
    ids: Seq<u64>,
    rects: JsonV,
)
    ensures
        ({
            let told = highlighted_value(doc, page, text, marks, note_added, ids, rects);
            &&& field(told, "highlighted"@) == Some(JsonV::Str(text))
            &&& field(told, "doc_id"@) == Some(JsonV::Str(doc.0))
            &&& field(told, "title"@) == Some(JsonV::Str(doc.1))
            &&& field(told, "page"@) == Some(JsonV::Number(whole(page as u64)))
            &&& field(told, "marks"@) == Some(JsonV::Number(whole(marks as u64)))
            &&& field(told, "note_added"@) == Some(JsonV::Bool(note_added))
            &&& field(told, "rects"@) == Some(rects)
            &&& (field(told, "annotation_ids"@) matches Some(JsonV::Array(told_ids))
                && told_ids.len() == ids.len() && forall|i: int|
                0 <= i < ids.len() ==> #[trigger] told_ids[i] == JsonV::Number(whole(ids[i])))
        }),
{
    reveal_strlit("highlighted");
    reveal_strlit("doc_id");
    reveal_strlit("title");
    reveal_strlit("page");
    reveal_strlit("marks");
    reveal_strlit("note_added");
    reveal_strlit("rects");
    reveal_strlit("annotation_ids");
    reveal_strlit("shown");
    assert("highlighted"@.len() != "doc_id"@.len());
    assert("highlighted"@.len() != "title"@.len());
    assert("highlighted"@.len() != "page"@.len());
    assert("highlighted"@.len() != "marks"@.len());
    assert("highlighted"@.len() != "note_added"@.len());
    assert("highlighted"@.len() != "rects"@.len());
    assert("highlighted"@.len() != "annotation_ids"@.len());
    assert("highlighted"@.len() != "shown"@.len());
    assert("doc_id"@.len() != "title"@.len());
    assert("doc_id"@.len() != "page"@.len());
    assert("doc_id"@.len() != "marks"@.len());
    assert("doc_id"@.len() != "note_added"@.len());
    assert("doc_id"@.len() != "rects"@.len());
    assert("doc_id"@.len() != "annotation_ids"@.len());
    assert("doc_id"@.len() != "shown"@.len());
    assert("title"@.len() != "page"@.len());
    assert("title"@[0] != "marks"@[0]);
    assert("title"@.len() != "note_added"@.len());
    assert("title"@[0] != "rects"@[0]);
    assert("title"@.len() != "annotation_ids"@.len());
    assert("title"@[0] != "shown"@[0]);
    assert("page"@.len() != "marks"@.len());
    assert("page"@.len() != "note_added"@.len());
    assert("page"@.len() != "rects"@.len());
    assert("page"@.len() != "annotation_ids"@.len());
    assert("page"@.len() != "shown"@.len());
    assert("marks"@.len() != "note_added"@.len());
    assert("marks"@[0] != "rects"@[0]);
    assert("marks"@.len() != "annotation_ids"@.len());
    assert("marks"@[0] != "shown"@[0]);
    assert("note_added"@.len() != "rects"@.len());
    assert("note_added"@.len() != "annotation_ids"@.len());
    assert("note_added"@.len() != "shown"@.len());
    assert("rects"@.len() != "annotation_ids"@.len());
    assert("rects"@[0] != "shown"@[0]);
    assert("annotation_ids"@.len() != "shown"@.len());
}

// ---------------------------------------------------------------------------
// Signing in
// ---------------------------------------------------------------------------

proof fn lemma_recent_filter(times: Seq<u64>, window: int)
    ensures
        recent(times, window) == times.filter(|t: u64| t > window),
    decreases times.len(),
{
    reveal(Seq::filter);
    if times.len() > 0 {
        lemma_recent_filter(times.drop_last(), window);
    } else {
        assert(recent(times, window) =~= times.filter(|t: u64| t > window));
    }
}

/// Whatever was asked before, an address may try to sign in exactly where fewer
/// than five of its attempts were let through in the last three hundred
/// seconds, not counting those from before it was forgotten.
pub proof fn law_five_tries_in_five_minutes(calls: Seq<Asked>, key: Seq<char>, now: u64)
    requires
        in_time(calls),
        latest(calls) <= now,
    ensures
        now >= 300 ==> (attempted(table_after(calls), key, now as int).0 <==> granted(
            calls,
            key,
        ).filter(|t: u64| t > now - 300).len() < 5),
        now < 300 ==> (attempted(table_after(calls), key, now as int).0 <==> granted(
            calls,
            key,
        ).filter(|t: u64| t > 0).len() < 5),
{
    law_five_in_any_window(calls, key, now);
    if now >= 300 {
        lemma_recent_filter(granted(calls, key), now - 300);
    } else {
        lemma_recent_filter(granted(calls, key), 0);
        assert(granted(calls, key).filter(|t: u64| t > 0) =~= granted(calls, key).filter(
            |t: u64| t > 0int,
        ));
    }
}

/// An attempt that is let through is remembered with its time, behind those
/// that still count, and no address is remembered that has none that count.
pub proof fn law_an_attempt_is_remembered(
    m: Map<Seq<char>, Seq<u64>>,
    key: Seq<char>,
    other: Seq<char>,
    now: u64,
)
    requires
        now >= 300,
        key != other,
    ensures
        ({
            let (allowed, after) = attempted(m, key, now as int);
            let mine = if m.dom().contains(key) {
                m[key].filter(|t: u64| t > now - 300)
            } else {
                Seq::empty()
            };
            &&& allowed ==> after.dom().contains(key) && after[key] == mine.push(now)
            &&& after.dom().contains(other) ==> m.dom().contains(other) && after[other]
                == m[other].filter(|t: u64| t > now - 300) && after[other].len() > 0
            &&& m.dom().contains(other) && m[other].filter(|t: u64| t > now - 300).len() > 0
                ==> after.dom().contains(other)
        }),
{
    assert(window_at(now as int) == now - 300);
    lemma_recent_filter(m[key], now - 300);
    lemma_recent_filter(m[other], now - 300);
}

/// The sessions that count are those that have not expired, and signing one out
/// leaves every other.
pub proof fn law_sessions_are_kept_until_they_end(s: Seq<SessionV>, hash: Seq<char>, now: int)
    ensures
        live(s, now) == s.filter(|e: SessionV| e.expires > now),
        others(s, hash) == s.filter(|e: SessionV| e.hash != hash),
    decreases s.len(),
{
    reveal(Seq::filter);
    if s.len() > 0 {
        law_sessions_are_kept_until_they_end(s.drop_last(), hash, now);
    } else {
        assert(live(s, now) =~= s.filter(|e: SessionV| e.expires > now));
        assert(others(s, hash) =~= s.filter(|e: SessionV| e.hash != hash));
    }
}

/// A sign-in is good for thirty days and no longer: until its last second the
/// token opens a session, and from there on, unused, it does not.
pub proof fn law_a_sign_in_lasts_thirty_days(
    s: Seq<SessionV>,
    token: Seq<char>,
    now: int,
    later: int,
)
    requires
        0 <= now <= later,
        now + 30 * 24 * 60 * 60 <= u64::MAX,
    ensures
        later < now + 30 * 24 * 60 * 60 ==> !(presented(
            issued(s, token, now),
            token,
            later,
        ).0 is Missing),
        later >= now + 30 * 24 * 60 * 60 && (forall|i: int|
            0 <= i < s.len() ==> (#[trigger] s[i]).hash != text_digest(token)) ==> presented(
            issued(s, token, now),
            token,
            later,
        ).0 is Missing,
{
    if later < now + 30 * 24 * 60 * 60 {
        law_an_issued_token_opens_a_session(s, token, now, later);
    } else if forall|i: int| 0 <= i < s.len() ==> (#[trigger] s[i]).hash != text_digest(token) {
        let t = issued(s, token, now);
        let hash = text_digest(token);
        lemma_live(s, now);
        assert forall|i: int|
            0 <= i < t.len() && (#[trigger] t[i]).expires > later implies t[i].hash != hash by {
            if i < t.len() - 1 {
                assert(t[i] == live(s, now)[i]);
                assert(s.contains(t[i]));
                let k = s.index_of(t[i]);
                assert(s[k].hash != hash);
            }
        }
        law_only_an_issued_token(t, token, later);
    }
}

/// The password and a fresh code open a session, unless no token can be made:
/// the code is used up, the authenticator counts as paired, the address starts
/// afresh, and the cookie that is sent carries a token that opens a session.
pub proof fn law_both_open_a_session(
    g: DoorV,
    after: DoorV,
    options: ServeOptions,
    ip: Seq<char>,
    body: LoginBody,
    now: int,
    o: LoginOutcome,
)
    requires
        0 <= now,
        now + 30 * 24 * 60 * 60 <= u64::MAX,
        signed_in(g, after, options, ip, body, now, o),
    ensures
        attempted(g.logins, ip, now).0 && password_matches(g.auth.password_hash, body.password@)
            && code_given(body).len() > 0 && (usable_secret(g.auth.totp_secret) matches Some(secret)
            && checked(g.auth, secret, code_given(body), now).0 is Accepted) ==> {
            &&& after.auth.totp_confirmed
            &&& after.auth.last_totp_step > g.auth.last_totp_step || after.auth.last_totp_step
                == checked(
                g.auth,
                usable_secret(g.auth.totp_secret)->0,
                code_given(body),
                now,
            ).1.last_totp_step
            &&& o.save_auth
            &&& o.answer is SignedIn || (o.answer matches crate::serve::auth::door::LoginAnswer::Refused(
                refusal,
            ) && refusal@.status == 500)
            &&& o.answer matches crate::serve::auth::door::LoginAnswer::SignedIn { cookie } ==> {
                &&& o.save_sessions
                &&& after.setup is None
                &&& !after.logins.dom().contains(ip)
                &&& exists|token: Seq<char>|
                    minted(token) && cookie@ == #[trigger] cookie_text(options, token, 2_592_000)
                        && !(presented(after.sessions, token, now).0 is Missing)
            }
        },
{
    if o.answer is SignedIn {
        if attempted(g.logins, ip, now).0 && password_matches(
            g.auth.password_hash,
            body.password@,
        ) && code_given(body).len() > 0 && usable_secret(g.auth.totp_secret) is Some {
            let logins = attempted(g.logins, ip, now).1;
            let auth = checked(
                g.auth,
                usable_secret(g.auth.totp_secret)->0,
                code_given(body),
                now,
            ).1;
            let cookie = o.answer->cookie;
            let token = choose|token: Seq<char>|
                minted(token) && cookie@ == cookie_text(
                    options,
                    token,
                    crate::serve::auth::sessions::SESSION_SECS as nat,
                ) && after == (DoorV {
                    auth,
                    sessions: #[trigger] issued(g.sessions, token, now),
                    logins: logins.remove(ip),
                    setup: None,
                });
            law_an_issued_token_opens_a_session(g.sessions, token, now, now);
            assert(cookie@ == cookie_text(options, token, 2_592_000));
        }
    }
}

/// Only the end of the line is taken off what was typed, and all of it.
pub proof fn law_only_the_end_of_the_line_is_taken_off(line: Seq<char>)
    ensures
        typed(line).len() <= line.len(),
        typed(line) == line.take(typed(line).len() as int),
        typed(line).len() > 0 ==> typed(line).last() != '\n' && typed(line).last() != '\r',
        forall|i: int|
            typed(line).len() <= i < line.len() ==> #[trigger] line[i] == '\n' || line[i] == '\r',
    decreases line.len(),
{
    if line.len() > 0 && (line.last() == '\r' || line.last() == '\n') {
        let t = line.drop_last();
        law_only_the_end_of_the_line_is_taken_off(t);
        let n = typed(line).len() as int;
        assert(t.take(n) =~= line.take(n));
        assert forall|i: int| n <= i < line.len() implies #[trigger] line[i] == '\n' || line[i]
            == '\r' by {
            if i < t.len() {
                assert(t[i] == line[i]);
            }
        }
    } else {
        assert(line.take(line.len() as int) =~= line);
    }
}

/// The value of a hexadecimal digit in upper case.
pub open spec fn hex_value(c: char) -> int {
    if '0' <= c <= '9' {
        c as int - 48
    } else {
        c as int - 55
    }
}

/// In a URL a byte is itself where it is a letter, a digit or one of four
/// marks, and otherwise a percent sign and two hexadecimal digits that spell
/// it; and bytes are written one after the other.
pub proof fn law_a_url_spells_every_byte(b: u8, bytes: Seq<u8>)
    ensures
        ({
            let c = b as char;
            let plain = '0' <= c <= '9' || 'a' <= c <= 'z' || 'A' <= c <= 'Z' || c == '-' || c
                == '.' || c == '_' || c == '~';
            &&& plain ==> escaped(b) == seq![c]
            &&& !plain ==> escaped(b).len() == 3 && escaped(b)[0] == '%' && 16 * hex_value(
                escaped(b)[1],
            ) + hex_value(escaped(b)[2]) == b && ('0' <= escaped(b)[1] <= '9' || 'A'
                <= escaped(b)[1] <= 'F') && ('0' <= escaped(b)[2] <= '9' || 'A' <= escaped(b)[2]
                <= 'F')
        }),
        percent(bytes.push(b)) == percent(bytes) + escaped(b),
        percent(Seq::empty()) == Seq::<char>::empty(),
{
    assert(bytes.push(b).drop_last() =~= bytes);
}

// ---------------------------------------------------------------------------
// Conversations
// ---------------------------------------------------------------------------

/// The text of a document that is dropped is gone from the cache, and all other
/// stays; and of what is there the four newest are kept.
pub proof fn law_four_documents_are_kept(s: Seq<TextV>, id: Seq<char>)
    ensures
        dropped(s, id) == s.filter(|d: TextV| d.0 != id),
        newest(s).len() == (if s.len() < 4 {
            s.len()
        } else {
            4
        }),
        forall|back: int|
            0 <= back < newest(s).len() ==> newest(s)[newest(s).len() - 1 - back] == #[trigger] s[
                s.len() - 1 - back
            ],
    decreases s.len(),
{
    reveal(Seq::filter);
    if s.len() > 0 {
        law_four_documents_are_kept(s.drop_last(), id);
    } else {
        assert(dropped(s, id) =~= s.filter(|d: TextV| d.0 != id));
    }
}

/// What the reader is sent carries what was said.
pub proof fn law_events_carry_what_was_said(say: Say)
    ensures
        match say {
            Say::Stage(text) => field(say.payload(), "text"@) == Some(JsonV::Str(text@)),
            Say::Token(text) => field(say.payload(), "text"@) == Some(JsonV::Str(text@)),
            Say::Tool { name, text } => field(say.payload(), "name"@) == Some(JsonV::Str(name@))
                && field(say.payload(), "text"@) == Some(JsonV::Str(text@)),
            Say::Ui(payload) => say.payload() == payload.view(),
            Say::Done { text, pages, tools } => {
                &&& field(say.payload(), "text"@) == Some(JsonV::Str(text@))
                &&& (field(say.payload(), "pages"@) matches Some(JsonV::Array(list)) && list.len()
                    == pages@.len() && forall|i: int|
                    0 <= i < list.len() ==> #[trigger] list[i] == JsonV::Number(
                        whole(pages@[i] as u64),
                    ))
                &&& (field(say.payload(), "tools_used"@) matches Some(JsonV::Array(list))
                    && list.len() == tools@.len() && forall|i: int|
                    0 <= i < list.len() ==> #[trigger] list[i] == JsonV::Str(tools@[i]@))
            },
            Say::Error(message) => field(say.payload(), "error"@) == Some(JsonV::Str(message@)),
        },
{
    reveal_strlit("text");
    reveal_strlit("name");
    reveal_strlit("pages");
    reveal_strlit("tools_used");
    reveal_strlit("error");
    assert("text"@[0] != "name"@[0]);
    assert("text"@.len() != "pages"@.len());
    assert("text"@.len() != "tools_used"@.len());
    assert("text"@.len() != "error"@.len());
    assert("name"@.len() != "pages"@.len());
    assert("name"@.len() != "tools_used"@.len());
    assert("name"@.len() != "error"@.len());
    assert("pages"@.len() != "tools_used"@.len());
    assert("pages"@[0] != "error"@[0]);
    assert("tools_used"@.len() != "error"@.len());
}

/// No two sorts of event have one name, whatever they carry.
pub proof fn law_events_are_told_apart(a: Say, b: Say)
    ensures
        a.kind() == b.kind() <==> match (a, b) {
            (Say::Stage(_), Say::Stage(_)) => true,
            (Say::Token(_), Say::Token(_)) => true,
            (Say::Tool { .. }, Say::Tool { .. }) => true,
            (Say::Ui(_), Say::Ui(_)) => true,
            (Say::Done { .. }, Say::Done { .. }) => true,
            (Say::Error(_), Say::Error(_)) => true,
            _ => false,
        },
{
    reveal_strlit("stage");
    reveal_strlit("token");
    reveal_strlit("tool");
    reveal_strlit("ui");
    reveal_strlit("done");
    reveal_strlit("error");
    assert("stage"@[0] != "token"@[0]);
    assert("stage"@.len() != "tool"@.len());
    assert("stage"@.len() != "ui"@.len());
    assert("stage"@.len() != "done"@.len());
    assert("stage"@[0] != "error"@[0]);
    assert("token"@.len() != "tool"@.len());
    assert("token"@.len() != "ui"@.len());
    assert("token"@.len() != "done"@.len());
    assert("token"@[0] != "error"@[0]);
    assert("tool"@.len() != "ui"@.len());
    assert("tool"@[0] != "done"@[0]);
    assert("tool"@.len() != "error"@.len());
    assert("ui"@.len() != "done"@.len());
    assert("ui"@.len() != "error"@.len());
    assert("done"@.len() != "error"@.len());
}

/// What a reader is told of a failure holds what the model's side said, and all
/// of it where the model was there to say it.
pub proof fn law_a_failure_says_why(e: ModelError)
    ensures
        ({
            let (told, why) = (explained(e), model_error_text(e));
            &&& e is Unreachable || e is Unavailable ==> exists|k: int|
                0 <= k && k + why.len() < told.len() && #[trigger] told.subrange(
                    k,
                    k + why.len(),
                ) == why
            &&& !(e is Unreachable) && !(e is Unavailable) ==> told == why
        }),
{
    reveal_strlit(")");
    if e is Unreachable || e is Unavailable {
        let (told, why) = (explained(e), model_error_text(e));
        let k = told.len() - why.len() - 1;
        assert(told.subrange(k, k + why.len()) =~= why);
    }
}

/// A call goes to the first tool of its name, and to none where there is none.
pub proof fn law_a_call_goes_to_its_tool(tools: Seq<RemoteTool>, name: Seq<char>, from: int)
    requires
        0 <= from,
    ensures
        match tool_named(tools, name, from) {
            Some(i) => from <= i < tools.len() && tools[i].def.name@ == name && forall|j: int|
                from <= j < i ==> (#[trigger] tools[j]).def.name@ != name,
            None => forall|j: int| from <= j < tools.len() ==> (#[trigger] tools[j]).def.name@ != name,
        },
    decreases tools.len() - from,
{
    if from < tools.len() {
        law_a_call_goes_to_its_tool(tools, name, from + 1);
    }
}

// ---------------------------------------------------------------------------
// What a model asks for
// ---------------------------------------------------------------------------

/// A number may be written as a number or as its digits, with space around
/// them; anything else is none.
pub proof fn law_numbers_are_read_both_ways(arguments: JsonV, name: Seq<char>, n: usize)
    ensures
        field(arguments, name) == Some(JsonV::Str(decimal(n as nat))) ==> number_argument(
            arguments,
            name,
        ) == Some(n),
        field(arguments, name) matches Some(JsonV::Number(m)) && crate::json::number_u64(m) == Some(
            n as u64,
        ) ==> number_argument(arguments, name) == Some(n),
        field(arguments, name) is None ==> number_argument(arguments, name) is None,
{
    law_decimal_round_trip(n as nat, usize::MAX as nat);
    let d = decimal(n as nat);
    assert(crate::text::is_digit(d[0]) && crate::text::is_digit(d[d.len() - 1]));
    assert(!white_space(d[0]) && !white_space(d.last()));
    assert(trimmed(d) == d);
}

proof fn lemma_id_is_bare(id: Seq<char>)
    requires
        doc_id(id),
    ensures
        trimmed(id) == id,
{
    assert(lower_hex(id[0]) && lower_hex(id[id.len() - 1]));
    assert(!white_space(id[0]) && !white_space(id.last()));
}

/// A call for the words to be marked asks for those words on that page of that
/// document, with the note where there is one; without a document, words or a
/// page, or with page nothing, it asks for nothing.
pub proof fn law_marking_asks_for_what_it_says(
    arguments: JsonV,
    id: Seq<char>,
    text: Seq<char>,
    page: usize,
)
    requires
        doc_id(id),
        field(arguments, "doc_id"@) == Some(JsonV::Str(id)),
        field(arguments, "text"@) == Some(JsonV::Str(text)),
        field(arguments, "page"@) == Some(JsonV::Str(decimal(page as nat))),
    ensures
        ({
            let r = asked("highlight_text"@, arguments);
            let note = match field(arguments, "note"@) {
                Some(JsonV::Str(s)) => if trimmed(s).len() > 0 {
                    Some(trimmed(s))
                } else {
                    None
                },
                _ => None,
            };
            &&& page >= 1 && trimmed(text).len() > 0 ==> r == Ok::<RequestV, Seq<char>>(
                RequestV::HighlightText { doc_id: id, page, text: trimmed(text), note },
            )
            &&& page == 0 || trimmed(text).len() == 0 ==> r is Err
        }),
{
    reveal_strlit("list_library");
    reveal_strlit("search_library");
    reveal_strlit("get_document_text");
    reveal_strlit("open_document");
    reveal_strlit("highlight_text");
    assert("list_library"@.len() != "search_library"@.len());
    assert("list_library"@.len() != "get_document_text"@.len());
    assert("list_library"@.len() != "open_document"@.len());
    assert("list_library"@.len() != "highlight_text"@.len());
    assert("search_library"@.len() != "get_document_text"@.len());
    assert("search_library"@.len() != "open_document"@.len());
    assert("search_library"@[0] != "highlight_text"@[0]);
    assert("get_document_text"@.len() != "open_document"@.len());
    assert("get_document_text"@.len() != "highlight_text"@.len());
    assert("open_document"@.len() != "highlight_text"@.len());
    law_numbers_are_read_both_ways(arguments, "page"@, page);
    lemma_id_is_bare(id);
}

/// A call to open a document asks for that document at that page, and at its
/// first where no page is named or page nothing is; and one for its text asks
/// for the pages it names.
pub proof fn law_opening_asks_for_what_it_says(arguments: JsonV, id: Seq<char>, page: usize)
    requires
        doc_id(id),
        field(arguments, "doc_id"@) == Some(JsonV::Str(id)),
    ensures
        ({
            let opened = asked("open_document"@, arguments);
            let read = asked("get_document_text"@, arguments);
            &&& field(arguments, "page"@) == Some(JsonV::Str(decimal(page as nat))) && page >= 1
                ==> opened == Ok::<RequestV, Seq<char>>(RequestV::OpenDocument { doc_id: id, page })
            &&& field(arguments, "page"@) is None || field(arguments, "page"@) == Some(
                JsonV::Str(decimal(0)),
            ) ==> opened == Ok::<RequestV, Seq<char>>(RequestV::OpenDocument { doc_id: id, page: 1 })
            &&& read matches Ok(RequestV::DocumentText { doc_id: d, first, last }) && d == id && (
            field(arguments, "first_page"@) is None ==> first is None) && (field(
                arguments,
                "last_page"@,
            ) is None ==> last is None) && (field(arguments, "first_page"@) == Some(
                JsonV::Str(decimal(page as nat)),
            ) ==> first == Some(page)) && (field(arguments, "last_page"@) == Some(
                JsonV::Str(decimal(page as nat)),
            ) ==> last == Some(page))
        }),
{
    reveal_strlit("list_library");
    reveal_strlit("search_library");
    reveal_strlit("get_document_text");
    reveal_strlit("open_document");
    reveal_strlit("highlight_text");
    assert("list_library"@.len() != "search_library"@.len());
    assert("list_library"@.len() != "get_document_text"@.len());
    assert("list_library"@.len() != "open_document"@.len());
    assert("list_library"@.len() != "highlight_text"@.len());
    assert("search_library"@.len() != "get_document_text"@.len());
    assert("search_library"@.len() != "open_document"@.len());
    assert("search_library"@[0] != "highlight_text"@[0]);
    assert("get_document_text"@.len() != "open_document"@.len());
    assert("get_document_text"@.len() != "highlight_text"@.len());
    assert("open_document"@.len() != "highlight_text"@.len());
    law_numbers_are_read_both_ways(arguments, "page"@, page);
    law_numbers_are_read_both_ways(arguments, "page"@, 0);
    law_numbers_are_read_both_ways(arguments, "first_page"@, page);
    law_numbers_are_read_both_ways(arguments, "last_page"@, page);
    lemma_id_is_bare(id);
}

/// A search asks for its words, for ten answers where no number is named and
/// for that many where one is; without words it asks for nothing. And a tool
/// evo does not have asks for nothing, whatever it is given.
pub proof fn law_searching_asks_for_what_it_says(
    arguments: JsonV,
    query: Seq<char>,
    limit: usize,
    tool: Seq<char>,
)
    requires
        field(arguments, "query"@) == Some(JsonV::Str(query)),
    ensures
        ({
            let r = asked("search_library"@, arguments);
            &&& trimmed(query).len() == 0 ==> r is Err
            &&& trimmed(query).len() > 0 && field(arguments, "limit"@) is None ==> r == Ok::<
                RequestV,
                Seq<char>,
            >(RequestV::SearchLibrary { query: trimmed(query), limit: 10 })
            &&& trimmed(query).len() > 0 && field(arguments, "limit"@) == Some(
                JsonV::Str(decimal(limit as nat)),
            ) ==> r == Ok::<RequestV, Seq<char>>(
                RequestV::SearchLibrary { query: trimmed(query), limit },
            )
            &&& asked("list_library"@, arguments) == Ok::<RequestV, Seq<char>>(
                RequestV::ListLibrary,
            )
            &&& tool != "list_library"@ && tool != "search_library"@ && tool
                != "get_document_text"@ && tool != "open_document"@ && tool != "highlight_text"@
                ==> asked(tool, arguments) is Err
        }),
{
    reveal_strlit("list_library");
    reveal_strlit("search_library");
    reveal_strlit("get_document_text");
    reveal_strlit("open_document");
    reveal_strlit("highlight_text");
    assert("list_library"@.len() != "search_library"@.len());
    assert("list_library"@.len() != "get_document_text"@.len());
    assert("list_library"@.len() != "open_document"@.len());
    assert("list_library"@.len() != "highlight_text"@.len());
    assert("search_library"@.len() != "get_document_text"@.len());
    assert("search_library"@.len() != "open_document"@.len());
    assert("search_library"@[0] != "highlight_text"@[0]);
    assert("get_document_text"@.len() != "open_document"@.len());
    assert("get_document_text"@.len() != "highlight_text"@.len());
    assert("open_document"@.len() != "highlight_text"@.len());
    law_numbers_are_read_both_ways(arguments, "limit"@, limit);
}

/// The page that is shown is the one asked for where the document has it, and
/// otherwise its last, or the first of a document of none.
pub proof fn law_the_page_asked_for_is_shown(page: usize, page_count: usize)
    requires
        page >= 1,
    ensures
        page <= page_count ==> shown_page(page, page_count) == page,
        page > page_count && page_count >= 1 ==> shown_page(page, page_count) == page_count,
        page_count == 0 ==> shown_page(page, page_count) == 1,
{
}

/// A session that is used within a day of signing in is good as it is; used
/// later, it is good for thirty days from then.
pub proof fn law_a_session_is_renewed_after_a_day(
    s: Seq<SessionV>,
    token: Seq<char>,
    now: int,
    later: int,
)
    requires
        0 <= now <= later < now + 30 * 24 * 60 * 60,
        later + 30 * 24 * 60 * 60 <= u64::MAX,
    ensures
        (forall|i: int| 0 <= i < s.len() ==> (#[trigger] s[i]).hash != text_digest(token)) ==> {
            let (check, after) = presented(issued(s, token, now), token, later);
            &&& later - now <= 24 * 60 * 60 ==> check is Valid && after == live(
                issued(s, token, now),
                later,
            )
            &&& later - now > 24 * 60 * 60 ==> check is Refreshed && exists|i: int|
                0 <= i < after.len() && (#[trigger] after[i]).hash == text_digest(token)
                    && after[i].expires == later + 30 * 24 * 60 * 60
        },
{
    if forall|i: int| 0 <= i < s.len() ==> (#[trigger] s[i]).hash != text_digest(token) {
        let hash = text_digest(token);
        let t = issued(s, token, now);
        let kept = live(t, later);
        law_an_issued_token_opens_a_session(s, token, now, later);
        crate::serve::auth::sessions::lemma_place(kept, hash, 0);
        let i = crate::serve::auth::sessions::place_from(kept, hash, 0)->0;
        lemma_live(t, later);
        lemma_live(s, now);
        assert(t.contains(kept[i]));
        let k = t.index_of(kept[i]);
        if k < t.len() - 1 {
            assert(t[k] == live(s, now)[k]);
            assert(s.contains(t[k]));
            assert(s[s.index_of(t[k])].hash != hash);
        }
        let after = presented(t, token, later).1;
        if later - now > 24 * 60 * 60 {
            assert(after[i].hash == hash);
        }
    }
}

/// Credentials are made only for a password of eight characters or more, which
/// then opens them; the authenticator is not paired yet, and no code is used.
pub proof fn law_credentials_begin_unpaired(
    password: Seq<char>,
    salt: Result<Vec<u8>, String>,
    secret: Result<Vec<u8>, String>,
    r: Result<crate::serve::auth::AuthStore, String>,
)
    ensures
        crate::serve::auth::made(password, salt, secret, r) ==> {
            &&& password.len() < 8 ==> r is Err
            &&& r matches Ok(store) ==> {
                &&& password.len() >= 8
                &&& password_matches(store@.password_hash, password)
                &&& !store@.totp_confirmed && store@.last_totp_step == 0
            }
        },
{
}

/// Whether a tool takes an argument of this name and type.
pub open spec fn takes(parameters: JsonV, name: Seq<char>, kind: Seq<char>) -> bool {
    field_in(field_in(field(parameters, "properties"@), name), "type"@) == Some(JsonV::Str(kind))
}

/// Whether a tool has to be given these.
pub open spec fn insists(parameters: JsonV, names: Seq<Seq<char>>) -> bool {
    field(parameters, "required"@) matches Some(JsonV::Array(list)) && list.len() == names.len()
        && forall|i: int| 0 <= i < list.len() ==> #[trigger] list[i] == JsonV::Str(names[i])
}

/// Each of evo's tools is offered with the arguments a call of it is read for,
/// and insists on those without which a call asks for nothing.
pub proof fn law_tools_say_what_they_take()
    ensures
        ({
            let search = crate::serve::tools::search_library_tool().def.parameters;
            let text = crate::serve::tools::document_text_tool().def.parameters;
            let open = crate::serve::tools::open_document_tool().def.parameters;
            let mark = crate::serve::tools::highlight_text_tool().def.parameters;
            &&& takes(search, "query"@, "string"@) && takes(search, "limit"@, "integer"@)
            &&& insists(search, seq!["query"@])
            &&& takes(text, "doc_id"@, "string"@) && takes(text, "first_page"@, "integer"@)
                && takes(text, "last_page"@, "integer"@)
            &&& insists(text, seq!["doc_id"@])
            &&& takes(open, "doc_id"@, "string"@) && takes(open, "page"@, "integer"@)
            &&& insists(open, seq!["doc_id"@])
            &&& takes(mark, "doc_id"@, "string"@) && takes(mark, "page"@, "integer"@) && takes(
                mark,
                "text"@,
                "string"@,
            ) && takes(mark, "note"@, "string"@)
            &&& insists(mark, seq!["doc_id"@, "page"@, "text"@])
        }),
{
    reveal_strlit("type");
    reveal_strlit("properties");
    reveal_strlit("required");
    reveal_strlit("description");
    assert("type"@.len() != "properties"@.len());
    assert("type"@.len() != "required"@.len());
    assert("type"@.len() != "description"@.len());
    assert("properties"@.len() != "required"@.len());
    assert("properties"@.len() != "description"@.len());
    assert("required"@.len() != "description"@.len());
    reveal_strlit("query");
    reveal_strlit("limit");
    reveal_strlit("doc_id");
    reveal_strlit("first_page");
    reveal_strlit("last_page");
    reveal_strlit("page");
    reveal_strlit("text");
    reveal_strlit("note");
    assert("query"@[0] != "limit"@[0]);
    assert("query"@.len() != "doc_id"@.len());
    assert("query"@.len() != "first_page"@.len());
    assert("query"@.len() != "last_page"@.len());
    assert("query"@.len() != "page"@.len());
    assert("query"@.len() != "text"@.len());
    assert("query"@.len() != "note"@.len());
    assert("limit"@.len() != "doc_id"@.len());
    assert("limit"@.len() != "first_page"@.len());
    assert("limit"@.len() != "last_page"@.len());
    assert("limit"@.len() != "page"@.len());
    assert("limit"@.len() != "text"@.len());
    assert("limit"@.len() != "note"@.len());
    assert("doc_id"@.len() != "first_page"@.len());
    assert("doc_id"@.len() != "last_page"@.len());
    assert("doc_id"@.len() != "page"@.len());
    assert("doc_id"@.len() != "text"@.len());
    assert("doc_id"@.len() != "note"@.len());
    assert("first_page"@.len() != "last_page"@.len());
    assert("first_page"@.len() != "page"@.len());
    assert("first_page"@.len() != "text"@.len());
    assert("first_page"@.len() != "note"@.len());
    assert("last_page"@.len() != "page"@.len());
    assert("last_page"@.len() != "text"@.len());
    assert("last_page"@.len() != "note"@.len());
    assert("page"@[0] != "text"@[0]);
    assert("page"@[0] != "note"@[0]);
    assert("text"@[0] != "note"@[0]);
}

/// How a sign-in is refused: with 429 where the address has tried too often,
/// and with 401 where the password is wrong, where a code is wrong or used, or
/// where one is needed and none given; none of these changes anything but the
/// count of attempts.
pub proof fn law_a_sign_in_is_refused_plainly(
    g: DoorV,
    after: DoorV,
    options: ServeOptions,
    ip: Seq<char>,
    body: LoginBody,
    now: int,
    o: LoginOutcome,
)
    ensures
        signed_in(g, after, options, ip, body, now, o) ==> {
            let allowed = attempted(g.logins, ip, now).0;
            let right = password_matches(g.auth.password_hash, body.password@);
            let unchanged = after.auth == g.auth && after.sessions == g.sessions && after.setup
                == g.setup && !o.save_auth && !o.save_sessions && after.logins == attempted(
                g.logins,
                ip,
                now,
            ).1;
            &&& !allowed ==> answered(o, 429) && unchanged
            &&& allowed && !right ==> answered(o, 401) && unchanged
            &&& allowed && right && code_given(body).len() == 0 && g.auth.totp_confirmed
                ==> answered(o, 401) && unchanged
            &&& allowed && right && code_given(body).len() > 0 && (usable_secret(
                g.auth.totp_secret,
            ) matches Some(secret) && !(checked(g.auth, secret, code_given(body), now).0
                is Accepted)) ==> answered(o, 401) && unchanged
        },
{
}

/// Whether a sign-in was refused with this status.
pub open spec fn answered(o: LoginOutcome, status: u16) -> bool {
    o.answer matches crate::serve::auth::door::LoginAnswer::Refused(refusal) && refusal@.status
        == status
}

/// Before an authenticator is paired, the password alone gets a permission to
/// pair one, good for ten minutes and nothing else; no session is opened.
pub proof fn law_pairing_takes_the_password(
    g: DoorV,
    after: DoorV,
    options: ServeOptions,
    ip: Seq<char>,
    body: LoginBody,
    now: int,
    o: LoginOutcome,
)
    requires
        0 <= now <= u64::MAX - 600,
    ensures
        signed_in(g, after, options, ip, body, now, o) && attempted(g.logins, ip, now).0
            && password_matches(g.auth.password_hash, body.password@) && code_given(body).len() == 0
            && !g.auth.totp_confirmed ==> {
            &&& after.sessions == g.sessions && after.auth == g.auth
            &&& o.answer is Enroll || answered(o, 500)
            &&& o.answer matches crate::serve::auth::door::LoginAnswer::Enroll { setup } ==> (
            after.setup matches Some(s) && s.0 == setup@ && s.1 == now + 600 && minted(setup@))
        },
{
}

/// Signing in and using a session leave every other session that has not ended
/// as it was.
pub proof fn law_other_sessions_are_untouched(
    s: Seq<SessionV>,
    token: Seq<char>,
    now: int,
    e: SessionV,
)
    requires
        s.contains(e),
        e.expires > now,
    ensures
        issued(s, token, now).contains(e),
        e.hash != text_digest(token) ==> presented(s, token, now).1.contains(e),
{
    let left = live(s, now);
    lemma_live(s, now);
    assert(s[s.index_of(e)] == e);
    assert(left.contains(e));
    let k = left.index_of(e);
    assert(issued(s, token, now)[k] == e);
    if e.hash != text_digest(token) {
        crate::serve::auth::sessions::lemma_place(left, text_digest(token), 0);
        assert(presented(s, token, now).1[k] == e);
    }
}

/// Who has gone stays gone, and everything stops there; while the reader is
/// there the model is asked once, and let go on from then. Nothing else about
/// the conversation changes.
pub proof fn law_who_has_gone_stays_gone(t: TalkV, heard: bool)
    ensures
        ({
            let (after, next) = stepped(t, heard);
            &&& t.gone || !heard ==> after.gone && next is Stop
            &&& !t.gone && heard ==> !after.gone && after.asked && (next is Ask <==> !t.asked) && (
            next is GoOn <==> t.asked)
            &&& after.tools == t.tools && after.used == t.used && after.pages == t.pages
        }),
{
}

} // verus!
