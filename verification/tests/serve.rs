//! The server's flags, paths, ids, version tags and addresses.

use evo::digest::{digest_text, hex};
use evo::doc::annotation::{Annotation, AnnotationKind, Style};
use evo::doc::geometry::{PdfPoint, PdfRect};
use evo::render::engine::{Engine, Opened};
use evo::script::model::{Api, ModelConfig};
use evo::serve::auth::door::{LoginAnswer, Refusal};
use evo::serve::library_api::{
    check_id, check_upload, document, fail, header_text, hex_digest, is_doc_id, manifest,
    no_such_document, status, upload, upload_names, DocMeta, EnrichStatus, IndexStatus,
    ListQuery, PageSize, ServerStatus, ENCRYPTED_UPLOAD, IMMUTABLE, UNREADABLE,
};
use evo::serve::markup_api::{
    current_markup, empty_markup, etag, etag_of, on_page, overlay_page, put_markup, MarkupBody,
    OverlayQuery, PageList, PageSlot, PutOutcome, VERSION,
};
use evo::serve::pages::{
    cache_dir, cache_path, engine_cache_path, page_in_document, page_request, PageQuery,
    THUMB_WIDTH,
};
use evo::serve::routes::{asset, health};
use evo::serve::{
    explain, model_note, parse_args, tools_note, AssistantPrefs, BlobBackend, ServeArgs, ServeConfig, ServeOptions, ServePaths,
    DEFAULT_BIND, DEFAULT_MAX_UPLOAD_MB, DEFAULT_PORT, LOCKED, USAGE,
};
use hayro::hayro_syntax::{DecryptionError, LoadPdfError, Pdf};

fn words(args: &[&str]) -> Vec<String> {
    args.iter().map(|s| s.to_string()).collect()
}

fn model() -> ModelConfig {
    ModelConfig::starting("some-model".to_owned())
}

#[test]
fn the_defaults_are_a_public_port_and_a_secure_cookie() {
    let args = parse_args(&Vec::new()).expect("no flags is valid");
    assert_eq!(args, ServeArgs::default());
    assert_eq!(args.port, DEFAULT_PORT);
    assert_eq!(args.bind, "0.0.0.0");
    assert!(!args.insecure_http, "TLS is assumed until it is waived");
    assert_eq!(ServeOptions::default().cookie_name(), "__Host-evo");
}

#[test]
fn flags_are_read_both_ways_round() {
    let spaced = parse_args(&words(&[
        "--port",
        "9000",
        "--bind",
        "127.0.0.1",
        "--data-dir",
        "/srv/evo",
    ]))
    .expect("spaced flags");
    let joined = parse_args(&words(&[
        "--port=9000",
        "--bind=127.0.0.1",
        "--data-dir=/srv/evo",
    ]))
    .expect("joined flags");
    assert_eq!(spaced, joined);
    assert_eq!(spaced.port, 9000);
    assert_eq!(spaced.data_dir, Some("/srv/evo".to_owned()));
}

#[test]
fn init_is_a_subcommand_and_only_in_first_place() {
    let init = parse_args(&words(&["init", "--insecure-http"])).expect("init");
    assert!(init.init);
    assert!(init.insecure_http);

    let misplaced = parse_args(&words(&["--insecure-http", "init"]));
    assert!(misplaced.is_err(), "`init` is a subcommand, not a flag");
}

#[test]
fn an_unknown_flag_is_refused_with_the_usage() {
    let message = parse_args(&words(&["--admin"])).expect_err("unknown flags are refused");
    assert!(message.contains("--admin"), "{message}");
    assert!(message.contains("--insecure-http"), "{message}");

    let missing = parse_args(&words(&["--port"])).expect_err("a flag without its value");
    assert!(missing.contains("needs a value"), "{missing}");
}

#[test]
fn a_port_is_a_number_and_help_is_the_usage() {
    let message = parse_args(&words(&["--port", "70000"])).expect_err("too big for a port");
    assert_eq!(message, format!("70000 is not a port number.\n\n{USAGE}"));
    assert_eq!(parse_args(&words(&["--help"])).expect_err("help"), USAGE);
    assert_eq!(parse_args(&words(&["-h"])).expect_err("help"), USAGE);

    let all = parse_args(&words(&["--config=/etc/evo.json", "--trust-proxy"])).expect("flags");
    assert_eq!(all.config.as_deref(), Some("/etc/evo.json"));
    assert!(all.trust_proxy);
    assert_eq!(all.bind, DEFAULT_BIND);
}

/// `--insecure-http` cannot keep the `__Host-` prefix: browsers refuse that
/// prefix on a cookie that is not Secure, so keeping the name would mean
/// setting a cookie nobody stores.
#[test]
fn plain_http_gives_up_the_host_prefix_with_the_secure_flag() {
    let insecure = ServeOptions {
        secure_cookies: false,
        trust_proxy: false,
    };
    assert_eq!(insecure.cookie_name(), "evo");
    assert!(!insecure.cookie_name().starts_with("__Host-"));
}

#[test]
fn the_options_follow_from_the_flags() {
    let args = parse_args(&words(&["--insecure-http", "--trust-proxy"])).expect("flags");
    let options = ServeOptions::from_args(&args);
    assert!(!options.secure_cookies);
    assert!(options.trust_proxy);
    assert_eq!(options.scheme(), "http");
    assert_eq!(ServeOptions::default().scheme(), "https");
}

#[test]
fn the_data_directory_holds_the_library_and_the_servers_own_files() {
    let paths = ServePaths::new(Some("/srv/evo".to_owned()), None, None).expect("paths");
    assert_eq!(paths.library_root, "/srv/evo/library");
    assert_eq!(paths.auth, "/srv/evo/serve/auth.json");
    assert_eq!(paths.config, "/srv/evo/serve/config.json");

    let elsewhere = ServePaths::new(
        Some("/srv/evo".to_owned()),
        Some("/etc/evo.json".to_owned()),
        None,
    )
    .expect("paths");
    assert_eq!(elsewhere.config, "/etc/evo.json");
    assert_eq!(elsewhere.auth, paths.auth, "--config moves only the config");
}

#[test]
fn the_platform_says_where_data_goes_when_no_flag_does() {
    let paths = ServePaths::new(None, None, Some("/home/me/.local/evo".to_owned())).expect("paths");
    assert_eq!(paths.sessions, "/home/me/.local/evo/serve/sessions.json");
    assert_eq!(paths.serve_dir, "/home/me/.local/evo/serve");
    let nowhere = ServePaths::new(None, None, None).expect_err("nowhere to put anything");
    assert!(nowhere.contains("--data-dir"), "{nowhere}");
}

/// The expected failure, and the one worth explaining: the desktop app has
/// the database.
#[test]
fn a_locked_library_says_to_quit_the_app() {
    assert_eq!(explain("Database already open. Cannot acquire lock."), LOCKED);

    let message = explain("disk on fire");
    assert!(message.contains("disk on fire"), "{message}");
    assert!(
        !message.contains("already running"),
        "a different failure must not be blamed on the app: {message}"
    );
}

#[test]
fn an_upload_limit_is_never_nothing() {
    let mut config = ServeConfig::starting(model(), AssistantPrefs { enrich_enabled: true });
    assert_eq!(config.max_upload_mb, DEFAULT_MAX_UPLOAD_MB);
    assert_eq!(config.upload_limit(), 200 * 1024 * 1024);
    config.max_upload_mb = 0;
    assert_eq!(config.upload_limit(), 1024 * 1024);
    assert_eq!(config.blobs, BlobBackend::Local);
    assert!(config.mcp_clients.is_empty());
}

#[test]
fn tool_servers_are_counted_in_the_journal() {
    assert_eq!(tools_note(0), None);
    let told = |n: usize| tools_note(n).expect("a line");
    assert_eq!(
        told(1),
        "  tools: 1 MCP server configured (started when first asked for)"
    );
    assert_eq!(
        told(2),
        "  tools: 2 MCP servers configured (started when first asked for)"
    );
}

#[test]
fn the_journal_says_which_model_answers() {
    let mut config = model();
    assert_eq!(
        model_note(&config),
        "  model: llama3.2 at http://localhost:11434"
    );
    config.api = Api::Builtin;
    assert_eq!(model_note(&config), "  model: built-in some-model");
}

// ---------------------------------------------------------------------------
// Ids and pages
// ---------------------------------------------------------------------------

/// The check that stands between a URL and a filename.
#[test]
fn only_a_sha256_digest_is_a_document_id() {
    let real = hex_digest(&b"a document".to_vec());
    assert_eq!(real.len(), 64);
    assert!(is_doc_id(&real));

    for imposter in [
        "",
        "..",
        "../../etc/passwd",
        "a/b",
        &real[..63],
        &format!("{real}0"),
        &real.to_uppercase(),
        &"g".repeat(64),
        &format!("{}/..", &real[..61]),
    ] {
        assert!(!is_doc_id(imposter), "{imposter}");
    }
}

#[test]
fn nothing_that_is_not_a_digest_is_treated_as_a_document() {
    for id in ["..", "%2e%2e", "abc", &"A".repeat(64), &"g".repeat(64)] {
        let refusal = check_id(id).expect("not an id");
        assert_eq!(refusal.status, 400);
        assert!(refusal.message.contains("64 hexadecimal"), "{}", refusal.message);
    }
    assert!(check_id(&"a".repeat(64)).is_none());
    let gone = no_such_document();
    assert_eq!(gone.status, 404);
    assert!(gone.message.contains("no document with that id"));
    assert_eq!(fail(500, "why").body().text(), r#"{"error":"why"}"#);
}

#[test]
fn a_digest_is_the_one_the_standard_publishes() {
    assert_eq!(
        digest_text("abc"),
        "ba7816bf8f01cfea414140de5dae2223b00361a396177a9cb410ff61f20015ad"
    );
    assert_eq!(hex(&vec![0, 15, 16, 255]), "000f10ff");
}

#[test]
fn a_rendered_page_is_cached_under_the_document_it_came_from() {
    let root = "/srv/evo/library";
    let id = "a".repeat(64);
    assert_eq!(
        cache_path(root, &id, 2, 3),
        format!("/srv/evo/library/pagecache/{id}/2-3.png")
    );
    assert!(cache_path(root, &id, 1, 1).starts_with(&cache_dir(root, &id)));
    assert_eq!(
        engine_cache_path(root, &id, 1, 2, Engine::Hayro),
        format!("/srv/evo/library/pagecache/{id}/1-2-hayro.png")
    );
    assert_ne!(
        engine_cache_path(root, &id, 1, 2, Engine::Hayro),
        engine_cache_path(root, &id, 1, 2, Engine::Pdfium)
    );
}

fn refused<T>(r: Result<T, Refusal>) -> (u16, String) {
    match r {
        Ok(_) => panic!("that was let through"),
        Err(refusal) => (refusal.status, refusal.message),
    }
}

#[test]
fn a_page_is_asked_for_by_number_and_at_a_scale_on_offer() {
    let id = "b".repeat(64);
    let none = PageQuery::default();
    assert_eq!(page_request(&id, "1.png", &none).ok(), Some((1, 1)));
    let two = PageQuery { scale: Some(2) };
    assert_eq!(page_request(&id, "12.png", &two).ok(), Some((12, 2)));

    assert_eq!(refused(page_request("..", "1.png", &none)).0, 400);
    assert_eq!(refused(page_request(&id, "1.jpg", &none)).0, 404);
    assert_eq!(refused(page_request(&id, "one.png", &none)).0, 400);
    assert_eq!(
        refused(page_request(&id, "0.png", &none)),
        (400, "Pages are numbered from 1.".to_owned())
    );
    let seven = PageQuery { scale: Some(7) };
    assert_eq!(
        refused(page_request(&id, "1.png", &seven)),
        (400, "Pages are rendered at scale 1, 2 or 3.".to_owned())
    );
    assert!(page_in_document(2, 2).is_none());
    assert_eq!(page_in_document(9, 2).expect("no page nine").status, 404);
    assert_eq!(THUMB_WIDTH, 320);
}

// ---------------------------------------------------------------------------
// Documents
// ---------------------------------------------------------------------------

#[test]
fn a_header_names_a_document_without_carrying_anything_else() {
    assert_eq!(
        header_text(Some("  Boiler manual  ")).as_deref(),
        Some("Boiler manual")
    );
    assert_eq!(header_text(None), None);

    assert_eq!(header_text(Some("   ")), None, "a blank title is no title");

    // A header value cannot hold a newline, but it can hold other control
    // characters, and none of them belong in a title.
    assert_eq!(header_text(Some("tab\there")).as_deref(), Some("tabhere"));

    assert_eq!(
        header_text(Some(&"x".repeat(500))).map(|t| t.len()),
        Some(200)
    );
}

#[test]
fn an_upload_is_called_what_its_headers_say() {
    let named = |f: Option<&str>, t: Option<&str>| upload_names(f, t);
    assert_eq!(
        named(Some("boiler.pdf"), Some("Boiler manual")),
        ("boiler.pdf".to_owned(), "Boiler manual".to_owned())
    );
    assert_eq!(
        named(Some("boiler.pdf"), None),
        ("boiler.pdf".to_owned(), "boiler".to_owned())
    );
    assert_eq!(
        named(None, None),
        ("document.pdf".to_owned(), "document".to_owned())
    );
    assert_eq!(
        named(Some(".pdf"), None),
        (".pdf".to_owned(), "Document".to_owned())
    );
    assert_eq!(check_upload(&Vec::new()).expect("nothing in it").status, 400);
    assert!(check_upload(&vec![1]).is_none());
}

/// A document of one blank page, behind a password where one is given.
fn one_page(password: Option<&str>) -> Vec<u8> {
    let mut doc = lopdf::Document::with_version("1.5");
    let tree = doc.new_object_id();
    let mut page = lopdf::Dictionary::new();
    page.set("Type", lopdf::Object::Name(b"Page".to_vec()));
    page.set("Parent", lopdf::Object::Reference(tree));
    let corner = |n: i64| lopdf::Object::Integer(n);
    page.set(
        "MediaBox",
        lopdf::Object::Array(vec![corner(0), corner(0), corner(612), corner(792)]),
    );
    let kid = doc.add_object(page);
    let mut node = lopdf::Dictionary::new();
    node.set("Type", lopdf::Object::Name(b"Pages".to_vec()));
    node.set("Count", lopdf::Object::Integer(1));
    node.set("Kids", lopdf::Object::Array(vec![lopdf::Object::Reference(kid)]));
    doc.objects.insert(tree, lopdf::Object::Dictionary(node));
    let mut root = lopdf::Dictionary::new();
    root.set("Type", lopdf::Object::Name(b"Catalog".to_vec()));
    root.set("Pages", lopdf::Object::Reference(tree));
    let root = doc.add_object(root);
    doc.trailer.set("Root", lopdf::Object::Reference(root));
    doc.trailer.set(
        "ID",
        lopdf::Object::Array(vec![
            lopdf::Object::string_literal(vec![1_u8; 16]),
            lopdf::Object::string_literal(vec![2_u8; 16]),
        ]),
    );
    if let Some(user_password) = password {
        let state = lopdf::EncryptionState::try_from(lopdf::EncryptionVersion::V1 {
            document: &doc,
            owner_password: "owner",
            user_password,
            permissions: lopdf::Permissions::all(),
        })
        .expect("a key");
        doc.encrypt(&state).expect("encrypted");
    }
    let mut bytes = Vec::new();
    doc.save_to(&mut bytes).expect("a document");
    bytes
}

/// What hayro makes of some bytes, without a password.
fn read(bytes: Vec<u8>) -> Opened {
    match Pdf::new(bytes) {
        Ok(pdf) => Opened::Pages(pdf.pages().len()),
        Err(LoadPdfError::Decryption(DecryptionError::PasswordProtected)) => Opened::NeedsPassword,
        Err(_) => Opened::Unreadable,
    }
}

#[test]
fn a_locked_upload_is_refused_with_somewhere_to_go() {
    let locked = one_page(Some("sesame"));
    let opened = read(locked.clone());
    assert_eq!(opened, Opened::NeedsPassword);
    for existing in [None, Some(&meta())] {
        let r = upload(&locked, Some("locked.pdf"), None, &opened, existing, 7);
        assert_eq!(r.status, 422);
        let body: serde_json::Value = serde_json::from_str(&r.body.text()).unwrap();
        assert_eq!(body["error"], ENCRYPTED_UPLOAD);
        assert!(r.taken.is_none(), "nothing is written down");
    }
    // A document protected only against editing needs no password.
    assert_eq!(read(one_page(Some(""))), Opened::Pages(1));
}

#[test]
fn an_upload_is_taken_in_once() {
    let bytes = one_page(None);
    let opened = read(bytes.clone());
    assert_eq!(opened, Opened::Pages(1));
    let r = upload(&bytes, Some("boiler.pdf"), None, &opened, None, 7);
    assert_eq!(r.status, 201);
    let taken = r.taken.expect("a document");
    assert_eq!(taken.id, hex_digest(&bytes));
    assert_eq!((taken.title.as_str(), taken.page_count), ("boiler", 1));
    assert_eq!((taken.file_size, taken.imported_at), (bytes.len() as u64, 7));
    let id = &taken.id;
    assert_eq!(
        r.body.text(),
        format!(r#"{{"duplicate":false,"id":"{id}","pages":1,"title":"boiler"}}"#)
    );

    let again = upload(&bytes, Some("other.pdf"), None, &opened, Some(&taken), 8);
    assert_eq!(again.status, 200, "a duplicate is not created");
    assert!(again.taken.is_none());
    assert_eq!(
        again.body.text(),
        format!(r#"{{"duplicate":true,"id":"{id}","pages":1,"title":"boiler"}}"#)
    );

    let nothing = upload(&Vec::new(), None, None, &Opened::Unreadable, None, 7);
    assert_eq!(nothing.status, 400);
    let junk = b"not a pdf at all".to_vec();
    let opened = read(junk.clone());
    let r = upload(&junk, None, None, &opened, None, 7);
    assert_eq!(r.status, 500);
    assert!(r.body.text().contains(UNREADABLE));
}

fn meta() -> DocMeta {
    DocMeta {
        id: "c".repeat(64),
        title: "Boiler manual".to_owned(),
        original_filename: "boiler.pdf".to_owned(),
        page_count: 2,
        file_size: 1234,
        imported_at: 1_700_000_000,
        tags: vec!["heating".to_owned(), "manual".to_owned()],
        summary: None,
        index_error: Some("unreadable".to_owned()),
    }
}

#[test]
fn a_document_is_described_as_the_viewer_reads_it() {
    let id = "c".repeat(64);
    let one = serde_json::from_str::<serde_json::Value>(&document(&meta(), true).text()).unwrap();
    assert_eq!(one["filename"], "boiler.pdf");
    assert_eq!(one["size"], 1234);
    assert_eq!(one["pages"], 2);
    assert_eq!(one["imported_at"], 1_700_000_000);
    assert_eq!(one["tags"][1], "manual");
    assert!(one["summary"].is_null());
    assert_eq!(one["indexed"], true);
    assert_eq!(one["index_error"], "unreadable");

    let letter = PageSize {
        width: serde_json::Number::from_f64(612.0).unwrap(),
        height: serde_json::Number::from_f64(792.0).unwrap(),
    };
    let text = manifest(&meta(), &vec![letter], "\"tag\"", 3).text();
    let seen = serde_json::from_str::<serde_json::Value>(&text).unwrap();
    assert_eq!(seen["pages"][0]["width"], 612.0);
    assert_eq!(seen["pages"][0]["height"], 792.0);
    assert_eq!(seen["markup_etag"], "\"tag\"");
    assert_eq!(seen["chat_len"], 3);
    assert!(IMMUTABLE.contains("immutable"));
}

#[test]
fn the_status_says_what_the_server_is_busy_with() {
    let now = ServerStatus {
        documents: 7,
        index: Some(IndexStatus {
            pending: 1,
            current: Some("Boiler manual".to_owned()),
            current_id: None,
            ocr_pending: 2,
            ocr_done: 3,
            ocr_total: 5,
            last_error: None,
        }),
        enrich: None,
        generating: false,
    };
    let config = ServeConfig::starting(model(), AssistantPrefs { enrich_enabled: true });
    let text = status(&now, &config, "0.6.0").text();
    let seen = serde_json::from_str::<serde_json::Value>(&text).unwrap();
    assert_eq!(seen["documents"], 7);
    assert_eq!(seen["index"]["current"], "Boiler manual");
    assert_eq!(seen["index"]["ocr_total"], 5);
    assert!(seen["enrich"].is_null());
    assert_eq!(seen["version"], "0.6.0");
    assert_eq!(seen["blobs"], "local");
    assert_eq!(seen["model"]["kind"], "http");
    assert_eq!(seen["model"]["base_url"], "http://localhost:11434");
    assert_eq!(seen["max_upload_mb"], 200);
    assert_eq!(seen["enrich_enabled"], true);
    assert_eq!(seen["generating"], false);

    let mut config = ServeConfig::starting(model(), AssistantPrefs { enrich_enabled: true });
    config.model.api = Api::Builtin;
    config.assistant.enrich_enabled = false;
    let busy = ServerStatus {
        documents: 0,
        index: None,
        enrich: Some(EnrichStatus {
            pending: 4,
            current: None,
            current_id: Some("id".to_owned()),
            done: 6,
            last_error: Some("no model".to_owned()),
        }),
        generating: true,
    };
    let text = status(&busy, &config, "0.6.0").text();
    let seen = serde_json::from_str::<serde_json::Value>(&text).unwrap();
    assert_eq!(seen["model"]["kind"], "builtin");
    assert_eq!(seen["model"]["model"], "some-model");
    assert_eq!(seen["enrich"]["done"], 6);
    assert_eq!(seen["enrich"]["error"], "no model");
    assert_eq!(seen["generating"], true);
    assert_eq!(seen["enrich_enabled"], false);
}

#[test]
fn a_blank_search_is_everything() {
    assert_eq!(ListQuery::default().search(), None);
    let blank = ListQuery { q: Some("  ".to_owned()) };
    assert_eq!(blank.search(), None);
    let some = ListQuery { q: Some(" boiler ".to_owned()) };
    assert_eq!(some.search().as_deref(), Some("boiler"));
}

// ---------------------------------------------------------------------------
// Markup
// ---------------------------------------------------------------------------

fn highlight(page: usize) -> Annotation {
    Annotation {
        id: 1,
        page,
        kind: AnnotationKind::Highlight,
        rect: PdfRect::from_points(PdfPoint::new(10_000, 20_000), PdfPoint::new(30_000, 40_000)),
        style: Style::default(),
        group: None,
    }
}

/// The tag is a fact about the content, so the same markup has the same
/// tag in another process, and one changed number is a different tag.
#[test]
fn the_version_tag_follows_the_content_and_nothing_else() {
    let empty = b"{\"version\":2,\"annotations\":[],\"pages\":3}".to_vec();
    let tag = etag(&empty);
    assert!(tag.starts_with('"') && tag.ends_with('"'), "{tag}");
    assert_eq!(tag.len(), 66, "a quoted sha256: {tag}");
    assert_eq!(tag, etag(&empty.clone()), "the same markup, the same tag");
    let other = b"{\"version\":2,\"annotations\":[],\"pages\":4}".to_vec();
    assert_ne!(tag, etag(&other), "a different document is a different tag");
    assert_eq!(etag_of(None, &empty), tag, "no markup is the empty markup");
    assert_eq!(etag_of(Some(&other), &empty), etag(&other));
}

#[test]
fn if_match_accepts_the_current_tag_quoted_or_not_and_nothing_else() {
    let current = "\"abc123\"";
    assert!(evo::serve::markup_api::matches(current, current));
    assert!(evo::serve::markup_api::matches("abc123", current), "curl leaves the quotes off");
    assert!(evo::serve::markup_api::matches("*", current), "any version at all");
    assert!(evo::serve::markup_api::matches("W/\"abc123\"", current));
    assert!(evo::serve::markup_api::matches("\"other\", \"abc123\"", current), "a list of tags");

    assert!(!evo::serve::markup_api::matches("\"other\"", current));
    assert!(!evo::serve::markup_api::matches("", current));
    assert!(!evo::serve::markup_api::matches("abc12", current));
}

#[test]
fn an_overlay_holds_only_the_page_it_was_asked_for() {
    let annotations = vec![highlight(0), highlight(1)];
    let first = on_page(&annotations, 0);
    assert_eq!(first.len(), 1, "one page, one highlight");
    assert_eq!(first[0].page, 0);
    assert_eq!(on_page(&annotations, 5).len(), 0);

    assert_eq!(overlay_page(&OverlayQuery::default(), 2).ok(), Some(0));
    let second = OverlayQuery { page: Some(2) };
    assert_eq!(overlay_page(&second, 2).ok(), Some(1));
    let ninth = OverlayQuery { page: Some(9) };
    assert_eq!(refused(overlay_page(&ninth, 2)).0, 404);
    let none = OverlayQuery { page: Some(0) };
    assert_eq!(refused(overlay_page(&none, 2)).0, 400);
}

fn body(version: Option<u32>, annotations: Vec<Annotation>) -> MarkupBody {
    MarkupBody {
        version,
        annotations,
        pages: None,
    }
}

#[test]
fn markup_round_trips_under_its_version_tag_and_draws_as_an_overlay() {
    let empty = empty_markup(2);
    assert_eq!(empty.annotations.len(), 0);
    assert_eq!(
        empty.pages.order.len(),
        2,
        "a document with no markup still knows how many pages it has"
    );
    assert_eq!(empty.pages.order[1], PageSlot { page: 1, rotation: 0 });
    let tag = "\"current\"";

    // Without a version, nothing is written.
    match put_markup(None, empty_markup(2), tag, body(None, vec![highlight(0)])) {
        PutOutcome::Refused(refusal) => {
            assert_eq!(refusal.status, 412);
            assert!(refusal.message.contains("If-Match"), "{}", refusal.message);
        }
        _ => panic!("an unconditional write went through"),
    }

    // Against the wrong version, nothing is written either -- and the
    // current one comes back so the client can re-apply its edit.
    let stale = Some("\"nonsense\"");
    match put_markup(stale, empty_markup(2), tag, body(None, vec![highlight(0)])) {
        PutOutcome::Conflict(current) => assert_eq!(current.pages.order.len(), 2),
        _ => panic!("a stale write went through"),
    }

    match put_markup(Some(tag), empty_markup(2), tag, body(None, vec![highlight(0)])) {
        PutOutcome::Save(saved) => {
            assert_eq!(saved.annotations[0].page, 0);
            assert_eq!(
                saved.pages.order.len(),
                2,
                "a client that said nothing about page order changed nothing"
            );
            assert_eq!(saved.version, VERSION);
            assert_eq!(on_page(&saved.annotations, 0).len(), 1);
            // Page two has none of it.
            assert_eq!(on_page(&saved.annotations, 1).len(), 0);
        }
        _ => panic!("a write against the current version was refused"),
    }

    let turned = MarkupBody {
        version: Some(2),
        annotations: Vec::new(),
        pages: Some(PageList {
            order: vec![PageSlot { page: 1, rotation: 90 }],
        }),
    };
    match put_markup(Some("*"), empty_markup(2), tag, turned) {
        PutOutcome::Save(saved) => assert_eq!(saved.pages.order.len(), 1),
        _ => panic!("a write that names the page order was refused"),
    }
}

fn of_kind(kind: AnnotationKind) -> Annotation {
    Annotation {
        kind,
        ..highlight(0)
    }
}

#[test]
fn a_client_of_the_old_format_may_write_what_it_could_describe() {
    let tag = "\"current\"";
    let stamp = || {
        of_kind(AnnotationKind::Stamp {
            text: "DRAFT".to_owned(),
            font_size: 20_000,
        })
    };
    let old = put_markup(
        Some(tag),
        empty_markup(2),
        tag,
        body(Some(1), vec![highlight(0)]),
    );
    match old {
        PutOutcome::Save(saved) => assert_eq!(saved.version, 2, "stamped with this format"),
        _ => panic!("an old client was refused what it could describe"),
    }

    // ...and is refused, in a sentence, when it claims a stamp is one.
    let shapes = [
        stamp(),
        of_kind(AnnotationKind::ImageStamp { png: Vec::new() }),
        of_kind(AnnotationKind::Polygon {
            points: vec![PdfPoint::new(1000, 2000)],
            cloudy: None,
        }),
        of_kind(AnnotationKind::PolyLine {
            points: Vec::new(),
            arrow_end: true,
        }),
    ];
    for shape in shapes {
        match put_markup(Some(tag), empty_markup(2), tag, body(Some(1), vec![shape])) {
            PutOutcome::Refused(refusal) => {
                assert_eq!(refusal.status, 400);
                assert!(refusal.message.contains("need format 2"), "{}", refusal.message);
            }
            _ => panic!("a muddled body went through"),
        }
    }
    match put_markup(Some(tag), empty_markup(2), tag, body(Some(2), vec![stamp()])) {
        PutOutcome::Save(saved) => assert_eq!(saved.annotations.len(), 1),
        _ => panic!("a stamp in its own format was refused"),
    }
}

// ---------------------------------------------------------------------------
// Addresses
// ---------------------------------------------------------------------------

#[test]
fn the_whole_app_shell_is_served_without_a_session() {
    assert_eq!(asset("/").ok().as_deref(), Some("index.html"));
    assert_eq!(asset("").ok().as_deref(), Some("index.html"));
    assert_eq!(asset("/style.css").ok().as_deref(), Some("style.css"));
    assert_eq!(asset("//js/chat.js").ok().as_deref(), Some("js/chat.js"));
    assert_eq!(asset("/a..b").ok().as_deref(), Some("a..b"));
    assert_eq!(refused(asset("/../secret")).0, 404);
    assert_eq!(refused(asset("/a/../b")).1, "evo has nothing at that address.");
    assert_eq!(
        health("0.6.0").text(),
        r#"{"name":"evo","ok":true,"version":"0.6.0"}"#
    );
    let answer = LoginAnswer::Enroll {
        setup: "abc".to_owned(),
    };
    assert_eq!(answer.body().text(), r#"{"enroll":true,"setup":"abc"}"#);
}

#[test]
fn a_document_without_markup_has_the_empty_markup() {
    let none = current_markup(None, 3);
    let empty = empty_markup(3);
    assert_eq!(none.version, empty.version);
    assert!(none.annotations.is_empty());
    assert_eq!(none.pages.order, empty.pages.order);
    assert_eq!(current_markup(Some(empty_markup(2)), 3).pages.order.len(), 2);
}
