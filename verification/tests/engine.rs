//! Which engine draws, what it says when it cannot, and how PDFium is got.

use std::io::Write;

use evo::render::engine::{
    clamp_scale, join, library_at, library_file_name, open, page_index, page_outcome, page_scale,
    pdfium_available, pdfium_data_dir, pdfium_library_path, pdfium_search_again, resolve, search_again, search_locations, Engine, EnginePref,
    HayroEngineDoc, OpenError, Opened, PdfiumSearch, Place, RenderedPage, Zoom, MAX_PIXELS,
};
use evo::render::pdfium_fetch::{
    asset, destination, fetch_directory, fetch_plan, install, judge_member, percent, progress, tag, unpack,
    unsupported_platform, version, DownloadStatus, FetchPlan, Lock, Member, PdfiumFetch, NOT_THE_RELEASE,
};

/// A document of `pages` blank pages.
fn blank(pages: usize) -> Vec<u8> {
    let mut doc = lopdf::Document::with_version("1.7");
    let tree = doc.new_object_id();
    let mut kids = Vec::new();
    for _ in 0..pages {
        let mut page = lopdf::Dictionary::new();
        page.set("Type", lopdf::Object::Name(b"Page".to_vec()));
        page.set("Parent", lopdf::Object::Reference(tree));
        page.set(
            "MediaBox",
            lopdf::Object::Array(vec![
                lopdf::Object::Integer(0),
                lopdf::Object::Integer(0),
                lopdf::Object::Integer(612),
                lopdf::Object::Integer(792),
            ]),
        );
        kids.push(lopdf::Object::Reference(doc.add_object(page)));
    }
    let mut node = lopdf::Dictionary::new();
    node.set("Type", lopdf::Object::Name(b"Pages".to_vec()));
    node.set("Count", lopdf::Object::Integer(kids.len() as i64));
    node.set("Kids", lopdf::Object::Array(kids));
    doc.objects.insert(tree, lopdf::Object::Dictionary(node));
    let mut root = lopdf::Dictionary::new();
    root.set("Type", lopdf::Object::Name(b"Catalog".to_vec()));
    root.set("Pages", lopdf::Object::Reference(tree));
    let root = doc.add_object(root);
    doc.trailer.set("Root", lopdf::Object::Reference(root));
    let mut bytes = Vec::new();
    doc.save_to(&mut bytes).expect("a document");
    bytes
}

fn read(bytes: Vec<u8>) -> Opened {
    match hayro::hayro_syntax::Pdf::new(bytes) {
        Ok(pdf) => Opened::Pages(pdf.pages().len()),
        Err(_) => Opened::Unreadable,
    }
}

#[test]
fn hayro_counts_the_pages_of_what_it_opens() {
    let doc = HayroEngineDoc::open(read(blank(2))).ok().expect("it opens");
    assert_eq!(doc.engine(), Engine::Hayro);
    assert_eq!(doc.page_count(), 2);
    let doc = open(Engine::Hayro, read(blank(3))).ok().expect("it opens");
    assert_eq!(doc.page_count(), 3);
    for shut in [Opened::NeedsPassword, Opened::Unreadable] {
        assert_eq!(HayroEngineDoc::open(shut).err(), Some(OpenError::Unreadable));
        assert_eq!(open(Engine::Hayro, shut).err(), Some(OpenError::Unreadable));
    }
}

#[test]
fn nonsense_bytes_are_an_error_rather_than_a_panic() {
    let err = open(Engine::Hayro, read(b"not a pdf at all".to_vec()))
        .err()
        .expect("not a PDF");
    assert_eq!(err, OpenError::Unreadable);
    assert!(
        err.message().starts_with("evo could not read"),
        "{}",
        err.message()
    );
    let missing = open(Engine::Pdfium, read(blank(1))).err().expect("no PDFium");
    assert_eq!(missing, OpenError::PdfiumMissing);
}

fn drawn() -> Option<RenderedPage> {
    Some(RenderedPage {
        width: 1,
        height: 1,
        rgba: vec![255; 4],
    })
}

#[test]
fn a_page_that_is_not_there_is_named_from_one() {
    let letter = Some((612_000, 792_000));
    let missing = page_scale(9, 2, letter, Zoom::Factor(1000)).expect_err("no page ten");
    assert_eq!(missing, OpenError::NoSuchPage(9));
    assert!(missing.message().contains("no page 10"));
    assert_eq!(
        page_scale(1, 2, None, Zoom::Factor(1000)),
        Err(OpenError::NoSuchPage(1))
    );
    assert_eq!(page_scale(1, 2, letter, Zoom::Factor(2000)), Ok(2000));

    assert!(page_outcome(Engine::Hayro, drawn()).is_ok());
    assert!(matches!(
        page_outcome(Engine::Hayro, None),
        Err(OpenError::Unreadable)
    ));
    let why = page_outcome(Engine::Pdfium, None).expect_err("not drawn");
    assert_eq!(
        why.message(),
        "PDFium could not draw that PDF: the page could not be drawn"
    );
    assert_eq!(page_index(7), Some(7));
    assert_eq!(page_index(usize::MAX), None);
}

#[test]
fn fit_width_gets_the_width_that_was_asked_for() {
    let scale = clamp_scale(Zoom::FitWidth(320), 612_000, 792_000);
    let width = (scale as i64 * 612 + 500) / 1000;
    assert!((width - 320).abs() <= 1, "{width}");
}

/// A page the size of a football pitch must come back as a picture, not as
/// an allocation failure.
#[test]
fn an_enormous_page_is_drawn_smaller_rather_than_refused() {
    assert!(
        clamp_scale(Zoom::Factor(8000), 20_000_000, 20_000_000) as u64 <= MAX_PIXELS * 1000 / 20_000
    );
    assert_eq!(clamp_scale(Zoom::Factor(1000), 612_000, 792_000), 1000);
    assert_eq!(clamp_scale(Zoom::FitWidth(320), 640_000, 800_000), 500);
    // Zero-sized nonsense must not divide by zero.
    assert_eq!(clamp_scale(Zoom::FitWidth(320), 0, 0), 8000);
    assert_eq!(clamp_scale(Zoom::Factor(0), 612_000, 792_000), 10);
}

/// Both spellings of the preference have to agree about hayro, and `Auto`
/// has to resolve to something in every build.
#[test]
fn preferences_resolve_to_an_engine() {
    for bound in [false, true] {
        let search = PdfiumSearch {
            bound,
            in_vain: false,
        };
        assert_eq!(resolve(EnginePref::Hayro, &search), Engine::Hayro);
        assert_eq!(resolve(EnginePref::Pdfium, &search), Engine::Pdfium);
        let auto = resolve(EnginePref::Auto, &search);
        if pdfium_available(&search) {
            assert_eq!(auto, Engine::Pdfium);
        } else {
            assert_eq!(auto, Engine::Hayro);
        }
    }
    assert_eq!(EnginePref::default(), EnginePref::Auto);
}

#[test]
fn a_failed_search_is_not_repeated_until_something_is_installed() {
    let mut search = PdfiumSearch::default();
    assert!(search.must_look());
    search.looked(false);
    assert!(!search.must_look() && !pdfium_available(&search));
    search_again(&mut search);
    assert!(search.must_look());
    search.looked(true);
    assert!(!search.must_look() && pdfium_available(&search));
    pdfium_search_again(&mut search);
    assert!(pdfium_available(&search), "once bound, always bound");
}

/// Asking for PDFium when it is not installed has to say what to do about
/// it, because the answer is a one-line command.
#[test]
fn a_missing_pdfium_library_says_how_to_get_one() {
    let message = OpenError::PdfiumMissing.message();
    assert!(message.contains("evo fetch-pdfium"), "{message}");
    assert!(message.contains("Preferences"), "{message}");
}

#[test]
fn engine_tags_are_filename_safe() {
    for engine in [Engine::Hayro, Engine::Pdfium] {
        assert!(
            engine.tag().chars().all(|c| c.is_ascii_lowercase()),
            "{}",
            engine.tag()
        );
    }
    assert_ne!(Engine::Hayro.tag(), Engine::Pdfium.tag());
    assert_eq!(Engine::Pdfium.label(), "PDFium");
    assert_eq!(EnginePref::Auto.label(), "Automatic");
}

#[test]
fn the_library_file_name_is_the_platform_name() {
    for os in ["windows", "macos", "linux"] {
        let name = library_file_name(os);
        assert!(name.contains("pdfium"), "{name}");
        assert!(
            name.ends_with(".dll") || name.ends_with(".dylib") || name.ends_with(".so"),
            "{name}"
        );
    }
    assert_eq!(library_file_name("windows"), "pdfium.dll");
}

/// Every search location -- and `EVO_PDFIUM_PATH` above all, which is the
/// escape hatch every packaging problem ends up using -- has to accept
/// both the library file and the directory holding it.
#[test]
fn a_search_location_may_be_the_file_or_its_directory() {
    let dir = "/opt/lib";
    assert_eq!(
        library_at(dir, false, false, "linux"),
        None,
        "an empty directory holds nothing"
    );
    let file = "/opt/lib/libpdfium.so";
    assert_eq!(library_at(dir, false, true, "linux").as_deref(), Some(file));
    assert_eq!(library_at(file, true, false, "linux").as_deref(), Some(file));
    assert_eq!(
        search_locations(Some("/env"), Some("/app/MacOS"), Some("/data")),
        ["/env", "/app/MacOS", "/app/MacOS/../Frameworks", "/data"]
    );
    assert!(search_locations(None, None, None).is_empty());
}

// ---------------------------------------------------------------------------
// Getting PDFium
// ---------------------------------------------------------------------------

const LOCK: &str = "# The PDFium build that evo ships.\n\
PDFIUM_VERSION=7543\n\
PDFIUM_TAG=chromium/7543\n\
PDFIUM_BASE_URL=https://example.org/releases/download/chromium/7543\n\
  PDFIUM_MAC_UNIV_SHA256=1111111111111111111111111111111111111111111111111111111111111111\n\
PDFIUM_LINUX_X64_SHA256=2222222222222222222222222222222222222222222222222222222222222222\n\
PDFIUM_WIN_X64_SHA256=3333333333333333333333333333333333333333333333333333333333333333\n";

fn lock() -> Lock {
    Lock::parse(LOCK).expect("a lock file")
}

fn args(list: &[&str]) -> Vec<String> {
    list.iter().map(|s| (*s).to_owned()).collect::<Vec<_>>()
}

#[test]
fn the_lock_file_pins_a_version_a_url_and_three_checksums() {
    let lock = lock();
    assert!(
        lock.version.chars().all(|c| c.is_ascii_digit()),
        "{:?}",
        lock.version
    );
    assert_eq!(lock.tag, format!("chromium/{}", lock.version));
    assert!(lock.base_url.starts_with("https://"), "{}", lock.base_url);
    assert!(
        lock.base_url.contains(&lock.version),
        "the URL and the version disagree: {}",
        lock.base_url
    );
    for sha in [&lock.mac_univ, &lock.linux_x64, &lock.win_x64] {
        assert_eq!(sha.len(), 64, "{sha} is not a sha256");
        assert!(sha.chars().all(|c| c.is_ascii_hexdigit()), "{sha}");
    }
    assert_ne!(lock.mac_univ, lock.linux_x64);
    assert_eq!(version(&lock), "7543");
    assert_eq!(tag(&lock), "chromium/7543");
    assert!(Lock::parse("PDFIUM_VERSION=1\n").is_none());
}

/// Whatever the platform, its archive has to name a member that ends in the
/// library this platform loads.
#[test]
fn this_platform_has_an_archive_naming_the_library_it_loads() {
    let lock = lock();
    for (os, arch) in [
        ("macos", "aarch64"),
        ("macos", "x86_64"),
        ("linux", "x86_64"),
        ("windows", "x86_64"),
    ] {
        let asset = asset(&lock, os, arch).expect("a pinned archive");
        assert!(asset.file.ends_with(".tgz"), "{}", asset.file);
        assert!(
            asset.member.ends_with(library_file_name(os)),
            "{} does not end in {}",
            asset.member,
            library_file_name(os)
        );
        assert!(asset.url(&lock).starts_with("https://"), "{}", asset.url(&lock));
        assert!(asset.url(&lock).ends_with(asset.file), "{}", asset.url(&lock));
        assert_eq!(asset.sha256.len(), 64);
    }
    // A platform evo does not pin still has to explain itself.
    assert!(asset(&lock, "linux", "aarch64").is_none());
    let message = unsupported_platform("linux", "aarch64");
    assert!(message.contains("EVO_PDFIUM_PATH"), "{message}");
}

#[test]
fn the_install_directory_is_versioned() {
    let lock = lock();
    let dir = pdfium_data_dir("/home/me/.local/share/evo", version(&lock));
    assert!(dir.ends_with(version(&lock)), "{dir}");
    assert!(dir.contains("pdfium"), "{dir}");
    assert_eq!(dir, "/home/me/.local/share/evo/pdfium/7543");
}

#[test]
fn the_first_place_that_has_the_library_wins() {
    let place = |path: &str, is_file: bool, holds: bool| Place {
        path: path.to_owned(),
        is_file,
        holds,
    };
    let places = vec![
        place("/env", false, false),
        place("/app", false, true),
        place("/data/libpdfium.so", true, false),
    ];
    assert_eq!(
        pdfium_library_path(&places, "linux").as_deref(),
        Some("/app/libpdfium.so")
    );
    assert_eq!(pdfium_library_path(&Vec::new(), "linux"), None);
}

/// `evo fetch-pdfium` is typed once, over SSH, by somebody who has just
/// built evo on a server -- so a wrong argument has to print the usage.
#[test]
fn the_command_line_takes_nothing_or_an_into_directory() {
    let lock = lock();
    assert_eq!(destination(&Vec::new(), &lock).expect("the default"), None);
    assert_eq!(
        destination(&args(&["--into", "target/debug"]), &lock).expect("--into"),
        Some("target/debug".to_owned())
    );

    let help = destination(&args(&["--help"]), &lock).expect_err("usage is not a directory");
    assert!(help.starts_with("usage: evo fetch-pdfium"), "{help}");
    assert!(help.contains("--into"), "{help}");

    let wrong = destination(&args(&["target"]), &lock).expect_err("a bare path is not a flag");
    assert!(wrong.contains("--into"), "{wrong}");
    let two = destination(&args(&["--into", "a", "b"]), &lock).expect_err("one directory");
    assert!(two.contains("--into"), "{two}");

    assert_eq!(
        fetch_directory(&Vec::new(), &lock, Some("/data/pdfium/7543")).as_deref(),
        Ok("/data/pdfium/7543")
    );
    assert!(fetch_directory(&Vec::new(), &lock, None).is_err());
}

#[test]
fn what_is_there_is_not_fetched_again() {
    let lock = lock();
    match fetch_plan("/d".to_owned(), &lock, "linux", "x86_64", true) {
        Ok(FetchPlan::AlreadyHere { path }) => assert_eq!(path, "/d/libpdfium.so"),
        _ => panic!("it is installed"),
    }
    match fetch_plan("/d".to_owned(), &lock, "linux", "x86_64", false) {
        Ok(FetchPlan::Fetch { dir, asset }) => {
            assert_eq!(dir, "/d");
            assert_eq!(asset.file, "pdfium-linux-x64.tgz");
            assert_eq!(asset.sha256, lock.linux_x64);
        }
        _ => panic!("it is to be fetched"),
    }
    assert!(fetch_plan("/d".to_owned(), &lock, "plan9", "mips", false).is_err());
}

fn archive(path: &str, content: &[u8]) -> Vec<u8> {
    let encoder = flate2::write::GzEncoder::new(Vec::new(), flate2::Compression::fast());
    let mut builder = tar::Builder::new(encoder);
    let mut header = tar::Header::new_gnu();
    header.set_size(content.len() as u64);
    header.set_mode(0o755);
    header.set_cksum();
    builder
        .append_data(&mut header, path, content)
        .expect("append");
    builder.into_inner().expect("tar").finish().expect("gzip")
}

/// An archive that does not hold the library must be an error naming the
/// file it looked for, not a silent success.
#[test]
fn unpacking_an_archive_without_the_library_says_so() {
    let empty = archive("LICENSE", &b"BSD"[..]);
    let err = unpack(&empty, "empty.tgz", "lib/libpdfium.so", "x.part").expect_err("no library inside");
    assert!(err.contains("lib/libpdfium.so"), "{err}");

    // ...and one that does hold it gives it out.
    let full = archive("lib/libpdfium.so", &b"ELF..."[..]);
    assert_eq!(
        unpack(&full, "full.tgz", "lib/libpdfium.so", "x.part").expect("unpacked"),
        b"ELF..."
    );
}

/// Nothing is unpacked from an archive that is not the pinned one.
#[test]
fn a_download_is_checked_before_it_is_unpacked() {
    let full = archive("lib/libpdfium.so", &b"ELF..."[..]);
    let mut pinned = lock();
    let wrong = asset(&pinned, "linux", "x86_64").expect("an archive");
    assert_eq!(
        install(&full, "full.tgz", &wrong, "x.part").expect_err("another checksum"),
        NOT_THE_RELEASE
    );
    pinned.linux_x64 = evo::serve::library_api::hex_digest(&full);
    let right = asset(&pinned, "linux", "x86_64").expect("an archive");
    assert_eq!(install(&full, "full.tgz", &right, "x.part").expect("unpacked"), b"ELF...");
    let mut cut = full.clone();
    cut.truncate(full.len() - 1);
    assert!(install(&cut, "cut.tgz", &right, "x.part").is_err(), "a truncated download");
}

#[test]
fn an_archive_that_is_none_is_an_error() {
    let err = unpack(&b"not gzip".to_vec(), "bad.tgz", "lib/libpdfium.so", "x.part").expect_err("not an archive");
    assert!(err.starts_with("could not read the PDFium archive: "), "{err}");
    let mut gz = flate2::write::GzEncoder::new(Vec::new(), flate2::Compression::fast());
    gz.write_all(&[7u8; 600]).expect("compress");
    let noise = gz.finish().expect("gzip");
    assert!(unpack(&noise, "noise.tgz", "lib/libpdfium.so", "x.part").is_err());
}

#[test]
fn members_are_looked_at_in_order() {
    let encoder = flate2::write::GzEncoder::new(Vec::new(), flate2::Compression::fast());
    let mut builder = tar::Builder::new(encoder);
    for (path, byte) in [("a", 1_u8), ("b", 2), ("b", 3)] {
        let mut header = tar::Header::new_gnu();
        header.set_size(1);
        header.set_mode(0o644);
        header.set_cksum();
        builder.append_data(&mut header, path, &[byte][..]).expect("append");
    }
    let three = builder.into_inner().expect("tar").finish().expect("gzip");
    assert_eq!(unpack(&three, "three.tgz", "a", "x.part"), Ok(vec![1]));
    assert_eq!(unpack(&three, "three.tgz", "b", "x.part"), Ok(vec![2]));
    assert!(unpack(&three, "three.tgz", "c", "x.part").is_err());
}

#[test]
fn a_member_ends_the_search_or_does_not() {
    let judge = |m: Option<Member>| judge_member(m, "b", "lib.part");
    let read = |name: &str| Some(Member::Read(name.to_owned(), vec![2]));
    assert_eq!(judge(read("a")), None);
    assert_eq!(judge(read("b")), Some(Ok(vec![2])));
    let short = |name: &str| Some(Member::Unreadable(name.to_owned(), "eof".to_owned()));
    assert_eq!(judge(short("a")), None);
    assert_eq!(judge(short("b")), Some(Err("could not write lib.part: eof".to_owned())));
    assert_eq!(
        judge(Some(Member::Broken("eof".to_owned()))),
        Some(Err("could not read the PDFium archive: eof".to_owned()))
    );
    assert_eq!(
        judge(None),
        Some(Err("the PDFium archive did not contain b; evo cannot use it".to_owned()))
    );
}

#[test]
fn a_path_is_put_together_like_one() {
    assert_eq!(join("/data", "pdfium"), "/data/pdfium");
    assert_eq!(join("/data/", "pdfium"), "/data/pdfium");
    assert_eq!(join("", "pdfium"), "pdfium");
    assert_eq!(join("/data", "/pdfium"), "/pdfium");
}

#[test]
fn nothing_is_in_flight_before_anything_starts() {
    let fetch = PdfiumFetch::default();
    assert!(!fetch.in_flight());
    assert_eq!(fetch.status(), None);
}

#[test]
fn one_download_runs_at_a_time() {
    let mut fetch = PdfiumFetch::default();
    assert!(fetch.start(true));
    assert!(fetch.in_flight());
    assert!(!fetch.start(true), "a second call does nothing");
    fetch.finished(Some("no route".to_owned()));
    assert!(!fetch.in_flight());
    assert_eq!(
        fetch.status().and_then(|s| s.error.as_deref()),
        Some("no route")
    );
    fetch.dismiss();
    assert_eq!(
        fetch.status().and_then(|s| s.error.as_deref()),
        Some("no route"),
        "an error stays until the user tries again"
    );
    assert!(fetch.start(true), "and trying again is possible");
    assert!(fetch.status().expect("a download").error.is_none());
    fetch.finished(None);
    fetch.dismiss();
    assert_eq!(fetch.status(), None, "a finished one is forgotten");
    assert!(!fetch.start(false));
    assert!(fetch.status().expect("it says why").error.is_some());
}

#[test]
fn progress_is_said_in_steps() {
    let at = |received: u64| DownloadStatus {
        received,
        total: 200,
        done: false,
        error: None,
    };
    assert_eq!(percent(&at(50)), Some(25));
    assert_eq!(percent(&DownloadStatus::default()), None);
    assert_eq!(progress(None, &at(0)), Some(0));
    assert_eq!(progress(Some(0), &at(19)), None);
    assert_eq!(progress(Some(0), &at(20)), Some(10));
}
