//! Getting the PDFium shared library onto this machine.
//!
//! The version, the URL and the checksums live in a lock file that the release
//! workflow reads as shell and this module reads as text. One file means the
//! binary evo downloads and the binary evo bundles can never drift apart.

use vstd::prelude::*;

use crate::digest::{hex, hex_of, sha256, sha256_of};
use crate::render::engine::{joined, library_file_name, library_name};
use crate::text::{
    after, pieces, same, split, starts, starts_with, strip_prefix, texts, trim, trimmed,
};

verus! {

/// The pinned release, as checked in.
#[derive(Debug)]
pub struct Lock {
    pub version: String,
    pub tag: String,
    pub base_url: String,
    pub mac_univ: String,
    pub linux_x64: String,
    pub win_x64: String,
}

/// What a line of the lock file sets `key` to: the line, trimmed, is the key,
/// an equals sign and the value, and is no comment.
pub open spec fn setting(line: Seq<char>, key: Seq<char>) -> Option<Seq<char>> {
    let t = trimmed(line);
    if starts(t, "#"@) {
        None
    } else {
        match after(t, key) {
            Some(rest) => after(rest, "="@),
            None => None,
        }
    }
}

/// The first setting of `key` among `lines`, from the line number `from` on.
pub open spec fn first_setting(lines: Seq<Seq<char>>, key: Seq<char>, from: int) -> Option<Seq<char>>
    decreases lines.len() - from,
{
    if from < 0 || from >= lines.len() {
        None
    } else {
        match setting(lines[from], key) {
            Some(v) => Some(v),
            None => first_setting(lines, key, from + 1),
        }
    }
}

/// What the lock file sets `key` to.
pub open spec fn pinned(text: Seq<char>, key: Seq<char>) -> Option<Seq<char>> {
    first_setting(pieces(text, "\n"@), key, 0)
}

fn lookup(lines: &Vec<String>, key: &str) -> (r: Option<String>)
    ensures
        match r {
            Some(v) => first_setting(texts(lines@), key@, 0) == Some(v@),
            None => first_setting(texts(lines@), key@, 0) is None,
        },
{
    let mut i: usize = 0;
    while i < lines.len()
        invariant
            i <= lines@.len(),
            first_setting(texts(lines@), key@, 0) == first_setting(texts(lines@), key@, i as int),
        decreases lines@.len() - i,
    {
        proof {
            assert(texts(lines@)[i as int] == lines@[i as int]@);
        }
        let t: String = trim(lines[i].as_str());
        if !starts_with(t.as_str(), "#") {
            if let Some(rest) = strip_prefix(t.as_str(), key) {
                if let Some(value) = strip_prefix(rest.as_str(), "=") {
                    return Some(value);
                }
            }
        }
        i += 1;
    }
    None
}

/// Every key the lock file has to set.
pub open spec fn complete(text: Seq<char>) -> bool {
    &&& pinned(text, "PDFIUM_VERSION"@) is Some
    &&& pinned(text, "PDFIUM_TAG"@) is Some
    &&& pinned(text, "PDFIUM_BASE_URL"@) is Some
    &&& pinned(text, "PDFIUM_MAC_UNIV_SHA256"@) is Some
    &&& pinned(text, "PDFIUM_LINUX_X64_SHA256"@) is Some
    &&& pinned(text, "PDFIUM_WIN_X64_SHA256"@) is Some
}

impl Lock {
    /// Read the lock file. `None` where it lacks one of the settings.
    pub fn parse(text: &str) -> (r: Option<Self>)
        ensures
            r is Some <==> complete(text@),
            r matches Some(lock) ==> {
                &&& pinned(text@, "PDFIUM_VERSION"@) == Some(lock.version@)
                &&& pinned(text@, "PDFIUM_TAG"@) == Some(lock.tag@)
                &&& pinned(text@, "PDFIUM_BASE_URL"@) == Some(lock.base_url@)
                &&& pinned(text@, "PDFIUM_MAC_UNIV_SHA256"@) == Some(lock.mac_univ@)
                &&& pinned(text@, "PDFIUM_LINUX_X64_SHA256"@) == Some(lock.linux_x64@)
                &&& pinned(text@, "PDFIUM_WIN_X64_SHA256"@) == Some(lock.win_x64@)
            },
    {
        proof {
            reveal_strlit("\n");
        }
        let lines: Vec<String> = split(text, "\n");
        let version: Option<String> = lookup(&lines, "PDFIUM_VERSION");
        let tag: Option<String> = lookup(&lines, "PDFIUM_TAG");
        let base_url: Option<String> = lookup(&lines, "PDFIUM_BASE_URL");
        let mac: Option<String> = lookup(&lines, "PDFIUM_MAC_UNIV_SHA256");
        let linux: Option<String> = lookup(&lines, "PDFIUM_LINUX_X64_SHA256");
        let win: Option<String> = lookup(&lines, "PDFIUM_WIN_X64_SHA256");
        match (version, tag, base_url, mac, linux, win) {
            (
                Some(version),
                Some(tag),
                Some(base_url),
                Some(mac_univ),
                Some(linux_x64),
                Some(win_x64),
            ) => Some(Lock { version, tag, base_url, mac_univ, linux_x64, win_x64 }),
            _ => None,
        }
    }
}

/// The PDFium build evo asks for. Also the name of the directory it is
/// installed into, so two versions can sit side by side.
pub fn version(lock: &Lock) -> (r: &str)
    ensures
        r@ == lock.version@,
{
    lock.version.as_str()
}

pub fn tag(lock: &Lock) -> (r: &str)
    ensures
        r@ == lock.tag@,
{
    lock.tag.as_str()
}

/// One prebuilt archive: what to ask for, what it should hash to, and which
/// file inside it is the library.
#[derive(Debug)]
pub struct Asset {
    pub file: &'static str,
    pub sha256: String,
    /// Path of the shared library within the archive.
    pub member: &'static str,
}

impl Asset {
    pub fn url(&self, lock: &Lock) -> (r: String)
        ensures
            r@ == lock.base_url@ + "/"@ + self.file@,
    {
        let mut r: String = lock.base_url.clone();
        r.append("/");
        r.append(self.file);
        r
    }
}

/// The archive for a platform: its file, its checksum and the member to take.
pub open spec fn archive_for(lock: Lock, os: Seq<char>, arch: Seq<char>) -> Option<
    (Seq<char>, Seq<char>, Seq<char>),
> {
    if os == "macos"@ {
        Some(("pdfium-mac-univ.tgz"@, lock.mac_univ@, "lib/libpdfium.dylib"@))
    } else if os == "linux"@ && arch == "x86_64"@ {
        Some(("pdfium-linux-x64.tgz"@, lock.linux_x64@, "lib/libpdfium.so"@))
    } else if os == "windows"@ && arch == "x86_64"@ {
        Some(("pdfium-win-x64.tgz"@, lock.win_x64@, "bin/pdfium.dll"@))
    } else {
        None
    }
}

/// The archive for the platform evo is running on, or `None` where there is no
/// build that evo pins.
pub fn asset(lock: &Lock, os: &str, arch: &str) -> (r: Option<Asset>)
    ensures
        match r {
            Some(a) => archive_for(*lock, os@, arch@) == Some((a.file@, a.sha256@, a.member@)),
            None => archive_for(*lock, os@, arch@) is None,
        },
{
    if same(os, "macos") {
        // Universal: one archive covers Apple silicon and Intel, so there is
        // nothing to join together and nothing to get wrong.
        Some(
            Asset {
                file: "pdfium-mac-univ.tgz",
                sha256: lock.mac_univ.clone(),
                member: "lib/libpdfium.dylib",
            },
        )
    } else if same(os, "linux") && same(arch, "x86_64") {
        Some(
            Asset {
                file: "pdfium-linux-x64.tgz",
                sha256: lock.linux_x64.clone(),
                member: "lib/libpdfium.so",
            },
        )
    } else if same(os, "windows") && same(arch, "x86_64") {
        Some(
            Asset {
                file: "pdfium-win-x64.tgz",
                sha256: lock.win_x64.clone(),
                member: "bin/pdfium.dll",
            },
        )
    } else {
        None
    }
}

/// Whatever the platform, the member taken out of its archive is the library
/// that the platform loads.
pub proof fn law_member_is_the_library(lock: Lock, os: Seq<char>, arch: Seq<char>)
    requires
        archive_for(lock, os, arch) is Some,
    ensures
        ({
            let archive = archive_for(lock, os, arch)->0;
            crate::text::ends(archive.2, library_name(os))
        }),
{
    reveal_strlit("macos");
    reveal_strlit("linux");
    reveal_strlit("windows");
    reveal_strlit("lib/libpdfium.dylib");
    reveal_strlit("libpdfium.dylib");
    reveal_strlit("lib/libpdfium.so");
    reveal_strlit("libpdfium.so");
    reveal_strlit("bin/pdfium.dll");
    reveal_strlit("pdfium.dll");
    let archive = archive_for(lock, os, arch)->0;
    let m = archive.2;
    let n = library_name(os);
    if os == "macos"@ {
        assert("macos"@ != "windows"@) by {
            assert("macos"@.len() != "windows"@.len());
        }
    } else if os == "linux"@ {
        assert("linux"@ != "windows"@) by {
            assert("linux"@.len() != "windows"@.len());
        }
    }
    assert(m.skip(m.len() - n.len()) =~= n);
}

/// What is said on a platform evo has no pinned build for.
pub open spec fn unsupported_text(os: Seq<char>, arch: Seq<char>) -> Seq<char> {
    "evo has no pinned PDFium build for "@ + os + " on "@ + arch
        + ". Build or download one yourself and point evo at it with EVO_PDFIUM_PATH; the hayro renderer works meanwhile."@
}

/// The message for a platform evo has no pinned build for. Its own function
/// because both the button and the command line say it.
pub fn unsupported_platform(os: &str, arch: &str) -> (r: String)
    ensures
        r@ == unsupported_text(os@, arch@),
{
    let mut r: String = "evo has no pinned PDFium build for ".to_owned();
    r.append(os);
    r.append(" on ");
    r.append(arch);
    r.append(
        ". Build or download one yourself and point evo at it with EVO_PDFIUM_PATH; the hayro renderer works meanwhile.",
    );
    r
}

// ---------------------------------------------------------------------------
// The archive
// ---------------------------------------------------------------------------

/// One member of an archive.
pub enum Member {
    /// Its path and its bytes.
    Read(String, Vec<u8>),
    /// Its path, and why its bytes could not be read.
    Unreadable(String, String),
    /// Why there is no telling what it is.
    Broken(String),
}

/// A member as a mathematical value.
pub enum MemberV {
    Read(Seq<char>, Seq<u8>),
    Unreadable(Seq<char>, Seq<char>),
    Broken(Seq<char>),
}

impl View for Member {
    type V = MemberV;

    open spec fn view(&self) -> MemberV {
        match *self {
            Member::Read(path, bytes) => MemberV::Read(path@, bytes@),
            Member::Unreadable(path, why) => MemberV::Unreadable(path@, why@),
            Member::Broken(why) => MemberV::Broken(why@),
        }
    }
}

/// The member at a place of an archive, where there is one.
pub open spec fn member_view(m: Option<Member>) -> Option<MemberV> {
    match m {
        Some(m) => Some(m@),
        None => None,
    }
}

/// What the `tar` crate finds at a place of a gzipped archive: a member, or the
/// end of the archive, or why the archive cannot be opened at all.
pub uninterp spec fn archive_member(archive: Seq<u8>, at: usize) -> Result<
    Option<MemberV>,
    Seq<char>,
>;

/// The member at a place of a gzipped tar that is already in memory, counted as
/// `tar::Archive::entries` gives them, over `flate2::read::GzDecoder`, with its
/// path as it is written and its bytes. What it is depends on the bytes of the
/// archive alone.
#[verifier::external_body]
fn read_member(archive: &Vec<u8>, at: usize) -> (r: Result<Option<Member>, String>)
    ensures
        match r {
            Ok(m) => archive_member(archive@, at) == Ok::<_, Seq<char>>(member_view(m)),
            Err(e) => archive_member(archive@, at) == Err::<Option<MemberV>, _>(e@),
        },
{
    let mut tar = tar::Archive::new(flate2::read::GzDecoder::new(archive.as_slice()));
    let mut bytes: Vec<u8> = Vec::new();
    Ok(match tar.entries().map_err(|e| e.to_string())?.nth(at) {
        None => None,
        Some(Err(why)) => Some(Member::Broken(why.to_string())),
        Some(Ok(mut e)) => {
            let path = String::from_utf8_lossy(&e.path_bytes()).into_owned();
            Some(match std::io::Read::read_to_end(&mut e, &mut bytes) {
                Ok(_) => Member::Read(path, bytes),
                Err(why) => Member::Unreadable(path, why.to_string()),
            })
        },
    })
}

/// What a member means to the search for `member`, whose bytes go to `part`: its
/// end, or that it goes on.
pub open spec fn judged(m: Option<MemberV>, member: Seq<char>, part: Seq<char>) -> Option<
    Result<Seq<u8>, Seq<char>>,
> {
    match m {
        None => Some(Err("the PDFium archive did not contain "@ + member + "; evo cannot use it"@)),
        Some(MemberV::Broken(why)) => Some(Err("could not read the PDFium archive: "@ + why)),
        Some(MemberV::Unreadable(path, why)) => if path == member {
            Some(Err("could not write "@ + part + ": "@ + why))
        } else {
            None
        },
        Some(MemberV::Read(path, bytes)) => if path == member {
            Some(Ok(bytes))
        } else {
            None
        },
    }
}

/// What a member means to the search for `member`.
pub fn judge_member(m: Option<Member>, member: &str, part: &str) -> (r: Option<
    Result<Vec<u8>, String>,
>)
    ensures
        match r {
            Some(Ok(bytes)) => judged(member_view(m), member@, part@) == Some(
                Ok::<_, Seq<char>>(bytes@),
            ),
            Some(Err(e)) => judged(member_view(m), member@, part@) == Some(
                Err::<Seq<u8>, _>(e@),
            ),
            None => judged(member_view(m), member@, part@) is None,
        },
{
    match m {
        None => {
            let mut e: String = "the PDFium archive did not contain ".to_owned();
            e.append(member);
            e.append("; evo cannot use it");
            Some(Err(e))
        },
        Some(Member::Broken(why)) => {
            let mut e: String = "could not read the PDFium archive: ".to_owned();
            e.append(why.as_str());
            Some(Err(e))
        },
        Some(Member::Unreadable(path, why)) => {
            if !same(path.as_str(), member) {
                return None;
            }
            let mut e: String = "could not write ".to_owned();
            e.append(part);
            e.append(": ");
            e.append(why.as_str());
            Some(Err(e))
        },
        Some(Member::Read(path, bytes)) => {
            if !same(path.as_str(), member) {
                return None;
            }
            Some(Ok(bytes))
        },
    }
}

/// What taking one member out of an archive gives, looked for from a place on:
/// `path` is where the archive is, and `part` where the member goes. Nothing is
/// looked for past the largest number there is.
pub open spec fn unpacked_from(
    archive: Seq<u8>,
    path: Seq<char>,
    member: Seq<char>,
    part: Seq<char>,
    at: usize,
) -> Result<Seq<u8>, Seq<char>>
    decreases usize::MAX - at,
{
    match archive_member(archive, at) {
        Err(why) => Err(path + " is not a readable archive: "@ + why),
        Ok(m) => match judged(m, member, part) {
            Some(r) => r,
            None => if at < usize::MAX {
                unpacked_from(archive, path, member, part, (at + 1) as usize)
            } else {
                judged(None, member, part)->0
            },
        },
    }
}

/// What taking one member out of an archive gives.
pub open spec fn unpacked(
    archive: Seq<u8>,
    path: Seq<char>,
    member: Seq<char>,
    part: Seq<char>,
) -> Result<Seq<u8>, Seq<char>> {
    unpacked_from(archive, path, member, part, 0)
}

/// The bytes of one member of a gzipped tar, `path` being where the archive is
/// and `part` where the member goes.
pub fn unpack(archive: &Vec<u8>, path: &str, member: &str, part: &str) -> (r: Result<
    Vec<u8>,
    String,
>)
    ensures
        match r {
            Ok(bytes) => unpacked(archive@, path@, member@, part@) == Ok::<_, Seq<char>>(bytes@),
            Err(e) => unpacked(archive@, path@, member@, part@) == Err::<Seq<u8>, _>(e@),
        },
{
    let mut at: usize = 0;
    loop
        invariant
            unpacked(archive@, path@, member@, part@) == unpacked_from(
                archive@,
                path@,
                member@,
                part@,
                at,
            ),
        decreases usize::MAX - at,
    {
        match read_member(archive, at) {
            Ok(m) => {
                if let Some(r) = judge_member(m, member, part) {
                    return r;
                }
            },
            Err(why) => {
                let mut e: String = path.to_owned();
                e.append(" is not a readable archive: ");
                e.append(why.as_str());
                return Err(e);
            },
        }
        if at == usize::MAX {
            let mut e: String = "the PDFium archive did not contain ".to_owned();
            e.append(member);
            e.append("; evo cannot use it");
            return Err(e);
        }
        at += 1;
    }
}

/// What is said of a download that is not the release that was pinned.
pub const NOT_THE_RELEASE: &'static str =
    "The PDFium download does not match its checksum, so evo did not unpack it. Try again.";

/// The library out of a downloaded archive, `path` being where the archive is
/// and `part` where the library goes.
///
/// The archive is checked against its checksum before anything is unpacked, so
/// a truncated download can never leave a half-library behind to be loaded.
pub fn install(archive: &Vec<u8>, path: &str, asset: &Asset, part: &str) -> (r: Result<
    Vec<u8>,
    String,
>)
    ensures
        hex_of(sha256_of(archive@)) != asset.sha256@ ==> (r matches Err(e) && e@
            == NOT_THE_RELEASE@),
        hex_of(sha256_of(archive@)) == asset.sha256@ ==> match r {
            Ok(bytes) => unpacked(archive@, path@, asset.member@, part@) == Ok::<_, Seq<char>>(bytes@),
            Err(e) => unpacked(archive@, path@, asset.member@, part@) == Err::<Seq<u8>, _>(e@),
        },
{
    let digest: String = hex(&sha256(archive.as_slice()));
    if !same(digest.as_str(), asset.sha256.as_str()) {
        return Err(NOT_THE_RELEASE.to_owned());
    }
    unpack(archive, path, asset.member, part)
}

// ---------------------------------------------------------------------------
// The Preferences button
// ---------------------------------------------------------------------------

/// How far a download has got.
#[derive(Clone, Debug, PartialEq, Eq)]
pub struct DownloadStatus {
    pub received: u64,
    pub total: u64,
    pub done: bool,
    pub error: Option<String>,
}

impl Default for DownloadStatus {
    fn default() -> (r: Self)
        ensures
            r.received == 0 && r.total == 0 && !r.done && r.error is None,
    {
        DownloadStatus { received: 0, total: 0, done: false, error: None }
    }
}

/// The "Get PDFium" download: a status that the UI polls.
pub struct PdfiumFetch {
    pub current: Option<DownloadStatus>,
}

impl Default for PdfiumFetch {
    fn default() -> (r: Self)
        ensures
            r.current is None,
    {
        PdfiumFetch { current: None }
    }
}

impl PdfiumFetch {
    /// Whether a download is running.
    pub open spec fn running(&self) -> bool {
        self.current matches Some(s) && !s.done
    }

    /// Start the download, `has_dir` saying whether there is a directory to put
    /// it in: whether to begin one now. A second call while one is running does
    /// nothing.
    pub fn start(&mut self, has_dir: bool) -> (r: bool)
        ensures
            r == (!old(self).running() && has_dir),
            old(self).running() ==> *final(self) == *old(self),
            r ==> (final(self).current matches Some(s) && s.received == 0 && s.total == 0 && !s.done
                && s.error is None),
            !old(self).running() && !has_dir ==> (final(self).current matches Some(s) && s.done && (
            s.error matches Some(e) && e@
                == "evo could not find a data directory to keep PDFium in."@)),
    {
        if self.in_flight() {
            return false;
        }
        if !has_dir {
            self.current = Some(
                DownloadStatus {
                    received: 0,
                    total: 0,
                    done: true,
                    error: Some(
                        "evo could not find a data directory to keep PDFium in.".to_owned(),
                    ),
                },
            );
            return false;
        }
        self.current = Some(DownloadStatus::default());
        true
    }

    /// Take note of how the download ended.
    pub fn finished(&mut self, error: Option<String>)
        ensures
            match old(self).current {
                Some(s) => final(self).current matches Some(t) && t.done && t.error == error
                    && t.received == s.received && t.total == s.total,
                None => *final(self) == *old(self),
            },
    {
        let mut current: Option<DownloadStatus> = None;
        core::mem::swap(&mut current, &mut self.current);
        if let Some(s) = current {
            self.current = Some(
                DownloadStatus { received: s.received, total: s.total, done: true, error },
            );
        }
    }

    pub fn status(&self) -> (r: Option<&DownloadStatus>)
        ensures
            match (r, self.current) {
                (Some(a), Some(b)) => *a == b,
                (None, None) => true,
                _ => false,
            },
    {
        self.current.as_ref()
    }

    pub fn in_flight(&self) -> (r: bool)
        ensures
            r == self.running(),
    {
        match &self.current {
            Some(s) => !s.done,
            None => false,
        }
    }

    /// Forget a finished download, so the row goes back to showing the library
    /// on disk. Errors stay until the user tries again.
    pub fn dismiss(&mut self)
        ensures
            (old(self).current matches Some(s) && s.error is Some) ==> *final(self) == *old(self),
            !(old(self).current matches Some(s) && s.error is Some) ==> final(self).current is None,
    {
        let failed: bool = match &self.current {
            Some(s) => s.error.is_some(),
            None => false,
        };
        if !failed {
            self.current = None;
        }
    }
}

// ---------------------------------------------------------------------------
// `evo fetch-pdfium` -- the same download, without a window
// ---------------------------------------------------------------------------

/// How often the progress line is reprinted, in whole percent.
pub const PROGRESS_STEP: u64 = 10;

/// What `evo fetch-pdfium --help` prints.
pub open spec fn usage_text(tag: Seq<char>) -> Seq<char> {
    "usage: evo fetch-pdfium [--into <dir>]\n\n  Downloads the PDFium rendering library ("@ + tag
        + ") so evo can rasterize\n  pages with it. Release builds already ship it; this is for source\n  builds and servers.\n\n  --into <dir>   Put the library in <dir> instead of evo's data\n                 directory. Use it to drop a copy beside a development\n                 binary: `cargo run -- fetch-pdfium --into target/debug`.\n"@
}

pub fn usage(lock: &Lock) -> (r: String)
    ensures
        r@ == usage_text(lock.tag@),
{
    let mut r: String =
    "usage: evo fetch-pdfium [--into <dir>]\n\n  Downloads the PDFium rendering library (".to_owned();
    r.append(lock.tag.as_str());
    r.append(
        ") so evo can rasterize\n  pages with it. Release builds already ship it; this is for source\n  builds and servers.\n\n  --into <dir>   Put the library in <dir> instead of evo's data\n                 directory. Use it to drop a copy beside a development\n                 binary: `cargo run -- fetch-pdfium --into target/debug`.\n",
    );
    r
}

/// Where the arguments say to install: a directory, nowhere in particular, or
/// what is wrong with them.
pub open spec fn said(args: Seq<Seq<char>>, tag: Seq<char>) -> Result<Option<Seq<char>>, Seq<char>> {
    if args.len() == 0 {
        Ok(None)
    } else if args.len() == 1 && (args[0] == "--help"@ || args[0] == "-h"@) {
        Err(usage_text(tag))
    } else if args.len() == 2 && args[0] == "--into"@ {
        Ok(Some(args[1]))
    } else {
        Err("evo fetch-pdfium takes an optional --into <dir>.\n\n"@ + usage_text(tag))
    }
}

/// Where the arguments say to install.
pub fn destination(args: &Vec<String>, lock: &Lock) -> (r: Result<Option<String>, String>)
    ensures
        match r {
            Ok(Some(dir)) => said(texts(args@), lock.tag@) == Ok::<_, Seq<char>>(Some(dir@)),
            Ok(None) => said(texts(args@), lock.tag@) == Ok::<Option<Seq<char>>, Seq<char>>(None),
            Err(e) => said(texts(args@), lock.tag@) == Err::<Option<Seq<char>>, _>(e@),
        },
{
    proof {
        assert forall|i: int| 0 <= i < args@.len() implies texts(args@)[i] == args@[i]@ by {}
    }
    if args.len() == 0 {
        return Ok(None);
    }
    if args.len() == 1 && (same(args[0].as_str(), "--help") || same(args[0].as_str(), "-h")) {
        return Err(usage(lock));
    }
    if args.len() == 2 && same(args[0].as_str(), "--into") {
        return Ok(Some(args[1].clone()));
    }
    let mut e: String = "evo fetch-pdfium takes an optional --into <dir>.\n\n".to_owned();
    e.append(usage(lock).as_str());
    Err(e)
}

/// What fetching comes to, before anything is downloaded.
pub enum FetchPlan {
    /// The library is already in the directory.
    AlreadyHere { path: String },
    /// This archive is to be fetched into this directory.
    Fetch { dir: String, asset: Asset },
}

/// Where `evo fetch-pdfium` would put the library, given its arguments and the
/// data directory, or what is wrong.
pub fn fetch_directory(args: &Vec<String>, lock: &Lock, data_dir: Option<&str>) -> (r: Result<
    String,
    String,
>)
    ensures
        match said(texts(args@), lock.tag@) {
            Ok(Some(dir)) => r matches Ok(d) && d@ == dir,
            Ok(None) => match data_dir {
                Some(dir) => r matches Ok(d) && d@ == dir@,
                None => r matches Err(e) && e@
                    == "evo could not find a data directory to keep PDFium in."@,
            },
            Err(why) => r matches Err(e) && e@ == why,
        },
{
    match destination(args, lock) {
        Ok(Some(dir)) => Ok(dir),
        Ok(None) => match data_dir {
            Some(dir) => Ok(dir.to_owned()),
            None => Err("evo could not find a data directory to keep PDFium in.".to_owned()),
        },
        Err(e) => Err(e),
    }
}

/// What to do once the directory is known: `installed` says whether the library
/// is in it.
pub fn fetch_plan(dir: String, lock: &Lock, os: &str, arch: &str, installed: bool) -> (r: Result<
    FetchPlan,
    String,
>)
    ensures
        match archive_for(*lock, os@, arch@) {
            None => r matches Err(e) && e@ == unsupported_text(os@, arch@),
            Some(a) => if installed {
                r matches Ok(FetchPlan::AlreadyHere { path }) && path@ == joined(
                    dir@,
                    library_name(os@),
                )
            } else {
                r matches Ok(FetchPlan::Fetch { dir: d, asset }) && d@ == dir@ && (
                asset.file@,
                asset.sha256@,
                asset.member@,
                ) == a
            },
        },
{
    match asset(lock, os, arch) {
        None => Err(unsupported_platform(os, arch)),
        Some(asset) => if installed {
            Ok(
                FetchPlan::AlreadyHere {
                    path: crate::render::engine::join(dir.as_str(), library_file_name(os)),
                },
            )
        } else {
            Ok(FetchPlan::Fetch { dir, asset })
        },
    }
}

/// How much of the download has arrived, in whole percent.
pub open spec fn percentage(received: u64, total: u64) -> Option<u64> {
    if total > 0 {
        Some((received * 100 / total as int) as u64)
    } else {
        None
    }
}

/// How much of the download has arrived, in whole percent, where it is known
/// how much there is.
pub fn percent(status: &DownloadStatus) -> (r: Option<u64>)
    ensures
        r == percentage(status.received, status.total),
{
    if status.total > 0 {
        let whole: u128 = status.received as u128 * 100 / status.total as u128;
        Some(#[verifier::truncate] (whole as u64))
    } else {
        None
    }
}

/// The percentage to print next, where enough has arrived since `last` was
/// printed; at first, `last` is `None`.
pub fn progress(last: Option<u64>, status: &DownloadStatus) -> (r: Option<u64>)
    ensures
        match percentage(status.received, status.total) {
            None => r is None,
            Some(p) => r == if (last matches Some(l) ==> p >= l + PROGRESS_STEP) {
                Some(p)
            } else {
                None
            },
        },
{
    match percent(status) {
        None => None,
        Some(p) => {
            let due: bool = match last {
                Some(l) => p >= PROGRESS_STEP && p - PROGRESS_STEP >= l,
                None => true,
            };
            if due {
                Some(p)
            } else {
                None
            }
        },
    }
}

} // verus!
