//! The rasterization seam: which of two engines draws a page, how big, and
//! what is said when one cannot.

use vstd::prelude::*;

use crate::text::{decimal, decimal_of, to_chars};

verus! {

/// No page is rasterized larger than this on either side. A PDF may declare a
/// page metres across; at a high zoom that is a picture nobody can hold in
/// memory, let alone look at.
pub const MAX_PIXELS: u64 = 8000;

/// Which rasterizer drew a page.
#[derive(Clone, Copy, PartialEq, Eq, Structural, Debug)]
pub enum Engine {
    Hayro,
    Pdfium,
}

impl Engine {
    /// How the engine is named to a person.
    pub fn label(self) -> (r: &'static str)
        ensures
            r@ == (match self {
                Engine::Hayro => "hayro"@,
                Engine::Pdfium => "PDFium"@,
            }),
    {
        match self {
            Engine::Hayro => "hayro",
            Engine::Pdfium => "PDFium",
        }
    }

    /// The engine's name as part of a file name.
    pub open spec fn mark(self) -> Seq<char> {
        match self {
            Engine::Hayro => "hayro"@,
            Engine::Pdfium => "pdfium"@,
        }
    }

    /// Lower-case and filename-safe: this is part of the `evo serve` page
    /// cache key, so that switching engines can never serve stale pixels.
    pub fn tag(self) -> (r: &'static str)
        ensures
            r@ == self.mark(),
    {
        match self {
            Engine::Hayro => "hayro",
            Engine::Pdfium => "pdfium",
        }
    }
}

/// Which rasterizer the user asked for.
#[derive(Clone, Copy, PartialEq, Eq, Structural, Debug)]
pub enum EnginePref {
    /// PDFium when its library is on this machine, hayro otherwise. The
    /// default, and what almost everybody should leave it on.
    Auto,
    Hayro,
    Pdfium,
}

impl Default for EnginePref {
    fn default() -> (r: Self)
        ensures
            r is Auto,
    {
        EnginePref::Auto
    }
}

impl EnginePref {
    pub fn label(self) -> (r: &'static str)
        ensures
            r@ == (match self {
                EnginePref::Auto => "Automatic"@,
                EnginePref::Hayro => "hayro"@,
                EnginePref::Pdfium => "PDFium"@,
            }),
    {
        match self {
            EnginePref::Auto => "Automatic",
            EnginePref::Hayro => "hayro",
            EnginePref::Pdfium => "PDFium",
        }
    }
}

/// One rasterized page: straight (un-premultiplied) RGBA, row-major, no
/// padding.
#[derive(Debug)]
pub struct RenderedPage {
    pub width: u32,
    pub height: u32,
    pub rgba: Vec<u8>,
}

/// How big to draw a page.
#[derive(Clone, Copy, PartialEq, Eq, Structural, Debug)]
pub enum Zoom {
    /// Thousandths of a pixel per PDF point.
    Factor(u32),
    /// Whatever scale makes the page this many pixels wide.
    FitWidth(u32),
}

#[derive(Clone, Debug, PartialEq, Eq)]
pub enum OpenError {
    /// The bytes are not a PDF evo can read.
    Unreadable,
    /// The document is there, the page is not.
    NoSuchPage(usize),
    /// PDFium was asked for by name and its library is not on this machine.
    PdfiumMissing,
    /// PDFium is here but would not open or draw this document.
    Pdfium(String),
}

// ---------------------------------------------------------------------------
// Reading a document
// ---------------------------------------------------------------------------

/// What reading a document comes to. Damaged bytes can make hayro panic, so
/// whoever reads them does so behind a guard, and says here what came of it.
#[derive(Clone, Copy, PartialEq, Eq, Structural, Debug)]
pub enum Opened {
    /// A document, with this many pages.
    Pages(usize),
    /// A document that wants another password.
    NeedsPassword,
    /// Nothing that can be read, or something the reader broke off at.
    Unreadable,
}

/// A document hayro has read.
pub struct HayroEngineDoc {
    pub pages: usize,
}

impl HayroEngineDoc {
    /// The document, where reading came to one. A wrong password is as little
    /// use here as damaged bytes.
    pub fn open(opened: Opened) -> (r: Result<Self, OpenError>)
        ensures
            match opened {
                Opened::Pages(pages) => r == Ok::<_, OpenError>(
                    (HayroEngineDoc { pages }),
                ),
                _ => r is Err && r->Err_0 is Unreadable,
            },
    {
        match opened {
            Opened::Pages(pages) => Ok(HayroEngineDoc { pages }),
            _ => Err(OpenError::Unreadable),
        }
    }

    pub fn engine(&self) -> (r: Engine)
        ensures
            r is Hayro,
    {
        Engine::Hayro
    }

    pub fn page_count(&self) -> (r: usize)
        ensures
            r == self.pages,
    {
        self.pages
    }
}

/// Open a document with an engine. There is no PDFium built in to fall back on,
/// so asking for it by name is an error that says so.
pub fn open(engine: Engine, opened: Opened) -> (r: Result<HayroEngineDoc, OpenError>)
    ensures
        match (engine, opened) {
            (Engine::Pdfium, _) => r is Err && r->Err_0 is PdfiumMissing,
            (Engine::Hayro, Opened::Pages(pages)) => r == Ok::<_, OpenError>(
                (HayroEngineDoc { pages }),
            ),
            (Engine::Hayro, _) => r is Err && r->Err_0 is Unreadable,
        },
{
    match engine {
        Engine::Hayro => HayroEngineDoc::open(opened),
        Engine::Pdfium => Err(OpenError::PdfiumMissing),
    }
}

/// What is said of an error.
pub open spec fn open_error_text(e: OpenError) -> Seq<char> {
    match e {
        OpenError::Unreadable => "evo could not read that PDF."@,
        OpenError::NoSuchPage(page) => "that document has no page "@ + decimal(
            (page + 1) as nat,
        ) + "."@,
        OpenError::PdfiumMissing =>
        "evo could not find the PDFium library. Run `evo fetch-pdfium` to download it, reinstall evo to get the copy that ships with it, or choose the hayro renderer in Preferences."@,
        OpenError::Pdfium(why) => "PDFium could not draw that PDF: "@ + why@,
    }
}

impl OpenError {
    /// What to tell the user.
    pub fn message(&self) -> (r: String)
        requires
            self matches OpenError::NoSuchPage(page) ==> page < u64::MAX && page < usize::MAX,
        ensures
            r@ == open_error_text(*self),
    {
        match self {
            OpenError::Unreadable => "evo could not read that PDF.".to_owned(),
            OpenError::NoSuchPage(page) => {
                let mut r: String = "that document has no page ".to_owned();
                r.append(decimal_of(*page as u64 + 1).as_str());
                r.append(".");
                r
            },
            OpenError::PdfiumMissing =>
            "evo could not find the PDFium library. Run `evo fetch-pdfium` to download it, reinstall evo to get the copy that ships with it, or choose the hayro renderer in Preferences.".to_owned(),
            OpenError::Pdfium(why) => {
                let mut r: String = "PDFium could not draw that PDF: ".to_owned();
                r.append(why.as_str());
                r
            },
        }
    }
}

/// Which engine a preference resolves to.
pub open spec fn resolved(pref: EnginePref, available: bool) -> Engine {
    match pref {
        EnginePref::Hayro => Engine::Hayro,
        EnginePref::Pdfium => Engine::Pdfium,
        EnginePref::Auto => if available {
            Engine::Pdfium
        } else {
            Engine::Hayro
        },
    }
}

/// Which engine a preference resolves to right now.
///
/// `Auto` asks whether PDFium can actually be loaded, not merely whether a
/// file exists somewhere: a preference that resolves to an engine that cannot
/// draw would be a blank window rather than a fallback.
pub fn resolve(pref: EnginePref, pdfium: &PdfiumSearch) -> (r: Engine)
    ensures
        r == resolved(pref, pdfium.bound),
{
    match pref {
        EnginePref::Hayro => Engine::Hayro,
        EnginePref::Pdfium => Engine::Pdfium,
        EnginePref::Auto => {
            if pdfium_available(pdfium) {
                Engine::Pdfium
            } else {
                Engine::Hayro
            }
        },
    }
}

/// How far the search for PDFium has got in this process.
pub struct PdfiumSearch {
    /// The library is loaded. Once it is, it is for the life of the process.
    pub bound: bool,
    /// Set once evo has looked for the library and not found one. Without it,
    /// every page of every document on a machine with no PDFium would pay for
    /// another failed load.
    pub in_vain: bool,
}

impl Default for PdfiumSearch {
    fn default() -> (r: Self)
        ensures
            !r.bound,
            !r.in_vain,
    {
        PdfiumSearch { bound: false, in_vain: false }
    }
}

impl PdfiumSearch {
    /// Whether asking for PDFium now means looking for it first.
    pub fn must_look(&self) -> (r: bool)
        ensures
            r == (!self.bound && !self.in_vain),
    {
        !self.bound && !self.in_vain
    }

    /// Take note of what a look for the library found.
    pub fn looked(&mut self, found: bool)
        requires
            !old(self).bound,
            !old(self).in_vain,
        ensures
            final(self).bound == found,
            final(self).in_vain == !found,
    {
        self.bound = found;
        self.in_vain = !found;
    }
}

/// Can PDFium draw on this machine right now?
pub fn pdfium_available(search: &PdfiumSearch) -> (r: bool)
    ensures
        r == search.bound,
{
    search.bound
}

/// Look for PDFium again after something has been installed, so a download
/// that has just finished counts without restarting evo.
pub fn pdfium_search_again(search: &mut PdfiumSearch)
    ensures
        final(search).bound == old(search).bound,
        !final(search).in_vain,
{
    search_again(search);
}

/// Look again, after something has been installed. Only a *failed* search is
/// forgotten -- once PDFium is bound it is bound for the life of the process.
pub fn search_again(search: &mut PdfiumSearch)
    ensures
        final(search).bound == old(search).bound,
        !final(search).in_vain,
{
    search.in_vain = false;
}

/// PDFium indexes pages with an `i32`; anything past that is not a document.
pub fn page_index(page: usize) -> (r: Option<i32>)
    ensures
        match r {
            Some(i) => i == page,
            None => page > i32::MAX,
        },
{
    if page <= i32::MAX as usize {
        Some(page as i32)
    } else {
        None
    }
}

/// `v`, between `lo` and `hi`.
pub open spec fn between(v: int, lo: int, hi: int) -> int {
    if v < lo {
        lo
    } else if v > hi {
        hi
    } else {
        v
    }
}

/// A side in thousandths of a point, taken as at least one point.
pub open spec fn at_least_a_point(side: u32) -> int {
    if side < 1000 {
        1000
    } else {
        side as int
    }
}

/// The scale, in thousandths of a pixel per point, at which a page of this size
/// (in thousandths of a point) is drawn.
pub open spec fn scale_for(zoom: Zoom, width: u32, height: u32) -> int {
    let (w, h) = (at_least_a_point(width), at_least_a_point(height));
    let asked = match zoom {
        Zoom::Factor(factor) => factor as int,
        Zoom::FitWidth(pixels) => pixels * 1_000_000 / w,
    };
    let most_w = MAX_PIXELS * 1_000_000 / w;
    let most_h = MAX_PIXELS * 1_000_000 / h;
    let least = if asked < most_w {
        asked
    } else {
        most_w
    };
    between(
        if least < most_h {
            least
        } else {
            most_h
        },
        10,
        8000,
    )
}

/// Turn a requested zoom into a scale no engine will choke on.
///
/// Clamped rather than refused: a page that is absurdly large is still a page
/// somebody wants to look at, only smaller than they asked for.
pub fn clamp_scale(zoom: Zoom, width: u32, height: u32) -> (r: u32)
    ensures
        r == scale_for(zoom, width, height),
        10 <= r <= 8000,
{
    let w: u64 = if width < 1000 { 1000 } else { width as u64 };
    let h: u64 = if height < 1000 { 1000 } else { height as u64 };
    let asked: u64 = match zoom {
        Zoom::Factor(factor) => factor as u64,
        Zoom::FitWidth(pixels) => pixels as u64 * 1_000_000 / w,
    };
    let most_w: u64 = 8_000_000_000 / w;
    let most_h: u64 = 8_000_000_000 / h;
    let least: u64 = if asked < most_w { asked } else { most_w };
    let scale: u64 = if least < most_h { least } else { most_h };
    if scale < 10 {
        10
    } else if scale > 8000 {
        8000
    } else {
        scale as u32
    }
}

/// The scale to draw one page of an opened document at, from how many pages it
/// has and how big the page asked for is, in thousandths of a point.
pub fn page_scale(page: usize, page_count: usize, size: Option<(u32, u32)>, zoom: Zoom) -> (r:
    Result<u32, OpenError>)
    ensures
        match r {
            Ok(scale) => page < page_count && (size matches Some(s) && scale == scale_for(
                zoom,
                s.0,
                s.1,
            )),
            Err(OpenError::NoSuchPage(n)) => n == page && (page >= page_count || size is None),
            Err(_) => false,
        },
{
    if page >= page_count {
        return Err(OpenError::NoSuchPage(page));
    }
    match size {
        Some((width, height)) => Ok(clamp_scale(zoom, width, height)),
        None => Err(OpenError::NoSuchPage(page)),
    }
}

/// What drawing the page came to.
pub fn page_outcome(engine: Engine, drawn: Option<RenderedPage>) -> (r: Result<
    RenderedPage,
    OpenError,
>)
    ensures
        match r {
            Ok(p) => drawn == Some(p),
            Err(OpenError::Unreadable) => drawn is None && engine is Hayro,
            Err(OpenError::Pdfium(why)) => drawn is None && engine is Pdfium && why@
                == "the page could not be drawn"@,
            Err(_) => false,
        },
{
    match drawn {
        Some(p) => Ok(p),
        None => match engine {
            Engine::Hayro => Err(OpenError::Unreadable),
            Engine::Pdfium => Err(OpenError::Pdfium("the page could not be drawn".to_owned())),
        },
    }
}

/// A page is never drawn more than `MAX_PIXELS` wide or tall, however large it
/// says it is, unless at the smallest scale there is.
pub proof fn law_no_page_is_too_big(zoom: Zoom, width: u32, height: u32)
    ensures
        scale_for(zoom, width, height) == 10 || (scale_for(zoom, width, height) * width
            <= MAX_PIXELS * 1_000_000 && scale_for(zoom, width, height) * height <= MAX_PIXELS
            * 1_000_000),
{
    let r = scale_for(zoom, width, height);
    let (w, h) = (at_least_a_point(width), at_least_a_point(height));
    if r != 10 {
        let (a, b) = (8_000_000_000int / w, 8_000_000_000int / h);
        assert(r <= a && r <= b);
        assert(r * width <= 8_000_000_000) by (nonlinear_arith)
            requires
                0 <= r <= a,
                a == 8_000_000_000int / w,
                0 <= width <= w,
                w >= 1000,
        ;
        assert(r * height <= 8_000_000_000) by (nonlinear_arith)
            requires
                0 <= r <= b,
                b == 8_000_000_000int / h,
                0 <= height <= h,
                h >= 1000,
        ;
    }
}

/// The platform's name for the PDFium shared library.
pub open spec fn library_name(os: Seq<char>) -> Seq<char> {
    if os == "windows"@ {
        "pdfium.dll"@
    } else if os == "macos"@ {
        "libpdfium.dylib"@
    } else {
        "libpdfium.so"@
    }
}

/// The platform's name for the PDFium shared library.
pub fn library_file_name(os: &str) -> (r: &'static str)
    ensures
        r@ == library_name(os@),
{
    if crate::text::same(os, "windows") {
        "pdfium.dll"
    } else if crate::text::same(os, "macos") {
        "libpdfium.dylib"
    } else {
        "libpdfium.so"
    }
}

/// `name` inside the directory `dir`, as a path is put together: a name that
/// begins at the root stands for itself, and there is one slash in between
/// where there is anything to divide.
pub open spec fn joined(dir: Seq<char>, name: Seq<char>) -> Seq<char> {
    if name.len() > 0 && name[0] == '/' {
        name
    } else if dir.len() == 0 || dir.last() == '/' {
        dir + name
    } else {
        dir + "/"@ + name
    }
}

/// `name` inside the directory `dir`.
pub fn join(dir: &str, name: &str) -> (r: String)
    ensures
        r@ == joined(dir@, name@),
{
    let d: Vec<char> = to_chars(dir);
    let n: Vec<char> = to_chars(name);
    if n.len() > 0 && n[0] == '/' {
        return name.to_owned();
    }
    let mut r: String = dir.to_owned();
    if d.len() > 0 && d[d.len() - 1] != '/' {
        r.append("/");
    }
    r.append(name);
    r
}

/// Where evo looks for the PDFium library, in order: what `EVO_PDFIUM_PATH`
/// says, then beside the running binary -- including the `Frameworks`
/// directory of a macOS `.app` -- then where `evo fetch-pdfium` installs.
pub fn search_locations(from_env: Option<&str>, exe_dir: Option<&str>, data_dir: Option<&str>) -> (r:
    Vec<String>)
    ensures
        crate::text::texts(r@) == locations(
            match from_env {
                Some(s) => Some(s@),
                None => None,
            },
            match exe_dir {
                Some(s) => Some(s@),
                None => None,
            },
            match data_dir {
                Some(s) => Some(s@),
                None => None,
            },
        ),
{
    let mut r: Vec<String> = Vec::new();
    let ghost mut all: Seq<Seq<char>> = Seq::empty();
    if let Some(s) = from_env {
        r.push(s.to_owned());
        proof {
            all = all.push(s@);
        }
    }
    if let Some(dir) = exe_dir {
        r.push(dir.to_owned());
        let up: String = join(dir, "..");
        r.push(join(up.as_str(), "Frameworks"));
        proof {
            all = all.push(dir@).push(joined(joined(dir@, ".."@), "Frameworks"@));
        }
    }
    if let Some(dir) = data_dir {
        r.push(dir.to_owned());
        proof {
            all = all.push(dir@);
        }
    }
    proof {
        assert(crate::text::texts(r@) =~= all);
        assert(all =~= locations(
            match from_env {
                Some(s) => Some(s@),
                None => None,
            },
            match exe_dir {
                Some(s) => Some(s@),
                None => None,
            },
            match data_dir {
                Some(s) => Some(s@),
                None => None,
            },
        ));
    }
    r
}

/// Where evo looks for the PDFium library, in order.
pub open spec fn locations(
    from_env: Option<Seq<char>>,
    exe_dir: Option<Seq<char>>,
    data_dir: Option<Seq<char>>,
) -> Seq<Seq<char>> {
    (match from_env {
        Some(s) => seq![s],
        None => Seq::empty(),
    }) + (match exe_dir {
        Some(d) => seq![d, joined(joined(d, ".."@), "Frameworks"@)],
        None => Seq::empty(),
    }) + (match data_dir {
        Some(d) => seq![d],
        None => Seq::empty(),
    })
}

/// The library at `candidate`, which may name the file itself or the directory
/// holding it: `is_file` says whether the candidate is a file, and `holds`
/// whether there is a file of the library's name in it.
pub fn library_at(candidate: &str, is_file: bool, holds: bool, os: &str) -> (r: Option<String>)
    ensures
        match r {
            Some(path) => path@ == if is_file {
                candidate@
            } else {
                joined(candidate@, library_name(os@))
            } && (is_file || holds),
            None => !is_file && !holds,
        },
{
    if is_file {
        Some(candidate.to_owned())
    } else if holds {
        Some(join(candidate, library_file_name(os)))
    } else {
        None
    }
}

/// One place the library may be: `is_file` says whether the path is a file, and
/// `holds` whether there is a file of the library's name in it.
pub struct Place {
    pub path: String,
    pub is_file: bool,
    pub holds: bool,
}

/// The library at the first of the places, from the number `from` on, that has
/// it.
pub open spec fn first_library(places: Seq<Place>, os: Seq<char>, from: int) -> Option<Seq<char>>
    decreases places.len() - from,
{
    if from < 0 || from >= places.len() {
        None
    } else if places[from].is_file {
        Some(places[from].path@)
    } else if places[from].holds {
        Some(joined(places[from].path@, library_name(os)))
    } else {
        first_library(places, os, from + 1)
    }
}

/// Where the PDFium shared library is, if it is anywhere evo looks, the places
/// being the search locations in their order. `None` does not mean PDFium is
/// absent: the loader still tries the system library by name.
pub fn pdfium_library_path(places: &Vec<Place>, os: &str) -> (r: Option<String>)
    ensures
        match r {
            Some(path) => first_library(places@, os@, 0) == Some(path@),
            None => first_library(places@, os@, 0) is None,
        },
{
    let mut i: usize = 0;
    while i < places.len()
        invariant
            i <= places@.len(),
            first_library(places@, os@, 0) == first_library(places@, os@, i as int),
        decreases places@.len() - i,
    {
        let found: Option<String> = library_at(
            places[i].path.as_str(),
            places[i].is_file,
            places[i].holds,
            os,
        );
        if found.is_some() {
            return found;
        }
        i += 1;
    }
    None
}

/// Where `evo fetch-pdfium` installs: `<data>/pdfium/<version>`.
///
/// Versioned, so a later evo that wants a later PDFium does not have to decide
/// whether the file already there is the one it means.
pub fn pdfium_data_dir(data: &str, version: &str) -> (r: String)
    ensures
        r@ == joined(joined(data@, "pdfium"@), version@),
{
    let dir: String = join(data, "pdfium");
    join(dir.as_str(), version)
}

} // verus!
