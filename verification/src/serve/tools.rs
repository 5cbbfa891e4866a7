//! What the model may do to evo, from a phone.
//!
//! A tool that *reads* -- the library, a search, a document's text -- answers
//! from the library. A tool that *does* something the reader should see sends
//! an event down the same stream the answer is arriving on, and the browser
//! acts on it: `open_document` turns the page, `highlight_text` writes the
//! markup and asks the viewer to redraw it.

use vstd::prelude::*;

use crate::doc::annotation::{
    rgba, AnnV, Annotation, AnnotationKind, Color, KindV, Style, TextAlign,
};
use crate::doc::geometry::{greater, lesser, point, spanning, PdfPoint, PdfRect};
use crate::doc::store::views;
use crate::json::{field, whole, Json, JsonV};
use crate::script::model::{and, just, DefV, ToolDef};
use crate::serve::library_api::{doc_id, is_doc_id, list_json, text_list};
use crate::serve::markup_api::SavedMarkup;
use crate::text::{decimal, decimal_of, parse_uint, parsed, same, to_chars, trim, trimmed};

verus! {

/// The server evo's own tools belong to. Unqualified names, so a model that has
/// used evo over MCP calls them by the names it already knows.
pub const EVO: &'static str = "evo";

/// How many separate places one `highlight_text` will mark. A word that appears
/// forty times on a page is a search, not a highlight, and covering the page in
/// yellow is not what was asked for.
pub const MAX_MARKS: usize = 20;

/// Opacities and lengths are in thousandths.
pub const HIGHLIGHT_OPACITY: u32 = 350;

pub const NOTE_OPACITY: u32 = 950;

/// Note text: about the size of the body text on a letter page.
pub const NOTE_FONT: u32 = 11_000;

/// How wide a note's box is, and how much room one line of it takes.
pub const NOTE_WIDTH: i64 = 180_000;

pub const NOTE_LINE: i64 = 14_300;

/// Roughly how many characters of the note's text fit across its box.
pub const NOTE_CHARS_PER_LINE: usize = 34;

/// The colours markup is made in. The same values the viewer uses when a finger
/// draws one, because a highlight the model made and a highlight the reader
/// made are the same thing in the sidecar and must look it.
pub open spec fn highlight_style() -> Style {
    Style {
        stroke: rgba(0, 0, 0, 0),
        stroke_width: 0,
        fill: rgba(250, 220, 50, 255),
        opacity: HIGHLIGHT_OPACITY,
    }
}

/// The stroke colour is the ink a note is written in, and the fill its paper.
pub open spec fn note_style() -> Style {
    Style {
        stroke: rgba(30, 30, 46, 255),
        stroke_width: 0,
        fill: rgba(255, 245, 180, 255),
        opacity: NOTE_OPACITY,
    }
}

fn highlighter() -> (r: Style)
    ensures
        r == highlight_style(),
{
    Style {
        stroke: Color::transparent(),
        stroke_width: 0,
        fill: Color { r: 250, g: 220, b: 50, a: 255 },
        opacity: HIGHLIGHT_OPACITY,
    }
}

fn note_paper() -> (r: Style)
    ensures
        r == note_style(),
{
    Style {
        stroke: Color { r: 30, g: 30, b: 46, a: 255 },
        stroke_width: 0,
        fill: Color { r: 255, g: 245, b: 180, a: 255 },
        opacity: NOTE_OPACITY,
    }
}

// ---------------------------------------------------------------------------
// What is on offer
// ---------------------------------------------------------------------------

/// A tool, and the server it belongs to.
pub struct RemoteTool {
    pub server: String,
    pub tool: String,
    pub def: ToolDef,
}

/// A tool as a mathematical value.
#[verifier::ext_equal]
pub struct RemoteV {
    pub server: Seq<char>,
    pub tool: Seq<char>,
    pub def: DefV,
}

impl View for RemoteTool {
    type V = RemoteV;

    open spec fn view(&self) -> RemoteV {
        RemoteV { server: self.server@, tool: self.tool@, def: self.def@ }
    }
}

pub open spec fn remotes(v: Seq<RemoteTool>) -> Seq<RemoteV> {
    v.map_values(|t: RemoteTool| t@)
}

pub const DOC_ID_IS: &'static str =
    "The document's id, from list_library or search_library.";

/// What an argument is: its type, and what it is for.
pub open spec fn argument(kind: Seq<char>, purpose: Seq<char>) -> JsonV {
    and(just("type"@, JsonV::Str(kind)), "description"@, JsonV::Str(purpose))
}

/// A schema: an object with these properties, some of which have to be there.
pub open spec fn schema(properties: JsonV, required: Seq<Seq<char>>) -> JsonV {
    and(
        and(just("type"@, JsonV::Str("object"@)), "properties"@, properties),
        "required"@,
        text_list(required),
    )
}

fn argument_json(kind: &str, purpose: &str) -> (r: Json)
    ensures
        r.view() == argument(kind@, purpose@),
{
    Json::object().with("type", Json::string(kind)).with("description", Json::string(purpose))
}

fn schema_json(properties: Json, required: Vec<String>) -> (r: Json)
    ensures
        r.view() == schema(properties.view(), crate::text::texts(required@)),
{
    Json::object().with("type", Json::string("object")).with("properties", properties).with(
        "required",
        list_json(&required),
    )
}

/// One of evo's own tools.
pub open spec fn own(name: Seq<char>, description: Seq<char>, parameters: JsonV) -> RemoteV {
    RemoteV { server: EVO@, tool: name, def: DefV { name, description, parameters } }
}

fn own_tool(name: &str, description: &str, parameters: Json) -> (r: RemoteTool)
    ensures
        r@ == own(name@, description@, parameters.view()),
{
    RemoteTool {
        server: EVO.to_owned(),
        tool: name.to_owned(),
        def: ToolDef { name: name.to_owned(), description: description.to_owned(), parameters },
    }
}

pub open spec fn list_library_tool() -> RemoteV {
    own(
        "list_library"@,
        "List the documents in evo's library: id, title, page count, tags and (when evo has written one) a summary. The id is what every other library tool takes."@,
        and(
            and(
                just("type"@, JsonV::Str("object"@)),
                "properties"@,
                JsonV::Object(Map::empty()),
            ),
            "additionalProperties"@,
            JsonV::Bool(false),
        ),
    )
}

fn list_library() -> (r: RemoteTool)
    ensures
        r@ == list_library_tool(),
{
    own_tool(
        "list_library",
        "List the documents in evo's library: id, title, page count, tags and (when evo has written one) a summary. The id is what every other library tool takes.",
        Json::object().with("type", Json::string("object")).with(
            "properties",
            Json::object(),
        ).with("additionalProperties", Json::Bool(false)),
    )
}

pub open spec fn search_library_tool() -> RemoteV {
    own(
        "search_library"@,
        "Full-text search across every indexed page of the library. Returns matching documents with the 1-based page number and a snippet of the matching text. Use this to find out where something is before reading or marking it."@,
        schema(
            and(
                just(
                    "query"@,
                    argument(
                        "string"@,
                        "What to search for. Ordinary words; the index is full-text."@,
                    ),
                ),
                "limit"@,
                argument("integer"@, "How many matches to return (1-50, default 10)."@),
            ),
            seq!["query"@],
        ),
    )
}

fn required_one(a: &str) -> (r: Vec<String>)
    ensures
        crate::text::texts(r@) == seq![a@],
{
    let mut r: Vec<String> = Vec::new();
    r.push(a.to_owned());
    proof {
        assert(crate::text::texts(r@) =~= seq![a@]);
    }
    r
}

fn search_library() -> (r: RemoteTool)
    ensures
        r@ == search_library_tool(),
{
    let properties: Json = Json::object().with(
        "query",
        argument_json("string", "What to search for. Ordinary words; the index is full-text."),
    ).with("limit", argument_json("integer", "How many matches to return (1-50, default 10)."));
    own_tool(
        "search_library",
        "Full-text search across every indexed page of the library. Returns matching documents with the 1-based page number and a snippet of the matching text. Use this to find out where something is before reading or marking it.",
        schema_json(properties, required_one("query")),
    )
}

pub open spec fn document_text_tool() -> RemoteV {
    own(
        "get_document_text"@,
        "Read the text of a document's pages, by 1-based page number. The text is what evo indexed, which for scanned pages is what OCR recovered."@,
        schema(
            and(
                and(
                    just("doc_id"@, argument("string"@, DOC_ID_IS@)),
                    "first_page"@,
                    argument(
                        "integer"@,
                        "First page to read, 1-based. Defaults to the first page."@,
                    ),
                ),
                "last_page"@,
                argument("integer"@, "Last page to read, 1-based and inclusive."@),
            ),
            seq!["doc_id"@],
        ),
    )
}

fn document_text() -> (r: RemoteTool)
    ensures
        r@ == document_text_tool(),
{
    let properties: Json = Json::object().with(
        "doc_id",
        argument_json("string", DOC_ID_IS),
    ).with(
        "first_page",
        argument_json("integer", "First page to read, 1-based. Defaults to the first page."),
    ).with("last_page", argument_json("integer", "Last page to read, 1-based and inclusive."));
    own_tool(
        "get_document_text",
        "Read the text of a document's pages, by 1-based page number. The text is what evo indexed, which for scanned pages is what OCR recovered.",
        schema_json(properties, required_one("doc_id")),
    )
}

pub open spec fn open_document_tool() -> RemoteV {
    own(
        "open_document"@,
        "Turn the reader's screen to a document, at a page. They see it happen immediately, so say what you are opening and why."@,
        schema(
            and(
                just("doc_id"@, argument("string"@, DOC_ID_IS@)),
                "page"@,
                argument("integer"@, "Page to turn to, 1-based. Defaults to the first page."@),
            ),
            seq!["doc_id"@],
        ),
    )
}

fn open_document_def() -> (r: RemoteTool)
    ensures
        r@ == open_document_tool(),
{
    let properties: Json = Json::object().with(
        "doc_id",
        argument_json("string", DOC_ID_IS),
    ).with("page", argument_json("integer", "Page to turn to, 1-based. Defaults to the first page."));
    own_tool(
        "open_document",
        "Turn the reader's screen to a document, at a page. They see it happen immediately, so say what you are opening and why.",
        schema_json(properties, required_one("doc_id")),
    )
}

pub open spec fn highlight_text_tool() -> RemoteV {
    own(
        "highlight_text"@,
        "Highlight words on a page of a document, optionally with a note beside them. The text has to appear on that page: evo finds it and marks exactly where it is, so quote it as it is written rather than describing it. The highlight is saved with the document and the reader sees it appear."@,
        schema(
            and(
                and(
                    and(
                        just("doc_id"@, argument("string"@, DOC_ID_IS@)),
                        "page"@,
                        argument("integer"@, "Which page the words are on, 1-based."@),
                    ),
                    "text"@,
                    argument(
                        "string"@,
                        "The words to highlight, exactly as they appear on the page. Matching ignores case."@,
                    ),
                ),
                "note"@,
                argument(
                    "string"@,
                    "A note to write beside the highlight, if there is something worth saying about it."@,
                ),
            ),
            seq!["doc_id"@, "page"@, "text"@],
        ),
    )
}

fn highlight_text_def() -> (r: RemoteTool)
    ensures
        r@ == highlight_text_tool(),
{
    let properties: Json = Json::object().with(
        "doc_id",
        argument_json("string", DOC_ID_IS),
    ).with("page", argument_json("integer", "Which page the words are on, 1-based.")).with(
        "text",
        argument_json(
            "string",
            "The words to highlight, exactly as they appear on the page. Matching ignores case.",
        ),
    ).with(
        "note",
        argument_json(
            "string",
            "A note to write beside the highlight, if there is something worth saying about it.",
        ),
    );
    let mut required: Vec<String> = Vec::new();
    required.push("doc_id".to_owned());
    required.push("page".to_owned());
    required.push("text".to_owned());
    proof {
        assert(crate::text::texts(required@) =~= seq!["doc_id"@, "page"@, "text"@]);
    }
    own_tool(
        "highlight_text",
        "Highlight words on a page of a document, optionally with a note beside them. The text has to appear on that page: evo finds it and marks exactly where it is, so quote it as it is written rather than describing it. The highlight is saved with the document and the reader sees it appear.",
        schema_json(properties, required),
    )
}

/// evo's own tools, as the model is offered them. The descriptions are the only
/// instructions it gets about what evo can do.
pub open spec fn own_tools() -> Seq<RemoteV> {
    seq![
        list_library_tool(),
        search_library_tool(),
        document_text_tool(),
        open_document_tool(),
        highlight_text_tool(),
    ]
}

/// Whether this is the name of one of evo's own tools.
pub open spec fn is_own_name(tool: Seq<char>) -> bool {
    tool == "list_library"@ || tool == "search_library"@ || tool == "get_document_text"@ || tool
        == "open_document"@ || tool == "highlight_text"@
}

/// The tools of the server itself.
pub struct ServerTools {
    /// Other people's tools, from the servers the configuration named.
    pub others: Vec<RemoteTool>,
}

impl ServerTools {
    /// evo's own tools, as the model is offered them.
    pub fn builtin() -> (r: Vec<RemoteTool>)
        ensures
            remotes(r@) == own_tools(),
    {
        let mut r: Vec<RemoteTool> = Vec::new();
        r.push(list_library());
        r.push(search_library());
        r.push(document_text());
        r.push(open_document_def());
        r.push(highlight_text_def());
        proof {
            assert(remotes(r@) =~= own_tools());
        }
        r
    }

    /// Everything the model is offered: evo's own tools, and everybody else's
    /// beside them.
    pub fn tools(self) -> (r: Vec<RemoteTool>)
        ensures
            remotes(r@) == own_tools() + remotes(self.others@),
    {
        let mut r: Vec<RemoteTool> = Self::builtin();
        let mut others: Vec<RemoteTool> = self.others;
        proof {
            assert(remotes(r@ + others@) =~= remotes(r@) + remotes(others@));
        }
        r.append(&mut others);
        r
    }

    /// Whether a call is for one of evo's own tools: only for the names it
    /// really has. An operator may well call one of their servers "evo", and
    /// their tools are qualified anyway, so a name that is not one of ours goes
    /// out.
    pub fn is_own(server: &str, tool: &str) -> (r: bool)
        ensures
            r == (server@ == EVO@ && is_own_name(tool@)),
    {
        same(server, EVO) && (same(tool, "list_library") || same(tool, "search_library") || same(
            tool,
            "get_document_text",
        ) || same(tool, "open_document") || same(tool, "highlight_text"))
    }
}

/// Every tool that is offered is one a call reaches.
pub proof fn law_what_is_offered_is_reached(i: int)
    requires
        0 <= i < own_tools().len(),
    ensures
        own_tools()[i].server == EVO@,
        is_own_name(own_tools()[i].tool),
        own_tools()[i].def.name == own_tools()[i].tool,
{
}

// ---------------------------------------------------------------------------
// Reading a model's arguments
// ---------------------------------------------------------------------------

/// What is said of an argument that is missing.
pub open spec fn needs(name: Seq<char>) -> Seq<char> {
    "this tool needs a \u{201c}"@ + name + "\u{201d} argument"@
}

/// A string argument, without the space around it.
pub open spec fn text_argument(arguments: JsonV, name: Seq<char>) -> Option<Seq<char>> {
    match field(arguments, name) {
        Some(JsonV::Str(s)) => if trimmed(s).len() > 0 {
            Some(trimmed(s))
        } else {
            None
        },
        _ => None,
    }
}

/// A string argument, or a sentence saying which one is missing. Every failure
/// here is read by the *model*, which can correct itself and try again.
pub fn text_arg(arguments: &Json, name: &str) -> (r: Result<String, String>)
    ensures
        match r {
            Ok(s) => text_argument(arguments.view(), name@) == Some(s@),
            Err(e) => text_argument(arguments.view(), name@) is None && e@ == needs(name@),
        },
{
    if let Some(value) = arguments.get(name) {
        if let Some(text) = value.as_str() {
            let text: String = trim(text);
            if !text.as_str().is_empty() {
                return Ok(text);
            }
        }
    }
    let mut why: String = "this tool needs a \u{201c}".to_owned();
    why.append(name);
    why.append("\u{201d} argument");
    Err(why)
}

/// A whole number, however the model wrote it.
pub open spec fn number_argument(arguments: JsonV, name: Seq<char>) -> Option<usize> {
    match field(arguments, name) {
        Some(JsonV::Number(n)) => match crate::json::number_u64(n) {
            Some(n) => Some(n as usize),
            None => None,
        },
        Some(JsonV::Str(s)) => match parsed(trimmed(s), usize::MAX as nat) {
            Some(n) => Some(n as usize),
            None => None,
        },
        _ => None,
    }
}

/// A whole number, however the model wrote it: some send `2`, some `"2"`.
pub fn number_arg(arguments: &Json, name: &str) -> (r: Option<usize>)
    ensures
        r == number_argument(arguments.view(), name@),
{
    match arguments.get(name) {
        Some(value) => match value {
            Json::Number(_) => match value.as_u64() {
                Some(n) => Some(#[verifier::truncate] (n as usize)),
                None => None,
            },
            Json::Str(text) => match parse_uint(trim(text.as_str()).as_str(), usize::MAX as u64) {
                Some(n) => Some(n as usize),
                None => None,
            },
            _ => None,
        },
        None => None,
    }
}

/// What is said of something that is not an id.
pub open spec fn not_an_id(id: Seq<char>) -> Seq<char> {
    "\u{201c}"@ + id
        + "\u{201d} is not a document id; ids are 64 hexadecimal characters and come from list_library or search_library"@
}

/// The document id a call names, or what is said where it names none.
pub open spec fn id_argument(arguments: JsonV) -> Result<Seq<char>, Seq<char>> {
    match text_argument(arguments, "doc_id"@) {
        Some(id) => if doc_id(id) {
            Ok(id)
        } else {
            Err(not_an_id(id))
        },
        None => Err(needs("doc_id"@)),
    }
}

/// The document id, checked to be one before it is used as a key.
pub fn id_arg(arguments: &Json) -> (r: Result<String, String>)
    ensures
        match r {
            Ok(id) => id_argument(arguments.view()) == Ok::<Seq<char>, Seq<char>>(id@),
            Err(e) => id_argument(arguments.view()) == Err::<Seq<char>, Seq<char>>(e@),
        },
{
    match text_arg(arguments, "doc_id") {
        Ok(id) => if is_doc_id(id.as_str()) {
            Ok(id)
        } else {
            let mut why: String = "\u{201c}".to_owned();
            why.append(id.as_str());
            why.append(
                "\u{201d} is not a document id; ids are 64 hexadecimal characters and come from list_library or search_library",
            );
            Err(why)
        },
        Err(e) => Err(e),
    }
}

/// What one call of evo's own tools asks for.
#[derive(Debug)]
pub enum ToolRequest {
    ListLibrary,
    SearchLibrary { query: String, limit: usize },
    DocumentText { doc_id: String, first: Option<usize>, last: Option<usize> },
    OpenDocument { doc_id: String, page: usize },
    HighlightText { doc_id: String, page: usize, text: String, note: Option<String> },
}

/// What a call asks for, as a mathematical value.
#[verifier::ext_equal]
pub enum RequestV {
    ListLibrary,
    SearchLibrary { query: Seq<char>, limit: usize },
    DocumentText { doc_id: Seq<char>, first: Option<usize>, last: Option<usize> },
    OpenDocument { doc_id: Seq<char>, page: usize },
    HighlightText { doc_id: Seq<char>, page: usize, text: Seq<char>, note: Option<Seq<char>> },
}

impl View for ToolRequest {
    type V = RequestV;

    open spec fn view(&self) -> RequestV {
        match *self {
            ToolRequest::ListLibrary => RequestV::ListLibrary,
            ToolRequest::SearchLibrary { query, limit } => RequestV::SearchLibrary {
                query: query@,
                limit,
            },
            ToolRequest::DocumentText { doc_id, first, last } => RequestV::DocumentText {
                doc_id: doc_id@,
                first,
                last,
            },
            ToolRequest::OpenDocument { doc_id, page } => RequestV::OpenDocument {
                doc_id: doc_id@,
                page,
            },
            ToolRequest::HighlightText { doc_id, page, text, note } => RequestV::HighlightText {
                doc_id: doc_id@,
                page,
                text: text@,
                note: crate::script::model::words(note),
            },
        }
    }
}

pub const NEEDS_PAGE: &'static str =
    "highlight_text needs the 1-based page the words are on";

pub const PAGES_FROM_ONE: &'static str = "pages are numbered from 1";

/// What is said of a tool there is not.
pub open spec fn no_tool(tool: Seq<char>) -> Seq<char> {
    "evo has no tool called \u{201c}"@ + tool + "\u{201d}"@
}

pub fn unknown_tool(tool: &str) -> (r: String)
    ensures
        r@ == no_tool(tool@),
{
    let mut r: String = "evo has no tool called \u{201c}".to_owned();
    r.append(tool);
    r.append("\u{201d}");
    r
}

/// What a highlight asks for: the document first, then the words, then the
/// page.
pub open spec fn highlight_asked(arguments: JsonV) -> Result<RequestV, Seq<char>> {
    match id_argument(arguments) {
        Err(e) => Err(e),
        Ok(doc_id) => match text_argument(arguments, "text"@) {
            None => Err(needs("text"@)),
            Some(text) => match number_argument(arguments, "page"@) {
                None => Err(NEEDS_PAGE@),
                Some(page) => if page == 0 {
                    Err(PAGES_FROM_ONE@)
                } else {
                    Ok(
                        RequestV::HighlightText {
                            doc_id,
                            page,
                            text,
                            note: text_argument(arguments, "note"@),
                        },
                    )
                },
            },
        },
    }
}

/// What a call asks for, or why it asks for nothing.
pub open spec fn asked(tool: Seq<char>, arguments: JsonV) -> Result<RequestV, Seq<char>> {
    if tool == "list_library"@ {
        Ok(RequestV::ListLibrary)
    } else if tool == "search_library"@ {
        match text_argument(arguments, "query"@) {
            Some(query) => Ok(
                RequestV::SearchLibrary {
                    query,
                    limit: match number_argument(arguments, "limit"@) {
                        Some(n) => n,
                        None => 10,
                    },
                },
            ),
            None => Err(needs("query"@)),
        }
    } else if tool == "get_document_text"@ {
        match id_argument(arguments) {
            Ok(doc_id) => Ok(
                RequestV::DocumentText {
                    doc_id,
                    first: number_argument(arguments, "first_page"@),
                    last: number_argument(arguments, "last_page"@),
                },
            ),
            Err(e) => Err(e),
        }
    } else if tool == "open_document"@ {
        match id_argument(arguments) {
            Ok(doc_id) => Ok(
                RequestV::OpenDocument {
                    doc_id,
                    page: match number_argument(arguments, "page"@) {
                        Some(n) => if n < 1 {
                            1
                        } else {
                            n
                        },
                        None => 1,
                    },
                },
            ),
            Err(e) => Err(e),
        }
    } else if tool == "highlight_text"@ {
        highlight_asked(arguments)
    } else {
        Err(no_tool(tool))
    }
}

fn highlight_request(arguments: &Json) -> (r: Result<ToolRequest, String>)
    ensures
        match r {
            Ok(request) => highlight_asked(arguments.view()) == Ok::<RequestV, Seq<char>>(
                request@,
            ),
            Err(e) => highlight_asked(arguments.view()) == Err::<RequestV, Seq<char>>(e@),
        },
{
    let doc_id: String = match id_arg(arguments) {
        Ok(id) => id,
        Err(e) => {
            return Err(e);
        },
    };
    let text: String = match text_arg(arguments, "text") {
        Ok(text) => text,
        Err(e) => {
            return Err(e);
        },
    };
    let page: usize = match number_arg(arguments, "page") {
        Some(page) => page,
        None => {
            return Err(NEEDS_PAGE.to_owned());
        },
    };
    if page == 0 {
        return Err(PAGES_FROM_ONE.to_owned());
    }
    let note: Option<String> = match text_arg(arguments, "note") {
        Ok(note) => Some(note),
        Err(_) => None,
    };
    Ok(ToolRequest::HighlightText { doc_id, page, text, note })
}

/// What one call of evo's own tools asks for, or a sentence the model can act
/// on.
pub fn request(tool: &str, arguments: &Json) -> (r: Result<ToolRequest, String>)
    ensures
        match r {
            Ok(request) => asked(tool@, arguments.view()) == Ok::<RequestV, Seq<char>>(request@),
            Err(e) => asked(tool@, arguments.view()) == Err::<RequestV, Seq<char>>(e@),
        },
{
    if same(tool, "list_library") {
        return Ok(ToolRequest::ListLibrary);
    }
    if same(tool, "search_library") {
        return match text_arg(arguments, "query") {
            Ok(query) => Ok(
                ToolRequest::SearchLibrary {
                    query,
                    limit: match number_arg(arguments, "limit") {
                        Some(n) => n,
                        None => 10,
                    },
                },
            ),
            Err(e) => Err(e),
        };
    }
    if same(tool, "get_document_text") {
        return match id_arg(arguments) {
            Ok(doc_id) => Ok(
                ToolRequest::DocumentText {
                    doc_id,
                    first: number_arg(arguments, "first_page"),
                    last: number_arg(arguments, "last_page"),
                },
            ),
            Err(e) => Err(e),
        };
    }
    if same(tool, "open_document") {
        return match id_arg(arguments) {
            Ok(doc_id) => {
                let page: usize = match number_arg(arguments, "page") {
                    Some(n) => if n < 1 {
                        1
                    } else {
                        n
                    },
                    None => 1,
                };
                Ok(ToolRequest::OpenDocument { doc_id, page })
            },
            Err(e) => Err(e),
        };
    }
    if same(tool, "highlight_text") {
        return highlight_request(arguments);
    }
    Err(unknown_tool(tool))
}

// ---------------------------------------------------------------------------
// What the tools do
// ---------------------------------------------------------------------------

/// What is said of a document there is not: a model that invented an id should
/// be told so, not left to wonder why nothing happened at the other end.
pub fn no_document(doc_id: &str) -> (r: String)
    ensures
        r@ == "there is no document with id "@ + doc_id@
            + " in the library; list_library gives the ids"@,
{
    let mut r: String = "there is no document with id ".to_owned();
    r.append(doc_id);
    r.append(" in the library; list_library gives the ids");
    r
}

/// The page that is shown: the one asked for, or the last. A page past the end
/// is not a refusal: the model was right about the document and only wrong
/// about how long it is.
pub open spec fn shown_page(page: usize, page_count: usize) -> int {
    lesser(page as int, greater(page_count as int, 1))
}

/// Turn the reader's screen to a document: what the browser is told to do, and
/// what the model is told was done.
pub fn open_document(doc_id: &str, title: &str, page: usize, page_count: usize) -> (r: (Json, Json))
    ensures
        r.0.view() == and(
            and(just("action"@, JsonV::Str("open"@)), "doc"@, JsonV::Str(doc_id@)),
            "page"@,
            JsonV::Number(whole(shown_page(page, page_count) as u64)),
        ),
        r.1.view() == and(
            and(
                and(just("opened"@, JsonV::Str(doc_id@)), "title"@, JsonV::Str(title@)),
                "page"@,
                JsonV::Number(whole(shown_page(page, page_count) as u64)),
            ),
            "shown"@,
            JsonV::Str("the reader is now looking at this page"@),
        ),
{
    let last: usize = if page_count < 1 {
        1
    } else {
        page_count
    };
    let page: usize = if page > last {
        last
    } else {
        page
    };
    (
        Json::object().with("action", Json::string("open")).with(
            "doc",
            Json::string(doc_id),
        ).with("page", Json::number(page as u64)),
        Json::object().with("opened", Json::string(doc_id)).with(
            "title",
            Json::string(title),
        ).with("page", Json::number(page as u64)).with(
            "shown",
            Json::string("the reader is now looking at this page"),
        ),
    )
}

/// What is said of a page that a document does not have.
pub open spec fn no_page_text(title: Seq<char>, page: usize, page_count: usize) -> Seq<char> {
    "\u{201c}"@ + title + "\u{201d} has "@ + decimal(page_count as nat)
        + " pages, so there is no page "@ + decimal(page as nat)
}

/// Why words cannot be marked on a page of a document with so many.
pub fn check_page(title: &str, page: usize, page_count: usize) -> (r: Option<String>)
    ensures
        match r {
            Some(why) => page > page_count && why@ == no_page_text(title@, page, page_count),
            None => page <= page_count,
        },
{
    if page <= page_count {
        return None;
    }
    let mut why: String = "\u{201c}".to_owned();
    why.append(title);
    why.append("\u{201d} has ");
    why.append(decimal_of(page_count as u64).as_str());
    why.append(" pages, so there is no page ");
    why.append(decimal_of(page as u64).as_str());
    Some(why)
}

/// What is said of words that are not on the page.
pub open spec fn not_said_text(title: Seq<char>, page: usize, text: Seq<char>) -> Seq<char> {
    "page "@ + decimal(page as nat) + " of \u{201c}"@ + title + "\u{201d} does not say \u{201c}"@
        + text + "\u{201d}. Read the page with get_document_text and quote it as it is written."@
}

/// What is said of words that are not on the page.
pub fn not_said(title: &str, page: usize, text: &str) -> (r: String)
    ensures
        r@ == not_said_text(title@, page, text@),
{
    let mut r: String = "page ".to_owned();
    r.append(decimal_of(page as u64).as_str());
    r.append(" of \u{201c}");
    r.append(title);
    r.append("\u{201d} does not say \u{201c}");
    r.append(text);
    r.append("\u{201d}. Read the page with get_document_text and quote it as it is written.");
    r
}

/// Where some words are on a page, and how big that page is.
pub struct Found {
    pub rects: Vec<PdfRect>,
    pub page_width: i32,
    pub page_height: i32,
}

impl Found {
    /// The places that are marked: the first of those found.
    pub fn new(all: &Vec<PdfRect>, page_width: i32, page_height: i32) -> (r: Self)
        ensures
            r.rects@ == all@.take(lesser(all@.len() as int, MAX_MARKS as int)),
            r.page_width == page_width && r.page_height == page_height,
    {
        let mut rects: Vec<PdfRect> = Vec::new();
        let mut i: usize = 0;
        while i < all.len() && i < MAX_MARKS
            invariant
                i <= all@.len(),
                i <= MAX_MARKS,
                rects@ == all@.take(i as int),
            decreases all@.len() - i,
        {
            proof {
                assert(all@.take(i + 1) =~= all@.take(i as int).push(all@[i as int]));
            }
            rects.push(all[i]);
            i += 1;
        }
        Found { rects, page_width, page_height }
    }
}

/// The highest id there is, or none at all.
pub open spec fn highest(s: Seq<AnnV>) -> int
    decreases s.len(),
{
    if s.len() == 0 {
        0
    } else {
        greater(highest(s.drop_last()), s.last().id as int)
    }
}

/// `n` after `start`, as far as numbers go.
pub open spec fn nth_id(start: int, n: int) -> u64 {
    lesser(start + n, u64::MAX as int) as u64
}

/// A highlight over one place.
pub open spec fn highlight(id: u64, page: usize, rect: PdfRect) -> AnnV {
    AnnV { id, page, kind: KindV::Highlight, rect, style: highlight_style(), group: None }
}

/// A note with these words.
pub open spec fn note_at(id: u64, page: usize, note: Seq<char>, rect: PdfRect) -> AnnV {
    AnnV {
        id,
        page,
        kind: KindV::TextBox { text: note, font_size: NOTE_FONT, align: TextAlign::Left },
        rect,
        style: note_style(),
        group: None,
    }
}

/// What is added to a layer for the places `rects` on page `page`, counted from
/// one: a highlight over each, and the note beside the first. Ids continue from
/// the highest there is.
pub open spec fn marks(
    layer: Seq<AnnV>,
    page: usize,
    rects: Seq<PdfRect>,
    page_width: int,
    page_height: int,
    note: Option<Seq<char>>,
) -> Seq<AnnV> {
    let start = highest(layer) + 1;
    let lit = Seq::new(
        rects.len(),
        |i: int| highlight(nth_id(start, i), (page - 1) as usize, rects[i]),
    );
    match note {
        Some(words) if rects.len() > 0 => lit.push(
            note_at(
                nth_id(start, rects.len() as int),
                (page - 1) as usize,
                words,
                note_place(rects[0], words.len() as int, page_width, page_height),
            ),
        ),
        _ => lit,
    }
}

/// How many lines a note of so many characters takes.
pub open spec fn note_lines(chars: int) -> int {
    greater((chars + NOTE_CHARS_PER_LINE - 1) / (NOTE_CHARS_PER_LINE as int), 1)
}

/// Where a note sits: under the words it is about, or above them when there is
/// no room below, and always inside the page.
pub open spec fn note_place(mark: PdfRect, chars: int, page_width: int, page_height: int) -> PdfRect {
    let height = lesser(note_lines(chars) * NOTE_LINE + 6000, page_height);
    let width = lesser(NOTE_WIDTH as int, page_width);
    let left = greater(lesser(mark.min.x as int, page_width - width), 0);
    let top = if mark.min.y - 4000 - height >= 0 {
        mark.min.y - 4000
    } else {
        lesser(mark.max.y + 4000 + height, page_height)
    };
    spanning(point(left, top - height), point(left + width, top))
}

/// Where a note sits.
pub fn note_box(mark: PdfRect, note: &str, page_width: i32, page_height: i32) -> (r: PdfRect)
    ensures
        r == note_place(mark, note@.len() as int, page_width as int, page_height as int),
{
    let chars: i128 = to_chars(note).len() as i128;
    let mut lines: i128 = (chars + NOTE_CHARS_PER_LINE as i128 - 1) / (NOTE_CHARS_PER_LINE as i128);
    if lines < 1 {
        lines = 1;
    }
    let mut height: i128 = lines * (NOTE_LINE as i128) + 6000;
    if height > page_height as i128 {
        height = page_height as i128;
    }
    let mut width: i128 = NOTE_WIDTH as i128;
    if width > page_width as i128 {
        width = page_width as i128;
    }
    let mut left: i128 = mark.min.x as i128;
    if left > page_width as i128 - width {
        left = page_width as i128 - width;
    }
    if left < 0 {
        left = 0;
    }
    let top: i128 = if mark.min.y as i128 - 4000 - height >= 0 {
        mark.min.y as i128 - 4000
    } else {
        let above: i128 = mark.max.y as i128 + 4000 + height;
        if above > page_height as i128 {
            page_height as i128
        } else {
            above
        }
    };
    PdfRect::from_points(PdfPoint::at(left, top - height), PdfPoint::at(left + width, top))
}

/// A note is always inside the page its words are on.
pub proof fn law_a_note_stays_on_the_page(
    mark: PdfRect,
    chars: int,
    page_width: int,
    page_height: int,
)
    requires
        0 <= page_width <= i32::MAX,
        0 <= page_height <= i32::MAX,
        0 <= chars,
        0 <= mark.min.x <= mark.max.x <= page_width,
        0 <= mark.min.y <= mark.max.y <= page_height,
    ensures
        ({
            let r = note_place(mark, chars, page_width, page_height);
            &&& 0 <= r.min.x <= r.max.x <= page_width
            &&& 0 <= r.min.y <= r.max.y <= page_height
        }),
{
}

/// Add the highlights, and the note if there is one, to `markup`. Returns the
/// ids given out.
///
/// Ids continue from the highest there is, which is the rule the desktop app
/// and the viewer both follow -- otherwise a mark made by the model and one
/// made by a finger would eventually be the same annotation.
pub fn draw(markup: &mut SavedMarkup, page: usize, found: &Found, note: Option<&str>) -> (ids: Vec<
    u64,
>)
    requires
        page >= 1,
    ensures
        final(markup).version == old(markup).version,
        final(markup).pages == old(markup).pages,
        ({
            let added = marks(
                views(old(markup).annotations@),
                page,
                found.rects@,
                found.page_width as int,
                found.page_height as int,
                crate::serve::auth::door::said(note),
            );
            &&& views(final(markup).annotations@) == views(old(markup).annotations@) + added
            &&& ids@ == added.map_values(|a: AnnV| a.id)
        }),
{
    let ghost layer = views(markup.annotations@);
    let mut top: u64 = 0;
    let mut i: usize = 0;
    proof {
        assert(layer.take(0) =~= Seq::empty());
    }
    while i < markup.annotations.len()
        invariant
            i <= markup.annotations@.len(),
            layer == views(markup.annotations@),
            markup.version == old(markup).version,
            markup.pages == old(markup).pages,
            layer == views(old(markup).annotations@),
            top == highest(layer.take(i as int)),
        decreases markup.annotations@.len() - i,
    {
        proof {
            assert(layer.take(i + 1).drop_last() =~= layer.take(i as int));
            assert(layer.take(i + 1).last() == markup.annotations@[i as int]@);
        }
        if markup.annotations[i].id > top {
            top = markup.annotations[i].id;
        }
        i += 1;
    }
    proof {
        assert(layer.take(i as int) =~= layer);
    }
    let ghost start = highest(layer) + 1;
    let ghost lit = Seq::new(
        found.rects@.len(),
        |i: int| highlight(nth_id(start, i), (page - 1) as usize, found.rects@[i]),
    );
    let mut next: u64 = top.saturating_add(1);
    let mut ids: Vec<u64> = Vec::new();
    let mut j: usize = 0;
    proof {
        assert(layer + lit.take(0) =~= layer);
    }
    while j < found.rects.len()
        invariant
            j <= found.rects@.len(),
            page >= 1,
            markup.version == old(markup).version,
            markup.pages == old(markup).pages,
            start == highest(layer) + 1,
            lit == Seq::new(
                found.rects@.len(),
                |i: int| highlight(nth_id(start, i), (page - 1) as usize, found.rects@[i]),
            ),
            next == nth_id(start, j as int),
            0 <= highest(layer),
            views(markup.annotations@) == layer + lit.take(j as int),
            ids@ == lit.take(j as int).map_values(|a: AnnV| a.id),
        decreases found.rects@.len() - j,
    {
        let a: Annotation = Annotation {
            id: next,
            page: page - 1,
            kind: AnnotationKind::Highlight,
            rect: found.rects[j],
            style: highlighter(),
            group: None,
        };
        proof {
            assert(a@ == lit[j as int]);
            assert(views(markup.annotations@.push(a)) =~= views(markup.annotations@).push(a@));
            assert(layer + lit.take(j + 1) =~= (layer + lit.take(j as int)).push(lit[j as int]));
            assert(ids@.push(next) =~= lit.take(j + 1).map_values(|a: AnnV| a.id));
        }
        markup.annotations.push(a);
        ids.push(next);
        next = next.saturating_add(1);
        j += 1;
    }
    proof {
        assert(lit.take(j as int) =~= lit);
    }
    if let Some(words) = note {
        if found.rects.len() > 0 {
            let a: Annotation = Annotation {
                id: next,
                page: page - 1,
                kind: AnnotationKind::TextBox {
                    text: words.to_owned(),
                    font_size: NOTE_FONT,
                    align: TextAlign::Left,
                },
                rect: note_box(found.rects[0], words, found.page_width, found.page_height),
                style: note_paper(),
                group: None,
            };
            let ghost v = a@;
            proof {
                assert(views(markup.annotations@.push(a)) =~= views(markup.annotations@).push(a@));
                assert(layer + lit.push(v) =~= (layer + lit).push(v));
                assert(ids@.push(next) =~= lit.push(v).map_values(|a: AnnV| a.id));
            }
            markup.annotations.push(a);
            ids.push(next);
        }
    }
    ids
}

pub proof fn lemma_highest(s: Seq<AnnV>)
    ensures
        0 <= highest(s) <= u64::MAX,
        forall|i: int| 0 <= i < s.len() ==> (#[trigger] s[i]).id <= highest(s),
    decreases s.len(),
{
    if s.len() > 0 {
        lemma_highest(s.drop_last());
        assert forall|i: int| 0 <= i < s.len() implies (#[trigger] s[i]).id <= highest(s) by {
            if i < s.len() - 1 {
                assert(s.drop_last()[i] == s[i]);
            }
        }
    }
}

/// A mark the model makes is never an annotation that is already there, and no
/// two of them are the same, as long as there are numbers left.
pub proof fn law_marks_are_new(
    layer: Seq<AnnV>,
    page: usize,
    rects: Seq<PdfRect>,
    page_width: int,
    page_height: int,
    note: Option<Seq<char>>,
    i: int,
)
    requires
        highest(layer) + rects.len() + 1 <= u64::MAX,
        0 <= i < marks(layer, page, rects, page_width, page_height, note).len(),
    ensures
        ({
            let added = marks(layer, page, rects, page_width, page_height, note);
            &&& added[i].id == highest(layer) + 1 + i
            &&& forall|k: int| 0 <= k < layer.len() ==> (#[trigger] layer[k]).id != added[i].id
        }),
{
    lemma_highest(layer);
}

/// Marks go on the page that was asked for, one highlight over each place and
/// nothing else but the note, which says the words it was given.
pub proof fn law_marks_are_where_they_were_asked_for(
    layer: Seq<AnnV>,
    page: usize,
    rects: Seq<PdfRect>,
    page_width: int,
    page_height: int,
    note: Option<Seq<char>>,
)
    requires
        page >= 1,
    ensures
        ({
            let added = marks(layer, page, rects, page_width, page_height, note);
            &&& added.len() == rects.len() + if note is Some && rects.len() > 0 {
                1int
            } else {
                0
            }
            &&& forall|i: int| 0 <= i < added.len() ==> (#[trigger] added[i]).page + 1 == page
            &&& forall|i: int|
                0 <= i < rects.len() ==> (#[trigger] added[i]).kind is Highlight && added[i].rect
                    == rects[i] && added[i].group is None
            &&& note matches Some(words) ==> (rects.len() > 0 ==> (added.last().kind
                matches KindV::TextBox { text, .. } && text == words))
        }),
{
}

/// Ids continue from the highest there is, one after the other, as far as
/// numbers go.
pub proof fn law_marks_are_numbered_on(
    layer: Seq<AnnV>,
    page: usize,
    rects: Seq<PdfRect>,
    page_width: int,
    page_height: int,
    note: Option<Seq<char>>,
    top: int,
)
    requires
        top == 0 || exists|k: int| 0 <= k < layer.len() && (#[trigger] layer[k]).id == top,
        forall|k: int| 0 <= k < layer.len() ==> (#[trigger] layer[k]).id <= top,
        top + rects.len() + 1 <= u64::MAX,
    ensures
        forall|i: int|
            0 <= i < marks(layer, page, rects, page_width, page_height, note).len() ==> (
            #[trigger] marks(layer, page, rects, page_width, page_height, note)[i]).id == top + 1
                + i,
{
    lemma_highest(layer);
    lemma_highest_is_held(layer);
    assert(highest(layer) == top);
}

proof fn lemma_highest_is_held(s: Seq<AnnV>)
    ensures
        highest(s) == 0 || exists|k: int| 0 <= k < s.len() && (#[trigger] s[k]).id == highest(s),
    decreases s.len(),
{
    if s.len() > 0 {
        let t = s.drop_last();
        lemma_highest_is_held(t);
        if highest(s) == s.last().id {
            assert(s[s.len() - 1].id == highest(s));
        } else if highest(t) != 0 {
            let k = choose|k: int| 0 <= k < t.len() && (#[trigger] t[k]).id == highest(t);
            assert(s[k] == t[k]);
        }
    }
}

/// A note never covers the words it is about, unless the page has room for it
/// neither below nor above them.
pub proof fn law_a_note_leaves_its_words_free(
    mark: PdfRect,
    chars: int,
    page_width: int,
    page_height: int,
)
    requires
        0 <= page_width <= i32::MAX,
        0 <= page_height <= i32::MAX,
        0 <= chars,
        0 <= mark.min.x <= mark.max.x <= page_width,
        0 <= mark.min.y <= mark.max.y <= page_height,
    ensures
        ({
            let r = note_place(mark, chars, page_width, page_height);
            let height = r.max.y - r.min.y;
            &&& mark.min.y - 4000 - height >= 0 ==> r.max.y == mark.min.y - 4000
            &&& mark.min.y - 4000 - height < 0 && mark.max.y + 4000 + height <= page_height
                ==> r.min.y == mark.max.y + 4000
            &&& mark.min.x + (r.max.x - r.min.x) <= page_width ==> r.min.x == mark.min.x
        }),
{
}

/// A note is a hundred and eighty points wide, and high enough for its words at
/// thirty-four characters to the line, wherever the page is large enough for
/// that; and no line of it is left empty.
pub proof fn law_a_note_has_room_for_its_words(
    mark: PdfRect,
    chars: int,
    lines: int,
    page_width: int,
    page_height: int,
)
    requires
        180_000 <= page_width <= i32::MAX,
        0 <= chars,
        1 <= lines,
        chars <= 34 * lines,
        lines == 1 || 34 * (lines - 1) < chars,
        lines * 14_300 + 6000 <= page_height <= i32::MAX,
        0 <= mark.min.x <= mark.max.x <= page_width,
        0 <= mark.min.y <= mark.max.y <= page_height,
    ensures
        ({
            let r = note_place(mark, chars, page_width, page_height);
            &&& r.max.x - r.min.x == 180_000
            &&& r.max.y - r.min.y == lines * 14_300 + 6000
        }),
{
    assert(note_lines(chars) == lines);
}

/// What the browser is told when a layer has changed.
pub fn markup_changed(doc_id: &str, page: usize, etag: &str) -> (r: Json)
    ensures
        r.view() == and(
            and(
                and(
                    just("action"@, JsonV::Str("markup-changed"@)),
                    "doc"@,
                    JsonV::Str(doc_id@),
                ),
                "page"@,
                JsonV::Number(whole(page as u64)),
            ),
            "etag"@,
            JsonV::Str(etag@),
        ),
{
    Json::object().with("action", Json::string("markup-changed")).with(
        "doc",
        Json::string(doc_id),
    ).with("page", Json::number(page as u64)).with("etag", Json::string(etag))
}

/// Numbers as a list.
pub open spec fn number_list(s: Seq<u64>) -> JsonV {
    JsonV::Array(s.map_values(|n: u64| JsonV::Number(whole(n))))
}

fn numbers_json(v: &Vec<u64>) -> (r: Json)
    ensures
        r.view() == number_list(v@),
{
    let ghost all = v@.map_values(|n: u64| JsonV::Number(whole(n)));
    let mut r: Vec<Json> = Vec::new();
    let mut i: usize = 0;
    while i < v.len()
        invariant
            i <= v@.len(),
            all == v@.map_values(|n: u64| JsonV::Number(whole(n))),
            crate::json::values(r@) == all.take(i as int),
        decreases v@.len() - i,
    {
        let j: Json = Json::number(v[i]);
        proof {
            assert(crate::json::values(r@.push(j)) =~= crate::json::values(r@).push(j.view()));
            assert(all.take(i + 1) =~= all.take(i as int).push(all[i as int]));
        }
        r.push(j);
        i += 1;
    }
    proof {
        assert(all.take(i as int) =~= all);
    }
    Json::array(r)
}

/// What the model is told was marked.
pub struct Marked<'a> {
    pub doc_id: &'a str,
    pub title: &'a str,
    pub page: usize,
    pub text: &'a str,
    pub marks: usize,
    pub note_added: bool,
    pub ids: &'a Vec<u64>,
}

/// What the model is told was marked on a page of a document, and how many
/// marks there are.
pub open spec fn highlighted_value(
    doc: (Seq<char>, Seq<char>),
    page: usize,
    text: Seq<char>,
    marks: usize,
    note_added: bool,
    ids: Seq<u64>,
    rects: JsonV,
) -> JsonV {
    let named = and(
        and(
            and(just("highlighted"@, JsonV::Str(text)), "doc_id"@, JsonV::Str(doc.0)),
            "title"@,
            JsonV::Str(doc.1),
        ),
        "page"@,
        JsonV::Number(whole(page as u64)),
    );
    let counted = and(
        and(named, "marks"@, JsonV::Number(whole(marks as u64))),
        "note_added"@,
        JsonV::Bool(note_added),
    );
    and(
        and(and(counted, "rects"@, rects), "annotation_ids"@, number_list(ids)),
        "shown"@,
        JsonV::Str("the highlight is on the reader's screen now"@),
    )
}

/// What the model is told was marked, the places themselves written out by
/// whoever measures them.
pub fn highlighted(m: &Marked, rects: Json) -> (r: Json)
    ensures
        r.view() == highlighted_value(
            (m.doc_id@, m.title@),
            m.page,
            m.text@,
            m.marks,
            m.note_added,
            m.ids@,
            rects.view(),
        ),
{
    Json::object().with("highlighted", Json::string(m.text)).with(
        "doc_id",
        Json::string(m.doc_id),
    ).with("title", Json::string(m.title)).with("page", Json::number(m.page as u64)).with(
        "marks",
        Json::number(m.marks as u64),
    ).with("note_added", Json::Bool(m.note_added)).with("rects", rects).with(
        "annotation_ids",
        numbers_json(m.ids),
    ).with("shown", Json::string("the highlight is on the reader's screen now"))
}

/// The words to be marked, and where they are asked for.
pub struct Wanted<'a> {
    pub doc_id: &'a str,
    pub title: &'a str,
    pub page_count: usize,
    pub page: usize,
    pub text: &'a str,
    pub note: Option<&'a str>,
}

/// Mark the words that were found on a page: the marks go into `markup`, and
/// what the model is told of them comes back. Where there is no such page, or
/// the words are not on it, nothing is marked.
pub fn highlight_text(w: &Wanted, found: &Found, rects: Json, markup: &mut SavedMarkup) -> (r:
    Result<Json, String>)
    requires
        w.page >= 1,
    ensures
        w.page > w.page_count ==> *final(markup) == *old(markup) && (r matches Err(e) && e@
            == no_page_text(w.title@, w.page, w.page_count)),
        w.page <= w.page_count && found.rects@.len() == 0 ==> *final(markup) == *old(markup) && (
        r matches Err(e) && e@ == not_said_text(w.title@, w.page, w.text@)),
        w.page <= w.page_count && found.rects@.len() > 0 ==> {
            let added = marks(
                views(old(markup).annotations@),
                w.page,
                found.rects@,
                found.page_width as int,
                found.page_height as int,
                crate::serve::auth::door::said(w.note),
            );
            &&& final(markup).version == old(markup).version
            &&& final(markup).pages == old(markup).pages
            &&& views(final(markup).annotations@) == views(old(markup).annotations@) + added
            &&& r matches Ok(told) && told.view() == highlighted_value(
                (w.doc_id@, w.title@),
                w.page,
                w.text@,
                found.rects@.len() as usize,
                w.note is Some,
                added.map_values(|a: AnnV| a.id),
                rects.view(),
            )
        },
{
    if let Some(why) = check_page(w.title, w.page, w.page_count) {
        return Err(why);
    }
    if found.rects.len() == 0 {
        return Err(not_said(w.title, w.page, w.text));
    }
    let ids: Vec<u64> = draw(markup, w.page, found, w.note);
    let m: Marked = Marked {
        doc_id: w.doc_id,
        title: w.title,
        page: w.page,
        text: w.text,
        marks: found.rects.len(),
        note_added: w.note.is_some(),
        ids: &ids,
    };
    Ok(highlighted(&m, rects))
}

} // verus!
