//! `evo serve`: the library over HTTP, for a phone.
//!
//! There is no window and nobody to click a dialog, so everything the desktop
//! app keeps in its preferences lives in a JSON file next to the library, and
//! everything it would ask about is a command-line flag.


pub mod answers;
pub mod auth;
pub mod chat_api;
pub mod laws;
pub mod library_api;
pub mod markup_api;
pub mod pages;
pub mod routes;
pub mod tools;

use vstd::prelude::*;

use crate::json::Json;
use crate::render::engine::{join, joined, EnginePref};
use crate::script::model::{words, ModelConfig};
use crate::text::{contains, cut, decimal, decimal_of, holds, parse_uint, parsed, same, split_once, texts};

verus! {

/// Where the server listens unless told otherwise. Not registered with anyone;
/// 8443 says "HTTPS-ish, not privileged" to whoever reads the systemd unit.
pub const DEFAULT_PORT: u16 = 8443;

/// The default interface. `evo serve` exists to be reached from a phone, so it
/// is not loopback-only -- which is exactly why nothing answers it without a
/// password and a code.
pub const DEFAULT_BIND: &'static str = "0.0.0.0";

/// Where the blobs live.
#[derive(Clone, Copy, PartialEq, Eq, Structural, Debug)]
pub enum BlobBackend {
    /// Files under `<library>/docs`, the same as the desktop app.
    Local,
}

impl Default for BlobBackend {
    fn default() -> (r: Self)
        ensures
            r is Local,
    {
        BlobBackend::Local
    }
}

/// The biggest upload accepted, in megabytes. A scanned book is tens of
/// megabytes; anything past this is a mistake or an attempt to fill the disk.
pub const DEFAULT_MAX_UPLOAD_MB: usize = 200;

/// What the server does with documents by itself.
#[derive(Clone, Copy, PartialEq, Eq, Structural, Debug)]
pub struct AssistantPrefs {
    /// Whether summaries and tags are written.
    pub enrich_enabled: bool,
}

/// What the desktop app keeps in its preferences, for a process that has none.
pub struct ServeConfig {
    /// Which model answers chat and writes summaries.
    pub model: ModelConfig,
    /// Whether summaries and tags are written at all.
    pub assistant: AssistantPrefs,
    /// MCP servers the agent may use, each as the file has it. Deliberately
    /// config-file-only: it names programs to run, which is not something an
    /// HTTP API should accept.
    pub mcp_clients: Vec<Json>,
    pub blobs: BlobBackend,
    /// Which engine draws the pages.
    pub engine: EnginePref,
    /// The upload size limit. Configurable because "how big is a document"
    /// is a question about the library, not about evo.
    pub max_upload_mb: usize,
}

/// The upload limit in bytes: as many megabytes as were asked for, at least
/// one.
pub open spec fn limit_in_bytes(mb: int) -> int {
    (if mb < 1 {
        1
    } else {
        mb
    }) * 1_048_576
}

impl ServeConfig {
    /// The configuration of a server nobody has configured.
    pub fn starting(model: ModelConfig, assistant: AssistantPrefs) -> (r: Self)
        ensures
            r.model == model,
            r.assistant == assistant,
            r.mcp_clients@.len() == 0,
            r.blobs is Local,
            r.engine is Auto,
            r.max_upload_mb == DEFAULT_MAX_UPLOAD_MB,
    {
        ServeConfig {
            model,
            assistant,
            mcp_clients: Vec::new(),
            blobs: BlobBackend::default(),
            engine: EnginePref::Auto,
            max_upload_mb: DEFAULT_MAX_UPLOAD_MB,
        }
    }

    /// The upload limit in bytes, never zero: a limit of nothing would make
    /// the server refuse every document, which is not a configuration anyone
    /// means to write.
    pub fn upload_limit(&self) -> (r: usize)
        requires
            limit_in_bytes(self.max_upload_mb as int) <= usize::MAX,
        ensures
            r == limit_in_bytes(self.max_upload_mb as int),
            r > 0,
    {
        let mb: usize = if self.max_upload_mb < 1 {
            1
        } else {
            self.max_upload_mb
        };
        mb * 1_048_576
    }
}

/// Everything the server reads or writes, worked out once at startup.
///
/// `--data-dir` moves the library and the server's own files. It does *not*
/// move the downloaded models: those live in the platform data directory,
/// shared with the desktop app, because a model is a big file and nobody wants
/// two copies.
#[derive(Debug)]
pub struct ServePaths {
    pub library_root: String,
    pub serve_dir: String,
    pub config: String,
    pub auth: String,
    pub sessions: String,
}

impl ServePaths {
    /// Where everything is, from what was asked for and, where that is silent,
    /// the platform's data directory.
    pub fn new(data_dir: Option<String>, config: Option<String>, platform: Option<String>) -> (r:
        Result<Self, String>)
        ensures
            match (words(data_dir), words(platform)) {
                (Some(dir), _) => r is Ok && r->Ok_0.laid_out(dir, words(config)),
                (None, Some(dir)) => r is Ok && r->Ok_0.laid_out(dir, words(config)),
                (None, None) => r is Err && r->Err_0@
                    == "evo could not find a data directory on this platform; pass --data-dir."@,
            },
    {
        let dir: String = match data_dir {
            Some(dir) => dir,
            None => match platform {
                Some(dir) => dir,
                None => {
                    return Err(
                        "evo could not find a data directory on this platform; pass --data-dir.".to_owned(),
                    );
                },
            },
        };
        let serve_dir: String = join(dir.as_str(), "serve");
        Ok(
            ServePaths {
                // The same place the desktop app looks, so `evo serve` with no
                // flags serves the library it already has.
                library_root: join(dir.as_str(), "library"),
                config: match config {
                    Some(path) => path,
                    None => join(serve_dir.as_str(), "config.json"),
                },
                auth: join(serve_dir.as_str(), "auth.json"),
                sessions: join(serve_dir.as_str(), "sessions.json"),
                serve_dir,
            },
        )
    }

    /// Whether these are the paths below `dir`, with the configuration where it
    /// was asked for.
    pub open spec fn laid_out(&self, dir: Seq<char>, config: Option<Seq<char>>) -> bool {
        let serve = joined(dir, "serve"@);
        &&& self.library_root@ == joined(dir, "library"@)
        &&& self.serve_dir@ == serve
        &&& self.config@ == (match config {
            Some(path) => path,
            None => joined(serve, "config.json"@),
        })
        &&& self.auth@ == joined(serve, "auth.json"@)
        &&& self.sessions@ == joined(serve, "sessions.json"@)
    }
}

/// The flags, and the decisions that follow from them.
#[derive(PartialEq, Eq, Debug)]
pub struct ServeArgs {
    /// `evo serve init`: set up the password and the authenticator, then stop.
    pub init: bool,
    pub port: u16,
    pub bind: String,
    pub data_dir: Option<String>,
    pub config: Option<String>,
    /// Serve plain HTTP. Only sane behind a reverse proxy that terminates TLS,
    /// or on a machine you are sitting at.
    pub insecure_http: bool,
    /// Believe `X-Forwarded-For`. Off by default: a header anyone can send is
    /// not an identity, and the rate limiter counts by it.
    pub trust_proxy: bool,
}

/// The flags as a mathematical value.
#[verifier::ext_equal]
pub struct ArgsV {
    pub init: bool,
    pub port: u16,
    pub bind: Seq<char>,
    pub data_dir: Option<Seq<char>>,
    pub config: Option<Seq<char>>,
    pub insecure_http: bool,
    pub trust_proxy: bool,
}

impl View for ServeArgs {
    type V = ArgsV;

    open spec fn view(&self) -> ArgsV {
        ArgsV {
            init: self.init,
            port: self.port,
            bind: self.bind@,
            data_dir: words(self.data_dir),
            config: words(self.config),
            insecure_http: self.insecure_http,
            trust_proxy: self.trust_proxy,
        }
    }
}

/// What holds where no flag says otherwise.
pub open spec fn no_flags() -> ArgsV {
    ArgsV {
        init: false,
        port: DEFAULT_PORT,
        bind: DEFAULT_BIND@,
        data_dir: None,
        config: None,
        insecure_http: false,
        trust_proxy: false,
    }
}

impl Default for ServeArgs {
    fn default() -> (r: Self)
        ensures
            r@ == no_flags(),
    {
        ServeArgs {
            init: false,
            port: DEFAULT_PORT,
            bind: DEFAULT_BIND.to_owned(),
            data_dir: None,
            config: None,
            insecure_http: false,
            trust_proxy: false,
        }
    }
}

pub const USAGE: &'static str =
    "usage: evo serve [init] [options]\n\n  init                 set the password and enrol an authenticator app, then exit\n  --port <n>           port to listen on (default 8443)\n  --bind <addr>        interface to listen on (default 0.0.0.0)\n  --data-dir <path>    where the library and the server's files live\n  --config <path>      configuration file (default <data-dir>/serve/config.json)\n  --insecure-http      serve plain HTTP; drops the Secure flag from the cookie\n  --trust-proxy        take the client address from X-Forwarded-For\n";

/// A complaint, with the usage below it.
pub open spec fn complaint(what: Seq<char>) -> Seq<char> {
    what + "\n\n"@ + USAGE@
}

fn complain(what: String) -> (r: String)
    ensures
        r@ == complaint(what@),
{
    let mut r: String = what;
    r.append("\n\n");
    r.append(USAGE);
    r
}

/// The name of a flag, and the value that stands behind an equals sign.
pub open spec fn flag_parts(arg: Seq<char>) -> (Seq<char>, Option<Seq<char>>) {
    match cut(arg, "="@) {
        Some(parts) => (parts.0, Some(parts.1)),
        None => (arg, None),
    }
}

/// Whether a flag of this name has a value.
pub open spec fn has_value(name: Seq<char>) -> bool {
    name == "--port"@ || name == "--bind"@ || name == "--data-dir"@ || name == "--config"@
}

/// The flags with this one set to `value`.
pub open spec fn with_value(acc: ArgsV, name: Seq<char>, value: Seq<char>) -> Result<
    ArgsV,
    Seq<char>,
> {
    if name == "--port"@ {
        match parsed(value, 65535) {
            Some(n) => Ok(ArgsV { port: n as u16, ..acc }),
            None => Err(complaint(value + " is not a port number."@)),
        }
    } else if name == "--bind"@ {
        Ok(ArgsV { bind: value, ..acc })
    } else if name == "--data-dir"@ {
        Ok(ArgsV { data_dir: Some(value), ..acc })
    } else {
        Ok(ArgsV { config: Some(value), ..acc })
    }
}

/// What the flags from the `i`th on come to, on top of `acc`: both
/// `--flag value` and `--flag=value` work, because people type both.
pub open spec fn flags_from(args: Seq<Seq<char>>, i: int, acc: ArgsV) -> Result<ArgsV, Seq<char>>
    decreases args.len() - i,
{
    if i < 0 || i >= args.len() {
        Ok(acc)
    } else if i == 0 && args[0] == "init"@ {
        flags_from(args, 1, ArgsV { init: true, ..acc })
    } else {
        let (name, inline) = flag_parts(args[i]);
        if has_value(name) {
            match inline {
                Some(value) => match with_value(acc, name, value) {
                    Ok(next) => flags_from(args, i + 1, next),
                    Err(e) => Err(e),
                },
                None => if i + 1 < args.len() {
                    match with_value(acc, name, args[i + 1]) {
                        Ok(next) => flags_from(args, i + 2, next),
                        Err(e) => Err(e),
                    }
                } else {
                    Err(complaint(name + " needs a value."@))
                },
            }
        } else if name == "--insecure-http"@ {
            flags_from(args, i + 1, ArgsV { insecure_http: true, ..acc })
        } else if name == "--trust-proxy"@ {
            flags_from(args, i + 1, ArgsV { trust_proxy: true, ..acc })
        } else if name == "--help"@ || name == "-h"@ {
            Err(USAGE@)
        } else {
            Err(complaint("evo serve does not know "@ + name + "."@))
        }
    }
}

/// Set one flag that has a value.
fn set_value(parsed_args: ServeArgs, name: &str, value: String) -> (r: Result<ServeArgs, String>)
    requires
        has_value(name@),
    ensures
        match r {
            Ok(a) => with_value(parsed_args@, name@, value@) == Ok::<ArgsV, Seq<char>>(a@),
            Err(e) => with_value(parsed_args@, name@, value@) == Err::<ArgsV, Seq<char>>(e@),
        },
{
    let mut a: ServeArgs = parsed_args;
    if same(name, "--port") {
        match parse_uint(value.as_str(), 65535) {
            Some(n) => {
                a.port = n as u16;
            },
            None => {
                let mut what: String = value;
                what.append(" is not a port number.");
                return Err(complain(what));
            },
        }
    } else if same(name, "--bind") {
        a.bind = value;
    } else if same(name, "--data-dir") {
        a.data_dir = Some(value);
    } else {
        a.config = Some(value);
    }
    Ok(a)
}

/// Parse the arguments after `evo serve`.
pub fn parse_args(args: &Vec<String>) -> (r: Result<ServeArgs, String>)
    ensures
        match r {
            Ok(a) => flags_from(texts(args@), 0, no_flags()) == Ok::<ArgsV, Seq<char>>(a@),
            Err(e) => flags_from(texts(args@), 0, no_flags()) == Err::<ArgsV, Seq<char>>(e@),
        },
{
    let ghost all = texts(args@);
    let mut a: ServeArgs = ServeArgs::default();
    let mut i: usize = 0;
    while i < args.len()
        invariant
            i <= args@.len(),
            all == texts(args@),
            flags_from(all, 0, no_flags()) == flags_from(all, i as int, a@),
        decreases args@.len() - i,
    {
        proof {
            assert(all[i as int] == args@[i as int]@);
        }
        if i == 0 && same(args[0].as_str(), "init") {
            a.init = true;
            i = 1;
            continue;
        }
        let (name, inline): (String, Option<String>) = match split_once(args[i].as_str(), "=") {
            Some((name, value)) => (name, Some(value)),
            None => (args[i].clone(), None),
        };
        if same(name.as_str(), "--port") || same(name.as_str(), "--bind") || same(
            name.as_str(),
            "--data-dir",
        ) || same(name.as_str(), "--config") {
            let value: String = match inline {
                Some(value) => {
                    i += 1;
                    value
                },
                None => if i + 1 < args.len() {
                    proof {
                        assert(all[i + 1] == args@[i + 1]@);
                    }
                    let value: String = args[i + 1].clone();
                    i += 2;
                    value
                } else {
                    let mut what: String = name;
                    what.append(" needs a value.");
                    return Err(complain(what));
                },
            };
            match set_value(a, name.as_str(), value) {
                Ok(next) => {
                    a = next;
                },
                Err(e) => {
                    return Err(e);
                },
            }
        } else if same(name.as_str(), "--insecure-http") {
            a.insecure_http = true;
            i += 1;
        } else if same(name.as_str(), "--trust-proxy") {
            a.trust_proxy = true;
            i += 1;
        } else if same(name.as_str(), "--help") || same(name.as_str(), "-h") {
            return Err(USAGE.to_owned());
        } else {
            let mut what: String = "evo serve does not know ".to_owned();
            what.append(name.as_str());
            what.append(".");
            return Err(complain(what));
        }
    }
    Ok(a)
}

/// A flag and its value may stand apart or be joined by an equals sign: it
/// comes to the same.
pub proof fn law_flags_read_both_ways(
    before: Seq<Seq<char>>,
    name: Seq<char>,
    value: Seq<char>,
    after: Seq<Seq<char>>,
    acc: ArgsV,
)
    requires
        has_value(name),
    ensures
        flags_from(before + seq![name, value] + after, before.len() as int, acc) == flags_from(
            before + seq![name + "="@ + value] + after,
            before.len() as int,
            acc,
        ),
{
    reveal_strlit("=");
    reveal_strlit("--port");
    reveal_strlit("--bind");
    reveal_strlit("--data-dir");
    reveal_strlit("--config");
    reveal_strlit("init");
    let n = before.len() as int;
    let apart = before + seq![name, value] + after;
    let together = before + seq![name + "="@ + value] + after;
    let whole = name + "="@ + value;
    assert(apart[n] == name && apart[n + 1] == value && together[n] == whole);
    lemma_no_equals(name, 0);
    assert(cut(name, "="@) is None);
    lemma_first_equals(name, value, 0);
    assert(whole.take(name.len() as int) =~= name);
    assert(whole.skip(name.len() as int + 1) =~= value);
    assert(whole.len() > 4 && name.len() > 4);
    assert(whole != "init"@ && name != "init"@);
    match with_value(acc, name, value) {
        Ok(next) => {
            assert(apart.skip(n + 2) =~= after);
            assert(together.skip(n + 1) =~= after);
            lemma_same_rest(apart, n + 2, together, n + 1, next);
        },
        Err(_) => {},
    }
}

proof fn lemma_no_equals(s: Seq<char>, from: int)
    requires
        0 <= from <= s.len(),
        forall|i: int| 0 <= i < s.len() ==> #[trigger] s[i] != '=',
    ensures
        crate::text::find_from(s, "="@, from) is None,
    decreases s.len() + 1 - from,
{
    reveal_strlit("=");
    if from < s.len() {
        lemma_no_equals(s, from + 1);
        if crate::text::stands_at(s, "="@, from) {
            assert(s.subrange(from, from + 1)[0] == "="@[0]);
        }
    } else {
        assert(!crate::text::stands_at(s, "="@, from));
    }
}

proof fn lemma_first_equals(name: Seq<char>, value: Seq<char>, from: int)
    requires
        0 <= from <= name.len(),
        forall|i: int| 0 <= i < name.len() ==> #[trigger] name[i] != '=',
    ensures
        crate::text::find_from(name + "="@ + value, "="@, from) == Some(name.len() as int),
    decreases name.len() - from,
{
    reveal_strlit("=");
    let s = name + "="@ + value;
    if from < name.len() {
        lemma_first_equals(name, value, from + 1);
        if crate::text::stands_at(s, "="@, from) {
            assert(s.subrange(from, from + 1)[0] == "="@[0]);
            assert(s[from] == name[from]);
        }
    } else {
        assert(s.subrange(from, from + 1) =~= "="@);
        assert(crate::text::stands_at(s, "="@, from));
    }
}

pub proof fn lemma_same_rest(a: Seq<Seq<char>>, i: int, b: Seq<Seq<char>>, j: int, acc: ArgsV)
    requires
        0 < i <= a.len(),
        0 < j <= b.len(),
        a.skip(i) == b.skip(j),
    ensures
        flags_from(a, i, acc) == flags_from(b, j, acc),
    decreases a.len() - i,
{
    assert(a.len() - i == a.skip(i).len());
    assert(b.len() - j == b.skip(j).len());
    if i < a.len() {
        assert(a[i] == a.skip(i)[0]);
        assert(b[j] == b.skip(j)[0]);
        assert(a.skip(i + 1) =~= a.skip(i).skip(1));
        assert(b.skip(j + 1) =~= b.skip(j).skip(1));
        let (name, inline) = flag_parts(a[i]);
        if has_value(name) {
            match inline {
                Some(value) => match with_value(acc, name, value) {
                    Ok(next) => lemma_same_rest(a, i + 1, b, j + 1, next),
                    Err(_) => {},
                },
                None => {
                    if i + 1 < a.len() {
                        assert(a[i + 1] == a.skip(i)[1]);
                        assert(b[j + 1] == b.skip(j)[1]);
                        assert(a.skip(i + 2) =~= a.skip(i).skip(2));
                        assert(b.skip(j + 2) =~= b.skip(j).skip(2));
                        match with_value(acc, name, a[i + 1]) {
                            Ok(next) => lemma_same_rest(a, i + 2, b, j + 2, next),
                            Err(_) => {},
                        }
                    }
                },
            }
        } else if name == "--insecure-http"@ {
            lemma_same_rest(a, i + 1, b, j + 1, ArgsV { insecure_http: true, ..acc });
        } else if name == "--trust-proxy"@ {
            lemma_same_rest(a, i + 1, b, j + 1, ArgsV { trust_proxy: true, ..acc });
        }
    }
}

/// The decisions the request handlers need, separated from the flags because
/// "is the cookie Secure" is a policy and `--insecure-http` is only how it was
/// asked for.
#[derive(Clone, Copy, PartialEq, Eq, Structural, Debug)]
pub struct ServeOptions {
    pub secure_cookies: bool,
    pub trust_proxy: bool,
}

impl Default for ServeOptions {
    fn default() -> (r: Self)
        ensures
            r.secure_cookies && !r.trust_proxy,
    {
        ServeOptions { secure_cookies: true, trust_proxy: false }
    }
}

impl ServeOptions {
    /// The decisions that follow from the flags.
    pub fn from_args(args: &ServeArgs) -> (r: Self)
        ensures
            r.secure_cookies == !args.insecure_http,
            r.trust_proxy == args.trust_proxy,
    {
        ServeOptions { secure_cookies: !args.insecure_http, trust_proxy: args.trust_proxy }
    }

    pub open spec fn cookie(&self) -> Seq<char> {
        if self.secure_cookies {
            "__Host-evo"@
        } else {
            "evo"@
        }
    }

    /// The session cookie's name.
    ///
    /// `__Host-` is the prefix that tells the browser to refuse the cookie
    /// unless it is Secure, path `/` and un-scoped to a domain -- which is
    /// exactly the guarantee wanted, and exactly why it cannot be used when
    /// `--insecure-http` has dropped Secure. Under plain HTTP the name is the
    /// unadorned one, and the weaker cookie is the honest one.
    pub fn cookie_name(&self) -> (r: &'static str)
        ensures
            r@ == self.cookie(),
    {
        if self.secure_cookies {
            "__Host-evo"
        } else {
            "evo"
        }
    }

    /// The scheme the server is announced under.
    pub fn scheme(&self) -> (r: &'static str)
        ensures
            r@ == if self.secure_cookies {
                "https"@
            } else {
                "http"@
            },
    {
        if self.secure_cookies {
            "https"
        } else {
            "http"
        }
    }
}

/// What to tell someone whose library is locked by the running app.
pub const LOCKED: &'static str =
    "evo is already running and has this library open; quit the app before starting `evo serve` (one library, one process).";

/// Turn a failure to open the library into something worth reading. The
/// overwhelmingly likely cause is that the desktop app has the database open,
/// and the answer to that is not "try again" but "quit the app".
pub fn explain(text: &str) -> (r: String)
    ensures
        r@ == if holds(text@, "already open"@) {
            LOCKED@
        } else {
            "evo could not open its library: "@ + text@
        },
{
    if contains(text, "already open") {
        LOCKED.to_owned()
    } else {
        let mut r: String = "evo could not open its library: ".to_owned();
        r.append(text);
        r
    }
}

/// What the operator sees of the model in the journal.
pub fn model_note(model: &ModelConfig) -> (r: String)
    ensures
        r@ == if model.api is Builtin {
            "  model: built-in "@ + model.builtin_model@
        } else {
            "  model: "@ + model.model@ + " at "@ + model.base_url@
        },
{
    if model.api.is_http() {
        let mut r: String = "  model: ".to_owned();
        r.append(model.model.as_str());
        r.append(" at ");
        r.append(model.base_url.as_str());
        r
    } else {
        let mut r: String = "  model: built-in ".to_owned();
        r.append(model.builtin_model.as_str());
        r
    }
}

/// What the operator sees of the tool servers in the journal, where there are
/// any.
pub fn tools_note(servers: usize) -> (r: Option<String>)
    ensures
        match r {
            Some(note) => servers > 0 && note@ == "  tools: "@ + decimal(servers as nat)
                + " MCP server"@ + (if servers == 1 {
                ""@
            } else {
                "s"@
            }) + " configured (started when first asked for)"@,
            None => servers == 0,
        },
{
    if servers == 0 {
        return None;
    }
    let mut r: String = "  tools: ".to_owned();
    r.append(decimal_of(servers as u64).as_str());
    r.append(" MCP server");
    r.append(if servers == 1 { "" } else { "s" });
    r.append(" configured (started when first asked for)");
    Some(r)
}

} // verus!
