//! Talking to a local language model: what is sent, and how the reply that
//! streams back is read.
//!
//! Two dialects are spoken over HTTP -- Ollama's own API, and the
//! OpenAI-compatible endpoint most local servers also expose.

use vstd::prelude::*;

use crate::json::{
    bool_in, copy_number, element, field, field_in, json_read, json_written, list_in, parse, seen, text_in,
    u64_in, values, whole, Json, JsonV,
};
use crate::text::{after, same, strip_prefix, trim, trim_end_of, trim_tail_of, trimmed};

verus! {

#[derive(Debug)]
pub enum ModelError {
    Unreachable { url: String, why: String },
    Status { status: u16, body: String },
    Read(String),
    /// The backend cannot run at all: no weights, no such model, or a build
    /// without the built-in engine.
    Unavailable(String),
    Cancelled,
}

/// What is said of an error.
pub open spec fn model_error_text(e: ModelError) -> Seq<char> {
    match e {
        ModelError::Unreachable { url, why } => "could not reach the model at "@ + url@ + ": "@
            + why@,
        ModelError::Status { status, body } => "the model returned "@ + crate::text::decimal(
            status as nat,
        ) + ": "@ + body@,
        ModelError::Read(why) => "could not read the model's reply: "@ + why@,
        ModelError::Unavailable(why) => why@,
        ModelError::Cancelled => "cancelled"@,
    }
}

impl ModelError {
    /// What to tell the user.
    pub fn message(&self) -> (r: String)
        ensures
            r@ == model_error_text(*self),
    {
        match self {
            ModelError::Unreachable { url, why } => {
                let mut r: String = "could not reach the model at ".to_owned();
                r.append(url.as_str());
                r.append(": ");
                r.append(why.as_str());
                r
            },
            ModelError::Status { status, body } => {
                let mut r: String = "the model returned ".to_owned();
                r.append(crate::text::decimal_of(*status as u64).as_str());
                r.append(": ");
                r.append(body.as_str());
                r
            },
            ModelError::Read(why) => {
                let mut r: String = "could not read the model's reply: ".to_owned();
                r.append(why.as_str());
                r
            },
            ModelError::Unavailable(why) => why.clone(),
            ModelError::Cancelled => "cancelled".to_owned(),
        }
    }
}

/// Who said something in a conversation.
#[derive(Clone, Copy, PartialEq, Eq, Structural, Debug)]
pub enum Role {
    System,
    User,
    Assistant,
    Tool,
}

impl Role {
    /// The name both dialects use on the wire.
    pub open spec fn name(self) -> Seq<char> {
        match self {
            Role::System => "system"@,
            Role::User => "user"@,
            Role::Assistant => "assistant"@,
            Role::Tool => "tool"@,
        }
    }

    /// The name both dialects use on the wire.
    pub fn wire(self) -> (r: &'static str)
        ensures
            r@ == self.name(),
    {
        match self {
            Role::System => "system",
            Role::User => "user",
            Role::Assistant => "assistant",
            Role::Tool => "tool",
        }
    }
}

/// What an optional string says.
pub open spec fn words(s: Option<String>) -> Option<Seq<char>> {
    match s {
        Some(s) => Some(s@),
        None => None,
    }
}

/// What an optional string says, or nothing.
pub open spec fn words_or_none(s: Option<Seq<char>>) -> Seq<char> {
    match s {
        Some(s) => s,
        None => Seq::empty(),
    }
}

fn copy_words(s: &Option<String>) -> (r: Option<String>)
    ensures
        words(r) == words(*s),
{
    match s {
        Some(s) => Some(s.clone()),
        None => None,
    }
}

/// The model asking for one tool to be run.
pub struct ToolCall {
    /// The dialect's own handle for this call, when it gave one. OpenAI needs
    /// it back on the result message; Ollama does not use one.
    pub id: Option<String>,
    pub name: String,
    /// Always an object once parsed; `{}` when the model sent nothing usable.
    pub arguments: Json,
}

/// A call as a mathematical value.
#[verifier::ext_equal]
pub struct CallV {
    pub id: Option<Seq<char>>,
    pub name: Seq<char>,
    pub arguments: JsonV,
}

impl View for ToolCall {
    type V = CallV;

    open spec fn view(&self) -> CallV {
        CallV { id: words(self.id), name: self.name@, arguments: self.arguments.view() }
    }
}

pub open spec fn calls(v: Seq<ToolCall>) -> Seq<CallV> {
    v.map_values(|c: ToolCall| c@)
}

impl ToolCall {
    pub fn new(name: String, arguments: Json) -> (r: Self)
        ensures
            r@ == (CallV { id: None, name: name@, arguments: arguments.view() }),
    {
        ToolCall { id: None, name, arguments }
    }

    /// The arguments as the wire wants them: OpenAI carries them as a JSON
    /// *string*, Ollama as an object.
    pub fn arguments_json(&self) -> (r: String)
        ensures
            r@ == json_written(self@.arguments),
    {
        self.arguments.text()
    }

    pub fn copy(&self) -> (r: ToolCall)
        ensures
            r@ == self@,
    {
        ToolCall {
            id: copy_words(&self.id),
            name: self.name.clone(),
            arguments: self.arguments.copy(),
        }
    }
}

/// One turn of a conversation.
pub struct ChatMessage {
    pub role: Role,
    pub content: String,
    /// Tools this assistant turn asked to run.
    pub tool_calls: Vec<ToolCall>,
    /// For a [`Role::Tool`] turn: which call this is the result of.
    pub tool_call_id: Option<String>,
    /// For a [`Role::Tool`] turn: which tool produced it.
    pub name: Option<String>,
}

/// A turn as a mathematical value.
#[verifier::ext_equal]
pub struct TurnV {
    pub role: Role,
    pub content: Seq<char>,
    pub tool_calls: Seq<CallV>,
    pub tool_call_id: Option<Seq<char>>,
    pub name: Option<Seq<char>>,
}

impl View for ChatMessage {
    type V = TurnV;

    open spec fn view(&self) -> TurnV {
        TurnV {
            role: self.role,
            content: self.content@,
            tool_calls: calls(self.tool_calls@),
            tool_call_id: words(self.tool_call_id),
            name: words(self.name),
        }
    }
}

pub open spec fn turns(v: Seq<ChatMessage>) -> Seq<TurnV> {
    v.map_values(|t: ChatMessage| t@)
}

impl ChatMessage {
    pub fn new(role: Role, content: String) -> (r: Self)
        ensures
            r@ == (TurnV {
                role,
                content: content@,
                tool_calls: Seq::empty(),
                tool_call_id: None,
                name: None,
            }),
    {
        let r = ChatMessage {
            role,
            content,
            tool_calls: Vec::new(),
            tool_call_id: None,
            name: None,
        };
        proof {
            assert(calls(r.tool_calls@) =~= Seq::empty());
        }
        r
    }

    /// The assistant turn that asked for tools. The text is whatever it said
    /// alongside the request, which is often nothing.
    pub fn calling(text: String, asked: Vec<ToolCall>) -> (r: Self)
        ensures
            r@ == (TurnV {
                role: Role::Assistant,
                content: text@,
                tool_calls: calls(asked@),
                tool_call_id: None,
                name: None,
            }),
    {
        ChatMessage {
            role: Role::Assistant,
            content: text,
            tool_calls: asked,
            tool_call_id: None,
            name: None,
        }
    }

    /// What one tool answered, as the model should see it.
    pub fn tool_result(call: &ToolCall, content: String) -> (r: Self)
        ensures
            r@ == (TurnV {
                role: Role::Tool,
                content: content@,
                tool_calls: Seq::empty(),
                tool_call_id: call@.id,
                name: Some(call@.name),
            }),
    {
        let r = ChatMessage {
            role: Role::Tool,
            content,
            tool_calls: Vec::new(),
            tool_call_id: copy_words(&call.id),
            name: Some(call.name.clone()),
        };
        proof {
            assert(calls(r.tool_calls@) =~= Seq::empty());
        }
        r
    }
}

/// A tool the model may ask for, described the way both dialects want it: a
/// name, a sentence, and a JSON Schema for the arguments.
pub struct ToolDef {
    pub name: String,
    pub description: String,
    /// JSON Schema object: `{"type":"object","properties":{..}}`.
    pub parameters: Json,
}

/// A tool as a mathematical value.
#[verifier::ext_equal]
pub struct DefV {
    pub name: Seq<char>,
    pub description: Seq<char>,
    pub parameters: JsonV,
}

impl View for ToolDef {
    type V = DefV;

    open spec fn view(&self) -> DefV {
        DefV {
            name: self.name@,
            description: self.description@,
            parameters: self.parameters.view(),
        }
    }
}

pub open spec fn defs(v: Seq<ToolDef>) -> Seq<DefV> {
    v.map_values(|d: ToolDef| d@)
}

/// An object with one member.
pub open spec fn just(name: Seq<char>, value: JsonV) -> JsonV {
    JsonV::Object(Map::empty().insert(name, value))
}

/// An object with one member more.
pub open spec fn and(j: JsonV, name: Seq<char>, value: JsonV) -> JsonV {
    match j {
        JsonV::Object(m) => JsonV::Object(m.insert(name, value)),
        other => other,
    }
}

/// The shape both dialects put in their `tools` array.
pub open spec fn def_wire(d: DefV) -> JsonV {
    let function = and(
        and(just("name"@, JsonV::Str(d.name)), "description"@, JsonV::Str(d.description)),
        "parameters"@,
        d.parameters,
    );
    and(just("type"@, JsonV::Str("function"@)), "function"@, function)
}

impl ToolDef {
    /// The shape both dialects put in their `tools` array.
    pub fn wire(&self) -> (r: Json)
        ensures
            r.view() == def_wire(self@),
    {
        let function: Json = Json::object().with("name", Json::string(self.name.as_str())).with(
            "description",
            Json::string(self.description.as_str()),
        ).with("parameters", self.parameters.copy());
        Json::object().with("type", Json::string("function")).with("function", function)
    }
}

/// What one generation produced: text, and whatever tools it asked for.
pub struct GenerateOutcome {
    pub text: String,
    pub tool_calls: Vec<ToolCall>,
}

impl GenerateOutcome {
    pub fn text(text: String) -> (r: Self)
        ensures
            r.text == text,
            r.tool_calls@.len() == 0,
    {
        GenerateOutcome { text, tool_calls: Vec::new() }
    }
}

pub struct GenerateRequest {
    pub model: String,
    /// The question being asked. Empty when the conversation in `history` is
    /// already up to date -- the agent loop continues that way after a tool
    /// has answered.
    pub prompt: String,
    pub system: Option<String>,
    /// Earlier turns, oldest first. Empty for a one-shot completion.
    pub history: Vec<ChatMessage>,
    /// Tools the model may ask for. Empty means it is only being asked for
    /// text, and no dialect is told about tools at all.
    pub tools: Vec<ToolDef>,
    pub temperature: Option<serde_json::Number>,
    pub max_tokens: Option<u32>,
}

impl Default for GenerateRequest {
    fn default() -> (r: Self)
        ensures
            r.model@.len() == 0 && r.prompt@.len() == 0,
            r.system is None && r.temperature is None && r.max_tokens is None,
            r.history@.len() == 0 && r.tools@.len() == 0,
    {
        GenerateRequest {
            model: String::new(),
            prompt: String::new(),
            system: None,
            history: Vec::new(),
            tools: Vec::new(),
            temperature: None,
            max_tokens: None,
        }
    }
}

/// Which API dialect the configured endpoint speaks.
#[derive(Clone, Copy, PartialEq, Eq, Structural, Debug)]
pub enum Api {
    /// Ollama's native `/api/chat`, newline-delimited JSON.
    Ollama,
    /// `/v1/chat/completions`, server-sent events. llama.cpp's server,
    /// LM Studio, vLLM and others speak this.
    OpenAiCompatible,
    /// A model evo downloaded itself and runs in process. No server, no
    /// network, nothing to install.
    Builtin,
}

impl Default for Api {
    fn default() -> (r: Self)
        ensures
            r is Ollama,
    {
        Api::Ollama
    }
}

impl Api {
    /// Every dialect, once.
    pub fn all() -> (r: [Api; 3])
        ensures
            r@ == seq![Api::Ollama, Api::OpenAiCompatible, Api::Builtin],
    {
        let r: [Api; 3] = [Api::Ollama, Api::OpenAiCompatible, Api::Builtin];
        proof {
            assert(r@ =~= seq![Api::Ollama, Api::OpenAiCompatible, Api::Builtin]);
        }
        r
    }

    pub open spec fn title(self) -> Seq<char> {
        match self {
            Api::Ollama => "Ollama"@,
            Api::OpenAiCompatible => "OpenAI-compatible"@,
            Api::Builtin => "Built-in (downloaded model)"@,
        }
    }

    pub fn label(self) -> (r: &'static str)
        ensures
            r@ == self.title(),
    {
        match self {
            Api::Ollama => "Ollama",
            Api::OpenAiCompatible => "OpenAI-compatible",
            Api::Builtin => "Built-in (downloaded model)",
        }
    }

    pub fn default_url(self) -> (r: &'static str)
        ensures
            r@ == (match self {
                Api::Ollama => "http://localhost:11434"@,
                Api::OpenAiCompatible => "http://localhost:8080"@,
                Api::Builtin => ""@,
            }),
    {
        match self {
            Api::Ollama => "http://localhost:11434",
            Api::OpenAiCompatible => "http://localhost:8080",
            Api::Builtin => "",
        }
    }

    /// Whether this dialect talks to a server the user has to point evo at.
    pub fn is_http(self) -> (r: bool)
        ensures
            r == !(self is Builtin),
    {
        !matches!(self, Api::Builtin)
    }
}

/// How to reach the model. Persisted with the rest of the preferences.
pub struct ModelConfig {
    pub api: Api,
    pub base_url: String,
    pub model: String,
    /// Which catalogue entry [`Api::Builtin`] runs. Kept alongside the HTTP
    /// settings so switching between them does not lose either.
    pub builtin_model: String,
    pub timeout_secs: u64,
}

pub fn default_timeout() -> (r: u64)
    ensures
        r == 120,
{
    120
}

impl ModelConfig {
    /// The settings evo starts with, `builtin_model` being the catalogue's own
    /// default.
    pub fn starting(builtin_model: String) -> (r: Self)
        ensures
            r.api is Ollama,
            r.base_url@ == "http://localhost:11434"@,
            r.model@ == "llama3.2"@,
            r.builtin_model == builtin_model,
            r.timeout_secs == 120,
    {
        ModelConfig {
            api: Api::Ollama,
            base_url: Api::Ollama.default_url().to_owned(),
            model: "llama3.2".to_owned(),
            builtin_model,
            timeout_secs: default_timeout(),
        }
    }
}

pub struct HttpBackend {
    pub config: ModelConfig,
}

/// Where `path` is on the server at `base`.
pub open spec fn url_on(base: Seq<char>, path: Seq<char>) -> Seq<char> {
    trim_end_of(base, '/') + "/"@ + path
}

impl HttpBackend {
    pub fn url(&self, path: &str) -> (r: String)
        ensures
            r@ == url_on(self.config.base_url@, path@),
    {
        let mut r: String = trim_tail_of(self.config.base_url.as_str(), '/');
        r.append("/");
        r.append(path);
        r
    }

    /// Where to post a request, and what.
    pub fn request(&self, req: &GenerateRequest) -> (r: Result<(String, String), ModelError>)
        ensures
            match self.config.api {
                Api::Ollama => r matches Ok(sent) && sent.0@ == url_on(
                    self.config.base_url@,
                    "api/chat"@,
                ) && sent.1@ == json_written(ollama_wire(*req)),
                Api::OpenAiCompatible => r matches Ok(sent) && sent.0@ == url_on(
                    self.config.base_url@,
                    "v1/chat/completions"@,
                ) && sent.1@ == json_written(openai_wire(*req)),
                Api::Builtin => r matches Err(ModelError::Unavailable(why)) && why@
                    == "the built-in model does not run over HTTP"@,
            },
    {
        match self.config.api {
            Api::Ollama => Ok((self.url("api/chat"), ollama_body(req).text())),
            Api::OpenAiCompatible => Ok((self.url("v1/chat/completions"), openai_body(req).text())),
            Api::Builtin => Err(
                ModelError::Unavailable("the built-in model does not run over HTTP".to_owned()),
            ),
        }
    }

    /// Where to ask which models there are.
    pub fn models_url(&self) -> (r: Result<String, ModelError>)
        ensures
            match self.config.api {
                Api::Ollama => r matches Ok(url) && url@ == url_on(
                    self.config.base_url@,
                    "api/tags"@,
                ),
                Api::OpenAiCompatible => r matches Ok(url) && url@ == url_on(
                    self.config.base_url@,
                    "v1/models"@,
                ),
                Api::Builtin => r matches Err(ModelError::Unavailable(why)) && why@
                    == "the built-in model does not run over HTTP"@,
            },
    {
        match self.config.api {
            Api::Ollama => Ok(self.url("api/tags")),
            Api::OpenAiCompatible => Ok(self.url("v1/models")),
            Api::Builtin => Err(
                ModelError::Unavailable("the built-in model does not run over HTTP".to_owned()),
            ),
        }
    }

    pub fn describe(&self) -> (r: String)
        ensures
            r@ == self.config.model@ + " at "@ + self.config.base_url@ + " ("@
                + self.config.api.title() + ")"@,
    {
        let mut r: String = self.config.model.clone();
        r.append(" at ");
        r.append(self.config.base_url.as_str());
        r.append(" (");
        r.append(self.config.api.label());
        r.append(")");
        r
    }
}

/// What a build without the built-in model says when it is asked for.
pub fn no_builtin_model() -> (r: ModelError)
    ensures
        r matches ModelError::Unavailable(why) && why@
            == "this build of evo was compiled without the built-in model; point Preferences \u{25b8} Model at a local server instead"@,
{
    ModelError::Unavailable(
        "this build of evo was compiled without the built-in model; point Preferences \u{25b8} Model at a local server instead".to_owned(),
    )
}

/// Whether a reply may be read, from its status: anything but success is an
/// error that carries what the server said.
pub fn check_status(status: u16, body: Option<String>) -> (r: Result<(), ModelError>)
    ensures
        200 <= status < 300 <==> r is Ok,
        r matches Err(e) ==> (e matches ModelError::Status { status: s, body: b } && s == status
            && b@ == (match body {
            Some(text) => text@,
            None => "<unreadable>"@,
        })),
{
    if status >= 200 && status < 300 {
        Ok(())
    } else {
        let body: String = match body {
            Some(text) => text,
            None => "<unreadable>".to_owned(),
        };
        Err(ModelError::Status { status, body })
    }
}

// ---------------------------------------------------------------------------
// What is sent
// ---------------------------------------------------------------------------

/// One call on the wire. OpenAI identifies each call and carries the arguments
/// as a string; the result message quotes the id back.
pub open spec fn call_wire(c: CallV, api: Api) -> JsonV {
    if api is OpenAiCompatible {
        and(
            and(
                just("id"@, JsonV::Str(words_or_none(c.id))),
                "type"@,
                JsonV::Str("function"@),
            ),
            "function"@,
            and(
                just("name"@, JsonV::Str(c.name)),
                "arguments"@,
                JsonV::Str(json_written(c.arguments)),
            ),
        )
    } else {
        just(
            "function"@,
            and(just("name"@, JsonV::Str(c.name)), "arguments"@, c.arguments),
        )
    }
}

/// One turn on the wire. Plain text turns are identical in both dialects; the
/// ones that carry a tool call or its result are not.
pub open spec fn turn_wire(t: TurnV, api: Api) -> JsonV {
    let plain = and(
        just("role"@, JsonV::Str(t.role.name())),
        "content"@,
        JsonV::Str(t.content),
    );
    let asking = if t.tool_calls.len() > 0 {
        and(
            plain,
            "tool_calls"@,
            JsonV::Array(t.tool_calls.map_values(|c: CallV| call_wire(c, api))),
        )
    } else {
        plain
    };
    if t.role is Tool {
        if api is OpenAiCompatible {
            and(asking, "tool_call_id"@, JsonV::Str(words_or_none(t.tool_call_id)))
        } else {
            match t.name {
                Some(name) => and(asking, "tool_name"@, JsonV::Str(name)),
                None => asking,
            }
        }
    } else {
        asking
    }
}

/// A turn of plain text.
pub open spec fn said(role: Seq<char>, content: Seq<char>) -> JsonV {
    and(just("role"@, JsonV::Str(role)), "content"@, JsonV::Str(content))
}

/// The conversation both dialects send: the system prompt, the earlier turns,
/// and this request's prompt as the last user message. An empty prompt adds no
/// message -- the agent loop continues a conversation that already ends where
/// the model should carry on from.
pub open spec fn messages_wire(req: GenerateRequest, api: Api) -> Seq<JsonV> {
    (match req.system {
        Some(s) => seq![said("system"@, s@)],
        None => Seq::empty(),
    }) + turns(req.history@).map_values(|t: TurnV| turn_wire(t, api)) + (if req.prompt@.len() > 0 {
        seq![said("user"@, req.prompt@)]
    } else {
        Seq::empty()
    })
}

/// The tools on offer.
pub open spec fn tools_wire(tools: Seq<DefV>) -> JsonV {
    JsonV::Array(tools.map_values(|d: DefV| def_wire(d)))
}

/// `j` with a member for an option that was set, and without it otherwise.
pub open spec fn and_if(j: JsonV, name: Seq<char>, value: Option<JsonV>) -> JsonV {
    match value {
        Some(v) => and(j, name, v),
        None => j,
    }
}

pub open spec fn temperature_of(req: GenerateRequest) -> Option<JsonV> {
    match req.temperature {
        Some(t) => Some(JsonV::Number(t)),
        None => None,
    }
}

pub open spec fn limit_of(req: GenerateRequest) -> Option<JsonV> {
    match req.max_tokens {
        Some(n) => Some(JsonV::Number(whole(n as u64))),
        None => None,
    }
}

pub open spec fn offered(req: GenerateRequest) -> Option<JsonV> {
    if req.tools@.len() > 0 {
        Some(tools_wire(defs(req.tools@)))
    } else {
        None
    }
}

/// What every request begins with.
pub open spec fn opening(req: GenerateRequest, api: Api) -> JsonV {
    and(
        and(
            just("model"@, JsonV::Str(req.model@)),
            "messages"@,
            JsonV::Array(messages_wire(req, api)),
        ),
        "stream"@,
        JsonV::Bool(true),
    )
}

/// What is sent to Ollama.
pub open spec fn ollama_wire(req: GenerateRequest) -> JsonV {
    let options = and_if(
        and_if(JsonV::Object(Map::empty()), "temperature"@, temperature_of(req)),
        "num_predict"@,
        limit_of(req),
    );
    and_if(
        and_if(
            opening(req, Api::Ollama),
            "options"@,
            if req.temperature is Some || req.max_tokens is Some {
                Some(options)
            } else {
                None
            },
        ),
        "tools"@,
        offered(req),
    )
}

/// What is sent to an OpenAI-compatible server.
pub open spec fn openai_wire(req: GenerateRequest) -> JsonV {
    let set = and_if(
        and_if(opening(req, Api::OpenAiCompatible), "temperature"@, temperature_of(req)),
        "max_tokens"@,
        limit_of(req),
    );
    match offered(req) {
        Some(tools) => and(and(set, "tools"@, tools), "tool_choice"@, JsonV::Str("auto"@)),
        None => set,
    }
}

fn call_json(call: &ToolCall, api: Api) -> (r: Json)
    ensures
        r.view() == call_wire(call@, api),
{
    let name: Json = Json::string(call.name.as_str());
    match api {
        Api::OpenAiCompatible => {
            let id: String = match &call.id {
                Some(id) => id.clone(),
                None => String::new(),
            };
            proof {
                assert(id@ =~= words_or_none(call@.id));
            }
            let function: Json = Json::object().with("name", name).with(
                "arguments",
                Json::Str(call.arguments_json()),
            );
            Json::object().with("id", Json::Str(id)).with("type", Json::string("function")).with(
                "function",
                function,
            )
        },
        _ => {
            let function: Json = Json::object().with("name", name).with(
                "arguments",
                call.arguments.copy(),
            );
            Json::object().with("function", function)
        },
    }
}

/// One turn on the wire.
pub fn turn_json(turn: &ChatMessage, api: Api) -> (r: Json)
    ensures
        r.view() == turn_wire(turn@, api),
{
    let mut value: Json = Json::object().with("role", Json::string(turn.role.wire())).with(
        "content",
        Json::string(turn.content.as_str()),
    );
    if turn.tool_calls.len() > 0 {
        let ghost all = turn@.tool_calls.map_values(|c: CallV| call_wire(c, api));
        let mut asked: Vec<Json> = Vec::new();
        let mut i: usize = 0;
        while i < turn.tool_calls.len()
            invariant
                i <= turn.tool_calls@.len(),
                all == turn@.tool_calls.map_values(|c: CallV| call_wire(c, api)),
                values(asked@) == all.take(i as int),
            decreases turn.tool_calls@.len() - i,
        {
            let j: Json = call_json(&turn.tool_calls[i], api);
            proof {
                assert(turn@.tool_calls[i as int] == turn.tool_calls@[i as int]@);
                assert(values(asked@.push(j)) =~= values(asked@).push(j.view()));
                assert(all.take(i + 1) =~= all.take(i as int).push(all[i as int]));
            }
            asked.push(j);
            i += 1;
        }
        proof {
            assert(all.take(i as int) =~= all);
        }
        value = value.with("tool_calls", Json::array(asked));
    }
    if turn.role == Role::Tool {
        match api {
            Api::OpenAiCompatible => {
                let id: String = match &turn.tool_call_id {
                    Some(id) => id.clone(),
                    None => String::new(),
                };
                proof {
                    assert(id@ =~= words_or_none(turn@.tool_call_id));
                }
                value = value.with("tool_call_id", Json::Str(id));
            },
            // Ollama names the tool instead: it never issued an id to quote.
            _ => {
                if let Some(name) = &turn.name {
                    value = value.with("tool_name", Json::string(name.as_str()));
                }
            },
        }
    }
    value
}

fn said_json(role: &str, content: &str) -> (r: Json)
    ensures
        r.view() == said(role@, content@),
{
    Json::object().with("role", Json::string(role)).with("content", Json::string(content))
}

/// The conversation both dialects send.
pub fn messages(req: &GenerateRequest, api: Api) -> (r: Vec<Json>)
    ensures
        values(r@) == messages_wire(*req, api),
{
    let mut r: Vec<Json> = Vec::new();
    let ghost mut sofar: Seq<JsonV> = Seq::empty();
    proof {
        assert(values(r@) =~= sofar);
    }
    if let Some(system) = &req.system {
        let j: Json = said_json("system", system.as_str());
        proof {
            assert(values(r@.push(j)) =~= values(r@).push(j.view()));
            sofar = seq![j.view()];
        }
        r.push(j);
    }
    let ghost first = sofar;
    let ghost all = turns(req.history@).map_values(|t: TurnV| turn_wire(t, api));
    let mut i: usize = 0;
    proof {
        assert(values(r@) =~= first + all.take(0));
    }
    while i < req.history.len()
        invariant
            i <= req.history@.len(),
            all == turns(req.history@).map_values(|t: TurnV| turn_wire(t, api)),
            values(r@) == first + all.take(i as int),
        decreases req.history@.len() - i,
    {
        let j: Json = turn_json(&req.history[i], api);
        proof {
            assert(turns(req.history@)[i as int] == req.history@[i as int]@);
            assert(values(r@.push(j)) =~= values(r@).push(j.view()));
            assert(first + all.take(i + 1) =~= (first + all.take(i as int)).push(all[i as int]));
        }
        r.push(j);
        i += 1;
    }
    proof {
        assert(all.take(i as int) =~= all);
        assert(first =~= (match req.system {
            Some(s) => seq![said("system"@, s@)],
            None => Seq::empty(),
        }));
    }
    if !req.prompt.as_str().is_empty() {
        let j: Json = said_json("user", req.prompt.as_str());
        proof {
            assert(values(r@.push(j)) =~= values(r@).push(j.view()));
            assert(values(r@).push(j.view()) =~= first + all + seq![j.view()]);
        }
        r.push(j);
    } else {
        proof {
            assert(first + all + Seq::<JsonV>::empty() =~= first + all);
        }
    }
    r
}

/// The tools on offer.
pub fn tools_json(tools: &Vec<ToolDef>) -> (r: Json)
    ensures
        r.view() == tools_wire(defs(tools@)),
{
    let ghost all = defs(tools@).map_values(|d: DefV| def_wire(d));
    let mut r: Vec<Json> = Vec::new();
    let mut i: usize = 0;
    while i < tools.len()
        invariant
            i <= tools@.len(),
            all == defs(tools@).map_values(|d: DefV| def_wire(d)),
            values(r@) == all.take(i as int),
        decreases tools@.len() - i,
    {
        let j: Json = tools[i].wire();
        proof {
            assert(defs(tools@)[i as int] == tools@[i as int]@);
            assert(values(r@.push(j)) =~= values(r@).push(j.view()));
            assert(all.take(i + 1) =~= all.take(i as int).push(all[i as int]));
        }
        r.push(j);
        i += 1;
    }
    proof {
        assert(all.take(i as int) =~= all);
    }
    Json::array(r)
}

fn opening_json(req: &GenerateRequest, api: Api) -> (r: Json)
    ensures
        r.view() == opening(*req, api),
{
    Json::object().with("model", Json::string(req.model.as_str())).with(
        "messages",
        Json::array(messages(req, api)),
    ).with("stream", Json::Bool(true))
}

pub fn ollama_body(req: &GenerateRequest) -> (r: Json)
    ensures
        r.view() == ollama_wire(*req),
{
    let mut options: Json = Json::object();
    let mut any: bool = false;
    if let Some(t) = &req.temperature {
        options = options.with("temperature", Json::Number(copy_number(t)));
        any = true;
    }
    if let Some(n) = req.max_tokens {
        options = options.with("num_predict", Json::number(n as u64));
        any = true;
    }
    let mut body: Json = opening_json(req, Api::Ollama);
    if any {
        body = body.with("options", options);
    }
    if req.tools.len() > 0 {
        body = body.with("tools", tools_json(&req.tools));
    }
    body
}

pub fn openai_body(req: &GenerateRequest) -> (r: Json)
    ensures
        r.view() == openai_wire(*req),
{
    let mut body: Json = opening_json(req, Api::OpenAiCompatible);
    if let Some(t) = &req.temperature {
        body = body.with("temperature", Json::Number(copy_number(t)));
    }
    if let Some(n) = req.max_tokens {
        body = body.with("max_tokens", Json::number(n as u64));
    }
    if req.tools.len() > 0 {
        // Let the model decide; evo never insists on a particular tool.
        body = body.with("tools", tools_json(&req.tools)).with(
            "tool_choice",
            Json::string("auto"),
        );
    }
    body
}

// ---------------------------------------------------------------------------
// What comes back
// ---------------------------------------------------------------------------

/// `{}`
pub open spec fn nothing() -> JsonV {
    JsonV::Object(Map::empty())
}

/// Arguments as an object, and `{}` for a text that is not one.
pub open spec fn arguments_in(text: Seq<char>) -> JsonV {
    let t = trimmed(text);
    match json_read(t) {
        Some(JsonV::Object(m)) => if t.len() > 0 {
            JsonV::Object(m)
        } else {
            nothing()
        },
        _ => nothing(),
    }
}

/// Arguments as an object, for what the text was read as: `{}` for anything
/// that is not one.
pub fn object_or_nothing(v: Option<Json>) -> (r: Json)
    ensures
        r.view() == (match v {
            Some(j) => if j.view() is Object {
                j.view()
            } else {
                nothing()
            },
            None => nothing(),
        }),
{
    match v {
        Some(j) => if j.is_object() {
            j
        } else {
            Json::object()
        },
        None => Json::object(),
    }
}

/// Arguments as an object, where the dialect sent a string of JSON, and `{}`
/// for anything else.
pub fn parse_arguments(value: &str) -> (r: Json)
    ensures
        r.view() == arguments_in(value@),
{
    let t: String = trim(value);
    if t.as_str().is_empty() {
        return Json::object();
    }
    object_or_nothing(parse(t.as_str()))
}

/// The same, for a value that may already be parsed.
pub open spec fn arguments_from(v: Option<JsonV>) -> JsonV {
    match v {
        Some(JsonV::Object(m)) => JsonV::Object(m),
        Some(JsonV::Str(s)) => arguments_in(s),
        _ => nothing(),
    }
}

fn arguments_of(value: Option<&Json>) -> (r: Json)
    ensures
        r.view() == arguments_from(seen(value)),
{
    match value {
        Some(j) => match j {
            Json::Object(_) => j.copy(),
            Json::Str(s) => parse_arguments(s.as_str()),
            _ => Json::object(),
        },
        None => Json::object(),
    }
}

/// Part of one tool call, as OpenAI streams them: fragments identified by
/// position in the call list, with the arguments arriving a few characters at
/// a time.
#[derive(Debug)]
pub struct ToolCallFragment {
    pub index: usize,
    pub id: Option<String>,
    pub name: Option<String>,
    pub arguments: String,
}

/// A fragment as a mathematical value.
#[verifier::ext_equal]
pub struct FragmentV {
    pub index: usize,
    pub id: Option<Seq<char>>,
    pub name: Option<Seq<char>>,
    pub arguments: Seq<char>,
}

impl View for ToolCallFragment {
    type V = FragmentV;

    open spec fn view(&self) -> FragmentV {
        FragmentV {
            index: self.index,
            id: words(self.id),
            name: words(self.name),
            arguments: self.arguments@,
        }
    }
}

pub open spec fn fragments(v: Seq<ToolCallFragment>) -> Seq<FragmentV> {
    v.map_values(|f: ToolCallFragment| f@)
}

#[derive(Debug)]
pub struct PendingCall {
    pub index: usize,
    pub id: Option<String>,
    pub name: String,
    pub arguments: String,
}

/// A call being assembled, as a mathematical value.
#[verifier::ext_equal]
pub struct PendingV {
    pub index: usize,
    pub id: Option<Seq<char>>,
    pub name: Seq<char>,
    pub arguments: Seq<char>,
}

impl View for PendingCall {
    type V = PendingV;

    open spec fn view(&self) -> PendingV {
        PendingV {
            index: self.index,
            id: words(self.id),
            name: self.name@,
            arguments: self.arguments@,
        }
    }
}

pub open spec fn pending(v: Seq<PendingCall>) -> Seq<PendingV> {
    v.map_values(|c: PendingCall| c@)
}

/// Tool calls being assembled from fragments.
#[derive(Debug)]
pub struct PendingCalls {
    /// Ascending by the index the dialect gave, so calls come out in the order
    /// the model asked for them however the fragments interleave.
    pub calls: Vec<PendingCall>,
}

/// How many of `s` come before `index`.
pub open spec fn before(s: Seq<PendingV>, index: usize) -> int
    decreases s.len(),
{
    if s.len() == 0 {
        0
    } else if s.last().index < index {
        s.len() as int
    } else {
        before(s.drop_last(), index)
    }
}

/// A call with one more fragment: the id and name arrive once, in the first
/// fragment of a call; later fragments repeat neither, and must not blank them.
pub open spec fn with_fragment(c: PendingV, f: FragmentV) -> PendingV {
    PendingV {
        index: c.index,
        id: match f.id {
            Some(id) => if id.len() > 0 {
                Some(id)
            } else {
                c.id
            },
            None => c.id,
        },
        name: c.name + words_or_none(f.name),
        arguments: c.arguments + f.arguments,
    }
}

/// The calls with one more fragment, in ascending order still.
pub open spec fn assembled(s: Seq<PendingV>, f: FragmentV) -> Seq<PendingV> {
    let k = before(s, f.index);
    if 0 <= k < s.len() && s[k].index == f.index {
        s.update(k, with_fragment(s[k], f))
    } else {
        s.insert(
            k,
            with_fragment(
                PendingV {
                    index: f.index,
                    id: None,
                    name: Seq::empty(),
                    arguments: Seq::empty(),
                },
                f,
            ),
        )
    }
}

/// Whether the indices of `s` ascend.
pub open spec fn in_order(s: Seq<PendingV>) -> bool {
    forall|i: int, j: int|
        0 <= i < j < s.len() ==> (#[trigger] s[i]).index < (#[trigger] s[j]).index
}

pub proof fn lemma_before(s: Seq<PendingV>, index: usize)
    requires
        in_order(s),
    ensures
        0 <= before(s, index) <= s.len(),
        forall|i: int| 0 <= i < before(s, index) ==> (#[trigger] s[i]).index < index,
        forall|i: int| before(s, index) <= i < s.len() ==> (#[trigger] s[i]).index >= index,
    decreases s.len(),
{
    if s.len() > 0 {
        let t = s.drop_last();
        assert(in_order(t)) by {
            assert forall|i: int, j: int| 0 <= i < j < t.len() implies (#[trigger] t[i]).index < (
            #[trigger] t[j]).index by {
                assert(s[i].index < s[j].index);
            }
        }
        if s.last().index < index {
            assert forall|i: int| 0 <= i < s.len() implies (#[trigger] s[i]).index < index by {
                if i < s.len() - 1 {
                    assert(s[i].index < s[s.len() - 1].index);
                }
            }
        } else {
            lemma_before(t, index);
            assert forall|i: int| 0 <= i < before(s, index) implies (#[trigger] s[i]).index
                < index by {
                assert(t[i] == s[i]);
            }
            assert forall|i: int| before(s, index) <= i < s.len() implies (#[trigger] s[i]).index
                >= index by {
                if i < t.len() {
                    assert(t[i] == s[i]);
                }
            }
        }
    }
}

/// However the fragments interleave, the calls stay in the order of their
/// indices.
pub proof fn law_calls_stay_in_order(s: Seq<PendingV>, f: FragmentV)
    requires
        in_order(s),
    ensures
        in_order(assembled(s, f)),
{
    lemma_before(s, f.index);
    let k = before(s, f.index);
    let r = assembled(s, f);
    if k < s.len() && s[k].index == f.index {
        assert forall|i: int, j: int| 0 <= i < j < r.len() implies (#[trigger] r[i]).index < (
        #[trigger] r[j]).index by {
            assert(s[i].index < s[j].index);
        }
    } else {
        assert forall|i: int, j: int| 0 <= i < j < r.len() implies (#[trigger] r[i]).index < (
        #[trigger] r[j]).index by {
            let (oi, oj) = (if i < k { i } else { i - 1 }, if j < k { j } else { j - 1 });
            if i != k {
                assert(r[i] == s[oi]);
            }
            if j != k {
                assert(r[j] == s[oj]);
            }
            if i != k && j != k {
                assert(s[oi].index < s[oj].index);
            }
            if i == k {
                assert(s[oj].index >= f.index);
                if s[oj].index == f.index {
                    assert(oj >= k);
                    if oj > k {
                        assert(s[k].index < s[oj].index);
                    }
                }
            }
        }
    }
}

proof fn lemma_before_is(s: Seq<PendingV>, index: usize, k: int)
    requires
        in_order(s),
        0 <= k <= s.len(),
        k > 0 ==> s[k - 1].index < index,
        k < s.len() ==> s[k].index >= index,
    ensures
        before(s, index) == k,
{
    lemma_before(s, index);
    let b = before(s, index);
    if b < k {
        assert(s[k - 1].index >= index);
    } else if k < b {
        assert(s[k].index < index);
    }
}

#[verifier::rlimit(60)]
proof fn lemma_either_order(s: Seq<PendingV>, f: FragmentV, g: FragmentV)
    requires
        in_order(s),
        f.index < g.index,
    ensures
        assembled(assembled(s, f), g) == assembled(assembled(s, g), f),
{
    let (kf, kg) = (before(s, f.index), before(s, g.index));
    lemma_before(s, f.index);
    lemma_before(s, g.index);
    law_calls_stay_in_order(s, f);
    law_calls_stay_in_order(s, g);
    let (sf, sg) = (assembled(s, f), assembled(s, g));
    assert(kf <= kg) by {
        if kg < kf {
            assert(s[kg].index < f.index);
        }
    }
    let has_f = kf < s.len() && s[kf].index == f.index;
    let has_g = kg < s.len() && s[kg].index == g.index;
    if has_f {
        assert(kf < kg) by {
            if kf == kg {
                assert(s[kf].index >= g.index);
            }
        }
        if kg > 0 {
            assert(s[kg - 1].index < g.index);
        }
        lemma_before_is(sf, g.index, kg);
    } else {
        assert(sf[kf].index == f.index);
        if kg > kf {
            assert(sf[kg] == s[kg - 1]);
        }
        if kg < s.len() {
            assert(sf[kg + 1] == s[kg]);
        }
        lemma_before_is(sf, g.index, kg + 1);
    }
    if kf > 0 {
        assert(sg[kf - 1] == s[kf - 1]);
    }
    if has_g {
        if kf < s.len() {
            assert(s[kf].index >= f.index);
        }
        lemma_before_is(sg, f.index, kf);
    } else {
        assert(sg[kg].index == g.index);
        if kf < kg {
            assert(sg[kf] == s[kf]);
        }
        lemma_before_is(sg, f.index, kf);
    }
    if has_f && has_g {
        assert(assembled(sf, g) =~= assembled(sg, f));
    } else if has_f {
        assert(assembled(sf, g) =~= assembled(sg, f));
    } else if has_g {
        assert(assembled(sf, g) =~= assembled(sg, f));
    } else {
        assert(assembled(sf, g) =~= assembled(sg, f));
    }
}

/// Fragments of different calls may come in either order: the calls are the
/// same.
pub proof fn law_fragments_in_either_order(s: Seq<PendingV>, f: FragmentV, g: FragmentV)
    requires
        in_order(s),
        f.index != g.index,
    ensures
        assembled(assembled(s, f), g) == assembled(assembled(s, g), f),
{
    if f.index < g.index {
        lemma_either_order(s, f, g);
    } else {
        lemma_either_order(s, g, f);
    }
}

/// The finished calls: those with a name, in order, each with its arguments as
/// an object.
pub open spec fn finished(s: Seq<PendingV>) -> Seq<CallV>
    decreases s.len(),
{
    if s.len() == 0 {
        Seq::empty()
    } else {
        let sofar = finished(s.drop_last());
        let c = s.last();
        if c.name.len() > 0 {
            sofar.push(CallV { id: c.id, name: c.name, arguments: arguments_in(c.arguments) })
        } else {
            sofar
        }
    }
}

impl Default for PendingCalls {
    fn default() -> (r: Self)
        ensures
            r.ok(),
            pending(r.calls@).len() == 0,
    {
        PendingCalls { calls: Vec::new() }
    }
}

impl PendingCalls {
    pub open spec fn ok(&self) -> bool {
        in_order(pending(self.calls@))
    }

    pub fn add(&mut self, fragment: &ToolCallFragment)
        requires
            old(self).ok(),
        ensures
            pending(final(self).calls@) == assembled(pending(old(self).calls@), fragment@),
            final(self).ok(),
    {
        let ghost s = pending(self.calls@);
        proof {
            law_calls_stay_in_order(s, fragment@);
            lemma_before(s, fragment.index);
        }
        let mut k: usize = self.calls.len();
        while k > 0 && self.calls[k - 1].index >= fragment.index
            invariant
                k <= self.calls@.len(),
                s == pending(self.calls@),
                in_order(s),
                before(s, fragment.index) <= k,
                forall|i: int|
                    0 <= i < before(s, fragment.index) ==> (#[trigger] s[i]).index < fragment.index,
            decreases k,
        {
            proof {
                assert(s[k - 1] == self.calls@[k - 1]@);
            }
            k -= 1;
        }
        proof {
            if before(s, fragment.index) < k {
                assert(s[k - 1] == self.calls@[k - 1]@);
            }
        }
        let found: bool = k < self.calls.len() && self.calls[k].index == fragment.index;
        proof {
            if k < self.calls@.len() {
                assert(s[k as int] == self.calls@[k as int]@);
            }
        }
        let mut id: Option<String> = None;
        let mut name: String = String::new();
        let mut arguments: String = String::new();
        if found {
            id = copy_words(&self.calls[k].id);
            name = self.calls[k].name.clone();
            arguments = self.calls[k].arguments.clone();
        }
        if let Some(given) = &fragment.id {
            if !given.as_str().is_empty() {
                id = Some(given.clone());
            }
        }
        if let Some(given) = &fragment.name {
            name.append(given.as_str());
        } else {
            proof {
                assert(name@ + Seq::<char>::empty() =~= name@);
            }
        }
        arguments.append(fragment.arguments.as_str());
        let call: PendingCall = PendingCall { index: fragment.index, id, name, arguments };
        let ghost c = call@;
        if found {
            self.calls.set(k, call);
            proof {
                assert(pending(self.calls@) =~= s.update(k as int, c));
            }
        } else {
            self.calls.insert(k, call);
            proof {
                assert(pending(self.calls@) =~= s.insert(k as int, c));
            }
        }
    }

    /// The finished calls. Arguments that do not parse become `{}`: a tool
    /// that is asked for with nonsense arguments should fail in the tool, with
    /// a message the model can read, rather than take the whole answer down.
    pub fn finish(self) -> (r: Vec<ToolCall>)
        ensures
            calls(r@) == finished(pending(self.calls@)),
    {
        let ghost s = pending(self.calls@);
        let mut r: Vec<ToolCall> = Vec::new();
        let mut i: usize = 0;
        proof {
            assert(s.take(0) =~= Seq::empty());
            assert(calls(r@) =~= Seq::empty());
        }
        while i < self.calls.len()
            invariant
                i <= self.calls@.len(),
                s == pending(self.calls@),
                calls(r@) == finished(s.take(i as int)),
            decreases self.calls@.len() - i,
        {
            proof {
                assert(s.take(i + 1).drop_last() =~= s.take(i as int));
                assert(s.take(i + 1).last() == self.calls@[i as int]@);
            }
            if !self.calls[i].name.as_str().is_empty() {
                let call: ToolCall = ToolCall {
                    id: copy_words(&self.calls[i].id),
                    name: self.calls[i].name.clone(),
                    arguments: parse_arguments(self.calls[i].arguments.as_str()),
                };
                proof {
                    assert(calls(r@.push(call)) =~= calls(r@).push(call@));
                }
                r.push(call);
            }
            i += 1;
        }
        proof {
            assert(s.take(i as int) =~= s);
        }
        r
    }
}

pub struct Chunk {
    pub text: String,
    pub done: bool,
    /// Calls that arrived complete (Ollama sends them in one piece).
    pub tool_calls: Vec<ToolCall>,
    /// Pieces of calls still being assembled (OpenAI streams them).
    pub fragments: Vec<ToolCallFragment>,
}

/// A chunk as a mathematical value.
#[verifier::ext_equal]
pub struct ChunkV {
    pub text: Seq<char>,
    pub done: bool,
    pub tool_calls: Seq<CallV>,
    pub fragments: Seq<FragmentV>,
}

impl View for Chunk {
    type V = ChunkV;

    open spec fn view(&self) -> ChunkV {
        ChunkV {
            text: self.text@,
            done: self.done,
            tool_calls: calls(self.tool_calls@),
            fragments: fragments(self.fragments@),
        }
    }
}

/// The calls in Ollama's `message.tool_calls`: whole calls, those with a name.
pub open spec fn whole_calls(items: Seq<JsonV>) -> Seq<CallV>
    decreases items.len(),
{
    if items.len() == 0 {
        Seq::empty()
    } else {
        let sofar = whole_calls(items.drop_last());
        let item = items.last();
        let function = field(item, "function"@);
        match text_in(field_in(function, "name"@)) {
            Some(name) => if name.len() > 0 {
                sofar.push(
                    CallV {
                        id: text_in(field(item, "id"@)),
                        name,
                        arguments: arguments_from(field_in(function, "arguments"@)),
                    },
                )
            } else {
                sofar
            },
            None => sofar,
        }
    }
}

/// One piece of OpenAI's `delta.tool_calls`, at this position. A server that
/// omits the index has one call per delta.
pub open spec fn piece(item: JsonV, position: int) -> FragmentV {
    let function = field(item, "function"@);
    FragmentV {
        index: match u64_in(field(item, "index"@)) {
            Some(i) => i as usize,
            None => position as usize,
        },
        id: text_in(field(item, "id"@)),
        name: text_in(field_in(function, "name"@)),
        arguments: words_or_none(text_in(field_in(function, "arguments"@))),
    }
}

/// The pieces of OpenAI's `delta.tool_calls`.
pub open spec fn all_pieces(items: Seq<JsonV>) -> Seq<FragmentV> {
    Seq::new(items.len(), |i: int| piece(items[i], i))
}

/// The elements of what should be a list, none where it is not.
pub open spec fn items_of(j: Option<JsonV>) -> Seq<JsonV> {
    match list_in(j) {
        Some(s) => s,
        None => Seq::empty(),
    }
}

/// What one object of Ollama's stream says. `/api/chat` puts the text under
/// `message.content`; `/api/generate` used a flat `response`. Older servers,
/// and anything proxying the generate endpoint, still speak the latter.
pub open spec fn ollama_chunk(v: JsonV) -> ChunkV {
    let message = field(v, "message"@);
    ChunkV {
        text: match text_in(field_in(message, "content"@)) {
            Some(s) => s,
            None => words_or_none(text_in(field(v, "response"@))),
        },
        done: bool_in(field(v, "done"@)) == Some(true),
        tool_calls: whole_calls(items_of(field_in(message, "tool_calls"@))),
        fragments: Seq::empty(),
    }
}

/// What one object of OpenAI's stream says.
pub open spec fn openai_chunk(v: JsonV) -> ChunkV {
    let choice = element(field(v, "choices"@), 0);
    let delta = field_in(choice, "delta"@);
    ChunkV {
        text: words_or_none(text_in(field_in(delta, "content"@))),
        done: text_in(field_in(choice, "finish_reason"@)) is Some,
        tool_calls: Seq::empty(),
        fragments: all_pieces(items_of(field_in(delta, "tool_calls"@))),
    }
}

/// What OpenAI's closing sentinel says.
pub open spec fn end_chunk() -> ChunkV {
    ChunkV { text: Seq::empty(), done: true, tool_calls: Seq::empty(), fragments: Seq::empty() }
}

/// One line of a streaming response.
pub open spec fn line_chunk(api: Api, line: Seq<char>) -> Option<ChunkV> {
    let t = trimmed(line);
    if t.len() == 0 {
        None
    } else {
        match api {
            Api::Ollama => match json_read(t) {
                Some(v) => Some(ollama_chunk(v)),
                None => None,
            },
            Api::OpenAiCompatible => match after(t, "data:"@) {
                Some(rest) => {
                    let data = trimmed(rest);
                    if data == "[DONE]"@ {
                        Some(end_chunk())
                    } else {
                        match json_read(data) {
                            Some(v) => Some(openai_chunk(v)),
                            None => None,
                        }
                    }
                },
                None => None,
            },
            Api::Builtin => None,
        }
    }
}

/// The member of what may be there.
fn get_in<'a>(j: Option<&'a Json>, name: &str) -> (r: Option<&'a Json>)
    ensures
        seen(r) == field_in(seen(j), name@),
{
    match j {
        Some(v) => v.get(name),
        None => None,
    }
}

/// The text of what may be there.
fn str_in(j: Option<&Json>) -> (r: Option<String>)
    ensures
        words(r) == text_in(seen(j)),
{
    match j {
        Some(v) => match v.as_str() {
            Some(s) => Some(s.to_owned()),
            None => None,
        },
        None => None,
    }
}

/// Ollama's `message.tool_calls`: whole calls, arguments already an object.
fn ollama_tool_calls(value: Option<&Json>) -> (r: Vec<ToolCall>)
    ensures
        calls(r@) == whole_calls(items_of(seen(value))),
{
    let mut r: Vec<ToolCall> = Vec::new();
    proof {
        assert(calls(r@) =~= Seq::empty());
    }
    let items: &Vec<Json> = match value {
        Some(v) => match v.as_array() {
            Some(items) => items,
            None => {
                return r;
            },
        },
        None => {
            return r;
        },
    };
    let ghost all = values(items@);
    let mut i: usize = 0;
    proof {
        assert(all.take(0) =~= Seq::empty());
    }
    while i < items.len()
        invariant
            i <= items@.len(),
            all == values(items@),
            calls(r@) == whole_calls(all.take(i as int)),
        decreases items@.len() - i,
    {
        proof {
            assert(all.take(i + 1).drop_last() =~= all.take(i as int));
            assert(all.take(i + 1).last() == items@[i as int].view());
        }
        let function: Option<&Json> = items[i].get("function");
        if let Some(name) = str_in(get_in(function, "name")) {
            if !name.as_str().is_empty() {
                let call: ToolCall = ToolCall {
                    id: str_in(items[i].get("id")),
                    name,
                    arguments: arguments_of(get_in(function, "arguments")),
                };
                proof {
                    assert(calls(r@.push(call)) =~= calls(r@).push(call@));
                }
                r.push(call);
            }
        }
        i += 1;
    }
    proof {
        assert(all.take(i as int) =~= all);
    }
    r
}

/// OpenAI's `delta.tool_calls`: fragments, keyed by index.
fn openai_fragments(value: Option<&Json>) -> (r: Vec<ToolCallFragment>)
    ensures
        fragments(r@) == all_pieces(items_of(seen(value))),
{
    let mut r: Vec<ToolCallFragment> = Vec::new();
    proof {
        assert(fragments(r@) =~= all_pieces(Seq::empty()));
    }
    let items: &Vec<Json> = match value {
        Some(v) => match v.as_array() {
            Some(items) => items,
            None => {
                return r;
            },
        },
        None => {
            return r;
        },
    };
    let ghost all = values(items@);
    let mut i: usize = 0;
    while i < items.len()
        invariant
            i <= items@.len(),
            all == values(items@),
            r@.len() == i,
            forall|j: int| 0 <= j < i ==> (#[trigger] r@[j])@ == piece(all[j], j),
        decreases items@.len() - i,
    {
        proof {
            assert(all[i as int] == items@[i as int].view());
        }
        let function: Option<&Json> = items[i].get("function");
        let index: usize = match items[i].get("index") {
            Some(n) => match n.as_u64() {
                Some(n) => #[verifier::truncate] (n as usize),
                None => i,
            },
            None => i,
        };
        let arguments: String = match str_in(get_in(function, "arguments")) {
            Some(s) => s,
            None => String::new(),
        };
        let f: ToolCallFragment = ToolCallFragment {
            index,
            id: str_in(items[i].get("id")),
            name: str_in(get_in(function, "name")),
            arguments,
        };
        proof {
            assert(f@.arguments =~= piece(all[i as int], i as int).arguments);
            assert(f@ =~= piece(all[i as int], i as int));
        }
        r.push(f);
        i += 1;
    }
    proof {
        assert(fragments(r@) =~= all_pieces(all));
    }
    r
}

/// What one object of Ollama's stream says.
pub fn read_ollama(v: &Json) -> (r: Chunk)
    ensures
        r@ == ollama_chunk(v.view()),
{
    let message: Option<&Json> = v.get("message");
    let text: String = match str_in(get_in(message, "content")) {
        Some(s) => s,
        None => match str_in(v.get("response")) {
            Some(s) => s,
            None => String::new(),
        },
    };
    let done: bool = match v.get("done") {
        Some(d) => match d.as_bool() {
            Some(b) => b,
            None => false,
        },
        None => false,
    };
    let r: Chunk = Chunk {
        text,
        done,
        tool_calls: ollama_tool_calls(get_in(message, "tool_calls")),
        fragments: Vec::new(),
    };
    proof {
        assert(r@.fragments =~= Seq::empty());
        assert(r@.text =~= ollama_chunk(v.view()).text);
    }
    r
}

/// What one object of OpenAI's stream says.
pub fn read_openai(v: &Json) -> (r: Chunk)
    ensures
        r@ == openai_chunk(v.view()),
{
    let choices: Option<&Json> = v.get("choices");
    let choice: Option<&Json> = match choices {
        Some(list) => match list.as_array() {
            Some(items) => if items.len() > 0 {
                Some(&items[0])
            } else {
                None
            },
            None => None,
        },
        None => None,
    };
    proof {
        assert(seen(choice) == element(field(v.view(), "choices"@), 0));
    }
    let delta: Option<&Json> = get_in(choice, "delta");
    let text: String = match str_in(get_in(delta, "content")) {
        Some(s) => s,
        None => String::new(),
    };
    let r: Chunk = Chunk {
        text,
        done: str_in(get_in(choice, "finish_reason")).is_some(),
        tool_calls: Vec::new(),
        fragments: openai_fragments(get_in(delta, "tool_calls")),
    };
    proof {
        assert(r@.tool_calls =~= Seq::empty());
        assert(r@.text =~= openai_chunk(v.view()).text);
    }
    r
}

/// One line of a streaming response. `None` for keep-alives, blank lines and
/// anything unparseable -- a malformed line mid-stream shouldn't abort a
/// generation that is otherwise working.
pub fn parse_chunk(api: Api, line: &str) -> (r: Option<Chunk>)
    ensures
        match r {
            Some(c) => line_chunk(api, line@) == Some(c@),
            None => line_chunk(api, line@) is None,
        },
{
    let t: String = trim(line);
    if t.as_str().is_empty() {
        return None;
    }
    match api {
        Api::Ollama => match parse(t.as_str()) {
            Some(v) => Some(read_ollama(&v)),
            None => None,
        },
        Api::OpenAiCompatible => match strip_prefix(t.as_str(), "data:") {
            Some(rest) => {
                let data: String = trim(rest.as_str());
                if same(data.as_str(), "[DONE]") {
                    let c: Chunk = Chunk {
                        text: String::new(),
                        done: true,
                        tool_calls: Vec::new(),
                        fragments: Vec::new(),
                    };
                    proof {
                        assert(c@ =~= end_chunk());
                    }
                    return Some(c);
                }
                match parse(data.as_str()) {
                    Some(v) => Some(read_openai(&v)),
                    None => None,
                }
            },
            None => None,
        },
        // The built-in model streams through a callback, not over the wire.
        Api::Builtin => None,
    }
}

/// A reply as far as it has been read.
pub struct Reply {
    pub text: String,
    pub tool_calls: Vec<ToolCall>,
    pub pending: PendingCalls,
    pub done: bool,
    /// Whoever was watching has broken off.
    pub stopped: bool,
}

/// A reply as a mathematical value.
#[verifier::ext_equal]
pub struct ReplyV {
    pub text: Seq<char>,
    pub tool_calls: Seq<CallV>,
    pub pending: Seq<PendingV>,
    pub done: bool,
    pub stopped: bool,
}

impl View for Reply {
    type V = ReplyV;

    open spec fn view(&self) -> ReplyV {
        ReplyV {
            text: self.text@,
            tool_calls: calls(self.tool_calls@),
            pending: pending(self.pending.calls@),
            done: self.done,
            stopped: self.stopped,
        }
    }
}

/// The calls with each of `fs` added, in turn.
pub open spec fn assembled_all(s: Seq<PendingV>, fs: Seq<FragmentV>) -> Seq<PendingV>
    decreases fs.len(),
{
    if fs.len() == 0 {
        s
    } else {
        assembled(assembled_all(s, fs.drop_last()), fs.last())
    }
}

/// The reply with one more chunk of it read.
pub open spec fn grown(r: ReplyV, c: ChunkV) -> ReplyV {
    ReplyV {
        text: r.text + c.text,
        tool_calls: r.tool_calls + c.tool_calls,
        pending: assembled_all(r.pending, c.fragments),
        done: c.done,
        stopped: r.stopped,
    }
}

/// A reply of which nothing has been read.
pub open spec fn unread() -> ReplyV {
    ReplyV {
        text: Seq::empty(),
        tool_calls: Seq::empty(),
        pending: Seq::empty(),
        done: false,
        stopped: false,
    }
}

/// The reply after `lines` have been read: once it is done, no more are.
pub open spec fn replied(api: Api, lines: Seq<Seq<char>>) -> ReplyV
    decreases lines.len(),
{
    if lines.len() == 0 {
        unread()
    } else {
        let r = replied(api, lines.drop_last());
        match line_chunk(api, lines.last()) {
            Some(c) => if r.done {
                r
            } else {
                grown(r, c)
            },
            None => r,
        }
    }
}

impl Default for Reply {
    fn default() -> (r: Self)
        ensures
            r.pending.ok(),
            r@ == unread(),
    {
        let r: Reply = Reply {
            text: String::new(),
            tool_calls: Vec::new(),
            pending: PendingCalls::default(),
            done: false,
            stopped: false,
        };
        proof {
            assert(r@.text =~= Seq::empty());
            assert(r@.tool_calls =~= Seq::empty());
            assert(r@.pending =~= Seq::empty());
        }
        r
    }
}

impl Reply {
    /// Read one more line of the stream: the text it brought, where it brought
    /// any, for whoever is watching.
    pub fn read(&mut self, api: Api, line: &str) -> (r: Option<String>)
        requires
            old(self).pending.ok(),
        ensures
            final(self).pending.ok(),
            match line_chunk(api, line@) {
                Some(c) => if old(self).done || old(self).stopped {
                    r is None && final(self)@ == old(self)@
                } else {
                    &&& final(self)@ == grown(old(self)@, c)
                    &&& words(r) == if c.text.len() > 0 {
                        Some(c.text)
                    } else {
                        None
                    }
                },
                None => r is None && final(self)@ == old(self)@,
            },
    {
        if self.done || self.stopped {
            return None;
        }
        let ghost start = self@;
        match parse_chunk(api, line) {
            None => None,
            Some(chunk) => {
                let ghost c = chunk@;
                let mut tool_calls: Vec<ToolCall> = chunk.tool_calls;
                proof {
                    assert(calls(self.tool_calls@ + tool_calls@) =~= calls(self.tool_calls@)
                        + calls(tool_calls@));
                }
                self.tool_calls.append(&mut tool_calls);
                let mut i: usize = 0;
                proof {
                    assert(c.fragments.take(0) =~= Seq::empty());
                }
                while i < chunk.fragments.len()
                    invariant
                        i <= chunk.fragments@.len(),
                        c.fragments == fragments(chunk.fragments@),
                        self.pending.ok(),
                        self@ == (ReplyV {
                            tool_calls: start.tool_calls + c.tool_calls,
                            pending: assembled_all(start.pending, c.fragments.take(i as int)),
                            ..start
                        }),
                    decreases chunk.fragments@.len() - i,
                {
                    proof {
                        assert(c.fragments.take(i + 1).drop_last() =~= c.fragments.take(i as int));
                        assert(c.fragments.take(i + 1).last() == chunk.fragments@[i as int]@);
                    }
                    self.pending.add(&chunk.fragments[i]);
                    i += 1;
                }
                proof {
                    assert(c.fragments.take(i as int) =~= c.fragments);
                }
                self.text.append(chunk.text.as_str());
                self.done = chunk.done;
                if chunk.text.as_str().is_empty() {
                    None
                } else {
                    Some(chunk.text)
                }
            },
        }
    }

    /// Take note of whether whoever is watching goes on after a text: whether
    /// there is more to read. Who broke off does not come back.
    pub fn next(&mut self, goes_on: bool) -> (r: bool)
        ensures
            final(self).pending == old(self).pending,
            final(self)@ == (ReplyV { stopped: old(self).stopped || !goes_on, ..old(self)@ }),
            r == (!final(self).stopped && !final(self).done),
    {
        if !goes_on {
            self.stopped = true;
        }
        !self.stopped && !self.done
    }

    /// What the whole reply came to: cancelled, where whoever was watching
    /// broke off.
    pub fn finish(self) -> (r: Result<GenerateOutcome, ModelError>)
        ensures
            match r {
                Ok(outcome) => {
                    &&& !self.stopped
                    &&& outcome.text@ == self@.text
                    &&& calls(outcome.tool_calls@) == self@.tool_calls + finished(self@.pending)
                },
                Err(e) => self.stopped && e is Cancelled,
            },
    {
        if self.stopped {
            return Err(ModelError::Cancelled);
        }
        let mut tool_calls: Vec<ToolCall> = self.tool_calls;
        let mut rest: Vec<ToolCall> = self.pending.finish();
        proof {
            assert(calls(tool_calls@ + rest@) =~= calls(tool_calls@) + calls(rest@));
        }
        tool_calls.append(&mut rest);
        Ok(GenerateOutcome { text: self.text, tool_calls })
    }
}

/// The texts a reply brings, in order: those of its lines that bring any, up to
/// its end.
pub open spec fn shown(api: Api, lines: Seq<Seq<char>>) -> Seq<Seq<char>>
    decreases lines.len(),
{
    if lines.len() == 0 {
        Seq::empty()
    } else {
        let before = shown(api, lines.drop_last());
        match line_chunk(api, lines.last()) {
            Some(c) => if !replied(api, lines.drop_last()).done && c.text.len() > 0 {
                before.push(c.text)
            } else {
                before
            },
            None => before,
        }
    }
}

/// A reply read by somebody who answers each text with whether to go on (who
/// has no answer left goes on), and the texts they were given.
pub open spec fn listened(api: Api, lines: Seq<Seq<char>>, answers: Seq<bool>) -> (
    ReplyV,
    Seq<Seq<char>>,
)
    decreases lines.len(),
{
    if lines.len() == 0 {
        (unread(), Seq::empty())
    } else {
        let (r, given) = listened(api, lines.drop_last(), answers);
        match line_chunk(api, lines.last()) {
            Some(c) => if r.done || r.stopped {
                (r, given)
            } else if c.text.len() > 0 {
                let goes_on = given.len() < answers.len() ==> answers[given.len() as int];
                (ReplyV { stopped: !goes_on, ..grown(r, c) }, given.push(c.text))
            } else {
                (grown(r, c), given)
            },
            None => (r, given),
        }
    }
}

/// What a reply comes to, from all of its lines and what is answered to each
/// text it brings: the texts given out, and the outcome.
pub fn read_reply(api: Api, lines: &Vec<String>, answers: &Vec<bool>) -> (r: (
    Vec<String>,
    Result<GenerateOutcome, ModelError>,
))
    ensures
        ({
            let (reply, given) = listened(api, crate::text::texts(lines@), answers@);
            &&& crate::text::texts(r.0@) == given
            &&& match r.1 {
                Ok(outcome) => {
                    &&& !reply.stopped
                    &&& outcome.text@ == reply.text
                    &&& calls(outcome.tool_calls@) == reply.tool_calls + finished(reply.pending)
                },
                Err(e) => reply.stopped && e is Cancelled,
            }
        }),
{
    let ghost all = crate::text::texts(lines@);
    let mut reply: Reply = Reply::default();
    let mut given: Vec<String> = Vec::new();
    let mut i: usize = 0;
    proof {
        assert(all.take(0) =~= Seq::empty());
        assert(crate::text::texts(given@) =~= Seq::empty());
    }
    while i < lines.len()
        invariant
            i <= lines@.len(),
            all == crate::text::texts(lines@),
            reply.pending.ok(),
            given@.len() == listened(api, all.take(i as int), answers@).1.len(),
            (reply@, crate::text::texts(given@)) == listened(api, all.take(i as int), answers@),
        decreases lines@.len() - i,
    {
        proof {
            assert(all.take(i + 1).drop_last() =~= all.take(i as int));
            assert(all.take(i + 1).last() == lines@[i as int]@);
        }
        let ghost before = given@;
        if let Some(text) = reply.read(api, lines[i].as_str()) {
            let goes_on: bool = given.len() >= answers.len() || answers[given.len()];
            proof {
                assert(crate::text::texts(before.push(text)) =~= crate::text::texts(before).push(
                    text@,
                ));
            }
            given.push(text);
            let _more: bool = reply.next(goes_on);
        }
        i += 1;
    }
    proof {
        assert(all.take(i as int) =~= all);
    }
    (given, reply.finish())
}

proof fn lemma_listened(api: Api, lines: Seq<Seq<char>>, answers: Seq<bool>, k: int)
    requires
        0 <= k <= answers.len(),
        forall|j: int| 0 <= j < k ==> #[trigger] answers[j],
        k < answers.len() ==> !answers[k],
    ensures
        ({
            let (reply, given) = listened(api, lines, answers);
            let all = shown(api, lines);
            if k < answers.len() && k < all.len() {
                reply.stopped && given == all.take(k + 1)
            } else {
                reply == replied(api, lines) && given == all && !reply.stopped
            }
        }),
    decreases lines.len(),
{
    if lines.len() > 0 {
        let before = lines.drop_last();
        lemma_listened(api, before, answers, k);
        let all = shown(api, before);
        if k < answers.len() && k < all.len() {
            assert(shown(api, lines).take(k + 1) =~= all.take(k + 1));
        } else if let Some(c) = line_chunk(api, lines.last()) {
            if !replied(api, before).done && c.text.len() > 0 {
                assert(shown(api, lines) == all.push(c.text));
                if all.len() < k {
                    assert(answers[all.len() as int]);
                }
                if k < answers.len() && all.len() == k {
                    assert(all.push(c.text).take(k + 1) =~= all.push(c.text));
                }
            }
        }
    }
}

/// Who goes on to the end is given every text of a reply, in order, and the
/// whole of it.
pub proof fn law_a_reply_is_given_whole(api: Api, lines: Seq<Seq<char>>, answers: Seq<bool>)
    requires
        forall|j: int| 0 <= j < answers.len() ==> #[trigger] answers[j],
    ensures
        listened(api, lines, answers) == (replied(api, lines), shown(api, lines)),
        !listened(api, lines, answers).0.stopped,
{
    lemma_listened(api, lines, answers, answers.len() as int);
}

/// Who breaks off at a text has the reply cancelled, and is given no further
/// text.
pub proof fn law_a_break_cancels_the_reply(
    api: Api,
    lines: Seq<Seq<char>>,
    answers: Seq<bool>,
    k: int,
)
    requires
        0 <= k < answers.len(),
        k < shown(api, lines).len(),
        forall|j: int| 0 <= j < k ==> #[trigger] answers[j],
        !answers[k],
    ensures
        listened(api, lines, answers).0.stopped,
        listened(api, lines, answers).1 == shown(api, lines).take(k + 1),
{
    lemma_listened(api, lines, answers, k);
}

/// Nothing is read past the end of a reply.
pub proof fn law_a_finished_reply_is_finished(api: Api, lines: Seq<Seq<char>>, more: Seq<Seq<char>>)
    requires
        replied(api, lines).done,
    ensures
        replied(api, lines + more) == replied(api, lines),
    decreases more.len(),
{
    if more.len() == 0 {
        assert(lines + more =~= lines);
    } else {
        law_a_finished_reply_is_finished(api, lines, more.drop_last());
        assert((lines + more).drop_last() =~= lines + more.drop_last());
    }
}

/// The names in a list of models: those that have one, in order.
pub open spec fn named(items: Seq<JsonV>, name: Seq<char>) -> Seq<Seq<char>>
    decreases items.len(),
{
    if items.len() == 0 {
        Seq::empty()
    } else {
        let sofar = named(items.drop_last(), name);
        match text_in(field(items.last(), name)) {
            Some(s) => sofar.push(s),
            None => sofar,
        }
    }
}

/// The models a server says it has.
pub open spec fn models_in(api: Api, v: JsonV) -> Seq<Seq<char>> {
    match api {
        Api::Ollama => named(items_of(field(v, "models"@)), "name"@),
        Api::OpenAiCompatible => named(items_of(field(v, "data"@)), "id"@),
        Api::Builtin => Seq::empty(),
    }
}

/// The models a server says it has, from what its answer was read as.
pub fn read_model_list(api: Api, v: &Json) -> (r: Vec<String>)
    ensures
        crate::text::texts(r@) == models_in(api, v.view()),
{
    let mut r: Vec<String> = Vec::new();
    proof {
        assert(crate::text::texts(r@) =~= Seq::empty());
    }
    let (list, name): (Option<&Json>, &str) = match api {
        Api::Ollama => (v.get("models"), "name"),
        Api::OpenAiCompatible => (v.get("data"), "id"),
        // Nothing is served, so there is no list to read.
        Api::Builtin => {
            return r;
        },
    };
    let items: &Vec<Json> = match list {
        Some(list) => match list.as_array() {
            Some(items) => items,
            None => {
                return r;
            },
        },
        None => {
            return r;
        },
    };
    let ghost all = values(items@);
    let mut i: usize = 0;
    proof {
        assert(all.take(0) =~= Seq::empty());
    }
    while i < items.len()
        invariant
            i <= items@.len(),
            all == values(items@),
            crate::text::texts(r@) == named(all.take(i as int), name@),
        decreases items@.len() - i,
    {
        proof {
            assert(all.take(i + 1).drop_last() =~= all.take(i as int));
            assert(all.take(i + 1).last() == items@[i as int].view());
        }
        if let Some(s) = str_in(items[i].get(name)) {
            proof {
                assert(crate::text::texts(r@.push(s)) =~= crate::text::texts(r@).push(s@));
            }
            r.push(s);
        }
        i += 1;
    }
    proof {
        assert(all.take(i as int) =~= all);
    }
    r
}

pub fn parse_model_list(api: Api, body: &str) -> (r: Vec<String>)
    ensures
        crate::text::texts(r@) == (match json_read(body@) {
            Some(v) => models_in(api, v),
            None => Seq::empty(),
        }),
{
    match parse(body) {
        Some(v) => read_model_list(api, &v),
        None => {
            let r: Vec<String> = Vec::new();
            proof {
                assert(crate::text::texts(r@) =~= Seq::empty());
            }
            r
        },
    }
}

} // verus!
