//! What is sent to a model, and how its reply is read.

use evo::json::{parse, Json};
use evo::script::model::{
    check_status, default_timeout, no_builtin_model, object_or_nothing, ollama_body, openai_body,
    parse_arguments, parse_chunk, parse_model_list, read_reply, Api, ChatMessage, GenerateOutcome,
    GenerateRequest, HttpBackend, ModelConfig, ModelError, PendingCalls, Reply, Role, ToolCall,
    ToolCallFragment, ToolDef,
};

fn json(text: &str) -> Json {
    parse(text).expect("valid JSON")
}

fn value(j: &Json) -> serde_json::Value {
    serde_json::from_str(&j.text()).expect("valid JSON")
}

fn request(prompt: &str) -> GenerateRequest {
    GenerateRequest {
        model: "m".into(),
        prompt: prompt.into(),
        ..Default::default()
    }
}

fn weather_tool() -> ToolDef {
    ToolDef {
        name: "get_weather".into(),
        description: "Look up the weather in a city".into(),
        parameters: json(
            r#"{"type":"object","properties":{"city":{"type":"string"}},"required":["city"]}"#,
        ),
    }
}

#[test]
fn ollama_chunks_carry_text_and_the_done_flag() {
    let c =
        parse_chunk(Api::Ollama, r#"{"message":{"content":"Hel"},"done":false}"#).expect("a chunk");
    assert_eq!(c.text, "Hel");
    assert!(!c.done);

    let c = parse_chunk(Api::Ollama, r#"{"message":{"content":""},"done":true}"#).expect("a chunk");
    assert!(c.done);
}

/// `/api/generate`'s flat field still reads, so a server (or proxy) that
/// answers in the old shape keeps working.
#[test]
fn ollama_still_reads_the_generate_endpoints_flat_field() {
    let c = parse_chunk(Api::Ollama, r#"{"response":"Hel","done":false}"#).expect("a chunk");
    assert_eq!(c.text, "Hel");
    assert!(!c.done);

    // When both are present the chat shape wins.
    let both = r#"{"message":{"content":"chat"},"response":"generate","done":false}"#;
    assert_eq!(
        parse_chunk(Api::Ollama, both).expect("a chunk").text,
        "chat"
    );
}

#[test]
fn openai_chunks_are_read_from_the_data_field() {
    let line = r#"data: {"choices":[{"delta":{"content":"Hel"}}]}"#;
    let c = parse_chunk(Api::OpenAiCompatible, line).expect("a chunk");
    assert_eq!(c.text, "Hel");
    assert!(!c.done);
}

#[test]
fn openai_signals_the_end_with_a_sentinel() {
    let c = parse_chunk(Api::OpenAiCompatible, "data: [DONE]").expect("a chunk");
    assert!(c.done);
    assert!(c.text.is_empty());
}

#[test]
fn a_finish_reason_ends_the_stream() {
    let line = r#"data: {"choices":[{"delta":{},"finish_reason":"stop"}]}"#;
    let c = parse_chunk(Api::OpenAiCompatible, line).expect("a chunk");
    assert!(c.done);
}

#[test]
fn blank_and_malformed_lines_are_skipped_not_fatal() {
    for line in ["", "   ", "not json", "data: {oops"] {
        assert!(parse_chunk(Api::Ollama, line).is_none(), "{line:?}");
        assert!(
            parse_chunk(Api::OpenAiCompatible, line).is_none(),
            "{line:?}"
        );
    }
    // Server-sent-event comments are keep-alives, not content.
    assert!(parse_chunk(Api::OpenAiCompatible, ": ping").is_none());
    // The built-in model streams through a callback, not over the wire.
    assert!(parse_chunk(Api::Builtin, r#"{"response":"Hel"}"#).is_none());
}

#[test]
fn model_lists_are_read_from_either_dialect() {
    let ollama = r#"{"models":[{"name":"llama3.2"},{"name":"qwen2.5"}]}"#;
    assert_eq!(
        parse_model_list(Api::Ollama, ollama),
        ["llama3.2", "qwen2.5"]
    );

    let openai = r#"{"data":[{"id":"local-model"}]}"#;
    assert_eq!(
        parse_model_list(Api::OpenAiCompatible, openai),
        ["local-model"]
    );
}

#[test]
fn an_unreadable_model_list_is_empty_rather_than_an_error() {
    assert!(parse_model_list(Api::Ollama, "<html>404</html>").is_empty());
    assert!(parse_model_list(Api::Builtin, r#"{"models":[{"name":"a"}]}"#).is_empty());
}

#[test]
fn the_request_body_carries_the_options_that_were_set() {
    let mut req = request("p");
    req.system = Some("s".into());
    req.temperature = serde_json::Number::from_f64(0.5);
    req.max_tokens = Some(64);

    let body = value(&ollama_body(&req));
    assert_eq!(body["messages"][0]["role"], "system");
    assert_eq!(body["messages"][0]["content"], "s");
    assert_eq!(body["options"]["num_predict"], 64);
    assert_eq!(body["options"]["temperature"], 0.5);
    assert_eq!(body["stream"], true);

    let body = value(&openai_body(&req));
    assert_eq!(body["messages"][0]["role"], "system");
    assert_eq!(body["messages"][1]["content"], "p");
    assert_eq!(body["max_tokens"], 64);
    assert_eq!(body["temperature"], 0.5);
}

#[test]
fn unset_options_are_left_out_entirely() {
    let body = value(&ollama_body(&request("p")));
    assert!(body.get("options").is_none());
    // With no system prompt the only message is the user's.
    assert_eq!(body["messages"].as_array().expect("an array").len(), 1);
    assert_eq!(body["messages"][0]["role"], "user");
    assert_eq!(
        ollama_body(&request("p")).text(),
        r#"{"messages":[{"content":"p","role":"user"}],"model":"m","stream":true}"#
    );
}

#[test]
fn both_dialects_interleave_the_history_before_the_new_prompt() {
    let mut req = request("and the second?");
    req.system = Some("s".into());
    req.history = vec![
        ChatMessage::new(Role::User, "what is on the first page?".to_owned()),
        ChatMessage::new(Role::Assistant, "A title. [p.1]".to_owned()),
    ];

    for body in [ollama_body(&req), openai_body(&req)] {
        let body = value(&body);
        let messages = body["messages"].as_array().expect("an array");
        let pairs: Vec<(&str, &str)> = messages
            .iter()
            .map(|m| {
                (
                    m["role"].as_str().unwrap_or_default(),
                    m["content"].as_str().unwrap_or_default(),
                )
            })
            .collect();
        assert_eq!(
            pairs,
            [
                ("system", "s"),
                ("user", "what is on the first page?"),
                ("assistant", "A title. [p.1]"),
                ("user", "and the second?"),
            ]
        );
    }
}

fn backend(api: Api, base_url: &str) -> HttpBackend {
    let mut config = ModelConfig::starting("builtin".to_owned());
    config.api = api;
    config.base_url = base_url.to_owned();
    HttpBackend { config }
}

fn lines(reply: &str) -> Vec<String> {
    reply.lines().map(str::to_owned).collect()
}

#[test]
fn the_ollama_backend_posts_a_conversation_to_the_chat_endpoint() {
    let reply = "{\"message\":{\"content\":\"The alarm \"},\"done\":false}\n\
                 {\"message\":{\"content\":\"panel. [p.3]\"},\"done\":false}\n\
                 {\"message\":{\"content\":\"\"},\"done\":true}\n";
    let mut req = request("where is it?");
    req.model = "test-model".into();
    req.system = Some("answer from the pages".into());
    req.history = vec![ChatMessage::new(Role::User, "hello".to_owned())];

    let (url, body) = backend(Api::Ollama, "http://127.0.0.1:9/")
        .request(&req)
        .expect("a request");
    assert_eq!(url, "http://127.0.0.1:9/api/chat");
    let sent: serde_json::Value = serde_json::from_str(&body).expect("json body");
    assert_eq!(sent["model"], "test-model");
    assert_eq!(sent["stream"], true);
    assert_eq!(sent["messages"][0]["role"], "system");
    assert_eq!(sent["messages"][1]["content"], "hello");
    assert_eq!(sent["messages"][2]["content"], "where is it?");

    let mut streamed = Vec::new();
    let mut reading = Reply::default();
    for line in lines(reply) {
        if let Some(chunk) = reading.read(Api::Ollama, &line) {
            streamed.push(chunk);
            assert!(reading.next(true), "there is more to come");
        }
    }
    let outcome = reading.finish().expect("an outcome");
    assert_eq!(outcome.text, "The alarm panel. [p.3]");
    assert!(outcome.tool_calls.is_empty());
    assert_eq!(streamed, ["The alarm ", "panel. [p.3]"]);
}

#[test]
fn a_reply_is_not_read_past_its_end() {
    let reply = "{\"response\":\"one\",\"done\":true}\n{\"response\":\"two\",\"done\":false}\n";
    let mut reading = Reply::default();
    assert_eq!(
        reading.read(Api::Ollama, reply.lines().next().unwrap()).as_deref(),
        Some("one")
    );
    assert!(reading.done);
    assert_eq!(reading.read(Api::Ollama, reply.lines().nth(1).unwrap()), None);
    let (given, outcome) = read_reply(Api::Ollama, &lines(reply), &vec![]);
    assert_eq!(given, ["one"]);
    assert_eq!(outcome.expect("an outcome").text, "one");
}

#[test]
fn breaking_out_of_the_stream_reports_a_cancellation() {
    let reply = "{\"message\":{\"content\":\"one\"},\"done\":false}\n\
                 {\"message\":{\"content\":\"two\"},\"done\":false}\n";
    let mut seen = 0;
    let mut reading = Reply::default();
    for line in lines(reply) {
        if reading.read(Api::Ollama, &line).is_some() {
            seen += 1;
            assert!(!reading.next(false));
        }
    }
    assert!(!reading.next(true), "nobody comes back");
    assert!(matches!(reading.finish(), Err(ModelError::Cancelled)));
    assert_eq!(seen, 1, "the stream stopped at the first chunk");

    let (given, outcome) = read_reply(Api::Ollama, &lines(reply), &vec![true, false]);
    assert_eq!(given, ["one", "two"]);
    assert!(matches!(outcome, Err(ModelError::Cancelled)));
}

#[test]
fn a_backend_says_where_it_is_and_what_it_is() {
    let ollama = backend(Api::Ollama, "http://localhost:11434");
    assert_eq!(
        ollama.describe(),
        "llama3.2 at http://localhost:11434 (Ollama)"
    );
    assert_eq!(
        ollama.models_url().ok().as_deref(),
        Some("http://localhost:11434/api/tags")
    );
    let openai = backend(Api::OpenAiCompatible, "http://localhost:8080//");
    assert_eq!(
        openai.models_url().ok().as_deref(),
        Some("http://localhost:8080/v1/models")
    );
    assert_eq!(openai.url("v1/models"), "http://localhost:8080/v1/models");
}

#[test]
fn a_status_that_is_not_success_carries_what_the_server_said() {
    assert!(check_status(200, None).is_ok());
    assert!(check_status(299, None).is_ok());
    let why = check_status(404, Some("no such model".to_owned())).expect_err("not found");
    assert_eq!(why.message(), "the model returned 404: no such model");
    let why = check_status(500, None).expect_err("broken");
    assert_eq!(why.message(), "the model returned 500: <unreadable>");
    assert_eq!(
        ModelError::Read("eof".to_owned()).message(),
        "could not read the model's reply: eof"
    );
    assert_eq!(ModelError::Cancelled.message(), "cancelled");
    let gone = ModelError::Unreachable {
        url: "http://x".to_owned(),
        why: "refused".to_owned(),
    };
    assert_eq!(gone.message(), "could not reach the model at http://x: refused");
}

#[test]
fn every_dialect_is_listed_once_with_a_label() {
    assert_eq!(Api::all().len(), 3);
    for api in Api::all() {
        assert!(!api.label().is_empty());
        assert_eq!(Api::all().iter().filter(|a| **a == api).count(), 1);
    }
    // Only the served dialects have an address to point at.
    assert!(Api::Ollama.is_http() && Api::OpenAiCompatible.is_http());
    assert!(!Api::Builtin.is_http());
    assert!(Api::Builtin.default_url().is_empty());
    assert_eq!(Api::default(), Api::Ollama);
    assert_eq!(default_timeout(), 120);
}

#[test]
fn an_unusable_builtin_model_explains_itself() {
    let builtin = backend(Api::Builtin, "");
    let why = builtin.request(&request("hello")).expect_err("no server");
    assert!(matches!(why, ModelError::Unavailable(_)));
    assert_eq!(why.message(), "the built-in model does not run over HTTP");
    assert!(matches!(
        builtin.models_url(),
        Err(ModelError::Unavailable(_))
    ));
    assert!(no_builtin_model().message().contains("compiled without"));
}

#[test]
fn roles_go_by_their_wire_names() {
    let names: Vec<&str> = [Role::System, Role::User, Role::Assistant, Role::Tool]
        .iter()
        .map(|r| r.wire())
        .collect();
    assert_eq!(names, ["system", "user", "assistant", "tool"]);
}

// --- tools ---------------------------------------------------------------

#[test]
fn a_request_without_tools_says_nothing_about_them() {
    for body in [ollama_body(&request("p")), openai_body(&request("p"))] {
        assert!(body.get("tools").is_none(), "{}", body.text());
        assert!(body.get("tool_choice").is_none(), "{}", body.text());
    }
}

#[test]
fn tools_are_offered_in_the_shape_each_dialect_wants() {
    let mut req = request("what is the weather in London?");
    req.tools = vec![weather_tool()];

    for (api, body) in [
        (Api::Ollama, ollama_body(&req)),
        (Api::OpenAiCompatible, openai_body(&req)),
    ] {
        let body = value(&body);
        let tools = body["tools"].as_array().expect("an array");
        assert_eq!(tools.len(), 1);
        assert_eq!(tools[0]["type"], "function");
        assert_eq!(tools[0]["function"]["name"], "get_weather");
        assert_eq!(
            tools[0]["function"]["description"],
            "Look up the weather in a city"
        );
        assert_eq!(tools[0]["function"]["parameters"]["type"], "object");
        // Only OpenAI takes a choice, and evo never insists.
        match api {
            Api::OpenAiCompatible => assert_eq!(body["tool_choice"], "auto"),
            _ => assert!(body.get("tool_choice").is_none()),
        }
    }
}

/// A tool round trip in the history: the assistant asked, the tool
/// answered. OpenAI threads an id through both; Ollama names the tool.
#[test]
fn a_finished_tool_round_trip_serializes_per_dialect() {
    let call = ToolCall {
        id: Some("call_1".into()),
        name: "get_weather".into(),
        arguments: json(r#"{"city":"London"}"#),
    };
    let mut req = request("");
    req.history = vec![
        ChatMessage::new(Role::User, "weather in London?".to_owned()),
        ChatMessage::calling(String::new(), vec![call.copy()]),
        ChatMessage::tool_result(&call, "17°C and raining".to_owned()),
    ];

    let body = value(&openai_body(&req));
    let messages = body["messages"].as_array().expect("an array");
    assert_eq!(messages.len(), 3, "an empty prompt adds no message");
    assert_eq!(messages[1]["role"], "assistant");
    assert_eq!(messages[1]["tool_calls"][0]["id"], "call_1");
    assert_eq!(messages[1]["tool_calls"][0]["type"], "function");
    // OpenAI carries the arguments as a string of JSON, not an object.
    assert_eq!(
        messages[1]["tool_calls"][0]["function"]["arguments"],
        r#"{"city":"London"}"#
    );
    assert_eq!(messages[2]["role"], "tool");
    assert_eq!(messages[2]["tool_call_id"], "call_1");
    assert_eq!(messages[2]["content"], "17°C and raining");

    let body = value(&ollama_body(&req));
    let messages = body["messages"].as_array().expect("an array");
    assert_eq!(
        messages[1]["tool_calls"][0]["function"]["name"],
        "get_weather"
    );
    // Ollama wants an object, and issues no id to quote back.
    assert_eq!(
        messages[1]["tool_calls"][0]["function"]["arguments"]["city"],
        "London"
    );
    assert!(messages[1]["tool_calls"][0].get("id").is_none());
    assert_eq!(messages[2]["role"], "tool");
    assert_eq!(messages[2]["tool_name"], "get_weather");
    assert!(messages[2].get("tool_call_id").is_none());
}

#[test]
fn ollama_sends_a_tool_call_in_one_piece() {
    let line = r#"{"message":{"content":"","tool_calls":[{"function":
        {"name":"get_weather","arguments":{"city":"London"}}}]},"done":false}"#;
    let chunk = parse_chunk(Api::Ollama, line).expect("a chunk");
    assert!(chunk.text.is_empty());
    assert!(chunk.fragments.is_empty());
    assert_eq!(chunk.tool_calls.len(), 1);
    assert_eq!(chunk.tool_calls[0].name, "get_weather");
    assert_eq!(value(&chunk.tool_calls[0].arguments)["city"], "London");
    assert!(chunk.tool_calls[0].id.is_none());
}

/// Some builds hand back the arguments as a string, and some attach an id.
#[test]
fn ollama_tolerates_string_arguments_and_an_id() {
    let line = r#"{"message":{"tool_calls":[{"id":"abc","function":
        {"name":"get_weather","arguments":"{\"city\":\"Oslo\"}"}}]},"done":true}"#;
    let chunk = parse_chunk(Api::Ollama, line).expect("a chunk");
    assert_eq!(chunk.tool_calls[0].id.as_deref(), Some("abc"));
    assert_eq!(value(&chunk.tool_calls[0].arguments)["city"], "Oslo");
    assert!(chunk.done);

    // Nonsense arguments become an empty object rather than a failure.
    let line = r#"{"message":{"tool_calls":[{"function":
        {"name":"get_weather","arguments":"not json"}}]},"done":true}"#;
    let chunk = parse_chunk(Api::Ollama, line).expect("a chunk");
    assert_eq!(chunk.tool_calls[0].arguments.text(), "{}");

    // A call with no name is not a call.
    let line = r#"{"message":{"tool_calls":[{"function":{"arguments":{}}}]},"done":true}"#;
    assert!(parse_chunk(Api::Ollama, line)
        .expect("a chunk")
        .tool_calls
        .is_empty());
}

#[test]
fn arguments_are_an_object_or_nothing() {
    assert_eq!(parse_arguments(r#" {"a":1} "#).text(), r#"{"a":1}"#);
    assert_eq!(parse_arguments("[1]").text(), "{}");
    assert_eq!(parse_arguments("  ").text(), "{}");
    assert_eq!(object_or_nothing(None).text(), "{}");
    assert_eq!(object_or_nothing(parse("3")).text(), "{}");
}

/// (id, name, arguments) of each call.
fn plain(calls: &[ToolCall]) -> Vec<(Option<String>, String, String)> {
    calls
        .iter()
        .map(|c| (c.id.clone(), c.name.clone(), c.arguments_json()))
        .collect()
}

fn want(id: &str, name: &str, arguments: &str) -> (Option<String>, String, String) {
    (Some(id.to_owned()), name.to_owned(), arguments.to_owned())
}

/// OpenAI's fragments are the fiddly part: an id and a name once, then the
/// arguments a few characters at a time, possibly for several calls at
/// once. Each row is a captured stream and what it must add up to.
#[test]
fn openai_tool_call_fragments_accumulate_into_whole_calls() {
    let cases: Vec<(&str, Vec<&str>, Vec<(Option<String>, String, String)>, &str)> = vec![
        (
            "one call, arguments in pieces",
            vec![
                r#"data: {"choices":[{"delta":{"tool_calls":[{"index":0,"id":"call_a","type":"function","function":{"name":"get_weather","arguments":""}}]}}]}"#,
                r#"data: {"choices":[{"delta":{"tool_calls":[{"index":0,"function":{"arguments":"{\"ci"}}]}}]}"#,
                r#"data: {"choices":[{"delta":{"tool_calls":[{"index":0,"function":{"arguments":"ty\": \"Lon"}}]}}]}"#,
                r#"data: {"choices":[{"delta":{"tool_calls":[{"index":0,"function":{"arguments":"don\"}"}}]}}]}"#,
                r#"data: {"choices":[{"delta":{},"finish_reason":"tool_calls"}]}"#,
            ],
            vec![want("call_a", "get_weather", r#"{"city":"London"}"#)],
            "",
        ),
        (
            "two calls interleaved by index",
            vec![
                r#"data: {"choices":[{"delta":{"tool_calls":[{"index":0,"id":"a","function":{"name":"first","arguments":"{\"x\":"}}]}}]}"#,
                r#"data: {"choices":[{"delta":{"tool_calls":[{"index":1,"id":"b","function":{"name":"second","arguments":"{\"y\":"}}]}}]}"#,
                r#"data: {"choices":[{"delta":{"tool_calls":[{"index":1,"function":{"arguments":"2}"}}]}}]}"#,
                r#"data: {"choices":[{"delta":{"tool_calls":[{"index":0,"function":{"arguments":"1}"}}]}}]}"#,
                r#"data: [DONE]"#,
            ],
            vec![
                want("a", "first", r#"{"x":1}"#),
                want("b", "second", r#"{"y":2}"#),
            ],
            "",
        ),
        (
            "text first, then a call",
            vec![
                r#"data: {"choices":[{"delta":{"content":"Let me look. "}}]}"#,
                r#"data: {"choices":[{"delta":{"tool_calls":[{"index":0,"id":"c","function":{"name":"get_weather","arguments":"{}"}}]}}]}"#,
                r#"data: {"choices":[{"delta":{},"finish_reason":"tool_calls"}]}"#,
            ],
            vec![want("c", "get_weather", "{}")],
            "Let me look. ",
        ),
        (
            "arguments never finish, so they are empty rather than wrong",
            vec![
                r#"data: {"choices":[{"delta":{"tool_calls":[{"index":0,"id":"d","function":{"name":"get_weather","arguments":"{\"city\": \"Lon"}}]}}]}"#,
                r#"data: [DONE]"#,
            ],
            vec![want("d", "get_weather", "{}")],
            "",
        ),
        (
            "a name split across fragments",
            vec![
                r#"data: {"choices":[{"delta":{"tool_calls":[{"index":0,"id":"e","function":{"name":"get_","arguments":""}}]}}]}"#,
                r#"data: {"choices":[{"delta":{"tool_calls":[{"index":0,"function":{"name":"weather","arguments":"{}"}}]}}]}"#,
                r#"data: [DONE]"#,
            ],
            vec![want("e", "get_weather", "{}")],
            "",
        ),
        (
            "no index: one call per delta",
            vec![
                r#"data: {"choices":[{"delta":{"tool_calls":[{"id":"f","function":{"name":"only","arguments":"{\"n\":1}"}}]}}]}"#,
                r#"data: [DONE]"#,
            ],
            vec![want("f", "only", r#"{"n":1}"#)],
            "",
        ),
        (
            "plain answer, no calls at all",
            vec![
                r#"data: {"choices":[{"delta":{"content":"17°C."}}]}"#,
                r#"data: {"choices":[{"delta":{},"finish_reason":"stop"}]}"#,
            ],
            Vec::new(),
            "17°C.",
        ),
    ];

    for (name, stream, wanted, wanted_text) in cases {
        let mut pending = PendingCalls::default();
        let mut text = String::new();
        for line in stream {
            let Some(chunk) = parse_chunk(Api::OpenAiCompatible, line) else {
                panic!("{name}: {line} did not parse");
            };
            text.push_str(&chunk.text);
            for fragment in &chunk.fragments {
                pending.add(fragment);
            }
            assert!(
                chunk.tool_calls.is_empty(),
                "{name}: this dialect streams fragments"
            );
        }
        assert_eq!(text, wanted_text, "{name}");
        assert_eq!(plain(&pending.finish()), wanted, "{name}");
    }
}

/// The whole way through, not just the parser: fragments over the wire come
/// back as one finished call.
#[test]
fn the_openai_backend_returns_an_accumulated_tool_call() {
    let reply = "data: {\"choices\":[{\"delta\":{\"content\":\"One moment. \"}}]}\n\n\
        data: {\"choices\":[{\"delta\":{\"tool_calls\":[{\"index\":0,\"id\":\"call_1\",\
        \"type\":\"function\",\"function\":{\"name\":\"get_weather\",\"arguments\":\"\"}}]}}]}\n\n\
        data: {\"choices\":[{\"delta\":{\"tool_calls\":[{\"index\":0,\"function\":\
        {\"arguments\":\"{\\\"city\\\": \\\"London\\\"}\"}}]}}]}\n\n\
        data: {\"choices\":[{\"delta\":{},\"finish_reason\":\"tool_calls\"}]}\n\n\
        data: [DONE]\n\n";
    let (_, outcome) = read_reply(Api::OpenAiCompatible, &lines(reply), &vec![]);
    let outcome = outcome.expect("an outcome");
    assert_eq!(outcome.text, "One moment. ");
    assert_eq!(outcome.tool_calls.len(), 1);
    assert_eq!(outcome.tool_calls[0].name, "get_weather");
    assert_eq!(value(&outcome.tool_calls[0].arguments)["city"], "London");
    assert_eq!(outcome.tool_calls[0].id.as_deref(), Some("call_1"));

    let mut req = request("weather in London?");
    req.tools = vec![weather_tool()];
    let (url, body) = backend(Api::OpenAiCompatible, "http://127.0.0.1:9")
        .request(&req)
        .expect("a request");
    assert_eq!(url, "http://127.0.0.1:9/v1/chat/completions");
    let sent: serde_json::Value = serde_json::from_str(&body).expect("json body");
    assert_eq!(sent["tools"][0]["function"]["name"], "get_weather");
    assert_eq!(sent["tool_choice"], "auto");
}

#[test]
fn a_turn_without_tools_carries_nothing_of_them() {
    let message = ChatMessage::new(Role::Assistant, "A report. [p.1]".to_owned());
    assert!(message.tool_calls.is_empty());
    assert!(message.tool_call_id.is_none() && message.name.is_none());
    let call = ToolCall::new("get_weather".to_owned(), json(r#"{"city":"Oslo"}"#));
    let result = ChatMessage::tool_result(&call, "17°C".to_owned());
    assert_eq!(result.role, Role::Tool);
    assert_eq!(result.name.as_deref(), Some("get_weather"));
    assert_eq!(GenerateOutcome::text("hi".to_owned()).text, "hi");
}

// --- JSON ----------------------------------------------------------------

#[test]
fn json_is_read_and_written_as_it_stands() {
    let text = r#"{"a":[1,-2,true,null,"x"],"b":{"c":"\n"}}"#;
    let read = json(text);
    assert_eq!(read.text(), text);
    assert_eq!(read.copy().text(), text);
    let list = read.get("a").and_then(|a| a.as_array()).expect("a list");
    assert_eq!(list.len(), 5);
    assert_eq!(list[0].as_u64(), Some(1));
    assert_eq!(list[1].as_u64(), None);
    assert_eq!(list[2].as_bool(), Some(true));
    assert_eq!(list[4].as_str(), Some("x"));
    assert!(read.is_object() && !list[0].is_object());
    assert!(parse("{").is_none());
    let built = Json::object()
        .with("n", Json::number(3))
        .with("n", Json::number(4))
        .with("s", Json::optional(&None))
        .with("t", Json::optional(&Some("u".to_owned())))
        .with("l", Json::array(vec![Json::string("v")]));
    assert_eq!(built.text(), r#"{"l":["v"],"n":4,"s":null,"t":"u"}"#);
}

#[test]
fn fragments_of_two_calls_come_in_either_order() {
    let fragment = |index: usize, name: &str, arguments: &str| ToolCallFragment {
        index,
        id: None,
        name: Some(name.to_owned()),
        arguments: arguments.to_owned(),
    };
    let parts = [fragment(1, "b", "{\"y\":"), fragment(0, "a", "{}"), fragment(1, "", "2}")];
    let finish = |order: [usize; 3]| {
        let mut pending = PendingCalls::default();
        for i in order {
            pending.add(&parts[i]);
        }
        pending
            .finish()
            .iter()
            .map(|c| (c.name.clone(), c.arguments.text()))
            .collect::<Vec<_>>()
    };
    let calls = finish([0, 1, 2]);
    assert_eq!(calls, finish([1, 0, 2]));
    assert_eq!(calls, finish([0, 2, 1]));
    assert_eq!(calls[0], ("a".to_owned(), "{}".to_owned()));
    assert_eq!(calls[1], ("b".to_owned(), "{\"y\":2}".to_owned()));
}
