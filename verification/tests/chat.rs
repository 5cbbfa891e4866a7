//! What is said while a question is answered, and what the model may do.

use evo::doc::annotation::AnnotationKind;
use evo::doc::geometry::{PdfPoint, PdfRect};
use evo::json::{parse, Json};
use evo::script::model::{
    ChatMessage, ModelError, Role, ToolCall, ToolDef,
};
use evo::serve::chat_api::{
    ask_about, ask_library, check_chatlog, check_question, check_text, cited, explain, stages, Ask,
    ChatLog, Conversation, Next, PageText, Say, Toolbox, ASKING, MAX_TRANSCRIPT, TEMPERATURE,
};
use evo::serve::markup_api::{empty_markup, etag};
use evo::serve::tools::{
    check_page, draw, highlight_text, highlighted, id_arg, markup_changed, no_document, not_said, note_box,
    number_arg, open_document, request, text_arg, unknown_tool, Found, Marked, RemoteTool, Wanted,
    ServerTools, ToolRequest, EVO, MAX_MARKS,
};

fn json(text: &str) -> Json {
    parse(text).expect("valid JSON")
}

fn value(j: &Json) -> serde_json::Value {
    serde_json::from_str(&j.text()).expect("valid JSON")
}

fn tool(name: &str) -> RemoteTool {
    RemoteTool {
        server: "evo".to_owned(),
        tool: name.to_owned(),
        def: ToolDef {
            name: name.to_owned(),
            description: String::new(),
            parameters: json(r#"{"type":"object"}"#),
        },
    }
}

fn call(name: &str, arguments: &str) -> ToolCall {
    ToolCall::new(name.to_owned(), json(arguments))
}

// ---------------------------------------------------------------------------
// A conversation
// ---------------------------------------------------------------------------

/// Everything one question said to a reader who hears what `hears` says, and
/// whether the model was asked. The model breaks off when it is told to.
fn run(
    chunks: &[&str],
    outcome: Result<String, ModelError>,
    pages: Vec<usize>,
    hears: &dyn Fn(&Say) -> bool,
) -> (Vec<Say>, bool) {
    let (mut talk, first) = Conversation::begin(None, pages);
    let heard = hears(&first);
    let mut said = vec![first];
    let asked = talk.next(heard) == Next::Ask;
    let mut outcome = outcome;
    if asked {
        for chunk in chunks {
            let token = talk.token(chunk).expect("somebody is listening");
            let heard = hears(&token);
            said.push(token);
            if talk.next(heard) == Next::Stop {
                outcome = Err(ModelError::Cancelled);
                break;
            }
        }
    }
    said.extend(talk.finish(outcome));
    (said, asked)
}

#[test]
fn a_question_is_answered_as_a_stage_some_tokens_and_a_done() {
    let answer = "The boiler is in the basement. [p.2]";
    let (said, asked) = run(&[answer], Ok(answer.to_owned()), vec![2], &|_| true);
    assert!(asked);

    let names: Vec<&str> = said.iter().map(Say::name).collect();
    assert_eq!(names, ["stage", "token", "done"]);
    assert_eq!(value(&said[0].data())["text"], ASKING);
    assert_eq!(
        value(&said[1].data())["text"],
        "The boiler is in the basement. [p.2]"
    );

    // The last event carries the whole answer and the pages the reader is
    // allowed to check it against -- the citation links are built from it.
    assert_eq!(
        said[2].data().text(),
        r#"{"pages":[2],"text":"The boiler is in the basement. [p.2]","tools_used":[]}"#
    );
}

/// The framing rule: a chunk is never allowed to look like the end of a
/// frame.
#[test]
fn a_newline_in_the_model_output_does_not_end_the_event() {
    let awkward = "First.\n\nSecond \"quoted\" line.\r\nThird: data: not a field.";
    let (talk, _) = Conversation::begin(None, Vec::new());
    let token = talk.token(awkward).expect("somebody is listening");
    assert_eq!(value(&token.data())["text"], awkward);
    let wire = token.data().text();
    assert!(
        !wire.contains('\n') && !wire.contains('\r'),
        "one event, one line: {wire}"
    );
    // And it survives the trip back, which is what the browser does with it.
    assert_eq!(
        json(&wire).get("text").and_then(|t| t.as_str()),
        Some(awkward)
    );
}

/// Closing the tab is the only cancellation there is.
#[test]
fn a_reader_who_goes_away_stops_the_generation() {
    let answer = "half an answer";
    let (said, asked) = run(&[answer], Ok(answer.to_owned()), vec![1], &|s| s.name() != "token");
    assert!(asked);
    let names: Vec<&str> = said.iter().map(Say::name).collect();
    assert_eq!(names, ["stage", "token"], "no done, and no error either");
    assert_eq!(value(&said[1].data())["text"], answer);

    let failure = || Err(ModelError::Unavailable("no model".to_owned()));
    let (said, asked) = run(&[answer, "more"], failure(), vec![1], &|s| s.name() != "token");
    assert!(asked);
    let names: Vec<&str> = said.iter().map(Say::name).collect();
    assert_eq!(names, ["stage", "token"], "whatever the model made of it");
}

#[test]
fn a_reader_who_goes_away_at_the_start_has_nothing_asked() {
    let (said, asked) = run(&["an answer"], Ok("an answer".to_owned()), vec![1], &|_| false);
    assert!(!asked);
    let names: Vec<&str> = said.iter().map(Say::name).collect();
    assert_eq!(names, ["stage"]);

    let (mut talk, _) = Conversation::begin(None, vec![1]);
    assert_eq!(talk.next(false), Next::Stop);
    assert_eq!(talk.next(true), Next::Stop, "nobody comes back");
    assert!(talk.token("still talking").is_none());
    assert!(talk.finish(Ok("an answer".to_owned())).is_none());
}

/// The commonest failure by far -- no model configured, or none downloaded
/// -- and the one that has to arrive as a sentence rather than a hang.
#[test]
fn a_model_that_cannot_answer_says_why_in_an_event() {
    let (talk, _) = Conversation::begin(None, vec![1]);
    let said = talk
        .finish(Err(ModelError::Unavailable(
            "Qwen3 4B has not been downloaded yet.".to_owned(),
        )))
        .expect("an event");
    assert_eq!(said.name(), "error");
    let message = value(&said.data())["error"].as_str().unwrap().to_owned();
    assert!(
        message.contains("evo fetch-model"),
        "the reader is told what to do on the server: {message}"
    );
    assert!(
        message.contains("Qwen3 4B has not been downloaded yet."),
        "and the original failure is still in there: {message}"
    );
}

/// A phone reader cannot do anything with "io: Connection refused", and
/// there is no Preferences pane on a server to send them to.
#[test]
fn a_model_server_that_is_not_running_is_explained_rather_than_quoted() {
    let error = ModelError::Unreachable {
        url: "http://localhost:11434/api/chat".to_owned(),
        why: "io: Connection refused".to_owned(),
    };
    let message = explain(&error);

    assert!(
        message.starts_with("No language model is available"),
        "it opens with what happened: {message}"
    );
    assert!(
        message.contains("evo fetch-model") && message.contains("serve/config.json"),
        "and with the two ways out of it: {message}"
    );
    assert!(
        !message.contains("Preferences"),
        "a server has no Preferences pane to send anyone to: {message}"
    );
    assert!(
        message.contains("http://localhost:11434/api/chat"),
        "the raw failure stays for whoever is reading the logs: {message}"
    );
    let status = ModelError::Status {
        status: 500,
        body: "oops".to_owned(),
    };
    assert_eq!(explain(&status), "the model returned 500: oops");
}

fn temperature() -> serde_json::Number {
    serde_json::Number::from_f64(TEMPERATURE as f64 / 1000.0).unwrap()
}

#[test]
fn a_question_is_asked_with_the_prompts_written_for_it() {
    let asked = ask_about(
        "Answer only from these pages. Cite them as [p.N].".to_owned(),
        "[Page 2] The boiler. Where is the boiler?".to_owned(),
        vec![ChatMessage::new(Role::User, "what is this?".to_owned())],
        "qwen3".to_owned(),
        Vec::new(),
        temperature(),
    );
    assert!(asked.system.as_deref().unwrap().contains("[p.N]"));
    assert!(asked.prompt.contains("[Page 2]"), "{}", asked.prompt);
    assert!(asked.tools.is_empty(), "none were offered");
    assert_eq!(asked.history.len(), 1);
    assert_eq!(asked.temperature, Some(temperature()));
    assert_eq!(asked.max_tokens, None);

    // The question about the library travels as itself: there are no pages to
    // quote around it.
    let library = ask_library(
        "Use the tools.".to_owned(),
        "find the boiler report",
        Vec::new(),
        "qwen3".to_owned(),
        vec![tool("search_library").def],
        temperature(),
    );
    assert_eq!(library.prompt, "find the boiler report");
    assert_eq!(library.tools.len(), 1);
}

/// The agent loop end to end at this level: the model asks for a tool, the
/// tool runs, what it did reaches the reader, and the answer follows.
#[test]
fn a_tool_call_reaches_the_reader_as_a_chip_a_ui_event_and_an_answer() {
    let id = "a".repeat(64);
    let toolbox = Toolbox {
        tools: vec![tool("open_document")],
    };
    let (mut talk, first) = Conversation::begin(Some(toolbox), vec![2]);
    assert_eq!(talk.next(true), Next::Ask);
    let mut events = vec![first, talk.token("Opening it.").expect("a listener")];
    assert_eq!(talk.next(true), Next::GoOn);
    let wanted = call(
        "open_document",
        &format!(r#"{{"doc_id":"{id}","page":2}}"#),
    );
    let out = talk.execute(&wanted).ok().expect("it was offered");
    assert_eq!(out.server, "evo");
    assert_eq!(out.tool, "open_document");
    events.push(out.say);
    let (ui, answer) = open_document(&id, "Manual", 2, 9);
    events.push(Say::Ui(ui));
    events.push(talk.ran(&wanted, &Ok(answer.text())));
    events.extend(talk.token("It is open at page 2. [p.2]"));
    events.push(
        talk.finish(Ok("It is open at page 2. [p.2]".to_owned()))
            .expect("done"),
    );

    let names: Vec<&str> = events.iter().map(Say::name).collect();
    assert_eq!(
        names,
        ["stage", "token", "tool", "ui", "tool", "token", "done"],
        "the app being driven arrives between the chip and the answer"
    );
    let data: Vec<serde_json::Value> = events.iter().map(|e| value(&e.data())).collect();
    assert_eq!(data[2]["text"], "Running open_document\u{2026}");
    assert_eq!(data[3]["action"], "open");
    assert_eq!(data[3]["page"], 2);
    assert_eq!(
        data[4]["text"],
        format!("open_document answered ({} characters).", answer.text().len())
    );
    assert_eq!(data[6]["tools_used"][0], "open_document");
    assert_eq!(data[6]["text"], "It is open at page 2. [p.2]");
}

/// A model that asks for something nobody offered is told so and carries
/// on, whether or not any tools were allowed at all.
#[test]
fn a_tool_nobody_offered_is_refused_in_words_the_model_can_act_on() {
    let (mut talk, _) = Conversation::begin(None, Vec::new());
    let why = match talk.execute(&call("delete_everything", "{}")) {
        Ok(_) => panic!("there is no such tool"),
        Err(why) => why,
    };
    assert_eq!(
        why,
        "evo has no tool called \u{201c}delete_everything\u{201d}"
    );
    let done = talk.finish(Ok("I could not do that.".to_owned())).expect("done");
    assert_eq!(
        done.data().text(),
        r#"{"pages":[],"text":"I could not do that.","tools_used":[]}"#
    );
}

#[test]
fn a_tool_that_failed_says_so() {
    let (talk, _) = Conversation::begin(None, Vec::new());
    let said = talk.ran(&call("open_document", "{}"), &Err("no such page".to_owned()));
    assert_eq!(
        value(&said.data())["text"],
        "open_document failed: no such page"
    );
}

/// A conversation asks one document many questions, so its text is read
/// once; four documents in, the first is let go of.
#[test]
fn page_text_is_kept_for_the_documents_last_asked_about() {
    let mut cache = PageText::default();
    let text = |word: &str| vec![word.to_owned()];

    assert!(cache.get("a").is_none());
    cache.put("a", text("alpha"));
    assert_eq!(cache.get("a"), Some(vec!["alpha".to_owned()]));

    for id in ["b", "c", "d"] {
        cache.put(id, text(id));
    }
    assert!(cache.get("a").is_some(), "four fit");

    // "a" was just read, so it is the newest; "b" is the one to go.
    cache.put("e", text("epsilon"));
    assert!(cache.get("b").is_none(), "the least recently used went");
    assert!(cache.get("a").is_some());
    assert!(cache.get("e").is_some());

    // Writing the same document twice does not fill the cache with it.
    cache.put("a", text("alpha again"));
    assert_eq!(cache.get("a"), Some(vec!["alpha again".to_owned()]));
    assert_eq!(cache.entries.len(), 4);
}

#[test]
fn what_cannot_be_asked_is_refused_before_anything_is_done() {
    assert_eq!(check_question(&Ask::default()).expect("blank").status, 400);
    let some = Ask {
        question: " why? ".to_owned(),
        ..Ask::default()
    };
    assert!(check_question(&some).is_none());

    let blank = vec![" ".to_owned(), "\n".to_owned()];
    let why = check_text("Scan", &blank).expect("nothing to read");
    assert!(why.contains("\u{201c}Scan\u{201d}"), "{why}");
    assert!(check_text("Book", &vec![" ".to_owned(), "x".to_owned()]).is_none());

    assert_eq!(cited(&vec![0, 4]), [1, 5]);
    assert_eq!(stages(false, false).len(), 0);
    assert_eq!(
        stages(true, true),
        [
            "Waiting for the model\u{2026}",
            "Asking the tool servers what they can do\u{2026}"
        ]
    );

    let turn = || ChatMessage::new(Role::User, "again?".to_owned());
    let mut log = ChatLog::default();
    assert!(check_chatlog(&log).is_none());
    for _ in 0..MAX_TRANSCRIPT {
        log.messages.push(turn());
    }
    assert!(check_chatlog(&log).is_none());
    log.messages.push(turn());
    assert_eq!(check_chatlog(&log).expect("too long").status, 413);
}

// ---------------------------------------------------------------------------
// The tools
// ---------------------------------------------------------------------------

fn rect(x0: i32, y0: i32, x1: i32, y1: i32) -> PdfRect {
    PdfRect::from_points(PdfPoint::new(x0, y0), PdfPoint::new(x1, y1))
}

#[test]
fn a_highlight_lands_exactly_where_the_words_are() {
    let id = "d".repeat(64);
    let wanted = rect(72_000, 700_000, 100_000, 712_000);
    let found = Found::new(&vec![wanted], 612_000, 792_000);
    let mut markup = empty_markup(2);
    let ids = draw(&mut markup, 1, &found, None);
    assert_eq!(ids, [1]);
    assert_eq!(markup.annotations.len(), 1);
    let drawn = &markup.annotations[0];
    assert_eq!(drawn.page, 0, "annotations count pages from zero");
    assert!(matches!(drawn.kind, AnnotationKind::Highlight));
    assert_eq!(drawn.rect, wanted);
    assert_eq!(drawn.style.fill.r, 250);
    assert_eq!(drawn.style.stroke.a, 0, "a highlight has no outline");
    assert_eq!(markup.pages.order.len(), 2, "the page order was seeded");

    let told = markup_changed(&id, 1, "\"tag\"");
    assert_eq!(
        told.text(),
        format!(r#"{{"action":"markup-changed","doc":"{id}","etag":"\"tag\"","page":1}}"#)
    );
    let marked = Marked {
        doc_id: &id,
        title: "Fox",
        page: 1,
        text: "quick",
        marks: 1,
        note_added: false,
        ids: &ids,
    };
    let answer = value(&highlighted(&marked, json("[]")));
    assert_eq!(answer["page"], 1);
    assert_eq!(answer["marks"], 1);
    assert_eq!(answer["note_added"], false);
    assert_eq!(answer["annotation_ids"][0], 1);
    assert_eq!(answer["highlighted"], "quick");
}

#[test]
fn words_that_are_not_there_leave_the_markup_alone() {
    let found = Found::new(&vec![rect(72_000, 700_000, 100_000, 712_000)], 612_000, 792_000);
    let nothing = Found::new(&Vec::new(), 612_000, 792_000);
    let mut wanted = Wanted {
        doc_id: "d",
        title: "Fox",
        page_count: 2,
        page: 9,
        text: "quick",
        note: Some("see"),
    };
    let mut markup = empty_markup(2);
    let past = highlight_text(&wanted, &found, json("[]"), &mut markup);
    assert!(past.err().expect("no page 9").contains("2 pages"));
    wanted.page = 1;
    let unsaid = highlight_text(&wanted, &nothing, json("[]"), &mut markup);
    assert!(unsaid.err().expect("not there").contains("does not say"));
    assert!(markup.annotations.is_empty());
    let told = highlight_text(&wanted, &found, json("[1]"), &mut markup)
        .ok()
        .expect("marked");
    assert_eq!(markup.annotations.len(), 2, "the mark and the note");
    let told = value(&told);
    assert_eq!(told["marks"], 1);
    assert_eq!(told["note_added"], true);
    assert_eq!(told["annotation_ids"][1], 2);
    assert_eq!(told["rects"][0], 1);
}

#[test]
fn marking_a_page_moves_the_version_tag_the_api_reports() {
    let found = Found::new(&vec![rect(72_000, 700_000, 100_000, 712_000)], 612_000, 792_000);
    let mut markup = empty_markup(2);
    draw(&mut markup, 1, &found, Some("worth reading"));
    // Two annotations, numbered without collision, and the note is one of
    // them: a highlight the reader can see and words beside it.
    assert_eq!(markup.annotations.len(), 2);
    let ids: Vec<u64> = markup.annotations.iter().map(|a| a.id).collect();
    assert_eq!(ids, [1, 2]);
    match &markup.annotations[1].kind {
        AnnotationKind::TextBox { text, .. } => assert_eq!(text, "worth reading"),
        _ => panic!("the note came back as something else"),
    }
    // The note sits beside the words, on the same page and inside it.
    let note = markup.annotations[1].rect;
    assert_eq!(markup.annotations[1].page, 0);
    assert!(note.min.x >= 0 && note.max.x <= 612_000);
    assert!(note.min.y >= 0 && note.max.y <= 792_000);

    // A second mark carries on numbering from where the first stopped.
    draw(&mut markup, 1, &found, None);
    assert_eq!(markup.annotations.len(), 3);
    assert_eq!(markup.annotations[2].id, 3);
    assert_ne!(etag(&b"before".to_vec()), etag(&b"after".to_vec()));
}

#[test]
fn a_note_sits_under_the_words_or_above_them() {
    // One line: 14.3 points and six of daylight.
    let under = note_box(rect(72_000, 700_000, 90_000, 712_000), "short", 612_000, 792_000);
    assert_eq!(under, rect(72_000, 675_700, 252_000, 696_000));
    let above = note_box(rect(600_000, 5_000, 610_000, 15_000), "short", 612_000, 792_000);
    assert_eq!(above, rect(432_000, 19_000, 612_000, 39_300));
}

#[test]
fn a_word_said_forty_times_is_not_marked_forty_times() {
    let many = vec![rect(0, 0, 1, 1); 40];
    assert_eq!(Found::new(&many, 100, 100).rects.len(), MAX_MARKS);
}

/// Opening a document is an event and nothing else: the browser does the
/// turning, so the tool's job is to be sure there is something to turn to.
#[test]
fn opening_a_document_tells_the_reader_which_page() {
    let id = "e".repeat(64);
    let (ui, said) = open_document(&id, "Manual", 2, 2);
    assert!(said.text().contains("\"page\":2"), "{}", said.text());
    let ui = value(&ui);
    assert_eq!(ui["action"], "open");
    assert_eq!(ui["doc"], id.as_str());
    assert_eq!(ui["page"], 2);

    // A page past the end is the last page, not a refusal: the model was
    // right about the document and only wrong about how long it is.
    let (_, said) = open_document(&id, "Manual", 99, 2);
    assert!(said.text().contains("\"page\":2"), "{}", said.text());
}

/// Every way a call can be wrong ends in a sentence the model can act on,
/// because a tool error is the model's problem to work around and not
/// something to fail the answer over.
#[test]
fn a_wrong_call_says_what_would_have_been_right() {
    let id = "f".repeat(64);
    let missing = request("highlight_text", &json(r#"{"page":1,"text":"quick"}"#))
        .expect_err("no document named");
    assert!(missing.contains("doc_id"), "{missing}");

    let bogus = request(
        "open_document",
        &json(r#"{"doc_id":"../../etc/passwd","page":1}"#),
    )
    .expect_err("not an id");
    assert!(bogus.contains("64 hexadecimal"), "{bogus}");

    let absent = no_document(&id);
    assert!(absent.contains("list_library"), "{absent}");

    let past_the_end = check_page("Fox", 9, 2).expect("no page 9");
    assert!(past_the_end.contains("2 pages"), "{past_the_end}");
    assert!(check_page("Fox", 2, 2).is_none());

    let unsaid = not_said("Fox", 1, "aardvark");
    assert!(unsaid.contains("get_document_text"), "{unsaid}");

    let unknown = request("delete_everything", &json("{}")).expect_err("no such tool");
    assert!(unknown.contains("no tool called"), "{unknown}");
    assert_eq!(unknown, unknown_tool("delete_everything"));

    let pageless = request(
        "highlight_text",
        &json(&format!(r#"{{"doc_id":"{id}","text":"quick"}}"#)),
    );
    assert!(pageless.expect_err("no page").contains("1-based page"));
    let zeroth = request(
        "highlight_text",
        &json(&format!(r#"{{"doc_id":"{id}","text":"quick","page":0}}"#)),
    );
    assert_eq!(zeroth.expect_err("no page 0"), "pages are numbered from 1");
}

#[test]
fn a_call_is_read_with_its_defaults() {
    let id = "f".repeat(64);
    assert!(matches!(
        request("list_library", &json("{}")),
        Ok(ToolRequest::ListLibrary)
    ));
    match request("search_library", &json(r#"{"query":" boiler "}"#)) {
        Ok(ToolRequest::SearchLibrary { query, limit }) => {
            assert_eq!(query, "boiler");
            assert_eq!(limit, 10);
        }
        other => panic!("{other:?}"),
    }
    let whole = format!(r#"{{"doc_id":"{id}","first_page":"2","last_page":3}}"#);
    match request("get_document_text", &json(&whole)) {
        Ok(ToolRequest::DocumentText { first, last, .. }) => {
            assert_eq!((first, last), (Some(2), Some(3)));
        }
        other => panic!("{other:?}"),
    }
    match request("open_document", &json(&format!(r#"{{"doc_id":"{id}","page":0}}"#))) {
        Ok(ToolRequest::OpenDocument { page, .. }) => assert_eq!(page, 1),
        other => panic!("{other:?}"),
    }
    let marked = format!(r#"{{"doc_id":"{id}","page":1,"text":"quick","note":" hm "}}"#);
    match request("highlight_text", &json(&marked)) {
        Ok(ToolRequest::HighlightText { page, text, note, .. }) => {
            assert_eq!((page, text.as_str(), note.as_deref()), (1, "quick", Some("hm")));
        }
        other => panic!("{other:?}"),
    }
}

/// The five tools are the contract with the model, and their descriptions
/// are the only instructions it gets about what evo can do.
#[test]
fn every_tool_is_offered_with_a_description_and_a_schema() {
    let tools = ServerTools::builtin();
    let mut names: Vec<&str> = tools.iter().map(|t| t.def.name.as_str()).collect();
    names.sort_unstable();
    assert_eq!(
        names,
        [
            "get_document_text",
            "highlight_text",
            "list_library",
            "open_document",
            "search_library",
        ]
    );
    for tool in &tools {
        assert_eq!(tool.server, EVO);
        assert_eq!(tool.tool, tool.def.name, "evo's own tools are unqualified");
        assert!(
            tool.def.description.len() > 40,
            "{} needs a description a model can act on",
            tool.def.name
        );
        assert_eq!(value(&tool.def.parameters)["type"], "object", "{}", tool.def.name);
        assert!(ServerTools::is_own(EVO, &tool.tool));
    }
    // The two arguments a model is most likely to get wrong are the ones
    // the schema has to be explicit about.
    let highlight = tools
        .iter()
        .find(|t| t.def.name == "highlight_text")
        .expect("highlight_text");
    let schema = highlight.def.parameters.text();
    assert!(schema.contains("1-based"), "{schema}");
    assert!(schema.contains("as they appear"), "{schema}");
}

/// Numbers arrive as numbers from one dialect and as strings from another,
/// and a page number that is quietly ignored is a highlight on the wrong
/// page.
#[test]
fn a_page_number_is_read_however_the_model_wrote_it() {
    assert_eq!(number_arg(&json(r#"{"page":3}"#), "page"), Some(3));
    assert_eq!(number_arg(&json(r#"{"page":"3"}"#), "page"), Some(3));
    assert_eq!(number_arg(&json(r#"{"page":" 3 "}"#), "page"), Some(3));
    assert_eq!(number_arg(&json(r#"{"page":"later"}"#), "page"), None);
    assert_eq!(number_arg(&json("{}"), "page"), None);
    assert_eq!(number_arg(&json(r#"{"page":null}"#), "page"), None);
    assert_eq!(text_arg(&json(r#"{"q":" a "}"#), "q").as_deref(), Ok("a"));
    assert!(text_arg(&json(r#"{"q":"  "}"#), "q").is_err());
    assert!(id_arg(&json("{}")).is_err());
}

/// A configured server's tools are offered beside evo's own, under names
/// that cannot collide with them.
#[test]
fn other_peoples_servers_are_merged_in_beside_evos_own() {
    let none = ServerTools { others: Vec::new() };
    assert_eq!(none.tools().len(), ServerTools::builtin().len());

    let mut theirs = tool("weather__today");
    theirs.server = "weather".to_owned();
    let all = ServerTools {
        others: vec![theirs],
    }
    .tools();
    assert_eq!(all.len(), ServerTools::builtin().len() + 1);
    assert_eq!(all.last().unwrap().server, "weather");

    // A server the operator called "evo" does not capture evo's own names:
    // an unqualified name that is not one of ours is somebody else's business.
    assert!(!ServerTools::is_own(EVO, "some_other_tool"));
    assert!(!ServerTools::is_own("weather", "list_library"));
}
