//! Scripts: the log, the folder, the documents they make, and what they are
//! told.

use evo::metrics::width_of;
use evo::script::api::{
    answered_line, asking_line, describe_error, font_note, interrupt, join, model_line, page_text,
    removed_globals, Options, RunCtx, HOOK_INSTRUCTIONS, MEMORY_LIMIT,
};
use evo::script::docgen::{
    body_lines, encoded, has_unrepresentable_chars, layout, rows_per_page, title_block_height,
    wrap_text, BODY_SIZE, LEADING, MARGIN, PAGE_H, PAGE_W, TITLE_SIZE, USABLE,
};
use evo::script::model::ModelConfig;
use evo::script::{
    default_deadline, is_script, list_scripts, wants_examples, DocSnapshot, GeneratedDoc,
    ScriptEngine, ScriptPrefs, ScriptStatus, MAX_LINES,
};

fn texts(lines: &[&str]) -> Vec<String> {
    lines.iter().map(|s| s.to_string()).collect()
}

#[test]
fn the_log_does_not_grow_without_bound() {
    let mut status = ScriptStatus::default();
    for i in 0..2000 {
        status.log(format!("line {i}"));
    }
    assert!(status.log.len() <= 500);
    // The tail is what's kept: the end of a run is the interesting part.
    assert_eq!(status.log.last().unwrap(), "line 1999");
    assert_eq!(status.log.len(), MAX_LINES);
    assert_eq!(status.log[0], "line 1500");
}

#[test]
fn a_run_begins_afresh_and_ends_with_an_outcome() {
    let mut engine = ScriptEngine::new();
    assert!(!engine.is_running());
    engine.cancel();
    assert!(engine.cancel);
    engine.run("summarize.lua".to_owned());
    assert!(engine.is_running());
    assert!(!engine.cancel, "an earlier request to stop does not carry over");
    engine.status.started("summarize.lua");
    assert_eq!(
        engine.with_status().log,
        ["Running summarize.lua\u{2026}"]
    );
    assert!(engine.take_outcome().is_none());
    engine.status.finish(Ok(vec![GeneratedDoc {
        title: "Out".to_owned(),
        bytes: vec![1, 2, 3],
    }]));
    assert!(!engine.is_running());
    assert_eq!(
        engine.with_status().log.last().unwrap(),
        "Finished: 1 document generated."
    );
    let docs = engine.take_outcome().expect("waiting").ok().expect("it worked");
    assert_eq!(docs.len(), 1);
    assert!(engine.take_outcome().is_none(), "it is taken once");

    engine.run("outline.lua".to_owned());
    assert!(engine.with_status().log.is_empty());
    engine.status.finish(Err("no such page".to_owned()));
    assert_eq!(
        engine.with_status().log.last().unwrap(),
        "Failed: no such page"
    );
    engine.run("outline.lua".to_owned());
    engine.status.finish(Ok(Vec::new()));
    assert_eq!(
        engine.with_status().log.last().unwrap(),
        "Finished: 0 documents generated."
    );
}

#[test]
fn a_run_is_given_a_second_at_least() {
    let mut prefs = ScriptPrefs::starting(ModelConfig::starting("m".to_owned()));
    assert_eq!(prefs.deadline_secs, default_deadline());
    assert_eq!(prefs.time_limit(), 300);
    prefs.deadline_secs = 0;
    assert_eq!(prefs.time_limit(), 1);
}

#[test]
fn only_lua_files_are_listed() {
    let names = list_scripts(&texts(&["b.lua", "a.lua", "notes.txt"]));
    assert_eq!(names, ["a.lua", "b.lua"]);
    assert!(is_script("x.lua"));
    assert!(!is_script(".lua"), "a name with nothing before the dot");
    assert!(!is_script("lua"));
    let accents = list_scripts(&texts(&["\u{e9}.lua", "z.lua", "Z.lua", "za.lua"]));
    assert_eq!(accents, ["Z.lua", "z.lua", "za.lua", "\u{e9}.lua"]);
}

#[test]
fn listing_a_missing_directory_is_empty_rather_than_an_error() {
    assert!(list_scripts(&Vec::new()).is_empty());
}

#[test]
fn examples_are_written_once_then_left_alone() {
    assert!(wants_examples(&Vec::new()));
    assert!(wants_examples(&texts(&["notes.txt"])));
    // An edited example is not overwritten, and a deleted one stays gone.
    assert!(!wants_examples(&texts(&["summarize.lua"])));
}

// ---------------------------------------------------------------------------
// What a script is told
// ---------------------------------------------------------------------------

fn snapshot() -> DocSnapshot {
    DocSnapshot {
        title: "Test Document".to_owned(),
        source: vec![1, 2, 3],
        page_count: 1,
    }
}

#[test]
fn with_nothing_open_the_document_api_is_empty_rather_than_an_error() {
    let run = RunCtx::new(None);
    assert_eq!(run.title(), "");
    assert_eq!(run.page_count(), 0);
    assert!(!run.is_open());
    assert_eq!(page_text(&Vec::new(), None).as_deref(), Ok(""));
}

#[test]
fn the_script_reads_the_open_documents_text() {
    let run = RunCtx::new(Some(snapshot()));
    assert_eq!(run.title(), "Test Document");
    assert_eq!(run.page_count(), 1);
    assert!(run.is_open());
    let pages = texts(&["Alpha beta gamma.", "Delta."]);
    assert_eq!(
        page_text(&pages, None).as_deref(),
        Ok("Alpha beta gamma.\n\nDelta.")
    );
    assert_eq!(page_text(&pages, Some(2)).as_deref(), Ok("Delta."));
    assert_eq!(join(&texts(&["a", "b", "c"]), ", "), "a, b, c");
}

#[test]
fn asking_for_a_page_that_does_not_exist_is_an_error_the_script_can_see() {
    let err = page_text(&texts(&["Alpha."]), Some(99)).expect_err("should fail");
    assert!(err.contains("out of range"), "{err}");
    assert_eq!(err, "page 99 is out of range (the document has 1)");
    assert!(page_text(&texts(&["Alpha."]), Some(0)).is_err());
}

#[test]
fn a_run_that_has_to_stop_says_why() {
    assert_eq!(interrupt(false, false), None);
    assert_eq!(interrupt(true, true), Some("cancelled"));
    let why = interrupt(false, true).expect("should time out");
    assert!(why.contains("time limit"), "{why}");
    assert_eq!(removed_globals(), ["dofile", "loadfile"]);
    assert_eq!(HOOK_INSTRUCTIONS, 200_000);
    assert_eq!(MEMORY_LIMIT, 256 * 1024 * 1024);
}

#[test]
fn a_syntax_error_is_reported_without_a_stack_traceback() {
    let noisy = "syntax error: [string \"x\"]:1: near 'is'\nstack traceback:\n\t[C]: in ?";
    let err = describe_error(noisy);
    assert!(!err.contains("stack traceback"), "{err}");
    assert_eq!(err, "syntax error: [string \"x\"]:1: near 'is'");
    assert_eq!(describe_error("runtime error: cancelled\nstack traceback: x"), "cancelled");
    assert_eq!(describe_error("plain"), "plain");
}

#[test]
fn several_documents_can_come_out_of_one_run() {
    let mut run = RunCtx::new(None);
    for i in 1..=3 {
        let line = run.made(format!("Doc {i}"), vec![0; i]);
        assert_eq!(line, format!("Generated \"Doc {i}\" ({i} bytes)."));
    }
    assert_eq!(run.generated.len(), 3);
    assert_eq!(run.generated[2].title, "Doc 3");
}

#[test]
fn generation_options_reach_the_request() {
    let cold = serde_json::Number::from_f64(0.2);
    let asked = Options::read(
        Some("other".to_owned()),
        Some("s".to_owned()),
        cold.clone(),
        Some(32),
        "mock-model (test)",
    )
    .request("p".to_owned());
    assert_eq!(asked.model, "other");
    assert_eq!(asked.prompt, "p");
    assert_eq!(asked.system.as_deref(), Some("s"));
    assert_eq!(asked.temperature, cold);
    assert_eq!(asked.max_tokens, Some(32));
    // Where none is named, the backend's own.
    let plain = Options::read(None, None, None, None, "mock-model (test)");
    assert_eq!(plain.model, "mock-model");
    assert_eq!(Options::read(None, None, None, None, "  ").model, "");

    assert_eq!(model_line("mock"), "Model: mock");
    assert_eq!(asking_line("caf\u{e9}"), "Generating (5 chars of prompt)\u{2026}");
    assert_eq!(answered_line("four"), "Model returned 4 characters.");
}

// ---------------------------------------------------------------------------
// Documents
// ---------------------------------------------------------------------------

fn width(text: &str, size: u32) -> u128 {
    let chars: Vec<char> = text.chars().collect();
    width_of(&chars, 0, chars.len(), size)
}

#[test]
fn a_short_text_is_one_page_with_its_title_on_top() {
    let pages = layout("Summary", "Hello there.\n\nSecond paragraph.");
    assert_eq!(pages.len(), 1);
    let lines: Vec<(&str, i64, i128, u32)> = pages[0]
        .iter()
        .map(|l| (l.text.as_str(), l.x, l.y, l.size))
        .collect();
    assert_eq!(
        lines,
        [
            ("Summary", 54_000, 715_900, 17_000),
            ("Hello there.", 54_000, 686_400, 11_000),
            ("Second paragraph.", 54_000, 655_400, 11_000),
        ]
    );
    assert_eq!((PAGE_W, PAGE_H, MARGIN), (612_000, 792_000, 54_000));
}

#[test]
fn long_text_runs_onto_further_pages() {
    let body = (1..=400)
        .map(|i| format!("Line number {i} of the generated document."))
        .collect::<Vec<_>>()
        .join("\n");
    let pages = layout("Long", &body);
    assert!(pages.len() > 1, "expected several pages");
    let all: Vec<&str> = pages.iter().flatten().map(|l| l.text.as_str()).collect();
    assert_eq!(all.len(), 401, "the title and every line");
    assert_eq!(all[400], "Line number 400 of the generated document.");
    for page in &pages {
        for line in page {
            assert!(line.y >= MARGIN as i128, "below the margin: {line:?}");
        }
    }
}

#[test]
fn empty_text_still_produces_a_readable_page() {
    let pages = layout("Nothing", "");
    assert_eq!(pages.len(), 1);
    assert_eq!(pages[0].len(), 1);
}

#[test]
fn a_very_long_word_does_not_hang_the_wrapper() {
    let pages = layout("Wide", &"x".repeat(5000));
    assert!(!pages.is_empty());
    let drawn: usize = pages.iter().flatten().map(|l| l.text.len()).sum();
    assert_eq!(drawn, 5000 + 4, "no letter is lost");
}

#[test]
fn wrapped_lines_stay_inside_the_margins() {
    let text = "The quick brown fox jumps over the lazy dog, repeatedly and \
                at considerable length, until the line must wrap.";
    let lines = wrap_text(text, BODY_SIZE, USABLE);
    assert!(lines.len() > 1);
    for line in &lines {
        assert!(width(line, BODY_SIZE) <= USABLE as u128, "line too wide: {line:?}");
    }
    assert_eq!(lines.join(" "), text);
    assert!(wrap_text("", TITLE_SIZE, USABLE).is_empty());
}

#[test]
fn deliberate_breaks_survive() {
    assert_eq!(
        body_lines("- one\n- two\n\n\n\nend"),
        ["- one", "- two", "", "", "end"]
    );
    assert_eq!(body_lines(" a \n\n"), ["a", ""]);
    assert_eq!(body_lines("a\n \nb"), ["a", "", "b"]);
}

#[test]
fn a_page_holds_as_many_rows_as_fit() {
    assert_eq!(title_block_height("Short"), 36_100);
    assert_eq!(rows_per_page((PAGE_H - 2 * MARGIN) as i128), 40);
    assert_eq!(rows_per_page(0), 1);
    assert_eq!(LEADING, 15_500);
}

#[test]
fn characters_outside_the_font_are_flagged() {
    assert!(!has_unrepresentable_chars("plain ascii and café"));
    assert!(has_unrepresentable_chars("emoji 🙂"));
    assert!(has_unrepresentable_chars("日本語"));
    assert!(font_note("plain").is_none());
    assert!(font_note("日").expect("a note").contains("'?'"));
    assert_eq!(encoded("caf\u{e9} 日"), b"caf\xe9 ?");
}
