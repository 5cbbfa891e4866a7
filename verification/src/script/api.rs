//! What the `evo` table scripts see says and does, and the limits around a run.

use vstd::prelude::*;
use vstd::string::StringSliceAdditionalSpecFns;

use crate::script::docgen::{has_unrepresentable_chars, representable};
use crate::script::model::{GenerateRequest};
use crate::script::{DocSnapshot, GeneratedDoc};
use crate::text::{
    contains, decimal, decimal_of, find, from_chars, holds, position_from, texts, to_chars, trim,
    trimmed, words, words_of,
};

verus! {

/// A tight loop with no function calls would otherwise never yield to the
/// cancel check.
pub const HOOK_INSTRUCTIONS: u32 = 200_000;

pub const MEMORY_LIMIT: usize = 268_435_456;

/// What in Lua's base library reads any file the user can. Leaving the
/// input-output library out does not remove these, so they are taken away by
/// name.
pub fn removed_globals() -> (r: [&'static str; 2])
    ensures
        r@[0]@ == "dofile"@,
        r@[1]@ == "loadfile"@,
{
    ["dofile", "loadfile"]
}

/// Why a run has to stop now, asked every so many instructions.
pub fn interrupt(cancelled: bool, late: bool) -> (r: Option<&'static str>)
    ensures
        match r {
            Some(why) => if cancelled {
                why@ == "cancelled"@
            } else {
                late && why@
                    == "the script ran past its time limit (Preferences \u{25b8} Scripting)"@
            },
            None => !cancelled && !late,
        },
{
    if cancelled {
        Some("cancelled")
    } else if late {
        Some("the script ran past its time limit (Preferences \u{25b8} Scripting)")
    } else {
        None
    }
}

/// What an error says, without the noise.
pub open spec fn useful_part(text: Seq<char>) -> Seq<char> {
    if holds(text, "cancelled"@) {
        "cancelled"@
    } else {
        match find(text, "stack traceback"@) {
            Some(at) => trimmed(text.take(at)),
            None => text,
        }
    }
}

/// Lua's own error text is noisy (chunk names, stack traces). Keep the useful
/// part, and don't dress a cancellation up as a failure.
pub fn describe_error(text: &str) -> (r: String)
    ensures
        r@ == useful_part(text@),
{
    if contains(text, "cancelled") {
        return "cancelled".to_owned();
    }
    let v: Vec<char> = to_chars(text);
    let p: Vec<char> = to_chars("stack traceback");
    match position_from(&v, &p, 0) {
        Some(at) => {
            proof {
                crate::text::lemma_find_range(v@, p@, 0);
                assert(v@.subrange(0, at as int) =~= text@.take(at as int));
            }
            trim(from_chars(&v, 0, at).as_str())
        },
        None => text.to_owned(),
    }
}

/// `s` with `between` between its elements.
pub open spec fn joined(s: Seq<Seq<char>>, between: Seq<char>) -> Seq<char>
    decreases s.len(),
{
    if s.len() == 0 {
        Seq::empty()
    } else if s.len() == 1 {
        s[0]
    } else {
        joined(s.drop_last(), between) + between + s.last()
    }
}

/// `v` with `between` between its elements.
pub fn join(v: &Vec<String>, between: &str) -> (r: String)
    ensures
        r@ == joined(texts(v@), between@),
{
    let ghost all = texts(v@);
    let mut r: String = String::new();
    let mut i: usize = 0;
    proof {
        assert(all.take(0) =~= Seq::empty());
        assert(r@ =~= Seq::empty());
    }
    while i < v.len()
        invariant
            i <= v@.len(),
            all == texts(v@),
            r@ == joined(all.take(i as int), between@),
        decreases v@.len() - i,
    {
        proof {
            assert(all.take(i + 1).drop_last() =~= all.take(i as int));
            assert(all.take(i + 1).last() == v@[i as int]@);
        }
        if i > 0 {
            r.append(between);
            r.append(v[i].as_str());
        } else {
            r.append(v[i].as_str());
            proof {
                assert(r@ =~= v@[0]@);
                assert(all.take(1)[0] == v@[0]@);
            }
        }
        i += 1;
    }
    proof {
        assert(all.take(i as int) =~= all);
    }
    r
}

/// The text of page `page`, counted from one, or of the whole document.
pub open spec fn text_of_page(pages: Seq<Seq<char>>, page: Option<usize>) -> Result<
    Seq<char>,
    Seq<char>,
> {
    match page {
        None => Ok(joined(pages, "\n\n"@)),
        Some(n) => if 1 <= n <= pages.len() {
            Ok(pages[n - 1])
        } else {
            Err(
                "page "@ + decimal(n as nat) + " is out of range (the document has "@ + decimal(
                    pages.len(),
                ) + ")"@,
            )
        },
    }
}

/// `evo.doc.text()` for the whole document, `evo.doc.text(n)` for one page,
/// 1-based to match Lua's own indexing.
pub fn page_text(pages: &Vec<String>, page: Option<usize>) -> (r: Result<String, String>)
    ensures
        match r {
            Ok(s) => text_of_page(texts(pages@), page) == Ok::<Seq<char>, Seq<char>>(s@),
            Err(s) => text_of_page(texts(pages@), page) == Err::<Seq<char>, Seq<char>>(s@),
        },
{
    match page {
        None => Ok(join(pages, "\n\n")),
        Some(n) => if n >= 1 && n <= pages.len() {
            proof {
                assert(texts(pages@)[n - 1] == pages@[n - 1]@);
            }
            Ok(pages[n - 1].clone())
        } else {
            let mut why: String = "page ".to_owned();
            why.append(decimal_of(n as u64).as_str());
            why.append(" is out of range (the document has ");
            why.append(decimal_of(pages.len() as u64).as_str());
            why.append(")");
            Err(why)
        },
    }
}

/// What one run has to work with, and what it has made so far.
pub struct RunCtx {
    pub doc: Option<DocSnapshot>,
    pub generated: Vec<GeneratedDoc>,
}

/// What is logged of a document that was made.
pub open spec fn made_line(title: Seq<char>, bytes: nat) -> Seq<char> {
    "Generated \""@ + title + "\" ("@ + decimal(bytes) + " bytes)."@
}

impl RunCtx {
    pub fn new(doc: Option<DocSnapshot>) -> (r: Self)
        ensures
            r.doc == doc,
            r.generated@.len() == 0,
    {
        RunCtx { doc, generated: Vec::new() }
    }

    /// `evo.doc.title()`: nothing where no document is open.
    pub fn title(&self) -> (r: String)
        ensures
            r@ == (match self.doc {
                Some(d) => d.title@,
                None => Seq::empty(),
            }),
    {
        match &self.doc {
            Some(d) => d.title.clone(),
            None => {
                let r: String = String::new();
                proof {
                    assert(r@ =~= Seq::empty());
                }
                r
            },
        }
    }

    /// `evo.doc.page_count()`
    pub fn page_count(&self) -> (r: usize)
        ensures
            r == (match self.doc {
                Some(d) => d.page_count,
                None => 0,
            }),
    {
        match &self.doc {
            Some(d) => d.page_count,
            None => 0,
        }
    }

    /// `evo.doc.is_open()`
    pub fn is_open(&self) -> (r: bool)
        ensures
            r == (self.doc is Some),
    {
        self.doc.is_some()
    }

    /// A document was made: what to log of it.
    pub fn made(&mut self, title: String, bytes: Vec<u8>) -> (line: String)
        ensures
            line@ == made_line(title@, bytes@.len()),
            final(self).doc == old(self).doc,
            final(self).generated@ == old(self).generated@.push((GeneratedDoc { title, bytes })),
    {
        let mut line: String = "Generated \"".to_owned();
        line.append(title.as_str());
        line.append("\" (");
        line.append(decimal_of(bytes.len() as u64).as_str());
        line.append(" bytes).");
        self.generated.push(GeneratedDoc { title, bytes });
        line
    }
}

/// What to tell the user before a document is made from `text`, if anything.
pub fn font_note(text: &str) -> (r: Option<&'static str>)
    ensures
        match r {
            Some(note) => note@
                == "Note: some characters aren't in the built-in font and will appear as '?'."@
                && exists|i: int| 0 <= i < text@.len() && !representable(#[trigger] text@[i]),
            None => forall|i: int| 0 <= i < text@.len() ==> representable(#[trigger] text@[i]),
        },
{
    if has_unrepresentable_chars(text) {
        Some("Note: some characters aren't in the built-in font and will appear as '?'.")
    } else {
        None
    }
}

/// What a script asked of the model besides its prompt.
pub struct Options {
    pub model: String,
    pub system: Option<String>,
    pub temperature: Option<serde_json::Number>,
    pub max_tokens: Option<u32>,
}

/// The model a backend speaks for, from what it says of itself: its first word.
pub open spec fn first_word(describe: Seq<char>) -> Seq<char> {
    let all = words_of(describe);
    if all.len() > 0 {
        all[0]
    } else {
        Seq::empty()
    }
}

impl Options {
    /// What was asked for, with the backend's own model where none was named.
    pub fn read(
        model: Option<String>,
        system: Option<String>,
        temperature: Option<serde_json::Number>,
        max_tokens: Option<u32>,
        describe: &str,
    ) -> (r: Self)
        ensures
            r.model@ == (match model {
                Some(m) => m@,
                None => first_word(describe@),
            }),
            r.system == system,
            r.temperature == temperature,
            r.max_tokens == max_tokens,
    {
        let model: String = match model {
            Some(m) => m,
            None => {
                let all: Vec<String> = words(describe);
                if all.len() > 0 {
                    proof {
                        assert(texts(all@)[0] == all@[0]@);
                    }
                    all[0].clone()
                } else {
                    let r: String = String::new();
                    proof {
                        assert(r@ =~= Seq::empty());
                    }
                    r
                }
            },
        };
        Options { model, system, temperature, max_tokens }
    }

    /// The request for this prompt.
    pub fn request(self, prompt: String) -> (r: GenerateRequest)
        ensures
            r.model == self.model,
            r.prompt == prompt,
            r.system == self.system,
            r.history@.len() == 0,
            r.tools@.len() == 0,
            r.temperature == self.temperature,
            r.max_tokens == self.max_tokens,
    {
        GenerateRequest {
            model: self.model,
            prompt,
            system: self.system,
            history: Vec::new(),
            tools: Vec::new(),
            temperature: self.temperature,
            max_tokens: self.max_tokens,
        }
    }
}

/// What is logged as a run begins.
pub fn model_line(describe: &str) -> (r: String)
    ensures
        r@ == "Model: "@ + describe@,
{
    let mut r: String = "Model: ".to_owned();
    r.append(describe);
    r
}

/// What is logged before the model is asked: how long the prompt is, in bytes.
pub fn asking_line(prompt: &str) -> (r: String)
    ensures
        r@ == "Generating ("@ + decimal((prompt.spec_bytes().len() as usize) as nat)
            + " chars of prompt)\u{2026}"@,
{
    let mut r: String = "Generating (".to_owned();
    r.append(decimal_of(prompt.len() as u64).as_str());
    r.append(" chars of prompt)\u{2026}");
    r
}

/// What is logged when the model has answered: how long it is, in bytes.
pub fn answered_line(text: &str) -> (r: String)
    ensures
        r@ == "Model returned "@ + decimal((text.spec_bytes().len() as usize) as nat)
            + " characters."@,
{
    let mut r: String = "Model returned ".to_owned();
    r.append(decimal_of(text.len() as u64).as_str());
    r.append(" characters.");
    r
}

/// The text of one page is what is on that page, counting from one, and no
/// other number has a text.
pub proof fn law_a_page_is_its_own_text(pages: Seq<Seq<char>>, i: int, n: usize)
    ensures
        0 <= i < pages.len() && n == i + 1 ==> text_of_page(pages, Some(n)) == Ok::<
            Seq<char>,
            Seq<char>,
        >(pages[i]),
        n == 0 || n > pages.len() ==> text_of_page(pages, Some(n)) is Err,
{
}

/// The text of the whole document is that of every page, in order, with an
/// empty line between one and the next.
pub proof fn law_the_whole_text_is_every_page(pages: Seq<Seq<char>>, page: Seq<char>)
    ensures
        text_of_page(seq![page], None) == Ok::<Seq<char>, Seq<char>>(page),
        pages.len() > 0 ==> (text_of_page(pages, None) matches Ok(before) && text_of_page(
            pages.push(page),
            None,
        ) == Ok::<Seq<char>, Seq<char>>(before + seq!['\n', '\n'] + page)),
{
    reveal_strlit("\n\n");
    assert("\n\n"@ =~= seq!['\n', '\n']);
    assert(pages.push(page).drop_last() =~= pages);
    assert(joined(seq![page], "\n\n"@) == page);
}

/// What an error says is what stands before its trace, without the space
/// around it; without a trace it is all of it.
pub proof fn law_a_trace_is_cut_off(before: Seq<char>, after: Seq<char>)
    requires
        ({
            let text = before + "stack traceback"@ + after;
            &&& !holds(text, "cancelled"@)
            &&& forall|k: int|
                0 <= k < before.len() ==> #[trigger] text.subrange(k, k + 15) != "stack traceback"@
        }),
    ensures
        useful_part(before + "stack traceback"@ + after) == trimmed(before),
{
    reveal_strlit("stack traceback");
    let p = "stack traceback"@;
    let text = before + p + after;
    let n = before.len() as int;
    crate::text::law_find_finds_the_first(text, p, 0);
    assert(text.subrange(n, n + 15) =~= p);
    match find(text, p) {
        Some(at) => {
            if at < n {
                assert(text.subrange(at, at + 15) == p);
            }
            assert(text.take(n) =~= before);
        },
        None => {},
    }
}

/// An error that nobody cancelled and that has no trace is told as it is.
pub proof fn law_an_error_is_told_as_it_is(text: Seq<char>)
    requires
        !holds(text, "cancelled"@),
        !holds(text, "stack traceback"@),
    ensures
        useful_part(text) == text,
{
}

/// A backend speaks for the model it names first.
pub proof fn law_the_first_word_names_the_model(name: Seq<char>, rest: Seq<char>)
    requires
        name.len() > 0,
        crate::text::none_white(name),
        rest.len() > 0 ==> crate::text::white_space(rest[0]),
    ensures
        first_word(name + rest) == name,
{
    crate::text::law_a_run_is_one_word(name);
    if rest.len() > 0 {
        crate::text::law_white_space_parts_words(name, rest);
        assert((seq![name] + words_of(rest))[0] == name);
    } else {
        assert(name + rest =~= name);
    }
}

} // verus!
