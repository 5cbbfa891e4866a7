//! Scripts: run one over the open document, have a local model write something
//! from it, and get the result back as a new document.
//!
//! A script is handed a snapshot of the document and hands back finished
//! documents; whoever started it does the importing.
pub mod api;
pub mod docgen;
pub mod laws;
pub mod model;

use vstd::prelude::*;

use crate::script::model::ModelConfig;
use crate::text::{decimal, decimal_of, ends, ends_with, texts, to_chars};

verus! {

/// Scripting preferences, persisted with the rest.
pub struct ScriptPrefs {
    pub model: ModelConfig,
    /// Wall-clock ceiling for one run.
    pub deadline_secs: u64,
}

pub fn default_deadline() -> (r: u64)
    ensures
        r == 300,
{
    300
}

impl ScriptPrefs {
    /// The preferences evo starts with.
    pub fn starting(model: ModelConfig) -> (r: Self)
        ensures
            r.model == model,
            r.deadline_secs == 300,
    {
        ScriptPrefs { model, deadline_secs: default_deadline() }
    }

    /// How long a run may take: never less than a second.
    pub fn time_limit(&self) -> (r: u64)
        ensures
            r == if self.deadline_secs < 1 {
                1
            } else {
                self.deadline_secs as int
            },
    {
        if self.deadline_secs < 1 {
            1
        } else {
            self.deadline_secs
        }
    }
}

/// What the script may know about the open document.
pub struct DocSnapshot {
    pub title: String,
    pub source: Vec<u8>,
    pub page_count: usize,
}

/// A document a script produced, waiting to be imported.
pub struct GeneratedDoc {
    pub title: String,
    pub bytes: Vec<u8>,
}

/// How a run ended: the documents it made, or why it failed.
pub type Outcome = Result<Vec<GeneratedDoc>, String>;

pub struct ScriptStatus {
    /// Name of the running script, if any.
    pub running: Option<String>,
    pub log: Vec<String>,
    /// Set once when a run ends.
    pub outcome: Option<Outcome>,
}

/// A runaway script logging in a loop shouldn't grow without bound.
pub const MAX_LINES: usize = 500;

/// The log with one line more. The tail is what's kept: the end of a run is the
/// interesting part.
pub open spec fn logged(log: Seq<Seq<char>>, line: Seq<char>) -> Seq<Seq<char>> {
    let all = log.push(line);
    if all.len() > MAX_LINES {
        all.skip(all.len() - MAX_LINES)
    } else {
        all
    }
}

/// What is logged when a run ends.
pub open spec fn closing_line(outcome: Outcome) -> Seq<char> {
    match outcome {
        Ok(docs) => "Finished: "@ + decimal(docs@.len()) + " document"@ + (if docs@.len() == 1 {
            ""@
        } else {
            "s"@
        }) + " generated."@,
        Err(e) => "Failed: "@ + e@,
    }
}

impl Default for ScriptStatus {
    fn default() -> (r: Self)
        ensures
            r.running is None,
            texts(r.log@) == Seq::<Seq<char>>::empty(),
            r.outcome is None,
    {
        let r: ScriptStatus = ScriptStatus { running: None, log: Vec::new(), outcome: None };
        proof {
            assert(texts(r.log@) =~= Seq::<Seq<char>>::empty());
        }
        r
    }
}

impl ScriptStatus {
    /// Add a line to the log.
    pub fn log(&mut self, line: String)
        ensures
            texts(final(self).log@) == logged(texts(old(self).log@), line@),
            final(self).running == old(self).running,
            final(self).outcome == old(self).outcome,
    {
        let ghost all = texts(self.log@).push(line@);
        proof {
            assert(texts(self.log@.push(line)) =~= all);
        }
        self.log.push(line);
        proof {
            assert(all.skip(0) =~= all);
        }
        while self.log.len() > MAX_LINES
            invariant
                self.running == old(self).running,
                self.outcome == old(self).outcome,
                self.log@.len() <= all.len(),
                all.len() > MAX_LINES ==> self.log@.len() >= MAX_LINES,
                all.len() <= MAX_LINES ==> self.log@.len() == all.len(),
                texts(self.log@) == all.skip(all.len() - self.log@.len()),
            decreases self.log@.len(),
        {
            let ghost before = self.log@;
            let _oldest: String = self.log.remove(0);
            proof {
                assert(self.log@ =~= before.remove(0));
                assert(texts(self.log@) =~= texts(before).skip(1));
                assert(all.skip(all.len() - before.len()).skip(1) =~= all.skip(
                    all.len() - self.log@.len(),
                ));
            }
        }
        proof {
            if all.len() <= MAX_LINES {
                assert(all.skip(0) =~= all);
            }
        }
    }

    /// A run begins: what the last one left is cleared away.
    pub fn begin(&mut self, name: String)
        ensures
            final(self).running == Some(name),
            texts(final(self).log@) == Seq::<Seq<char>>::empty(),
            final(self).outcome is None,
    {
        self.running = Some(name);
        self.log = Vec::new();
        self.outcome = None;
        proof {
            assert(texts(self.log@) =~= Seq::<Seq<char>>::empty());
        }
    }

    /// The script has reached the front of the queue.
    pub fn started(&mut self, name: &str)
        ensures
            texts(final(self).log@) == logged(
                texts(old(self).log@),
                "Running "@ + name@ + "\u{2026}"@,
            ),
            final(self).running == old(self).running,
            final(self).outcome == old(self).outcome,
    {
        let mut line: String = "Running ".to_owned();
        line.append(name);
        line.append("\u{2026}");
        self.log(line);
    }

    /// A run ends.
    pub fn finish(&mut self, outcome: Outcome)
        ensures
            texts(final(self).log@) == logged(texts(old(self).log@), closing_line(outcome)),
            final(self).running is None,
            final(self).outcome == Some(outcome),
    {
        let line: String = match &outcome {
            Ok(docs) => {
                let mut line: String = "Finished: ".to_owned();
                line.append(decimal_of(docs.len() as u64).as_str());
                line.append(" document");
                line.append(
                    if docs.len() == 1 {
                        ""
                    } else {
                        "s"
                    },
                );
                line.append(" generated.");
                line
            },
            Err(e) => {
                let mut line: String = "Failed: ".to_owned();
                line.append(e.as_str());
                line
            },
        };
        self.log(line);
        self.running = None;
        self.outcome = Some(outcome);
    }

    /// Take the finished run's result, if one is waiting.
    pub fn take_outcome(&mut self) -> (r: Option<Outcome>)
        ensures
            r == old(self).outcome,
            final(self).outcome is None,
            final(self).running == old(self).running,
            final(self).log == old(self).log,
    {
        self.outcome.take()
    }
}

/// One script at a time: what it is doing, and whether it was asked to stop.
pub struct ScriptEngine {
    pub status: ScriptStatus,
    pub cancel: bool,
}

impl ScriptEngine {
    pub fn new() -> (r: Self)
        ensures
            r.status.running is None,
            texts(r.status.log@) == Seq::<Seq<char>>::empty(),
            r.status.outcome is None,
            !r.cancel,
    {
        ScriptEngine { status: ScriptStatus::default(), cancel: false }
    }

    /// A run begins: a request to stop an earlier one does not carry over.
    pub fn run(&mut self, name: String)
        ensures
            !final(self).cancel,
            final(self).status.running == Some(name),
            texts(final(self).status.log@) == Seq::<Seq<char>>::empty(),
            final(self).status.outcome is None,
    {
        self.cancel = false;
        self.status.begin(name);
    }

    pub fn cancel(&mut self)
        ensures
            final(self).cancel,
            final(self).status == old(self).status,
    {
        self.cancel = true;
    }

    pub fn is_running(&self) -> (r: bool)
        ensures
            r == (self.status.running is Some),
    {
        self.status.running.is_some()
    }

    pub fn with_status(&self) -> (r: &ScriptStatus)
        ensures
            *r == self.status,
    {
        &self.status
    }

    /// Take the finished run's result, if one is waiting.
    pub fn take_outcome(&mut self) -> (r: Option<Outcome>)
        ensures
            r == old(self).status.outcome,
            final(self).status.outcome is None,
            final(self).status.running == old(self).status.running,
            final(self).status.log == old(self).status.log,
            final(self).cancel == old(self).cancel,
    {
        self.status.take_outcome()
    }
}

// ---------------------------------------------------------------------------
// The scripts folder
// ---------------------------------------------------------------------------

/// Whether a file of this name is a script: its extension is `lua`, and a name
/// that is nothing but `.lua` has no extension.
pub open spec fn is_script_name(name: Seq<char>) -> bool {
    name.len() > 4 && ends(name, ".lua"@)
}

pub fn is_script(name: &str) -> (r: bool)
    ensures
        r == is_script_name(name@),
{
    to_chars(name).len() > 4 && ends_with(name, ".lua")
}

/// Whether the shipped examples are to be written into a folder with these
/// files: only where it has no script at all, so that an edited example is not
/// overwritten and a deleted one stays gone.
pub fn wants_examples(names: &Vec<String>) -> (r: bool)
    ensures
        r == forall|i: int| 0 <= i < names@.len() ==> !is_script_name((#[trigger] names@[i])@),
{
    let mut i: usize = 0;
    while i < names.len()
        invariant
            i <= names@.len(),
            forall|j: int| 0 <= j < i ==> !is_script_name((#[trigger] names@[j])@),
        decreases names@.len() - i,
    {
        if is_script(names[i].as_str()) {
            return false;
        }
        i += 1;
    }
    true
}

/// Whether `a` comes no later than `b`, character by character.
pub open spec fn no_later(a: Seq<char>, b: Seq<char>) -> bool
    decreases a.len(),
{
    if a.len() == 0 {
        true
    } else if b.len() == 0 {
        false
    } else if a[0] != b[0] {
        (a[0] as int) < b[0] as int
    } else {
        no_later(a.drop_first(), b.drop_first())
    }
}

proof fn lemma_no_later_total(a: Seq<char>, b: Seq<char>)
    ensures
        no_later(a, b) || no_later(b, a),
    decreases a.len(),
{
    if a.len() > 0 && b.len() > 0 && a[0] == b[0] {
        lemma_no_later_total(a.drop_first(), b.drop_first());
    }
}

proof fn lemma_no_later_carries(a: Seq<char>, b: Seq<char>, c: Seq<char>)
    requires
        no_later(a, b),
        no_later(b, c),
    ensures
        no_later(a, c),
    decreases a.len(),
{
    if a.len() > 0 && b.len() > 0 && c.len() > 0 && a[0] == b[0] && b[0] == c[0] {
        lemma_no_later_carries(a.drop_first(), b.drop_first(), c.drop_first());
    }
}

/// Two names that come no later than each other are the same: a list in order
/// has one order.
pub proof fn law_order_is_settled(a: Seq<char>, b: Seq<char>)
    requires
        no_later(a, b),
        no_later(b, a),
    ensures
        a == b,
    decreases a.len(),
{
    if a.len() > 0 && b.len() > 0 {
        law_order_is_settled(a.drop_first(), b.drop_first());
        assert(a =~= seq![a[0]] + a.drop_first());
        assert(b =~= seq![b[0]] + b.drop_first());
    } else {
        assert(a =~= b);
    }
}

/// Whether names are in order.
pub open spec fn in_name_order(s: Seq<Seq<char>>) -> bool {
    forall|i: int, j: int| 0 <= i <= j < s.len() ==> no_later(#[trigger] s[i], #[trigger] s[j])
}

/// The scripts among these names.
pub open spec fn scripts_among(names: Seq<Seq<char>>) -> Seq<Seq<char>>
    decreases names.len(),
{
    if names.len() == 0 {
        Seq::empty()
    } else {
        let before = scripts_among(names.drop_last());
        if is_script_name(names.last()) {
            before.push(names.last())
        } else {
            before
        }
    }
}

fn comes_no_later(a: &str, b: &str) -> (r: bool)
    ensures
        r == no_later(a@, b@),
{
    let x: Vec<char> = to_chars(a);
    let y: Vec<char> = to_chars(b);
    let mut i: usize = 0;
    proof {
        assert(x@.skip(0) =~= x@);
        assert(y@.skip(0) =~= y@);
    }
    while i < x.len()
        invariant
            i <= x@.len(),
            i <= y@.len(),
            no_later(a@, b@) == no_later(x@.skip(i as int), y@.skip(i as int)),
        decreases x@.len() - i,
    {
        if i == y.len() {
            return false;
        }
        proof {
            assert(x@.skip(i as int).drop_first() =~= x@.skip(i + 1));
            assert(y@.skip(i as int).drop_first() =~= y@.skip(i + 1));
        }
        if x[i] != y[i] {
            return x[i] < y[i];
        }
        i += 1;
    }
    true
}

/// Put `name` where it belongs among names in order.
fn put_in_order(names: &mut Vec<String>, name: String)
    requires
        in_name_order(texts(old(names)@)),
    ensures
        in_name_order(texts(final(names)@)),
        texts(final(names)@).to_multiset() == texts(old(names)@).to_multiset().insert(name@),
{
    let ghost before = texts(names@);
    let mut k: usize = names.len();
    while k > 0 && !comes_no_later(names[k - 1].as_str(), name.as_str())
        invariant
            k <= names@.len(),
            before == texts(names@),
            forall|j: int| k <= j < names@.len() ==> !no_later((#[trigger] names@[j])@, name@),
        decreases k,
    {
        k -= 1;
    }
    let ghost word = name@;
    proof {
        assert forall|j: int| k <= j < before.len() implies no_later(word, #[trigger] before[j]) by {
            assert(before[j] == names@[j]@);
            lemma_no_later_total(before[j], word);
        }
        assert forall|j: int| 0 <= j < k implies no_later(#[trigger] before[j], word) by {
            assert(before[k - 1] == names@[k - 1]@);
            lemma_no_later_carries(before[j], before[k - 1], word);
        }
        lemma_no_later_total(word, word);
    }
    names.insert(k, name);
    proof {
        let after = texts(names@);
        assert(after =~= before.insert(k as int, word));
        assert forall|i: int, j: int| 0 <= i <= j < after.len() implies no_later(
            #[trigger] after[i],
            #[trigger] after[j],
        ) by {
            let oi = if i < k { i } else { i - 1 };
            let oj = if j < k { j } else { j - 1 };
            if i != k {
                assert(after[i] == before[oi]);
            }
            if j != k {
                assert(after[j] == before[oj]);
            }
            if i != k && j != k {
                assert(no_later(before[oi], before[oj]));
            }
        }
        vstd::seq_lib::to_multiset_insert(before, k as int, word);
    }
}

/// The `.lua` files among the names in a folder, sorted by name.
pub fn list_scripts(names: &Vec<String>) -> (r: Vec<String>)
    ensures
        in_name_order(texts(r@)),
        texts(r@).to_multiset() == scripts_among(texts(names@)).to_multiset(),
{
    let ghost all = texts(names@);
    let mut r: Vec<String> = Vec::new();
    let mut i: usize = 0;
    proof {
        assert(all.take(0) =~= Seq::empty());
        assert(texts(r@) =~= Seq::empty());
    }
    while i < names.len()
        invariant
            i <= names@.len(),
            all == texts(names@),
            in_name_order(texts(r@)),
            texts(r@).to_multiset() == scripts_among(all.take(i as int)).to_multiset(),
        decreases names@.len() - i,
    {
        proof {
            assert(all.take(i + 1).drop_last() =~= all.take(i as int));
            assert(all.take(i + 1).last() == names@[i as int]@);
        }
        if is_script(names[i].as_str()) {
            proof {
                vstd::seq_lib::to_multiset_build(
                    scripts_among(all.take(i as int)),
                    names@[i as int]@,
                );
            }
            put_in_order(&mut r, names[i].clone());
        }
        i += 1;
    }
    proof {
        assert(all.take(i as int) =~= all);
    }
    r
}

/// The log ends with the line just written, and before it come the lines that
/// came before it, the latest first to be kept: five hundred in all.
pub proof fn law_the_end_of_a_log_is_kept(log: Seq<Seq<char>>, line: Seq<char>, back: int)
    requires
        log.len() <= 500,
    ensures
        logged(log, line).len() == (if log.len() < 500 {
            log.len() + 1
        } else {
            500
        }),
        logged(log, line).last() == line,
        1 <= back < logged(log, line).len() ==> logged(log, line)[logged(log, line).len() - 1 - back]
            == log[log.len() - back],
{
}

/// A script is a file with a name that ends in `.lua`, and with something
/// before that.
pub proof fn law_a_script_is_a_lua_file(stem: Seq<char>, name: Seq<char>)
    ensures
        is_script_name(stem + seq!['.', 'l', 'u', 'a']) <==> stem.len() > 0,
        is_script_name(name) ==> name.len() > 4 && name.skip(name.len() - 4) == seq![
            '.',
            'l',
            'u',
            'a',
        ],
{
    reveal_strlit(".lua");
    assert(".lua"@ =~= seq!['.', 'l', 'u', 'a']);
    let whole = stem + seq!['.', 'l', 'u', 'a'];
    assert(whole.skip(whole.len() - 4) =~= ".lua"@);
}

/// Every script of a folder is listed, as often as it is there, and nothing
/// else.
pub proof fn law_every_script_is_listed(names: Seq<Seq<char>>)
    ensures
        scripts_among(names) == names.filter(|n: Seq<char>| is_script_name(n)),
    decreases names.len(),
{
    reveal(Seq::filter);
    if names.len() > 0 {
        law_every_script_is_listed(names.drop_last());
    } else {
        assert(scripts_among(names) =~= names.filter(|n: Seq<char>| is_script_name(n)));
    }
}

/// Whether `a` and `b` are alike up to `k`, where `a` ends or has the smaller
/// character.
pub open spec fn parts_at(a: Seq<char>, b: Seq<char>, k: int) -> bool {
    &&& 0 <= k <= a.len() && k <= b.len()
    &&& forall|i: int| 0 <= i < k ==> a[i] == b[i]
    &&& k == a.len() || (k < b.len() && (a[k] as int) < (b[k] as int))
}

/// Names are in order by the first character in which they differ, and a name
/// comes before what it is the beginning of.
pub proof fn law_names_are_told_apart_by_their_first_difference(a: Seq<char>, b: Seq<char>)
    ensures
        no_later(a, b) <==> exists|k: int| parts_at(a, b, k),
    decreases a.len(),
{
    if a.len() == 0 {
        assert(parts_at(a, b, 0));
    } else if b.len() > 0 {
        let (s, t) = (a.drop_first(), b.drop_first());
        law_names_are_told_apart_by_their_first_difference(s, t);
        if a[0] != b[0] {
            if (a[0] as int) < (b[0] as int) {
                assert(parts_at(a, b, 0));
            }
            assert forall|k: int| parts_at(a, b, k) implies k == 0 by {
                if k > 0 {
                    assert(a[0] == b[0]);
                }
            }
        } else {
            if exists|k: int| parts_at(s, t, k) {
                let k = choose|k: int| parts_at(s, t, k);
                assert forall|i: int| 0 <= i < k + 1 implies a[i] == b[i] by {
                    if i > 0 {
                        assert(s[i - 1] == t[i - 1]);
                    }
                }
                assert(parts_at(a, b, k + 1));
            }
            if exists|k: int| parts_at(a, b, k) {
                let k = choose|k: int| parts_at(a, b, k);
                assert(k > 0);
                assert forall|i: int| 0 <= i < k - 1 implies s[i] == t[i] by {
                    assert(a[i + 1] == b[i + 1]);
                }
                assert(parts_at(s, t, k - 1));
            }
        }
    }
}

} // verus!
