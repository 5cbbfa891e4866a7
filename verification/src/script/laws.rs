//! What holds of the conversation with a model as a whole.

use vstd::prelude::*;

use crate::json::{element, field, field_in, json_read, text_in, u64_in, JsonV};
use crate::script::model::{
    arguments_from, arguments_in, assembled, assembled_all, before, call_wire, def_wire, finished,
    in_order, law_calls_stay_in_order, lemma_before, line_chunk, messages_wire, models_in, named,
    ollama_chunk, ollama_wire, openai_chunk, openai_wire, replied, shown, turn_wire, url_on,
    whole_calls, Api, CallV, DefV, FragmentV, GenerateRequest, PendingV, TurnV,
};
use crate::text::trimmed;

verus! {

// ---------------------------------------------------------------------------
// Tool calls
// ---------------------------------------------------------------------------

/// The function an item of a list of calls names.
pub open spec fn function_named(item: JsonV) -> Option<Seq<char>> {
    text_in(field_in(field(item, "function"@), "name"@))
}

/// The call an item asks for, where it names a function.
pub open spec fn call_asked(item: JsonV) -> Option<CallV> {
    match function_named(item) {
        Some(name) if name.len() > 0 => Some(
            CallV {
                id: text_in(field(item, "id"@)),
                name,
                arguments: arguments_from(field_in(field(item, "function"@), "arguments"@)),
            },
        ),
        _ => None,
    }
}

/// The calls of a reply are the items that name a function, each read by
/// itself: none is left out, none is added, and they keep their order.
pub proof fn law_every_named_call_is_read(items: Seq<JsonV>)
    ensures
        whole_calls(items) == items.filter_map(|item: JsonV| call_asked(item)),
    decreases items.len(),
{
    if items.len() > 0 {
        law_every_named_call_is_read(items.drop_last());
        let f = |item: JsonV| call_asked(item);
        if let Some(call) = call_asked(items.last()) {
            assert(whole_calls(items) =~= items.drop_last().filter_map(f) + seq![call]);
        }
    }
}

/// Where every item names a function there are as many calls as items, and each
/// call has its own item's id, name and arguments.
pub proof fn law_calls_match_their_items(items: Seq<JsonV>)
    requires
        forall|i: int|
            0 <= i < items.len() ==> (function_named(#[trigger] items[i]) matches Some(name)
                && name.len() > 0),
    ensures
        whole_calls(items).len() == items.len(),
        forall|i: int|
            0 <= i < items.len() ==> {
                let call = #[trigger] whole_calls(items)[i];
                &&& Some(call.name) == function_named(items[i])
                &&& call.id == text_in(field(items[i], "id"@))
                &&& field_in(field(items[i], "function"@), "arguments"@) matches Some(
                    JsonV::Object(m),
                ) ==> call.arguments == JsonV::Object(m)
                &&& field_in(field(items[i], "function"@), "arguments"@) is None
                    ==> call.arguments == JsonV::Object(Map::empty())
            },
    decreases items.len(),
{
    if items.len() > 0 {
        let t = items.drop_last();
        assert forall|i: int| 0 <= i < t.len() implies (function_named(#[trigger] t[i]) matches Some(
            name,
        ) && name.len() > 0) by {
            assert(t[i] == items[i]);
        }
        law_calls_match_their_items(t);
        assert(items[items.len() - 1] == items.last());
        assert forall|i: int| 0 <= i < items.len() implies {
            let call = #[trigger] whole_calls(items)[i];
            &&& Some(call.name) == function_named(items[i])
            &&& call.id == text_in(field(items[i], "id"@))
            &&& field_in(field(items[i], "function"@), "arguments"@) matches Some(JsonV::Object(m))
                ==> call.arguments == JsonV::Object(m)
            &&& field_in(field(items[i], "function"@), "arguments"@) is None ==> call.arguments
                == JsonV::Object(Map::empty())
        } by {
            if i < t.len() {
                assert(whole_calls(items)[i] == whole_calls(t)[i]);
                assert(t[i] == items[i]);
            }
        }
    }
}

/// Lists of calls read one after the other are read as one list.
pub proof fn law_calls_are_read_in_order(a: Seq<JsonV>, b: Seq<JsonV>)
    ensures
        whole_calls(a + b) == whole_calls(a) + whole_calls(b),
    decreases b.len(),
{
    if b.len() == 0 {
        assert(a + b =~= a);
        assert(whole_calls(a) + whole_calls(b) =~= whole_calls(a));
    } else {
        law_calls_are_read_in_order(a, b.drop_last());
        assert((a + b).drop_last() =~= a + b.drop_last());
        assert((a + b).last() == b.last());
        assert(whole_calls(a + b) =~= whole_calls(a) + whole_calls(b));
    }
}

/// What a line of Ollama's says is what stands in it: the text of its message,
/// whether it is the last, and every call of its message.
pub proof fn law_an_ollama_line_is_read_whole(v: JsonV, message: JsonV)
    requires
        field(v, "message"@) == Some(message),
    ensures
        field(message, "content"@) matches Some(JsonV::Str(s)) ==> ollama_chunk(v).text == s,
        ollama_chunk(v).done <==> field(v, "done"@) == Some(JsonV::Bool(true)),
        field(message, "tool_calls"@) matches Some(JsonV::Array(items)) ==> ollama_chunk(
            v,
        ).tool_calls == items.filter_map(|item: JsonV| call_asked(item)),
        field(message, "tool_calls"@) is None ==> ollama_chunk(v).tool_calls.len() == 0,
        ollama_chunk(v).fragments.len() == 0,
{
    if let Some(JsonV::Array(items)) = field(message, "tool_calls"@) {
        law_every_named_call_is_read(items);
    }
}

/// What a line of OpenAI's says is what stands in its first choice: the text,
/// whether it is the last, and a piece for every piece of a call, each with the
/// number, id, name and arguments it came with.
pub proof fn law_an_openai_line_is_read_whole(v: JsonV, choice: JsonV, delta: JsonV)
    requires
        element(field(v, "choices"@), 0) == Some(choice),
        field(choice, "delta"@) == Some(delta),
    ensures
        field(delta, "content"@) matches Some(JsonV::Str(s)) ==> openai_chunk(v).text == s,
        !(field(delta, "content"@) matches Some(JsonV::Str(_))) ==> openai_chunk(v).text.len() == 0,
        openai_chunk(v).done <==> (field(choice, "finish_reason"@) matches Some(JsonV::Str(_))),
        openai_chunk(v).tool_calls.len() == 0,
        field(delta, "tool_calls"@) is None ==> openai_chunk(v).fragments.len() == 0,
        field(delta, "tool_calls"@) matches Some(JsonV::Array(items)) ==> {
            &&& openai_chunk(v).fragments.len() == items.len()
            &&& forall|i: int|
                0 <= i < items.len() ==> {
                    let f = #[trigger] openai_chunk(v).fragments[i];
                    let function = field(items[i], "function"@);
                    &&& field(items[i], "index"@) is None ==> f.index == i as usize
                    &&& u64_in(field(items[i], "index"@)) matches Some(n) ==> f.index == n as usize
                    &&& f.id == text_in(field(items[i], "id"@))
                    &&& f.name == text_in(field_in(function, "name"@))
                    &&& field_in(function, "arguments"@) matches Some(JsonV::Str(s))
                        ==> f.arguments == s
                    &&& field_in(function, "arguments"@) is None ==> f.arguments.len() == 0
                }
        },
{
}

/// A fragment goes to the call of its number and to no other: that call's name
/// and arguments grow by the fragment's, its id is the fragment's where it
/// brings one, and every other call is as it was.
pub proof fn law_a_fragment_goes_to_its_call(s: Seq<PendingV>, f: FragmentV)
    requires
        in_order(s),
    ensures
        exists|k: int|
            0 <= k < assembled(s, f).len() && (#[trigger] assembled(s, f)[k]).index == f.index,
        forall|k: int|
            0 <= k < assembled(s, f).len() && (#[trigger] assembled(s, f)[k]).index == f.index ==> {
                let call = assembled(s, f)[k];
                ||| exists|j: int|
                    #![trigger s[j]]
                    0 <= j < s.len() && s[j].index == f.index && call.arguments == s[j].arguments
                        + f.arguments && call.name == s[j].name + (match f.name {
                        Some(name) => name,
                        None => Seq::empty(),
                    }) && call.id == (match f.id {
                        Some(id) if id.len() > 0 => Some(id),
                        _ => s[j].id,
                    })
                ||| (forall|j: int| 0 <= j < s.len() ==> (#[trigger] s[j]).index != f.index)
                    && call.arguments == f.arguments && call.name == (match f.name {
                    Some(name) => name,
                    None => Seq::empty(),
                }) && call.id == (match f.id {
                    Some(id) if id.len() > 0 => Some(id),
                    _ => None,
                })
            },
        forall|j: int|
            0 <= j < s.len() && (#[trigger] s[j]).index != f.index ==> assembled(s, f).contains(
                s[j],
            ),
        forall|k: int|
            0 <= k < assembled(s, f).len() && (#[trigger] assembled(s, f)[k]).index != f.index
                ==> s.contains(assembled(s, f)[k]),
{
    let k = before(s, f.index);
    lemma_before(s, f.index);
    law_calls_stay_in_order(s, f);
    let r = assembled(s, f);
    let known = k < s.len() && s[k].index == f.index;
    assert(r[k].index == f.index);
    if !known {
        assert forall|j: int| 0 <= j < s.len() implies (#[trigger] s[j]).index != f.index by {
            if j >= k && k < s.len() {
                if j > k {
                    assert(s[k].index < s[j].index);
                }
            }
        }
    }
    assert forall|i: int| 0 <= i < r.len() && (#[trigger] r[i]).index == f.index implies i == k by {
        if i < k {
            assert(r[i].index < r[k].index);
        } else if k < i {
            assert(r[k].index < r[i].index);
        }
    }
    if known {
        let (old, new) = (s[k], r[k]);
        assert(new.arguments == old.arguments + f.arguments);
        if f.name is None {
            assert(old.name + Seq::<char>::empty() =~= old.name);
        }
    } else {
        assert(r[k].arguments =~= f.arguments);
        if let Some(name) = f.name {
            assert(r[k].name =~= name);
        } else {
            assert(r[k].name =~= Seq::empty());
        }
    }
    assert forall|j: int| 0 <= j < s.len() && (#[trigger] s[j]).index
        != f.index implies r.contains(s[j]) by {
        if known || j < k {
            assert(r[j] == s[j]);
        } else {
            assert(r[j + 1] == s[j]);
        }
    }
    assert forall|i: int| 0 <= i < r.len() && (#[trigger] r[i]).index
        != f.index implies s.contains(r[i]) by {
        if known || i < k {
            assert(r[i] == s[i]);
        } else {
            assert(r[i] == s[i - 1]);
        }
    }
}

/// The call a finished assembly comes to, where it has a name.
pub open spec fn call_finished(c: PendingV) -> Option<CallV> {
    if c.name.len() > 0 {
        Some(CallV { id: c.id, name: c.name, arguments: arguments_in(c.arguments) })
    } else {
        None
    }
}

/// Every assembled call that has a name is made, in the order of the calls'
/// numbers, and no other.
pub proof fn law_every_assembled_call_is_made(s: Seq<PendingV>)
    ensures
        finished(s) == s.filter_map(|c: PendingV| call_finished(c)),
    decreases s.len(),
{
    if s.len() > 0 {
        law_every_assembled_call_is_made(s.drop_last());
        let f = |c: PendingV| call_finished(c);
        if let Some(call) = call_finished(s.last()) {
            assert(finished(s) =~= s.drop_last().filter_map(f) + seq![call]);
        }
    }
}

// ---------------------------------------------------------------------------
// Replies
// ---------------------------------------------------------------------------

/// The text a line brings.
pub open spec fn text_brought(api: Api, line: Seq<char>) -> Seq<char> {
    match line_chunk(api, line) {
        Some(c) => c.text,
        None => Seq::empty(),
    }
}

/// The calls a line brings whole.
pub open spec fn calls_brought(api: Api, line: Seq<char>) -> Seq<CallV> {
    match line_chunk(api, line) {
        Some(c) => c.tool_calls,
        None => Seq::empty(),
    }
}

/// The pieces of calls a line brings.
pub open spec fn pieces_brought(api: Api, line: Seq<char>) -> Seq<FragmentV> {
    match line_chunk(api, line) {
        Some(c) => c.fragments,
        None => Seq::empty(),
    }
}

proof fn lemma_flatten_push<A>(s: Seq<Seq<A>>, last: Seq<A>)
    ensures
        s.push(last).flatten() == s.flatten() + last,
{
    s.push(last).lemma_flatten_and_flatten_alt_are_equivalent();
    s.lemma_flatten_and_flatten_alt_are_equivalent();
    assert(s.push(last).drop_last() =~= s);
}

proof fn lemma_assembled_all(s: Seq<PendingV>, a: Seq<FragmentV>, b: Seq<FragmentV>)
    ensures
        assembled_all(s, a + b) == assembled_all(assembled_all(s, a), b),
    decreases b.len(),
{
    if b.len() == 0 {
        assert(a + b =~= a);
    } else {
        lemma_assembled_all(s, a, b.drop_last());
        assert((a + b).drop_last() =~= a + b.drop_last());
        assert((a + b).last() == b.last());
    }
}

/// A reply holds everything its lines bring, in order: all of their text, all
/// of their calls, and every piece of a call, as long as none of them but the
/// last says that it is the last. A line that cannot be read brings nothing and
/// ends nothing.
pub proof fn law_a_reply_is_all_its_lines(api: Api, lines: Seq<Seq<char>>)
    requires
        forall|i: int|
            0 <= i < lines.len() - 1 ==> (line_chunk(api, #[trigger] lines[i]) matches Some(c)
                ==> !c.done),
    ensures
        replied(api, lines).text == lines.map_values(
            |l: Seq<char>| text_brought(api, l),
        ).flatten(),
        replied(api, lines).tool_calls == lines.map_values(
            |l: Seq<char>| calls_brought(api, l),
        ).flatten(),
        replied(api, lines).pending == assembled_all(
            Seq::empty(),
            lines.map_values(|l: Seq<char>| pieces_brought(api, l)).flatten(),
        ),
        shown(api, lines).flatten() == replied(api, lines).text,
        replied(api, lines).done <==> exists|i: int|
            #![trigger lines[i]]
            0 <= i < lines.len() && (line_chunk(api, lines[i]) matches Some(c) && c.done),
    decreases lines.len(),
{
    let texts = lines.map_values(|l: Seq<char>| text_brought(api, l));
    let whole = lines.map_values(|l: Seq<char>| calls_brought(api, l));
    let parts = lines.map_values(|l: Seq<char>| pieces_brought(api, l));
    if lines.len() == 0 {
        assert(texts.flatten() =~= Seq::empty());
        assert(whole.flatten() =~= Seq::empty());
        assert(parts.flatten() =~= Seq::empty());
    } else {
        let t = lines.drop_last();
        let last = lines.last();
        let n = lines.len() - 1;
        assert(lines[n] == last);
        assert forall|i: int| 0 <= i < t.len() implies (line_chunk(api, #[trigger] t[i]) matches Some(
            c,
        ) ==> !c.done) by {
            assert(t[i] == lines[i]);
        }
        law_a_reply_is_all_its_lines(api, t);
        let r = replied(api, t);
        assert(!r.done) by {
            if r.done {
                let i = choose|i: int|
                    #![trigger t[i]]
                    0 <= i < t.len() && (line_chunk(api, t[i]) matches Some(c) && c.done);
                assert(t[i] == lines[i]);
            }
        }
        let (a, b, c) = (
            t.map_values(|l: Seq<char>| text_brought(api, l)),
            t.map_values(|l: Seq<char>| calls_brought(api, l)),
            t.map_values(|l: Seq<char>| pieces_brought(api, l)),
        );
        assert(texts =~= a.push(text_brought(api, last)));
        assert(whole =~= b.push(calls_brought(api, last)));
        assert(parts =~= c.push(pieces_brought(api, last)));
        lemma_flatten_push(a, text_brought(api, last));
        lemma_flatten_push(b, calls_brought(api, last));
        lemma_flatten_push(c, pieces_brought(api, last));
        lemma_assembled_all(Seq::empty(), c.flatten(), pieces_brought(api, last));
        lemma_flatten_push(shown(api, t), text_brought(api, last));
        let now = replied(api, lines);
        if line_chunk(api, last) is None {
            assert(r.text + Seq::<char>::empty() =~= r.text);
            assert(r.tool_calls + Seq::<CallV>::empty() =~= r.tool_calls);
        } else if text_brought(api, last).len() == 0 {
            assert(r.text + text_brought(api, last) =~= r.text);
        }
        if now.done {
            assert(line_chunk(api, lines[n]) matches Some(c) && c.done);
        }
        if exists|i: int|
            #![trigger lines[i]]
            0 <= i < lines.len() && (line_chunk(api, lines[i]) matches Some(c) && c.done) {
            let i = choose|i: int|
                #![trigger lines[i]]
                0 <= i < lines.len() && (line_chunk(api, lines[i]) matches Some(c) && c.done);
            assert(i == n);
        }
    }
}

// ---------------------------------------------------------------------------
// Requests
// ---------------------------------------------------------------------------

/// The conversation that is sent holds everything that was said, in order: the
/// system prompt first, where there is one, every earlier turn, and the prompt
/// last, where there is one.
pub proof fn law_the_whole_conversation_is_sent(req: GenerateRequest, api: Api)
    ensures
        ({
            let sent = messages_wire(req, api);
            let first: int = if req.system is Some {
                1
            } else {
                0
            };
            let last: int = if req.prompt@.len() > 0 {
                1
            } else {
                0
            };
            &&& sent.len() == first + req.history@.len() + last
            &&& req.system matches Some(s) ==> field(sent[0], "role"@) == Some(
                JsonV::Str("system"@),
            ) && field(sent[0], "content"@) == Some(JsonV::Str(s@))
            &&& req.prompt@.len() > 0 ==> field(sent.last(), "role"@) == Some(JsonV::Str("user"@))
                && field(sent.last(), "content"@) == Some(JsonV::Str(req.prompt@))
            &&& forall|i: int|
                0 <= i < req.history@.len() ==> sent[first + i] == turn_wire(
                    (#[trigger] req.history@[i])@,
                    api,
                )
        }),
{
    reveal_strlit("role");
    reveal_strlit("content");
    assert("role"@.len() != "content"@.len());
}

/// A turn is sent as what it was: its role, its words, every call it made, and
/// for the result of a call the call it answers.
pub proof fn law_a_turn_is_sent_whole(t: TurnV, api: Api)
    ensures
        field(turn_wire(t, api), "role"@) == Some(JsonV::Str(t.role.name())),
        field(turn_wire(t, api), "content"@) == Some(JsonV::Str(t.content)),
        t.tool_calls.len() == 0 ==> field(turn_wire(t, api), "tool_calls"@) is None,
        t.tool_calls.len() > 0 ==> (field(turn_wire(t, api), "tool_calls"@) matches Some(
            JsonV::Array(sent),
        ) && sent.len() == t.tool_calls.len() && forall|i: int|
            0 <= i < sent.len() ==> #[trigger] sent[i] == call_wire(t.tool_calls[i], api)),
        t.role is Tool && api is OpenAiCompatible ==> (t.tool_call_id matches Some(id) ==> field(
            turn_wire(t, api),
            "tool_call_id"@,
        ) == Some(JsonV::Str(id))),
        t.role is Tool && !(api is OpenAiCompatible) ==> (t.name matches Some(name) ==> field(
            turn_wire(t, api),
            "tool_name"@,
        ) == Some(JsonV::Str(name))),
        !(t.role is Tool) ==> field(turn_wire(t, api), "tool_call_id"@) is None && field(
            turn_wire(t, api),
            "tool_name"@,
        ) is None,
{
    reveal_strlit("role");
    reveal_strlit("content");
    reveal_strlit("tool_calls");
    reveal_strlit("tool_call_id");
    reveal_strlit("tool_name");
    assert("role"@.len() != "content"@.len());
    assert("role"@.len() != "tool_calls"@.len());
    assert("role"@.len() != "tool_call_id"@.len());
    assert("role"@.len() != "tool_name"@.len());
    assert("content"@.len() != "tool_calls"@.len());
    assert("content"@.len() != "tool_call_id"@.len());
    assert("content"@.len() != "tool_name"@.len());
    assert("tool_calls"@.len() != "tool_call_id"@.len());
    assert("tool_calls"@.len() != "tool_name"@.len());
    assert("tool_call_id"@.len() != "tool_name"@.len());
}

/// A call is sent with its name and its arguments, and where the dialect
/// numbers calls, with its id.
pub proof fn law_a_call_is_sent_whole(c: CallV, api: Api)
    ensures
        field_in(field(call_wire(c, api), "function"@), "name"@) == Some(JsonV::Str(c.name)),
        !(api is OpenAiCompatible) ==> field_in(
            field(call_wire(c, api), "function"@),
            "arguments"@,
        ) == Some(c.arguments),
        api is OpenAiCompatible ==> field_in(field(call_wire(c, api), "function"@), "arguments"@)
            == Some(JsonV::Str(crate::json::json_written(c.arguments))),
        api is OpenAiCompatible ==> (c.id matches Some(id) ==> field(call_wire(c, api), "id"@)
            == Some(JsonV::Str(id))),
{
    reveal_strlit("name");
    reveal_strlit("arguments");
    reveal_strlit("id");
    reveal_strlit("type");
    reveal_strlit("function");
    assert("name"@.len() != "arguments"@.len());
    assert("name"@.len() != "id"@.len());
    assert("name"@[0] != "type"@[0]);
    assert("name"@.len() != "function"@.len());
    assert("arguments"@.len() != "id"@.len());
    assert("arguments"@.len() != "type"@.len());
    assert("arguments"@.len() != "function"@.len());
    assert("id"@.len() != "type"@.len());
    assert("id"@.len() != "function"@.len());
    assert("type"@.len() != "function"@.len());
}

/// A call in Ollama's dialect that is sent back is read as the call it was,
/// but for its id, which that dialect has none of.
pub proof fn law_a_call_comes_back(c: CallV, api: Api)
    requires
        api is Ollama,
        c.name.len() > 0,
        c.arguments is Object,
    ensures
        call_asked(call_wire(c, api)) == Some(CallV { id: None, ..c }),
{
    reveal_strlit("name");
    reveal_strlit("arguments");
    reveal_strlit("id");
    reveal_strlit("function");
    assert("name"@.len() != "arguments"@.len());
    assert("name"@.len() != "id"@.len());
    assert("name"@.len() != "function"@.len());
    assert("arguments"@.len() != "id"@.len());
    assert("arguments"@.len() != "function"@.len());
    assert("id"@.len() != "function"@.len());
}

/// A request to Ollama names its model, asks for a stream, and carries the
/// conversation, every tool, and the options that were set and no others.
pub proof fn law_an_ollama_request_is_complete(req: GenerateRequest)
    ensures
        ({
            let sent = ollama_wire(req);
            let options = field(sent, "options"@);
            &&& field(sent, "model"@) == Some(JsonV::Str(req.model@))
            &&& field(sent, "stream"@) == Some(JsonV::Bool(true))
            &&& field(sent, "messages"@) == Some(JsonV::Array(messages_wire(req, Api::Ollama)))
            &&& req.temperature matches Some(t) ==> field_in(options, "temperature"@) == Some(
                JsonV::Number(t),
            )
            &&& req.temperature is None ==> field_in(options, "temperature"@) is None
            &&& req.max_tokens matches Some(n) ==> field_in(options, "num_predict"@) == Some(
                JsonV::Number(crate::json::whole(n as u64)),
            )
            &&& req.max_tokens is None ==> field_in(options, "num_predict"@) is None
            &&& req.tools@.len() == 0 ==> field(sent, "tools"@) is None
            &&& req.tools@.len() > 0 ==> (field(sent, "tools"@) matches Some(JsonV::Array(tools))
                && tools.len() == req.tools@.len() && forall|i: int|
                0 <= i < tools.len() ==> #[trigger] tools[i] == def_wire(req.tools@[i]@))
        }),
{
    reveal_strlit("model");
    reveal_strlit("messages");
    reveal_strlit("stream");
    reveal_strlit("options");
    reveal_strlit("tools");
    reveal_strlit("temperature");
    reveal_strlit("num_predict");
    assert("model"@.len() != "messages"@.len());
    assert("model"@.len() != "stream"@.len());
    assert("model"@.len() != "options"@.len());
    assert("model"@[0] != "tools"@[0]);
    assert("model"@.len() != "temperature"@.len());
    assert("model"@.len() != "num_predict"@.len());
    assert("messages"@.len() != "stream"@.len());
    assert("messages"@.len() != "options"@.len());
    assert("messages"@.len() != "tools"@.len());
    assert("messages"@.len() != "temperature"@.len());
    assert("messages"@.len() != "num_predict"@.len());
    assert("stream"@.len() != "options"@.len());
    assert("stream"@.len() != "tools"@.len());
    assert("stream"@.len() != "temperature"@.len());
    assert("stream"@.len() != "num_predict"@.len());
    assert("options"@.len() != "tools"@.len());
    assert("options"@.len() != "temperature"@.len());
    assert("options"@.len() != "num_predict"@.len());
    assert("tools"@.len() != "temperature"@.len());
    assert("tools"@.len() != "num_predict"@.len());
    assert("temperature"@[0] != "num_predict"@[0]);
}

/// And so does one to an OpenAI-compatible server.
pub proof fn law_an_openai_request_is_complete(req: GenerateRequest)
    ensures
        ({
            let sent = openai_wire(req);
            &&& field(sent, "model"@) == Some(JsonV::Str(req.model@))
            &&& field(sent, "stream"@) == Some(JsonV::Bool(true))
            &&& field(sent, "messages"@) == Some(
                JsonV::Array(messages_wire(req, Api::OpenAiCompatible)),
            )
            &&& req.temperature matches Some(t) ==> field(sent, "temperature"@) == Some(
                JsonV::Number(t),
            )
            &&& req.temperature is None ==> field(sent, "temperature"@) is None
            &&& req.max_tokens matches Some(n) ==> field(sent, "max_tokens"@) == Some(
                JsonV::Number(crate::json::whole(n as u64)),
            )
            &&& req.max_tokens is None ==> field(sent, "max_tokens"@) is None
            &&& req.tools@.len() == 0 ==> field(sent, "tools"@) is None
            &&& req.tools@.len() > 0 ==> (field(sent, "tools"@) matches Some(JsonV::Array(tools))
                && tools.len() == req.tools@.len() && forall|i: int|
                0 <= i < tools.len() ==> #[trigger] tools[i] == def_wire(req.tools@[i]@))
        }),
{
    reveal_strlit("model");
    reveal_strlit("messages");
    reveal_strlit("stream");
    reveal_strlit("tools");
    reveal_strlit("temperature");
    reveal_strlit("max_tokens");
    reveal_strlit("tool_choice");
    assert("model"@.len() != "messages"@.len());
    assert("model"@.len() != "stream"@.len());
    assert("model"@[0] != "tools"@[0]);
    assert("model"@.len() != "temperature"@.len());
    assert("model"@.len() != "max_tokens"@.len());
    assert("model"@.len() != "tool_choice"@.len());
    assert("messages"@.len() != "stream"@.len());
    assert("messages"@.len() != "tools"@.len());
    assert("messages"@.len() != "temperature"@.len());
    assert("messages"@.len() != "max_tokens"@.len());
    assert("messages"@.len() != "tool_choice"@.len());
    assert("stream"@.len() != "tools"@.len());
    assert("stream"@.len() != "temperature"@.len());
    assert("stream"@.len() != "max_tokens"@.len());
    assert("stream"@.len() != "tool_choice"@.len());
    assert("tools"@.len() != "temperature"@.len());
    assert("tools"@.len() != "max_tokens"@.len());
    assert("tools"@.len() != "tool_choice"@.len());
    assert("temperature"@.len() != "max_tokens"@.len());
    assert("temperature"@[1] != "tool_choice"@[1]);
    assert("max_tokens"@.len() != "tool_choice"@.len());
}

/// A tool is offered by its name, what it is for, and what it takes.
pub proof fn law_a_tool_is_offered_whole(d: DefV)
    ensures
        field_in(field(def_wire(d), "function"@), "name"@) == Some(JsonV::Str(d.name)),
        field_in(field(def_wire(d), "function"@), "description"@) == Some(
            JsonV::Str(d.description),
        ),
        field_in(field(def_wire(d), "function"@), "parameters"@) == Some(d.parameters),
        field(def_wire(d), "type"@) == Some(JsonV::Str("function"@)),
{
    reveal_strlit("name");
    reveal_strlit("description");
    reveal_strlit("parameters");
    reveal_strlit("type");
    reveal_strlit("function");
    assert("name"@.len() != "description"@.len());
    assert("name"@.len() != "parameters"@.len());
    assert("name"@[0] != "type"@[0]);
    assert("name"@.len() != "function"@.len());
    assert("description"@.len() != "parameters"@.len());
    assert("description"@.len() != "type"@.len());
    assert("description"@.len() != "function"@.len());
    assert("parameters"@.len() != "type"@.len());
    assert("parameters"@.len() != "function"@.len());
    assert("type"@.len() != "function"@.len());
}

/// The models a server has are all those it names, in its order.
pub proof fn law_every_model_is_listed(v: JsonV, items: Seq<JsonV>)
    ensures
        field(v, "models"@) == Some(JsonV::Array(items)) ==> models_in(Api::Ollama, v)
            == items.filter_map(|item: JsonV| text_in(field(item, "name"@))),
        field(v, "data"@) == Some(JsonV::Array(items)) ==> models_in(Api::OpenAiCompatible, v)
            == items.filter_map(|item: JsonV| text_in(field(item, "id"@))),
        models_in(Api::Builtin, v).len() == 0,
{
    lemma_named(items, "name"@);
    lemma_named(items, "id"@);
}

proof fn lemma_named(items: Seq<JsonV>, name: Seq<char>)
    ensures
        named(items, name) == items.filter_map(|item: JsonV| text_in(field(item, name))),
    decreases items.len(),
{
    if items.len() > 0 {
        lemma_named(items.drop_last(), name);
        let f = |item: JsonV| text_in(field(item, name));
        if let Some(s) = f(items.last()) {
            assert(named(items, name) =~= items.drop_last().filter_map(f) + seq![s]);
        }
    }
}

/// Arguments that are an object are that object, and those that are its text
/// are what the text spells; anything else is no arguments at all.
pub proof fn law_arguments_are_an_object(m: Map<Seq<char>, JsonV>, text: Seq<char>, other: JsonV)
    ensures
        arguments_from(Some(JsonV::Object(m))) == JsonV::Object(m),
        trimmed(text).len() > 0 && json_read(trimmed(text)) == Some(JsonV::Object(m))
            ==> arguments_from(Some(JsonV::Str(text))) == JsonV::Object(m),
        json_read(trimmed(text)) is None ==> arguments_from(
            Some(JsonV::Str(text)),
        ) == JsonV::Object(Map::empty()),
        arguments_from(None) == JsonV::Object(Map::empty()),
        !(other is Object) && !(other is Str) ==> arguments_from(Some(other))
            == JsonV::Object(Map::empty()),
{
}

/// A path on a server is the server and the path with one slash between them,
/// however many the server was written with.
pub proof fn law_one_slash_joins_a_url(base: Seq<char>, path: Seq<char>)
    ensures
        base.len() > 0 && base.last() != '/' ==> url_on(base, path) == base
            + seq!['/'] + path,
        url_on(base.push('/'), path) == url_on(
            base,
            path,
        ),
{
    reveal_strlit("/");
    assert("/"@ =~= seq!['/']);
    assert(base.push('/').drop_last() =~= base);
}

} // verus!
