//! JSON values as the library holds them, and `serde_json` at either end.

use vstd::prelude::*;

use crate::text::same;

verus! {

/// `serde_json`'s own value, read and written but not looked into.
#[verifier::external_type_specification]
#[verifier::external_body]
pub struct ExValue(serde_json::Value);

/// `serde_json`'s number, which keeps apart what `u64` and floats can hold.
#[verifier::external_type_specification]
#[verifier::external_body]
pub struct ExNumber(serde_json::Number);

/// A JSON value. An object's members may be in any order; where a name comes
/// twice, the later one counts.
pub enum Json {
    Null,
    Bool(bool),
    Number(serde_json::Number),
    Str(String),
    Array(Vec<Json>),
    Object(Vec<(String, Json)>),
}

/// A JSON value as a mathematical value.
#[verifier::ext_equal]
pub enum JsonV {
    Null,
    Bool(bool),
    Number(serde_json::Number),
    Str(Seq<char>),
    Array(Seq<JsonV>),
    Object(Map<Seq<char>, JsonV>),
}

impl Json {
    pub open spec fn view(&self) -> JsonV
        decreases self,
    {
        match self {
            Json::Null => JsonV::Null,
            Json::Bool(b) => JsonV::Bool(*b),
            Json::Number(n) => JsonV::Number(*n),
            Json::Str(s) => JsonV::Str(s@),
            Json::Array(v) => JsonV::Array(
                Seq::new(
                    v@.len(),
                    |i: int|
                        if 0 <= i < v@.len() {
                            v@[i].view()
                        } else {
                            JsonV::Null
                        },
                ),
            ),
            Json::Object(v) => JsonV::Object(members(v@)),
        }
    }
}

/// The members of an object by name.
pub open spec fn members(v: Seq<(String, Json)>) -> Map<Seq<char>, JsonV>
    decreases v,
{
    if v.len() == 0 {
        Map::empty()
    } else {
        members(v.drop_last()).insert(v.last().0@, v.last().1.view())
    }
}

/// The values of a list.
pub open spec fn values(v: Seq<Json>) -> Seq<JsonV> {
    v.map_values(|j: Json| j.view())
}

pub proof fn lemma_array_view(v: Vec<Json>)
    ensures
        Json::Array(v).view() == JsonV::Array(values(v@)),
{
    match Json::Array(v).view() {
        JsonV::Array(s) => {
            assert(s =~= values(v@));
        },
        _ => {},
    }
}

// ---------------------------------------------------------------------------
// `serde_json`
// ---------------------------------------------------------------------------

/// What a `serde_json` value holds.
pub uninterp spec fn content(v: serde_json::Value) -> JsonV;

/// What `serde_json::from_str` reads a text as, where it is JSON.
pub uninterp spec fn json_read(text: Seq<char>) -> Option<JsonV>;

/// What `serde_json::Value::to_string` writes for a value.
pub uninterp spec fn json_written(j: JsonV) -> Seq<char>;

/// What `serde_json::Number::as_u64` answers.
pub uninterp spec fn number_u64(n: serde_json::Number) -> Option<u64>;

/// The `serde_json::Number` of a `u64`.
pub uninterp spec fn whole(n: u64) -> serde_json::Number;

/// `serde_json::from_str` for a value of any kind: what it holds depends on the
/// text alone.
#[verifier::external_body]
fn read_value(text: &str) -> (r: Option<serde_json::Value>)
    ensures
        match r {
            Some(v) => json_read(text@) == Some(content(v)),
            None => json_read(text@) is None,
        },
{
    serde_json::from_str::<serde_json::Value>(text).ok()
}

/// A `serde_json::Value` taken apart, each variant as the one of the same name.
#[verifier::external_body]
fn from_value(v: serde_json::Value) -> (r: Json)
    ensures
        r.view() == content(v),
{
    match v {
        serde_json::Value::Null => Json::Null,
        serde_json::Value::Bool(b) => Json::Bool(b),
        serde_json::Value::Number(n) => Json::Number(n),
        serde_json::Value::String(s) => Json::Str(s),
        serde_json::Value::Array(a) => Json::Array(a.into_iter().map(from_value).collect()),
        serde_json::Value::Object(o) => {
            Json::Object(o.into_iter().map(|m| (m.0, from_value(m.1))).collect())
        },
    }
}

/// A `serde_json::Value` put together, each variant as the one of the same name.
#[verifier::external_body]
fn to_value(j: &Json) -> (r: serde_json::Value)
    ensures
        content(r) == j.view(),
{
    match j {
        Json::Null => serde_json::Value::Null,
        Json::Bool(b) => serde_json::Value::Bool(*b),
        Json::Number(n) => serde_json::Value::Number(n.clone()),
        Json::Str(s) => serde_json::Value::String(s.clone()),
        Json::Array(a) => serde_json::Value::Array(a.iter().map(to_value).collect()),
        Json::Object(o) => {
            serde_json::Value::Object(o.iter().map(|m| (m.0.clone(), to_value(&m.1))).collect())
        },
    }
}

/// `serde_json::Value::to_string`: the text depends on what the value holds.
#[verifier::external_body]
fn value_text(v: &serde_json::Value) -> (r: String)
    ensures
        r@ == json_written(content(*v)),
{
    v.to_string()
}

/// `serde_json::Number::from` a `u64`, which `as_u64` gives back.
#[verifier::external_body]
fn number_of(n: u64) -> (r: serde_json::Number)
    ensures
        r == whole(n),
        number_u64(r) == Some(n),
{
    serde_json::Number::from(n)
}

/// `serde_json::Number::as_u64`.
#[verifier::external_body]
fn u64_of(n: &serde_json::Number) -> (r: Option<u64>)
    ensures
        r == number_u64(*n),
{
    n.as_u64()
}

/// `serde_json::Number::clone` gives the same number.
#[verifier::external_body]
pub(crate) fn copy_number(n: &serde_json::Number) -> (r: serde_json::Number)
    ensures
        r == *n,
{
    n.clone()
}

/// The value that a text is JSON for.
pub fn parse(text: &str) -> (r: Option<Json>)
    ensures
        match r {
            Some(j) => json_read(text@) == Some(j.view()),
            None => json_read(text@) is None,
        },
{
    match read_value(text) {
        Some(v) => Some(from_value(v)),
        None => None,
    }
}

// ---------------------------------------------------------------------------
// Looking into a value
// ---------------------------------------------------------------------------

/// The member of this name, where there is one.
pub open spec fn field(j: JsonV, name: Seq<char>) -> Option<JsonV> {
    match j {
        JsonV::Object(m) => if m.contains_key(name) {
            Some(m[name])
        } else {
            None
        },
        _ => None,
    }
}

/// The member `name` of what `j` is, where it is something.
pub open spec fn field_in(j: Option<JsonV>, name: Seq<char>) -> Option<JsonV> {
    match j {
        Some(v) => field(v, name),
        None => None,
    }
}

/// The element at `i`, where there is one.
pub open spec fn element(j: Option<JsonV>, i: int) -> Option<JsonV> {
    match j {
        Some(JsonV::Array(s)) => if 0 <= i < s.len() {
            Some(s[i])
        } else {
            None
        },
        _ => None,
    }
}

/// The text of a value that is one.
pub open spec fn text_in(j: Option<JsonV>) -> Option<Seq<char>> {
    match j {
        Some(JsonV::Str(s)) => Some(s),
        _ => None,
    }
}

/// The list of a value that is one.
pub open spec fn list_in(j: Option<JsonV>) -> Option<Seq<JsonV>> {
    match j {
        Some(JsonV::Array(s)) => Some(s),
        _ => None,
    }
}

/// The truth of a value that is one.
pub open spec fn bool_in(j: Option<JsonV>) -> Option<bool> {
    match j {
        Some(JsonV::Bool(b)) => Some(b),
        _ => None,
    }
}

/// The whole number of a value that is one, as far as `u64` goes.
pub open spec fn u64_in(j: Option<JsonV>) -> Option<u64> {
    match j {
        Some(JsonV::Number(n)) => number_u64(n),
        _ => None,
    }
}

/// A text, or nothing where there is none.
pub open spec fn maybe_text(s: Option<Seq<char>>) -> JsonV {
    match s {
        Some(s) => JsonV::Str(s),
        None => JsonV::Null,
    }
}

/// What an optional reference points to.
pub open spec fn seen(j: Option<&Json>) -> Option<JsonV> {
    match j {
        Some(v) => Some(v.view()),
        None => None,
    }
}

impl Json {
    /// The member of this name, where there is one.
    pub fn get(&self, name: &str) -> (r: Option<&Json>)
        ensures
            seen(r) == field(self.view(), name@),
    {
        match self {
            Json::Object(v) => {
                let mut i: usize = v.len();
                proof {
                    assert(v@.take(i as int) =~= v@);
                }
                while i > 0
                    invariant
                        i <= v@.len(),
                        self.view() == JsonV::Object(members(v@)),
                        members(v@).contains_key(name@) == members(v@.take(i as int)).contains_key(
                            name@,
                        ),
                        members(v@).contains_key(name@) ==> members(v@)[name@] == members(
                            v@.take(i as int),
                        )[name@],
                    decreases i,
                {
                    i -= 1;
                    proof {
                        assert(v@.take(i + 1).drop_last() =~= v@.take(i as int));
                        assert(v@.take(i + 1).last() == v@[i as int]);
                    }
                    if same(v[i].0.as_str(), name) {
                        return Some(&v[i].1);
                    }
                }
                proof {
                    assert(v@.take(0) =~= Seq::empty());
                }
                None
            },
            _ => None,
        }
    }

    /// The text, where this is one.
    pub fn as_str(&self) -> (r: Option<&str>)
        ensures
            match r {
                Some(s) => text_in(Some(self.view())) == Some(s@),
                None => text_in(Some(self.view())) is None,
            },
    {
        match self {
            Json::Str(s) => Some(s.as_str()),
            _ => None,
        }
    }

    /// The whole number, where this is one that `u64` holds.
    pub fn as_u64(&self) -> (r: Option<u64>)
        ensures
            r == u64_in(Some(self.view())),
    {
        match self {
            Json::Number(n) => u64_of(n),
            _ => None,
        }
    }

    pub fn as_bool(&self) -> (r: Option<bool>)
        ensures
            r == bool_in(Some(self.view())),
    {
        match self {
            Json::Bool(b) => Some(*b),
            _ => None,
        }
    }

    /// The elements, where this is a list.
    pub fn as_array(&self) -> (r: Option<&Vec<Json>>)
        ensures
            match r {
                Some(v) => self.view() == JsonV::Array(values(v@)),
                None => !(self.view() is Array),
            },
    {
        match self {
            Json::Array(v) => {
                proof {
                    lemma_array_view(*v);
                }
                Some(v)
            },
            _ => None,
        }
    }

    pub fn is_object(&self) -> (r: bool)
        ensures
            r == (self.view() is Object),
    {
        matches!(self, Json::Object(_))
    }

    /// The value written as JSON.
    pub fn text(&self) -> (r: String)
        ensures
            r@ == json_written(self.view()),
    {
        value_text(&to_value(self))
    }

    /// A copy.
    pub fn copy(&self) -> (r: Json)
        ensures
            r.view() == self.view(),
        decreases self,
    {
        match self {
            Json::Null => Json::Null,
            Json::Bool(b) => Json::Bool(*b),
            Json::Number(n) => Json::Number(copy_number(n)),
            Json::Str(s) => Json::Str(s.clone()),
            Json::Array(v) => {
                let mut r: Vec<Json> = Vec::new();
                let mut i: usize = 0;
                while i < v.len()
                    invariant
                        i <= v@.len(),
                        *self == Json::Array(*v),
                        r@.len() == i,
                        forall|j: int| 0 <= j < i ==> (#[trigger] r@[j]).view() == v@[j].view(),
                    decreases v@.len() - i,
                {
                    proof {
                        assert(decreases_to!(*self => self->Array_0));
                        assert(decreases_to!(*v => v@));
                        assert(decreases_to!(v@ => v@[i as int]));
                    }
                    r.push(v[i].copy());
                    i += 1;
                }
                proof {
                    lemma_array_view(*v);
                    lemma_array_view(r);
                    assert(values(r@) =~= values(v@));
                }
                Json::Array(r)
            },
            Json::Object(v) => {
                let mut r: Vec<(String, Json)> = Vec::new();
                let mut i: usize = 0;
                proof {
                    assert(v@.take(0) =~= Seq::empty());
                }
                while i < v.len()
                    invariant
                        i <= v@.len(),
                        *self == Json::Object(*v),
                        members(r@) == members(v@.take(i as int)),
                    decreases v@.len() - i,
                {
                    proof {
                        assert(decreases_to!(*self => self->Object_0));
                        assert(decreases_to!(*v => v@));
                        assert(decreases_to!(v@ => v@[i as int]));
                        assert(decreases_to!(v@[i as int] => v@[i as int].1));
                        assert(v@.take(i + 1).drop_last() =~= v@.take(i as int));
                    }
                    let ghost before = r@;
                    r.push((v[i].0.clone(), v[i].1.copy()));
                    proof {
                        assert(r@.drop_last() =~= before);
                    }
                    i += 1;
                }
                proof {
                    assert(v@.take(i as int) =~= v@);
                }
                Json::Object(r)
            },
        }
    }

    // -----------------------------------------------------------------------
    // Building one
    // -----------------------------------------------------------------------

    /// `{}`
    pub fn object() -> (r: Json)
        ensures
            r.view() == JsonV::Object(Map::empty()),
    {
        let v: Vec<(String, Json)> = Vec::new();
        proof {
            reveal_with_fuel(members, 2);
            assert(members(v@) =~= Map::empty());
        }
        Json::Object(v)
    }

    pub fn string(s: &str) -> (r: Json)
        ensures
            r.view() == JsonV::Str(s@),
    {
        Json::Str(s.to_owned())
    }

    /// A whole number.
    pub fn number(n: u64) -> (r: Json)
        ensures
            r.view() == JsonV::Number(whole(n)),
            u64_in(Some(r.view())) == Some(n),
    {
        Json::Number(number_of(n))
    }

    /// A text, or nothing where there is none.
    pub fn optional(s: &Option<String>) -> (r: Json)
        ensures
            r.view() == maybe_text(
                match *s {
                    Some(s) => Some(s@),
                    None => None,
                },
            ),
    {
        match s {
            Some(s) => Json::string(s.as_str()),
            None => Json::Null,
        }
    }

    pub fn array(v: Vec<Json>) -> (r: Json)
        ensures
            r.view() == JsonV::Array(values(v@)),
    {
        proof {
            lemma_array_view(v);
        }
        Json::Array(v)
    }

    /// This object with one more member.
    pub fn with(self, name: &str, value: Json) -> (r: Json)
        requires
            self.view() is Object,
        ensures
            r.view() == JsonV::Object(self.view()->Object_0.insert(name@, value.view())),
    {
        match self {
            Json::Object(v) => {
                let mut v: Vec<(String, Json)> = v;
                let ghost before = v@;
                v.push((name.to_owned(), value));
                proof {
                    reveal_with_fuel(members, 3);
                    reveal_with_fuel(Json::view, 3);
                    assert(v@.drop_last() =~= before);
                }
                Json::Object(v)
            },
            other => other,
        }
    }
}

} // verus!
