//! What is at an address that is no endpoint: the web app's own files.

use vstd::prelude::*;

use crate::json::{Json, JsonV};
use crate::script::model::{and, just};
use crate::serve::auth::door::{Refusal, RefusalV};
use crate::text::{from_chars, pieces, same, split, texts, to_chars};

verus! {

pub const NOTHING_HERE: &'static str = "evo has nothing at that address.";

/// `s` without the slashes it begins with.
pub open spec fn relative(s: Seq<char>) -> Seq<char>
    decreases s.len(),
{
    if s.len() > 0 && s[0] == '/' {
        relative(s.drop_first())
    } else {
        s
    }
}

/// Whether a path climbs out of the directory it is in.
pub open spec fn climbs(path: Seq<char>) -> bool {
    exists|i: int| 0 <= i < pieces(path, "/"@).len() && #[trigger] pieces(path, "/"@)[i] == ".."@
}

/// Which of the app's files an address is for.
pub open spec fn file_at(path: Seq<char>) -> Seq<char> {
    if relative(path).len() == 0 {
        "index.html"@
    } else {
        relative(path)
    }
}

/// The app shell. Anything that is not a known route is looked for among the
/// app's files, and `/` is `index.html`. A path that climbs out of their
/// directory is never a request worth serving.
pub fn asset(path: &str) -> (r: Result<String, Refusal>)
    ensures
        match r {
            Ok(file) => !climbs(file_at(path@)) && file@ == file_at(path@),
            Err(refusal) => climbs(file_at(path@)) && refusal@ == (RefusalV {
                status: 404,
                message: NOTHING_HERE@,
            }),
        },
{
    let v: Vec<char> = to_chars(path);
    let mut from: usize = 0;
    proof {
        assert(v@.skip(0) =~= v@);
    }
    while from < v.len() && v[from] == '/'
        invariant
            from <= v@.len(),
            relative(path@) == relative(v@.skip(from as int)),
        decreases v@.len() - from,
    {
        proof {
            assert(v@.skip(from as int).drop_first() =~= v@.skip(from + 1));
        }
        from += 1;
    }
    let all: usize = v.len();
    proof {
        assert(v@.subrange(from as int, all as int) =~= v@.skip(from as int));
    }
    let rest: String = from_chars(&v, from, all);
    let file: String = if rest.as_str().is_empty() {
        "index.html".to_owned()
    } else {
        rest
    };
    proof {
        reveal_strlit("/");
    }
    let parts: Vec<String> = split(file.as_str(), "/");
    let ghost seen = pieces(file@, "/"@);
    let mut i: usize = 0;
    while i < parts.len()
        invariant
            i <= parts@.len(),
            seen == texts(parts@),
            seen == pieces(file@, "/"@),
            file@ == file_at(path@),
            forall|j: int| 0 <= j < i ==> #[trigger] seen[j] != ".."@,
        decreases parts@.len() - i,
    {
        proof {
            assert(seen[i as int] == parts@[i as int]@);
        }
        if same(parts[i].as_str(), "..") {
            proof {
                assert(pieces(file@, "/"@)[i as int] == ".."@);
            }
            return Err(missing());
        }
        i += 1;
    }
    Ok(file)
}

pub fn missing() -> (r: Refusal)
    ensures
        r@ == (RefusalV { status: 404, message: NOTHING_HERE@ }),
{
    Refusal::new(404, NOTHING_HERE)
}

/// Open on purpose: a monitor or a load balancer has no cookie, and there is
/// nothing here worth hiding.
pub fn health(version: &str) -> (r: Json)
    ensures
        r.view() == and(
            and(just("ok"@, JsonV::Bool(true)), "name"@, JsonV::Str("evo"@)),
            "version"@,
            JsonV::Str(version@),
        ),
{
    Json::object().with("ok", Json::Bool(true)).with("name", Json::string("evo")).with(
        "version",
        Json::string(version),
    )
}

} // verus!
