//! What the server promises of what it is asked and what it answers: flags,
//! addresses, names, version tags and cookies.

use vstd::prelude::*;

use crate::doc::annotation::AnnV;
use crate::serve::auth::door::{
    client, cookie_in, cookie_text, first_value, pair_value, public, RefusalV,
};
use crate::serve::library_api::{doc_id, lower_hex, named, printable};
use crate::serve::markup_api::{bare, muddled, names_version, of_page, strong, unquoted_start};
use crate::serve::pages::{number_part, page_asked};
use crate::serve::routes::{climbs, file_at, relative};
use crate::serve::{flags_from, limit_in_bytes, ArgsV, ServeOptions};
use crate::text::{
    cut, decimal, find, law_a_mark_parts_the_pieces, law_an_unmarked_text_is_one_piece,
    law_decimal_round_trip, law_find_finds_the_first, law_trimming_takes_only_white_space, pieces,
    trim_end_of, trimmed, white_space,
};

verus! {

// ---------------------------------------------------------------------------
// Flags
// ---------------------------------------------------------------------------

proof fn lemma_one(c: char, s: Seq<char>)
    requires
        s.len() == 1,
        s[0] == c,
    ensures
        s == seq![c],
{
    assert(s =~= seq![c]);
}

/// A flag without an equals sign is its own name.
proof fn lemma_whole_flag(s: Seq<char>)
    requires
        !s.contains('='),
    ensures
        cut(s, "="@) is None,
{
    reveal_strlit("=");
    lemma_one('=', "="@);
    law_an_unmarked_text_is_one_piece(s, '=');
}

proof fn lemma_flag_names()
    ensures
        "--bind"@ != "--data-dir"@,
        "--bind"@ != "--config"@,
        "--bind"@ != "--port"@,
        "--bind"@ != "--insecure-http"@,
        "--bind"@ != "--trust-proxy"@,
        "--bind"@ != "init"@,
        "--data-dir"@ != "--config"@,
        "--data-dir"@ != "--port"@,
        "--data-dir"@ != "--insecure-http"@,
        "--data-dir"@ != "--trust-proxy"@,
        "--data-dir"@ != "init"@,
        "--config"@ != "--port"@,
        "--config"@ != "--insecure-http"@,
        "--config"@ != "--trust-proxy"@,
        "--config"@ != "init"@,
        "--port"@ != "--insecure-http"@,
        "--port"@ != "--trust-proxy"@,
        "--port"@ != "init"@,
        "--insecure-http"@ != "--trust-proxy"@,
        "--insecure-http"@ != "init"@,
        "--trust-proxy"@ != "init"@,
        !"--bind"@.contains('='),
        !"--data-dir"@.contains('='),
        !"--config"@.contains('='),
        !"--port"@.contains('='),
        !"--insecure-http"@.contains('='),
        !"--trust-proxy"@.contains('='),
{
    reveal_strlit("--bind");
    reveal_strlit("--data-dir");
    reveal_strlit("--config");
    reveal_strlit("--port");
    reveal_strlit("--insecure-http");
    reveal_strlit("--trust-proxy");
    reveal_strlit("init");
    assert("--bind"@.len() != "--data-dir"@.len());
    assert("--bind"@.len() != "--config"@.len());
    assert("--bind"@[2] != "--port"@[2]);
    assert("--bind"@.len() != "--insecure-http"@.len());
    assert("--bind"@.len() != "--trust-proxy"@.len());
    assert("--bind"@.len() != "init"@.len());
    assert("--data-dir"@.len() != "--config"@.len());
    assert("--data-dir"@.len() != "--port"@.len());
    assert("--data-dir"@.len() != "--insecure-http"@.len());
    assert("--data-dir"@.len() != "--trust-proxy"@.len());
    assert("--data-dir"@.len() != "init"@.len());
    assert("--config"@.len() != "--port"@.len());
    assert("--config"@.len() != "--insecure-http"@.len());
    assert("--config"@.len() != "--trust-proxy"@.len());
    assert("--config"@.len() != "init"@.len());
    assert("--port"@.len() != "--insecure-http"@.len());
    assert("--port"@.len() != "--trust-proxy"@.len());
    assert("--port"@.len() != "init"@.len());
    assert("--insecure-http"@.len() != "--trust-proxy"@.len());
    assert("--insecure-http"@.len() != "init"@.len());
    assert("--trust-proxy"@.len() != "init"@.len());
}

proof fn lemma_valued(name: Seq<char>, value: Seq<char>, acc: ArgsV)
    requires
        crate::serve::has_value(name),
        !name.contains('='),
        name != "init"@,
    ensures
        flags_from(seq![name, value], 0, acc) == crate::serve::with_value(acc, name, value),
{
    lemma_whole_flag(name);
    let args = seq![name, value];
    assert(args[0] == name && args[1] == value);
    if let Ok(next) = crate::serve::with_value(acc, name, value) {
        assert(flags_from(args, 2, next) == Ok::<ArgsV, Seq<char>>(next));
    }
}

/// Each flag sets one thing, to what follows it, and leaves every other as it
/// was.
pub proof fn law_each_flag_sets_one_thing(acc: ArgsV, value: Seq<char>, port: u16)
    ensures
        flags_from(seq!["--bind"@, value], 0, acc) == Ok::<ArgsV, Seq<char>>(
            ArgsV { bind: value, ..acc },
        ),
        flags_from(seq!["--data-dir"@, value], 0, acc) == Ok::<ArgsV, Seq<char>>(
            ArgsV { data_dir: Some(value), ..acc },
        ),
        flags_from(seq!["--config"@, value], 0, acc) == Ok::<ArgsV, Seq<char>>(
            ArgsV { config: Some(value), ..acc },
        ),
        flags_from(seq!["--port"@, decimal(port as nat)], 0, acc) == Ok::<ArgsV, Seq<char>>(
            ArgsV { port, ..acc },
        ),
        flags_from(seq!["--insecure-http"@], 0, acc) == Ok::<ArgsV, Seq<char>>(
            ArgsV { insecure_http: true, ..acc },
        ),
        flags_from(seq!["--trust-proxy"@], 0, acc) == Ok::<ArgsV, Seq<char>>(
            ArgsV { trust_proxy: true, ..acc },
        ),
        flags_from(seq!["init"@], 0, acc) == Ok::<ArgsV, Seq<char>>(ArgsV { init: true, ..acc }),
        flags_from(Seq::empty(), 0, acc) == Ok::<ArgsV, Seq<char>>(acc),
{
    lemma_flag_names();
    law_decimal_round_trip(port as nat, 65535);
    lemma_valued("--bind"@, value, acc);
    lemma_valued("--data-dir"@, value, acc);
    lemma_valued("--config"@, value, acc);
    lemma_valued("--port"@, decimal(port as nat), acc);
    lemma_whole_flag("--insecure-http"@);
    lemma_whole_flag("--trust-proxy"@);
    let (a, b, c) = (seq!["--insecure-http"@], seq!["--trust-proxy"@], seq!["init"@]);
    assert(flags_from(a, 1, ArgsV { insecure_http: true, ..acc }) is Ok);
    assert(flags_from(b, 1, ArgsV { trust_proxy: true, ..acc }) is Ok);
    assert(flags_from(c, 1, ArgsV { init: true, ..acc }) is Ok);
    assert(a[0] == "--insecure-http"@ && b[0] == "--trust-proxy"@ && c[0] == "init"@);
}

/// What is no flag is refused, wherever it stands.
pub proof fn law_what_is_no_flag_is_refused(
    before: Seq<Seq<char>>,
    name: Seq<char>,
    after: Seq<Seq<char>>,
    acc: ArgsV,
)
    requires
        !name.contains('='),
        name != "--port"@ && name != "--bind"@ && name != "--data-dir"@ && name != "--config"@,
        name != "--insecure-http"@ && name != "--trust-proxy"@,
        name != "init"@ || before.len() > 0,
    ensures
        flags_from(before + seq![name] + after, before.len() as int, acc) is Err,
{
    lemma_whole_flag(name);
    assert((before + seq![name] + after)[before.len() as int] == name);
}

/// An upload may be as many megabytes as was asked for, each 1024 times 1024
/// bytes, and never nothing at all.
pub proof fn law_the_limit_is_in_megabytes(mb: int)
    ensures
        mb >= 1 ==> limit_in_bytes(mb) == mb * 1024 * 1024,
        limit_in_bytes(mb) >= 1024 * 1024,
{
}

// ---------------------------------------------------------------------------
// Addresses
// ---------------------------------------------------------------------------

/// A file of the app is looked for below its directory: only slashes are taken
/// off the front of an address, all of them, and where nothing is left it is
/// the first page.
pub proof fn law_a_file_is_below_its_directory(path: Seq<char>)
    ensures
        relative(path).len() <= path.len(),
        relative(path) == path.skip(path.len() - relative(path).len()),
        forall|i: int| 0 <= i < path.len() - relative(path).len() ==> #[trigger] path[i] == '/',
        relative(path).len() > 0 ==> relative(path)[0] != '/' && file_at(path) == relative(path),
        file_at(path).len() > 0,
    decreases path.len(),
{
    reveal_strlit("index.html");
    if path.len() > 0 && path[0] == '/' {
        let t = path.drop_first();
        law_a_file_is_below_its_directory(t);
        let r = relative(path);
        assert(t.skip(t.len() - r.len()) =~= path.skip(path.len() - r.len()));
        assert forall|i: int| 0 <= i < path.len() - r.len() implies #[trigger] path[i] == '/' by {
            if i > 0 {
                assert(t[i - 1] == path[i]);
            }
        }
    } else {
        assert(path.skip(0) =~= path);
    }
}

proof fn lemma_dots()
    ensures
        ".."@ == seq!['.', '.'],
        "/"@ == seq!['/'],
{
    reveal_strlit("..");
    reveal_strlit("/");
    assert(".."@ =~= seq!['.', '.']);
    lemma_one('/', "/"@);
}

/// A path climbs where a part of it between slashes is two dots, wherever that
/// part stands, and nowhere else.
pub proof fn law_two_dots_climb(a: Seq<char>, b: Seq<char>, part: Seq<char>)
    requires
        !part.contains('/'),
    ensures
        climbs(part) <==> part == seq!['.', '.'],
        climbs(a + seq!['/'] + b) <==> climbs(a) || climbs(b),
{
    lemma_dots();
    law_an_unmarked_text_is_one_piece(part, '/');
    if part == seq!['.', '.'] {
        assert(pieces(part, "/"@)[0] == ".."@);
    }
    law_a_mark_parts_the_pieces(a, '/', b);
    let (x, y) = (pieces(a, "/"@), pieces(b, "/"@));
    let all = pieces(a + seq!['/'] + b, "/"@);
    if climbs(a) {
        let i = choose|i: int| 0 <= i < x.len() && #[trigger] x[i] == ".."@;
        assert(all[i] == x[i]);
    }
    if climbs(b) {
        let i = choose|i: int| 0 <= i < y.len() && #[trigger] y[i] == ".."@;
        assert(all[x.len() + i] == y[i]);
    }
    if climbs(a + seq!['/'] + b) {
        let i = choose|i: int| 0 <= i < all.len() && #[trigger] all[i] == ".."@;
        if i < x.len() {
            assert(x[i] == all[i]);
        } else {
            assert(y[i - x.len()] == all[i]);
        }
    }
}

/// A page picture is asked for by its number, counting from one, with `.png`
/// behind it, at scale one, two or three, and at one where none is named; any
/// other number or scale is refused as a bad request.
pub proof fn law_a_page_is_asked_for_by_number(
    id: Seq<char>,
    page: usize,
    scale: u32,
)
    requires
        doc_id(id),
    ensures
        ({
            let file = decimal(page as nat) + seq!['.', 'p', 'n', 'g'];
            let answer = page_asked(id, file, Some(scale));
            &&& page >= 1 && (scale == 1 || scale == 2 || scale == 3) ==> answer == Ok::<
                (usize, u32),
                RefusalV,
            >((page, scale))
            &&& page == 0 || scale == 0 || scale > 3 ==> (answer matches Err(refusal)
                && refusal.status == 400)
            &&& page >= 1 ==> page_asked(id, file, None) == Ok::<(usize, u32), RefusalV>((page, 1))
        }),
{
    reveal_strlit(".png");
    let png = seq!['.', 'p', 'n', 'g'];
    let file = decimal(page as nat) + png;
    assert(".png"@ =~= png);
    assert(file.skip(file.len() - 4) =~= png);
    assert(number_part(file) =~= decimal(page as nat));
    law_decimal_round_trip(page as nat, usize::MAX as nat);
}

/// Nothing but a picture of a page of a document is ever answered with one.
pub proof fn law_only_pages_of_documents_are_drawn(
    id: Seq<char>,
    file: Seq<char>,
    scale: Option<u32>,
)
    ensures
        page_asked(id, file, scale) matches Ok(asked) ==> {
            &&& id.len() == 64 && forall|i: int|
                0 <= i < 64 ==> ('0' <= #[trigger] id[i] <= '9' || 'a' <= id[i] <= 'f')
            &&& file.len() > 4 && file.skip(file.len() - 4) == seq!['.', 'p', 'n', 'g']
            &&& asked.0 >= 1 && 1 <= asked.1 <= 3
            &&& scale matches Some(s) ==> s == asked.1
        },
{
    reveal_strlit(".png");
    assert(".png"@ =~= seq!['.', 'p', 'n', 'g']);
    if page_asked(id, file, scale) is Ok {
        assert forall|i: int| 0 <= i < 64 implies ('0' <= #[trigger] id[i] <= '9' || 'a' <= id[i]
            <= 'f') by {
            assert(lower_hex(id[i]));
        }
    }
}

/// Everything under `/api/` needs a session but the three endpoints that exist
/// to get one, and nothing else does.
pub proof fn law_only_three_endpoints_are_open(endpoint: Seq<char>, path: Seq<char>)
    ensures
        public(seq!['/', 'a', 'p', 'i', '/'] + endpoint) <==> endpoint == seq![
            'h',
            'e',
            'a',
            'l',
            't',
            'h',
        ] || endpoint == seq!['l', 'o', 'g', 'i', 'n'] || endpoint == seq![
            's',
            'e',
            't',
            'u',
            'p',
            '-',
            'q',
            'r',
        ],
        path.len() < 5 || path.take(5) != seq!['/', 'a', 'p', 'i', '/'] ==> public(path),
{
    reveal_strlit("/api/");
    reveal_strlit("health");
    reveal_strlit("login");
    reveal_strlit("setup-qr");
    let api = seq!['/', 'a', 'p', 'i', '/'];
    assert("/api/"@ =~= api);
    assert("health"@ =~= seq!['h', 'e', 'a', 'l', 't', 'h']);
    assert("login"@ =~= seq!['l', 'o', 'g', 'i', 'n']);
    assert("setup-qr"@ =~= seq!['s', 'e', 't', 'u', 'p', '-', 'q', 'r']);
    let whole = api + endpoint;
    assert(whole.take(5) =~= api);
    assert(whole.skip(5) =~= endpoint);
}

// ---------------------------------------------------------------------------
// Markup and its versions
// ---------------------------------------------------------------------------

/// The markup of a page is every annotation that is on it, in order.
pub proof fn law_a_page_has_all_its_markup(s: Seq<AnnV>, page: usize)
    ensures
        of_page(s, page) == s.filter(|a: AnnV| a.page == page),
    decreases s.len(),
{
    reveal(Seq::filter);
    if s.len() > 0 {
        law_a_page_has_all_its_markup(s.drop_last(), page);
    } else {
        assert(of_page(s, page) =~= s.filter(|a: AnnV| a.page == page));
    }
}

/// Markup that says it is in the first format may hold no shape that came with
/// the second; markup in the second, or that says nothing, may hold any.
pub proof fn law_new_shapes_need_the_new_format(version: Option<u32>, s: Seq<AnnV>, i: int)
    requires
        0 <= i < s.len(),
    ensures
        version == Some(1u32) && (s[i].kind is Polygon || s[i].kind is PolyLine || s[i].kind is Stamp
            || s[i].kind is ImageStamp) ==> muddled(version, s),
        (forall|j: int|
            0 <= j < s.len() ==> !((#[trigger] s[j]).kind is Polygon || s[j].kind is PolyLine
                || s[j].kind is Stamp || s[j].kind is ImageStamp)) ==> !muddled(version, s),
        version is None || version->0 >= 2 ==> !muddled(version, s),
{
}

/// What tells one version from another: nothing that would be taken off a tag,
/// and nothing that a list of tags is split at.
pub open spec fn plain_tag(s: Seq<char>) -> bool {
    forall|i: int|
        0 <= i < s.len() ==> #[trigger] s[i] != '"' && s[i] != ',' && s[i] != 'W' && s[i] != '*'
            && !white_space(s[i])
}

proof fn lemma_bare(s: Seq<char>)
    requires
        plain_tag(s),
        s.len() > 0,
    ensures
        bare(seq!['"'] + s + seq!['"']) == s,
        bare(seq!['W', '/', '"'] + s + seq!['"']) == s,
        trimmed(seq!['"'] + s + seq!['"']) == seq!['"'] + s + seq!['"'],
        !(seq!['"'] + s + seq!['"']).contains(','),
{
    let q = seq!['"'] + s + seq!['"'];
    let w = seq!['W', '/', '"'] + s + seq!['"'];
    assert(q[0] == '"' && q.last() == '"');
    assert(w[0] == 'W' && w[1] == '/' && w.last() == '"');
    assert(!white_space('"') && !white_space('W'));
    assert(trimmed(q) == q);
    assert(trimmed(w) == w);
    assert(strong(q) == q);
    assert(w.skip(2) =~= q);
    reveal_with_fuel(strong, 2);
    assert(strong(w) == q);
    let t = s + seq!['"'];
    assert(q.skip(1) =~= t);
    assert(t[0] == s[0]);
    reveal_with_fuel(unquoted_start, 2);
    assert(unquoted_start(q) == t);
    assert(t.drop_last() =~= s);
    assert(s[s.len() - 1] != '"');
    reveal_with_fuel(trim_end_of, 2);
    assert(trim_end_of(t, '"') == s);
    assert forall|i: int| 0 <= i < q.len() implies q[i] != ',' by {
        if 0 < i < q.len() - 1 {
            assert(q[i] == s[i - 1]);
        }
    }
}

/// A quoted tag names the version that has it, whether it is called weak or
/// not, and no other version.
pub proof fn law_a_tag_names_one_version(a: Seq<char>, b: Seq<char>)
    requires
        plain_tag(a) && a.len() > 0,
        plain_tag(b) && b.len() > 0,
    ensures
        names_version(seq!['"'] + a + seq!['"'], seq!['"'] + b + seq!['"']) <==> a == b,
        names_version(seq!['W', '/', '"'] + a + seq!['"'], seq!['"'] + a + seq!['"']),
{
    reveal_strlit(",");
    reveal_strlit("*");
    lemma_one(',', ","@);
    lemma_bare(a);
    lemma_bare(b);
    let q = seq!['"'] + a + seq!['"'];
    let w = seq!['W', '/', '"'] + a + seq!['"'];
    assert(q[0] == '"');
    law_an_unmarked_text_is_one_piece(q, ',');
    assert(pieces(q, ","@)[0] == q);
    assert forall|i: int| 0 <= i < w.len() implies w[i] != ',' by {
        if 3 <= i < w.len() - 1 {
            assert(w[i] == a[i - 3]);
        }
    }
    law_an_unmarked_text_is_one_piece(w, ',');
    assert(pieces(w, ","@)[0] == w);
}

/// Of several tags, with commas between them, any one will do.
pub proof fn law_any_of_several_tags_will_do(a: Seq<char>, b: Seq<char>, current: Seq<char>)
    requires
        a.contains('"'),
        b.contains('"'),
    ensures
        names_version(a + seq![','] + b, current) <==> names_version(a, current) || names_version(
            b,
            current,
        ),
{
    reveal_strlit(",");
    reveal_strlit("*");
    lemma_one(',', ","@);
    law_a_mark_parts_the_pieces(a, ',', b);
    let whole = a + seq![','] + b;
    let (x, y, all) = (pieces(a, ","@), pieces(b, ","@), pieces(whole, ","@));
    lemma_not_a_star(a);
    lemma_not_a_star(b);
    let k = a.index_of('"');
    assert(whole[k] == '"');
    lemma_not_a_star(whole);
    if names_version(a, current) {
        let i = choose|i: int| 0 <= i < x.len() && bare(#[trigger] x[i]) == bare(current);
        assert(all[i] == x[i]);
    }
    if names_version(b, current) {
        let i = choose|i: int| 0 <= i < y.len() && bare(#[trigger] y[i]) == bare(current);
        assert(all[x.len() + i] == y[i]);
    }
    if names_version(whole, current) {
        let i = choose|i: int| 0 <= i < all.len() && bare(#[trigger] all[i]) == bare(current);
        if i < x.len() {
            assert(x[i] == all[i]);
        } else {
            assert(y[i - x.len()] == all[i]);
        }
    }
}

proof fn lemma_not_a_star(s: Seq<char>)
    requires
        s.contains('"'),
    ensures
        trimmed(s) != "*"@,
{
    reveal_strlit("*");
    let k = s.index_of('"');
    law_trimming_takes_only_white_space(s);
    let (from, to) = choose|from: int, to: int|
        0 <= from <= to <= s.len() && trimmed(s) == #[trigger] s.subrange(from, to)
            && crate::text::all_white(s.take(from)) && crate::text::all_white(s.skip(to));
    if k < from {
        assert(s.take(from)[k] == s[k]);
    } else if k >= to {
        assert(s.skip(to)[k - to] == s[k]);
    } else {
        assert(trimmed(s)[k - from] == s[k]);
    }
}

// ---------------------------------------------------------------------------
// Names
// ---------------------------------------------------------------------------

/// What is kept of a header is every character but control characters, in
/// order, as far as there is room.
pub proof fn law_names_keep_what_can_be_printed(s: Seq<char>, n: int)
    requires
        n >= 0,
    ensures
        ({
            let kept = s.filter(
                |c: char| !((c as int) < 32 || (127 <= (c as int) && (c as int) < 160)),
            );
            printable(s, n) == if kept.len() <= n {
                kept
            } else {
                kept.take(n)
            }
        }),
    decreases s.len(),
{
    reveal(Seq::filter);
    let keep = |c: char| !((c as int) < 32 || (127 <= (c as int) && (c as int) < 160));
    let kept = s.filter(keep);
    if s.len() > 0 {
        let t = s.drop_last();
        law_names_keep_what_can_be_printed(t, n);
        let before = t.filter(keep);
        if keep(s.last()) {
            assert(kept == before.push(s.last()));
            if before.len() >= n {
                assert(before.push(s.last()).take(n) =~= before.take(n));
                assert(before.take(before.len() as int) =~= before);
            } else {
                assert(kept.take(kept.len() as int) =~= kept);
            }
        }
    } else {
        assert(printable(s, n) =~= kept);
    }
}

/// Whether a text is a name as it is: short enough, with nothing in it that
/// cannot be printed, and no space at its ends.
pub open spec fn clean(s: Seq<char>) -> bool {
    &&& 0 < s.len() <= 200
    &&& !white_space(s[0]) && !white_space(s.last())
    &&& forall|i: int|
        0 <= i < s.len() ==> (#[trigger] s[i]) as int >= 32 && !(127 <= (s[i] as int) < 160)
}

proof fn lemma_printable_whole(s: Seq<char>, n: int)
    requires
        s.len() <= n,
        forall|i: int|
            0 <= i < s.len() ==> (#[trigger] s[i]) as int >= 32 && !(127 <= (s[i] as int) < 160),
    ensures
        printable(s, n) == s,
    decreases s.len(),
{
    if s.len() > 0 {
        let t = s.drop_last();
        assert forall|i: int| 0 <= i < t.len() implies (#[trigger] t[i]) as int >= 32 && !(127 <= (
        t[i] as int) < 160) by {
            assert(t[i] == s[i]);
        }
        lemma_printable_whole(t, n);
        assert(s[s.len() - 1] == s.last());
        assert(s =~= t.push(s.last()));
    } else {
        assert(printable(s, n) =~= s);
    }
}

/// A document is called what it was sent as, and its title is what was sent
/// with it, or its name without `.pdf`.
pub proof fn law_a_document_is_called_what_it_was_sent_as(
    stem: Seq<char>,
    title: Seq<char>,
)
    requires
        clean(stem),
        stem.len() <= 196,
        clean(title),
    ensures
        ({
            let file = stem + seq!['.', 'p', 'd', 'f'];
            &&& named(Some(file), Some(title)) == (file, title)
            &&& named(Some(file), None) == (file, stem)
            &&& !(stem.len() >= 4 && stem.skip(stem.len() - 4) == seq!['.', 'p', 'd', 'f'])
                ==> named(Some(stem), None) == (stem, stem)
        }),
{
    reveal_strlit(".pdf");
    let pdf = seq!['.', 'p', 'd', 'f'];
    let file = stem + pdf;
    assert(".pdf"@ =~= pdf);
    assert(file[0] == stem[0]);
    assert(file.last() == 'f');
    assert(!white_space('f'));
    assert forall|i: int| 0 <= i < file.len() implies (#[trigger] file[i]) as int >= 32 && !(127
        <= (file[i] as int) < 160) by {
        if i < stem.len() {
            assert(file[i] == stem[i]);
        }
    }
    lemma_printable_whole(stem, 200);
    lemma_printable_whole(file, 200);
    lemma_printable_whole(title, 200);
    assert(trimmed(stem) == stem && trimmed(file) == file && trimmed(title) == title);
    assert(file.skip(file.len() - 4) =~= pdf);
    assert(file.take(file.len() - 4) =~= stem);
}

// ---------------------------------------------------------------------------
// Who is asking
// ---------------------------------------------------------------------------

/// A request counts for the address it comes from, whatever it says of itself;
/// only where a proxy is trusted does it count for the first address the proxy
/// names.
pub proof fn law_a_request_counts_for_its_address(
    first: Seq<char>,
    rest: Seq<char>,
    peer: Seq<char>,
    forwarded: Option<Seq<char>>,
)
    requires
        !first.contains(','),
        first.len() > 0,
        !white_space(first[0]) && !white_space(first.last()),
    ensures
        client(false, forwarded, Some(peer)) == peer,
        client(true, None, Some(peer)) == peer,
        client(true, Some(first), Some(peer)) == first,
        client(true, Some(first + seq![','] + rest), Some(peer)) == first,
{
    reveal_strlit(",");
    lemma_one(',', ","@);
    law_an_unmarked_text_is_one_piece(first, ',');
    let whole = first + seq![','] + rest;
    let n = first.len() as int;
    law_find_finds_the_first(whole, ","@, 0);
    assert(whole.subrange(n, n + 1) =~= ","@);
    let at = find(whole, ","@)->0;
    if at < n {
        assert(whole.subrange(at, at + 1)[0] == first[at]);
        assert(first[at] == ',');
    }
    assert(whole.take(n) =~= first);
    assert(trimmed(first) == first);
}

/// The cookie that was set is the one that is found, first or behind others,
/// and one of another name is not.
pub proof fn law_a_cookie_is_found(
    name: Seq<char>,
    value: Seq<char>,
    other: Seq<char>,
    theirs: Seq<char>,
    rest: Seq<char>,
)
    requires
        name.len() > 0 && !name.contains('=') && !name.contains(';') && !white_space(name[0]),
        value.len() > 0 && !value.contains(';') && !white_space(value.last()),
        other.len() > 0 && !other.contains('=') && !other.contains(';') && !white_space(other[0]),
        theirs.len() > 0 && !theirs.contains(';') && !white_space(theirs.last()),
        other != name,
    ensures
        ({
            let mine = name + seq!['='] + value;
            let not_mine = other + seq!['='] + theirs;
            &&& cookie_in(seq![mine], name, 0) == Some(value)
            &&& cookie_in(seq![mine + seq![';'] + rest], name, 0) == Some(value)
            &&& cookie_in(seq![not_mine + seq![';', ' '] + mine], name, 0) == Some(value)
            &&& cookie_in(seq![not_mine], name, 0) is None
            &&& cookie_in(Seq::empty(), name, 0) is None
        }),
{
    reveal_strlit(";");
    lemma_one(';', ";"@);
    let mine = name + seq!['='] + value;
    let not_mine = other + seq!['='] + theirs;
    let spaced = seq![' '] + mine;
    lemma_pair(name, value, name);
    lemma_pair(other, theirs, name);
    lemma_pair_spaced(name, value, name);
    lemma_unmarked(name, value);
    lemma_unmarked(other, theirs);
    assert(!spaced.contains(';')) by {
        if spaced.contains(';') {
            let i = spaced.index_of(';');
            assert(i > 0);
            assert(mine[i - 1] == ';');
            assert(mine.contains(';'));
        }
    }
    law_an_unmarked_text_is_one_piece(mine, ';');
    law_an_unmarked_text_is_one_piece(not_mine, ';');
    law_an_unmarked_text_is_one_piece(spaced, ';');
    law_a_mark_parts_the_pieces(mine, ';', rest);
    law_a_mark_parts_the_pieces(not_mine, ';', spaced);
    assert(not_mine + seq![';', ' '] + mine =~= not_mine + seq![';'] + spaced);
    let a = seq![mine] + pieces(rest, ";"@);
    let b = seq![not_mine] + seq![spaced];
    assert(a[0] == mine);
    assert(b[0] == not_mine && b[1] == spaced);
    reveal_with_fuel(first_value, 4);
    reveal_with_fuel(cookie_in, 3);
    assert(first_value(seq![mine], name, 0) == Some(value));
    assert(first_value(a, name, 0) == Some(value));
    assert(first_value(b, name, 0) == Some(value));
    assert(first_value(seq![not_mine], name, 0) is None);
}

proof fn lemma_unmarked(name: Seq<char>, value: Seq<char>)
    requires
        !name.contains(';'),
        !value.contains(';'),
    ensures
        !(name + seq!['='] + value).contains(';'),
{
    let s = name + seq!['='] + value;
    if s.contains(';') {
        let i = s.index_of(';');
        if i < name.len() {
            assert(name[i] == ';');
        } else if i > name.len() {
            assert(value[i - name.len() - 1] == ';');
        }
    }
}

proof fn lemma_pair(name: Seq<char>, value: Seq<char>, wanted: Seq<char>)
    requires
        name.len() > 0 && !name.contains('=') && !white_space(name[0]),
        value.len() > 0 && !white_space(value.last()),
    ensures
        pair_value(name + seq!['='] + value, wanted) == (if name == wanted {
            Some(value)
        } else {
            None
        }),
{
    reveal_strlit("=");
    lemma_one('=', "="@);
    let s = name + seq!['='] + value;
    let n = name.len() as int;
    assert(s[0] == name[0] && s.last() == value.last());
    assert(trimmed(s) == s);
    law_find_finds_the_first(s, "="@, 0);
    assert(s.subrange(n, n + 1) =~= "="@);
    let at = find(s, "="@)->0;
    if at < n {
        assert(s.subrange(at, at + 1)[0] == name[at]);
        assert(name[at] == '=');
    }
    assert(s.take(n) =~= name);
    assert(s.skip(n + 1) =~= value);
}

proof fn lemma_pair_spaced(name: Seq<char>, value: Seq<char>, wanted: Seq<char>)
    requires
        name.len() > 0 && !name.contains('=') && !white_space(name[0]),
        value.len() > 0 && !white_space(value.last()),
    ensures
        pair_value(seq![' '] + (name + seq!['='] + value), wanted) == (if name == wanted {
            Some(value)
        } else {
            None
        }),
{
    let s = name + seq!['='] + value;
    let t = seq![' '] + s;
    lemma_pair(name, value, wanted);
    assert(s[0] == name[0] && s.last() == value.last());
    assert(t.drop_first() =~= s);
    assert(white_space(' '));
    reveal_with_fuel(crate::text::trim_start, 2);
    assert(crate::text::trim_start(t) == s);
    assert(trimmed(t) == s);
    assert(trimmed(s) == s);
}

/// A cookie names itself and carries its value, is for the whole site, is kept
/// from scripts and from other sites, lasts as long as it is meant to, and goes
/// over plain connections only where those were asked for.
pub proof fn law_a_cookie_is_kept_close(options: ServeOptions, value: Seq<char>, secs: nat)
    ensures
        ({
            let text = cookie_text(options, value, secs);
            let kept = "; Path=/; HttpOnly; SameSite=Strict; Max-Age="@ + decimal(secs);
            &&& options.secure_cookies ==> text == "__Host-evo="@ + value + kept + "; Secure"@
            &&& !options.secure_cookies ==> text == "evo="@ + value + kept
        }),
{
    reveal_strlit("__Host-evo");
    reveal_strlit("__Host-evo=");
    reveal_strlit("evo");
    reveal_strlit("evo=");
    reveal_strlit("=");
    reveal_strlit("");
    let text = cookie_text(options, value, secs);
    let kept = "; Path=/; HttpOnly; SameSite=Strict; Max-Age="@ + decimal(secs);
    assert("__Host-evo"@ + "="@ =~= "__Host-evo="@);
    assert("evo"@ + "="@ =~= "evo="@);
    if options.secure_cookies {
        assert(text =~= "__Host-evo="@ + value + kept + "; Secure"@);
    } else {
        assert(text =~= "evo="@ + value + kept);
    }
}

/// A document nobody has drawn on has every page once, in order, the way up it
/// is, and nothing on any of them, in the format of today.
pub proof fn law_an_undrawn_document_is_as_it_is(pages: usize, i: int)
    ensures
        ({
            let m = crate::serve::markup_api::nothing_drawn(pages);
            &&& m.version == 2
            &&& m.annotations.len() == 0
            &&& m.order.len() == pages
            &&& 0 <= i < pages ==> m.order[i].page == i && m.order[i].rotation == 0
        }),
{
}

proof fn lemma_from_the_start(x: Seq<char>, rest: Seq<Seq<char>>, acc: ArgsV)
    requires
        rest.len() > 0 ==> rest[0] != "init"@,
    ensures
        flags_from(rest, 0, acc) == flags_from(seq![x] + rest, 1, acc),
{
    let all = seq![x] + rest;
    if rest.len() > 0 {
        assert(all[1] == rest[0]);
        assert(all.skip(2) =~= rest.skip(1));
        let (name, inline) = crate::serve::flag_parts(rest[0]);
        if crate::serve::has_value(name) {
            match inline {
                Some(value) => if let Ok(next) = crate::serve::with_value(acc, name, value) {
                    crate::serve::lemma_same_rest(rest, 1, all, 2, next);
                },
                None => if rest.len() > 1 {
                    assert(all[2] == rest[1]);
                    assert(all.skip(3) =~= rest.skip(2));
                    if let Ok(next) = crate::serve::with_value(acc, name, rest[1]) {
                        crate::serve::lemma_same_rest(rest, 2, all, 3, next);
                    }
                },
            }
        } else {
            let a = ArgsV { insecure_http: true, ..acc };
            let b = ArgsV { trust_proxy: true, ..acc };
            crate::serve::lemma_same_rest(rest, 1, all, 2, a);
            crate::serve::lemma_same_rest(rest, 1, all, 2, b);
        }
    }
}

/// Flags are read one after the other, to the last: what a flag and its value
/// set, those that follow are read on top of.
pub proof fn law_flags_are_read_to_the_last(
    name: Seq<char>,
    value: Seq<char>,
    rest: Seq<Seq<char>>,
    acc: ArgsV,
)
    requires
        rest.len() > 0 ==> rest[0] != "init"@,
        name == "--port"@ || name == "--bind"@ || name == "--data-dir"@ || name == "--config"@,
    ensures
        flags_from(seq![name, value] + rest, 0, acc) == match flags_from(
            seq![name, value],
            0,
            acc,
        ) {
            Ok(next) => flags_from(rest, 0, next),
            Err(e) => Err(e),
        },
        flags_from(seq!["--insecure-http"@] + rest, 0, acc) == flags_from(
            rest,
            0,
            ArgsV { insecure_http: true, ..acc },
        ),
        flags_from(seq!["--trust-proxy"@] + rest, 0, acc) == flags_from(
            rest,
            0,
            ArgsV { trust_proxy: true, ..acc },
        ),
        flags_from(seq!["init"@] + rest, 0, acc) == flags_from(rest, 0, ArgsV { init: true, ..acc }),
{
    lemma_flag_names();
    lemma_whole_flag(name);
    lemma_whole_flag("--insecure-http"@);
    lemma_whole_flag("--trust-proxy"@);
    lemma_valued(name, value, acc);
    let all = seq![name, value] + rest;
    assert(all[0] == name && all[1] == value);
    if let Ok(next) = crate::serve::with_value(acc, name, value) {
        let one = seq![value] + rest;
        assert(all.skip(2) =~= one.skip(1));
        crate::serve::lemma_same_rest(all, 2, one, 1, next);
        lemma_from_the_start(value, rest, next);
    }
    let (a, b, c) = (
        seq!["--insecure-http"@] + rest,
        seq!["--trust-proxy"@] + rest,
        seq!["init"@] + rest,
    );
    assert(a[0] == "--insecure-http"@ && b[0] == "--trust-proxy"@ && c[0] == "init"@);
    lemma_from_the_start("--insecure-http"@, rest, ArgsV { insecure_http: true, ..acc });
    lemma_from_the_start("--trust-proxy"@, rest, ArgsV { trust_proxy: true, ..acc });
    lemma_from_the_start("init"@, rest, ArgsV { init: true, ..acc });
}

/// A star is any version there is.
pub proof fn law_a_star_is_any_version(current: Seq<char>)
    ensures
        names_version(seq!['*'], current),
{
    reveal_strlit("*");
    lemma_one('*', "*"@);
    assert(!white_space('*'));
    assert(trimmed(seq!['*']) == seq!['*']);
}

/// A document sent without a name is given one, and keeps the title it was sent
/// with.
pub proof fn law_a_nameless_document_is_named(title: Seq<char>)
    requires
        clean(title),
    ensures
        named(None, Some(title)) == ("document.pdf"@, title),
        named(None, None) == ("document.pdf"@, "document"@),
{
    reveal_strlit("document.pdf");
    reveal_strlit("document");
    reveal_strlit(".pdf");
    lemma_printable_whole(title, 200);
    assert(trimmed(title) == title);
    let file = "document.pdf"@;
    assert(file.skip(file.len() - 4) =~= ".pdf"@);
    assert(file.take(file.len() - 4) =~= "document"@);
    assert(!white_space('d') && !white_space('t'));
    assert(trimmed("document"@) == "document"@);
}

/// A cookie may come in any of several headers; the first that has it counts.
pub proof fn law_a_cookie_may_come_in_any_header(
    before: Seq<Seq<char>>,
    header: Seq<char>,
    name: Seq<char>,
    after: Seq<Seq<char>>,
    from: int,
)
    requires
        0 <= from <= before.len(),
        forall|i: int|
            from <= i < before.len() ==> cookie_in(seq![#[trigger] before[i]], name, 0) is None,
        cookie_in(seq![header], name, 0) is Some,
    ensures
        cookie_in(before + seq![header] + after, name, from) == cookie_in(seq![header], name, 0),
    decreases before.len() - from,
{
    let all = before + seq![header] + after;
    assert(seq![header][0] == header);
    assert(cookie_in(seq![header], name, 1) is None);
    if from < before.len() {
        assert(all[from] == before[from]);
        assert(seq![before[from]][0] == before[from]);
        assert(cookie_in(seq![before[from]], name, 0) is None);
        assert(cookie_in(seq![before[from]], name, 1) is None);
        law_a_cookie_may_come_in_any_header(before, header, name, after, from + 1);
    } else {
        assert(all[from] == header);
    }
}

} // verus!
