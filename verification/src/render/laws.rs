//! What holds of drawing pages as a whole: which requests are drawn, at which
//! scale, by which engine, and what is kept of them.

use vstd::prelude::*;

use crate::render::cache::{
    each_once, entry_of, evicted, first_idle, law_eviction, lemma_others, others, still_waiting,
    total, CacheV, Entry, Key,
};
use crate::render::engine::{
    first_library, joined, library_name, locations, resolved, scale_for, Engine, EnginePref, Place,
    Zoom,
};
use crate::render::pdfium_fetch::{
    archive_member, first_setting, judged, percentage, setting, unpacked_from, MemberV,
};
use crate::render::{
    answers_to, bucket_of, drawn_of, dropped_of, key_of, like, law_one_per_page_and_class,
    RenderRequest,
};
use crate::text::{starts, trimmed};

verus! {

// ---------------------------------------------------------------------------
// Requests
// ---------------------------------------------------------------------------

/// Whether one request takes the other's place: the same page, both of them
/// thumbnails or neither.
pub open spec fn replaces(a: RenderRequest, b: RenderRequest) -> bool {
    a.page == b.page && ((a.scale == 220) <==> (b.scale == 220))
}

proof fn lemma_like_keeps(s: Seq<RenderRequest>, r: RenderRequest, e: RenderRequest)
    requires
        s.contains(e),
        !replaces(e, r),
    ensures
        like(s, r, false).contains(e),
    decreases s.len(),
{
    let t = s.drop_last();
    let k = s.index_of(e);
    if k < s.len() - 1 {
        assert(t[k] == e);
        lemma_like_keeps(t, r, e);
        let j = like(t, r, false).index_of(e);
        assert(like(s, r, false)[j] == e);
    } else {
        let l = like(s, r, false);
        assert(l[l.len() - 1] == e);
    }
}

/// A request that no later one takes the place of is drawn: only one for the
/// same page and of the same class ever does, so a thumbnail never costs a page
/// its picture, nor one page another.
pub proof fn law_the_newest_is_drawn(s: Seq<RenderRequest>, k: int)
    requires
        0 <= k < s.len(),
        forall|j: int| k < j < s.len() ==> !replaces(#[trigger] s[j], s[k]),
    ensures
        drawn_of(s).contains(s[k]),
    decreases s.len(),
{
    let t = s.drop_last();
    if k < s.len() - 1 {
        assert(t[k] == s[k]);
        assert forall|j: int| k < j < t.len() implies !replaces(#[trigger] t[j], t[k]) by {
            assert(t[j] == s[j]);
        }
        law_the_newest_is_drawn(t, k);
        assert(!replaces(s[s.len() - 1], s[k]));
        lemma_like_keeps(drawn_of(t), s.last(), s[k]);
        let l = like(drawn_of(t), s.last(), false);
        let j = l.index_of(s[k]);
        assert(drawn_of(s)[j] == s[k]);
    } else {
        let d = drawn_of(s);
        assert(d[d.len() - 1] == s[k]);
    }
}

/// No page is drawn twice in one class, and what is dropped has another drawn
/// in its place.
pub proof fn law_a_page_is_drawn_once(s: Seq<RenderRequest>)
    ensures
        forall|i: int, j: int|
            0 <= i < j < drawn_of(s).len() ==> !replaces(
                #[trigger] drawn_of(s)[i],
                #[trigger] drawn_of(s)[j],
            ),
        forall|i: int|
            0 <= i < dropped_of(s).len() ==> exists|j: int|
                0 <= j < drawn_of(s).len() && replaces(
                    #[trigger] drawn_of(s)[j],
                    #[trigger] dropped_of(s)[i],
                ),
        drawn_of(s).len() + dropped_of(s).len() == s.len(),
    decreases s.len(),
{
    law_one_per_page_and_class(s);
    assert forall|i: int| 0 <= i < dropped_of(s).len() implies exists|j: int|
        0 <= j < drawn_of(s).len() && replaces(
            #[trigger] drawn_of(s)[j],
            #[trigger] dropped_of(s)[i],
        ) by {
        let j = choose|j: int|
            0 <= j < drawn_of(s).len() && crate::render::alike(
                #[trigger] drawn_of(s)[j],
                dropped_of(s)[i],
            );
        assert(replaces(drawn_of(s)[j], dropped_of(s)[i]));
    }
    if s.len() > 0 {
        law_a_page_is_drawn_once(s.drop_last());
        lemma_like_parts(drawn_of(s.drop_last()), s.last());
    }
}

proof fn lemma_like_parts(s: Seq<RenderRequest>, r: RenderRequest)
    ensures
        like(s, r, true).len() + like(s, r, false).len() == s.len(),
    decreases s.len(),
{
    if s.len() > 0 {
        lemma_like_parts(s.drop_last(), r);
    }
}

/// Every answer says which engine drew, and carries the page and scale of its
/// own request.
pub proof fn law_answers_name_their_requests(
    dropped: Seq<RenderRequest>,
    batch: Seq<RenderRequest>,
    drawn: Seq<Option<crate::render::engine::RenderedPage>>,
    engine: Engine,
)
    requires
        drawn.len() == batch.len(),
    ensures
        ({
            let all = answers_to(dropped, batch, drawn, engine);
            &&& all.len() == dropped.len() + batch.len()
            &&& forall|i: int| 0 <= i < all.len() ==> (#[trigger] all[i]).engine == engine
            &&& forall|i: int|
                0 <= i < dropped.len() ==> (#[trigger] all[i]).page == dropped[i].page
                    && all[i].scale == dropped[i].scale && all[i].image is None
            &&& forall|i: int|
                dropped.len() <= i < all.len() ==> {
                    let at = i - dropped.len();
                    (#[trigger] all[i]).page == batch[at].page && all[i].scale == batch[at].scale
                        && all[i].image == drawn[at]
                }
        }),
{
}

/// A bucket is the nearest quarter at or above the scale, and buckets that
/// differ have different keys.
pub proof fn law_buckets_are_quarters(a: u32, b: u32)
    ensures
        bucket_of(a) % 250 == 0,
        250 <= a <= 8000 ==> a <= bucket_of(a) < a + 250,
        a < 250 ==> bucket_of(a) == 250,
        a > 8000 ==> bucket_of(a) == 8000,
        a <= b ==> bucket_of(a) <= bucket_of(b),
        bucket_of(a) != bucket_of(b) ==> key_of(bucket_of(a)) != key_of(bucket_of(b)),
        -5 <= key_of(a) * 10 - a <= 5,
{
}

// ---------------------------------------------------------------------------
// Scales and engines
// ---------------------------------------------------------------------------

/// A page that fits is drawn at the very scale that was asked for, or as wide
/// as was asked for, to the thousandth below.
pub proof fn law_the_scale_is_what_was_asked_for(zoom: Zoom, width: u32, height: u32)
    requires
        width >= 1000,
        height >= 1000,
    ensures
        ({
            let r = scale_for(zoom, width, height);
            match zoom {
                Zoom::Factor(factor) => 10 <= factor <= 8000 && factor * width <= 8_000_000_000
                    && factor * height <= 8_000_000_000 ==> r == factor,
                Zoom::FitWidth(pixels) => 10 < r < 8000 && (r + 1) * height <= 8_000_000_000
                    && pixels <= 8000 ==> r * width <= pixels * 1_000_000 < (r + 1) * width,
            }
        }),
{
    let r = scale_for(zoom, width, height);
    let (w, h) = (width as int, height as int);
    let (mw, mh) = (8_000_000_000int / w, 8_000_000_000int / h);
    match zoom {
        Zoom::Factor(factor) => {
            let f = factor as int;
            if 10 <= f <= 8000 && f * w <= 8_000_000_000 && f * h <= 8_000_000_000 {
                assert(f <= mw) by (nonlinear_arith)
                    requires
                        f * w <= 8_000_000_000,
                        w > 0,
                        mw == 8_000_000_000int / w,
                ;
                assert(f <= mh) by (nonlinear_arith)
                    requires
                        f * h <= 8_000_000_000,
                        h > 0,
                        mh == 8_000_000_000int / h,
                ;
            }
        },
        Zoom::FitWidth(pixels) => {
            let n = pixels * 1_000_000;
            let asked = n / w;
            assert(asked * w <= n < (asked + 1) * w) by (nonlinear_arith)
                requires
                    asked == n / w,
                    w > 0,
            ;
            if 10 < r < 8000 && (r + 1) * h <= 8_000_000_000 && pixels <= 8000 {
                assert(r + 1 <= mh) by (nonlinear_arith)
                    requires
                        (r + 1) * h <= 8_000_000_000,
                        h > 0,
                        mh == 8_000_000_000int / h,
                ;
                assert(asked <= mw) by (nonlinear_arith)
                    requires
                        n <= 8_000_000_000,
                        w > 0,
                        asked == n / w,
                        mw == 8_000_000_000int / w,
                ;
                assert(r == asked);
            }
        },
    }
}

/// A renderer asked for by name is the one used, and otherwise PDFium exactly
/// where it can be loaded.
pub proof fn law_a_named_engine_is_used(available: bool)
    ensures
        resolved(EnginePref::Hayro, available) is Hayro,
        resolved(EnginePref::Pdfium, available) is Pdfium,
        resolved(EnginePref::Auto, available) is Pdfium <==> available,
{
}

/// The library is taken from the first place that has it, and from none only
/// where none has it.
pub proof fn law_the_first_library_is_taken(places: Seq<Place>, os: Seq<char>, from: int)
    requires
        0 <= from <= places.len(),
    ensures
        match first_library(places, os, from) {
            Some(path) => exists|i: int|
                #![trigger places[i]]
                from <= i < places.len() && (if places[i].is_file {
                    path == places[i].path@
                } else {
                    places[i].holds && path == joined(places[i].path@, library_name(os))
                }) && forall|j: int|
                    from <= j < i ==> !(#[trigger] places[j]).is_file && !places[j].holds,
            None => forall|j: int|
                from <= j < places.len() ==> !(#[trigger] places[j]).is_file && !places[j].holds,
        },
    decreases places.len() - from,
{
    if from < places.len() {
        if !places[from].is_file && !places[from].holds {
            law_the_first_library_is_taken(places, os, from + 1);
            if let Some(path) = first_library(places, os, from + 1) {
                let i = choose|i: int|
                    #![trigger places[i]]
                    from + 1 <= i < places.len() && (if places[i].is_file {
                        path == places[i].path@
                    } else {
                        places[i].holds && path == joined(places[i].path@, library_name(os))
                    }) && forall|j: int|
                        from + 1 <= j < i ==> !(#[trigger] places[j]).is_file && !places[j].holds;
                assert(places[i].is_file || places[i].holds);
            }
        } else {
            let here = places[from];
        }
    }
}

/// What the environment names comes before everything else, and what was
/// downloaded after everything else.
pub proof fn law_the_environment_comes_first(
    from_env: Option<Seq<char>>,
    exe_dir: Option<Seq<char>>,
    data_dir: Option<Seq<char>>,
)
    ensures
        ({
            let all = locations(from_env, exe_dir, data_dir);
            &&& from_env matches Some(s) ==> all.len() > 0 && all[0] == s
            &&& data_dir matches Some(d) ==> all.len() > 0 && all.last() == d
            &&& exe_dir matches Some(d) ==> all.contains(d)
        }),
{
    let all = locations(from_env, exe_dir, data_dir);
    if let Some(d) = exe_dir {
        let k: int = if from_env is Some {
            1
        } else {
            0
        };
        assert(all[k] == d);
    }
}

/// A path put together begins with the directory and ends with the name, with
/// one slash between them, unless the name is a path from the root.
pub proof fn law_a_path_has_both_parts(dir: Seq<char>, name: Seq<char>)
    requires
        !(name.len() > 0 && name[0] == '/'),
        dir.len() > 0,
    ensures
        dir.last() != '/' ==> joined(dir, name) == dir.push('/') + name,
        dir.last() == '/' ==> joined(dir, name) == dir + name,
{
    reveal_strlit("/");
    assert(dir + "/"@ + name =~= dir.push('/') + name);
}

// ---------------------------------------------------------------------------
// The cache
// ---------------------------------------------------------------------------

/// What is held is found, and only what is held.
pub proof fn law_what_is_held_is_found(s: Seq<Entry>, e: Entry)
    requires
        each_once(s),
    ensures
        s.contains(e) <==> entry_of(s, e.key) == Some(e),
    decreases s.len(),
{
    lemma_others(s, e.key);
    if s.len() > 0 && s.contains(e) {
        let t = s.drop_last();
        let k = s.index_of(e);
        if k < s.len() - 1 {
            assert(t[k] == e);
            assert(s[k].key != s[s.len() - 1].key);
            assert(each_once(t)) by {
                assert forall|i: int, j: int| 0 <= i < j < t.len() implies (#[trigger] t[i]).key
                    != (#[trigger] t[j]).key by {
                    assert(s[i].key != s[j].key);
                }
            }
            law_what_is_held_is_found(t, e);
        }
    }
}

proof fn lemma_evicted_once(s: Seq<Entry>, touched: Set<Key>, budget: int)
    requires
        each_once(s),
    ensures
        each_once(evicted(s, touched, budget)),
    decreases s.len(),
{
    if total(s) > budget {
        if let Some(k) = first_idle(s, touched, 0) {
            if 0 <= k < s.len() {
                let t = s.remove(k);
                assert forall|i: int, j: int| 0 <= i < j < t.len() implies (#[trigger] t[i]).key
                    != (#[trigger] t[j]).key by {
                    let a = if i < k { i } else { i + 1 };
                    let b = if j < k { j } else { j + 1 };
                    assert(s[a].key != s[b].key);
                }
                lemma_evicted_once(t, touched, budget);
            }
        }
    }
}

/// A picture that was put in is found again, whatever had to go for it.
pub proof fn law_an_inserted_picture_is_found(c: CacheV, e: Entry)
    requires
        each_once(c.entries),
    ensures
        entry_of(c.inserted(e).entries, e.key) == Some(e),
        !c.inserted(e).pending.contains_key(e.key),
        forall|k: Key|
            k != e.key ==> (#[trigger] c.inserted(e).pending.contains_key(k)
                <==> c.pending.contains_key(k)),
{
    let u = c.used(e);
    let s = u.entries;
    lemma_others(c.entries, e.key);
    let o = others(c.entries, e.key);
    assert(each_once(s)) by {
        assert forall|i: int, j: int| 0 <= i < j < s.len() implies (#[trigger] s[i]).key != (
        #[trigger] s[j]).key by {
            assert(s[i] == o[i]);
            if j < o.len() {
                assert(s[j] == o[j]);
            }
        }
    }
    law_eviction(s, u.touched, c.budget as int);
    assert(s[s.len() - 1] == e);
    assert(u.touched.contains(e.key));
    lemma_evicted_once(s, u.touched, c.budget as int);
    law_what_is_held_is_found(c.inserted(e).entries, e);
}

/// A request is waited for from when it is sent, for five seconds, and no
/// longer than until it is answered.
pub proof fn law_a_request_is_waited_for(p: Map<Key, u64>, key: Key, sent: u64, now: u64)
    ensures
        still_waiting(p.insert(key, sent), key, now) <==> now < sent + 5000,
        !still_waiting(p.remove(key), key, now),
        forall|other: Key|
            other != key ==> (#[trigger] still_waiting(p.insert(key, sent), other, now)
                <==> still_waiting(p, other, now)),
{
}

// ---------------------------------------------------------------------------
// The download
// ---------------------------------------------------------------------------

proof fn lemma_setting(line: Seq<char>, key: Seq<char>, value: Seq<char>)
    requires
        setting(line, key) == Some(value),
    ensures
        trimmed(line) == key + seq!['='] + value,
        !starts(trimmed(line), "#"@),
{
    reveal_strlit("=");
    let t = trimmed(line);
    let rest = t.skip(key.len() as int);
    assert(rest.take(1) == "="@);
    assert(rest =~= rest.take(1) + rest.skip(1));
    assert(t =~= t.take(key.len() as int) + rest);
    assert("="@ =~= seq!['=']);
    assert(t =~= key + seq!['='] + value);
}

/// A setting is a line that reads `key=value`, white space around it aside, and
/// the first such line counts.
pub proof fn law_the_first_setting_counts(lines: Seq<Seq<char>>, key: Seq<char>, from: int)
    requires
        0 <= from <= lines.len(),
    ensures
        match first_setting(lines, key, from) {
            Some(value) => exists|i: int|
                #![trigger lines[i]]
                from <= i < lines.len() && trimmed(lines[i]) == key + seq!['='] + value
                    && !starts(trimmed(lines[i]), "#"@) && forall|j: int|
                    from <= j < i ==> setting(#[trigger] lines[j], key) is None,
            None => forall|j: int|
                from <= j < lines.len() ==> setting(#[trigger] lines[j], key) is None,
        },
    decreases lines.len() - from,
{
    if from < lines.len() {
        if let Some(value) = setting(lines[from], key) {
            lemma_setting(lines[from], key, value);
        } else {
            law_the_first_setting_counts(lines, key, from + 1);
            if let Some(value) = first_setting(lines, key, from + 1) {
                let i = choose|i: int|
                    #![trigger lines[i]]
                    from + 1 <= i < lines.len() && trimmed(lines[i]) == key + seq!['='] + value
                        && !starts(trimmed(lines[i]), "#"@) && forall|j: int|
                        from + 1 <= j < i ==> setting(#[trigger] lines[j], key) is None;
                let there = lines[i];
            }
        }
    }
}

/// A line that reads `key=value` sets the key, unless the key makes it a
/// comment.
pub proof fn law_a_setting_is_read(key: Seq<char>, value: Seq<char>, line: Seq<char>)
    requires
        trimmed(line) == key + seq!['='] + value,
        key.len() > 0,
        key[0] != '#',
    ensures
        setting(line, key) == Some(value),
{
    reveal_strlit("=");
    reveal_strlit("#");
    let t = trimmed(line);
    assert(t.take(1)[0] == key[0]);
    assert("#"@[0] == '#');
    assert(!starts(t, "#"@));
    assert(t.take(key.len() as int) =~= key);
    let rest = t.skip(key.len() as int);
    assert(rest =~= seq!['='] + value);
    assert(rest.take(1) =~= "="@);
    assert(rest.skip(1) =~= value);
}

/// What is unpacked is the member that was asked for, and the first of that
/// name.
pub proof fn law_the_member_asked_for_is_unpacked(
    archive: Seq<u8>,
    path: Seq<char>,
    member: Seq<char>,
    part: Seq<char>,
    at: usize,
    bytes: Seq<u8>,
)
    requires
        unpacked_from(archive, path, member, part, at) == Ok::<_, Seq<char>>(bytes),
    ensures
        exists|k: usize|
            at <= k && (#[trigger] archive_member(archive, k)) == Ok::<_, Seq<char>>(
                Some(MemberV::Read(member, bytes)),
            ) && forall|j: usize|
                at <= j < k ==> !(#[trigger] archive_member(archive, j) matches Ok(
                    Some(MemberV::Read(name, _)),
                ) && name == member),
    decreases usize::MAX - at,
{
    match archive_member(archive, at) {
        Err(_) => {},
        Ok(m) => {
            if judged(m, member, part) is None && at < usize::MAX {
                let next = (at + 1) as usize;
                law_the_member_asked_for_is_unpacked(archive, path, member, part, next, bytes);
                let k = choose|k: usize|
                    next <= k && (#[trigger] archive_member(archive, k)) == Ok::<_, Seq<char>>(
                        Some(MemberV::Read(member, bytes)),
                    ) && forall|j: usize|
                        next <= j < k ==> !(#[trigger] archive_member(archive, j) matches Ok(
                            Some(MemberV::Read(name, _)),
                        ) && name == member);
                assert forall|j: usize| at <= j < k implies !(#[trigger] archive_member(archive, j)
                    matches Ok(Some(MemberV::Read(name, _))) && name == member) by {
                    if j != at {
                        assert(next <= j);
                    }
                }
            }
        },
    }
}

/// The percentage is right to within one, and all of a download is a hundred.
pub proof fn law_a_percentage_is_a_hundredth(received: u64, total: u64)
    requires
        received <= total,
    ensures
        total == 0 ==> percentage(received, total) is None,
        total > 0 ==> (percentage(received, total) matches Some(p) && p * total <= received * 100
            && received * 100 < (p + 1) * total && p <= 100),
        total > 0 && received == total ==> percentage(received, total) == Some(100u64),
{
    if total > 0 {
        let q = received * 100 / total as int;
        assert(q * total <= received * 100 < (q + 1) * total && 0 <= q <= 100) by (nonlinear_arith)
            requires
                q == received * 100 / total as int,
                0 <= received <= total,
                0 < total,
        ;
        if received == total {
            assert(q == 100) by (nonlinear_arith)
                requires
                    q == received * 100 / total as int,
                    received == total,
                    0 < total,
            ;
        }
    }
}

/// A lock file is read line by line: what the first part of it sets is what it
/// says, and only where that says nothing does what follows count.
pub proof fn law_a_lock_file_is_read_in_order(a: Seq<char>, b: Seq<char>, key: Seq<char>)
    ensures
        crate::render::pdfium_fetch::pinned(a + seq!['\n'] + b, key) == match
            crate::render::pdfium_fetch::pinned(a, key) {
            Some(v) => Some(v),
            None => crate::render::pdfium_fetch::pinned(b, key),
        },
{
    reveal_strlit("\n");
    assert("\n"@ =~= seq!['\n']);
    crate::text::law_a_mark_parts_the_pieces(a, '\n', b);
    let (x, y) = (crate::text::pieces(a, "\n"@), crate::text::pieces(b, "\n"@));
    lemma_setting_appended(x, y, key, 0);
}

proof fn lemma_setting_appended(x: Seq<Seq<char>>, y: Seq<Seq<char>>, key: Seq<char>, from: int)
    requires
        0 <= from <= x.len(),
    ensures
        first_setting(x + y, key, from) == match first_setting(x, key, from) {
            Some(v) => Some(v),
            None => first_setting(y, key, 0),
        },
    decreases x.len() - from,
{
    if from < x.len() {
        assert((x + y)[from] == x[from]);
        lemma_setting_appended(x, y, key, from + 1);
    } else {
        lemma_setting_behind(x, y, key, 0);
    }
}

proof fn lemma_setting_behind(x: Seq<Seq<char>>, y: Seq<Seq<char>>, key: Seq<char>, from: int)
    requires
        0 <= from <= y.len(),
    ensures
        first_setting(x + y, key, x.len() + from) == first_setting(y, key, from),
    decreases y.len() - from,
{
    if from < y.len() {
        assert((x + y)[x.len() + from] == y[from]);
        lemma_setting_behind(x, y, key, from + 1);
    }
}

/// Each platform has an archive of its own, with the digest the lock file gives
/// that platform; a Mac has one for either processor, and no other platform has
/// any.
pub proof fn law_each_platform_has_its_own_archive(
    lock: crate::render::pdfium_fetch::Lock,
    arch: Seq<char>,
    os: Seq<char>,
)
    ensures
        crate::render::pdfium_fetch::archive_for(lock, "macos"@, arch) matches Some(a) && a.1
            == lock.mac_univ@ && a.2 == "lib/libpdfium.dylib"@,
        crate::render::pdfium_fetch::archive_for(lock, "linux"@, "x86_64"@) matches Some(a) && a.1
            == lock.linux_x64@ && a.2 == "lib/libpdfium.so"@,
        crate::render::pdfium_fetch::archive_for(lock, "windows"@, "x86_64"@) matches Some(a) && a.1
            == lock.win_x64@ && a.2 == "bin/pdfium.dll"@,
        os != "macos"@ && arch != "x86_64"@ ==> crate::render::pdfium_fetch::archive_for(
            lock,
            os,
            arch,
        ) is None,
        os != "macos"@ && os != "linux"@ && os != "windows"@
            ==> crate::render::pdfium_fetch::archive_for(lock, os, arch) is None,
{
    reveal_strlit("macos");
    reveal_strlit("linux");
    reveal_strlit("windows");
    assert("macos"@[0] != "linux"@[0]);
    assert("macos"@.len() != "windows"@.len());
    assert("linux"@.len() != "windows"@.len());
}

/// The library goes where `--into` says, or nowhere in particular; anything
/// else is refused.
pub proof fn law_the_library_goes_where_it_is_sent(
    args: Seq<Seq<char>>,
    dir: Seq<char>,
    tag: Seq<char>,
)
    ensures
        crate::render::pdfium_fetch::said(seq!["--into"@, dir], tag) == Ok::<_, Seq<char>>(
            Some(dir),
        ),
        crate::render::pdfium_fetch::said(args, tag) is Ok ==> args.len() == 0 || (args.len() == 2
            && args[0] == "--into"@),
        args.len() == 0 ==> crate::render::pdfium_fetch::said(args, tag) == Ok::<
            Option<Seq<char>>,
            Seq<char>,
        >(None),
{
}

} // verus!
