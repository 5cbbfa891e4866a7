//! Text as sequences of characters: trimming, searching, splitting, and whole
//! numbers written and read in decimal.

use vstd::prelude::*;

verus! {

/// `String::push` appends one character.
pub assume_specification[ String::push ](s: &mut String, c: char)
    ensures
        final(s)@ == old(s)@.push(c),
;

/// `char::is_whitespace` is membership in Unicode's `White_Space` property.
pub assume_specification[ char::is_whitespace ](c: char) -> (b: bool)
    ensures
        b == white_space(c),
;

/// The characters with Unicode's `White_Space` property.
pub open spec fn white_space(c: char) -> bool {
    let n = c as int;
    ||| 9 <= n <= 13
    ||| n == 0x20
    ||| n == 0x85
    ||| n == 0xa0
    ||| n == 0x1680
    ||| 0x2000 <= n <= 0x200a
    ||| n == 0x2028
    ||| n == 0x2029
    ||| n == 0x202f
    ||| n == 0x205f
    ||| n == 0x3000
}

/// The characters of `s`, one by one.
pub fn to_chars(s: &str) -> (v: Vec<char>)
    ensures
        v@ == s@,
{
    let mut v: Vec<char> = Vec::new();
    for c in it: s.chars()
        invariant
            it.seq() == s@,
            v@ == s@.take(it.index() as int),
    {
        proof {
            assert(s@.take(it.index() as int + 1) =~= s@.take(it.index() as int).push(c));
        }
        v.push(c);
    }
    proof {
        assert(s@.take(s@.len() as int) =~= s@);
    }
    v
}

/// The string those characters spell, from `from` up to but not including `to`.
pub fn from_chars(v: &Vec<char>, from: usize, to: usize) -> (s: String)
    requires
        from <= to <= v@.len(),
    ensures
        s@ == v@.subrange(from as int, to as int),
{
    let mut s: String = String::new();
    let mut i: usize = from;
    while i < to
        invariant
            from <= i <= to <= v@.len(),
            s@ == v@.subrange(from as int, i as int),
        decreases to - i,
    {
        s.push(v[i]);
        proof {
            assert(v@.subrange(from as int, i + 1) =~= v@.subrange(from as int, i as int).push(
                v@[i as int],
            ));
        }
        i += 1;
    }
    s
}

/// Whether two strings spell the same thing.
pub fn same(a: &str, b: &str) -> (r: bool)
    ensures
        r == (a@ == b@),
{
    a.to_owned() == b.to_owned()
}

// ---------------------------------------------------------------------------
// Trimming
// ---------------------------------------------------------------------------

/// `s` without the white space it begins with.
pub open spec fn trim_start(s: Seq<char>) -> Seq<char>
    decreases s.len(),
{
    if s.len() > 0 && white_space(s[0]) {
        trim_start(s.drop_first())
    } else {
        s
    }
}

/// `s` without the white space it ends with.
pub open spec fn trim_end(s: Seq<char>) -> Seq<char>
    decreases s.len(),
{
    if s.len() > 0 && white_space(s.last()) {
        trim_end(s.drop_last())
    } else {
        s
    }
}

/// `s` without the white space at either end.
pub open spec fn trimmed(s: Seq<char>) -> Seq<char> {
    trim_end(trim_start(s))
}

/// Whether there is nothing but white space in `s`.
pub open spec fn blank(s: Seq<char>) -> bool {
    trimmed(s).len() == 0
}

fn trim_end_from(v: &Vec<char>, from: usize) -> (r: String)
    requires
        from <= v@.len(),
    ensures
        r@ == trim_end(v@.skip(from as int)),
{
    let mut to: usize = v.len();
    while to > from && v[to - 1].is_whitespace()
        invariant
            from <= to <= v@.len(),
            trim_end(v@.skip(from as int)) == trim_end(v@.subrange(from as int, to as int)),
        decreases to,
    {
        proof {
            let cut = v@.subrange(from as int, to as int);
            assert(cut.drop_last() =~= v@.subrange(from as int, to - 1));
            assert(cut.last() == v@[to - 1]);
        }
        to -= 1;
    }
    proof {
        let cut = v@.subrange(from as int, to as int);
        if to > from {
            assert(cut.last() == v@[to - 1]);
        }
    }
    from_chars(v, from, to)
}

/// `s` without the white space at either end.
pub fn trim(s: &str) -> (r: String)
    ensures
        r@ == trimmed(s@),
{
    let v: Vec<char> = to_chars(s);
    let mut from: usize = 0;
    proof {
        assert(v@.skip(0) =~= v@);
    }
    while from < v.len() && v[from].is_whitespace()
        invariant
            from <= v@.len(),
            v@ == s@,
            trim_start(s@) == trim_start(v@.skip(from as int)),
        decreases v@.len() - from,
    {
        proof {
            assert(v@.skip(from as int).drop_first() =~= v@.skip(from + 1));
        }
        from += 1;
    }
    proof {
        if from < v@.len() {
            assert(v@.skip(from as int)[0] == v@[from as int]);
        }
    }
    trim_end_from(&v, from)
}

/// `s` without the white space it ends with.
pub fn trim_tail(s: &str) -> (r: String)
    ensures
        r@ == trim_end(s@),
{
    let v: Vec<char> = to_chars(s);
    proof {
        assert(v@.skip(0) =~= v@);
    }
    trim_end_from(&v, 0)
}

/// What `trim_end` leaves is a prefix that does not end in white space.
pub proof fn lemma_trim_end(s: Seq<char>)
    ensures
        trim_end(s).len() <= s.len(),
        trim_end(s) == s.take(trim_end(s).len() as int),
        trim_end(s).len() > 0 ==> !white_space(trim_end(s).last()),
    decreases s.len(),
{
    if s.len() > 0 && white_space(s.last()) {
        lemma_trim_end(s.drop_last());
        let t = trim_end(s.drop_last());
        assert(s.drop_last().take(t.len() as int) =~= s.take(t.len() as int));
    } else {
        assert(s.take(s.len() as int) =~= s);
    }
}

/// `s` without the characters `c` it ends with.
pub open spec fn trim_end_of(s: Seq<char>, c: char) -> Seq<char>
    decreases s.len(),
{
    if s.len() > 0 && s.last() == c {
        trim_end_of(s.drop_last(), c)
    } else {
        s
    }
}

/// `s` without the characters `c` it ends with.
pub fn trim_tail_of(s: &str, c: char) -> (r: String)
    ensures
        r@ == trim_end_of(s@, c),
{
    let v: Vec<char> = to_chars(s);
    let mut to: usize = v.len();
    proof {
        assert(v@.take(to as int) =~= v@);
    }
    while to > 0 && v[to - 1] == c
        invariant
            to <= v@.len(),
            trim_end_of(s@, c) == trim_end_of(v@.take(to as int), c),
        decreases to,
    {
        proof {
            assert(v@.take(to as int).drop_last() =~= v@.take(to - 1));
        }
        to -= 1;
    }
    proof {
        assert(v@.subrange(0, to as int) =~= v@.take(to as int));
    }
    from_chars(&v, 0, to)
}

// ---------------------------------------------------------------------------
// Words
// ---------------------------------------------------------------------------

/// How many characters `s` begins with that are not white space.
pub open spec fn word_len(s: Seq<char>) -> nat
    decreases s.len(),
{
    if s.len() == 0 || white_space(s[0]) {
        0
    } else {
        1 + word_len(s.drop_first())
    }
}

pub proof fn lemma_word_len(s: Seq<char>)
    ensures
        word_len(s) <= s.len(),
        s.len() > 0 && !white_space(s[0]) ==> word_len(s) > 0,
        trim_start(s).len() <= s.len(),
        trim_start(s).len() > 0 ==> !white_space(trim_start(s)[0]),
    decreases s.len(),
{
    if s.len() > 0 {
        lemma_word_len(s.drop_first());
    }
}

/// The words of `s`: the runs of characters between white space.
pub open spec fn words_of(s: Seq<char>) -> Seq<Seq<char>>
    decreases s.len(),
{
    let t = trim_start(s);
    if t.len() == 0 {
        Seq::empty()
    } else {
        proof {
            lemma_word_len(s);
            lemma_word_len(t);
        }
        seq![t.take(word_len(t) as int)] + words_of(t.skip(word_len(t) as int))
    }
}

/// The words of `s`, in order.
pub fn words(s: &str) -> (r: Vec<String>)
    ensures
        texts(r@) == words_of(s@),
{
    let v: Vec<char> = to_chars(s);
    let mut r: Vec<String> = Vec::new();
    let mut at: usize = 0;
    proof {
        assert(v@.skip(0) =~= v@);
        assert(texts(r@) + words_of(v@.skip(0)) =~= words_of(s@));
    }
    loop
        invariant_except_break
            at <= v@.len(),
            texts(r@) + words_of(v@.skip(at as int)) == words_of(s@),
        ensures
            texts(r@) == words_of(s@),
        decreases v@.len() - at,
    {
        let ghost rest = v@.skip(at as int);
        let mut from: usize = at;
        while from < v.len() && v[from].is_whitespace()
            invariant
                at <= from <= v@.len(),
                rest == v@.skip(at as int),
                trim_start(rest) == trim_start(v@.skip(from as int)),
            decreases v@.len() - from,
        {
            proof {
                assert(v@.skip(from as int).drop_first() =~= v@.skip(from + 1));
            }
            from += 1;
        }
        let ghost t = v@.skip(from as int);
        if from == v.len() {
            proof {
                assert(texts(r@) + Seq::<Seq<char>>::empty() =~= texts(r@));
            }
            break;
        }
        let mut to: usize = from;
        while to < v.len() && !v[to].is_whitespace()
            invariant
                from <= to <= v@.len(),
                t == v@.skip(from as int),
                word_len(t) == (to - from) + word_len(v@.skip(to as int)),
            decreases v@.len() - to,
        {
            proof {
                assert(v@.skip(to as int).drop_first() =~= v@.skip(to + 1));
            }
            to += 1;
        }
        let word: String = from_chars(&v, from, to);
        proof {
            lemma_word_len(t);
            assert(word@ =~= t.take(word_len(t) as int));
            assert(t.skip(word_len(t) as int) =~= v@.skip(to as int));
            assert(texts(r@.push(word)) =~= texts(r@).push(word@));
            assert(texts(r@).push(word@) + words_of(v@.skip(to as int)) =~= texts(r@) + words_of(
                rest,
            ));
        }
        r.push(word);
        at = to;
    }
    r
}

// ---------------------------------------------------------------------------
// Prefixes and searching
// ---------------------------------------------------------------------------

/// Whether `s` begins with `p`.
pub open spec fn starts(s: Seq<char>, p: Seq<char>) -> bool {
    p.len() <= s.len() && s.take(p.len() as int) == p
}

/// Whether `p` stands at position `at` of `s`.
pub open spec fn stands_at(s: Seq<char>, p: Seq<char>, at: int) -> bool {
    at + p.len() <= s.len() && s.subrange(at, at + p.len()) == p
}

/// Where `p` first stands in `s`, at or after `from`.
pub open spec fn find_from(s: Seq<char>, p: Seq<char>, from: int) -> Option<int>
    decreases s.len() + 1 - from,
{
    if from < 0 || from + p.len() > s.len() {
        None
    } else if stands_at(s, p, from) {
        Some(from)
    } else {
        find_from(s, p, from + 1)
    }
}

/// Where `p` first stands in `s`.
pub open spec fn find(s: Seq<char>, p: Seq<char>) -> Option<int> {
    find_from(s, p, 0)
}

/// Whether `p` stands anywhere in `s`.
pub open spec fn holds(s: Seq<char>, p: Seq<char>) -> bool {
    find(s, p) is Some
}

/// What `find` answers is in range.
pub proof fn lemma_find_range(s: Seq<char>, p: Seq<char>, from: int)
    requires
        0 <= from,
    ensures
        find_from(s, p, from) matches Some(at) ==> from <= at && stands_at(s, p, at),
    decreases s.len() + 1 - from,
{
    if from + p.len() <= s.len() && !stands_at(s, p, from) {
        lemma_find_range(s, p, from + 1);
    }
}

/// Whether `p` stands at `at` in `v`.
pub fn matches_at(v: &Vec<char>, p: &Vec<char>, at: usize) -> (r: bool)
    ensures
        r == stands_at(v@, p@, at as int),
{
    let n: usize = v.len();
    if p.len() > n || at > n - p.len() {
        return false;
    }
    let mut i: usize = 0;
    while i < p.len()
        invariant
            i <= p@.len(),
            at + p@.len() <= n,
            n == v@.len(),
            forall|j: int| 0 <= j < i ==> v@[at + j] == p@[j],
        decreases p@.len() - i,
    {
        if v[at + i] != p[i] {
            proof {
                let cut = v@.subrange(at as int, at + p@.len());
                assert(cut[i as int] == v@[at + i]);
            }
            return false;
        }
        i += 1;
    }
    proof {
        assert(v@.subrange(at as int, at + p@.len()) =~= p@);
    }
    true
}

/// Where `p` first stands in `v`, at or after `from`.
pub fn position_from(v: &Vec<char>, p: &Vec<char>, from: usize) -> (r: Option<usize>)
    ensures
        match r {
            Some(at) => find_from(v@, p@, from as int) == Some(at as int),
            None => find_from(v@, p@, from as int) is None,
        },
{
    let n: usize = v.len();
    let mut at: usize = from;
    while p.len() <= n && at <= n - p.len()
        invariant
            from <= at,
            n == v@.len(),
            find_from(v@, p@, from as int) == find_from(v@, p@, at as int),
        decreases v@.len() + 1 - at,
    {
        if matches_at(v, p, at) {
            return Some(at);
        }
        if at == usize::MAX {
            return None;
        }
        at += 1;
    }
    None
}

/// Whether `p` stands anywhere in `s`.
pub fn contains(s: &str, p: &str) -> (r: bool)
    ensures
        r == holds(s@, p@),
{
    position_from(&to_chars(s), &to_chars(p), 0).is_some()
}

/// Whether `s` begins with `p`.
pub fn starts_with(s: &str, p: &str) -> (r: bool)
    ensures
        r == starts(s@, p@),
{
    let v: Vec<char> = to_chars(s);
    let w: Vec<char> = to_chars(p);
    proof {
        if w@.len() <= v@.len() {
            assert(v@.subrange(0, w@.len() as int) =~= v@.take(w@.len() as int));
        }
    }
    matches_at(&v, &w, 0)
}

/// Whether `s` ends with `p`.
pub open spec fn ends(s: Seq<char>, p: Seq<char>) -> bool {
    p.len() <= s.len() && s.skip(s.len() - p.len()) == p
}

/// Whether `s` ends with `p`.
pub fn ends_with(s: &str, p: &str) -> (r: bool)
    ensures
        r == ends(s@, p@),
{
    let v: Vec<char> = to_chars(s);
    let w: Vec<char> = to_chars(p);
    if w.len() > v.len() {
        return false;
    }
    proof {
        let at = v@.len() - w@.len();
        assert(v@.subrange(at, at + w@.len()) =~= v@.skip(at));
    }
    matches_at(&v, &w, v.len() - w.len())
}

/// `s` after the prefix `p`, where it begins with it.
pub open spec fn after(s: Seq<char>, p: Seq<char>) -> Option<Seq<char>> {
    if starts(s, p) {
        Some(s.skip(p.len() as int))
    } else {
        None
    }
}

/// `s` after the prefix `p`, where it begins with it.
pub fn strip_prefix(s: &str, p: &str) -> (r: Option<String>)
    ensures
        match r {
            Some(rest) => after(s@, p@) == Some(rest@),
            None => after(s@, p@) is None,
        },
{
    if !starts_with(s, p) {
        return None;
    }
    let v: Vec<char> = to_chars(s);
    let n: usize = to_chars(p).len();
    proof {
        assert(v@.subrange(n as int, v@.len() as int) =~= s@.skip(n as int));
    }
    Some(from_chars(&v, n, v.len()))
}

// ---------------------------------------------------------------------------
// Splitting
// ---------------------------------------------------------------------------

/// What stands before the first `p` in `s`, and what stands after it.
pub open spec fn cut(s: Seq<char>, p: Seq<char>) -> Option<(Seq<char>, Seq<char>)> {
    match find(s, p) {
        Some(at) => Some((s.take(at), s.skip(at + p.len()))),
        None => None,
    }
}

/// What stands before the first `p` in `s`, and what stands after it.
pub fn split_once(s: &str, p: &str) -> (r: Option<(String, String)>)
    ensures
        match r {
            Some(parts) => cut(s@, p@) == Some((parts.0@, parts.1@)),
            None => cut(s@, p@) is None,
        },
{
    let v: Vec<char> = to_chars(s);
    let q: Vec<char> = to_chars(p);
    match position_from(&v, &q, 0) {
        Some(at) => {
            proof {
                lemma_find_range(v@, q@, 0);
                assert(v@.subrange(0, at as int) =~= s@.take(at as int));
                assert(v@.subrange(at + q@.len(), v@.len() as int) =~= s@.skip(at + q@.len()));
            }
            let all: usize = v.len();
            Some((from_chars(&v, 0, at), from_chars(&v, at + q.len(), all)))
        },
        None => None,
    }
}

/// The pieces of `s` between the occurrences of `p`, in order.
pub open spec fn pieces(s: Seq<char>, p: Seq<char>) -> Seq<Seq<char>>
    decreases s.len(),
{
    if p.len() == 0 {
        seq![s]
    } else {
        match find(s, p) {
            Some(at) => if 0 <= at && at + p.len() <= s.len() {
                seq![s.take(at)] + pieces(s.skip(at + p.len()), p)
            } else {
                seq![s]
            },
            None => seq![s],
        }
    }
}

/// The texts that a list of strings spells.
pub open spec fn texts(v: Seq<String>) -> Seq<Seq<char>> {
    v.map_values(|s: String| s@)
}

proof fn lemma_find_skip(s: Seq<char>, p: Seq<char>, from: int, k: int)
    requires
        0 <= from <= k <= s.len(),
    ensures
        find_from(s, p, k) == match find_from(s.skip(from), p, k - from) {
            Some(at) => Some(at + from),
            None => None,
        },
    decreases s.len() - k,
{
    let t = s.skip(from);
    if k + p.len() <= s.len() {
        assert(t.subrange(k - from, k - from + p.len()) =~= s.subrange(k, k + p.len()));
        if !stands_at(s, p, k) && k < s.len() {
            lemma_find_skip(s, p, from, k + 1);
        } else if !stands_at(s, p, k) {
            assert(p.len() == 0);
            assert(s.subrange(k, k) =~= p);
        }
    }
}

/// The pieces of `s` between the occurrences of `p`, in order.
pub fn split(s: &str, p: &str) -> (r: Vec<String>)
    requires
        p@.len() > 0,
    ensures
        texts(r@) == pieces(s@, p@),
        r@.len() > 0,
{
    let v: Vec<char> = to_chars(s);
    let w: Vec<char> = to_chars(p);
    let n: usize = v.len();
    let mut r: Vec<String> = Vec::new();
    let mut from: usize = 0;
    proof {
        assert(v@.skip(0) =~= v@);
        assert(texts(r@) =~= Seq::empty());
        assert(Seq::<Seq<char>>::empty() + pieces(s@, p@) =~= pieces(s@, p@));
    }
    loop
        invariant
            v@ == s@,
            w@ == p@,
            n == v@.len(),
            p@.len() > 0,
            from <= n,
            pieces(s@, p@) == texts(r@) + pieces(v@.skip(from as int), p@),
        decreases v@.len() - from,
    {
        let ghost rest = v@.skip(from as int);
        proof {
            lemma_find_skip(v@, w@, from as int, from as int);
            lemma_find_range(v@, w@, from as int);
        }
        match position_from(&v, &w, from) {
            Some(at) => {
                let piece: String = from_chars(&v, from, at);
                proof {
                    assert(piece@ =~= rest.take(at - from));
                    assert(rest.skip(at - from + w@.len()) =~= v@.skip(at + w@.len()));
                    assert(texts(r@.push(piece)) =~= texts(r@).push(piece@));
                    assert(texts(r@) + (seq![piece@] + pieces(v@.skip(at + w@.len()), p@))
                        =~= texts(r@).push(piece@) + pieces(v@.skip(at + w@.len()), p@));
                }
                r.push(piece);
                from = at + w.len();
            },
            None => {
                let piece: String = from_chars(&v, from, v.len());
                proof {
                    assert(piece@ =~= rest);
                    assert(texts(r@.push(piece)) =~= texts(r@).push(piece@));
                    assert(texts(r@) + seq![rest] =~= texts(r@).push(piece@));
                }
                r.push(piece);
                return r;
            },
        }
    }
}

// ---------------------------------------------------------------------------
// Decimal numbers
// ---------------------------------------------------------------------------

/// The character of one decimal digit.
pub open spec fn digit_char(d: nat) -> char {
    (48 + d) as char
}

/// Whether `c` is an ASCII digit.
pub open spec fn is_digit(c: char) -> bool {
    48 <= c as int <= 57
}

/// `n` in decimal, with no leading zeros.
pub open spec fn decimal(n: nat) -> Seq<char>
    decreases n,
{
    if n < 10 {
        seq![digit_char(n)]
    } else {
        decimal(n / 10).push(digit_char(n % 10))
    }
}

/// Whether every character of `s` is an ASCII digit.
pub open spec fn all_digits(s: Seq<char>) -> bool {
    forall|i: int| 0 <= i < s.len() ==> is_digit(#[trigger] s[i])
}

/// The number a run of digits spells.
pub open spec fn digits_value(s: Seq<char>) -> nat
    decreases s.len(),
{
    if s.len() == 0 {
        0
    } else {
        (digits_value(s.drop_last()) * 10 + (s.last() as int - 48)) as nat
    }
}

/// The number that `s` spells, where it is one of at most `max`: digits, with
/// at most one plus sign before them.
pub open spec fn parsed(s: Seq<char>, max: nat) -> Option<nat> {
    let t = if s.len() > 0 && s[0] == '+' {
        s.drop_first()
    } else {
        s
    };
    if t.len() == 0 || !all_digits(t) || digits_value(t) > max {
        None
    } else {
        Some(digits_value(t))
    }
}

/// `n` in decimal.
pub fn decimal_of(n: u64) -> (s: String)
    ensures
        s@ == decimal(n as nat),
    decreases n,
{
    let d: u8 = (n % 10) as u8;
    let c: char = (48 + d) as char;
    if n < 10 {
        let mut s: String = String::new();
        s.push(c);
        proof {
            assert(s@ =~= seq![digit_char(n as nat)]);
        }
        s
    } else {
        let mut s: String = decimal_of(n / 10);
        s.push(c);
        s
    }
}

proof fn lemma_digits_monotone(s: Seq<char>, k: int)
    requires
        0 <= k <= s.len(),
        all_digits(s),
    ensures
        digits_value(s.take(k)) <= digits_value(s),
    decreases s.len(),
{
    if k < s.len() {
        let t = s.drop_last();
        assert forall|i: int| 0 <= i < t.len() implies is_digit(#[trigger] t[i]) by {
            assert(t[i] == s[i]);
        }
        assert(is_digit(s[s.len() - 1]));
        lemma_digits_monotone(t, k);
        assert(t.take(k) =~= s.take(k));
    } else {
        assert(s.take(k) =~= s);
    }
}

/// The number that `s` spells, where it is one of at most `max`.
pub fn parse_uint(s: &str, max: u64) -> (r: Option<u64>)
    ensures
        match r {
            Some(n) => parsed(s@, max as nat) == Some(n as nat),
            None => parsed(s@, max as nat) is None,
        },
{
    let v: Vec<char> = to_chars(s);
    let from: usize = if v.len() > 0 && v[0] == '+' { 1 } else { 0 };
    if from == v.len() {
        proof {
            if v@.len() > 0 {
                assert(s@.drop_first().len() == 0);
            }
        }
        return None;
    }
    let ghost t = s@.skip(from as int);
    proof {
        if from == 1 {
            assert(s@.drop_first() =~= t);
        } else {
            assert(s@ =~= t);
        }
    }
    let mut n: u64 = 0;
    let mut i: usize = from;
    while i < v.len()
        invariant
            from <= i <= v@.len(),
            v@ == s@,
            t == s@.skip(from as int),
            all_digits(t.take(i - from)),
            n == digits_value(t.take(i - from)),
            n <= max,
            parsed(s@, max as nat) == if t.len() == 0 || !all_digits(t) || digits_value(t) > max {
                None::<nat>
            } else {
                Some(digits_value(t))
            },
        decreases v@.len() - i,
    {
        let c: char = v[i];
        let ghost cut = t.take(i - from + 1);
        proof {
            assert(cut.drop_last() =~= t.take(i - from));
            assert(cut.last() == c);
            assert(t[i - from] == c);
        }
        if c < '0' || c > '9' {
            return None;
        }
        let d: u64 = (c as u32 - 48) as u64;
        if n > max / 10 || d > max - n * 10 {
            proof {
                if all_digits(t) {
                    lemma_digits_monotone(t, i - from + 1);
                }
            }
            return None;
        }
        proof {
            assert forall|j: int| 0 <= j < cut.len() implies is_digit(#[trigger] cut[j]) by {
                if j < cut.len() - 1 {
                    assert(t.take(i - from)[j] == cut[j]);
                }
            }
        }
        n = n * 10 + d;
        i += 1;
    }
    proof {
        assert(t.take(v@.len() - from) =~= t);
    }
    Some(n)
}

/// Writing a number and reading it back gives the number.
pub proof fn law_decimal_round_trip(n: nat, max: nat)
    requires
        n <= max,
    ensures
        parsed(decimal(n), max) == Some(n),
        all_digits(decimal(n)),
        decimal(n).len() > 0,
{
    lemma_decimal_digits(n);
    let s = decimal(n);
    assert(is_digit(s[0]));
}

proof fn lemma_decimal_digits(n: nat)
    ensures
        all_digits(decimal(n)),
        digits_value(decimal(n)) == n,
        decimal(n).len() > 0,
    decreases n,
{
    if n < 10 {
        let s = decimal(n);
        assert(s.drop_last() =~= Seq::empty());
        assert(digits_value(Seq::<char>::empty()) == 0);
        assert(s.last() as int == 48 + n);
    } else {
        lemma_decimal_digits(n / 10);
        let s = decimal(n);
        assert(s.drop_last() =~= decimal(n / 10));
        assert(s.last() as int == 48 + n % 10);
        assert forall|i: int| 0 <= i < s.len() implies is_digit(#[trigger] s[i]) by {
            if i < s.len() - 1 {
                assert(s[i] == decimal(n / 10)[i]);
            }
        }
    }
}

/// The digits of a number are those of its tens and then its ones.
pub proof fn law_decimal_digits(n: nat, d: nat)
    requires
        d < 10,
    ensures
        decimal(d) == seq![(48 + d) as char],
        n > 0 ==> decimal(10 * n + d) == decimal(n).push((48 + d) as char),
{
    assert((10 * n + d) / 10 == n && (10 * n + d) % 10 == d);
}

// ---------------------------------------------------------------------------
// What trimming, splitting and searching keep
// ---------------------------------------------------------------------------

/// Whether all of `s` is white space.
pub open spec fn all_white(s: Seq<char>) -> bool {
    forall|i: int| 0 <= i < s.len() ==> white_space(#[trigger] s[i])
}

/// Whether none of `s` is white space.
pub open spec fn none_white(s: Seq<char>) -> bool {
    forall|i: int| 0 <= i < s.len() ==> !white_space(#[trigger] s[i])
}

/// What of `s` is not white space, in order.
pub open spec fn solid(s: Seq<char>) -> Seq<char> {
    s.filter(|c: char| !white_space(c))
}

pub proof fn lemma_solid_add(a: Seq<char>, b: Seq<char>)
    ensures
        solid(a + b) == solid(a) + solid(b),
{
    Seq::filter_distributes_over_add(a, b, |c: char| !white_space(c));
}

pub proof fn lemma_solid_white(s: Seq<char>)
    requires
        all_white(s),
    ensures
        solid(s) == Seq::<char>::empty(),
    decreases s.len(),
{
    reveal(Seq::filter);
    if s.len() > 0 {
        assert(white_space(s[s.len() - 1]));
        let t = s.drop_last();
        assert forall|i: int| 0 <= i < t.len() implies white_space(#[trigger] t[i]) by {
            assert(t[i] == s[i]);
        }
        lemma_solid_white(t);
    }
}

pub proof fn lemma_solid_whole(s: Seq<char>)
    requires
        none_white(s),
    ensures
        solid(s) == s,
    decreases s.len(),
{
    reveal(Seq::filter);
    if s.len() > 0 {
        assert(!white_space(s[s.len() - 1]));
        let t = s.drop_last();
        assert forall|i: int| 0 <= i < t.len() implies !white_space(#[trigger] t[i]) by {
            assert(t[i] == s[i]);
        }
        lemma_solid_whole(t);
        assert(t.push(s.last()) =~= s);
    } else {
        assert(solid(s) =~= s);
    }
}

proof fn lemma_trim_start_parts(s: Seq<char>)
    ensures
        trim_start(s).len() <= s.len(),
        trim_start(s) == s.skip(s.len() - trim_start(s).len()),
        all_white(s.take(s.len() - trim_start(s).len())),
        trim_start(s).len() > 0 ==> !white_space(trim_start(s)[0]),
    decreases s.len(),
{
    if s.len() > 0 && white_space(s[0]) {
        let t = s.drop_first();
        lemma_trim_start_parts(t);
        let n = trim_start(s).len();
        assert(t.skip(t.len() - n) =~= s.skip(s.len() - n));
        let lead = s.take(s.len() - n);
        assert forall|i: int| 0 <= i < lead.len() implies white_space(#[trigger] lead[i]) by {
            if i > 0 {
                assert(t.take(t.len() - n)[i - 1] == lead[i]);
            }
        }
    } else {
        assert(s.skip(0) =~= s);
    }
}

proof fn lemma_trim_end_parts(s: Seq<char>)
    ensures
        trim_end(s).len() <= s.len(),
        trim_end(s) == s.take(trim_end(s).len() as int),
        all_white(s.skip(trim_end(s).len() as int)),
        trim_end(s).len() > 0 ==> !white_space(trim_end(s).last()),
    decreases s.len(),
{
    if s.len() > 0 && white_space(s.last()) {
        let t = s.drop_last();
        lemma_trim_end_parts(t);
        let n = trim_end(s).len() as int;
        assert(t.take(n) =~= s.take(n));
        let tail = s.skip(n);
        assert forall|i: int| 0 <= i < tail.len() implies white_space(#[trigger] tail[i]) by {
            if i < tail.len() - 1 {
                assert(t.skip(n)[i] == tail[i]);
            }
        }
    } else {
        assert(s.take(s.len() as int) =~= s);
    }
}

/// Trimming takes white space off both ends, all of it, and nothing else.
pub proof fn law_trimming_takes_only_white_space(s: Seq<char>)
    ensures
        exists|from: int, to: int|
            0 <= from <= to <= s.len() && trimmed(s) == #[trigger] s.subrange(from, to)
                && all_white(s.take(from)) && all_white(s.skip(to)),
        trimmed(s).len() > 0 ==> !white_space(trimmed(s)[0]) && !white_space(trimmed(s).last()),
        solid(trimmed(s)) == solid(s),
{
    let t = trim_start(s);
    lemma_trim_start_parts(s);
    lemma_trim_end_parts(t);
    let from = s.len() - t.len();
    let to = from + trimmed(s).len();
    assert(trimmed(s) =~= s.subrange(from, to));
    assert(s.skip(to) =~= t.skip(trimmed(s).len() as int));
    assert(s =~= s.take(from) + trimmed(s) + s.skip(to));
    lemma_solid_white(s.take(from));
    lemma_solid_white(s.skip(to));
    lemma_solid_add(s.take(from) + trimmed(s), s.skip(to));
    lemma_solid_add(s.take(from), trimmed(s));
    assert(solid(s) =~= solid(trimmed(s)));
}

pub proof fn lemma_solid_trim_end(s: Seq<char>)
    ensures
        solid(trim_end(s)) == solid(s),
{
    lemma_trim_end_parts(s);
    let n = trim_end(s).len() as int;
    assert(s =~= trim_end(s) + s.skip(n));
    lemma_solid_white(s.skip(n));
    lemma_solid_add(trim_end(s), s.skip(n));
    assert(solid(s) =~= solid(trim_end(s)));
}

/// What is trimmed already stays as it is.
pub proof fn law_trimming_twice_changes_nothing(s: Seq<char>)
    ensures
        trimmed(trimmed(s)) == trimmed(s),
{
    law_trimming_takes_only_white_space(s);
}

/// Only the characters asked for are taken off the end, and all of them.
pub proof fn law_trim_end_of_takes_only_those(s: Seq<char>, c: char)
    ensures
        trim_end_of(s, c).len() <= s.len(),
        trim_end_of(s, c) == s.take(trim_end_of(s, c).len() as int),
        forall|i: int| trim_end_of(s, c).len() <= i < s.len() ==> #[trigger] s[i] == c,
        trim_end_of(s, c).len() > 0 ==> trim_end_of(s, c).last() != c,
    decreases s.len(),
{
    if s.len() > 0 && s.last() == c {
        let t = s.drop_last();
        law_trim_end_of_takes_only_those(t, c);
        let n = trim_end_of(s, c).len() as int;
        assert(t.take(n) =~= s.take(n));
        assert forall|i: int| n <= i < s.len() implies #[trigger] s[i] == c by {
            if i < t.len() {
                assert(t[i] == s[i]);
            }
        }
    } else {
        assert(s.take(s.len() as int) =~= s);
    }
}

proof fn lemma_word_parts(s: Seq<char>)
    ensures
        word_len(s) <= s.len(),
        none_white(s.take(word_len(s) as int)),
        word_len(s) < s.len() ==> white_space(s[word_len(s) as int]),
    decreases s.len(),
{
    if s.len() > 0 && !white_space(s[0]) {
        let t = s.drop_first();
        lemma_word_parts(t);
        let w = s.take(word_len(s) as int);
        assert forall|i: int| 0 <= i < w.len() implies !white_space(#[trigger] w[i]) by {
            if i > 0 {
                assert(t.take(word_len(t) as int)[i - 1] == w[i]);
            }
        }
    }
}

/// The words of a text are all of it but its white space, in order, and none of
/// them is empty or has white space in it.
pub proof fn law_words_are_all_but_white_space(s: Seq<char>)
    ensures
        words_of(s).flatten() == solid(s),
        forall|i: int|
            0 <= i < words_of(s).len() ==> (#[trigger] words_of(s)[i]).len() > 0 && none_white(
                words_of(s)[i],
            ),
    decreases s.len(),
{
    let t = trim_start(s);
    lemma_trim_start_parts(s);
    let lead = s.take(s.len() - t.len());
    assert(s =~= lead + t);
    lemma_solid_white(lead);
    lemma_solid_add(lead, t);
    assert(solid(s) =~= solid(t));
    if t.len() == 0 {
        lemma_solid_white(t);
        assert(words_of(s).flatten() =~= Seq::empty());
    } else {
        lemma_word_len(s);
        lemma_word_len(t);
        lemma_word_parts(t);
        let k = word_len(t) as int;
        let (word, rest) = (t.take(k), t.skip(k));
        law_words_are_all_but_white_space(rest);
        assert(t =~= word + rest);
        lemma_solid_add(word, rest);
        lemma_solid_whole(word);
        let w = words_of(s);
        assert(w.first() == word);
        assert(w.drop_first() =~= words_of(rest));
        assert forall|i: int| 0 <= i < w.len() implies (#[trigger] w[i]).len() > 0 && none_white(
            w[i],
        ) by {
            if i > 0 {
                assert(w[i] == words_of(rest)[i - 1]);
            }
        }
    }
}

/// A run without white space is one word.
pub proof fn law_a_run_is_one_word(s: Seq<char>)
    requires
        s.len() > 0,
        none_white(s),
    ensures
        words_of(s) == seq![s],
{
    assert(!white_space(s[0]));
    assert(trim_start(s) == s);
    lemma_word_parts(s);
    lemma_word_len(s);
    assert(word_len(s) == s.len());
    assert(s.take(s.len() as int) =~= s);
    assert(s.skip(s.len() as int) =~= Seq::empty());
    assert(words_of(Seq::<char>::empty()) =~= Seq::empty());
    assert(words_of(s) =~= seq![s]);
}

proof fn lemma_trim_start_append(a: Seq<char>, b: Seq<char>)
    ensures
        trim_start(a).len() > 0 ==> trim_start(a + b) == trim_start(a) + b,
        trim_start(a).len() == 0 ==> trim_start(a + b) == trim_start(b),
    decreases a.len(),
{
    if a.len() == 0 {
        assert(a + b =~= b);
    } else {
        assert((a + b)[0] == a[0]);
        assert((a + b).drop_first() =~= a.drop_first() + b);
        if white_space(a[0]) {
            lemma_trim_start_append(a.drop_first(), b);
        }
    }
}

proof fn lemma_word_len_append(a: Seq<char>, b: Seq<char>)
    requires
        b.len() > 0,
        white_space(b[0]),
    ensures
        word_len(a + b) == word_len(a),
    decreases a.len(),
{
    if a.len() == 0 {
        assert(a + b =~= b);
    } else {
        assert((a + b)[0] == a[0]);
        assert((a + b).drop_first() =~= a.drop_first() + b);
        if !white_space(a[0]) {
            lemma_word_len_append(a.drop_first(), b);
        }
    }
}

/// White space parts words: what stands on either side of it is read by itself.
pub proof fn law_white_space_parts_words(a: Seq<char>, b: Seq<char>)
    requires
        b.len() > 0,
        white_space(b[0]),
    ensures
        words_of(a + b) == words_of(a) + words_of(b),
    decreases a.len(),
{
    let t = trim_start(a);
    lemma_trim_start_append(a, b);
    lemma_word_len(a);
    if t.len() == 0 {
        assert(words_of(a) =~= Seq::empty());
        assert(words_of(a) + words_of(b) =~= words_of(b));
        lemma_word_len(a + b);
        lemma_word_len(b);
        assert(words_of(a + b) =~= words_of(b));
    } else {
        lemma_word_len(t);
        lemma_word_len_append(t, b);
        let k = word_len(t) as int;
        assert((t + b).take(k) =~= t.take(k));
        assert((t + b).skip(k) =~= t.skip(k) + b);
        law_white_space_parts_words(t.skip(k), b);
        lemma_word_len(a + b);
        lemma_word_len(t + b);
        assert(words_of(a + b) =~= seq![t.take(k)] + words_of(t.skip(k) + b));
        assert(words_of(a + b) =~= words_of(a) + words_of(b));
    }
}

/// Where something is found is the first place it stands at, and it is not
/// found only where it stands nowhere.
pub proof fn law_find_finds_the_first(s: Seq<char>, p: Seq<char>, from: int)
    requires
        0 <= from,
    ensures
        match find_from(s, p, from) {
            Some(at) => from <= at && at + p.len() <= s.len() && s.subrange(at, at + p.len()) == p
                && forall|k: int|
                from <= k < at ==> #[trigger] s.subrange(k, k + p.len()) != p,
            None => forall|k: int|
                from <= k && k + p.len() <= s.len() ==> #[trigger] s.subrange(k, k + p.len()) != p,
        },
    decreases s.len() + 1 - from,
{
    if from + p.len() <= s.len() && !stands_at(s, p, from) {
        law_find_finds_the_first(s, p, from + 1);
    }
}

/// Pieces with what they were split at put back between them.
pub open spec fn joined(v: Seq<Seq<char>>, p: Seq<char>) -> Seq<char>
    decreases v.len(),
{
    if v.len() == 0 {
        Seq::empty()
    } else if v.len() == 1 {
        v[0]
    } else {
        joined(v.drop_last(), p) + p + v.last()
    }
}

pub proof fn lemma_joined_first(first: Seq<char>, rest: Seq<Seq<char>>, p: Seq<char>)
    requires
        rest.len() > 0,
    ensures
        joined(seq![first] + rest, p) == first + p + joined(rest, p),
    decreases rest.len(),
{
    let v = seq![first] + rest;
    assert(v.drop_last() =~= seq![first] + rest.drop_last());
    assert(v.last() == rest.last());
    if rest.len() == 1 {
        assert(v.drop_last() =~= seq![first]);
        assert(joined(seq![first], p) == first);
        assert(joined(v, p) =~= first + p + rest[0]);
    } else {
        lemma_joined_first(first, rest.drop_last(), p);
        assert(joined(v, p) =~= first + p + joined(rest, p));
    }
}

/// Splitting loses nothing: the pieces with the separator between them are the
/// text again, and no piece has the separator in it.
pub proof fn law_pieces_joined_are_the_text(s: Seq<char>, p: Seq<char>)
    requires
        p.len() > 0,
    ensures
        pieces(s, p).len() > 0,
        joined(pieces(s, p), p) == s,
        forall|i: int, k: int|
            0 <= i < pieces(s, p).len() && 0 <= k && k + p.len() <= pieces(s, p)[i].len()
                ==> #[trigger] pieces(s, p)[i].subrange(k, k + p.len()) != p,
    decreases s.len(),
{
    law_find_finds_the_first(s, p, 0);
    match find(s, p) {
        Some(at) => {
            let (first, rest) = (s.take(at), s.skip(at + p.len()));
            law_pieces_joined_are_the_text(rest, p);
            lemma_joined_first(first, pieces(rest, p), p);
            assert(s =~= first + p + rest);
            let v = pieces(s, p);
            assert forall|i: int, k: int|
                0 <= i < v.len() && 0 <= k && k + p.len() <= v[i].len() implies #[trigger] v[i].subrange(
            k, k + p.len()) != p by {
                if i == 0 {
                    assert(v[0].subrange(k, k + p.len()) =~= s.subrange(k, k + p.len()));
                } else {
                    assert(v[i] == pieces(rest, p)[i - 1]);
                }
            }
        },
        None => {},
    }
}

proof fn lemma_solid_joined(v: Seq<Seq<char>>, p: Seq<char>)
    requires
        all_white(p),
    ensures
        solid(joined(v, p)) == solid(v.flatten()),
    decreases v.len(),
{
    v.lemma_flatten_and_flatten_alt_are_equivalent();
    if v.len() == 0 {
    } else if v.len() == 1 {
        assert(v.drop_last() =~= Seq::empty());
        assert(v.drop_last().flatten_alt() =~= Seq::empty());
        assert(v.flatten_alt() =~= v[0]);
    } else {
        let t = v.drop_last();
        t.lemma_flatten_and_flatten_alt_are_equivalent();
        lemma_solid_joined(t, p);
        lemma_solid_white(p);
        lemma_solid_add(joined(t, p) + p, v.last());
        lemma_solid_add(joined(t, p), p);
        lemma_solid_add(t.flatten(), v.last());
        assert(solid(joined(v, p)) =~= solid(v.flatten()));
    }
}

pub proof fn lemma_solid_pieces(s: Seq<char>, p: Seq<char>)
    requires
        p.len() > 0,
        all_white(p),
    ensures
        solid(pieces(s, p).flatten()) == solid(s),
{
    law_pieces_joined_are_the_text(s, p);
    lemma_solid_joined(pieces(s, p), p);
}

proof fn lemma_find_parted(a: Seq<char>, c: char, b: Seq<char>, from: int)
    requires
        0 <= from <= a.len(),
    ensures
        ({
            let whole = a + seq![c] + b;
            find_from(whole, seq![c], from) == match find_from(a, seq![c], from) {
                Some(at) => Some(at),
                None => Some(a.len() as int),
            }
        }),
    decreases a.len() - from,
{
    let p = seq![c];
    let whole = a + p + b;
    assert(whole.subrange(from, from + 1)[0] == whole[from]);
    if from < a.len() {
        assert(a.subrange(from, from + 1)[0] == a[from]);
        assert(whole[from] == a[from]);
        if a[from] == c {
            assert(whole.subrange(from, from + 1) =~= p);
            assert(a.subrange(from, from + 1) =~= p);
        } else {
            assert(p[0] == c);
            lemma_find_parted(a, c, b, from + 1);
        }
    } else {
        assert(whole.subrange(from, from + 1) =~= p);
    }
}

/// What is split at a character falls apart there: the pieces of two texts with
/// it between them are the pieces of the one and then those of the other.
pub proof fn law_a_mark_parts_the_pieces(a: Seq<char>, c: char, b: Seq<char>)
    ensures
        pieces(a + seq![c] + b, seq![c]) == pieces(a, seq![c]) + pieces(b, seq![c]),
    decreases a.len(),
{
    let p = seq![c];
    let whole = a + p + b;
    lemma_find_parted(a, c, b, 0);
    law_find_finds_the_first(a, p, 0);
    match find(a, p) {
        Some(at) => {
            let rest = a.skip(at + 1);
            law_a_mark_parts_the_pieces(rest, c, b);
            assert(whole.skip(at + 1) =~= rest + p + b);
            assert(whole.take(at) =~= a.take(at));
            assert(seq![a.take(at)] + (pieces(rest, p) + pieces(b, p)) =~= seq![a.take(at)]
                + pieces(rest, p) + pieces(b, p));
        },
        None => {
            assert(whole.take(a.len() as int) =~= a);
            assert(whole.skip(a.len() as int + 1) =~= b);
        },
    }
}

/// A text without the character it is split at is one piece.
pub proof fn law_an_unmarked_text_is_one_piece(s: Seq<char>, c: char)
    requires
        !s.contains(c),
    ensures
        pieces(s, seq![c]) == seq![s],
        find(s, seq![c]) is None,
{
    let p = seq![c];
    law_find_finds_the_first(s, p, 0);
    if let Some(at) = find(s, p) {
        assert(s.subrange(at, at + 1)[0] == s[at]);
        assert(p[0] == c);
    }
}

/// Of the characters of a keyboard the space, the tab and the ends of a line
/// are white space, and nothing that leaves a mark is; the wider spaces of
/// other scripts are too.
pub proof fn law_white_space_leaves_no_mark(c: char)
    ensures
        c == ' ' || c == '\t' || c == '\n' || c == '\r' ==> white_space(c),
        '!' <= c <= '~' ==> !white_space(c),
        c == '\u{a0}' || c == '\u{2003}' || c == '\u{2028}' || c == '\u{3000}' ==> white_space(c),
        white_space(c) ==> (c as int) < 0x3001 && !(0xa1 <= (c as int) < 0x1680),
{
}

/// A number is read only where it is all digits, with a plus sign before them
/// at most, and not past the limit; and each digit counts ten times the one
/// behind it.
pub proof fn law_numbers_are_all_digits(s: Seq<char>, max: nat, d: char)
    requires
        '0' <= d <= '9',
    ensures
        parsed(s, max) matches Some(n) ==> n <= max && forall|i: int|
            0 <= i < s.len() ==> ('0' <= #[trigger] s[i] <= '9') || (i == 0 && s[i] == '+'),
        digits_value(s.push(d)) == 10 * digits_value(s) + (d as int - 48),
        digits_value(Seq::empty()) == 0,
        all_digits(s) && s.len() > 0 ==> (parsed(s, max) == if digits_value(s) <= max {
            Some(digits_value(s))
        } else {
            None
        }),
{
    assert(s.push(d).drop_last() =~= s);
    if parsed(s, max) is Some {
        let t = if s.len() > 0 && s[0] == '+' {
            s.drop_first()
        } else {
            s
        };
        assert forall|i: int| 0 <= i < s.len() implies ('0' <= #[trigger] s[i] <= '9') || (i == 0
            && s[i] == '+') by {
            if s[0] == '+' {
                if i > 0 {
                    assert(t[i - 1] == s[i]);
                    assert(is_digit(t[i - 1]));
                }
            } else {
                assert(is_digit(t[i]));
            }
        }
    }
    if all_digits(s) && s.len() > 0 {
        assert(is_digit(s[0]));
    }
}

} // verus!
