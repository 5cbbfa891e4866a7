//! Laying generated text out on pages.
//!
//! Deliberately plain: US Letter, Helvetica, a title and wrapped body text
//! across as many pages as it takes. The point is that a script's output lands
//! in the library as a document you can open, mark up and search like any
//! other, not that it is beautifully typeset.
//!
//! Lengths are in thousandths of a point.

use vstd::prelude::*;

use crate::metrics::{char_width, line_width, width_of, width_of_char};
use crate::text::{
    joined, law_trimming_takes_only_white_space, law_words_are_all_but_white_space,
    lemma_solid_add, lemma_solid_pieces, lemma_solid_trim_end, lemma_solid_white,
    lemma_solid_whole, none_white, pieces, solid, split, starts, texts, to_chars, trim, trim_end,
    trim_tail, trimmed, white_space, words, words_of,
};

verus! {

pub const PAGE_W: i64 = 612_000;

pub const PAGE_H: i64 = 792_000;

pub const MARGIN: i64 = 54_000;

pub const TITLE_SIZE: u32 = 17_000;

pub const BODY_SIZE: u32 = 11_000;

pub const LEADING: i64 = 15_500;

/// A row of the title takes a little more than its size.
pub const TITLE_LEADING: i64 = 22_100;

/// What is left free below the title.
pub const TITLE_GAP: i64 = 14_000;

/// The width lines are wrapped to.
pub const USABLE: u64 = 504_000;

// ---------------------------------------------------------------------------
// Wrapping
// ---------------------------------------------------------------------------

/// How many characters of `word` fit in `width`, at least `k`.
pub open spec fn fitting(word: Seq<char>, k: int, size: int, width: int) -> int
    decreases word.len() - k,
{
    if 0 <= k < word.len() && line_width(word.take(k + 1), size) <= width {
        fitting(word, k + 1, size, width)
    } else {
        k
    }
}

pub proof fn lemma_fitting(word: Seq<char>, k: int, size: int, width: int)
    requires
        0 <= k <= word.len(),
    ensures
        k <= fitting(word, k, size, width) <= word.len(),
        fitting(word, k, size, width) > k ==> line_width(
            word.take(fitting(word, k, size, width)),
            size,
        ) <= width,
    decreases word.len() - k,
{
    if k < word.len() && line_width(word.take(k + 1), size) <= width {
        lemma_fitting(word, k + 1, size, width);
    }
}

/// `word` in pieces that fit in `width`, as long as can be and never empty.
pub open spec fn broken(word: Seq<char>, size: int, width: int) -> Seq<Seq<char>>
    decreases word.len(),
{
    if word.len() == 0 {
        Seq::empty()
    } else {
        let k = fitting(word, 1, size, width);
        proof {
            lemma_fitting(word, 1, size, width);
        }
        seq![word.take(k)] + broken(word.skip(k), size, width)
    }
}

/// The lines with one more word: on the last line where it fits, else on
/// further lines.
pub open spec fn with_word(
    lines: Seq<Seq<char>>,
    word: Seq<char>,
    size: int,
    width: int,
) -> Seq<Seq<char>> {
    if lines.len() > 0 && line_width(lines.last().push(' ') + word, size) <= width {
        lines.update(lines.len() - 1, lines.last().push(' ') + word)
    } else {
        lines + broken(word, size, width)
    }
}

/// The lines that `words` fill, one after the other.
pub open spec fn filled(words: Seq<Seq<char>>, size: int, width: int) -> Seq<Seq<char>>
    decreases words.len(),
{
    if words.len() == 0 {
        Seq::empty()
    } else {
        with_word(filled(words.drop_last(), size, width), words.last(), size, width)
    }
}

/// `text` wrapped to `width`.
pub open spec fn wrapped(text: Seq<char>, size: int, width: int) -> Seq<Seq<char>> {
    filled(words_of(text), size, width)
}

proof fn lemma_broken_fits(word: Seq<char>, size: int, width: int)
    requires
        0 <= size,
    ensures
        forall|i: int|
            0 <= i < broken(word, size, width).len() ==> (line_width(
                #[trigger] broken(word, size, width)[i],
                size,
            ) <= width || broken(word, size, width)[i].len() == 1),
    decreases word.len(),
{
    if word.len() > 0 {
        let k = fitting(word, 1, size, width);
        lemma_fitting(word, 1, size, width);
        lemma_broken_fits(word.skip(k), size, width);
        let b = broken(word, size, width);
        let rest = broken(word.skip(k), size, width);
        assert(b == seq![word.take(k)] + rest);
        assert forall|i: int| 0 <= i < b.len() implies (line_width(#[trigger] b[i], size) <= width
            || b[i].len() == 1) by {
            if i > 0 {
                assert(b[i] == rest[i - 1]);
            }
        }
    }
}

/// Every wrapped line fits in the width it was wrapped to, but for a single
/// character that is too wide by itself.
pub proof fn law_wrapped_lines_fit(words: Seq<Seq<char>>, size: int, width: int)
    requires
        0 <= size,
    ensures
        forall|i: int|
            0 <= i < filled(words, size, width).len() ==> (line_width(
                #[trigger] filled(words, size, width)[i],
                size,
            ) <= width || filled(words, size, width)[i].len() == 1),
    decreases words.len(),
{
    if words.len() > 0 {
        law_wrapped_lines_fit(words.drop_last(), size, width);
        let before = filled(words.drop_last(), size, width);
        let word = words.last();
        lemma_broken_fits(word, size, width);
        let b = broken(word, size, width);
        let f = filled(words, size, width);
        assert forall|i: int| 0 <= i < f.len() implies (line_width(#[trigger] f[i], size) <= width
            || f[i].len() == 1) by {
            if before.len() > 0 && line_width(before.last().push(' ') + word, size) <= width {
                if i < before.len() - 1 {
                    assert(f[i] == before[i]);
                }
            } else if i < before.len() {
                assert(f[i] == before[i]);
            } else {
                assert(f[i] == b[i - before.len()]);
            }
        }
    }
}

proof fn lemma_broken_whole(word: Seq<char>, size: int, width: int)
    ensures
        broken(word, size, width).flatten() == word,
        forall|i: int|
            0 <= i < broken(word, size, width).len() ==> (#[trigger] broken(
                word,
                size,
                width,
            )[i]).len() > 0,
    decreases word.len(),
{
    let b = broken(word, size, width);
    if word.len() == 0 {
        assert(b.flatten() =~= word);
    } else {
        let k = fitting(word, 1, size, width);
        lemma_fitting(word, 1, size, width);
        lemma_broken_whole(word.skip(k), size, width);
        let rest = broken(word.skip(k), size, width);
        assert(b.first() == word.take(k));
        assert(b.drop_first() =~= rest);
        assert(b.flatten() =~= word);
        assert forall|i: int| 0 <= i < b.len() implies (#[trigger] b[i]).len() > 0 by {
            if i > 0 {
                assert(b[i] == rest[i - 1]);
            }
        }
    }
}

proof fn lemma_flatten_add<A>(a: Seq<Seq<A>>, b: Seq<Seq<A>>)
    ensures
        (a + b).flatten() == a.flatten() + b.flatten(),
{
    vstd::seq_lib::lemma_flatten_alt_concat(a, b);
    a.lemma_flatten_and_flatten_alt_are_equivalent();
    b.lemma_flatten_and_flatten_alt_are_equivalent();
    (a + b).lemma_flatten_and_flatten_alt_are_equivalent();
}

proof fn lemma_flatten_last<A>(s: Seq<Seq<A>>)
    requires
        s.len() > 0,
    ensures
        s.flatten() == s.drop_last().flatten() + s.last(),
{
    s.lemma_flatten_and_flatten_alt_are_equivalent();
    s.drop_last().lemma_flatten_and_flatten_alt_are_equivalent();
}

/// Wrapping loses no word and no letter of one: the lines hold all that the
/// words do, in order.
pub proof fn law_wrapping_loses_nothing(words: Seq<Seq<char>>, size: int, width: int)
    ensures
        solid(filled(words, size, width).flatten()) == solid(words.flatten()),
    decreases words.len(),
{
    if words.len() == 0 {
        assert(filled(words, size, width) =~= words);
    } else {
        let (t, word) = (words.drop_last(), words.last());
        let before = filled(t, size, width);
        let after = filled(words, size, width);
        law_wrapping_loses_nothing(t, size, width);
        lemma_flatten_last(words);
        lemma_solid_add(t.flatten(), word);
        if before.len() > 0 && line_width(before.last().push(' ') + word, size) <= width {
            let line = before.last().push(' ') + word;
            lemma_flatten_last(before);
            lemma_flatten_last(after);
            assert(after.drop_last() =~= before.drop_last());
            let gap = seq![' '];
            assert(after.flatten() =~= before.flatten() + gap + word);
            lemma_solid_white(gap);
            lemma_solid_add(before.flatten() + gap, word);
            lemma_solid_add(before.flatten(), gap);
            assert(solid(after.flatten()) =~= solid(words.flatten()));
        } else {
            lemma_broken_whole(word, size, width);
            lemma_flatten_add(before, broken(word, size, width));
            lemma_solid_add(before.flatten(), word);
        }
    }
}

/// A text wrapped to a width is still all of that text.
pub proof fn law_wrapped_text_is_whole(text: Seq<char>, size: int, width: int)
    ensures
        solid(wrapped(text, size, width).flatten()) == solid(text),
{
    law_wrapping_loses_nothing(words_of(text), size, width);
    law_words_are_all_but_white_space(text);
    let w = words_of(text).flatten();
    assert(none_white(w)) by {
        Seq::<char>::filter_lemma(text, |c: char| !white_space(c));
    }
    lemma_solid_whole(w);
}

proof fn lemma_broken_one(word: Seq<char>, size: int, width: int)
    requires
        word.len() > 0,
        0 <= size,
        line_width(word, size) <= width,
    ensures
        broken(word, size, width) == seq![word],
{
    lemma_fitting_all(word, 1, size, width);
    assert(word.take(word.len() as int) =~= word);
    assert(word.skip(word.len() as int) =~= Seq::empty());
    assert(broken(Seq::<char>::empty(), size, width) =~= Seq::empty());
    lemma_fitting(word, 1, size, width);
    assert(broken(word, size, width) =~= seq![word]);
}

proof fn lemma_fitting_all(word: Seq<char>, k: int, size: int, width: int)
    requires
        1 <= k <= word.len(),
        0 <= size,
        line_width(word, size) <= width,
    ensures
        fitting(word, k, size, width) == word.len(),
    decreases word.len() - k,
{
    if k < word.len() {
        lemma_width_grows(word, k + 1, size);
        lemma_fitting_all(word, k + 1, size, width);
    }
}

proof fn lemma_width_grows(s: Seq<char>, k: int, size: int)
    requires
        0 <= k <= s.len(),
        0 <= size,
    ensures
        0 <= line_width(s.take(k), size) <= line_width(s, size),
    decreases s.len(),
{
    if k < s.len() {
        lemma_width_grows(s.drop_last(), k, size);
        assert(s.drop_last().take(k) =~= s.take(k));
        assert(char_width(s.last(), size) >= 0) by (nonlinear_arith)
            requires
                0 <= size,
                0 <= crate::metrics::advance(s.last()),
                char_width(s.last(), size) == crate::metrics::advance(s.last()) * size / 1000,
        ;
    } else {
        assert(s.take(k) =~= s);
        if k > 0 {
            lemma_width_grows(s.drop_last(), k - 1, size);
            assert(s.drop_last().take(k - 1) =~= s.drop_last());
            assert(char_width(s.last(), size) >= 0) by (nonlinear_arith)
                requires
                    0 <= size,
                    0 <= crate::metrics::advance(s.last()),
                    char_width(s.last(), size) == crate::metrics::advance(s.last()) * size / 1000,
            ;
        }
    }
}

/// Words that fit are never broken, and stand with one space between them: the
/// lines with a space between each two are the words with a space between each
/// two.
pub proof fn law_words_stay_whole(words: Seq<Seq<char>>, size: int, width: int)
    requires
        0 <= size,
        forall|i: int|
            0 <= i < words.len() ==> (#[trigger] words[i]).len() > 0 && line_width(words[i], size)
                <= width,
    ensures
        joined(filled(words, size, width), seq![' ']) == joined(words, seq![' ']),
        words.len() > 0 ==> filled(words, size, width).len() > 0,
    decreases words.len(),
{
    let gap = seq![' '];
    if words.len() == 0 {
        assert(filled(words, size, width) =~= words);
    } else {
        let (t, word) = (words.drop_last(), words.last());
        assert(words[words.len() - 1] == word);
        assert forall|i: int| 0 <= i < t.len() implies (#[trigger] t[i]).len() > 0 && line_width(
            t[i],
            size,
        ) <= width by {
            assert(t[i] == words[i]);
        }
        law_words_stay_whole(t, size, width);
        let before = filled(t, size, width);
        let after = filled(words, size, width);
        lemma_broken_one(word, size, width);
        if before.len() > 0 && line_width(before.last().push(' ') + word, size) <= width {
            let line = before.last().push(' ') + word;
            assert(after.drop_last() =~= before.drop_last());
            assert(joined(after, gap) =~= joined(before, gap) + gap + word) by {
                if before.len() > 1 {
                    assert(joined(after, gap) == joined(before.drop_last(), gap) + gap + line);
                    assert(joined(after, gap) =~= joined(before, gap) + gap + word);
                } else {
                    assert(after[0] =~= before[0] + gap + word);
                }
            }
            assert(t.len() > 0) by {
                if t.len() == 0 {
                    assert(before.len() == 0);
                }
            }
        } else {
            assert(after =~= before.push(word));
            assert(after.drop_last() =~= before);
            if before.len() == 0 {
                assert(t.len() == 0);
            }
        }
    }
}

/// A line is only ended where the next word does not fit on it any more: lines
/// are as full as they can be.
pub proof fn law_lines_are_full(words: Seq<Seq<char>>, size: int, width: int, i: int)
    requires
        0 <= size,
        forall|k: int|
            0 <= k < words.len() ==> (#[trigger] words[k]).len() > 0 && line_width(words[k], size)
                <= width,
        0 <= i < filled(words, size, width).len() - 1,
    ensures
        exists|k: int|
            #![trigger words[k]]
            0 <= k < words.len() && starts(filled(words, size, width)[i + 1], words[k])
                && line_width(filled(words, size, width)[i].push(' ') + words[k], size) > width,
    decreases words.len(),
{
    if words.len() > 0 {
        let (t, word) = (words.drop_last(), words.last());
        assert(words[words.len() - 1] == word);
        assert forall|k: int| 0 <= k < t.len() implies (#[trigger] t[k]).len() > 0 && line_width(
            t[k],
            size,
        ) <= width by {
            assert(t[k] == words[k]);
        }
        let before = filled(t, size, width);
        let after = filled(words, size, width);
        lemma_broken_one(word, size, width);
        let fits = before.len() > 0 && line_width(before.last().push(' ') + word, size) <= width;
        if !fits && i == before.len() - 1 {
            assert(after[i + 1] == word);
            assert(word.take(word.len() as int) =~= word);
            assert(after[i] == before.last());
            assert(starts(after[i + 1], words[words.len() - 1]));
        } else {
            law_lines_are_full(t, size, width, i);
            let k = choose|k: int|
                #![trigger t[k]]
                0 <= k < t.len() && starts(before[i + 1], t[k]) && line_width(
                    before[i].push(' ') + t[k],
                    size,
                ) > width;
            assert(words[k] == t[k]);
            assert(after[i] == before[i]);
            if fits && i + 1 == before.len() - 1 {
                let line = before.last().push(' ') + word;
                assert(after[i + 1] == line);
                assert(line.take(t[k].len() as int) =~= before.last().take(t[k].len() as int));
            } else {
                assert(after[i + 1] == before[i + 1]);
            }
            assert(starts(after[i + 1], words[k]));
        }
    }
}

/// `word[from..]` in pieces that fit in `width`, behind the lines there are.
fn push_broken(lines: &mut Vec<String>, word: &Vec<char>, size: u32, width: u64)
    ensures
        texts(final(lines)@) == texts(old(lines)@) + broken(word@, size as int, width as int),
{
    let ghost start = texts(lines@);
    let mut at: usize = 0;
    proof {
        assert(word@.skip(0) =~= word@);
    }
    while at < word.len()
        invariant
            at <= word@.len(),
            texts(lines@) + broken(word@.skip(at as int), size as int, width as int) == start
                + broken(word@, size as int, width as int),
        decreases word@.len() - at,
    {
        let ghost rest = word@.skip(at as int);
        let mut to: usize = at + 1;
        let mut used: u128 = width_of(word, at, to, size);
        let mut more: bool = true;
        while more && to < word.len()
            invariant
                at < to <= word@.len(),
                rest == word@.skip(at as int),
                used == line_width(word@.subrange(at as int, to as int), size as int),
                used <= (to - at) * 0x1_1000_0000,
                fitting(rest, 1, size as int, width as int) == (if more {
                    fitting(rest, to - at, size as int, width as int)
                } else {
                    to - at
                }),
            decreases word@.len() - to, more as int,
        {
            proof {
                let cut = rest.take(to - at + 1);
                assert(cut.drop_last() =~= word@.subrange(at as int, to as int));
                assert(cut.last() == word@[to as int]);
                assert(word@.subrange(at as int, to + 1) =~= cut);
            }
            let next: u128 = used + width_of_char(word[to], size) as u128;
            if next <= width as u128 {
                used = next;
                to += 1;
            } else {
                more = false;
            }
        }
        let piece: String = crate::text::from_chars(word, at, to);
        proof {
            let k = to - at;
            assert(piece@ =~= rest.take(k));
            assert(rest.skip(k) =~= word@.skip(to as int));
            assert(texts(lines@.push(piece)) =~= texts(lines@).push(piece@));
            assert(texts(lines@).push(piece@) + broken(
                word@.skip(to as int),
                size as int,
                width as int,
            ) =~= texts(lines@) + broken(rest, size as int, width as int));
        }
        lines.push(piece);
        at = to;
    }
    proof {
        assert(word@.skip(at as int) =~= Seq::empty());
        assert(texts(lines@) + Seq::<Seq<char>>::empty() =~= texts(lines@));
    }
}

/// `text` wrapped to `width`: as many words to a line as fit, and a word too
/// long for a line broken where it has to be.
pub fn wrap_text(text: &str, size: u32, width: u64) -> (r: Vec<String>)
    ensures
        texts(r@) == wrapped(text@, size as int, width as int),
{
    let all: Vec<String> = words(text);
    let ghost seen = texts(all@);
    let mut r: Vec<String> = Vec::new();
    let mut i: usize = 0;
    proof {
        assert(seen.take(0) =~= Seq::empty());
        assert(texts(r@) =~= Seq::empty());
    }
    while i < all.len()
        invariant
            i <= all@.len(),
            seen == texts(all@),
            texts(r@) == filled(seen.take(i as int), size as int, width as int),
        decreases all@.len() - i,
    {
        proof {
            assert(seen.take(i + 1).drop_last() =~= seen.take(i as int));
            assert(seen.take(i + 1).last() == all@[i as int]@);
        }
        let n: usize = r.len();
        let mut placed: bool = false;
        if n > 0 {
            let mut line: String = r[n - 1].clone();
            line.push(' ');
            line.append(all[i].as_str());
            let chars: Vec<char> = to_chars(line.as_str());
            let used: u128 = width_of(&chars, 0, chars.len(), size);
            proof {
                assert(chars@.subrange(0, chars@.len() as int) =~= line@);
                assert(texts(r@).last() == r@[n - 1]@);
            }
            if used <= width as u128 {
                proof {
                    assert(texts(r@.update(n - 1, line)) =~= texts(r@).update(n - 1, line@));
                }
                r.set(n - 1, line);
                placed = true;
            }
        }
        if !placed {
            let word: Vec<char> = to_chars(all[i].as_str());
            push_broken(&mut r, &word, size, width);
        }
        i += 1;
    }
    proof {
        assert(seen.take(i as int) =~= seen);
    }
    r
}

// ---------------------------------------------------------------------------
// Paragraphs
// ---------------------------------------------------------------------------

/// The rows of one line of the source: wrapped, or a blank row.
pub open spec fn source_rows(line: Seq<char>) -> Seq<Seq<char>> {
    let line = trim_end(line);
    if line.len() == 0 {
        seq![Seq::empty()]
    } else {
        wrapped(line, BODY_SIZE as int, USABLE as int)
    }
}

/// The rows of all these lines of the source.
pub open spec fn rows_of(lines: Seq<Seq<char>>) -> Seq<Seq<char>>
    decreases lines.len(),
{
    if lines.len() == 0 {
        Seq::empty()
    } else {
        rows_of(lines.drop_last()) + source_rows(lines.last())
    }
}

/// The rows of one paragraph. Each source line is wrapped separately so lists
/// and other deliberate breaks survive; a model's output is full of them.
pub open spec fn paragraph_rows(paragraph: Seq<char>) -> Seq<Seq<char>> {
    let p = trimmed(paragraph);
    if p.len() == 0 {
        Seq::empty()
    } else {
        rows_of(pieces(p, "\n"@))
    }
}

/// The rows of these paragraphs, a blank row before every one but the first.
pub open spec fn paragraphs_rows(paragraphs: Seq<Seq<char>>) -> Seq<Seq<char>>
    decreases paragraphs.len(),
{
    if paragraphs.len() == 0 {
        Seq::empty()
    } else {
        let before = paragraphs_rows(paragraphs.drop_last());
        let gap: Seq<Seq<char>> = if paragraphs.len() > 1 {
            seq![Seq::empty()]
        } else {
            Seq::empty()
        };
        before + gap + paragraph_rows(paragraphs.last())
    }
}

/// The rows of a whole text. Blank lines separate paragraphs.
pub open spec fn body_rows(text: Seq<char>) -> Seq<Seq<char>> {
    paragraphs_rows(pieces(text, "\n\n"@))
}

proof fn lemma_source_rows(line: Seq<char>)
    ensures
        solid(source_rows(line).flatten()) == solid(line),
{
    let t = trim_end(line);
    lemma_solid_trim_end(line);
    if t.len() == 0 {
        let none = seq![Seq::<char>::empty()];
        lemma_flatten_last(none);
        assert(none.drop_last() =~= Seq::empty());
        assert(none.flatten() =~= t);
    } else {
        law_wrapped_text_is_whole(t, BODY_SIZE as int, USABLE as int);
    }
}

proof fn lemma_rows_of(lines: Seq<Seq<char>>)
    ensures
        solid(rows_of(lines).flatten()) == solid(lines.flatten()),
    decreases lines.len(),
{
    if lines.len() == 0 {
        assert(rows_of(lines) =~= lines);
    } else {
        let t = lines.drop_last();
        lemma_rows_of(t);
        lemma_source_rows(lines.last());
        lemma_flatten_add(rows_of(t), source_rows(lines.last()));
        lemma_flatten_last(lines);
        lemma_solid_add(rows_of(t).flatten(), source_rows(lines.last()).flatten());
        lemma_solid_add(t.flatten(), lines.last());
    }
}

proof fn lemma_paragraph_rows(paragraph: Seq<char>)
    ensures
        solid(paragraph_rows(paragraph).flatten()) == solid(paragraph),
{
    let p = trimmed(paragraph);
    law_trimming_takes_only_white_space(paragraph);
    reveal_strlit("\n");
    if p.len() == 0 {
        assert(paragraph_rows(paragraph).flatten() =~= p);
    } else {
        lemma_rows_of(pieces(p, "\n"@));
        lemma_solid_pieces(p, "\n"@);
    }
}

proof fn lemma_paragraphs_rows(paragraphs: Seq<Seq<char>>)
    ensures
        solid(paragraphs_rows(paragraphs).flatten()) == solid(paragraphs.flatten()),
    decreases paragraphs.len(),
{
    if paragraphs.len() == 0 {
        assert(paragraphs_rows(paragraphs) =~= paragraphs);
    } else {
        let (t, last) = (paragraphs.drop_last(), paragraphs.last());
        lemma_paragraphs_rows(t);
        lemma_paragraph_rows(last);
        let before = paragraphs_rows(t);
        let gap: Seq<Seq<char>> = if paragraphs.len() > 1 {
            seq![Seq::empty()]
        } else {
            Seq::empty()
        };
        assert(gap.flatten() =~= Seq::empty()) by {
            if paragraphs.len() > 1 {
                lemma_flatten_last(gap);
                assert(gap.drop_last() =~= Seq::empty());
            }
        }
        lemma_flatten_add(before, gap);
        lemma_flatten_add(before + gap, paragraph_rows(last));
        assert(paragraphs_rows(paragraphs).flatten() =~= before.flatten() + paragraph_rows(
            last,
        ).flatten());
        lemma_solid_add(before.flatten(), paragraph_rows(last).flatten());
        lemma_flatten_last(paragraphs);
        lemma_solid_add(t.flatten(), last);
    }
}

/// The rows of a document hold all of its text, in order: nothing but white
/// space comes or goes.
pub proof fn law_rows_hold_all_of_the_text(text: Seq<char>)
    ensures
        solid(body_rows(text).flatten()) == solid(text),
{
    reveal_strlit("\n\n");
    lemma_paragraphs_rows(pieces(text, "\n\n"@));
    lemma_solid_pieces(text, "\n\n"@);
}

/// A line break in a paragraph is kept: its lines are laid out one after the
/// other, each from a row of its own.
pub proof fn law_line_breaks_are_kept(a: Seq<Seq<char>>, b: Seq<Seq<char>>)
    ensures
        rows_of(a + b) == rows_of(a) + rows_of(b),
        forall|line: Seq<char>|
            #![trigger rows_of(seq![line])]
            rows_of(seq![line]).len() > 0 || trimmed(line).len() == 0,
    decreases b.len(),
{
    if b.len() == 0 {
        assert(a + b =~= a);
        assert(rows_of(a) + rows_of(b) =~= rows_of(a));
        assert forall|line: Seq<char>|
            #![trigger rows_of(seq![line])]
            rows_of(seq![line]).len() > 0 || trimmed(line).len() == 0 by {
            lemma_rows_of(seq![line]);
            lemma_flatten_last(seq![line]);
            assert(seq![line].drop_last() =~= Seq::empty());
            assert(seq![line].flatten() =~= line);
            if rows_of(seq![line]).len() == 0 {
                assert(rows_of(seq![line]).flatten() =~= Seq::empty());
                law_trimming_takes_only_white_space(line);
                if trimmed(line).len() > 0 {
                    Seq::<char>::filter_lemma(line, |c: char| !white_space(c));
                    Seq::<char>::filter_lemma(trimmed(line), |c: char| !white_space(c));
                    assert(solid(trimmed(line)).contains(trimmed(line)[0]));
                }
                lemma_solid_white(Seq::empty());
            }
        }
    } else {
        law_line_breaks_are_kept(a, b.drop_last());
        assert((a + b).drop_last() =~= a + b.drop_last());
        assert(rows_of(a + b) =~= rows_of(a) + rows_of(b));
    }
}

/// Paragraphs stand a blank row apart.
pub proof fn law_paragraphs_stand_a_row_apart(a: Seq<Seq<char>>, b: Seq<char>)
    requires
        a.len() > 0,
    ensures
        paragraphs_rows(a.push(b)) == paragraphs_rows(a) + seq![Seq::<char>::empty()]
            + paragraph_rows(b),
        paragraphs_rows(seq![b]) == paragraph_rows(b),
{
    assert(a.push(b).drop_last() =~= a);
    assert(seq![b].drop_last() =~= Seq::empty());
    assert(paragraphs_rows(Seq::empty()) =~= Seq::empty());
    assert(paragraphs_rows(seq![b]) =~= paragraph_rows(b));
}

fn push_paragraph(rows: &mut Vec<String>, paragraph: &str)
    ensures
        texts(final(rows)@) == texts(old(rows)@) + paragraph_rows(paragraph@),
{
    let ghost start = texts(rows@);
    let p: String = trim(paragraph);
    if p.as_str().is_empty() {
        proof {
            assert(start + Seq::<Seq<char>>::empty() =~= start);
        }
        return;
    }
    proof {
        reveal_strlit("\n");
    }
    let lines: Vec<String> = split(p.as_str(), "\n");
    let ghost all = texts(lines@);
    let mut i: usize = 0;
    proof {
        assert(all.take(0) =~= Seq::empty());
        assert(start + Seq::<Seq<char>>::empty() =~= start);
    }
    while i < lines.len()
        invariant
            i <= lines@.len(),
            all == texts(lines@),
            texts(rows@) == start + rows_of(all.take(i as int)),
        decreases lines@.len() - i,
    {
        proof {
            assert(all.take(i + 1).drop_last() =~= all.take(i as int));
            assert(all.take(i + 1).last() == lines@[i as int]@);
        }
        let ghost before = texts(rows@);
        let line: String = trim_tail(lines[i].as_str());
        if line.as_str().is_empty() {
            let none: String = String::new();
            proof {
                assert(none@ =~= Seq::empty());
                assert(texts(rows@.push(none)) =~= texts(rows@) + seq![Seq::<char>::empty()]);
            }
            rows.push(none);
        } else {
            let mut more: Vec<String> = wrap_text(line.as_str(), BODY_SIZE, USABLE);
            proof {
                assert(texts(rows@ + more@) =~= texts(rows@) + texts(more@));
            }
            rows.append(&mut more);
        }
        proof {
            assert(texts(rows@) =~= before + source_rows(lines@[i as int]@));
            assert(texts(rows@) =~= start + rows_of(all.take(i + 1)));
        }
        i += 1;
    }
    proof {
        assert(all.take(i as int) =~= all);
    }
}

/// The rows of a whole text, in order.
pub fn body_lines(text: &str) -> (rows: Vec<String>)
    ensures
        texts(rows@) == body_rows(text@),
{
    proof {
        reveal_strlit("\n\n");
    }
    let paragraphs: Vec<String> = split(text, "\n\n");
    let ghost all = texts(paragraphs@);
    let mut rows: Vec<String> = Vec::new();
    let mut i: usize = 0;
    proof {
        assert(all.take(0) =~= Seq::empty());
        assert(texts(rows@) =~= Seq::empty());
    }
    while i < paragraphs.len()
        invariant
            i <= paragraphs@.len(),
            all == texts(paragraphs@),
            texts(rows@) == paragraphs_rows(all.take(i as int)),
        decreases paragraphs@.len() - i,
    {
        proof {
            assert(all.take(i + 1).drop_last() =~= all.take(i as int));
            assert(all.take(i + 1).last() == paragraphs@[i as int]@);
        }
        let ghost before = texts(rows@);
        if i > 0 {
            let none: String = String::new();
            proof {
                assert(none@ =~= Seq::empty());
                assert(texts(rows@.push(none)) =~= texts(rows@) + seq![Seq::<char>::empty()]);
            }
            rows.push(none);
        } else {
            proof {
                assert(before + Seq::<Seq<char>>::empty() =~= before);
            }
        }
        push_paragraph(&mut rows, paragraphs[i].as_str());
        i += 1;
    }
    proof {
        assert(all.take(i as int) =~= all);
    }
    rows
}

// ---------------------------------------------------------------------------
// Pages
// ---------------------------------------------------------------------------

/// How many rows fit in `height`, at least one.
pub open spec fn rows_in(height: int) -> int {
    let rows = (height - MARGIN) / (LEADING as int);
    if rows < 1 {
        1
    } else {
        rows
    }
}

/// How many rows fit in `height`, at least one.
pub fn rows_per_page(height: i128) -> (r: usize)
    requires
        i128::MIN + MARGIN <= height <= PAGE_H,
    ensures
        r == rows_in(height as int),
{
    let room: i128 = height - MARGIN as i128;
    if room < LEADING as i128 {
        return 1;
    }
    (room / LEADING as i128) as usize
}

/// How many rows the title takes, at least one.
pub open spec fn title_rows(title: Seq<char>) -> int {
    let n = wrapped(title, TITLE_SIZE as int, USABLE as int).len() as int;
    if n < 1 {
        1
    } else {
        n
    }
}

/// How much of the first page the title takes.
pub open spec fn title_height(title: Seq<char>) -> int {
    title_rows(title) * TITLE_LEADING + TITLE_GAP
}

/// How much of the first page the title takes.
pub fn title_block_height(title: &str) -> (r: i128)
    ensures
        r == title_height(title@),
        0 <= r <= u64::MAX * TITLE_LEADING + TITLE_GAP,
{
    let lines: Vec<String> = wrap_text(title, TITLE_SIZE, USABLE);
    let n: usize = lines.len();
    let rows: i128 = if n < 1 {
        1
    } else {
        n as i128
    };
    proof {
        assert(rows == title_rows(title@));
        assert(0 <= rows <= u64::MAX);
    }
    rows * (TITLE_LEADING as i128) + TITLE_GAP as i128
}

/// `rows` over pages: as many as fit on the first, and on each later one. There
/// is always a first page.
pub open spec fn paged(rows: Seq<Seq<char>>, first: int, later: int) -> Seq<Seq<Seq<char>>>
    decreases rows.len(),
{
    if rows.len() <= first || first < 1 {
        seq![rows]
    } else {
        seq![rows.take(first)] + paged(rows.skip(first), later, later)
    }
}

/// The rows of a document, page by page.
pub open spec fn page_rows(title: Seq<char>, text: Seq<char>) -> Seq<Seq<Seq<char>>> {
    paged(
        body_rows(text),
        rows_in(PAGE_H - MARGIN - title_height(title)),
        rows_in(PAGE_H - 2 * MARGIN),
    )
}

/// Nothing of a text is lost between the pages: put back together, they are its
/// rows, in order.
pub proof fn law_pages_hold_every_row(rows: Seq<Seq<char>>, first: int, later: int)
    ensures
        paged(rows, first, later).flatten() == rows,
        paged(rows, first, later).len() > 0,
    decreases rows.len(),
{
    let p = paged(rows, first, later);
    if rows.len() <= first || first < 1 {
        assert(p.drop_first() =~= Seq::empty());
        assert(p.drop_first().flatten() =~= Seq::empty());
        assert(p.first() + p.drop_first().flatten() =~= rows);
    } else {
        law_pages_hold_every_row(rows.skip(first), later, later);
        assert(p.drop_first() =~= paged(rows.skip(first), later, later));
        assert(p.first() + p.drop_first().flatten() =~= rows);
    }
}

/// No page holds more rows than fit on it.
pub proof fn law_pages_fit(rows: Seq<Seq<char>>, first: int, later: int)
    requires
        first >= 1,
        later >= 1,
    ensures
        forall|i: int|
            0 <= i < paged(rows, first, later).len() ==> (#[trigger] paged(
                rows,
                first,
                later,
            )[i]).len() <= if i == 0 {
                first
            } else {
                later
            },
    decreases rows.len(),
{
    if rows.len() > first {
        law_pages_fit(rows.skip(first), later, later);
        let rest = paged(rows.skip(first), later, later);
        let p = paged(rows, first, later);
        assert forall|i: int| 0 <= i < p.len() implies (#[trigger] p[i]).len() <= if i == 0 {
            first
        } else {
            later
        } by {
            if i > 0 {
                assert(p[i] == rest[i - 1]);
            }
        }
    }
}

/// One line of text, and where it stands on the page, from the lower left.
#[derive(Debug)]
pub struct PlacedLine {
    pub text: String,
    pub x: i64,
    pub y: i128,
    pub size: u32,
}

/// A placed line as a mathematical value.
#[verifier::ext_equal]
pub struct LineV {
    pub text: Seq<char>,
    pub x: int,
    pub y: int,
    pub size: int,
}

impl View for PlacedLine {
    type V = LineV;

    open spec fn view(&self) -> LineV {
        LineV { text: self.text@, x: self.x as int, y: self.y as int, size: self.size as int }
    }
}

pub open spec fn placed(v: Seq<PlacedLine>) -> Seq<LineV> {
    v.map_values(|l: PlacedLine| l@)
}

/// `rows` below `y`, `step` apart. A blank row takes its place and draws
/// nothing.
pub open spec fn stacked(rows: Seq<Seq<char>>, y: int, step: int, size: int) -> Seq<LineV>
    decreases rows.len(),
{
    if rows.len() == 0 {
        Seq::empty()
    } else {
        let before = stacked(rows.drop_last(), y, step, size);
        if rows.last().len() == 0 {
            before
        } else {
            before.push(
                LineV { text: rows.last(), x: MARGIN as int, y: y - rows.len() * step, size },
            )
        }
    }
}

/// What is drawn on a page: the title, on the first, and its rows.
pub open spec fn drawn(title: Option<Seq<char>>, rows: Seq<Seq<char>>) -> Seq<LineV> {
    let top = PAGE_H - MARGIN;
    match title {
        Some(t) => {
            let heading = wrapped(t, TITLE_SIZE as int, USABLE as int);
            stacked(heading, top, TITLE_LEADING as int, TITLE_SIZE as int) + stacked(
                rows,
                top - heading.len() * TITLE_LEADING - TITLE_GAP,
                LEADING as int,
                BODY_SIZE as int,
            )
        },
        None => stacked(rows, top, LEADING as int, BODY_SIZE as int),
    }
}

fn stack(
    lines: &mut Vec<PlacedLine>,
    rows: &Vec<String>,
    from: usize,
    to: usize,
    y: i128,
    step: i64,
    size: u32,
) -> (below: i128)
    requires
        from <= to <= rows@.len(),
        0 <= step <= 0xffff_ffff,
        -0x1_0000_0000 * 0x1_0000_0000_0000_0000 <= y <= PAGE_H,
    ensures
        placed(final(lines)@) == placed(old(lines)@) + stacked(
            texts(rows@).subrange(from as int, to as int),
            y as int,
            step as int,
            size as int,
        ),
        below == y - (to - from) * step,
{
    let ghost start = placed(lines@);
    let ghost all = texts(rows@).subrange(from as int, to as int);
    let mut at: i128 = y;
    let mut i: usize = from;
    proof {
        assert(all.take(0) =~= Seq::empty());
        assert(start + Seq::<LineV>::empty() =~= start);
    }
    while i < to
        invariant
            from <= i <= to <= rows@.len(),
            0 <= step <= 0xffff_ffff,
            -0x1_0000_0000 * 0x1_0000_0000_0000_0000 <= y <= PAGE_H,
            all == texts(rows@).subrange(from as int, to as int),
            at == y - (i - from) * step,
            placed(lines@) == start + stacked(
                all.take(i - from),
                y as int,
                step as int,
                size as int,
            ),
        decreases to - i,
    {
        proof {
            let k = i - from;
            assert(all.take(k + 1).drop_last() =~= all.take(k));
            assert(all.take(k + 1).last() == rows@[i as int]@);
            assert((k + 1) * step == k * step + step) by (nonlinear_arith);
            assert(0 <= (k + 1) * step <= 0x1_0000_0000_0000_0000 * 0xffff_ffff)
                by (nonlinear_arith)
                requires
                    0 <= k + 1 <= 0x1_0000_0000_0000_0000,
                    0 <= step <= 0xffff_ffff,
            ;
        }
        at = at - step as i128;
        if !rows[i].as_str().is_empty() {
            let line: PlacedLine = PlacedLine { text: rows[i].clone(), x: MARGIN, y: at, size };
            proof {
                assert(placed(lines@.push(line)) =~= placed(lines@).push(line@));
                assert(placed(lines@).push(line@) =~= start + stacked(
                    all.take(i - from + 1),
                    y as int,
                    step as int,
                    size as int,
                ));
            }
            lines.push(line);
        }
        i += 1;
    }
    proof {
        assert(all.take(i - from) =~= all);
    }
    at
}

/// What is drawn on a page: the title, on the first, and `rows[from..to]`.
fn page_lines(title: Option<&str>, rows: &Vec<String>, from: usize, to: usize) -> (r: Vec<
    PlacedLine,
>)
    requires
        from <= to <= rows@.len(),
    ensures
        placed(r@) == drawn(
            match title {
                Some(t) => Some(t@),
                None => None,
            },
            texts(rows@).subrange(from as int, to as int),
        ),
{
    let mut r: Vec<PlacedLine> = Vec::new();
    let mut y: i128 = (PAGE_H - MARGIN) as i128;
    proof {
        assert(placed(r@) =~= Seq::empty());
    }
    if let Some(title) = title {
        let heading: Vec<String> = wrap_text(title, TITLE_SIZE, USABLE);
        let n: usize = heading.len();
        let ghost top = y as int;
        y = stack(&mut r, &heading, 0, n, y, TITLE_LEADING, TITLE_SIZE);
        proof {
            assert(texts(heading@).subrange(0, n as int) =~= texts(heading@));
            assert(0 <= n * TITLE_LEADING <= 0x1_0000_0000_0000_0000 * 22_100) by (nonlinear_arith)
                requires
                    0 <= n <= 0x1_0000_0000_0000_0000,
                    TITLE_LEADING == 22_100,
            ;
        }
        y = y - TITLE_GAP as i128;
    }
    let ghost before = placed(r@);
    let _below: i128 = stack(&mut r, rows, from, to, y, LEADING, BODY_SIZE);
    proof {
        if title is None {
            assert(before =~= Seq::empty());
            assert(placed(r@) =~= stacked(
                texts(rows@).subrange(from as int, to as int),
                y as int,
                LEADING as int,
                BODY_SIZE as int,
            ));
        }
    }
    r
}

/// What is drawn on each page of a document.
pub open spec fn layout_of(title: Seq<char>, text: Seq<char>) -> Seq<Seq<LineV>> {
    let pages = page_rows(title, text);
    Seq::new(
        pages.len(),
        |i: int|
            drawn(
                if i == 0 {
                    Some(title)
                } else {
                    None
                },
                pages[i],
            ),
    )
}

/// The line that row `k` of some rows is drawn as, the first of them `step`
/// below `y`.
pub open spec fn row_line(text: Seq<char>, y: int, k: int, step: int, size: int) -> LineV {
    LineV { text, x: 54_000, y: y - (k + 1) * step, size }
}

/// Whether a line is one of `rows`, drawn where that row belongs.
spec fn is_row(rows: Seq<Seq<char>>, line: LineV, y: int, step: int, size: int) -> bool {
    exists|k: int|
        #![trigger rows[k]]
        0 <= k < rows.len() && rows[k].len() > 0 && line == row_line(rows[k], y, k, step, size)
}

proof fn lemma_stacked(rows: Seq<Seq<char>>, y: int, step: int, size: int)
    requires
        step > 0,
    ensures
        forall|k: int|
            #![trigger rows[k]]
            0 <= k < rows.len() && rows[k].len() > 0 ==> stacked(rows, y, step, size).contains(
                row_line(rows[k], y, k, step, size),
            ),
        forall|j: int|
            0 <= j < stacked(rows, y, step, size).len() ==> is_row(
                rows,
                #[trigger] stacked(rows, y, step, size)[j],
                y,
                step,
                size,
            ),
        forall|i: int, j: int|
            0 <= i < j < stacked(rows, y, step, size).len() ==> (#[trigger] stacked(
                rows,
                y,
                step,
                size,
            )[i]).y > (#[trigger] stacked(rows, y, step, size)[j]).y,
        forall|j: int|
            0 <= j < stacked(rows, y, step, size).len() ==> y - rows.len() * step <= (
            #[trigger] stacked(rows, y, step, size)[j]).y <= y - step,
    decreases rows.len(),
{
    let st = stacked(rows, y, step, size);
    if rows.len() > 0 {
        let n = rows.len() - 1;
        let t = rows.drop_last();
        let before = stacked(t, y, step, size);
        lemma_stacked(t, y, step, size);
        assert(rows[n] == rows.last());
        assert(rows.len() * step == n * step + step && n * step >= 0) by (nonlinear_arith)
            requires
                rows.len() == n + 1,
                step > 0,
                n >= 0,
        ;
        assert forall|k: int| #![trigger rows[k]] 0 <= k < rows.len() && rows[k].len()
            > 0 implies st.contains(row_line(rows[k], y, k, step, size)) by {
            let line = row_line(rows[k], y, k, step, size);
            if k < n {
                assert(t[k] == rows[k]);
                let j = before.index_of(line);
                assert(st[j] == line);
            } else {
                assert(st[st.len() - 1] == line);
            }
        }
        assert forall|j: int| 0 <= j < st.len() implies is_row(
            rows,
            #[trigger] st[j],
            y,
            step,
            size,
        ) by {
            if j < before.len() {
                assert(st[j] == before[j]);
                assert(is_row(t, before[j], y, step, size));
                let k = choose|k: int|
                    #![trigger t[k]]
                    0 <= k < t.len() && t[k].len() > 0 && before[j] == row_line(
                        t[k],
                        y,
                        k,
                        step,
                        size,
                    );
                assert(rows[k] == t[k]);
            } else {
                assert(st[j] == row_line(rows[n], y, n, step, size));
            }
        }
        assert forall|i: int, j: int| 0 <= i < j < st.len() implies (#[trigger] st[i]).y > (
        #[trigger] st[j]).y by {
            assert(st[i] == before[i]);
            if j < before.len() {
                assert(st[j] == before[j]);
            }
        }
        assert forall|j: int| 0 <= j < st.len() implies y - rows.len() * step <= (
        #[trigger] st[j]).y <= y - step by {
            if j < before.len() {
                assert(st[j] == before[j]);
            }
        }
    }
}

/// Where the first row of a page's text hangs from: the top margin, and on the
/// first page the room the title takes below it.
pub open spec fn text_top(title: Seq<char>, page: int) -> int {
    if page == 0 {
        738_000 - wrapped(title, 17_000, 504_000).len() * 22_100 - 14_000
    } else {
        738_000
    }
}

/// Lines never stand on top of one another: on every page each is lower than
/// the one before it.
pub proof fn law_lines_go_down_the_page(title: Seq<char>, text: Seq<char>, page: int)
    requires
        0 <= page < layout_of(title, text).len(),
    ensures
        forall|i: int, j: int|
            0 <= i < j < layout_of(title, text)[page].len() ==> (#[trigger] layout_of(
                title,
                text,
            )[page][i]).y > (#[trigger] layout_of(title, text)[page][j]).y,
        forall|i: int|
            0 <= i < layout_of(title, text)[page].len() ==> {
                let line = #[trigger] layout_of(title, text)[page][i];
                line.x == 54_000 && line.y < 738_000 && line.text.len() > 0
            },
{
    let lines = layout_of(title, text)[page];
    let rows = page_rows(title, text)[page];
    let top = 738_000int;
    lemma_stacked(rows, text_top(title, page), 15_500, 11_000);
    if page == 0 {
        let heading = wrapped(title, 17_000, 504_000);
        lemma_stacked(heading, top, 22_100, 17_000);
        let a = stacked(heading, top, 22_100, 17_000);
        let b = stacked(rows, text_top(title, 0), 15_500, 11_000);
        assert(lines == a + b);
        assert forall|i: int, j: int| 0 <= i < j < lines.len() implies (#[trigger] lines[i]).y > (
        #[trigger] lines[j]).y by {
            if i < a.len() {
                assert(lines[i] == a[i]);
            } else {
                assert(lines[i] == b[i - a.len()]);
            }
            if j < a.len() {
                assert(lines[j] == a[j]);
            } else {
                assert(lines[j] == b[j - a.len()]);
            }
        }
        assert forall|i: int| 0 <= i < lines.len() implies {
            let line = #[trigger] lines[i];
            line.x == 54_000 && line.y < 738_000 && line.text.len() > 0
        } by {
            if i < a.len() {
                assert(lines[i] == a[i]);
                assert(is_row(heading, a[i], top, 22_100, 17_000));
            } else {
                assert(lines[i] == b[i - a.len()]);
                assert(is_row(rows, b[i - a.len()], text_top(title, 0), 15_500, 11_000));
            }
        }
    } else {
        assert(lines == stacked(rows, top, 15_500, 11_000));
        assert forall|i: int| 0 <= i < lines.len() implies {
            let line = #[trigger] lines[i];
            line.x == 54_000 && line.y < 738_000 && line.text.len() > 0
        } by {
            assert(is_row(rows, lines[i], top, 15_500, 11_000));
        }
    }
}

/// Every row of a page that says anything is drawn, each at its own place: row
/// `k` is fifteen and a half points below row `k - 1`, whether that one is blank
/// or not, on the first page below the title and on every other below the
/// margin.
pub proof fn law_rows_stand_a_leading_apart(
    title: Seq<char>,
    text: Seq<char>,
    page: int,
    k: int,
)
    requires
        0 <= page < layout_of(title, text).len(),
        0 <= k < page_rows(title, text)[page].len(),
        page_rows(title, text)[page][k].len() > 0,
    ensures
        page_rows(title, text).len() == layout_of(title, text).len(),
        layout_of(title, text)[page].contains(
            LineV {
                text: page_rows(title, text)[page][k],
                x: 54_000,
                y: text_top(title, page) - (k + 1) * 15_500,
                size: 11_000,
            },
        ),
{
    let lines = layout_of(title, text)[page];
    let rows = page_rows(title, text)[page];
    let b = stacked(rows, text_top(title, page), 15_500, 11_000);
    lemma_stacked(rows, text_top(title, page), 15_500, 11_000);
    let line = row_line(rows[k], text_top(title, page), k, 15_500, 11_000);
    assert(b.contains(line));
    let j = b.index_of(line);
    if page == 0 {
        let a = stacked(wrapped(title, 17_000, 504_000), 738_000, 22_100, 17_000);
        assert(lines == a + b);
        assert(lines[a.len() + j] == line);
    } else {
        assert(lines[j] == line);
    }
}

/// Every row of the title is drawn at the top of the first page, twenty-two
/// points and a bit apart, and a later page has nothing but rows of the text.
pub proof fn law_the_title_heads_the_first_page(title: Seq<char>, text: Seq<char>)
    ensures
        layout_of(title, text).len() > 0,
        forall|k: int|
            0 <= k < wrapped(title, 17_000, 504_000).len() && (#[trigger] wrapped(
                title,
                17_000,
                504_000,
            )[k]).len() > 0 ==> layout_of(title, text)[0].contains(
                LineV {
                    text: wrapped(title, 17_000, 504_000)[k],
                    x: 54_000,
                    y: 738_000 - (k + 1) * 22_100,
                    size: 17_000,
                },
            ),
        forall|page: int, i: int|
            0 <= page < layout_of(title, text).len() && 0 <= i < layout_of(title, text)[page].len()
                ==> {
                let line = #[trigger] layout_of(title, text)[page][i];
                ||| line.size == 11_000 && page_rows(title, text)[page].contains(line.text)
                ||| page == 0 && line.size == 17_000 && wrapped(title, 17_000, 504_000).contains(
                    line.text,
                )
            },
{
    let heading = wrapped(title, 17_000, 504_000);
    lemma_stacked(heading, 738_000, 22_100, 17_000);
    law_pages_hold_every_row(
        body_rows(text),
        rows_in(PAGE_H - MARGIN - title_height(title)),
        rows_in(PAGE_H - 2 * MARGIN),
    );
    let a = stacked(heading, 738_000, 22_100, 17_000);
    assert(layout_of(title, text)[0] == a + stacked(
        page_rows(title, text)[0],
        text_top(title, 0),
        15_500,
        11_000,
    ));
    assert forall|k: int| 0 <= k < heading.len() && (#[trigger] heading[k]).len()
        > 0 implies layout_of(title, text)[0].contains(
        LineV { text: heading[k], x: 54_000, y: 738_000 - (k + 1) * 22_100, size: 17_000 },
    ) by {
        let line = row_line(heading[k], 738_000, k, 22_100, 17_000);
        let j = a.index_of(line);
        assert(layout_of(title, text)[0][j] == line);
    }
    assert forall|page: int, i: int|
        0 <= page < layout_of(title, text).len() && 0 <= i < layout_of(title, text)[page].len() implies {
        let line = #[trigger] layout_of(title, text)[page][i];
        ||| line.size == 11_000 && page_rows(title, text)[page].contains(line.text)
        ||| page == 0 && line.size == 17_000 && heading.contains(line.text)
    } by {
        let rows = page_rows(title, text)[page];
        let b = stacked(rows, text_top(title, page), 15_500, 11_000);
        lemma_stacked(rows, text_top(title, page), 15_500, 11_000);
        let line = layout_of(title, text)[page][i];
        let at = if page == 0 {
            i - a.len()
        } else {
            i
        };
        if at >= 0 {
            assert(line == b[at]);
            assert(is_row(rows, b[at], text_top(title, page), 15_500, 11_000));
            let k = choose|k: int|
                #![trigger rows[k]]
                0 <= k < rows.len() && rows[k].len() > 0 && b[at] == row_line(
                    rows[k],
                    text_top(title, page),
                    k,
                    15_500,
                    11_000,
                );
            assert(rows[k] == line.text);
        } else {
            assert(line == a[i]);
            assert(is_row(heading, a[i], 738_000, 22_100, 17_000));
            let k = choose|k: int|
                #![trigger heading[k]]
                0 <= k < heading.len() && heading[k].len() > 0 && a[i] == row_line(
                    heading[k],
                    738_000,
                    k,
                    22_100,
                    17_000,
                );
            assert(heading[k] == line.text);
        }
    }
}

/// No line of text runs into the bottom margin, as long as the title leaves
/// room for a row above it.
pub proof fn law_lines_stay_above_the_margin(
    title: Seq<char>,
    text: Seq<char>,
    page: int,
    i: int,
)
    requires
        0 <= page < layout_of(title, text).len(),
        0 <= i < layout_of(title, text)[page].len(),
        wrapped(title, 17_000, 504_000).len() * 22_100 + 14_000 <= 660_000,
    ensures
        layout_of(title, text)[page][i].y >= 54_000,
{
    let (first, later) = (
        rows_in(PAGE_H - MARGIN - title_height(title)),
        rows_in(PAGE_H - 2 * MARGIN),
    );
    law_pages_fit(body_rows(text), first, later);
    let rows = page_rows(title, text)[page];
    let lines = layout_of(title, text)[page];
    let b = stacked(rows, text_top(title, page), 15_500, 11_000);
    lemma_stacked(rows, text_top(title, page), 15_500, 11_000);
    if page == 0 {
        let heading = wrapped(title, 17_000, 504_000);
        let a = stacked(heading, 738_000, 22_100, 17_000);
        lemma_stacked(heading, 738_000, 22_100, 17_000);
        assert(lines == a + b);
        assert(rows.len() <= first);
        if i < a.len() {
            assert(lines[i] == a[i]);
        } else {
            assert(lines[i] == b[i - a.len()]);
        }
    } else {
        assert(rows.len() <= later);
        assert(lines[i] == b[i]);
    }
}

pub open spec fn placed_pages(v: Seq<Vec<PlacedLine>>) -> Seq<Seq<LineV>> {
    v.map_values(|p: Vec<PlacedLine>| placed(p@))
}

/// Lay `text` out below its title. Blank lines separate paragraphs; everything
/// else is wrapped to the page width.
pub fn layout(title: &str, text: &str) -> (pages: Vec<Vec<PlacedLine>>)
    ensures
        placed_pages(pages@) == layout_of(title@, text@),
        pages@.len() > 0,
{
    let rows: Vec<String> = body_lines(text);
    let first: usize = rows_per_page((PAGE_H - MARGIN) as i128 - title_block_height(title));
    let later: usize = rows_per_page((PAGE_H - 2 * MARGIN) as i128);
    let ghost all = texts(rows@);
    let ghost whole = page_rows(title@, text@);
    let mut pages: Vec<Vec<PlacedLine>> = Vec::new();
    let mut from: usize = 0;
    let mut capacity: usize = first;
    let mut more: bool = true;
    proof {
        assert(all.skip(0) =~= all);
        assert(paged(all, first as int, later as int) =~= whole);
    }
    while more
        invariant
            from <= rows@.len(),
            all == texts(rows@),
            whole == page_rows(title@, text@),
            capacity >= 1,
            later >= 1,
            pages@.len() > 0 ==> capacity == later,
            pages@.len() == 0 ==> more,
            more ==> whole.len() > pages@.len() && paged(
                all.skip(from as int),
                capacity as int,
                later as int,
            ) == whole.skip(pages@.len() as int),
            !more ==> whole.len() == pages@.len(),
            forall|i: int|
                0 <= i < pages@.len() ==> placed((#[trigger] pages@[i])@) == drawn(
                    if i == 0 {
                        Some(title@)
                    } else {
                        None
                    },
                    whole[i],
                ),
        decreases (more as int) + rows@.len() - from, more as int,
    {
        let ghost n = pages@.len() as int;
        let left: usize = rows.len() - from;
        let take: usize = if left < capacity {
            left
        } else {
            capacity
        };
        let heading: Option<&str> = if pages.len() == 0 {
            Some(title)
        } else {
            None
        };
        let page: Vec<PlacedLine> = page_lines(heading, &rows, from, from + take);
        proof {
            let rest = all.skip(from as int);
            assert(rest.len() == left);
            assert(whole.skip(n)[0] == whole[n]);
            assert(rest.take(take as int) =~= all.subrange(from as int, from + take));
            if left <= capacity {
                assert(rest.take(take as int) =~= rest);
                assert(whole.skip(n).len() == 1);
            } else {
                assert(rest.skip(take as int) =~= all.skip(from + take));
                let tail = paged(all.skip(from + take), later as int, later as int);
                law_pages_hold_every_row(all.skip(from + take), later as int, later as int);
                assert(whole.skip(n).drop_first() =~= tail);
                assert(whole.skip(n + 1) =~= whole.skip(n).drop_first());
            }
        }
        pages.push(page);
        from = from + take;
        capacity = later;
        more = from < rows.len();
    }
    proof {
        assert(placed_pages(pages@) =~= layout_of(title@, text@));
    }
    pages
}

// ---------------------------------------------------------------------------
// Characters
// ---------------------------------------------------------------------------

/// The code point of a character.
fn code_of(c: char) -> (r: u32)
    ensures
        r == c as int,
{
    c as u32
}

/// Whether the standard-14 Helvetica encoding can represent a character.
pub open spec fn representable(c: char) -> bool {
    (c as int) < 256
}

/// True when the text contains characters the standard-14 Helvetica encoding
/// can't represent, which are written as "?". Worth telling the user about
/// rather than silently mangling their document.
pub fn has_unrepresentable_chars(text: &str) -> (r: bool)
    ensures
        r == exists|i: int| 0 <= i < text@.len() && !representable(#[trigger] text@[i]),
{
    let v: Vec<char> = to_chars(text);
    let mut i: usize = 0;
    while i < v.len()
        invariant
            i <= v@.len(),
            v@ == text@,
            forall|j: int| 0 <= j < i ==> representable(#[trigger] text@[j]),
        decreases v@.len() - i,
    {
        if code_of(v[i]) >= 256 {
            proof {
                assert(!representable(text@[i as int]));
            }
            return true;
        }
        i += 1;
    }
    false
}

/// The byte a character is written as: its own where the encoding has it, and a
/// question mark otherwise.
pub open spec fn encoded_char(c: char) -> u8 {
    if representable(c) {
        c as u8
    } else {
        63
    }
}

/// The bytes a line is drawn with.
pub fn encoded(text: &str) -> (r: Vec<u8>)
    ensures
        r@ == text@.map_values(|c: char| encoded_char(c)),
{
    let v: Vec<char> = to_chars(text);
    let mut r: Vec<u8> = Vec::new();
    let mut i: usize = 0;
    while i < v.len()
        invariant
            i <= v@.len(),
            v@ == text@,
            r@.len() == i,
            forall|j: int| 0 <= j < i ==> #[trigger] r@[j] == encoded_char(text@[j]),
        decreases v@.len() - i,
    {
        let n: u32 = code_of(v[i]);
        r.push(
            if n < 256 {
                n as u8
            } else {
                63
            },
        );
        i += 1;
    }
    proof {
        assert(r@ =~= text@.map_values(|c: char| encoded_char(c)));
    }
    r
}

/// What the encoding has is written as itself, and what it has not as a
/// question mark.
pub proof fn law_what_can_be_written_is(c: char)
    ensures
        (c as int) < 256 ==> representable(c) && encoded_char(c) as int == c as int,
        (c as int) >= 256 ==> !representable(c) && encoded_char(c) == 63,
{
}

proof fn lemma_full(rows: Seq<Seq<char>>, first: int, later: int, i: int)
    requires
        first >= 1,
        later >= 1,
        0 <= i < paged(rows, first, later).len() - 1,
    ensures
        paged(rows, first, later)[i].len() == if i == 0 {
            first
        } else {
            later
        },
    decreases rows.len(),
{
    if rows.len() > first && i > 0 {
        let rest = paged(rows.skip(first), later, later);
        assert(paged(rows, first, later)[i] == rest[i - 1]);
        lemma_full(rows.skip(first), later, later, i - 1);
    }
}

/// The pages hold all the rows of the text, in order, and none is left before
/// it is full: the first has rows down to the margin, below the title, and each
/// later one forty.
pub proof fn law_pages_are_full(title: Seq<char>, text: Seq<char>, page: int)
    requires
        0 <= page < page_rows(title, text).len() - 1,
        wrapped(title, 17_000, 504_000).len() >= 1,
        wrapped(title, 17_000, 504_000).len() * 22_100 + 14_000 <= 660_000,
    ensures
        page_rows(title, text).flatten() == body_rows(text),
        ({
            let n = page_rows(title, text)[page].len();
            &&& page > 0 ==> n == 40
            &&& page == 0 ==> text_top(title, 0) - n * 15_500 >= 54_000 > text_top(title, 0) - (n
                + 1) * 15_500
        }),
{
    let (first, later) = (
        rows_in(PAGE_H - MARGIN - title_height(title)),
        rows_in(PAGE_H - 2 * MARGIN),
    );
    law_pages_hold_every_row(body_rows(text), first, later);
    lemma_full(body_rows(text), first, later, page);
}

proof fn lemma_fitting_is_most(word: Seq<char>, k: int, size: int, width: int)
    requires
        0 <= k <= word.len(),
    ensures
        ({
            let n = fitting(word, k, size, width);
            n < word.len() ==> line_width(word.take(n + 1), size) > width
        }),
    decreases word.len() - k,
{
    if k < word.len() && line_width(word.take(k + 1), size) <= width {
        lemma_fitting_is_most(word, k + 1, size, width);
    }
}

/// A word that is too long for a line is broken, and only where it has to be:
/// put together the pieces are the word, and none would have had room for the
/// first character of the next.
pub proof fn law_a_long_word_is_broken_late(word: Seq<char>, size: int, width: int, i: int)
    ensures
        filled(seq![word], size, width).flatten() == word,
        0 <= i < filled(seq![word], size, width).len() ==> filled(seq![word], size, width)[i].len()
            > 0,
        0 <= i < filled(seq![word], size, width).len() - 1 ==> line_width(
            filled(seq![word], size, width)[i].push(filled(seq![word], size, width)[i + 1][0]),
            size,
        ) > width,
{
    let none = seq![word].drop_last();
    assert(none =~= Seq::empty());
    assert(filled(none, size, width) =~= Seq::empty());
    assert(Seq::<Seq<char>>::empty() + broken(word, size, width) =~= broken(word, size, width));
    assert(filled(seq![word], size, width) == broken(word, size, width));
    lemma_broken_late(word, size, width, i);
}

proof fn lemma_broken_late(word: Seq<char>, size: int, width: int, i: int)
    ensures
        ({
            let b = broken(word, size, width);
            &&& b.flatten() == word
            &&& 0 <= i < b.len() ==> b[i].len() > 0
            &&& 0 <= i < b.len() - 1 ==> line_width(b[i].push(b[i + 1][0]), size) > width
        }),
    decreases word.len(),
{
    let b = broken(word, size, width);
    if word.len() == 0 {
        assert(b.flatten() =~= word);
    } else {
        let k = fitting(word, 1, size, width);
        lemma_fitting(word, 1, size, width);
        lemma_fitting_is_most(word, 1, size, width);
        let rest = word.skip(k);
        lemma_broken_late(rest, size, width, i - 1);
        lemma_broken_late(rest, size, width, 0);
        let r = broken(rest, size, width);
        assert(b.drop_first() =~= r);
        assert(b.first() == word.take(k));
        assert(word.take(k) + r.flatten() =~= word);
        if i > 0 {
            assert(0 <= i < b.len() ==> b[i] == r[i - 1]);
            assert(0 <= i < b.len() - 1 ==> b[i + 1] == r[i]);
        } else if i == 0 && b.len() > 1 {
            assert(b[1] == r[0]);
            assert(rest.len() > 0);
            assert(r[0] == rest.take(fitting(rest, 1, size, width)));
            lemma_fitting(rest, 1, size, width);
            assert(r[0][0] == word[k]);
            assert(word.take(k).push(word[k]) =~= word.take(k + 1));
        }
    }
}

} // verus!
