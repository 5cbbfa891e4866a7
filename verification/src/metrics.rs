//! How wide text is when it is set in Helvetica.

use vstd::prelude::*;

verus! {

/// The advance of one character, in thousandths of the font size.
pub open spec fn advance(c: char) -> int {
    match c {
        '\'' => 191,
        'i' | 'j' | 'l' => 222,
        '|' => 260,
        ' ' | '!' | ',' | '.' | '/' | ':' | ';' | 'I' | '[' | '\\' | ']' | 'f' | 't' => 278,
        '(' | ')' | '-' | '`' | 'r' => 333,
        '{' | '}' => 334,
        '"' => 355,
        '*' => 389,
        '^' => 469,
        'J' | 'c' | 'k' | 's' | 'v' | 'x' | 'y' | 'z' => 500,
        '+' | '<' | '=' | '>' | '~' => 584,
        'F' | 'T' | 'Z' => 611,
        '&' | 'A' | 'B' | 'E' | 'K' | 'P' | 'S' | 'V' | 'X' | 'Y' => 667,
        'C' | 'D' | 'H' | 'N' | 'R' | 'U' | 'w' => 722,
        'G' | 'O' | 'Q' => 778,
        'M' | 'm' => 833,
        '%' => 889,
        'W' => 944,
        '@' => 1015,
        _ => 556,
    }
}

/// The advance of one character, in thousandths of the font size.
pub fn advance_of(c: char) -> (r: u32)
    ensures
        r == advance(c),
        r <= 1015,
{
    match c {
        '\'' => 191,
        'i' | 'j' | 'l' => 222,
        '|' => 260,
        ' ' | '!' | ',' | '.' | '/' | ':' | ';' | 'I' | '[' | '\\' | ']' | 'f' | 't' => 278,
        '(' | ')' | '-' | '`' | 'r' => 333,
        '{' | '}' => 334,
        '"' => 355,
        '*' => 389,
        '^' => 469,
        'J' | 'c' | 'k' | 's' | 'v' | 'x' | 'y' | 'z' => 500,
        '+' | '<' | '=' | '>' | '~' => 584,
        'F' | 'T' | 'Z' => 611,
        '&' | 'A' | 'B' | 'E' | 'K' | 'P' | 'S' | 'V' | 'X' | 'Y' => 667,
        'C' | 'D' | 'H' | 'N' | 'R' | 'U' | 'w' => 722,
        'G' | 'O' | 'Q' => 778,
        'M' | 'm' => 833,
        '%' => 889,
        'W' => 944,
        '@' => 1015,
        _ => 556,
    }
}

/// The width of one character at this size, in the units of the size.
pub open spec fn char_width(c: char, size: int) -> int {
    advance(c) * size / 1000
}

/// The width of a line of text at this size.
pub open spec fn line_width(s: Seq<char>, size: int) -> int
    decreases s.len(),
{
    if s.len() == 0 {
        0
    } else {
        line_width(s.drop_last(), size) + char_width(s.last(), size)
    }
}

/// The width of one character at this size.
pub fn width_of_char(c: char, size: u32) -> (r: u64)
    ensures
        r == char_width(c, size as int),
        r <= 0x1_1000_0000,
{
    let a: u64 = advance_of(c) as u64;
    proof {
        assert(0 <= a * size <= 1015 * 0xffff_ffff) by (nonlinear_arith)
            requires
                0 <= a <= 1015,
                0 <= size <= 0xffff_ffff,
        ;
    }
    a * (size as u64) / 1000
}

/// The width of `v[from..to]` at this size.
pub fn width_of(v: &Vec<char>, from: usize, to: usize, size: u32) -> (r: u128)
    requires
        from <= to <= v@.len(),
    ensures
        r == line_width(v@.subrange(from as int, to as int), size as int),
        r <= (to - from) * 0x1_1000_0000,
{
    let mut r: u128 = 0;
    let mut i: usize = from;
    while i < to
        invariant
            from <= i <= to <= v@.len(),
            r == line_width(v@.subrange(from as int, i as int), size as int),
            r <= (i - from) * 0x1_1000_0000,
        decreases to - i,
    {
        proof {
            let cut = v@.subrange(from as int, i + 1);
            assert(cut.drop_last() =~= v@.subrange(from as int, i as int));
            assert(cut.last() == v@[i as int]);
        }
        r = r + width_of_char(v[i], size) as u128;
        i += 1;
    }
    r
}

/// A line is as wide as its parts together.
pub proof fn law_widths_add_up(a: Seq<char>, b: Seq<char>, size: int)
    ensures
        line_width(a + b, size) == line_width(a, size) + line_width(b, size),
    decreases b.len(),
{
    if b.len() > 0 {
        law_widths_add_up(a, b.drop_last(), size);
        assert((a + b).drop_last() =~= a + b.drop_last());
        assert((a + b).last() == b.last());
    } else {
        assert(a + b =~= a);
    }
}

/// A single character is as wide as its share of the size, to the unit; none is
/// narrower than an apostrophe or wider than an at sign, all digits are as wide
/// as one another, and nothing is as wide as it is high but the at sign.
pub proof fn law_characters_have_their_widths(c: char, size: int)
    requires
        size >= 0,
    ensures
        line_width(seq![c], size) * 1000 <= advance(c) * size < line_width(seq![c], size) * 1000
            + 1000,
        191 <= advance(c) <= 1015,
        advance(c) == 191 ==> c == '\'',
        advance(c) >= 1000 <==> c == '@',
        '0' <= c <= '9' ==> advance(c) == 556,
        c as u32 > 126 ==> advance(c) == 556,
        'a' <= c <= 'z' ==> advance(c) <= 833,
        'A' <= c <= 'Z' ==> advance(c) >= 278,
{
    assert(seq![c].drop_last() =~= Seq::empty());
    assert(line_width(Seq::<char>::empty(), size) == 0);
    assert(line_width(seq![c], size) == char_width(c, size));
}

/// Adding to a line never makes it narrower.
pub proof fn law_longer_is_no_narrower(a: Seq<char>, b: Seq<char>, size: int)
    requires
        size >= 0,
    ensures
        0 <= line_width(a, size) <= line_width(a + b, size),
    decreases a.len() + b.len(),
{
    if b.len() > 0 {
        law_longer_is_no_narrower(a, b.drop_last(), size);
        law_widths_add_up(a, b, size);
        law_widths_add_up(a, b.drop_last(), size);
        lemma_width_is_positive(b.last(), size);
    } else {
        assert(a + b =~= a);
        if a.len() > 0 {
            law_longer_is_no_narrower(a.drop_last(), Seq::empty(), size);
            lemma_width_is_positive(a.last(), size);
        }
    }
}

proof fn lemma_width_is_positive(c: char, size: int)
    requires
        size >= 0,
    ensures
        char_width(c, size) >= 0,
{
    let a = advance(c);
    assert(a * size >= 0) by (nonlinear_arith)
        requires
            a >= 0,
            size >= 0,
    ;
}

} // verus!
