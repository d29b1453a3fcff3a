//! What is written as text is read back, and what is taken apart fits together again.

use crate::text::parse::{
    all_digits, digit_value, find, is_digit, is_white, lemma_find, number, pieces, signed32,
    trim_end, trim_start, trimmed, unsigned32, value, word_end, words_in,
};
use crate::text::{
    decimal, digit, hex_padded, hex_upper, in_base, lower, padded, units_of, upper,
    without_trailing_nulls, zeros,
};
use vstd::prelude::*;

verus! {

proof fn lemma_digit(d: nat)
    requires
        d < 16,
    ensures
        digit_value(digit(d as int)) == Some(d),
        d < 10 ==> '0' <= digit(d as int) <= '9',
        d >= 10 ==> 'a' <= digit(d as int) <= 'f',
{
}

/// A number that is written in a base is read back, and has no leading zeros.
pub proof fn law_numbers_are_read_back(n: nat, base: nat)
    requires
        2 <= base <= 16,
    ensures
        in_base(n, base).len() > 0,
        all_digits(in_base(n, base), base),
        value(in_base(n, base), base) == n,
        in_base(n, base)[0] == '0' ==> n == 0 && in_base(n, base).len() == 1,
        forall|i: int|
            0 <= i < in_base(n, base).len() ==> '0' <= #[trigger] in_base(n, base)[i] <= '9' || 'a'
                <= in_base(n, base)[i] <= 'f',
    decreases n,
{
    let s = in_base(n, base);
    if n < base {
        lemma_digit(n);
        assert(s.drop_last() =~= Seq::<char>::empty());
        assert(value(s.drop_last(), base) == 0);
        assert(0 * base == 0) by (nonlinear_arith);
    } else {
        assert(0 < n / base < n && (n / base) * base + n % base == n && n % base < base)
            by (nonlinear_arith)
            requires
                n >= base >= 2,
        ;
        law_numbers_are_read_back(n / base, base);
        lemma_digit(n % base);
        let t = in_base(n / base, base);
        assert(s.drop_last() =~= t);
        assert(s[0] == t[0]);
        assert forall|i: int| 0 <= i < s.len() implies is_digit(#[trigger] s[i], base) && ('0'
            <= s[i] <= '9' || 'a' <= s[i] <= 'f') by {
            if i < t.len() {
                assert(is_digit(t[i], base));
                assert(s[i] == t[i]);
            }
        }
    }
}

/// Decimal numbers are read back, with a sign or without, up to the limits.
pub proof fn law_decimals_are_read_back(n: nat, limit: nat)
    ensures
        number(decimal(n), 10, limit) == (if n <= limit {
            Some(n)
        } else {
            None
        }),
        n <= 0xFFFF_FFFF ==> unsigned32(decimal(n)) == Some(n as u32),
        n <= 0xFFFF_FFFF ==> unsigned32(seq!['+'] + decimal(n)) == Some(n as u32),
        n > 0xFFFF_FFFF ==> unsigned32(decimal(n)) is None,
        n <= 0x7FFF_FFFF ==> signed32(decimal(n)) == Some(n as i32),
        n <= 0x7FFF_FFFF ==> signed32(seq!['+'] + decimal(n)) == Some(n as i32),
        n <= 0x8000_0000 ==> signed32(seq!['-'] + decimal(n)) == Some((-n) as i32),
        n > 0x8000_0000 ==> signed32(decimal(n)) is None && signed32(seq!['-'] + decimal(n))
            is None,
{
    law_numbers_are_read_back(n, 10);
    let s = decimal(n);
    assert('0' <= s[0] <= '9' || 'a' <= s[0] <= 'f');
    let plus = seq!['+'] + s;
    let minus = seq!['-'] + s;
    assert(plus[0] == '+' && minus[0] == '-');
    assert(plus.skip(1) =~= s);
    assert(minus.skip(1) =~= s);
}

proof fn lemma_value_zeros(k: nat, s: Seq<char>, base: nat)
    ensures
        value(Seq::new(k, |i: int| '0') + s, base) == value(s, base),
    decreases k, s.len(),
{
    let z = Seq::new(k, |i: int| '0');
    let all = z + s;
    if s.len() > 0 {
        assert(all.drop_last() =~= z + s.drop_last());
        assert(all.last() == s.last());
        lemma_value_zeros(k, s.drop_last(), base);
    } else if k > 0 {
        let w = Seq::new((k - 1) as nat, |i: int| '0');
        assert(all.drop_last() =~= w + s);
        assert(all.last() == '0');
        lemma_value_zeros((k - 1) as nat, s, base);
        assert(value(s, base) == 0);
        assert(0 * base == 0) by (nonlinear_arith);
    } else {
        assert(all =~= s);
    }
}

/// Padding fills up with zeros to the width and no further, and keeps the number.
pub proof fn law_padding_keeps_the_number(n: nat, width: nat)
    ensures
        padded(n, width).len() == (if decimal(n).len() < width {
            width
        } else {
            decimal(n).len()
        }),
        value(padded(n, width), 10) == n,
        hex_padded(n, width).len() >= width,
        value(hex_padded(n, width), 16) == n,
        hex_upper(n, width).len() == hex_padded(n, width).len(),
        forall|i: int|
            0 <= i < hex_upper(n, width).len() ==> ('0' <= #[trigger] hex_upper(n, width)[i] <= '9'
                || 'A' <= hex_upper(n, width)[i] <= 'F') && digit_value(hex_upper(n, width)[i])
                == digit_value(hex_padded(n, width)[i]),
{
    law_numbers_are_read_back(n, 10);
    law_numbers_are_read_back(n, 16);
    let d = decimal(n);
    let h = in_base(n, 16);
    if d.len() < width {
        lemma_value_zeros((width - d.len()) as nat, d, 10);
    }
    if h.len() < width {
        lemma_value_zeros((width - h.len()) as nat, h, 16);
    }
    let p = hex_padded(n, width);
    assert forall|i: int| 0 <= i < p.len() implies '0' <= #[trigger] p[i] <= '9' || 'a' <= p[i]
        <= 'f' by {
        if h.len() < width && i >= width - h.len() {
            assert(p[i] == h[i - (width - h.len())]);
        }
    }
    assert forall|i: int| 0 <= i < hex_upper(n, width).len() implies ('0' <= #[trigger] hex_upper(
        n,
        width,
    )[i] <= '9' || 'A' <= hex_upper(n, width)[i] <= 'F') && digit_value(hex_upper(n, width)[i])
        == digit_value(hex_padded(n, width)[i]) by {
        assert(hex_upper(n, width)[i] == upper(p[i]));
    }
}

/// A character up to 0xFFFF is its own unit; one above is a pair, the ten high bits of its
/// distance to 0x10000 in the first and the ten low bits in the second.
pub proof fn law_units_of_characters(c: char)
    ensures
        c as int <= 0xFFFF ==> units_of(c).len() == 1 && units_of(c)[0] == c as int,
        c as int > 0xFFFF ==> units_of(c).len() == 2 && 0xD800 <= units_of(c)[0] < 0xDC00
            && 0xDC00 <= units_of(c)[1] < 0xE000 && c as int == 0x10000 + (units_of(c)[0] - 0xD800)
            * 1024 + (units_of(c)[1] - 0xDC00),
{
    crate::text::lemma_char(c);
}

/// What is cut off the end are nulls, and all of them.
pub proof fn law_trailing_nulls(s: Seq<char>)
    ensures
        ({
            let t = without_trailing_nulls(s);
            &&& t.len() <= s.len()
            &&& t == s.take(t.len() as int)
            &&& forall|i: int| t.len() <= i < s.len() ==> s[i] as u32 == 0
            &&& t.len() > 0 ==> t.last() as u32 != 0
        }),
    decreases s.len(),
{
    if s.len() > 0 && s.last() as u32 == 0 {
        law_trailing_nulls(s.drop_last());
        let t = without_trailing_nulls(s);
        assert(t =~= s.take(t.len() as int));
        assert forall|i: int| t.len() <= i < s.len() implies s[i] as u32 == 0 by {
            if i < s.len() - 1 {
                assert(s.drop_last()[i] == s[i]);
            }
        }
    } else {
        assert(s =~= s.take(s.len() as int));
    }
}

/// Whether a text is all white space.
pub open spec fn all_white(s: Seq<char>) -> bool {
    forall|i: int| 0 <= i < s.len() ==> is_white(#[trigger] s[i])
}

proof fn lemma_trim_start_parts(s: Seq<char>)
    ensures
        ({
            let t = trim_start(s);
            let n = s.len() - t.len();
            &&& 0 <= n
            &&& t == s.skip(n)
            &&& all_white(s.take(n))
            &&& t.len() > 0 ==> !is_white(t[0])
        }),
    decreases s.len(),
{
    if s.len() > 0 && is_white(s[0]) {
        lemma_trim_start_parts(s.skip(1));
        let t = trim_start(s);
        let n = s.len() - t.len();
        assert(t =~= s.skip(n));
        assert forall|i: int| 0 <= i < n implies is_white(#[trigger] s.take(n)[i]) by {
            if i > 0 {
                assert(s.skip(1).take(n - 1)[i - 1] == s[i]);
            }
        }
    } else {
        assert(s =~= s.skip(0));
    }
}

proof fn lemma_trim_end_parts(s: Seq<char>)
    ensures
        ({
            let t = trim_end(s);
            let n = t.len() as int;
            &&& n <= s.len()
            &&& t == s.take(n)
            &&& all_white(s.skip(n))
            &&& n > 0 ==> !is_white(t.last())
        }),
    decreases s.len(),
{
    if s.len() > 0 && is_white(s.last()) {
        let f = s.drop_last();
        lemma_trim_end_parts(f);
        let n = trim_end(s).len() as int;
        assert(trim_end(s) =~= s.take(n));
        assert forall|i: int| 0 <= i < s.skip(n).len() implies is_white(
            #[trigger] s.skip(n)[i],
        ) by {
            if n + i < s.len() - 1 {
                assert(f.skip(n)[i] == s[n + i]);
            }
        }
    } else {
        assert(s =~= s.take(s.len() as int));
    }
}

/// Trimming takes white space off both ends, all of it and nothing else.
pub proof fn law_trimming_takes_white_space_only(s: Seq<char>)
    ensures
        exists|a: int|
            #![trigger s.take(a)]
            0 <= a && a + trimmed(s).len() <= s.len() && trimmed(s) == s.subrange(
                a,
                a + trimmed(s).len(),
            ) && all_white(s.take(a)) && all_white(s.skip(a + trimmed(s).len())),
        trimmed(s).len() > 0 ==> !is_white(trimmed(s)[0]) && !is_white(trimmed(s).last()),
{
    lemma_trim_start_parts(s);
    let t = trim_start(s);
    lemma_trim_end_parts(t);
    let a = s.len() - t.len();
    let n = trimmed(s).len() as int;
    assert(s.take(a).len() == a);
    assert(trimmed(s) =~= s.subrange(a, a + n));
    assert(s.skip(a + n) =~= t.skip(n));
    if n > 0 {
        assert(trimmed(s)[0] == t[0]);
    }
}

/// Texts with a character between them.
pub open spec fn glued(p: Seq<Seq<char>>, c: char) -> Seq<char>
    decreases p.len(),
{
    if p.len() == 0 {
        Seq::empty()
    } else if p.len() == 1 {
        p[0]
    } else {
        p[0] + seq![c] + glued(p.skip(1), c)
    }
}

/// Pieces do not hold the character between them, and glued together again they are the
/// text.
pub proof fn law_pieces_are_glued_together(s: Seq<char>, c: char)
    ensures
        pieces(s, c).len() >= 1,
        glued(pieces(s, c), c) == s,
        forall|k: int, i: int|
            0 <= k < pieces(s, c).len() && 0 <= i < pieces(s, c)[k].len()
                ==> #[trigger] pieces(s, c)[k][i] != c,
    decreases s.len(),
{
    lemma_find(s, c, 0);
    match find(s, c, 0) {
        None => {},
        Some(i) => {
            let rest = s.skip(i + 1);
            law_pieces_are_glued_together(rest, c);
            let p = pieces(s, c);
            assert(p.skip(1) =~= pieces(rest, c));
            assert(glued(p, c) =~= s);
            assert forall|k: int, j: int| 0 <= k < p.len() && 0 <= j < p[k].len() implies
                #[trigger] p[k][j] != c by {
                if k > 0 {
                    assert(p[k] == pieces(rest, c)[k - 1]);
                }
            }
        },
    }
}

proof fn lemma_word_ends(w: Seq<char>, rest: Seq<char>, i: int)
    requires
        0 <= i <= w.len(),
        forall|k: int| 0 <= k < w.len() ==> !is_white(#[trigger] w[k]),
        rest.len() > 0 ==> is_white(rest[0]),
    ensures
        word_end(w + rest, i) == w.len(),
    decreases w.len() - i,
{
    let s = w + rest;
    if i < w.len() {
        assert(s[i] == w[i]);
        lemma_word_ends(w, rest, i + 1);
    } else if rest.len() > 0 {
        assert(s[i] == rest[0]);
    }
}

/// Words with white space between them are read back, whatever white space it is.
pub proof fn law_words_are_read_back(w: Seq<Seq<char>>, white: char)
    requires
        is_white(white),
        forall|k: int| 0 <= k < w.len() ==> (#[trigger] w[k]).len() > 0,
        forall|k: int, i: int|
            0 <= k < w.len() && 0 <= i < w[k].len() ==> !is_white(#[trigger] w[k][i]),
    ensures
        words_in(glued(w, white)) == w,
    decreases w.len(),
{
    let s = glued(w, white);
    if w.len() == 0 {
        assert(words_in(s) =~= w);
    } else {
        let first = w[0];
        let rest = if w.len() == 1 {
            Seq::empty()
        } else {
            seq![white] + glued(w.skip(1), white)
        };
        assert(s =~= first + rest);
        assert(s[0] == first[0]);
        lemma_word_ends(first, rest, 0);
        let n = first.len() as int;
        assert(s.take(n) =~= first);
        assert(s.skip(n) =~= rest);
        if w.len() > 1 {
            let more = w.skip(1);
            assert forall|k: int| 0 <= k < more.len() implies (#[trigger] more[k]).len() > 0 by {
                assert(more[k] == w[k + 1]);
            }
            assert forall|k: int, i: int| 0 <= k < more.len() && 0 <= i < more[k].len() implies
                !is_white(#[trigger] more[k][i]) by {
                assert(more[k] == w[k + 1]);
                assert(w[k + 1][i] == more[k][i]);
            }
            law_words_are_read_back(more, white);
            assert(rest[0] == white);
            assert(rest.skip(1) =~= glued(more, white));
            assert(words_in(rest) == words_in(rest.skip(1)));
        }
        assert(words_in(s) =~= seq![first] + words_in(rest));
        assert(seq![first] + w.skip(1) =~= w);
        if w.len() == 1 {
            assert(words_in(rest) =~= Seq::<Seq<char>>::empty());
            assert(w.skip(1) =~= Seq::<Seq<char>>::empty());
        }
    }
}

/// The cases of ASCII letters are 32 apart and undo each other; nothing else has a case.
pub proof fn law_letter_cases(c: char)
    ensures
        'a' <= c <= 'z' ==> upper(c) as int == c as int - 32 && lower(upper(c)) == c,
        'A' <= c <= 'Z' ==> lower(c) as int == c as int + 32 && upper(lower(c)) == c,
        !('a' <= c <= 'z') ==> upper(c) == c,
        !('A' <= c <= 'Z') ==> lower(c) == c,
{
}

proof fn lemma_find_in_glued(a: Seq<char>, rest: Seq<char>, c: char, i: int)
    requires
        0 <= i <= a.len(),
        forall|k: int| 0 <= k < a.len() ==> #[trigger] a[k] != c,
        rest.len() > 0 ==> rest[0] == c,
    ensures
        find(a + rest, c, i) == (if rest.len() > 0 {
            Some(a.len() as int)
        } else {
            None
        }),
    decreases a.len() - i,
{
    if i < a.len() {
        assert((a + rest)[i] == a[i]);
        lemma_find_in_glued(a, rest, c, i + 1);
    } else if rest.len() > 0 {
        assert((a + rest)[i] == rest[0]);
    }
}

/// Texts with a character between them that none of them holds are taken apart again.
pub proof fn law_glued_texts_are_taken_apart(p: Seq<Seq<char>>, c: char)
    requires
        p.len() > 0,
        forall|k: int, i: int|
            0 <= k < p.len() && 0 <= i < p[k].len() ==> #[trigger] p[k][i] != c,
    ensures
        pieces(glued(p, c), c) == p,
    decreases p.len(),
{
    let s = glued(p, c);
    let first = p[0];
    let rest = if p.len() == 1 {
        Seq::empty()
    } else {
        seq![c] + glued(p.skip(1), c)
    };
    assert(s =~= first + rest);
    assert forall|k: int| 0 <= k < first.len() implies #[trigger] first[k] != c by {
        assert(p[0][k] != c);
    }
    lemma_find_in_glued(first, rest, c, 0);
    if p.len() > 1 {
        let more = p.skip(1);
        assert forall|k: int, i: int| 0 <= k < more.len() && 0 <= i < more[k].len() implies
            #[trigger] more[k][i] != c by {
            assert(more[k] == p[k + 1]);
            assert(p[k + 1][i] != c);
        }
        law_glued_texts_are_taken_apart(more, c);
        assert(s.take(first.len() as int) =~= first);
        assert(s.skip(first.len() as int + 1) =~= glued(more, c));
        assert(seq![first] + more =~= p);
    } else {
        assert(pieces(s, c) =~= p);
    }
}

/// White space is the tab, the line ends and the space of ASCII, the next-line and the
/// no-break space, and the spaces and separators of Unicode above them.
pub proof fn law_white_space(c: char)
    ensures
        (c as int) < 0x80 ==> (is_white(c) <==> c as int == 32 || 9 <= c as int <= 13),
        0x80 <= c as int && (c as int) < 0x1000 ==> (is_white(c) <==> c as int == 0x85 || c as int
            == 0xA0),
        0x1000 <= c as int ==> (is_white(c) <==> c as int == 0x1680 || 0x2000 <= c as int <= 0x200A
            || c as int == 0x2028 || c as int == 0x2029 || c as int == 0x202F || c as int == 0x205F
            || c as int == 0x3000),
{
}

} // verus!
