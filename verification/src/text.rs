//! Text as the wire and the log files carry it: UTF-16, decimal and hexadecimal
//! numbers, and the ASCII case rules.

pub mod laws;
pub mod parse;

use vstd::prelude::*;

verus! {

/// `String::push` appends the character to the end of the string.
pub assume_specification[ String::push ](s: &mut String, c: char)
    ensures
        final(s)@ == old(s)@.push(c),
;

/// Whether `x` is a Unicode scalar value (a code point that is no surrogate).
pub open spec fn is_scalar(x: int) -> bool {
    0 <= x <= 0xD7FF || 0xE000 <= x <= 0x10FFFF
}

/// Every character is a Unicode scalar value.
pub proof fn lemma_char(c: char)
    ensures
        is_scalar(c as int),
        c as u32 as int == c as int,
{
}

/// Calls `char::from_u32`: the character with that code point, if the number is
/// a Unicode scalar value.
#[verifier::external_body]
fn char_of(x: u32) -> (r: Option<char>)
    ensures
        match r {
            Some(c) => is_scalar(x as int) && c == x as char,
            None => !is_scalar(x as int),
        },
{
    char::from_u32(x)
}

/// The characters of a string.
pub fn chars_of(s: &str) -> (r: Vec<char>)
    ensures
        r@ == s@,
{
    let mut v: Vec<char> = Vec::new();
    for c in it: s.chars()
        invariant
            v@ == it.seq().take(it.index() as int),
            it.seq() == s@,
    {
        v.push(c);
    }
    v
}

/// The texts that each of several strings holds.
pub open spec fn strings_of(v: Seq<String>) -> Seq<Seq<char>> {
    Seq::new(v.len(), |i: int| v[i]@)
}

/// The string of the given characters.
pub fn string_of(chars: &[char]) -> (r: String)
    ensures
        r@ == chars@,
{
    let mut s = String::new();
    let mut i: usize = 0;
    while i < chars.len()
        invariant
            i <= chars@.len(),
            s@ == chars@.take(i as int),
        decreases chars@.len() - i,
    {
        s.push(chars[i]);
        i = i + 1;
        assert(s@ =~= chars@.take(i as int));
    }
    assert(chars@.take(i as int) =~= chars@);
    s
}

pub open spec fn is_high(u: u16) -> bool {
    0xD800 <= u < 0xDC00
}

pub open spec fn is_low(u: u16) -> bool {
    0xDC00 <= u < 0xE000
}

/// The UTF-16 units of one character: one, or a surrogate pair.
pub open spec fn units_of(c: char) -> Seq<u16> {
    let x = c as u32;
    if x <= 0xFFFF {
        seq![x as u16]
    } else {
        seq![(0xD800 + (x - 0x10000) / 0x400) as u16, (0xDC00 + (x - 0x10000) % 0x400) as u16]
    }
}

/// The UTF-16 encoding of a text.
pub open spec fn utf16(s: Seq<char>) -> Seq<u16>
    decreases s.len(),
{
    if s.len() == 0 {
        Seq::empty()
    } else {
        utf16(s.drop_last()) + units_of(s.last())
    }
}

/// The text of UTF-16 units; each unit that belongs to no character becomes the
/// replacement character.
pub open spec fn utf16_lossy(u: Seq<u16>) -> Seq<char>
    decreases u.len(),
{
    if u.len() == 0 {
        Seq::empty()
    } else if u.len() >= 2 && is_high(u[0]) && is_low(u[1]) {
        seq![(0x10000 + (u[0] - 0xD800) * 0x400 + (u[1] - 0xDC00)) as char] + utf16_lossy(u.skip(2))
    } else if is_high(u[0]) || is_low(u[0]) {
        seq!['\u{FFFD}'] + utf16_lossy(u.skip(1))
    } else {
        seq![u[0] as char] + utf16_lossy(u.skip(1))
    }
}

/// The UTF-16 units of a text.
pub fn encode_utf16(s: &str) -> (r: Vec<u16>)
    ensures
        r@ == utf16(s@),
{
    let chars: Vec<char> = chars_of(s);
    let mut out: Vec<u16> = Vec::new();
    let mut i: usize = 0;
    while i < chars.len()
        invariant
            i <= chars@.len(),
            chars@ == s@,
            out@ == utf16(s@.take(i as int)),
        decreases chars@.len() - i,
    {
        let c: u32 = chars[i] as u32;
        assert(s@.take(i + 1).drop_last() =~= s@.take(i as int));
        assert(s@.take(i + 1).last() == s@[i as int]);
        if c <= 0xFFFF {
            out.push(c as u16);
        } else {
            out.push((0xD800 + (c - 0x10000) / 0x400) as u16);
            out.push((0xDC00 + (c - 0x10000) % 0x400) as u16);
        }
        i = i + 1;
        assert(out@ =~= utf16(s@.take(i as int)));
    }
    assert(s@.take(i as int) =~= s@);
    out
}

/// The text of UTF-16 units, unpaired surrogates replaced.
pub fn decode_utf16_lossy(u: &[u16]) -> (r: String)
    ensures
        r@ == utf16_lossy(u@),
{
    let mut s = String::new();
    let mut i: usize = 0;
    assert(u@.skip(0) =~= u@);
    assert(s@ + utf16_lossy(u@) =~= utf16_lossy(u@));
    while i < u.len()
        invariant
            i <= u@.len(),
            utf16_lossy(u@) == s@ + utf16_lossy(u@.skip(i as int)),
        decreases u@.len() - i,
    {
        let ghost rest = u@.skip(i as int);
        let ghost before = s@;
        let a: u16 = u[i];
        let pair: bool = a >= 0xD800 && a < 0xDC00 && u.len() - i >= 2 && u[i + 1] >= 0xDC00
            && u[i + 1] < 0xE000;
        if pair {
            let x: u32 = 0x10000 + (a as u32 - 0xD800) * 0x400 + (u[i + 1] as u32 - 0xDC00);
            match char_of(x) {
                Some(c) => s.push(c),
                None => {},
            }
            assert(rest.skip(2) =~= u@.skip(i + 2));
            assert(utf16_lossy(rest) =~= seq![s@.last()] + utf16_lossy(u@.skip(i + 2)));
            i = i + 2;
        } else {
            match char_of(a as u32) {
                Some(c) => s.push(c),
                None => s.push('\u{FFFD}'),
            }
            assert(rest.skip(1) =~= u@.skip(i + 1));
            assert(utf16_lossy(rest) =~= seq![s@.last()] + utf16_lossy(u@.skip(i + 1)));
            i = i + 1;
        }
        assert(rest[0] == a);
        assert(pair ==> rest[1] == u@[i - 1]);
        assert(utf16_lossy(rest) =~= seq![s@.last()] + utf16_lossy(u@.skip(i as int)));
        assert(s@ == before.push(s@.last()));
        assert(before + utf16_lossy(rest) =~= s@ + utf16_lossy(u@.skip(i as int)));
    }
    assert(u@.skip(i as int) =~= Seq::<u16>::empty());
    assert(s@ + utf16_lossy(u@.skip(i as int)) =~= s@);
    s
}

proof fn lemma_lossy_prefix(c: char, u: Seq<u16>)
    ensures
        utf16_lossy(units_of(c) + u) == seq![c] + utf16_lossy(u),
{
    let all = units_of(c) + u;
    lemma_char(c);
    if c as int <= 0xFFFF {
        assert(all.skip(1) =~= u);
        assert(all[0] == c as u16);
    } else {
        assert(all.skip(2) =~= u);
    }
}

/// The units of a text are those of its first character, then those of the rest.
pub proof fn lemma_utf16_front(s: Seq<char>)
    requires
        s.len() > 0,
    ensures
        utf16(s) == units_of(s[0]) + utf16(s.skip(1)),
    decreases s.len(),
{
    if s.len() == 1 {
        assert(s.drop_last() =~= Seq::<char>::empty());
        assert(s.skip(1) =~= Seq::<char>::empty());
        assert(utf16(s) =~= units_of(s[0]) + utf16(s.skip(1)));
    } else {
        lemma_utf16_front(s.drop_last());
        assert(s.drop_last().skip(1) =~= s.skip(1).drop_last());
        assert(s.skip(1).last() == s.last());
        assert(utf16(s) =~= units_of(s[0]) + utf16(s.skip(1)));
    }
}

/// A text survives the way to UTF-16 and back.
pub proof fn law_utf16_round_trip(s: Seq<char>)
    ensures
        utf16_lossy(utf16(s)) == s,
    decreases s.len(),
{
    if s.len() > 0 {
        lemma_utf16_front(s);
        lemma_lossy_prefix(s[0], utf16(s.skip(1)));
        law_utf16_round_trip(s.skip(1));
        assert(seq![s[0]] + s.skip(1) =~= s);
    }
}

/// No character but the null character has a null unit.
pub proof fn lemma_utf16_no_null(s: Seq<char>)
    requires
        forall|i: int| 0 <= i < s.len() ==> s[i] as u32 != 0,
    ensures
        forall|i: int| 0 <= i < utf16(s).len() ==> utf16(s)[i] != 0,
    decreases s.len(),
{
    if s.len() > 0 {
        lemma_utf16_no_null(s.drop_last());
        lemma_char(s.last());
        assert(s.last() as u32 != 0);
        assert forall|i: int| 0 <= i < utf16(s).len() implies utf16(s)[i] != 0 by {
            let n = utf16(s.drop_last()).len();
            if i >= n {
                assert(utf16(s)[i] == units_of(s.last())[i - n]);
            } else {
                assert(utf16(s)[i] == utf16(s.drop_last())[i]);
            }
        }
    }
}

/// A text without the null characters at its end.
pub open spec fn without_trailing_nulls(s: Seq<char>) -> Seq<char>
    decreases s.len(),
{
    if s.len() > 0 && s.last() as u32 == 0 {
        without_trailing_nulls(s.drop_last())
    } else {
        s
    }
}

/// A text without the null characters at its end.
pub fn trim_trailing_nulls(s: &str) -> (r: String)
    ensures
        r@ == without_trailing_nulls(s@),
{
    let mut chars: Vec<char> = chars_of(s);
    let mut n: usize = chars.len();
    assert(s@.take(n as int) =~= s@);
    while n > 0 && chars[n - 1] as u32 == 0
        invariant
            n <= chars@.len(),
            chars@ == s@,
            without_trailing_nulls(s@) == without_trailing_nulls(s@.take(n as int)),
        decreases n,
    {
        assert(s@.take(n as int).drop_last() =~= s@.take(n - 1));
        assert(s@.take(n as int).last() == s@[n - 1]);
        n = n - 1;
    }
    proof {
        if n > 0 {
            assert(s@.take(n as int).last() == s@[n - 1]);
        }
    }
    chars.truncate(n);
    string_of(chars.as_slice())
}

/// The digit characters.
pub open spec fn digit(d: int) -> char {
    (if d < 10 {
        '0' as int + d
    } else {
        'a' as int + d - 10
    }) as char
}

/// A number in a base of at most 16, without leading zeros.
pub open spec fn in_base(n: nat, base: nat) -> Seq<char>
    decreases n,
{
    if base < 2 {
        Seq::empty()
    } else if n < base {
        seq![digit(n as int)]
    } else {
        proof {
            assert(n / base < n) by (nonlinear_arith)
                requires
                    n >= base >= 2,
            ;
        }
        in_base(n / base, base).push(digit((n % base) as int))
    }
}

/// A number in decimal.
pub open spec fn decimal(n: nat) -> Seq<char> {
    in_base(n, 10)
}

/// A number in decimal with at least `width` digits, zeros in front.
pub open spec fn padded(n: nat, width: nat) -> Seq<char> {
    zeros(width, decimal(n))
}

/// A number in lower-case hexadecimal with at least `width` digits.
pub open spec fn hex_padded(n: nat, width: nat) -> Seq<char> {
    zeros(width, in_base(n, 16))
}

/// A number in upper-case hexadecimal with at least `width` digits.
pub open spec fn hex_upper(n: nat, width: nat) -> Seq<char> {
    hex_padded(n, width).map_values(|c: char| upper(c))
}

/// The upper-case form of an ASCII letter; every other character is kept.
pub open spec fn upper(c: char) -> char {
    if 'a' <= c <= 'z' {
        (c as int - 32) as char
    } else {
        c
    }
}

/// `s` with zeros in front up to `width` characters.
pub open spec fn zeros(width: nat, s: Seq<char>) -> Seq<char> {
    if s.len() >= width {
        s
    } else {
        Seq::new((width - s.len()) as nat, |i: int| '0') + s
    }
}

fn digit_char(d: u8) -> (c: char)
    requires
        d < 16,
    ensures
        c == digit(d as int),
{
    if d < 10 {
        (48 + d) as char
    } else {
        (87 + d) as char
    }
}

/// The digits of `n` in `base`.
fn digits_of(n: u64, base: u8) -> (r: Vec<char>)
    requires
        2 <= base <= 16,
    ensures
        r@ == in_base(n as nat, base as nat),
    decreases n,
{
    if n < base as u64 {
        let mut v: Vec<char> = Vec::new();
        v.push(digit_char(n as u8));
        assert(v@ =~= in_base(n as nat, base as nat));
        v
    } else {
        assert((n / (base as u64)) < n) by (nonlinear_arith)
            requires
                n >= base >= 2,
        ;
        let mut v: Vec<char> = digits_of(n / base as u64, base);
        v.push(digit_char((n % base as u64) as u8));
        v
    }
}

/// Append a text.
pub fn push_text(s: &mut String, t: &str)
    ensures
        final(s)@ == old(s)@ + t@,
{
    s.append(t);
}

fn push_chars(s: &mut String, v: &Vec<char>)
    ensures
        final(s)@ == old(s)@ + v@,
{
    let mut i: usize = 0;
    assert(s@ =~= old(s)@ + v@.take(0));
    while i < v.len()
        invariant
            i <= v@.len(),
            s@ == old(s)@ + v@.take(i as int),
        decreases v@.len() - i,
    {
        s.push(v[i]);
        i = i + 1;
        assert(s@ =~= old(s)@ + v@.take(i as int));
    }
    assert(v@.take(i as int) =~= v@);
}

fn push_padded_digits(s: &mut String, v: &Vec<char>, width: usize)
    ensures
        final(s)@ == old(s)@ + zeros(width as nat, v@),
{
    let missing: usize = if v.len() >= width {
        0
    } else {
        width - v.len()
    };
    let ghost pad = Seq::new(missing as nat, |i: int| '0');
    let mut i: usize = 0;
    assert(s@ =~= old(s)@ + pad.take(0));
    while i < missing
        invariant
            i <= missing,
            pad == Seq::new(missing as nat, |i: int| '0'),
            s@ == old(s)@ + pad.take(i as int),
        decreases missing - i,
    {
        s.push('0');
        i = i + 1;
        assert(s@ =~= old(s)@ + pad.take(i as int));
    }
    push_chars(s, v);
    assert(s@ =~= old(s)@ + zeros(width as nat, v@));
}

/// Append a number in decimal.
pub fn push_decimal(s: &mut String, n: u64)
    ensures
        final(s)@ == old(s)@ + decimal(n as nat),
{
    let v: Vec<char> = digits_of(n, 10);
    push_chars(s, &v);
}

/// Append a number in decimal with at least `width` digits.
pub fn push_padded(s: &mut String, n: u64, width: usize)
    ensures
        final(s)@ == old(s)@ + padded(n as nat, width as nat),
{
    let v: Vec<char> = digits_of(n, 10);
    push_padded_digits(s, &v, width);
}

/// Append a number in lower-case hexadecimal with at least `width` digits.
pub fn push_hex(s: &mut String, n: u64, width: usize)
    ensures
        final(s)@ == old(s)@ + hex_padded(n as nat, width as nat),
{
    let v: Vec<char> = digits_of(n, 16);
    push_padded_digits(s, &v, width);
}

/// Append a number in upper-case hexadecimal with at least `width` digits.
pub fn push_hex_upper(s: &mut String, n: u64, width: usize)
    ensures
        final(s)@ == old(s)@ + hex_upper(n as nat, width as nat),
{
    let mut t = String::new();
    push_hex(&mut t, n, width);
    let chars: Vec<char> = chars_of(t.as_str());
    let ghost want = hex_upper(n as nat, width as nat);
    assert(chars@ =~= hex_padded(n as nat, width as nat));
    let mut i: usize = 0;
    assert(s@ =~= old(s)@ + want.take(0));
    while i < chars.len()
        invariant
            i <= chars@.len(),
            chars@ == hex_padded(n as nat, width as nat),
            want == hex_upper(n as nat, width as nat),
            s@ == old(s)@ + want.take(i as int),
        decreases chars@.len() - i,
    {
        s.push(upper_char(chars[i]));
        i = i + 1;
        assert(s@ =~= old(s)@ + want.take(i as int));
    }
    assert(want.take(i as int) =~= want);
}

pub fn upper_char(c: char) -> (r: char)
    ensures
        r == upper(c),
{
    if c >= 'a' && c <= 'z' {
        (c as u8 - 32) as char
    } else {
        c
    }
}

/// The lower-case form of an ASCII letter; every other character is kept.
pub open spec fn lower(c: char) -> char {
    if 'A' <= c <= 'Z' {
        (c as int + 32) as char
    } else {
        c
    }
}

/// Whether two texts are the same up to the case of ASCII letters.
pub open spec fn same_ignoring_case(a: Seq<char>, b: Seq<char>) -> bool {
    a.len() == b.len() && forall|i: int| 0 <= i < a.len() ==> lower(a[i]) == lower(b[i])
}

pub fn lower_char(c: char) -> (r: char)
    ensures
        r == lower(c),
{
    if c >= 'A' && c <= 'Z' {
        (c as u8 + 32) as char
    } else {
        c
    }
}

/// Whether two texts are the same up to the case of ASCII letters.
pub fn eq_ignoring_case(a: &str, b: &str) -> (r: bool)
    ensures
        r == same_ignoring_case(a@, b@),
{
    let x: Vec<char> = chars_of(a);
    let y: Vec<char> = chars_of(b);
    if x.len() != y.len() {
        return false;
    }
    let mut i: usize = 0;
    while i < x.len()
        invariant
            x@ == a@,
            y@ == b@,
            x@.len() == y@.len(),
            i <= x@.len(),
            forall|k: int| 0 <= k < i ==> lower(a@[k]) == lower(b@[k]),
        decreases x@.len() - i,
    {
        if lower_char(x[i]) != lower_char(y[i]) {
            return false;
        }
        i = i + 1;
    }
    true
}

/// Whether `s` begins with `p`.
pub fn starts_with(s: &str, p: &str) -> (r: bool)
    ensures
        r == p@.is_prefix_of(s@),
{
    let x: Vec<char> = chars_of(s);
    let y: Vec<char> = chars_of(p);
    if x.len() < y.len() {
        return false;
    }
    let mut i: usize = 0;
    while i < y.len()
        invariant
            x@ == s@,
            y@ == p@,
            y@.len() <= x@.len(),
            i <= y@.len(),
            forall|k: int| 0 <= k < i ==> s@[k] == p@[k],
        decreases y@.len() - i,
    {
        if x[i] != y[i] {
            assert(s@.subrange(0, p@.len() as int)[i as int] == s@[i as int]);
            return false;
        }
        i = i + 1;
    }
    assert(p@ =~= s@.subrange(0, p@.len() as int));
    true
}

/// Whether two texts are the same.
pub fn same_text(a: &str, b: &str) -> (r: bool)
    ensures
        r == (a@ == b@),
{
    let x: Vec<char> = chars_of(a);
    let y: Vec<char> = chars_of(b);
    if x.len() != y.len() {
        return false;
    }
    let mut i: usize = 0;
    while i < x.len()
        invariant
            x@ == a@,
            y@ == b@,
            x@.len() == y@.len(),
            i <= x@.len(),
            forall|k: int| 0 <= k < i ==> a@[k] == b@[k],
        decreases x@.len() - i,
    {
        if x[i] != y[i] {
            return false;
        }
        i = i + 1;
    }
    assert(a@ =~= b@);
    true
}

} // verus!
