//! Taking text apart: searching, splitting, trimming and reading numbers.

use crate::text::strings_of;
use vstd::prelude::*;
use vstd::slice::slice_subrange;

verus! {

/// The characters with the Unicode property White_Space.
pub open spec fn is_white(c: char) -> bool {
    let x = c as int;
    ||| 0x09 <= x <= 0x0D
    ||| x == 0x20
    ||| x == 0x85
    ||| x == 0xA0
    ||| x == 0x1680
    ||| 0x2000 <= x <= 0x200A
    ||| 0x2028 <= x <= 0x2029
    ||| x == 0x202F
    ||| x == 0x205F
    ||| x == 0x3000
}

pub fn is_white_space(c: char) -> (r: bool)
    ensures
        r == is_white(c),
{
    let x: u32 = c as u32;
    (x >= 0x09 && x <= 0x0D) || x == 0x20 || x == 0x85 || x == 0xA0 || x == 0x1680 || (x >= 0x2000
        && x <= 0x200A) || (x >= 0x2028 && x <= 0x2029) || x == 0x202F || x == 0x205F || x
        == 0x3000
}

/// `s` without white space at its start.
pub open spec fn trim_start(s: Seq<char>) -> Seq<char>
    decreases s.len(),
{
    if s.len() > 0 && is_white(s[0]) {
        trim_start(s.skip(1))
    } else {
        s
    }
}

/// `s` without white space at its end.
pub open spec fn trim_end(s: Seq<char>) -> Seq<char>
    decreases s.len(),
{
    if s.len() > 0 && is_white(s.last()) {
        trim_end(s.drop_last())
    } else {
        s
    }
}

/// `s` without white space at either end.
pub open spec fn trimmed(s: Seq<char>) -> Seq<char> {
    trim_end(trim_start(s))
}

proof fn lemma_trim_start(s: Seq<char>)
    ensures
        trim_start(s).len() > 0 ==> !is_white(trim_start(s)[0]),
    decreases s.len(),
{
    if s.len() > 0 && is_white(s[0]) {
        lemma_trim_start(s.skip(1));
    }
}

proof fn lemma_trim_end(s: Seq<char>)
    ensures
        trim_end(s).len() <= s.len(),
        trim_end(s) == s.take(trim_end(s).len() as int),
        trim_end(s).len() > 0 ==> !is_white(trim_end(s).last()),
    decreases s.len(),
{
    if s.len() > 0 && is_white(s.last()) {
        lemma_trim_end(s.drop_last());
        assert(trim_end(s) =~= s.take(trim_end(s).len() as int));
    } else {
        assert(s =~= s.take(s.len() as int));
    }
}

/// Trimming again changes nothing.
pub proof fn law_trimming_is_done_once(s: Seq<char>)
    ensures
        trimmed(trimmed(s)) == trimmed(s),
{
    let t = trim_start(s);
    let u = trim_end(t);
    lemma_trim_start(s);
    lemma_trim_end(t);
    if u.len() > 0 {
        assert(u[0] == t[0]);
    }
    assert(trim_start(u) == u);
}

/// Take the white space off both ends of a text.
pub fn trim(s: &[char]) -> (r: &[char])
    ensures
        r@ == trimmed(s@),
{
    assert(s.len() == s@.len());
    let mut i: usize = 0;
    assert(s@.skip(0) =~= s@);
    while i < s.len() && is_white_space(s[i])
        invariant
            i <= s@.len(),
            trim_start(s@) == trim_start(s@.skip(i as int)),
        decreases s@.len() - i,
    {
        i = i + 1;
        assert(s@.skip(i - 1).skip(1) =~= s@.skip(i as int));
    }
    let ghost from = s@.skip(i as int);
    assert(trim_start(s@) == from);
    let mut j: usize = s.len();
    assert(s@.subrange(i as int, j as int) =~= from);
    while j > i && is_white_space(s[j - 1])
        invariant
            i <= j <= s@.len(),
            trim_end(from) == trim_end(s@.subrange(i as int, j as int)),
        decreases j,
    {
        j = j - 1;
        assert(s@.subrange(i as int, j + 1).drop_last() =~= s@.subrange(i as int, j as int));
    }
    slice_subrange(s, i, j)
}

/// The first place of `c` in `s` from `i` on.
pub open spec fn find(s: Seq<char>, c: char, i: int) -> Option<int>
    decreases s.len() - i,
{
    if i < 0 || i >= s.len() {
        None
    } else if s[i] == c {
        Some(i)
    } else {
        find(s, c, i + 1)
    }
}

pub fn find_char(s: &[char], c: char) -> (r: Option<usize>)
    ensures
        match r {
            Some(i) => find(s@, c, 0) == Some(i as int) && i < s@.len(),
            None => find(s@, c, 0) is None,
        },
{
    let mut i: usize = 0;
    while i < s.len()
        invariant
            i <= s@.len(),
            find(s@, c, 0) == find(s@, c, i as int),
        decreases s@.len() - i,
    {
        if s[i] == c {
            return Some(i);
        }
        i = i + 1;
    }
    None
}

/// What stands before and behind the first `c`.
pub open spec fn split_at_first(s: Seq<char>, c: char) -> Option<(Seq<char>, Seq<char>)> {
    match find(s, c, 0) {
        Some(i) => Some((s.take(i), s.skip(i + 1))),
        None => None,
    }
}

pub fn split_once(s: &[char], c: char) -> (r: Option<(&[char], &[char])>)
    ensures
        match r {
            Some((a, b)) => split_at_first(s@, c) == Some((a@, b@)),
            None => split_at_first(s@, c) is None,
        },
{
    assert(s.len() == s@.len());
    match find_char(s, c) {
        Some(i) => {
            let a: &[char] = slice_subrange(s, 0, i);
            let b: &[char] = slice_subrange(s, i + 1, s.len());
            assert(a@ =~= s@.take(i as int));
            assert(b@ =~= s@.skip(i + 1));
            Some((a, b))
        },
        None => None,
    }
}

/// The pieces of `s` between the characters `c`; there is always at least one.
pub open spec fn pieces(s: Seq<char>, c: char) -> Seq<Seq<char>>
    decreases s.len(),
{
    match find(s, c, 0) {
        Some(i) => if 0 <= i < s.len() {
            seq![s.take(i)] + pieces(s.skip(i + 1), c)
        } else {
            seq![s]
        },
        None => seq![s],
    }
}

/// The characters that each vector holds.
pub open spec fn texts(v: Seq<Vec<char>>) -> Seq<Seq<char>> {
    Seq::new(v.len(), |i: int| v[i]@)
}

pub fn split(s: &[char], c: char) -> (r: Vec<Vec<char>>)
    ensures
        texts(r@) == pieces(s@, c),
{
    assert(s.len() == s@.len());
    let mut out: Vec<Vec<char>> = Vec::new();
    let mut start: usize = 0;
    assert(s@.skip(0) =~= s@);
    assert(texts(out@) + pieces(s@, c) =~= pieces(s@, c));
    loop
        invariant
            s.len() == s@.len(),
            start <= s@.len(),
            pieces(s@, c) == texts(out@) + pieces(s@.skip(start as int), c),
        decreases s@.len() - start,
    {
        let rest: &[char] = slice_subrange(s, start, s.len());
        assert(rest@ =~= s@.skip(start as int));
        let ghost before = out@;
        match split_once(rest, c) {
            Some((a, b)) => {
                let ghost i = find(rest@, c, 0).unwrap();
                proof {
                    lemma_find(rest@, c, 0);
                    assert(a@.len() == i);
                }
                out.push(vstd::slice::slice_to_vec(a));
                start = start + a.len() + 1;
                proof {
                    assert(rest@.skip(i + 1) =~= s@.skip(start as int));
                    assert(texts(out@) =~= texts(before).push(a@));
                    assert(texts(out@) + pieces(s@.skip(start as int), c) =~= texts(before)
                        + pieces(rest@, c));
                }
            },
            None => {
                out.push(vstd::slice::slice_to_vec(rest));
                assert(texts(out@) =~= texts(before) + pieces(rest@, c));
                return out;
            },
        }
    }
}

/// Where a character is found.
pub proof fn lemma_find(s: Seq<char>, c: char, i: int)
    requires
        0 <= i <= s.len(),
    ensures
        find(s, c, i) matches Some(k) ==> i <= k < s.len() && s[k] == c && forall|j: int|
            i <= j < k ==> s[j] != c,
        find(s, c, i) is None ==> forall|j: int| i <= j < s.len() ==> s[j] != c,
    decreases s.len() - i,
{
    if i < s.len() && s[i] != c {
        lemma_find(s, c, i + 1);
    }
}

/// `s` without one carriage return at its end.
pub open spec fn without_return(s: Seq<char>) -> Seq<char> {
    if s.len() > 0 && s.last() == '\r' {
        s.drop_last()
    } else {
        s
    }
}

/// The lines of a text: what ends in a newline, with or without a carriage return
/// before it, and what is left behind the last one, if anything.
pub open spec fn lines_in(s: Seq<char>) -> Seq<Seq<char>>
    decreases s.len(),
{
    match find(s, '\n', 0) {
        Some(i) => if 0 <= i < s.len() {
            seq![without_return(s.take(i))] + lines_in(s.skip(i + 1))
        } else {
            Seq::empty()
        },
        None => if s.len() == 0 {
            Seq::empty()
        } else {
            seq![s]
        },
    }
}

/// The lines of a text.
pub fn lines(s: &[char]) -> (r: Vec<Vec<char>>)
    ensures
        texts(r@) == lines_in(s@),
{
    assert(s.len() == s@.len());
    let mut out: Vec<Vec<char>> = Vec::new();
    let mut start: usize = 0;
    assert(s@.skip(0) =~= s@);
    assert(texts(out@) + lines_in(s@) =~= lines_in(s@));
    loop
        invariant
            s.len() == s@.len(),
            start <= s@.len(),
            lines_in(s@) == texts(out@) + lines_in(s@.skip(start as int)),
        decreases s@.len() - start,
    {
        let rest: &[char] = slice_subrange(s, start, s.len());
        assert(rest@ =~= s@.skip(start as int));
        let ghost before = out@;
        match find_char(rest, '\n') {
            Some(i) => {
                let mut n: usize = i;
                if i > 0 && rest[i - 1] == '\r' {
                    n = i - 1;
                }
                let line: &[char] = slice_subrange(rest, 0, n);
                assert(line@ =~= without_return(rest@.take(i as int)));
                out.push(vstd::slice::slice_to_vec(line));
                start = start + i + 1;
                proof {
                    assert(rest@.skip(i + 1) =~= s@.skip(start as int));
                    assert(texts(out@) =~= texts(before).push(line@));
                    assert(texts(out@) + lines_in(s@.skip(start as int)) =~= texts(before)
                        + lines_in(rest@));
                }
            },
            None => {
                if rest.len() > 0 {
                    out.push(vstd::slice::slice_to_vec(rest));
                }
                assert(texts(out@) =~= texts(before) + lines_in(rest@));
                return out;
            },
        }
    }
}

/// Where the word that goes on at `i` ends.
pub open spec fn word_end(s: Seq<char>, i: int) -> int
    decreases s.len() - i,
{
    if 0 <= i < s.len() && !is_white(s[i]) {
        word_end(s, i + 1)
    } else {
        i
    }
}

/// The words of a text: what white space parts.
pub open spec fn words_in(s: Seq<char>) -> Seq<Seq<char>>
    decreases s.len(),
{
    if s.len() == 0 {
        Seq::empty()
    } else if is_white(s[0]) {
        words_in(s.skip(1))
    } else {
        let n = word_end(s, 0);
        if 0 < n <= s.len() {
            seq![s.take(n)] + words_in(s.skip(n))
        } else {
            Seq::empty()
        }
    }
}

proof fn lemma_word_end(s: Seq<char>, i: int)
    requires
        0 <= i <= s.len(),
    ensures
        i <= word_end(s, i) <= s.len(),
        i < s.len() && !is_white(s[i]) ==> i < word_end(s, i),
    decreases s.len() - i,
{
    if i < s.len() && !is_white(s[i]) {
        lemma_word_end(s, i + 1);
    }
}

/// The words of a text.
pub fn words(s: &[char]) -> (r: Vec<Vec<char>>)
    ensures
        texts(r@) == words_in(s@),
{
    assert(s.len() == s@.len());
    let mut out: Vec<Vec<char>> = Vec::new();
    let mut i: usize = 0;
    assert(s@.skip(0) =~= s@);
    assert(texts(out@) + words_in(s@) =~= words_in(s@));
    while i < s.len()
        invariant
            s.len() == s@.len(),
            i <= s@.len(),
            words_in(s@) == texts(out@) + words_in(s@.skip(i as int)),
        decreases s@.len() - i,
    {
        let ghost rest = s@.skip(i as int);
        assert(rest[0] == s@[i as int]);
        if is_white_space(s[i]) {
            i = i + 1;
            assert(rest.skip(1) =~= s@.skip(i as int));
        } else {
            let ghost before = texts(out@);
            let start: usize = i;
            while i < s.len() && !is_white_space(s[i])
                invariant
                    s.len() == s@.len(),
                    start <= i <= s@.len(),
                    rest == s@.skip(start as int),
                    word_end(rest, 0) == word_end(rest, i - start),
                decreases s@.len() - i,
            {
                assert(rest[i - start] == s@[i as int]);
                i = i + 1;
            }
            proof {
                lemma_word_end(rest, 0);
                if i < s@.len() {
                    assert(rest[i - start] == s@[i as int]);
                }
                assert(word_end(rest, 0) == i - start);
            }
            let word: &[char] = slice_subrange(s, start, i);
            out.push(vstd::slice::slice_to_vec(word));
            proof {
                assert(word@ =~= rest.take(i - start));
                assert(rest.skip(i - start) =~= s@.skip(i as int));
                assert(texts(out@) =~= before.push(word@));
                assert(texts(out@) + words_in(s@.skip(i as int)) =~= before + words_in(rest));
            }
        }
    }
    assert(texts(out@) + words_in(s@.skip(i as int)) =~= texts(out@));
    out
}

/// Texts as lines, with a carriage return and a newline between them.
pub open spec fn joined_lines(l: Seq<Seq<char>>) -> Seq<char>
    decreases l.len(),
{
    if l.len() == 0 {
        Seq::empty()
    } else if l.len() == 1 {
        l[0]
    } else {
        l[0] + "\r\n"@ + joined_lines(l.skip(1))
    }
}

/// Texts as lines, with a carriage return and a newline between them.
pub fn join_lines(l: &[String]) -> (s: String)
    ensures
        s@ == joined_lines(strings_of(l@)),
{
    let ghost all = strings_of(l@);
    let mut s = String::new();
    let mut i: usize = 0;
    assert(all.skip(0) =~= all);
    assert(s@ + joined_lines(all) =~= joined_lines(all));
    while i < l.len()
        invariant
            i <= l@.len(),
            all == strings_of(l@),
            joined_lines(all) == s@ + joined_lines(all.skip(i as int)),
        decreases l@.len() - i,
    {
        let ghost before = s@;
        let ghost rest = all.skip(i as int);
        s.append(l[i].as_str());
        i = i + 1;
        proof {
            assert(rest[0] == all[i - 1]);
            assert(rest.skip(1) =~= all.skip(i as int));
        }
        if i < l.len() {
            s.append("\r\n");
            assert(s@ + joined_lines(all.skip(i as int)) =~= before + joined_lines(rest));
        } else {
            assert(s@ + joined_lines(all.skip(i as int)) =~= before + joined_lines(rest));
        }
    }
    assert(s@ + joined_lines(all.skip(i as int)) =~= s@);
    s
}

/// Whether a text stays on one line.
pub open spec fn one_line(s: Seq<char>) -> bool {
    forall|i: int| 0 <= i < s.len() ==> s[i] != '\n'
}

proof fn lemma_find_behind(a: Seq<char>, b: Seq<char>, c: char, i: int)
    requires
        0 <= i <= a.len(),
        b.len() > 0,
        b[0] == c,
        forall|k: int| 0 <= k < a.len() ==> a[k] != c,
    ensures
        find(a + b, c, i) == Some(a.len() as int),
    decreases a.len() - i,
{
    if i < a.len() {
        assert((a + b)[i] == a[i]);
        lemma_find_behind(a, b, c, i + 1);
    } else {
        assert((a + b)[i] == b[0]);
    }
}

proof fn lemma_find_nothing(a: Seq<char>, c: char, i: int)
    requires
        0 <= i <= a.len(),
        forall|k: int| 0 <= k < a.len() ==> a[k] != c,
    ensures
        find(a, c, i) is None,
    decreases a.len() - i,
{
    if i < a.len() {
        lemma_find_nothing(a, c, i + 1);
    }
}

/// Where a text that does not hold `c` is followed by `c`, it is split there.
pub proof fn lemma_split_behind(a: Seq<char>, c: char, b: Seq<char>)
    requires
        forall|k: int| 0 <= k < a.len() ==> a[k] != c,
    ensures
        split_at_first(a + seq![c] + b, c) == Some((a, b)),
{
    let rest = seq![c] + b;
    let all = a + seq![c] + b;
    assert(all =~= a + rest);
    lemma_find_behind(a, rest, c, 0);
    assert(all.take(a.len() as int) =~= a);
    assert(all.skip(a.len() as int + 1) =~= b);
}

/// Lines that are written are read back, if none holds a newline and the last is
/// not empty.
pub proof fn law_lines_are_read_back(l: Seq<Seq<char>>)
    requires
        forall|i: int| 0 <= i < l.len() ==> one_line(#[trigger] l[i]),
        l.len() > 0 ==> l.last().len() > 0,
    ensures
        lines_in(joined_lines(l)) == l,
    decreases l.len(),
{
    if l.len() == 1 {
        assert(one_line(l[0]));
        lemma_find_nothing(l[0], '\n', 0);
        assert(lines_in(l[0]) =~= l);
    } else if l.len() > 1 {
        reveal_strlit("\r\n");
        let rest = l.skip(1);
        assert forall|i: int| 0 <= i < rest.len() implies one_line(#[trigger] rest[i]) by {
            assert(one_line(l[i + 1]));
        }
        assert(rest.last() == l.last());
        law_lines_are_read_back(rest);
        let tail = joined_lines(rest);
        let s = joined_lines(l);
        let head = l[0].push('\r');
        let behind = seq!['\n'] + tail;
        assert(one_line(l[0]));
        assert(s =~= head + behind);
        lemma_find_behind(head, behind, '\n', 0);
        assert(s.take(head.len() as int) =~= head);
        assert(without_return(head) =~= l[0]);
        assert(s.skip(head.len() as int + 1) =~= tail);
        assert(seq![l[0]] + rest =~= l);
    }
}

/// Lines that are read hold no newline.
pub proof fn lemma_lines_are_lines(s: Seq<char>)
    ensures
        forall|i: int| 0 <= i < lines_in(s).len() ==> one_line(#[trigger] lines_in(s)[i]),
    decreases s.len(),
{
    lemma_find(s, '\n', 0);
    match find(s, '\n', 0) {
        Some(k) => {
            lemma_lines_are_lines(s.skip(k + 1));
            assert forall|i: int| 0 <= i < lines_in(s).len() implies one_line(
                #[trigger] lines_in(s)[i],
            ) by {
                if i > 0 {
                    assert(lines_in(s)[i] == lines_in(s.skip(k + 1))[i - 1]);
                }
            }
        },
        None => {},
    }
}

/// The value of a digit of any base up to 16, in either case.
pub open spec fn digit_value(c: char) -> Option<nat> {
    let x = c as int;
    if '0' <= c <= '9' {
        Some((x - '0' as int) as nat)
    } else if 'a' <= c <= 'f' {
        Some((x - 'a' as int + 10) as nat)
    } else if 'A' <= c <= 'F' {
        Some((x - 'A' as int + 10) as nat)
    } else {
        None
    }
}

/// The value of a digit of any base up to 16, in either case.
pub fn digit_of(c: char) -> (r: Option<u8>)
    ensures
        match r {
            Some(d) => digit_value(c) == Some(d as nat) && d < 16,
            None => digit_value(c) is None,
        },
{
    if c >= '0' && c <= '9' {
        Some(c as u8 - 48)
    } else if c >= 'a' && c <= 'f' {
        Some(c as u8 - 87)
    } else if c >= 'A' && c <= 'F' {
        Some(c as u8 - 55)
    } else {
        None
    }
}

/// Whether `s` consists of digits of `base`.
pub open spec fn all_digits(s: Seq<char>, base: nat) -> bool {
    forall|i: int| 0 <= i < s.len() ==> is_digit(#[trigger] s[i], base)
}

pub open spec fn is_digit(c: char, base: nat) -> bool {
    digit_value(c) matches Some(d) && d < base
}

/// The number that the digits of `s` write.
pub open spec fn value(s: Seq<char>, base: nat) -> nat
    decreases s.len(),
{
    if s.len() == 0 {
        0
    } else {
        value(s.drop_last(), base) * base + match digit_value(s.last()) {
            Some(d) => d,
            None => 0,
        }
    }
}

/// The number that `s` writes, where it is digits of `base` throughout, at least
/// one of them, and is not above `limit`.
pub open spec fn number(s: Seq<char>, base: nat, limit: nat) -> Option<nat> {
    if s.len() > 0 && all_digits(s, base) && value(s, base) <= limit {
        Some(value(s, base))
    } else {
        None
    }
}

proof fn lemma_value_grows(s: Seq<char>, n: int, base: nat)
    requires
        0 <= n <= s.len(),
        base >= 2,
    ensures
        value(s.take(n), base) <= value(s, base),
    decreases s.len() - n,
{
    if n == s.len() {
        assert(s.take(n) =~= s);
    } else {
        lemma_value_grows(s, n + 1, base);
        let t = s.take(n + 1);
        assert(t.drop_last() =~= s.take(n));
        assert(value(s.take(n), base) <= value(s.take(n), base) * base) by (nonlinear_arith)
            requires
                base >= 2,
        ;
    }
}

pub fn parse_number(s: &[char], base: u8, limit: u64) -> (r: Option<u64>)
    requires
        2 <= base <= 16,
        limit <= 0xFFFF_FFFF_FFFF,
    ensures
        match r {
            Some(v) => number(s@, base as nat, limit as nat) == Some(v as nat),
            None => number(s@, base as nat, limit as nat) is None,
        },
{
    if s.len() == 0 {
        return None;
    }
    let mut v: u64 = 0;
    let mut i: usize = 0;
    while i < s.len()
        invariant
            2 <= base <= 16,
            limit <= 0xFFFF_FFFF_FFFF,
            v <= limit,
            i <= s@.len(),
            v == value(s@.take(i as int), base as nat),
            forall|k: int| 0 <= k < i ==> is_digit(#[trigger] s@[k], base as nat),
        decreases s@.len() - i,
    {
        let d: u8 = match digit_of(s[i]) {
            Some(d) => d,
            None => {
                assert(!is_digit(s@[i as int], base as nat));
                return None;
            },
        };
        if d >= base {
            assert(!is_digit(s@[i as int], base as nat));
            return None;
        }
        assert(v * base <= 0xFFFF_FFFF_FFFF * 16) by (nonlinear_arith)
            requires
                v <= 0xFFFF_FFFF_FFFF,
                base <= 16,
        ;
        v = v * base as u64 + d as u64;
        i = i + 1;
        proof {
            assert(s@.take(i as int).drop_last() =~= s@.take(i - 1));
            lemma_value_grows(s@, i as int, base as nat);
        }
        if v > limit {
            return None;
        }
    }
    assert(s@.take(i as int) =~= s@);
    Some(v)
}

/// The signed 32-bit number that `s` writes in decimal, with or without a sign.
pub open spec fn signed32(s: Seq<char>) -> Option<i32> {
    if s.len() > 0 && s[0] == '-' {
        match number(s.skip(1), 10, 0x8000_0000) {
            Some(v) => Some((-v) as i32),
            None => None,
        }
    } else {
        let digits = if s.len() > 0 && s[0] == '+' {
            s.skip(1)
        } else {
            s
        };
        match number(digits, 10, 0x7FFF_FFFF) {
            Some(v) => Some(v as i32),
            None => None,
        }
    }
}

pub fn parse_i32(s: &[char]) -> (r: Option<i32>)
    ensures
        r == signed32(s@),
{
    let signed: bool = s.len() > 0 && (s[0] == '-' || s[0] == '+');
    let digits: &[char] = if signed {
        slice_subrange(s, 1, s.len())
    } else {
        s
    };
    assert(signed ==> digits@ =~= s@.skip(1));
    if signed && s[0] == '-' {
        match parse_number(digits, 10, 0x8000_0000) {
            Some(v) => Some((-(v as i64)) as i32),
            None => None,
        }
    } else {
        match parse_number(digits, 10, 0x7FFF_FFFF) {
            Some(v) => Some(v as i32),
            None => None,
        }
    }
}

/// The unsigned 32-bit number that `s` writes in decimal, with or without a plus.
pub open spec fn unsigned32(s: Seq<char>) -> Option<u32> {
    let digits = if s.len() > 0 && s[0] == '+' {
        s.skip(1)
    } else {
        s
    };
    match number(digits, 10, 0xFFFF_FFFF) {
        Some(v) => Some(v as u32),
        None => None,
    }
}

pub fn parse_u32(s: &[char]) -> (r: Option<u32>)
    ensures
        r == unsigned32(s@),
{
    let signed: bool = s.len() > 0 && s[0] == '+';
    let digits: &[char] = if signed {
        slice_subrange(s, 1, s.len())
    } else {
        s
    };
    assert(signed ==> digits@ =~= s@.skip(1));
    match parse_number(digits, 10, 0xFFFF_FFFF) {
        Some(v) => Some(v as u32),
        None => None,
    }
}

/// Whether two texts are the same.
pub fn same_chars(a: &[char], b: &[char]) -> (r: bool)
    ensures
        r == (a@ == b@),
{
    if a.len() != b.len() {
        return false;
    }
    let mut i: usize = 0;
    while i < a.len()
        invariant
            a@.len() == b@.len(),
            i <= a@.len(),
            forall|k: int| 0 <= k < i ==> a@[k] == b@[k],
        decreases a@.len() - i,
    {
        if a[i] != b[i] {
            return false;
        }
        i = i + 1;
    }
    assert(a@ =~= b@);
    true
}

/// Whether `t` occurs in `s`.
pub open spec fn occurs(s: Seq<char>, t: Seq<char>) -> bool {
    exists|i: int| 0 <= i <= s.len() - t.len() && #[trigger] s.subrange(i, i + t.len()) == t
}

fn matches_at(s: &[char], t: &[char], i: usize) -> (r: bool)
    requires
        i + t@.len() <= s@.len(),
    ensures
        r == (s@.subrange(i as int, i + t@.len()) == t@),
{
    let mut k: usize = 0;
    while k < t.len()
        invariant
            i + t@.len() <= s@.len(),
            s.len() == s@.len(),
            k <= t@.len(),
            forall|j: int| 0 <= j < k ==> s@[i + j] == t@[j],
        decreases t@.len() - k,
    {
        if s[i + k] != t[k] {
            assert(s@.subrange(i as int, i + t@.len())[k as int] == s@[i + k]);
            return false;
        }
        k = k + 1;
    }
    assert(s@.subrange(i as int, i + t@.len()) =~= t@);
    true
}

pub fn contains(s: &[char], t: &[char]) -> (r: bool)
    ensures
        r == occurs(s@, t@),
{
    assert(s.len() == s@.len());
    if t.len() > s.len() {
        return false;
    }
    let mut i: usize = 0;
    let last: usize = s.len() - t.len();
    loop
        invariant
            s.len() == s@.len(),
            last == s@.len() - t@.len(),
            i <= last,
            forall|j: int| 0 <= j < i ==> #[trigger] s@.subrange(j, j + t@.len()) != t@,
        decreases last - i,
    {
        if matches_at(s, t, i) {
            return true;
        }
        if i == last {
            return false;
        }
        i = i + 1;
    }
}

} // verus!
